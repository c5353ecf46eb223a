//! The layout of the workspace as Rust source: a field per package and per
//! binary target, and the lookup of a package by name.

use vstd::prelude::*;

use crate::paths::{path_starts_with, path_strip_prefix, starts_with, strip_prefix};
use crate::text::{chars_of, push_str, str_eq, string_of};

verus! {

/// Exactly one of the flags is set.
pub open spec fn exactly_one(v: Seq<bool>) -> bool {
    exists|i: int|
        0 <= i < v.len() && #[trigger] v[i] && forall|j: int| 0 <= j < v.len() && j != i ==> !v[j]
}

/// Whether exactly one of the flags is set.
pub fn one_of(v: &[bool]) -> (res: bool)
    ensures
        res == exactly_one(v@),
{
    let mut pos: usize = 0;
    while pos < v.len()
        invariant
            pos <= v@.len(),
            forall|j: int| 0 <= j < pos ==> !v@[j],
        ensures
            pos <= v@.len(),
            forall|j: int| 0 <= j < pos ==> !v@[j],
            pos < v@.len() ==> v@[pos as int],
        decreases v@.len() - pos,
    {
        if v[pos] {
            break;
        }
        pos = pos + 1;
    }
    if pos == v.len() {
        return false;
    }
    let mut k: usize = pos + 1;
    while k < v.len()
        invariant
            pos < k <= v@.len(),
            v@[pos as int],
            forall|j: int| 0 <= j < pos ==> !v@[j],
            forall|j: int| pos < j < k ==> !v@[j],
        decreases v@.len() - k,
    {
        if v[k] {
            proof {
                assert forall|i: int|
                    0 <= i < v@.len() && #[trigger] v@[i] implies exists|j: int|
                    0 <= j < v@.len() && j != i && v@[j] by {
                    if i == pos {
                        assert(v@[k as int]);
                    } else {
                        assert(v@[pos as int]);
                    }
                }
            }
            return false;
        }
        k = k + 1;
    }
    proof {
        assert(v@[pos as int]);
    }
    true
}

/// Where a workspace member lives.
#[derive(Debug, Clone, PartialEq, Eq)]
pub enum MemberKind {
    Dev,
    Crates,
    Plugins,
    /// A tool, at `path_in_ws` in the workspace.
    Tools { path_in_ws: String },
}

/// A member of the workspace, as the layout names it.
#[derive(Debug, Clone, PartialEq, Eq)]
pub struct WsLayoutMember {
    pub pkg_name: String,
    /// The package name with `-` replaced by `_`.
    pub rustic_name: String,
    pub kind: MemberKind,
    /// The binary targets: the field name and the target name.
    pub bins: Vec<(String, String)>,
}

/// `s` with each `-` replaced by `_`.
pub open spec fn rustic(s: Seq<char>) -> Seq<char> {
    s.map_values(|c: char| if c == '-' { '_' } else { c })
}

/// The field name of the binary target `bin` of the package `pkg_name`:
/// `<rustic>_main` for the binary named as the package.
pub open spec fn bin_field_name(pkg_name: Seq<char>, bin: Seq<char>) -> Seq<char> {
    if bin == pkg_name {
        rustic(pkg_name) + "_main"@
    } else {
        rustic(pkg_name) + "_"@ + bin
    }
}

/// The member lies in exactly one of the directories `dev`, `crates`,
/// `plugins` and `tools` of the workspace rooted at `ws_root`.
pub open spec fn member_placed(path: Seq<char>, ws_root: Seq<char>) -> bool {
    match path_strip_prefix(path, ws_root) {
        Some(p) => exactly_one(
            seq![
                path_starts_with(p, "dev"@),
                path_starts_with(p, "crates"@),
                path_starts_with(p, "plugins"@),
                path_starts_with(p, "tools"@),
            ],
        ),
        None => false,
    }
}

pub open spec fn member_kind(path_in_ws: Seq<char>) -> Option<MemberKindView> {
    if path_starts_with(path_in_ws, "dev"@) {
        Some(MemberKindView::Dev)
    } else if path_starts_with(path_in_ws, "crates"@) {
        Some(MemberKindView::Crates)
    } else if path_starts_with(path_in_ws, "plugins"@) {
        Some(MemberKindView::Plugins)
    } else if path_starts_with(path_in_ws, "tools"@) {
        Some(MemberKindView::Tools(path_in_ws))
    } else {
        None
    }
}

/// The mathematical content of a [`MemberKind`].
pub enum MemberKindView {
    Dev,
    Crates,
    Plugins,
    Tools(Seq<char>),
}

pub open spec fn kind_view(k: MemberKind) -> MemberKindView {
    match k {
        MemberKind::Dev => MemberKindView::Dev,
        MemberKind::Crates => MemberKindView::Crates,
        MemberKind::Plugins => MemberKindView::Plugins,
        MemberKind::Tools { path_in_ws } => MemberKindView::Tools(path_in_ws@),
    }
}

pub open spec fn bins_view(v: Seq<(String, String)>) -> Seq<(Seq<char>, Seq<char>)> {
    v.map_values(|b: (String, String)| (b.0@, b.1@))
}

pub open spec fn strs_view(s: Seq<String>) -> Seq<Seq<char>> {
    s.map_values(|x: String| x@)
}

/// The mathematical content of a [`WsLayoutMember`].
pub struct MemberView {
    pub pkg_name: Seq<char>,
    pub rustic_name: Seq<char>,
    pub kind: MemberKindView,
    pub bins: Seq<(Seq<char>, Seq<char>)>,
}

pub open spec fn member_view(m: WsLayoutMember) -> MemberView {
    MemberView {
        pkg_name: m.pkg_name@,
        rustic_name: m.rustic_name@,
        kind: kind_view(m.kind),
        bins: bins_view(m.bins@),
    }
}

pub open spec fn members_view(ms: Seq<WsLayoutMember>) -> Seq<MemberView> {
    ms.map_values(|m: WsLayoutMember| member_view(m))
}

fn rustic_name(s: &str) -> (res: String)
    ensures
        res@ == rustic(s@),
{
    let cs = chars_of(s);
    let mut out: Vec<char> = Vec::new();
    let mut i: usize = 0;
    while i < cs.len()
        invariant
            i <= cs@.len(),
            cs@ == s@,
            out@ == rustic(s@).take(i as int),
        decreases cs@.len() - i,
    {
        let c = cs[i];
        if c == '-' {
            out.push('_');
        } else {
            out.push(c);
        }
        proof {
            assert(out@ =~= rustic(s@).take(i + 1));
        }
        i = i + 1;
    }
    proof {
        assert(rustic(s@).take(cs@.len() as int) =~= rustic(s@));
    }
    string_of(out.as_slice())
}

/// The member `pkg_name` of the workspace rooted at `ws_root`, found at
/// `path`, with the binary targets `bin_names`, where it lies in exactly
/// one of the directories `dev`, `crates`, `plugins` and `tools`; `None`
/// where it does not.
pub fn try_layout_member(pkg_name: &str, path: &str, ws_root: &str, bin_names: &Vec<String>) -> (res:
    Option<WsLayoutMember>)
    ensures
        res is Some <==> member_placed(path@, ws_root@),
        res matches Some(m) ==> member_view(m) == (MemberView {
            pkg_name: pkg_name@,
            rustic_name: rustic(pkg_name@),
            kind: member_kind(path_strip_prefix(path@, ws_root@).unwrap()).unwrap(),
            bins: Seq::new(
                bin_names@.len(),
                |i: int| (bin_field_name(pkg_name@, bin_names@[i]@), bin_names@[i]@),
            ),
        }),
{
    let path_in_ws = match strip_prefix(path, ws_root) {
        Some(p) => p,
        None => {
            return None;
        },
    };
    let flags = [
        starts_with(path_in_ws.as_str(), "dev"),
        starts_with(path_in_ws.as_str(), "crates"),
        starts_with(path_in_ws.as_str(), "plugins"),
        starts_with(path_in_ws.as_str(), "tools"),
    ];
    let placed = one_of(&flags);
    proof {
        assert(flags@ =~= seq![
            path_starts_with(path_in_ws@, "dev"@),
            path_starts_with(path_in_ws@, "crates"@),
            path_starts_with(path_in_ws@, "plugins"@),
            path_starts_with(path_in_ws@, "tools"@),
        ]);
    }
    if placed {
        Some(layout_member(pkg_name, path, ws_root, bin_names))
    } else {
        None
    }
}

/// The member `pkg_name` of the workspace rooted at `ws_root`, found at
/// `path`, with the binary targets `bin_names`; it must lie in exactly one
/// of the directories `dev`, `crates`, `plugins` and `tools`.
pub fn layout_member(pkg_name: &str, path: &str, ws_root: &str, bin_names: &Vec<String>) -> (res:
    WsLayoutMember)
    requires
        member_placed(path@, ws_root@),
    ensures
        member_view(res) == (MemberView {
            pkg_name: pkg_name@,
            rustic_name: rustic(pkg_name@),
            kind: member_kind(path_strip_prefix(path@, ws_root@).unwrap()).unwrap(),
            bins: Seq::new(
                bin_names@.len(),
                |i: int| (bin_field_name(pkg_name@, bin_names@[i]@), bin_names@[i]@),
            ),
        }),
{
    let path_in_ws = match strip_prefix(path, ws_root) {
        Some(p) => p,
        None => {
            proof {
                assert(false);
            }
            String::new()
        },
    };
    let ghost piw = path_in_ws@;
    let is_dev = starts_with(path_in_ws.as_str(), "dev");
    let is_crates = starts_with(path_in_ws.as_str(), "crates");
    let is_plugins = starts_with(path_in_ws.as_str(), "plugins");
    let is_tools = starts_with(path_in_ws.as_str(), "tools");
    proof {
        let flags = seq![is_dev, is_crates, is_plugins, is_tools];
        assert(exactly_one(flags));
        let w = choose|i: int|
            0 <= i < flags.len() && #[trigger] flags[i] && forall|j: int|
                0 <= j < flags.len() && j != i ==> !flags[j];
        if w != 0 {
            assert(!flags[0]);
        }
        if w != 1 {
            assert(!flags[1]);
        }
        if w != 2 {
            assert(!flags[2]);
        }
        if w != 3 {
            assert(!flags[3]);
        }
    }
    let kind = if is_dev {
        MemberKind::Dev
    } else if is_crates {
        MemberKind::Crates
    } else if is_plugins {
        MemberKind::Plugins
    } else {
        MemberKind::Tools { path_in_ws }
    };
    let rustic_pkg = rustic_name(pkg_name);
    let mut bins: Vec<(String, String)> = Vec::new();
    let mut i: usize = 0;
    while i < bin_names.len()
        invariant
            i <= bin_names@.len(),
            rustic_pkg@ == rustic(pkg_name@),
            bins_view(bins@) == Seq::new(
                i as nat,
                |k: int| (bin_field_name(pkg_name@, bin_names@[k]@), bin_names@[k]@),
            ),
        decreases bin_names@.len() - i,
    {
        let name = bin_names[i].as_str();
        let mut field = String::new();
        push_str(&mut field, rustic_pkg.as_str());
        if str_eq(name, pkg_name) {
            push_str(&mut field, "_main");
        } else {
            push_str(&mut field, "_");
            push_str(&mut field, name);
        }
        proof {
            assert(field@ =~= bin_field_name(pkg_name@, name@));
        }
        let ghost before = bins_view(bins@);
        let owned = name.to_owned();
        let ghost entry = (field@, owned@);
        bins.push((field, owned));
        proof {
            assert(bins_view(bins@) =~= before.push(entry));
            assert(entry == (bin_field_name(pkg_name@, bin_names@[i as int]@), bin_names@[i as int]@));
            assert(bins_view(bins@) =~= Seq::new(
                (i + 1) as nat,
                |k: int| (bin_field_name(pkg_name@, bin_names@[k]@), bin_names@[k]@),
            ));
        }
        i = i + 1;
    }
    WsLayoutMember { pkg_name: pkg_name.to_owned(), rustic_name: rustic_pkg, kind, bins }
}

/// The constructor of `upsilon_xtask::pkg::Pkg` for a member of this kind.
pub open spec fn pkg_initializer(k: MemberKindView) -> Seq<char> {
    match k {
        MemberKindView::Dev => "dev_pkg"@,
        MemberKindView::Crates => "local_crates"@,
        MemberKindView::Plugins => "plugin_pkg"@,
        MemberKindView::Tools(_) => "tool_pkg"@,
    }
}

/// The extra argument of the constructor: the path of a tool.
pub open spec fn pkg_initializer_extra(k: MemberKindView) -> Seq<char> {
    match k {
        MemberKindView::Tools(p) => ", \""@ + p + "\""@,
        _ => Seq::empty(),
    }
}

pub open spec fn pkg_decl_line(m: MemberView) -> Seq<char> {
    "    pub "@ + m.rustic_name + ": upsilon_xtask::pkg::Pkg,\n"@
}

pub open spec fn pkg_init_line(m: MemberView) -> Seq<char> {
    "        "@ + m.rustic_name + ": upsilon_xtask::pkg::Pkg::"@ + pkg_initializer(m.kind) + "(\""@
        + m.pkg_name + "\""@ + pkg_initializer_extra(m.kind) + "),\n"@
}

pub open spec fn from_str_line(m: MemberView) -> Seq<char> {
    "            \""@ + m.pkg_name + "\" => Some(&WS_PKG_LAYOUT."@ + m.rustic_name + "),\n"@
}

pub open spec fn bin_decl_line(b: (Seq<char>, Seq<char>)) -> Seq<char> {
    "    pub "@ + b.0 + ": upsilon_xtask::pkg::BinTarget<'static>,\n"@
}

pub open spec fn bin_init_line(m: MemberView, b: (Seq<char>, Seq<char>)) -> Seq<char> {
    "        "@ + b.0 + ": upsilon_xtask::pkg::BinTarget::new(&WS_PKG_LAYOUT."@ + m.rustic_name
        + ", \""@ + b.1 + "\"),\n"@
}

pub open spec fn bin_decl_lines(bins: Seq<(Seq<char>, Seq<char>)>) -> Seq<char>
    decreases bins.len(),
{
    if bins.len() == 0 {
        Seq::empty()
    } else {
        bin_decl_lines(bins.drop_last()) + bin_decl_line(bins.last())
    }
}

pub open spec fn bin_init_lines(m: MemberView, bins: Seq<(Seq<char>, Seq<char>)>) -> Seq<char>
    decreases bins.len(),
{
    if bins.len() == 0 {
        Seq::empty()
    } else {
        bin_init_lines(m, bins.drop_last()) + bin_init_line(m, bins.last())
    }
}

/// The five pieces of layout source for the members `ms`: the fields of the
/// package layout, their initializers, the arms of the lookup by name, the
/// fields of the binary layout and their initializers.
pub open spec fn layout_pieces(ms: Seq<MemberView>) -> (Seq<char>, Seq<char>, Seq<char>, Seq<char>, Seq<char>)
    decreases ms.len(),
{
    if ms.len() == 0 {
        (Seq::empty(), Seq::empty(), Seq::empty(), Seq::empty(), Seq::empty())
    } else {
        let (a, b, c, d, e) = layout_pieces(ms.drop_last());
        let m = ms.last();
        (
            a + pkg_decl_line(m),
            b + pkg_init_line(m),
            c + from_str_line(m),
            d + bin_decl_lines(m.bins),
            e + bin_init_lines(m, m.bins),
        )
    }
}

pub open spec fn ws_pkg_layout_decl_head() -> Seq<char> {
    "pub struct WsPkgLayout {\n"@
}

pub open spec fn ws_pkg_layout_head() -> Seq<char> {
    "\nlazy_static::lazy_static! {\n    pub static ref WS_PKG_LAYOUT: WsPkgLayout = WsPkgLayout {\n"@
}

pub open spec fn ws_bin_layout_decl_head() -> Seq<char> {
    "pub struct WsBinLayout {\n"@
}

pub open spec fn ws_bin_layout_head() -> Seq<char> {
    "\nlazy_static::lazy_static! {\n    pub static ref WS_BIN_LAYOUT: WsBinLayout = WsBinLayout {\n"@
}

pub open spec fn package_from_str_head() -> Seq<char> {
    "match name {\n"@
}

pub open spec fn impl_head() -> Seq<char> {
    "\nimpl WsPkgLayout {\n    pub fn package_from_str(name: &str) -> Option<&'static upsilon_xtask::pkg::Pkg> {\n        "@
}

pub open spec fn impl_tail() -> Seq<char> {
    "\n    }\n}\n"@
}

pub open spec fn docs_tail() -> Seq<char> {
    "\n\nlazy_static::lazy_static! {\n    pub static ref DOCS: upsilon_xtask::docusaurus::Docusaurus = upsilon_xtask::docusaurus::Docusaurus::new(upsilon_xtask::ws_path!(\"docs\"));\n}\n"@
}

/// The layout source of the members `ms`, after the file's header comment.
pub open spec fn ws_layout_body(ms: Seq<MemberView>) -> Seq<char> {
    let (a, b, c, d, e) = layout_pieces(ms);
    ws_pkg_layout_decl_head() + a + "}\n\n"@ + ws_pkg_layout_head() + b + "    };\n}\n\n"@ + impl_head()
        + package_from_str_head() + c + "            _ => None,\n        }"@ + impl_tail()
        + ws_bin_layout_decl_head() + d + "}\n\n"@ + ws_bin_layout_head() + e + "    };\n}\n\n"@
        + docs_tail()
}

fn pkg_lines(m: &WsLayoutMember, decl: &mut String, init: &mut String, from_str: &mut String)
    ensures
        final(decl)@ == old(decl)@ + pkg_decl_line(member_view(*m)),
        final(init)@ == old(init)@ + pkg_init_line(member_view(*m)),
        final(from_str)@ == old(from_str)@ + from_str_line(member_view(*m)),
{
    let ghost mv = member_view(*m);
    let ghost d0 = decl@;
    push_str(decl, "    pub ");
    push_str(decl, m.rustic_name.as_str());
    push_str(decl, ": upsilon_xtask::pkg::Pkg,\n");
    proof {
        assert(decl@ =~= d0 + pkg_decl_line(mv));
    }
    let ghost i0 = init@;
    push_str(init, "        ");
    push_str(init, m.rustic_name.as_str());
    push_str(init, ": upsilon_xtask::pkg::Pkg::");
    match &m.kind {
        MemberKind::Dev => push_str(init, "dev_pkg"),
        MemberKind::Crates => push_str(init, "local_crates"),
        MemberKind::Plugins => push_str(init, "plugin_pkg"),
        MemberKind::Tools { .. } => push_str(init, "tool_pkg"),
    }
    push_str(init, "(\"");
    push_str(init, m.pkg_name.as_str());
    push_str(init, "\"");
    match &m.kind {
        MemberKind::Tools { path_in_ws } => {
            push_str(init, ", \"");
            push_str(init, path_in_ws.as_str());
            push_str(init, "\"");
        },
        _ => {},
    }
    push_str(init, "),\n");
    proof {
        assert(init@ =~= i0 + pkg_init_line(mv));
    }
    let ghost f0 = from_str@;
    push_str(from_str, "            \"");
    push_str(from_str, m.pkg_name.as_str());
    push_str(from_str, "\" => Some(&WS_PKG_LAYOUT.");
    push_str(from_str, m.rustic_name.as_str());
    push_str(from_str, "),\n");
    proof {
        assert(from_str@ =~= f0 + from_str_line(mv));
    }
}

fn bin_lines(m: &WsLayoutMember, decl: &mut String, init: &mut String)
    ensures
        final(decl)@ == old(decl)@ + bin_decl_lines(member_view(*m).bins),
        final(init)@ == old(init)@ + bin_init_lines(member_view(*m), member_view(*m).bins),
{
    let ghost mv = member_view(*m);
    let ghost d0 = decl@;
    let ghost i0 = init@;
    let mut i: usize = 0;
    proof {
        assert(mv.bins.take(0) =~= Seq::<(Seq<char>, Seq<char>)>::empty());
        assert(decl@ =~= d0 + bin_decl_lines(mv.bins.take(0)));
        assert(init@ =~= i0 + bin_init_lines(mv, mv.bins.take(0)));
    }
    while i < m.bins.len()
        invariant
            i <= m.bins@.len(),
            mv == member_view(*m),
            decl@ == d0 + bin_decl_lines(mv.bins.take(i as int)),
            init@ == i0 + bin_init_lines(mv, mv.bins.take(i as int)),
        decreases m.bins@.len() - i,
    {
        let ghost b = mv.bins[i as int];
        proof {
            assert(mv.bins.take(i + 1).drop_last() =~= mv.bins.take(i as int));
            assert(mv.bins.take(i + 1).last() == b);
        }
        let ghost dd = decl@;
        push_str(decl, "    pub ");
        push_str(decl, m.bins[i].0.as_str());
        push_str(decl, ": upsilon_xtask::pkg::BinTarget<'static>,\n");
        proof {
            assert(decl@ =~= dd + bin_decl_line(b));
        }
        let ghost ii = init@;
        push_str(init, "        ");
        push_str(init, m.bins[i].0.as_str());
        push_str(init, ": upsilon_xtask::pkg::BinTarget::new(&WS_PKG_LAYOUT.");
        push_str(init, m.rustic_name.as_str());
        push_str(init, ", \"");
        push_str(init, m.bins[i].1.as_str());
        push_str(init, "\"),\n");
        proof {
            assert(init@ =~= ii + bin_init_line(mv, b));
        }
        i = i + 1;
    }
    proof {
        assert(mv.bins.take(m.bins@.len() as int) =~= mv.bins);
    }
}

/// The layout source of the workspace members `members`, after the file's
/// header comment: the package layout and its lookup by name, the binary
/// layout, and the documentation site.
pub fn ws_layout_source(members: &Vec<WsLayoutMember>) -> (res: String)
    ensures
        res@ == ws_layout_body(members_view(members@)),
{
    let ghost ms = members_view(members@);
    let mut a = String::new();
    let mut b = String::new();
    let mut c = String::new();
    let mut d = String::new();
    let mut e = String::new();
    let mut i: usize = 0;
    proof {
        assert(ms.take(0) =~= Seq::<MemberView>::empty());
    }
    while i < members.len()
        invariant
            i <= members@.len(),
            ms == members_view(members@),
            (a@, b@, c@, d@, e@) == layout_pieces(ms.take(i as int)),
        decreases members@.len() - i,
    {
        proof {
            assert(ms.take(i + 1).drop_last() =~= ms.take(i as int));
            assert(ms.take(i + 1).last() == member_view(members@[i as int]));
        }
        pkg_lines(&members[i], &mut a, &mut b, &mut c);
        bin_lines(&members[i], &mut d, &mut e);
        i = i + 1;
    }
    proof {
        assert(ms.take(members@.len() as int) =~= ms);
    }
    let mut out = String::new();
    push_str(&mut out, "pub struct WsPkgLayout {\n");
    push_str(&mut out, a.as_str());
    push_str(&mut out, "}\n\n");
    push_str(
        &mut out,
        "\nlazy_static::lazy_static! {\n    pub static ref WS_PKG_LAYOUT: WsPkgLayout = WsPkgLayout {\n",
    );
    push_str(&mut out, b.as_str());
    push_str(&mut out, "    };\n}\n\n");
    push_str(
        &mut out,
        "\nimpl WsPkgLayout {\n    pub fn package_from_str(name: &str) -> Option<&'static upsilon_xtask::pkg::Pkg> {\n        ",
    );
    push_str(&mut out, "match name {\n");
    push_str(&mut out, c.as_str());
    push_str(&mut out, "            _ => None,\n        }");
    push_str(&mut out, "\n    }\n}\n");
    push_str(&mut out, "pub struct WsBinLayout {\n");
    push_str(&mut out, d.as_str());
    push_str(&mut out, "}\n\n");
    push_str(
        &mut out,
        "\nlazy_static::lazy_static! {\n    pub static ref WS_BIN_LAYOUT: WsBinLayout = WsBinLayout {\n",
    );
    push_str(&mut out, e.as_str());
    push_str(&mut out, "    };\n}\n\n");
    push_str(
        &mut out,
        "\n\nlazy_static::lazy_static! {\n    pub static ref DOCS: upsilon_xtask::docusaurus::Docusaurus = upsilon_xtask::docusaurus::Docusaurus::new(upsilon_xtask::ws_path!(\"docs\"));\n}\n",
    );
    proof {
        assert(out@ =~= ws_layout_body(ms));
    }
    out
}

} // verus!
