//! Lint configuration for `cargo cranky`: the lint table of the workspace
//! manifest, flattened into rustc lint flags, strictest level first.

use vstd::prelude::*;

use crate::text::{chars_lt, push_str, str_eq, str_lt};

verus! {

/// How strongly a lint is enforced.
#[derive(Debug, PartialEq, Eq, Structural, PartialOrd, Ord, Clone, Copy)]
pub enum LintLevel {
    Allow,
    Warn,
    ForceWarn,
    Deny,
    Forbid,
}

/// A lint, by its full path, and its level.
#[derive(Debug, PartialEq, Eq, Clone)]
pub struct LintCfg {
    name: String,
    level: LintLevel,
}

/// The lints table: entries in ascending key order, each key once, each a
/// level or a table of a lint group.
pub struct LintMap {
    entries: Vec<(String, LintLevelOrGroup)>,
}

/// An entry of the lints table.
pub enum LintLevelOrGroup {
    Level(LintLevel),
    Group(LintMap),
}

/// The mathematical content of a lints table.
pub enum LintNode {
    Level(LintLevel),
    Group(Seq<(Seq<char>, LintNode)>),
}

pub closed spec fn lint_map_view(m: LintMap) -> Seq<(Seq<char>, LintNode)>
    decreases m,
{
    Seq::new(
        m.entries@.len(),
        |i: int|
            (m.entries@[i].0@, if 0 <= i < m.entries@.len() {
                lint_entry_view(m.entries@[i].1)
            } else {
                LintNode::Level(LintLevel::Allow)
            }),
    )
}

pub closed spec fn lint_entry_view(e: LintLevelOrGroup) -> LintNode
    decreases e,
{
    match e {
        LintLevelOrGroup::Level(l) => LintNode::Level(l),
        LintLevelOrGroup::Group(m) => LintNode::Group(lint_map_view(m)),
    }
}

/// The keys of `s` ascend strictly.
pub open spec fn keys_ascending(s: Seq<(Seq<char>, LintNode)>) -> bool {
    forall|i: int, j: int| 0 <= i < j < s.len() ==> chars_lt(#[trigger] s[i].0, #[trigger] s[j].0)
}

/// Where key `k` goes among the entries `s`: before the first entry whose
/// key does not come before it.
pub open spec fn insert_position(s: Seq<(Seq<char>, LintNode)>, k: Seq<char>) -> int
    decreases s.len(),
{
    if s.len() == 0 || !chars_lt(s[0].0, k) {
        0
    } else {
        1 + insert_position(s.drop_first(), k)
    }
}

/// `s` with key `k` set to `v`: in its place where `s` has the key, else
/// inserted where it goes in key order.
pub open spec fn lint_insert(s: Seq<(Seq<char>, LintNode)>, k: Seq<char>, v: LintNode) -> Seq<(Seq<char>, LintNode)> {
    let i = insert_position(s, k);
    if i < s.len() && s[i].0 == k {
        s.update(i, (k, v))
    } else {
        s.insert(i, (k, v))
    }
}

proof fn lemma_chars_lt_irreflexive(a: Seq<char>)
    ensures
        !chars_lt(a, a),
    decreases a.len(),
{
    if a.len() > 0 {
        lemma_chars_lt_irreflexive(a.drop_first());
    }
}

proof fn lemma_chars_lt_total(a: Seq<char>, b: Seq<char>)
    ensures
        a == b || chars_lt(a, b) || chars_lt(b, a),
    decreases a.len(),
{
    if a.len() > 0 && b.len() > 0 && a[0] == b[0] {
        lemma_chars_lt_total(a.drop_first(), b.drop_first());
        if a.drop_first() == b.drop_first() {
            assert(a =~= seq![a[0]] + a.drop_first());
            assert(b =~= seq![b[0]] + b.drop_first());
        }
    } else if a.len() == 0 && b.len() == 0 {
        assert(a =~= b);
    }
}

proof fn lemma_chars_lt_transitive(a: Seq<char>, b: Seq<char>, c: Seq<char>)
    requires
        chars_lt(a, b),
        chars_lt(b, c),
    ensures
        chars_lt(a, c),
    decreases a.len(),
{
    if a.len() > 0 && a[0] == b[0] && b[0] == c[0] {
        lemma_chars_lt_transitive(a.drop_first(), b.drop_first(), c.drop_first());
    }
}

proof fn lemma_insert_position(s: Seq<(Seq<char>, LintNode)>, k: Seq<char>, i: int)
    requires
        0 <= i <= s.len(),
        forall|j: int| 0 <= j < i ==> chars_lt(#[trigger] s[j].0, k),
        i == s.len() || !chars_lt(s[i].0, k),
    ensures
        insert_position(s, k) == i,
    decreases i,
{
    if i > 0 {
        assert forall|j: int| 0 <= j < i - 1 implies chars_lt(#[trigger] s.drop_first()[j].0, k) by {
            assert(s.drop_first()[j] == s[j + 1]);
        }
        lemma_insert_position(s.drop_first(), k, i - 1);
        assert(chars_lt(s[0].0, k));
    }
}

impl LintMap {
    #[verifier::type_invariant]
    spec fn ascending(self) -> bool {
        forall|i: int, j: int|
            0 <= i < j < self.entries@.len() ==> chars_lt(#[trigger] self.entries@[i].0@, #[trigger] self.entries@[j].0@)
    }

    /// A table without entries.
    pub fn new() -> (res: Self)
        ensures
            lint_map_view(res) == Seq::<(Seq<char>, LintNode)>::empty(),
    {
        let res = LintMap { entries: Vec::new() };
        proof {
            assert(lint_map_view(res) =~= Seq::<(Seq<char>, LintNode)>::empty());
        }
        res
    }

    /// Sets `key` to `value`; the entries stay in ascending key order, each
    /// key once.
    pub fn insert(&mut self, key: String, value: LintLevelOrGroup)
        ensures
            lint_map_view(*final(self)) == lint_insert(lint_map_view(*old(self)), key@, lint_entry_view(value)),
            keys_ascending(lint_map_view(*final(self))),
    {
        proof {
            use_type_invariant(&*self);
        }
        let ghost v0 = lint_map_view(*self);
        let ghost kv = key@;
        let ghost ev = lint_entry_view(value);
        let mut entries: Vec<(String, LintLevelOrGroup)> = Vec::new();
        std::mem::swap(&mut entries, &mut self.entries);
        let ghost e0 = entries@;
        proof {
            assert(v0.len() == e0.len());
        }
        let mut i: usize = 0;
        while i < entries.len() && str_lt(entries[i].0.as_str(), key.as_str())
            invariant
                i <= entries@.len(),
                entries@ == e0,
                kv == key@,
                forall|j: int| 0 <= j < i ==> chars_lt(#[trigger] e0[j].0@, kv),
            decreases entries@.len() - i,
        {
            i = i + 1;
        }
        proof {
            assert forall|j: int| 0 <= j < i implies chars_lt(#[trigger] v0[j].0, kv) by {
                assert(v0[j].0 == e0[j].0@);
            }
            if i < e0.len() {
                assert(v0[i as int].0 == e0[i as int].0@);
            }
            lemma_insert_position(v0, kv, i as int);
        }
        if i < entries.len() && str_eq(entries[i].0.as_str(), key.as_str()) {
            entries.set(i, (key, value));
        } else {
            entries.insert(i, (key, value));
        }
        proof {
            let e1 = entries@;
            assert forall|a: int, b: int| 0 <= a < b < e1.len() implies chars_lt(#[trigger] e1[a].0@, #[trigger] e1[b].0@) by {
                if e1.len() == e0.len() {
                    if a != i && b != i {
                        assert(e1[a] == e0[a] && e1[b] == e0[b]);
                    } else if a == i {
                        assert(e1[b] == e0[b]);
                    } else {
                        assert(e1[a] == e0[a]);
                    }
                } else {
                    if b < i {
                        assert(e1[a] == e0[a] && e1[b] == e0[b]);
                    } else if a > i {
                        assert(e1[a] == e0[a - 1] && e1[b] == e0[b - 1]);
                    } else if a == i {
                        assert(e1[b] == e0[b - 1]);
                        assert(!chars_lt(e0[i as int].0@, kv));
                        lemma_chars_lt_total(e0[i as int].0@, kv);
                        if b - 1 > i {
                            lemma_chars_lt_transitive(kv, e0[i as int].0@, e0[b - 1].0@);
                        }
                    } else if b == i {
                        assert(e1[a] == e0[a]);
                    } else {
                        assert(e1[a] == e0[a] && e1[b] == e0[b - 1]);
                    }
                }
            }
        }
        self.entries = entries;
        proof {
            let e1 = self.entries@;
            let lv = lint_map_view(*self);
            if e1.len() == e0.len() {
                assert(lv =~= v0.update(i as int, (kv, ev)));
            } else {
                assert(lv =~= v0.insert(i as int, (kv, ev)));
            }
            assert forall|a: int, b: int| 0 <= a < b < lv.len() implies chars_lt(#[trigger] lv[a].0, #[trigger] lv[b].0) by {
                assert(lv[a].0 == e1[a].0@ && lv[b].0 == e1[b].0@);
            }
        }
    }
}

/// The names of `parts` joined with `::`.
pub open spec fn path_join_colons(parts: Seq<Seq<char>>) -> Seq<char>
    decreases parts.len(),
{
    if parts.len() == 0 {
        Seq::empty()
    } else if parts.len() == 1 {
        parts[0]
    } else {
        path_join_colons(parts.drop_last()) + "::"@ + parts.last()
    }
}

/// The lints of level `level` in `entries` under the group path `prefix`:
/// first those set at this depth, in order, then those of each group, in
/// order.
pub open spec fn collect_level(
    level: LintLevel,
    entries: Seq<(Seq<char>, LintNode)>,
    prefix: Seq<Seq<char>>,
) -> Seq<(Seq<char>, LintLevel)>
    decreases entries, 1nat,
{
    direct_lints(level, entries, prefix) + group_lints(level, entries, prefix)
}

/// The lints of level `level` set directly in `entries`.
pub open spec fn direct_lints(
    level: LintLevel,
    entries: Seq<(Seq<char>, LintNode)>,
    prefix: Seq<Seq<char>>,
) -> Seq<(Seq<char>, LintLevel)>
    decreases entries.len(),
{
    if entries.len() == 0 {
        Seq::empty()
    } else {
        direct_lints(level, entries.drop_last(), prefix) + match entries.last().1 {
            LintNode::Level(l) => if l == level {
                seq![(path_join_colons(prefix.push(entries.last().0)), l)]
            } else {
                Seq::empty()
            },
            LintNode::Group(_) => Seq::empty(),
        }
    }
}

/// The lints of level `level` inside the groups of `entries`.
pub open spec fn group_lints(
    level: LintLevel,
    entries: Seq<(Seq<char>, LintNode)>,
    prefix: Seq<Seq<char>>,
) -> Seq<(Seq<char>, LintLevel)>
    decreases entries, 0nat,
{
    if entries.len() == 0 {
        Seq::empty()
    } else {
        group_lints(level, entries.drop_last(), prefix) + match entries.last().1 {
            LintNode::Level(_) => Seq::empty(),
            LintNode::Group(inner) => {
                collect_level(level, inner, prefix.push(entries.last().0))
            },
        }
    }
}

/// The lints of a table, strictest level first: forbid, deny, force-warn,
/// warn, allow.
pub open spec fn flatten_lints(entries: Seq<(Seq<char>, LintNode)>) -> Seq<(Seq<char>, LintLevel)> {
    collect_level(LintLevel::Forbid, entries, Seq::empty()) + collect_level(
        LintLevel::Deny,
        entries,
        Seq::empty(),
    ) + collect_level(LintLevel::ForceWarn, entries, Seq::empty()) + collect_level(
        LintLevel::Warn,
        entries,
        Seq::empty(),
    ) + collect_level(LintLevel::Allow, entries, Seq::empty())
}

/// The lint configuration of the workspace.
#[derive(Debug, PartialEq)]
pub struct CrankyConfig {
    lints: Vec<LintCfg>,
}

impl CrankyConfig {
    /// The lints, in the order their flags are passed.
    pub closed spec fn lints_spec(&self) -> Seq<(Seq<char>, LintLevel)> {
        self.lints@.map_values(|l: LintCfg| (l.name@, l.level))
    }
}

pub closed spec fn lints_view(v: Seq<LintCfg>) -> Seq<(Seq<char>, LintLevel)> {
    v.map_values(|l: LintCfg| (l.name@, l.level))
}

impl LintCfg {
    pub closed spec fn name_spec(&self) -> Seq<char> {
        self.name@
    }

    pub closed spec fn level_spec(&self) -> LintLevel {
        self.level
    }

    /// The full path of the lint.
    pub fn name(&self) -> (res: &str)
        ensures
            res@ == self.name_spec(),
    {
        self.name.as_str()
    }

    /// The level of the lint.
    pub fn level(&self) -> (res: LintLevel)
        ensures
            res == self.level_spec(),
    {
        self.level
    }
}

impl CrankyConfig {
    /// The lints, in the order their flags are passed.
    pub fn lints(&self) -> (res: &[LintCfg])
        ensures
            lints_view(res@) == self.lints_spec(),
            forall|i: int|
                0 <= i < res@.len() ==> ((#[trigger] res@[i]).name_spec(), res@[i].level_spec())
                    == self.lints_spec()[i],
    {
        self.lints.as_slice()
    }
}

pub open spec fn strs(v: Seq<String>) -> Seq<Seq<char>> {
    v.map_values(|s: String| s@)
}

/// The names of `parts` joined with `::`.
fn join_colons(parts: &Vec<String>) -> (res: String)
    ensures
        res@ == path_join_colons(strs(parts@)),
{
    let mut out = String::new();
    let mut i: usize = 0;
    while i < parts.len()
        invariant
            i <= parts@.len(),
            out@ == path_join_colons(strs(parts@).take(i as int)),
        decreases parts@.len() - i,
    {
        let ghost before = out@;
        if i > 0 {
            push_str(&mut out, "::");
        }
        push_str(&mut out, parts[i].as_str());
        proof {
            let sv = strs(parts@);
            assert(sv.take(i + 1).drop_last() =~= sv.take(i as int));
            assert(sv.take(i + 1).last() == parts@[i as int]@);
            if i == 0 {
                assert(sv.take(1)[0] == parts@[0]@);
                assert(before =~= Seq::<char>::empty());
            }
            assert(out@ =~= path_join_colons(sv.take(i + 1)));
        }
        i = i + 1;
    }
    proof {
        assert(strs(parts@).take(parts@.len() as int) =~= strs(parts@));
    }
    out
}

proof fn lemma_lint_map_index(m: LintMap, i: int)
    requires
        0 <= i < m.entries@.len(),
    ensures
        lint_map_view(m).len() == m.entries@.len(),
        lint_map_view(m)[i] == (m.entries@[i].0@, lint_entry_view(m.entries@[i].1)),
{
}

/// Appends the lints of level `level` in `map`, under the group path
/// `name_prefix`, to `lints`.
fn append_for_lint_level(
    level: LintLevel,
    lints: &mut Vec<LintCfg>,
    name_prefix: &mut Vec<String>,
    map: &LintMap,
)
    ensures
        lints_view(final(lints)@) == lints_view(old(lints)@) + collect_level(
            level,
            lint_map_view(*map),
            strs(old(name_prefix)@),
        ),
        strs(final(name_prefix)@) == strs(old(name_prefix)@),
    decreases *map,
{
    let ghost mv = lint_map_view(*map);
    let ghost prefix = strs(name_prefix@);
    let ghost start = lints_view(lints@);
    let n = map.entries.len();
    proof {
        assert(mv.take(0) =~= Seq::<(Seq<char>, LintNode)>::empty());
        assert(start + Seq::<(Seq<char>, LintLevel)>::empty() =~= start);
    }
    let mut i: usize = 0;
    while i < n
        invariant
            i <= n,
            n == map.entries@.len(),
            mv == lint_map_view(*map),
            mv.len() == n,
            strs(name_prefix@) == prefix,
            lints_view(lints@) == start + direct_lints(level, mv.take(i as int), prefix),
        decreases n - i,
    {
        proof {
            lemma_lint_map_index(*map, i as int);
            assert(mv.take(i + 1).drop_last() =~= mv.take(i as int));
            assert(mv.take(i + 1).last() == mv[i as int]);
        }
        match &map.entries[i].1 {
            LintLevelOrGroup::Level(l) => {
                if *l == level {
                    let ghost before = lints_view(lints@);
                    name_prefix.push(map.entries[i].0.clone());
                    let name = join_colons(name_prefix);
                    proof {
                        assert(strs(name_prefix@) =~= prefix.push(map.entries@[i as int].0@));
                    }
                    name_prefix.pop();
                    proof {
                        assert(strs(name_prefix@) =~= prefix);
                    }
                    let ghost nv = name@;
                    lints.push(LintCfg { name, level: *l });
                    proof {
                        assert(lints_view(lints@) =~= before.push((nv, level)));
                        assert(lints_view(lints@) =~= start + direct_lints(
                            level,
                            mv.take(i + 1),
                            prefix,
                        ));
                    }
                } else {
                    proof {
                        assert(direct_lints(level, mv.take(i + 1), prefix) =~= direct_lints(
                            level,
                            mv.take(i as int),
                            prefix,
                        ));
                    }
                }
            },
            LintLevelOrGroup::Group(_) => {
                proof {
                    assert(direct_lints(level, mv.take(i + 1), prefix) =~= direct_lints(
                        level,
                        mv.take(i as int),
                        prefix,
                    ));
                }
            },
        }
        i = i + 1;
    }
    let ghost mid = lints_view(lints@);
    proof {
        assert(mv.take(n as int) =~= mv);
        assert(mid + Seq::<(Seq<char>, LintLevel)>::empty() =~= mid);
    }
    let mut i: usize = 0;
    while i < n
        invariant
            i <= n,
            n == map.entries@.len(),
            mv == lint_map_view(*map),
            mv.len() == n,
            strs(name_prefix@) == prefix,
            mid == start + direct_lints(level, mv, prefix),
            lints_view(lints@) == mid + group_lints(level, mv.take(i as int), prefix),
        decreases n - i,
    {
        proof {
            lemma_lint_map_index(*map, i as int);
            assert(mv.take(i + 1).drop_last() =~= mv.take(i as int));
            assert(mv.take(i + 1).last() == mv[i as int]);
        }
        match &map.entries[i].1 {
            LintLevelOrGroup::Group(inner) => {
                let ghost before = lints_view(lints@);
                name_prefix.push(map.entries[i].0.clone());
                proof {
                    assert(strs(name_prefix@) =~= prefix.push(map.entries@[i as int].0@));
                    assert(decreases_to!(*map => map.entries));
                    assert(decreases_to!(map.entries => map.entries@));
                    assert(decreases_to!(map.entries@ => map.entries@[i as int]));
                    assert(decreases_to!(map.entries@[i as int] => map.entries@[i as int].1));
                }
                append_for_lint_level(level, lints, name_prefix, inner);
                let ghost post = name_prefix@;
                name_prefix.pop();
                proof {
                    assert(strs(post) == prefix.push(map.entries@[i as int].0@));
                    assert(name_prefix@ =~= post.drop_last());
                    assert(strs(name_prefix@) =~= strs(post).drop_last());
                    assert(strs(name_prefix@) =~= prefix);
                    assert(lints_view(lints@) =~= mid + group_lints(level, mv.take(i + 1), prefix));
                }
            },
            LintLevelOrGroup::Level(_) => {
                proof {
                    assert(group_lints(level, mv.take(i + 1), prefix) =~= group_lints(
                        level,
                        mv.take(i as int),
                        prefix,
                    ));
                }
            },
        }
        i = i + 1;
    }
    proof {
        assert(mv.take(n as int) =~= mv);
        assert(lints_view(lints@) =~= start + collect_level(level, mv, prefix));
    }
}

/// The rustc flags that set one lint's level.
pub open spec fn lint_args(l: (Seq<char>, LintLevel)) -> Seq<Seq<char>> {
    match l.1 {
        LintLevel::Allow => seq!["-A"@ + l.0],
        LintLevel::Warn => seq!["-W"@ + l.0],
        LintLevel::ForceWarn => seq!["--force-warn"@, l.0],
        LintLevel::Deny => seq!["-D"@ + l.0],
        LintLevel::Forbid => seq!["-F"@ + l.0],
    }
}

/// The rustc flags of a list of lints, in order.
pub open spec fn lints_args(ls: Seq<(Seq<char>, LintLevel)>) -> Seq<Seq<char>>
    decreases ls.len(),
{
    if ls.len() == 0 {
        Seq::empty()
    } else {
        lints_args(ls.drop_last()) + lint_args(ls.last())
    }
}

pub open spec fn level_rank(l: LintLevel) -> int {
    match l {
        LintLevel::Allow => 0,
        LintLevel::Warn => 1,
        LintLevel::ForceWarn => 2,
        LintLevel::Deny => 3,
        LintLevel::Forbid => 4,
    }
}

impl CrankyConfig {
    /// The configuration of a lints table: every lint of the table with its
    /// full `group::name` path, strictest level first, and within a level
    /// in table order, the lints set at a depth before those of its groups.
    pub fn from_lint_map(map: &LintMap) -> (res: CrankyConfig)
        ensures
            res.lints_spec() == flatten_lints(lint_map_view(*map)),
            keys_ascending(lint_map_view(*map)),
    {
        proof {
            use_type_invariant(map);
            let lv = lint_map_view(*map);
            assert forall|a: int, b: int| 0 <= a < b < lv.len() implies chars_lt(#[trigger] lv[a].0, #[trigger] lv[b].0) by {
                assert(lv[a].0 == map.entries@[a].0@ && lv[b].0 == map.entries@[b].0@);
            }
        }
        let mut lints: Vec<LintCfg> = Vec::new();
        let mut prefix: Vec<String> = Vec::new();
        proof {
            assert(strs(prefix@) =~= Seq::<Seq<char>>::empty());
            assert(lints_view(lints@) =~= Seq::<(Seq<char>, LintLevel)>::empty());
        }
        append_for_lint_level(LintLevel::Forbid, &mut lints, &mut prefix, map);
        append_for_lint_level(LintLevel::Deny, &mut lints, &mut prefix, map);
        append_for_lint_level(LintLevel::ForceWarn, &mut lints, &mut prefix, map);
        append_for_lint_level(LintLevel::Warn, &mut lints, &mut prefix, map);
        append_for_lint_level(LintLevel::Allow, &mut lints, &mut prefix, map);
        let res = CrankyConfig { lints };
        proof {
            assert(res.lints_spec() =~= flatten_lints(lint_map_view(*map)));
        }
        res
    }

    /// The rustc flags that set the configured lint levels, in order:
    /// `-A`, `-W`, `-D` or `-F` glued to the lint name, or `--force-warn`
    /// and the name as two arguments.
    pub fn extra_right_args(&self) -> (res: Vec<String>)
        ensures
            res@.map_values(|s: String| s@) == lints_args(self.lints_spec()),
    {
        let mut args: Vec<String> = Vec::new();
        let ghost ls = self.lints_spec();
        let mut i: usize = 0;
        while i < self.lints.len()
            invariant
                i <= self.lints@.len(),
                ls == self.lints_spec(),
                ls.len() == self.lints@.len(),
                args@.map_values(|s: String| s@) == lints_args(ls.take(i as int)),
            decreases self.lints@.len() - i,
        {
            let lint = &self.lints[i];
            let ghost before = args@.map_values(|s: String| s@);
            proof {
                assert(ls.take(i + 1).drop_last() =~= ls.take(i as int));
                assert(ls.take(i + 1).last() == (lint.name@, lint.level));
            }
            let head = match lint.level {
                LintLevel::Allow => "-A",
                LintLevel::Warn => "-W",
                LintLevel::ForceWarn => "--force-warn",
                LintLevel::Deny => "-D",
                LintLevel::Forbid => "-F",
            };
            match lint.level {
                LintLevel::ForceWarn => {
                    args.push(head.to_owned());
                    args.push(lint.name.clone());
                    proof {
                        assert(args@.map_values(|s: String| s@) =~= before + seq![
                            "--force-warn"@,
                            lint.name@,
                        ]);
                    }
                },
                _ => {
                    let mut a = head.to_owned();
                    push_str(&mut a, lint.name.as_str());
                    let ghost av = a@;
                    args.push(a);
                    proof {
                        assert(args@.map_values(|s: String| s@) =~= before + seq![av]);
                    }
                },
            }
            i = i + 1;
        }
        proof {
            assert(ls.take(self.lints@.len() as int) =~= ls);
        }
        args
    }
}

proof fn lemma_collect_level_only(level: LintLevel, entries: Seq<(Seq<char>, LintNode)>, prefix: Seq<Seq<char>>)
    ensures
        forall|i: int| 0 <= i < collect_level(level, entries, prefix).len() ==> (#[trigger] collect_level(level, entries, prefix)[i]).1 == level,
    decreases entries, 1nat,
{
    lemma_direct_lints_only(level, entries, prefix);
    lemma_group_lints_only(level, entries, prefix);
    let d = direct_lints(level, entries, prefix);
    let g = group_lints(level, entries, prefix);
    assert forall|i: int| 0 <= i < collect_level(level, entries, prefix).len() implies (#[trigger] collect_level(level, entries, prefix)[i]).1 == level by {
        if i < d.len() {
            assert(collect_level(level, entries, prefix)[i] == d[i]);
        } else {
            assert(collect_level(level, entries, prefix)[i] == g[i - d.len()]);
        }
    }
}

proof fn lemma_direct_lints_only(level: LintLevel, entries: Seq<(Seq<char>, LintNode)>, prefix: Seq<Seq<char>>)
    ensures
        forall|i: int| 0 <= i < direct_lints(level, entries, prefix).len() ==> (#[trigger] direct_lints(level, entries, prefix)[i]).1 == level,
    decreases entries.len(),
{
    if entries.len() > 0 {
        lemma_direct_lints_only(level, entries.drop_last(), prefix);
        let a = direct_lints(level, entries.drop_last(), prefix);
        assert forall|i: int| 0 <= i < direct_lints(level, entries, prefix).len() implies (#[trigger] direct_lints(level, entries, prefix)[i]).1 == level by {
            if i < a.len() {
                assert(direct_lints(level, entries, prefix)[i] == a[i]);
            }
        }
    }
}

proof fn lemma_group_lints_only(level: LintLevel, entries: Seq<(Seq<char>, LintNode)>, prefix: Seq<Seq<char>>)
    ensures
        forall|i: int| 0 <= i < group_lints(level, entries, prefix).len() ==> (#[trigger] group_lints(level, entries, prefix)[i]).1 == level,
    decreases entries, 0nat,
{
    if entries.len() > 0 {
        lemma_group_lints_only(level, entries.drop_last(), prefix);
        let a = group_lints(level, entries.drop_last(), prefix);
        match entries.last().1 {
            LintNode::Level(_) => {
                assert forall|i: int| 0 <= i < group_lints(level, entries, prefix).len() implies (#[trigger] group_lints(level, entries, prefix)[i]).1 == level by {
                    assert(group_lints(level, entries, prefix)[i] == a[i]);
                }
            },
            LintNode::Group(inner) => {
                assert(decreases_to!(entries => entries.last()));
                lemma_collect_level_only(level, inner, prefix.push(entries.last().0));
                let b = collect_level(level, inner, prefix.push(entries.last().0));
                assert forall|i: int| 0 <= i < group_lints(level, entries, prefix).len() implies (#[trigger] group_lints(level, entries, prefix)[i]).1 == level by {
                    if i < a.len() {
                        assert(group_lints(level, entries, prefix)[i] == a[i]);
                    } else {
                        assert(group_lints(level, entries, prefix)[i] == b[i - a.len()]);
                    }
                }
            },
        }
    }
}

/// The flattened lints come strictest level first: forbid, then deny,
/// force-warn, warn and allow.
pub proof fn lemma_flatten_lints_strictest_first(entries: Seq<(Seq<char>, LintNode)>, i: int, j: int)
    requires
        0 <= i < j < flatten_lints(entries).len(),
    ensures
        level_rank(flatten_lints(entries)[i].1) >= level_rank(flatten_lints(entries)[j].1),
{
    let e = Seq::<Seq<char>>::empty();
    let f = collect_level(LintLevel::Forbid, entries, e);
    let d = collect_level(LintLevel::Deny, entries, e);
    let w2 = collect_level(LintLevel::ForceWarn, entries, e);
    let w = collect_level(LintLevel::Warn, entries, e);
    let a = collect_level(LintLevel::Allow, entries, e);
    lemma_collect_level_only(LintLevel::Forbid, entries, e);
    lemma_collect_level_only(LintLevel::Deny, entries, e);
    lemma_collect_level_only(LintLevel::ForceWarn, entries, e);
    lemma_collect_level_only(LintLevel::Warn, entries, e);
    lemma_collect_level_only(LintLevel::Allow, entries, e);
    let all = flatten_lints(entries);
    assert(all == f + d + w2 + w + a);
    let r = |k: int| if k < f.len() {
        4int
    } else if k < f.len() + d.len() {
        3int
    } else if k < f.len() + d.len() + w2.len() {
        2int
    } else if k < f.len() + d.len() + w2.len() + w.len() {
        1int
    } else {
        0int
    };
    assert forall|k: int| 0 <= k < all.len() implies level_rank(#[trigger] all[k].1) == r(k) by {
        if k < f.len() {
            assert(all[k] == f[k]);
        } else if k < f.len() + d.len() {
            assert(all[k] == d[k - f.len()]);
        } else if k < f.len() + d.len() + w2.len() {
            assert(all[k] == w2[k - f.len() - d.len()]);
        } else if k < f.len() + d.len() + w2.len() + w.len() {
            assert(all[k] == w[k - f.len() - d.len() - w2.len()]);
        } else {
            assert(all[k] == a[k - f.len() - d.len() - w2.len() - w.len()]);
        }
    }
    assert(level_rank(all[i].1) == r(i));
    assert(level_rank(all[j].1) == r(j));
}

} // verus!
