//! Style checks on the workspace's Cargo manifests: the order of the
//! dependencies, and dependencies declared again though the workspace
//! declares them.

use vstd::prelude::*;

use crate::text::{chars_lt, push_str, str_eq, str_lt, str_starts_with};

verus! {

/// A TOML item, as far as the manifest checks read it.
#[derive(Debug, PartialEq, Eq)]
pub enum TomlItem {
    /// A table (`[name]`), with its entries in document order.
    Table(Vec<(String, TomlItem)>),
    /// An inline table (`{ .. }`), with its entries in document order.
    InlineTable(Vec<(String, TomlItem)>),
    Str(String),
    Bool(bool),
    /// Any other value.
    Other,
}

/// A parsed manifest: the entries of its root table, in document order.
#[derive(Debug, PartialEq, Eq)]
pub struct TomlDocument {
    pub root: Vec<(String, TomlItem)>,
}

/// The position of the entry named `k` among `entries`, if any.
pub open spec fn entry_index(entries: Seq<(String, TomlItem)>, k: Seq<char>) -> Option<int>
    decreases entries.len(),
{
    if entries.len() == 0 {
        None
    } else {
        match entry_index(entries.drop_last(), k) {
            Some(i) => Some(i),
            None => if entries.last().0@ == k {
                Some(entries.len() - 1)
            } else {
                None
            },
        }
    }
}

pub open spec fn entry_get(entries: Seq<(String, TomlItem)>, k: Seq<char>) -> Option<(Seq<char>, TomlItem)> {
    match entry_index(entries, k) {
        Some(i) => Some((entries[i].0@, entries[i].1)),
        None => None,
    }
}

/// The entry that the key path `path` leads to from the root.
pub open spec fn lookup_path(root: Seq<(String, TomlItem)>, path: Seq<Seq<char>>) -> Option<(Seq<char>, TomlItem)>
    decreases path.len(),
{
    if path.len() == 0 {
        None
    } else if path.len() == 1 {
        entry_get(root, path[0])
    } else {
        match lookup_path(root, path.drop_last()) {
            Some((_, TomlItem::Table(t))) => entry_get(t@, path.last()),
            _ => None,
        }
    }
}

/// Every entry that a proper prefix of `path` leads to is a table: the
/// walk down the path goes only through tables.
pub open spec fn path_walkable(root: Seq<(String, TomlItem)>, path: Seq<Seq<char>>) -> bool {
    forall|i: int|
        1 <= i < path.len() ==> match #[trigger] lookup_path(root, path.take(i)) {
            Some((_, item)) => item is Table,
            None => true,
        }
}

pub open spec fn strs_view(s: Seq<&str>) -> Seq<Seq<char>> {
    s.map_values(|x: &str| x@)
}

proof fn lemma_entry_index(entries: Seq<(String, TomlItem)>, k: Seq<char>)
    ensures
        match entry_index(entries, k) {
            Some(i) => 0 <= i < entries.len() && entries[i].0@ == k && forall|j: int|
                0 <= j < i ==> #[trigger] entries[j].0@ != k,
            None => forall|j: int| 0 <= j < entries.len() ==> #[trigger] entries[j].0@ != k,
        },
    decreases entries.len(),
{
    if entries.len() > 0 {
        let d = entries.drop_last();
        lemma_entry_index(d, k);
        match entry_index(d, k) {
            Some(i) => {
                assert(d[i] == entries[i]);
                assert forall|j: int| 0 <= j < i implies #[trigger] entries[j].0@ != k by {
                    assert(d[j] == entries[j]);
                }
            },
            None => {
                assert forall|j: int| 0 <= j < entries.len() - 1 implies #[trigger] entries[j].0@ != k by {
                    assert(d[j] == entries[j]);
                }
            },
        }
    }
}

/// Finds the entry named `k` among `entries`.
fn find_entry(entries: &Vec<(String, TomlItem)>, k: &str) -> (res: Option<usize>)
    ensures
        match res {
            Some(i) => i < entries@.len() && entries@[i as int].0@ == k@ && entry_index(entries@, k@)
                == Some(i as int),
            None => entry_index(entries@, k@) is None,
        },
{
    let mut i: usize = 0;
    proof {
        lemma_entry_index(entries@, k@);
    }
    while i < entries.len()
        invariant
            i <= entries@.len(),
            forall|j: int| 0 <= j < i ==> #[trigger] entries@[j].0@ != k@,
            match entry_index(entries@, k@) {
                Some(m) => 0 <= m < entries@.len() && entries@[m].0@ == k@ && forall|j: int|
                    0 <= j < m ==> #[trigger] entries@[j].0@ != k@,
                None => forall|j: int| 0 <= j < entries@.len() ==> #[trigger] entries@[j].0@ != k@,
            },
        decreases entries@.len() - i,
    {
        if str_eq(entries[i].0.as_str(), k) {
            proof {
                match entry_index(entries@, k@) {
                    Some(m) => {
                        assert(m == i) by {
                            if m < i {
                                assert(entries@[m].0@ != k@);
                            }
                            if i < m {
                                assert(entries@[i as int].0@ != k@);
                            }
                        }
                    },
                    None => {
                        assert(entries@[i as int].0@ != k@);
                    },
                }
            }
            return Some(i);
        }
        i = i + 1;
    }
    None
}

/// The entry that the key path `kpath` leads to from the root of `doc`,
/// where every step but the last goes into a table.
pub fn doc_extract_key_path_table<'a>(doc: &'a TomlDocument, kpath: &[&str]) -> (res: Option<
    (&'a String, &'a TomlItem),
>)
    requires
        path_walkable(doc.root@, strs_view(kpath@)),
    ensures
        match res {
            Some((k, item)) => lookup_path(doc.root@, strs_view(kpath@)) == Some((k@, *item)),
            None => lookup_path(doc.root@, strs_view(kpath@)) is None,
        },
{
    let ghost path = strs_view(kpath@);
    if kpath.len() == 0 {
        return None;
    }
    let mut entries: &Vec<(String, TomlItem)> = &doc.root;
    let mut found: (&String, &TomlItem);
    match find_entry(entries, kpath[0]) {
        Some(j) => {
            found = (&entries[j].0, &entries[j].1);
        },
        None => {
            proof {
                assert(path.take(1).drop_last() =~= Seq::<Seq<char>>::empty());
                assert(path.take(1) =~= seq![path[0]]);
                if path.len() == 1 {
                    assert(path.take(1) =~= path);
                }
                lemma_lookup_none_extends(doc.root@, path, 1);
            }
            return None;
        },
    }
    proof {
        assert(path.take(1) =~= seq![path[0]]);
    }
    let mut i: usize = 1;
    while i < kpath.len()
        invariant
            1 <= i <= kpath@.len(),
            path == strs_view(kpath@),
            path_walkable(doc.root@, path),
            lookup_path(doc.root@, path.take(i as int)) == Some((found.0@, *found.1)),
        decreases kpath@.len() - i,
    {
        let ghost prev = path.take(i as int);
        assert(lookup_path(doc.root@, prev) is Some);
        let t = match found.1 {
            TomlItem::Table(t) => t,
            _ => {
                proof {
                    assert(lookup_path(doc.root@, path.take(i as int)) is Some);
                }
                return None;
            },
        };
        entries = t;
        proof {
            assert(path.take(i + 1).drop_last() =~= prev);
            assert(path.take(i + 1).last() == path[i as int]);
        }
        match find_entry(entries, kpath[i]) {
            Some(j) => {
                found = (&entries[j].0, &entries[j].1);
            },
            None => {
                proof {
                    lemma_lookup_none_extends(doc.root@, path, i + 1);
                }
                return None;
            },
        }
        i = i + 1;
    }
    proof {
        assert(path.take(kpath@.len() as int) =~= path);
    }
    Some(found)
}

/// Once a prefix of a path leads nowhere, the whole path leads nowhere.
proof fn lemma_lookup_none_extends(root: Seq<(String, TomlItem)>, path: Seq<Seq<char>>, i: int)
    requires
        1 <= i <= path.len(),
        lookup_path(root, path.take(i)) is None,
    ensures
        lookup_path(root, path) is None,
    decreases path.len() - i,
{
    if i < path.len() {
        assert(path.take(i + 1).drop_last() =~= path.take(i));
        lemma_lookup_none_extends(root, path, i + 1);
    } else {
        assert(path.take(i) =~= path);
    }
}

/// Where the scan of a dependency table stands: among the outside
/// dependencies, or among those of the workspace (named `upsilon-..`), with
/// the dependency the next one is held against.
pub enum DepOrderState {
    NonUpsilon(Option<Seq<char>>),
    Upsilon(Option<Seq<char>>),
}

pub open spec fn is_upsilon_dep(k: Seq<char>) -> bool {
    8 <= k.len() && k.take(8) == "upsilon-"@
}

/// The complaint about `k` coming after `last`, where it should come
/// before it.
pub open spec fn misordered(last: Option<Seq<char>>, k: Seq<char>) -> Seq<(Seq<char>, Seq<char>)> {
    match last {
        Some(l) => if chars_lt(k, l) {
            seq![(k, k + " should be before "@ + l)]
        } else {
            Seq::empty()
        },
        None => Seq::empty(),
    }
}

/// The scan of the dependency names `keys`, in order: outside dependencies
/// come first, in order, each held against the one before it; the
/// workspace's own come last, each held against the first of them.
pub open spec fn dep_order_scan(keys: Seq<Seq<char>>) -> (DepOrderState, Seq<(Seq<char>, Seq<char>)>)
    decreases keys.len(),
{
    if keys.len() == 0 {
        (DepOrderState::NonUpsilon(None), Seq::empty())
    } else {
        let (st, issues) = dep_order_scan(keys.drop_last());
        let k = keys.last();
        match st {
            DepOrderState::NonUpsilon(last) => if is_upsilon_dep(k) {
                (DepOrderState::Upsilon(Some(k)), issues)
            } else {
                (DepOrderState::NonUpsilon(Some(k)), issues + misordered(last, k))
            },
            DepOrderState::Upsilon(last) => if is_upsilon_dep(k) {
                (DepOrderState::Upsilon(last), issues + misordered(last, k))
            } else {
                (
                    DepOrderState::Upsilon(last),
                    issues + seq![(k, "upsilon deps should be last"@)],
                )
            },
        }
    }
}

/// The complaints about the order of the dependencies named `keys`.
pub open spec fn dep_order_issues(keys: Seq<Seq<char>>) -> Seq<(Seq<char>, Seq<char>)> {
    dep_order_scan(keys).1
}

pub open spec fn entry_keys(entries: Seq<(String, TomlItem)>) -> Seq<Seq<char>> {
    entries.map_values(|e: (String, TomlItem)| e.0@)
}

pub open spec fn pairs_view(v: Seq<(String, String)>) -> Seq<(Seq<char>, Seq<char>)> {
    v.map_values(|p: (String, String)| (p.0@, p.1@))
}

/// The dependency table at `path` can be checked: the walk to it goes
/// through tables, and what it finds, if anything, is a table.
pub open spec fn dep_table_checkable(doc: TomlDocument, path: Seq<Seq<char>>) -> bool {
    &&& path.len() > 0
    &&& path_walkable(doc.root@, path)
    &&& match lookup_path(doc.root@, path) {
        Some((_, item)) => item is Table,
        None => true,
    }
}

/// The complaints about the dependency table at `path`: none where there
/// is no such table.
pub open spec fn table_order_issues(doc: TomlDocument, path: Seq<Seq<char>>) -> Seq<(Seq<char>, Seq<char>)> {
    match lookup_path(doc.root@, path) {
        Some((_, TomlItem::Table(t))) => dep_order_issues(entry_keys(t@)),
        _ => Seq::empty(),
    }
}

fn misordered_message(k: &str, last: &str) -> (res: String)
    ensures
        res@ == k@ + " should be before "@ + last@,
{
    let mut s = String::new();
    push_str(&mut s, k);
    push_str(&mut s, " should be before ");
    push_str(&mut s, last);
    proof {
        assert(s@ =~= k@ + " should be before "@ + last@);
    }
    s
}

fn add_out_of_order_if_necessary(out: &mut Vec<(String, String)>, last: Option<&str>, k: &str)
    ensures
        pairs_view(final(out)@) == pairs_view(old(out)@) + misordered(
            match last {
                Some(l) => Some(l@),
                None => None,
            },
            k@,
        ),
{
    let ghost before = out@;
    match last {
        Some(l) => {
            if str_lt(k, l) {
                let msg = misordered_message(k, l);
                out.push((k.to_owned(), msg));
                proof {
                    assert(pairs_view(out@) =~= pairs_view(before) + seq![(k@, k@ + " should be before "@ + l@)]);
                }
            } else {
                proof {
                    assert(pairs_view(out@) =~= pairs_view(before) + Seq::<(Seq<char>, Seq<char>)>::empty());
                }
            }
        },
        None => {
            proof {
                assert(pairs_view(out@) =~= pairs_view(before) + Seq::<(Seq<char>, Seq<char>)>::empty());
            }
        },
    }
}

/// Appends to `out_of_order_for_file` what is out of order in the
/// dependency table at `dep_table_path`: each dependency with the reason.
pub fn check_dep_order_for_table(
    out_of_order_for_file: &mut Vec<(String, String)>,
    toml_doc: &TomlDocument,
    dep_table_path: &[&str],
)
    requires
        dep_table_checkable(*toml_doc, strs_view(dep_table_path@)),
    ensures
        pairs_view(final(out_of_order_for_file)@) == pairs_view(old(out_of_order_for_file)@)
            + table_order_issues(*toml_doc, strs_view(dep_table_path@)),
{
    let deps = match doc_extract_key_path_table(toml_doc, dep_table_path) {
        Some((_, TomlItem::Table(t))) => t,
        _ => {
            proof {
                assert(pairs_view(out_of_order_for_file@) =~= pairs_view(out_of_order_for_file@)
                    + Seq::<(Seq<char>, Seq<char>)>::empty());
            }
            return;
        },
    };
    let ghost keys = entry_keys(deps@);
    let ghost start = pairs_view(out_of_order_for_file@);
    let mut upsilon = false;
    let mut last: Option<&str> = None;
    let mut i: usize = 0;
    proof {
        assert(keys.take(0) =~= Seq::<Seq<char>>::empty());
        assert(start =~= start + Seq::<(Seq<char>, Seq<char>)>::empty());
    }
    while i < deps.len()
        invariant
            i <= deps@.len(),
            keys == entry_keys(deps@),
            ({
                let (st, issues) = dep_order_scan(keys.take(i as int));
                &&& pairs_view(out_of_order_for_file@) == start + issues
                &&& st == (if upsilon {
                    DepOrderState::Upsilon(
                        match last {
                            Some(l) => Some(l@),
                            None => None,
                        },
                    )
                } else {
                    DepOrderState::NonUpsilon(
                        match last {
                            Some(l) => Some(l@),
                            None => None,
                        },
                    )
                })
            }),
        decreases deps@.len() - i,
    {
        let k = deps[i].0.as_str();
        proof {
            assert(keys.take(i + 1).drop_last() =~= keys.take(i as int));
            assert(keys.take(i + 1).last() == k@);
        }
        let up = str_starts_with(k, "upsilon-");
        proof {
            reveal_strlit("upsilon-");
        }
        let ghost before = pairs_view(out_of_order_for_file@);
        if !upsilon {
            if up {
                upsilon = true;
                last = Some(k);
            } else {
                add_out_of_order_if_necessary(out_of_order_for_file, last, k);
                last = Some(k);
                proof {
                    assert(start + dep_order_scan(keys.take(i + 1)).1 =~= pairs_view(out_of_order_for_file@));
                }
            }
        } else {
            if up {
                add_out_of_order_if_necessary(out_of_order_for_file, last, k);
                proof {
                    assert(start + dep_order_scan(keys.take(i + 1)).1 =~= pairs_view(out_of_order_for_file@));
                }
            } else {
                out_of_order_for_file.push((k.to_owned(), "upsilon deps should be last".to_owned()));
                proof {
                    assert(pairs_view(out_of_order_for_file@) =~= before + seq![(k@, "upsilon deps should be last"@)]);
                    assert(start + dep_order_scan(keys.take(i + 1)).1 =~= pairs_view(out_of_order_for_file@));
                }
            }
        }
        i = i + 1;
    }
    proof {
        assert(keys.take(deps@.len() as int) =~= keys);
    }
}

pub open spec fn strings_view(v: Seq<String>) -> Seq<Seq<char>> {
    v.map_values(|s: String| s@)
}

/// The complaints of one manifest about its dependency tables, by file.
pub open spec fn file_issues_view(v: Seq<(String, Vec<(String, String)>)>) -> Seq<(Seq<char>, Seq<(Seq<char>, Seq<char>)>)> {
    v.map_values(|p: (String, Vec<(String, String)>)| (p.0@, pairs_view(p.1@)))
}

/// The complaints about all the dependency tables at `paths`, in order.
pub open spec fn tables_order_issues(doc: TomlDocument, paths: Seq<Seq<Seq<char>>>) -> Seq<(Seq<char>, Seq<char>)>
    decreases paths.len(),
{
    if paths.len() == 0 {
        Seq::empty()
    } else {
        tables_order_issues(doc, paths.drop_last()) + table_order_issues(doc, paths.last())
    }
}

pub open spec fn paths_view(s: Seq<&[&str]>) -> Seq<Seq<Seq<char>>> {
    s.map_values(|p: &[&str]| strs_view(p@))
}

/// Records, under `file`, what is out of order in the dependency tables at
/// `deps_tables_to_check` of the manifest `toml_doc`; a manifest with
/// nothing out of order adds nothing.
pub fn check_dep_order(
    file: String,
    out_of_order: &mut Vec<(String, Vec<(String, String)>)>,
    deps_tables_to_check: &[&[&str]],
    toml_doc: &TomlDocument,
)
    requires
        forall|i: int|
            0 <= i < deps_tables_to_check@.len() ==> dep_table_checkable(
                *toml_doc,
                strs_view(#[trigger] deps_tables_to_check@[i]@),
            ),
    ensures
        ({
            let issues = tables_order_issues(*toml_doc, paths_view(deps_tables_to_check@));
            file_issues_view(final(out_of_order)@) == file_issues_view(old(out_of_order)@) + if issues.len()
                > 0 {
                seq![(file@, issues)]
            } else {
                Seq::empty()
            }
        }),
{
    let ghost paths = paths_view(deps_tables_to_check@);
    let mut out_of_order_for_file: Vec<(String, String)> = Vec::new();
    let mut i: usize = 0;
    proof {
        assert(paths.take(0) =~= Seq::<Seq<Seq<char>>>::empty());
        assert(pairs_view(out_of_order_for_file@) =~= Seq::<(Seq<char>, Seq<char>)>::empty());
    }
    while i < deps_tables_to_check.len()
        invariant
            i <= deps_tables_to_check@.len(),
            paths == paths_view(deps_tables_to_check@),
            forall|j: int|
                0 <= j < deps_tables_to_check@.len() ==> dep_table_checkable(
                    *toml_doc,
                    strs_view(#[trigger] deps_tables_to_check@[j]@),
                ),
            pairs_view(out_of_order_for_file@) == tables_order_issues(*toml_doc, paths.take(i as int)),
        decreases deps_tables_to_check@.len() - i,
    {
        proof {
            assert(paths.take(i + 1).drop_last() =~= paths.take(i as int));
            assert(paths.take(i + 1).last() == strs_view(deps_tables_to_check@[i as int]@));
        }
        check_dep_order_for_table(&mut out_of_order_for_file, toml_doc, deps_tables_to_check[i]);
        i = i + 1;
    }
    proof {
        assert(paths.take(deps_tables_to_check@.len() as int) =~= paths);
    }
    let ghost before = file_issues_view(out_of_order@);
    if out_of_order_for_file.len() > 0 {
        out_of_order.push((file, out_of_order_for_file));
        proof {
            assert(file_issues_view(out_of_order@) =~= before + seq![
                (file@, tables_order_issues(*toml_doc, paths)),
            ]);
        }
    } else {
        proof {
            assert(file_issues_view(out_of_order@) =~= before + Seq::<(Seq<char>, Seq<(Seq<char>, Seq<char>)>)>::empty());
        }
    }
}

/// The entries of a table or an inline table.
pub open spec fn table_like_entries(item: TomlItem) -> Option<Seq<(String, TomlItem)>> {
    match item {
        TomlItem::Table(t) => Some(t@),
        TomlItem::InlineTable(t) => Some(t@),
        _ => None,
    }
}

/// The dependency `item` can be read: a version string, or a table whose
/// `workspace` entry, if any, is a boolean.
pub open spec fn dep_readable(item: TomlItem) -> bool {
    ||| item is Str
    ||| match table_like_entries(item) {
        Some(t) => match entry_get(t, "workspace"@) {
            Some((_, w)) => w is Bool,
            None => true,
        },
        None => false,
    }
}

/// The dependency `item` is declared on its own rather than taken from
/// the workspace: a version string, or a table without `workspace = true`.
pub open spec fn redeclares(item: TomlItem) -> bool {
    match item {
        TomlItem::Str(_) => true,
        _ => match table_like_entries(item) {
            Some(t) => match entry_get(t, "workspace"@) {
                Some((_, w)) => w == TomlItem::Bool(false),
                None => true,
            },
            None => false,
        },
    }
}

/// The dependencies among `entries` that the workspace declares
/// (`ws_deps`) and that are declared again, in order.
pub open spec fn redeclared_deps(entries: Seq<(String, TomlItem)>, ws_deps: Seq<Seq<char>>) -> Seq<Seq<char>>
    decreases entries.len(),
{
    if entries.len() == 0 {
        Seq::empty()
    } else {
        redeclared_deps(entries.drop_last(), ws_deps) + if ws_deps.contains(entries.last().0@) && redeclares(
            entries.last().1,
        ) {
            seq![entries.last().0@]
        } else {
            Seq::empty()
        }
    }
}

/// A dependency `name` of `entries` is reported as declared again exactly
/// where the workspace declares it and one of its entries declares it on
/// its own: with a version string, or with a table (a `[dependencies.x]`
/// table or an inline `{ .. }` one) that has no `workspace` entry or has
/// `workspace = false`.
pub proof fn lemma_redeclared_deps_members(entries: Seq<(String, TomlItem)>, ws_deps: Seq<Seq<char>>, name: Seq<char>)
    ensures
        redeclared_deps(entries, ws_deps).contains(name) <==> ws_deps.contains(name) && exists|i: int|
            0 <= i < entries.len() && (#[trigger] entries[i]).0@ == name && match entries[i].1 {
                TomlItem::Str(_) => true,
                TomlItem::Table(t) | TomlItem::InlineTable(t) => match entry_get(t@, "workspace"@) {
                    None => true,
                    Some((_, w)) => w == TomlItem::Bool(false),
                },
                _ => false,
            },
    decreases entries.len(),
{
    if entries.len() > 0 {
        let init = entries.drop_last();
        lemma_redeclared_deps_members(init, ws_deps, name);
        let last = entries.last();
        let tail = if ws_deps.contains(last.0@) && redeclares(last.1) {
            seq![last.0@]
        } else {
            Seq::<Seq<char>>::empty()
        };
        assert(redeclared_deps(entries, ws_deps) == redeclared_deps(init, ws_deps) + tail);
        if redeclared_deps(entries, ws_deps).contains(name) {
            let j = choose|j: int| 0 <= j < redeclared_deps(entries, ws_deps).len() && redeclared_deps(entries, ws_deps)[j] == name;
            if j < redeclared_deps(init, ws_deps).len() {
                assert(redeclared_deps(init, ws_deps)[j] == name);
                let i = choose|i: int|
                    0 <= i < init.len() && (#[trigger] init[i]).0@ == name && match init[i].1 {
                        TomlItem::Str(_) => true,
                        TomlItem::Table(t) | TomlItem::InlineTable(t) => match entry_get(t@, "workspace"@) {
                            None => true,
                            Some((_, w)) => w == TomlItem::Bool(false),
                        },
                        _ => false,
                    };
                assert(entries[i] == init[i]);
            } else {
                assert(entries[entries.len() - 1] == last);
            }
        }
        if ws_deps.contains(name) && exists|i: int|
            0 <= i < entries.len() && (#[trigger] entries[i]).0@ == name && match entries[i].1 {
                TomlItem::Str(_) => true,
                TomlItem::Table(t) | TomlItem::InlineTable(t) => match entry_get(t@, "workspace"@) {
                    None => true,
                    Some((_, w)) => w == TomlItem::Bool(false),
                },
                _ => false,
            } {
            let i = choose|i: int|
                0 <= i < entries.len() && (#[trigger] entries[i]).0@ == name && match entries[i].1 {
                    TomlItem::Str(_) => true,
                    TomlItem::Table(t) | TomlItem::InlineTable(t) => match entry_get(t@, "workspace"@) {
                        None => true,
                        Some((_, w)) => w == TomlItem::Bool(false),
                    },
                    _ => false,
                };
            if i < init.len() {
                assert(init[i] == entries[i]);
                assert(redeclared_deps(init, ws_deps).contains(name));
                let j = choose|j: int| 0 <= j < redeclared_deps(init, ws_deps).len() && redeclared_deps(init, ws_deps)[j] == name;
                assert(redeclared_deps(entries, ws_deps)[j] == name);
            } else {
                assert(i == entries.len() - 1);
                assert(redeclares(last.1));
                assert(redeclared_deps(entries, ws_deps)[redeclared_deps(init, ws_deps).len() as int] == name);
            }
        }
    }
}

/// The `dependencies` table of the manifest, if it has one.
pub open spec fn dependencies_table(doc: TomlDocument) -> Option<Seq<(String, TomlItem)>> {
    match entry_get(doc.root@, "dependencies"@) {
        Some((_, TomlItem::Table(t))) => Some(t@),
        _ => None,
    }
}

/// The dependencies of the manifest can be checked against the
/// workspace's: its `dependencies` entry, if any, is a table, and each
/// dependency the workspace declares can be read.
pub open spec fn ws_deps_checkable(doc: TomlDocument, ws_deps: Seq<Seq<char>>) -> bool {
    &&& match entry_get(doc.root@, "dependencies"@) {
        Some((_, item)) => item is Table,
        None => true,
    }
    &&& match dependencies_table(doc) {
        Some(t) => forall|i: int|
            0 <= i < t.len() && ws_deps.contains(#[trigger] t[i].0@) ==> dep_readable(t[i].1),
        None => true,
    }
}

pub open spec fn file_deps_view(v: Seq<(String, Vec<String>)>) -> Seq<(Seq<char>, Seq<Seq<char>>)> {
    v.map_values(|p: (String, Vec<String>)| (p.0@, strings_view(p.1@)))
}

fn contains_str(v: &[String], k: &str) -> (res: bool)
    ensures
        res == strings_view(v@).contains(k@),
{
    let mut i: usize = 0;
    while i < v.len()
        invariant
            i <= v@.len(),
            forall|j: int| 0 <= j < i ==> #[trigger] v@[j]@ != k@,
        decreases v@.len() - i,
    {
        if str_eq(v[i].as_str(), k) {
            proof {
                assert(strings_view(v@)[i as int] == k@);
            }
            return true;
        }
        i = i + 1;
    }
    proof {
        if strings_view(v@).contains(k@) {
            let j = choose|j: int| 0 <= j < strings_view(v@).len() && strings_view(v@)[j] == k@;
            assert(v@[j]@ == k@);
        }
    }
    false
}

/// Whether the dependency `item` is declared again; it must be readable.
fn dep_redeclared(item: &TomlItem) -> (res: bool)
    requires
        dep_readable(*item),
    ensures
        res == redeclares(*item),
{
    let t = match item {
        TomlItem::Str(_) => {
            return true;
        },
        TomlItem::Table(t) => t,
        TomlItem::InlineTable(t) => t,
        _ => {
            return false;
        },
    };
    match find_entry(t, "workspace") {
        None => true,
        Some(j) => match &t[j].1 {
            TomlItem::Bool(b) => !*b,
            _ => false,
        },
    }
}

/// Records, under `file`, the dependencies of the manifest `toml_doc` that
/// the workspace declares (`ws_deps`) and that the manifest declares again
/// rather than taking them from the workspace; a manifest that redeclares
/// none adds nothing.
pub fn check_if_any_deps_in_ws_deps(
    file: String,
    ws_deps: &[String],
    in_ws_deps: &mut Vec<(String, Vec<String>)>,
    toml_doc: &TomlDocument,
)
    requires
        ws_deps_checkable(*toml_doc, strings_view(ws_deps@)),
    ensures
        ({
            let found = match dependencies_table(*toml_doc) {
                Some(t) => redeclared_deps(t, strings_view(ws_deps@)),
                None => Seq::empty(),
            };
            file_deps_view(final(in_ws_deps)@) == file_deps_view(old(in_ws_deps)@) + if found.len()
                > 0 {
                seq![(file@, found)]
            } else {
                Seq::empty()
            }
        }),
{
    let ghost wsv = strings_view(ws_deps@);
    let ghost before = file_deps_view(in_ws_deps@);
    let deps = match find_entry(&toml_doc.root, "dependencies") {
        None => {
            proof {
                assert(file_deps_view(in_ws_deps@) =~= before + Seq::<(Seq<char>, Seq<Seq<char>>)>::empty());
            }
            return;
        },
        Some(j) => match &toml_doc.root[j].1 {
            TomlItem::Table(t) => t,
            _ => {
                proof {
                    assert(file_deps_view(in_ws_deps@) =~= before + Seq::<(Seq<char>, Seq<Seq<char>>)>::empty());
                }
                return;
            },
        },
    };
    let mut in_ws_deps_for_file: Vec<String> = Vec::new();
    let mut i: usize = 0;
    proof {
        assert(deps@.take(0) =~= Seq::<(String, TomlItem)>::empty());
        assert(strings_view(in_ws_deps_for_file@) =~= Seq::<Seq<char>>::empty());
    }
    while i < deps.len()
        invariant
            i <= deps@.len(),
            wsv == strings_view(ws_deps@),
            dependencies_table(*toml_doc) == Some(deps@),
            ws_deps_checkable(*toml_doc, wsv),
            strings_view(in_ws_deps_for_file@) == redeclared_deps(deps@.take(i as int), wsv),
        decreases deps@.len() - i,
    {
        let k = deps[i].0.as_str();
        proof {
            assert(deps@.take(i + 1).drop_last() =~= deps@.take(i as int));
            assert(deps@.take(i + 1).last() == deps@[i as int]);
        }
        let ghost prev = strings_view(in_ws_deps_for_file@);
        if contains_str(ws_deps, k) {
            proof {
                let t = dependencies_table(*toml_doc).unwrap();
                assert(t == deps@);
                assert(wsv.contains(t[i as int].0@));
                assert(dep_readable(t[i as int].1));
            }
            if dep_redeclared(&deps[i].1) {
                in_ws_deps_for_file.push(k.to_owned());
                proof {
                    assert(strings_view(in_ws_deps_for_file@) =~= prev + seq![k@]);
                }
            } else {
                proof {
                    assert(strings_view(in_ws_deps_for_file@) =~= prev + Seq::<Seq<char>>::empty());
                }
            }
        } else {
            proof {
                assert(strings_view(in_ws_deps_for_file@) =~= prev + Seq::<Seq<char>>::empty());
            }
        }
        i = i + 1;
    }
    proof {
        assert(deps@.take(deps@.len() as int) =~= deps@);
    }
    if in_ws_deps_for_file.len() > 0 {
        in_ws_deps.push((file, in_ws_deps_for_file));
        proof {
            assert(file_deps_view(in_ws_deps@) =~= before + seq![(file@, redeclared_deps(deps@, wsv))]);
        }
    } else {
        proof {
            assert(file_deps_view(in_ws_deps@) =~= before + Seq::<(Seq<char>, Seq<Seq<char>>)>::empty());
        }
    }
}

/// The names of the dependencies in a dependency table, in order; `None`
/// where the item is not a table.
pub fn dependency_names(item: &TomlItem) -> (res: Option<Vec<String>>)
    ensures
        match *item {
            TomlItem::Table(t) => res matches Some(v) && strings_view(v@) == entry_keys(t@),
            _ => res is None,
        },
{
    match item {
        TomlItem::Table(t) => {
            let mut names: Vec<String> = Vec::new();
            let mut i: usize = 0;
            while i < t.len()
                invariant
                    i <= t@.len(),
                    strings_view(names@) == entry_keys(t@).take(i as int),
                decreases t@.len() - i,
            {
                let ghost before = strings_view(names@);
                let name = t[i].0.as_str().to_owned();
                names.push(name);
                proof {
                    assert(entry_keys(t@)[i as int] == t@[i as int].0@);
                    assert(strings_view(names@) =~= before.push(name@));
                    assert(entry_keys(t@).take(i + 1) =~= entry_keys(t@).take(i as int).push(entry_keys(t@)[i as int]));
                    assert(strings_view(names@) =~= entry_keys(t@).take(i + 1));
                }
                i = i + 1;
            }
            proof {
                assert(entry_keys(t@).take(t@.len() as int) =~= entry_keys(t@));
            }
            Some(names)
        },
        _ => None,
    }
}

/// `a` comes no later than `b` in lexicographic order.
pub open spec fn chars_le(a: Seq<char>, b: Seq<char>) -> bool {
    !chars_lt(b, a)
}

proof fn lemma_chars_le_transitive(a: Seq<char>, b: Seq<char>, c: Seq<char>)
    requires
        chars_le(a, b),
        chars_le(b, c),
    ensures
        chars_le(a, c),
    decreases a.len(),
{
    if a.len() > 0 {
        assert(b.len() > 0);
        assert(c.len() > 0);
        if a[0] == b[0] && b[0] == c[0] {
            lemma_chars_le_transitive(a.drop_first(), b.drop_first(), c.drop_first());
        } else {
            assert((a[0] as int) <= (b[0] as int));
            assert((b[0] as int) <= (c[0] as int));
        }
    }
}

proof fn lemma_chars_le_reflexive(a: Seq<char>)
    ensures
        chars_le(a, a),
    decreases a.len(),
{
    if a.len() > 0 {
        lemma_chars_le_reflexive(a.drop_first());
    }
}

/// The dependency names are laid out as the ordering rule wants them: the outside
/// dependencies (`keys[..m]`) first and the workspace's own last, each
/// group in lexicographic order.
pub open spec fn deps_well_ordered(keys: Seq<Seq<char>>, m: int) -> bool {
    &&& 0 <= m <= keys.len()
    &&& forall|j: int| 0 <= j < m ==> !is_upsilon_dep(#[trigger] keys[j])
    &&& forall|j: int| m <= j < keys.len() ==> is_upsilon_dep(#[trigger] keys[j])
    &&& forall|j: int| 0 < j < keys.len() && j != m ==> chars_le(keys[j - 1], #[trigger] keys[j])
}

proof fn lemma_scan_well_ordered(keys: Seq<Seq<char>>, m: int, n: int)
    requires
        deps_well_ordered(keys, m),
        0 <= n <= keys.len(),
    ensures
        dep_order_scan(keys.take(n)).1 == Seq::<(Seq<char>, Seq<char>)>::empty(),
        n == 0 ==> dep_order_scan(keys.take(n)).0 == DepOrderState::NonUpsilon(None),
        0 < n <= m ==> dep_order_scan(keys.take(n)).0 == DepOrderState::NonUpsilon(Some(keys[n - 1])),
        m < n ==> dep_order_scan(keys.take(n)).0 == DepOrderState::Upsilon(Some(keys[m]))
            && chars_le(keys[m], keys[n - 1]),
    decreases n,
{
    if n > 0 {
        lemma_scan_well_ordered(keys, m, n - 1);
        let p = keys.take(n);
        assert(p.drop_last() =~= keys.take(n - 1));
        assert(p.last() == keys[n - 1]);
        let k = keys[n - 1];
        if n - 1 < m {
            assert(!is_upsilon_dep(k));
            if n - 1 > 0 {
                assert(chars_le(keys[n - 2], k));
            }
            assert(misordered(dep_order_scan(keys.take(n - 1)).0->NonUpsilon_0, k) =~= Seq::<
                (Seq<char>, Seq<char>),
            >::empty());
        } else if n - 1 == m {
            assert(is_upsilon_dep(k));
            lemma_chars_le_reflexive(k);
        } else {
            assert(is_upsilon_dep(k));
            assert(chars_le(keys[n - 2], k));
            lemma_chars_le_transitive(keys[m], keys[n - 2], k);
            assert(misordered(Some(keys[m]), k) =~= Seq::<(Seq<char>, Seq<char>)>::empty());
        }
    }
}

/// A dependency table laid out as the ordering rule wants it, the outside
/// dependencies first and the workspace's own (`upsilon-..`) last, each
/// group in lexicographic order, draws no complaint.
pub proof fn lemma_well_ordered_deps_pass(keys: Seq<Seq<char>>, m: int)
    requires
        deps_well_ordered(keys, m),
    ensures
        dep_order_issues(keys) == Seq::<(Seq<char>, Seq<char>)>::empty(),
{
    lemma_scan_well_ordered(keys, m, keys.len() as int);
    assert(keys.take(keys.len() as int) =~= keys);
}

/// An outside dependency listed after one of the workspace's own draws a
/// complaint naming it.
pub proof fn lemma_outside_dep_after_workspace_dep_flagged(keys: Seq<Seq<char>>, i: int, j: int)
    requires
        0 <= i < j < keys.len(),
        is_upsilon_dep(keys[i]),
        !is_upsilon_dep(keys[j]),
    ensures
        dep_order_issues(keys).contains((keys[j], "upsilon deps should be last"@)),
{
    lemma_scan_upsilon_stays(keys, i, j + 1);
    let p = keys.take(j + 1);
    assert(p.drop_last() =~= keys.take(j));
    assert(p.last() == keys[j]);
    lemma_scan_issues_grow(keys, j + 1, keys.len() as int);
    assert(keys.take(keys.len() as int) =~= keys);
    let iss = dep_order_scan(keys.take(j + 1)).1;
    assert(iss.last() == (keys[j], "upsilon deps should be last"@));
    assert(dep_order_scan(keys).1[iss.len() - 1] == iss[iss.len() - 1]);
}

/// Once the scan has met a workspace dependency, it stays among them.
proof fn lemma_scan_upsilon_stays(keys: Seq<Seq<char>>, i: int, n: int)
    requires
        0 <= i < n <= keys.len(),
        is_upsilon_dep(keys[i]),
    ensures
        dep_order_scan(keys.take(n)).0 is Upsilon,
    decreases n,
{
    let p = keys.take(n);
    assert(p.drop_last() =~= keys.take(n - 1));
    assert(p.last() == keys[n - 1]);
    if n - 1 > i {
        lemma_scan_upsilon_stays(keys, i, n - 1);
    }
}

/// The complaints about a prefix of the names come first among those about
/// a longer prefix.
proof fn lemma_scan_issues_grow(keys: Seq<Seq<char>>, a: int, b: int)
    requires
        0 <= a <= b <= keys.len(),
    ensures
        dep_order_scan(keys.take(a)).1.len() <= dep_order_scan(keys.take(b)).1.len(),
        forall|x: int|
            0 <= x < dep_order_scan(keys.take(a)).1.len() ==> dep_order_scan(keys.take(b)).1[x]
                == #[trigger] dep_order_scan(keys.take(a)).1[x],
    decreases b - a,
{
    if a < b {
        lemma_scan_issues_grow(keys, a, b - 1);
        let p = keys.take(b);
        assert(p.drop_last() =~= keys.take(b - 1));
    }
}

/// The manifest that the text `text` parses to (`toml_edit`): tables,
/// inline tables, strings and booleans as they are; other values as
/// [`TomlItem::Other`]; `None` where the text is no TOML document.
pub uninterp spec fn manifest_of(text: Seq<char>) -> Option<TomlDocument>;

#[verifier::external_type_specification]
#[verifier::external_body]
pub struct ExTomlValue(toml_edit::Value);

#[verifier::external_type_specification]
#[verifier::external_body]
pub struct ExTomlItem(toml_edit::Item);

#[verifier::external_type_specification]
#[verifier::external_body]
pub struct ExTomlTable(toml_edit::Table);

/// Parses the manifest text `text` with `toml_edit` into its entries.
#[verifier::external_body]
pub fn parse_manifest(text: &str) -> (res: Option<TomlDocument>)
    ensures
        res == manifest_of(text@),
{
    match text.parse::<toml_edit::Document>() {
        Ok(doc) => Some(TomlDocument { root: toml_table_entries(doc.as_table()) }),
        Err(_) => None,
    }
}

/// The entries of a `toml_edit` table (`Table::iter`, which skips empty
/// items), in order.
#[verifier::external_body]
fn toml_table_entries(t: &toml_edit::Table) -> Vec<(String, TomlItem)> {
    let mut out = Vec::new();
    for (k, item) in t.iter() {
        match item {
            toml_edit::Item::Value(v) => out.push((k.to_owned(), toml_value_item(v))),
            toml_edit::Item::Table(t) => out.push((k.to_owned(), TomlItem::Table(toml_table_entries(t)))),
            toml_edit::Item::None | toml_edit::Item::ArrayOfTables(_) => out.push((k.to_owned(), TomlItem::Other)),
        }
    }
    out
}

/// A `toml_edit` value as a [`TomlItem`].
#[verifier::external_body]
fn toml_value_item(v: &toml_edit::Value) -> TomlItem {
    match v {
        toml_edit::Value::String(s) => TomlItem::Str(s.value().clone()),
        toml_edit::Value::Boolean(b) => TomlItem::Bool(*b.value()),
        toml_edit::Value::InlineTable(t) => {
            let mut out = Vec::new();
            for (k, v) in t.iter() {
                out.push((k.to_owned(), toml_value_item(v)));
            }
            TomlItem::InlineTable(out)
        },
        _ => TomlItem::Other,
    }
}

/// Whether the dependency table at `kpath` can be checked
/// ([`dep_table_checkable`]).
pub fn dep_table_is_checkable(doc: &TomlDocument, kpath: &[&str]) -> (res: bool)
    ensures
        res == dep_table_checkable(*doc, strs_view(kpath@)),
{
    let ghost path = strs_view(kpath@);
    let ghost root = doc.root@;
    if kpath.len() == 0 {
        return false;
    }
    let mut found: &TomlItem;
    match find_entry(&doc.root, kpath[0]) {
        Some(j) => {
            found = &doc.root[j].1;
            proof {
                assert(path.take(1).drop_last() =~= Seq::<Seq<char>>::empty());
                assert(path.take(1) =~= seq![path[0]]);
            }
        },
        None => {
            proof {
                assert(path.take(1) =~= seq![path[0]]);
                lemma_lookup_none_extends(root, path, 1);
                assert forall|j: int| 1 <= j < path.len() implies match #[trigger] lookup_path(root, path.take(j)) {
                    Some((_, item)) => item is Table,
                    None => true,
                } by {
                    assert(path.take(j).take(1) =~= path.take(1));
                    lemma_lookup_none_extends(root, path.take(j), 1);
                }
            }
            return true;
        },
    }
    let mut i: usize = 1;
    while i < kpath.len()
        invariant
            1 <= i <= kpath@.len(),
            path == strs_view(kpath@),
            root == doc.root@,
            (lookup_path(root, path.take(i as int)) matches Some((_, it)) && it == *found),
            forall|j: int| 1 <= j < i ==> (#[trigger] lookup_path(root, path.take(j)) matches Some((_, it)) && it is Table),
        decreases kpath@.len() - i,
    {
        let ghost prev = path.take(i as int);
        let t = match found {
            TomlItem::Table(t) => t,
            _ => {
                proof {
                    assert(!path_walkable(root, path)) by {
                        assert(1 <= i < path.len());
                        assert(lookup_path(root, path.take(i as int)) matches Some((_, it)) && !(it is Table));
                    }
                }
                return false;
            },
        };
        proof {
            assert(path.take(i + 1).drop_last() =~= prev);
            assert(path.take(i + 1).last() == path[i as int]);
        }
        match find_entry(t, kpath[i]) {
            Some(j) => {
                found = &t[j].1;
            },
            None => {
                proof {
                    lemma_lookup_none_extends(root, path, i + 1);
                    assert forall|j: int| 1 <= j < path.len() implies match #[trigger] lookup_path(root, path.take(j)) {
                        Some((_, item)) => item is Table,
                        None => true,
                    } by {
                        if j > i {
                            assert(path.take(j).take(i + 1) =~= path.take(i + 1));
                            lemma_lookup_none_extends(root, path.take(j), i + 1);
                        }
                    }
                }
                return true;
            },
        }
        i = i + 1;
    }
    proof {
        assert(path.take(kpath@.len() as int) =~= path);
    }
    match found {
        TomlItem::Table(_) => true,
        _ => false,
    }
}

/// Whether the dependency `item` can be read ([`dep_readable`]).
fn dep_is_readable(item: &TomlItem) -> (res: bool)
    ensures
        res == dep_readable(*item),
{
    let t = match item {
        TomlItem::Str(_) => {
            return true;
        },
        TomlItem::Table(t) => t,
        TomlItem::InlineTable(t) => t,
        _ => {
            return false;
        },
    };
    match find_entry(t, "workspace") {
        None => true,
        Some(j) => match &t[j].1 {
            TomlItem::Bool(_) => true,
            _ => false,
        },
    }
}

/// Whether the manifest's dependencies can be checked against those of
/// the workspace ([`ws_deps_checkable`]).
pub fn ws_deps_are_checkable(doc: &TomlDocument, ws_deps: &[String]) -> (res: bool)
    ensures
        res == ws_deps_checkable(*doc, strings_view(ws_deps@)),
{
    let t = match find_entry(&doc.root, "dependencies") {
        None => {
            return true;
        },
        Some(j) => match &doc.root[j].1 {
            TomlItem::Table(t) => t,
            _ => {
                return false;
            },
        },
    };
    let mut i: usize = 0;
    while i < t.len()
        invariant
            i <= t@.len(),
            dependencies_table(*doc) == Some(t@),
            forall|m: int| 0 <= m < i && strings_view(ws_deps@).contains(#[trigger] t@[m].0@) ==> dep_readable(t@[m].1),
        decreases t@.len() - i,
    {
        if contains_str(ws_deps, t[i].0.as_str()) && !dep_is_readable(&t[i].1) {
            proof {
                let tt = dependencies_table(*doc)->Some_0;
                assert(tt[i as int] == t@[i as int]);
                assert(strings_view(ws_deps@).contains(tt[i as int].0@) && !dep_readable(tt[i as int].1));
            }
            return false;
        }
        i = i + 1;
    }
    true
}

} // verus!
