//! Paths and commands of the workspace tasks.

use vstd::prelude::*;

use crate::paths::{
    file_name, joined_path, parent, path_file_name, path_join, path_parent, path_with_file_name,
    with_file_name,
};
use crate::text::push_str;

verus! {

/// The directory where instrumented builds write their coverage profiles.
pub open spec fn profiles_dir_spec(ws_root: Seq<char>) -> Seq<char> {
    joined_path(joined_path(ws_root, "target"@), "profiles"@)
}

/// The directory where instrumented builds write their coverage profiles,
/// under the workspace root `ws_root`.
pub fn cargo_build_profiles_dir(ws_root: &str) -> (res: String)
    ensures
        res@ == profiles_dir_spec(ws_root@),
{
    let t = path_join(ws_root, "target");
    path_join(t.as_str(), "profiles")
}

/// The file name pattern of the coverage profiles of instrumented builds.
pub fn cargo_build_profile_file_name(ws_root: &str) -> (res: String)
    ensures
        res@ == joined_path(profiles_dir_spec(ws_root@), "prof_%m_%p.profraw"@),
{
    let p = cargo_build_profiles_dir(ws_root);
    path_join(p.as_str(), "prof_%m_%p.profraw")
}

/// The program run for npm commands.
pub fn npm_path() -> (res: String)
    ensures
        res@ == "npm"@,
{
    "npm".to_owned()
}

/// `path` with each `/` replaced by `\`.
pub open spec fn to_win_separators(path: Seq<char>) -> Seq<char> {
    path.map_values(|c: char| if c == '/' { '\\' } else { c })
}

/// The Windows spelling of a slash-separated path: each `/` becomes `\`.
pub fn convert_path_to_win(path: &str) -> (res: String)
    ensures
        res@ == to_win_separators(path@),
{
    let cs = crate::text::chars_of(path);
    let mut out: Vec<char> = Vec::new();
    let mut i: usize = 0;
    while i < cs.len()
        invariant
            i <= cs@.len(),
            cs@ == path@,
            out@ == to_win_separators(cs@.take(i as int)),
        decreases cs@.len() - i,
    {
        let c = cs[i];
        if c == '/' {
            out.push('\\');
        } else {
            out.push(c);
        }
        i = i + 1;
        proof {
            assert(out@ =~= to_win_separators(cs@.take(i as int)));
        }
    }
    proof {
        assert(cs@.take(cs@.len() as int) =~= cs@);
    }
    crate::text::string_of(out.as_slice())
}

/// A converted path holds no `/`, and as many characters as before.
pub proof fn lemma_win_path_has_no_slash(path: Seq<char>)
    ensures
        to_win_separators(path).len() == path.len(),
        forall|i: int| 0 <= i < path.len() ==> #[trigger] to_win_separators(path)[i] != '/',
{
}

/// `p` with `.new` appended to its file name.
pub open spec fn filext_new_spec(p: Seq<char>) -> Seq<char>
    recommends
        path_file_name(p) is Some,
{
    path_with_file_name(p, path_file_name(p).unwrap() + ".new"@)
}

/// The path of the replacement written next to file `p`: its file name
/// with `.new` appended.
pub fn extend_filext_new(p: &str) -> (res: String)
    requires
        path_file_name(p@) is Some,
    ensures
        res@ == filext_new_spec(p@),
{
    let mut name = file_name(p).unwrap();
    push_str(&mut name, ".new");
    with_file_name(p, name.as_str())
}

/// The path of the replacement written next to file `p`, or `None` where
/// `p` has no file name.
pub fn try_extend_filext_new(p: &str) -> (res: Option<String>)
    ensures
        match res {
            Some(r) => path_file_name(p@) is Some && r@ == filext_new_spec(p@),
            None => path_file_name(p@) is None,
        },
{
    match file_name(p) {
        Some(_) => Some(extend_filext_new(p)),
        None => None,
    }
}

/// The cargo the tasks run: `cargo` from the search path where the global
/// one was asked for, else the one that built the tasks (`cargo_env`).
pub fn cargo_path(use_global_cargo: bool, cargo_env: &str) -> (res: String)
    ensures
        res@ == (if use_global_cargo {
            "cargo"@
        } else {
            cargo_env@
        }),
{
    if use_global_cargo {
        "cargo".to_owned()
    } else {
        cargo_env.to_owned()
    }
}

/// The path two levels up from `p`, where there is one.
pub open spec fn grandparent(p: Seq<char>) -> Option<Seq<char>> {
    match path_parent(p) {
        Some(q) => path_parent(q),
        None => None,
    }
}

/// The root of the workspace: two levels up from the task package's
/// directory `xtask_manifest_dir` (`dev/upsilon-xtask`).
pub fn workspace_root(xtask_manifest_dir: &str) -> (res: String)
    requires
        grandparent(xtask_manifest_dir@) is Some,
    ensures
        Some(res@) == grandparent(xtask_manifest_dir@),
{
    let dev = parent(xtask_manifest_dir).unwrap();
    parent(dev.as_str()).unwrap()
}

/// The root of the workspace, or `None` where `xtask_manifest_dir` is not
/// two levels deep.
pub fn try_workspace_root(xtask_manifest_dir: &str) -> (res: Option<String>)
    ensures
        match res {
            Some(r) => grandparent(xtask_manifest_dir@) == Some(r@),
            None => grandparent(xtask_manifest_dir@) is None,
        },
{
    match parent(xtask_manifest_dir) {
        Some(dev) => match parent(dev.as_str()) {
            Some(_) => Some(workspace_root(xtask_manifest_dir)),
            None => None,
        },
        None => None,
    }
}

} // verus!
