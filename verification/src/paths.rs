//! Paths as text, manipulated with the standard library's path rules.
//!
//! Each name below stands for what std computes on the platform the crate
//! is built for: std's path rules differ between platforms (on Windows `\`
//! separates components too, and paths may carry a drive prefix), so the
//! names are fixed for one platform at a time.

use vstd::prelude::*;


verus! {

/// The path `base` with `part` pushed onto it (`PathBuf::push`).
pub uninterp spec fn joined_path(base: Seq<char>, part: Seq<char>) -> Seq<char>;

/// `s` is a single plain file name: not empty, no separator, no drive
/// colon, and neither `.` nor `..`.
pub open spec fn plain_name(s: Seq<char>) -> bool {
    &&& s.len() > 0
    &&& no_separator(s)
    &&& !s.contains(':')
    &&& !(s.len() == 1 && s[0] == '.')
    &&& !(s.len() == 2 && s[0] == '.' && s[1] == '.')
}

/// Pushes `part` onto the path `base` (`PathBuf::push`). A plain file name
/// is appended as it is, and becomes the file name of the result.
#[verifier::external_body]
pub fn path_join(base: &str, part: &str) -> (res: String)
    ensures
        res@ == joined_path(base@, part@),
        plain_name(part@) ==> part@.is_suffix_of(res@) && path_file_name(res@) == Some(part@),
{
    let mut p = std::path::PathBuf::from(base);
    p.push(part);
    p.to_string_lossy().into_owned()
}

/// The path `p` with its extension replaced by `ext` (`PathBuf::set_extension`).
pub uninterp spec fn path_with_extension(p: Seq<char>, ext: Seq<char>) -> Seq<char>;

/// `ext` holds no path separator (`/`, or `\` on Windows), which
/// `PathBuf::set_extension` does not accept in an extension.
pub open spec fn no_separator(ext: Seq<char>) -> bool {
    !ext.contains('/') && !ext.contains('\\')
}

/// Replaces the extension of the path `p` by `ext` (`PathBuf::set_extension`,
/// which panics on an extension with a path separator). An empty `ext` on
/// a path that ends with its file name, where that name has no `.` (and so
/// no extension), leaves the path as it is.
#[verifier::external_body]
pub fn set_extension(p: &str, ext: &str) -> (res: String)
    requires
        no_separator(ext@),
    ensures
        res@ == path_with_extension(p@, ext@),
        ext@.len() == 0 ==> (path_file_name(p@) matches Some(n) && !n.contains('.') && n.is_suffix_of(p@)
            ==> res@ == p@),
{
    let mut pb = std::path::PathBuf::from(p);
    pb.set_extension(ext);
    pb.to_string_lossy().into_owned()
}

/// The last component of the path `p`, where it is a normal one (`Path::file_name`).
pub uninterp spec fn path_file_name(p: Seq<char>) -> Option<Seq<char>>;

/// The last component of the path `p`, where it is a normal one (`Path::file_name`).
#[verifier::external_body]
pub fn file_name(p: &str) -> (res: Option<String>)
    ensures
        match res {
            Some(n) => path_file_name(p@) == Some(n@),
            None => path_file_name(p@) is None,
        },
{
    std::path::Path::new(p).file_name().map(|n| n.to_string_lossy().into_owned())
}

/// The path `p` with its last component replaced by `name` (`Path::with_file_name`).
pub uninterp spec fn path_with_file_name(p: Seq<char>, name: Seq<char>) -> Seq<char>;

/// The path `p` with its last component replaced by `name` (`Path::with_file_name`).
#[verifier::external_body]
pub fn with_file_name(p: &str, name: &str) -> (res: String)
    ensures
        res@ == path_with_file_name(p@, name@),
{
    std::path::Path::new(p).with_file_name(name).to_string_lossy().into_owned()
}

/// The extension of the file name of the path `p` (`Path::extension`).
pub uninterp spec fn path_extension(p: Seq<char>) -> Option<Seq<char>>;

/// The extension of the file name of the path `p` (`Path::extension`).
#[verifier::external_body]
pub fn extension(p: &str) -> (res: Option<String>)
    ensures
        match res {
            Some(e) => path_extension(p@) == Some(e@),
            None => path_extension(p@) is None,
        },
{
    std::path::Path::new(p).extension().map(|e| e.to_string_lossy().into_owned())
}

/// Whether the path `p` ends with the components of `q` (`Path::ends_with`).
pub uninterp spec fn path_ends_with(p: Seq<char>, q: Seq<char>) -> bool;

/// Whether the path `p` ends with the components of `q` (`Path::ends_with`).
#[verifier::external_body]
pub fn ends_with(p: &str, q: &str) -> (res: bool)
    ensures
        res == path_ends_with(p@, q@),
{
    std::path::Path::new(p).ends_with(q)
}

/// Whether the path `p` starts with the components of `q` (`Path::starts_with`).
pub uninterp spec fn path_starts_with(p: Seq<char>, q: Seq<char>) -> bool;

/// Whether the path `p` starts with the components of `q` (`Path::starts_with`).
#[verifier::external_body]
pub fn starts_with(p: &str, q: &str) -> (res: bool)
    ensures
        res == path_starts_with(p@, q@),
{
    std::path::Path::new(p).starts_with(q)
}

/// Whether the path `a` sorts before the path `b` (`<` on `Path`, which
/// compares component by component).
pub uninterp spec fn path_less(a: Seq<char>, b: Seq<char>) -> bool;

/// Whether the path `a` sorts before the path `b` (`<` on `Path`). As
/// `Path`'s order is a total order (std's `Ord`): where `a` sorts before
/// `b`, `b` does not sort before `a`, and whatever sorts before `a` sorts
/// before `b`; where it does not, `b` comes at or before `a`, so whatever
/// `a` sorts before, `b` sorts before too, and whatever sorts before `b`
/// sorts before `a`.
#[verifier::external_body]
pub fn less(a: &str, b: &str) -> (res: bool)
    ensures
        res == path_less(a@, b@),
        res ==> !path_less(b@, a@),
        res ==> forall|c: Seq<char>| #[trigger] path_less(c, a@) ==> path_less(c, b@),
        !res ==> forall|c: Seq<char>| #[trigger] path_less(a@, c) ==> path_less(b@, c),
        !res ==> forall|c: Seq<char>| #[trigger] path_less(c, b@) ==> path_less(c, a@),
{
    std::path::Path::new(a) < std::path::Path::new(b)
}

/// The path `p` without its leading components `base`, where it starts
/// with them (`Path::strip_prefix`).
pub uninterp spec fn path_strip_prefix(p: Seq<char>, base: Seq<char>) -> Option<Seq<char>>;

/// The path `p` without its leading components `base`, where it starts
/// with them (`Path::strip_prefix`).
#[verifier::external_body]
pub fn strip_prefix(p: &str, base: &str) -> (res: Option<String>)
    ensures
        match res {
            Some(r) => path_strip_prefix(p@, base@) == Some(r@),
            None => path_strip_prefix(p@, base@) is None,
        },
{
    std::path::Path::new(p).strip_prefix(base).ok().map(|r| r.to_string_lossy().into_owned())
}

/// The path `p` without its last component, where it has one
/// (`Path::parent`).
pub uninterp spec fn path_parent(p: Seq<char>) -> Option<Seq<char>>;

/// The path `p` without its last component, where it has one
/// (`Path::parent`).
#[verifier::external_body]
pub fn parent(p: &str) -> (res: Option<String>)
    ensures
        match res {
            Some(r) => path_parent(p@) == Some(r@),
            None => path_parent(p@) is None,
        },
{
    std::path::Path::new(p).parent().map(|r| r.to_string_lossy().into_owned())
}

} // verus!
