//! Packages of the workspace and of crates.io, their binaries, and the
//! cargo arguments that select them.

use vstd::prelude::*;

use crate::paths::{joined_path, no_separator, path_join, path_with_extension, plain_name, set_extension};
use crate::text::{push_str, string_of};

verus! {

/// Where a package lives.
#[derive(Debug, Clone, Copy, PartialEq, Eq)]
pub enum PkgKind {
    LocalCrates,
    LocalDev,
    LocalPlugins,
    CratesIo,
}

/// A package, by name and location.
#[derive(Debug, Clone, PartialEq, Eq)]
pub struct Pkg {
    name: String,
    kind: PkgKind,
}

impl Pkg {
    pub closed spec fn name_spec(&self) -> Seq<char> {
        self.name@
    }

    pub closed spec fn kind_spec(&self) -> PkgKind {
        self.kind
    }

    /// A package of the `dev` directory.
    pub fn dev_pkg(name: &str) -> (res: Self)
        ensures
            res.name_spec() == name@,
            res.kind_spec() == PkgKind::LocalDev,
    {
        Pkg { name: name.to_owned(), kind: PkgKind::LocalDev }
    }

    /// A package of the `crates` directory.
    pub fn local_crates(name: &str) -> (res: Self)
        ensures
            res.name_spec() == name@,
            res.kind_spec() == PkgKind::LocalCrates,
    {
        Pkg { name: name.to_owned(), kind: PkgKind::LocalCrates }
    }

    /// A package of the `plugins` directory.
    pub fn plugin_pkg(name: &str) -> (res: Self)
        ensures
            res.name_spec() == name@,
            res.kind_spec() == PkgKind::LocalPlugins,
    {
        Pkg { name: name.to_owned(), kind: PkgKind::LocalPlugins }
    }

    /// A package published on crates.io.
    pub fn crates_io(name: &str) -> (res: Self)
        ensures
            res.name_spec() == name@,
            res.kind_spec() == PkgKind::CratesIo,
    {
        Pkg { name: name.to_owned(), kind: PkgKind::CratesIo }
    }

    /// The binary `bin_name` of this package.
    pub fn bin_target<'pkg>(&'pkg self, bin_name: &str) -> (res: BinTarget<'pkg>)
        ensures
            *res.pkg_spec() == *self,
            res.bin_name_spec() == bin_name@,
    {
        BinTarget::new(self, bin_name)
    }

    /// The binary named like this package.
    pub fn main_target<'pkg>(&'pkg self) -> (res: BinTarget<'pkg>)
        ensures
            *res.pkg_spec() == *self,
            res.bin_name_spec() == self.name_spec(),
    {
        self.bin_target(self.name.as_str())
    }

    /// The arguments of `cargo publish` for this package.
    pub fn publish_args(&self) -> (res: Vec<String>)
        ensures
            strings_view(res@) == seq!["publish"@, "-p"@, self.name_spec()],
    {
        let res = vec!["publish".to_owned(), "-p".to_owned(), self.name.clone()];
        proof {
            assert(strings_view(res@) =~= seq!["publish"@, "-p"@, self.name_spec()]);
        }
        res
    }

    /// The arguments that select this package for `cargo build`; a crates.io
    /// package cannot be built.
    pub fn build_args(&self) -> (res: Vec<String>)
        requires
            self.kind_spec() != PkgKind::CratesIo,
        ensures
            strings_view(res@) == seq!["-p"@, self.name_spec()],
    {
        let res = vec!["-p".to_owned(), self.name.clone()];
        proof {
            assert(strings_view(res@) =~= seq!["-p"@, self.name_spec()]);
        }
        res
    }

    /// The arguments that select this package for `cargo run`; a crates.io
    /// package cannot be run.
    pub fn run_args(&self) -> (res: Vec<String>)
        requires
            self.kind_spec() != PkgKind::CratesIo,
        ensures
            strings_view(res@) == seq!["-p"@, self.name_spec()],
    {
        let res = vec!["-p".to_owned(), self.name.clone()];
        proof {
            assert(strings_view(res@) =~= seq!["-p"@, self.name_spec()]);
        }
        res
    }

    /// The arguments that select this package for `cargo install`: its path
    /// in the workspace rooted at `ws_root`, or its name on crates.io.
    pub fn install_args(&self, ws_root: &str) -> (res: Vec<String>)
        ensures
            strings_view(res@) == install_args_spec(self.kind_spec(), self.name_spec(), ws_root@),
    {
        let dir = match self.kind {
            PkgKind::LocalCrates => "crates",
            PkgKind::LocalDev => "dev",
            PkgKind::LocalPlugins => "plugins",
            PkgKind::CratesIo => {
                let res = vec![self.name.clone()];
                proof {
                    assert(strings_view(res@) =~= seq![self.name_spec()]);
                }
                return res;
            },
        };
        let base = path_join(ws_root, dir);
        let p = path_join(base.as_str(), self.name.as_str());
        let res = vec!["--path".to_owned(), p];
        proof {
            assert(strings_view(res@) =~= install_args_spec(
                self.kind_spec(),
                self.name_spec(),
                ws_root@,
            ));
        }
        res
    }

    /// The `cargo nextest` filter that selects test `test_name` of this
    /// package.
    pub fn nextest_test_filter(&self, test_name: &str) -> (res: Vec<String>)
        ensures
            strings_view(res@) == seq![
                "-E"@,
                "package(="@ + self.name_spec() + ") & test(="@ + test_name@ + ")"@,
            ],
    {
        let mut filter = String::new();
        push_str(&mut filter, "package(=");
        push_str(&mut filter, self.name.as_str());
        push_str(&mut filter, ") & test(=");
        push_str(&mut filter, test_name);
        push_str(&mut filter, ")");
        let res = vec!["-E".to_owned(), filter];
        proof {
            assert(strings_view(res@) =~= seq![
                "-E"@,
                "package(="@ + self.name_spec() + ") & test(="@ + test_name@ + ")"@,
            ]);
        }
        res
    }
}

pub open spec fn strings_view(v: Seq<String>) -> Seq<Seq<char>> {
    v.map_values(|s: String| s@)
}

/// The `cargo install` arguments of a package of kind `kind` named `name`.
pub open spec fn install_args_spec(kind: PkgKind, name: Seq<char>, ws_root: Seq<char>) -> Seq<
    Seq<char>,
> {
    match kind {
        PkgKind::LocalCrates => seq!["--path"@, joined_path(joined_path(ws_root, "crates"@), name)],
        PkgKind::LocalDev => seq!["--path"@, joined_path(joined_path(ws_root, "dev"@), name)],
        PkgKind::LocalPlugins => seq![
            "--path"@,
            joined_path(joined_path(ws_root, "plugins"@), name),
        ],
        PkgKind::CratesIo => seq![name],
    }
}

/// The name of a binary target.
#[derive(Debug, Clone, PartialEq, Eq)]
pub struct BinName {
    name: String,
}

impl BinName {
    pub closed spec fn name_spec(&self) -> Seq<char> {
        self.name@
    }

    /// The binary called `name`.
    pub fn new(name: &str) -> (res: Self)
        ensures
            res.name_spec() == name@,
    {
        BinName { name: name.to_owned() }
    }

    /// The arguments that select this binary.
    pub fn bin_arg(&self) -> (res: Vec<String>)
        ensures
            strings_view(res@) == seq!["--bin"@, self.name_spec()],
    {
        let res = vec!["--bin".to_owned(), self.name.clone()];
        proof {
            assert(strings_view(res@) =~= seq!["--bin"@, self.name_spec()]);
        }
        res
    }
}

/// A binary of a package.
#[derive(Debug, Clone, PartialEq, Eq)]
pub struct BinTarget<'pkg> {
    pkg: &'pkg Pkg,
    bin_name: BinName,
}

fn concat_args(a: Vec<String>, b: Vec<String>) -> (res: Vec<String>)
    ensures
        strings_view(res@) == strings_view(a@) + strings_view(b@),
{
    let mut res = a;
    let mut b = b;
    let ghost av = strings_view(res@);
    let ghost bv = strings_view(b@);
    res.append(&mut b);
    proof {
        assert(strings_view(res@) =~= av + bv);
    }
    res
}

impl<'pkg> BinTarget<'pkg> {
    pub closed spec fn pkg_spec(&self) -> &'pkg Pkg {
        self.pkg
    }

    pub closed spec fn bin_name_spec(&self) -> Seq<char> {
        self.bin_name.name_spec()
    }

    /// The binary `bin_name` of `pkg`.
    pub fn new(pkg: &'pkg Pkg, bin_name: &str) -> (res: Self)
        ensures
            *res.pkg_spec() == *pkg,
            res.bin_name_spec() == bin_name@,
    {
        BinTarget { pkg, bin_name: BinName::new(bin_name) }
    }

    /// The arguments that select this binary for `cargo build`.
    pub fn build_args(&self) -> (res: Vec<String>)
        requires
            self.pkg_spec().kind_spec() != PkgKind::CratesIo,
        ensures
            strings_view(res@) == seq![
                "-p"@,
                self.pkg_spec().name_spec(),
                "--bin"@,
                self.bin_name_spec(),
            ],
    {
        let res = concat_args(self.pkg.build_args(), self.bin_name.bin_arg());
        proof {
            assert(strings_view(res@) =~= seq![
                "-p"@,
                self.pkg_spec().name_spec(),
                "--bin"@,
                self.bin_name_spec(),
            ]);
        }
        res
    }

    /// The arguments that select this binary for `cargo run`.
    pub fn run_args(&self) -> (res: Vec<String>)
        requires
            self.pkg_spec().kind_spec() != PkgKind::CratesIo,
        ensures
            strings_view(res@) == seq![
                "-p"@,
                self.pkg_spec().name_spec(),
                "--bin"@,
                self.bin_name_spec(),
            ],
    {
        let res = concat_args(self.pkg.run_args(), self.bin_name.bin_arg());
        proof {
            assert(strings_view(res@) =~= seq![
                "-p"@,
                self.pkg_spec().name_spec(),
                "--bin"@,
                self.bin_name_spec(),
            ]);
        }
        res
    }

    /// The arguments that select this binary for `cargo install`.
    pub fn install_args(&self, ws_root: &str) -> (res: Vec<String>)
        ensures
            strings_view(res@) == install_args_spec(
                self.pkg_spec().kind_spec(),
                self.pkg_spec().name_spec(),
                ws_root@,
            ) + seq!["--bin"@, self.bin_name_spec()],
    {
        concat_args(self.pkg.install_args(ws_root), self.bin_name.bin_arg())
    }

    /// Where the binary is in directory `dir`, on a platform whose
    /// executables carry the extension `exe_extension`.
    pub fn path_in_custom_dir(&self, dir: &str, exe_extension: &str) -> (res: String)
        requires
            no_separator(exe_extension@),
        ensures
            res@ == path_with_extension(joined_path(dir@, self.bin_name_spec()), exe_extension@),
            exe_extension@.len() == 0 && plain_name(self.bin_name_spec()) && !self.bin_name_spec().contains(
                '.',
            ) ==> res@ == joined_path(dir@, self.bin_name_spec()),
    {
        let p = path_join(dir, self.bin_name.name.as_str());
        set_extension(p.as_str(), exe_extension)
    }

    /// Where the binary is once built with `profile`.
    pub fn path_in_profile(&self, profile: Profile, ws_root: &str, exe_extension: &str) -> (res:
        String)
        requires
            no_separator(exe_extension@),
        ensures
            res@ == path_with_extension(
                joined_path(target_dir_spec(profile, ws_root@), self.bin_name_spec()),
                exe_extension@,
            ),
            exe_extension@.len() == 0 && plain_name(self.bin_name_spec()) && !self.bin_name_spec().contains(
                '.',
            ) ==> res@ == joined_path(target_dir_spec(profile, ws_root@), self.bin_name_spec()),
    {
        let dir = profile.target_dir(ws_root);
        self.path_in_custom_dir(dir.as_str(), exe_extension)
    }
}

/// A cargo build profile.
#[derive(Copy, Clone, PartialEq, Eq, Debug)]
pub enum Profile {
    Dev,
    Release,
    Difftests,
    Ci,
}

/// The profile's directory name under `target`.
pub open spec fn profile_dir_name(p: Profile) -> Seq<char> {
    match p {
        Profile::Dev => "debug"@,
        Profile::Release => "release"@,
        Profile::Difftests => "difftests"@,
        Profile::Ci => "ci"@,
    }
}

pub open spec fn profile_name_spec(p: Profile) -> Seq<char> {
    match p {
        Profile::Dev => "dev"@,
        Profile::Release => "release"@,
        Profile::Difftests => "difftests"@,
        Profile::Ci => "ci"@,
    }
}

pub open spec fn target_dir_spec(p: Profile, ws_root: Seq<char>) -> Seq<char> {
    joined_path(joined_path(ws_root, "target"@), profile_dir_name(p))
}

/// The profile that `s` names: `debug` or `dev`, `release`, `difftests`,
/// `ci`.
pub open spec fn profile_from_name(s: Seq<char>) -> Option<Profile> {
    if s == "debug"@ || s == "dev"@ {
        Some(Profile::Dev)
    } else if s == "release"@ {
        Some(Profile::Release)
    } else if s == "difftests"@ {
        Some(Profile::Difftests)
    } else if s == "ci"@ {
        Some(Profile::Ci)
    } else {
        None
    }
}

impl Profile {
    /// The name of the profile.
    pub fn name(&self) -> (res: &'static str)
        ensures
            res@ == profile_name_spec(*self),
    {
        match self {
            Profile::Dev => "dev",
            Profile::Release => "release",
            Profile::Difftests => "difftests",
            Profile::Ci => "ci",
        }
    }

    /// The profile that `s` names.
    pub fn from_name(s: &str) -> (res: Option<Profile>)
        ensures
            res == profile_from_name(s@),
    {
        if crate::text::str_eq(s, "debug") || crate::text::str_eq(s, "dev") {
            Some(Profile::Dev)
        } else if crate::text::str_eq(s, "release") {
            Some(Profile::Release)
        } else if crate::text::str_eq(s, "difftests") {
            Some(Profile::Difftests)
        } else if crate::text::str_eq(s, "ci") {
            Some(Profile::Ci)
        } else {
            None
        }
    }

    /// The directory the profile builds into, under the workspace root.
    pub fn target_dir(&self, ws_root: &str) -> (res: String)
        ensures
            res@ == target_dir_spec(*self, ws_root@),
    {
        let t = path_join(ws_root, "target");
        let d = match self {
            Profile::Dev => "debug",
            Profile::Release => "release",
            Profile::Difftests => "difftests",
            Profile::Ci => "ci",
        };
        path_join(t.as_str(), d)
    }
}

/// Every profile name reads back as its profile.
pub proof fn lemma_profile_name_round_trip(p: Profile)
    ensures
        profile_from_name(profile_name_spec(p)) == Some(p),
{
    reveal_strlit("debug");
    reveal_strlit("dev");
    reveal_strlit("release");
    reveal_strlit("difftests");
    reveal_strlit("ci");
    assert("debug"@.len() == 5);
    assert("dev"@.len() == 3);
    assert("release"@.len() == 7);
    assert("difftests"@.len() == 9);
    assert("ci"@.len() == 2);
}

} // verus!
