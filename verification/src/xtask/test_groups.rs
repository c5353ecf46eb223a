//! The groups of tests that the test task can select, what they need from
//! the test environment, and the arguments of the test runs.

use vstd::prelude::*;

verus! {

/// A test group that is one binary of the test suite.
#[derive(Debug, Clone, PartialEq, Eq)]
pub struct TestSuiteBinGroup {
    pub name: &'static str,
    pub aliases: Vec<&'static str>,
    pub bin: &'static str,
    pub nextest_filter: &'static str,
    pub needs_upsilon_clone: bool,
}

/// A group of tests that can be selected by name.
#[derive(Debug, Clone, PartialEq, Eq)]
pub enum TestGroup {
    TestSuiteBin(TestSuiteBinGroup),
    Package {
        name: &'static str,
        aliases: Vec<&'static str>,
        package: &'static str,
        needs_testenv: bool,
        nextest_filter: &'static str,
    },
}

/// What the test environment must prepare.
#[derive(Debug, Clone, Copy, PartialEq, Eq)]
pub struct TestenvConfig {
    pub needs_upsilon_clone: bool,
}

impl TestenvConfig {
    /// Adds what `other` needs.
    pub fn merge_with(&mut self, other: Option<TestenvConfig>)
        ensures
            final(self).needs_upsilon_clone == (old(self).needs_upsilon_clone || match other {
                Some(o) => o.needs_upsilon_clone,
                None => false,
            }),
    {
        match other {
            Some(o) => {
                self.needs_upsilon_clone = self.needs_upsilon_clone || o.needs_upsilon_clone;
            },
            None => {},
        }
    }

    /// Everything the test environment can prepare.
    pub fn all() -> (res: Self)
        ensures
            res.needs_upsilon_clone,
    {
        TestenvConfig { needs_upsilon_clone: true }
    }

    /// The configuration, or `None` where it needs nothing.
    pub fn compile(self) -> (res: Option<TestenvConfig>)
        ensures
            res == (if self.needs_upsilon_clone {
                Some(self)
            } else {
                None::<TestenvConfig>
            }),
    {
        if !self.needs_upsilon_clone {
            None
        } else {
            Some(self)
        }
    }
}

/// What a group needs from the test environment.
pub open spec fn group_testenv(g: TestGroup) -> Option<TestenvConfig> {
    let needs = match g {
        TestGroup::TestSuiteBin(b) => b.needs_upsilon_clone,
        TestGroup::Package { needs_testenv, .. } => needs_testenv,
    };
    if needs {
        Some(TestenvConfig { needs_upsilon_clone: true })
    } else {
        None
    }
}

pub open spec fn group_name(g: TestGroup) -> Seq<char> {
    match g {
        TestGroup::TestSuiteBin(b) => b.name@,
        TestGroup::Package { name, .. } => name@,
    }
}

pub open spec fn group_filter(g: TestGroup) -> Seq<char> {
    match g {
        TestGroup::TestSuiteBin(b) => b.nextest_filter@,
        TestGroup::Package { nextest_filter, .. } => nextest_filter@,
    }
}

impl TestGroup {
    /// The name the group is selected by.
    pub fn name(&self) -> (res: &'static str)
        ensures
            res@ == group_name(*self),
    {
        match self {
            TestGroup::TestSuiteBin(group) => group.name,
            TestGroup::Package { name, .. } => name,
        }
    }

    /// Other names the group is selected by.
    pub fn aliases(&self) -> (res: &[&'static str])
        ensures
            res@ == match *self {
                TestGroup::TestSuiteBin(b) => b.aliases@,
                TestGroup::Package { aliases, .. } => aliases@,
            },
    {
        match self {
            TestGroup::TestSuiteBin(group) => group.aliases.as_slice(),
            TestGroup::Package { aliases, .. } => aliases.as_slice(),
        }
    }

    /// The nextest filter expression that selects the group's tests.
    pub fn nextest_filter(&self) -> (res: &'static str)
        ensures
            res@ == group_filter(*self),
    {
        match self {
            TestGroup::TestSuiteBin(group) => group.nextest_filter,
            TestGroup::Package { nextest_filter, .. } => nextest_filter,
        }
    }

    /// What the group needs from the test environment, if anything.
    pub fn testenv_config(&self) -> (res: Option<TestenvConfig>)
        ensures
            res == group_testenv(*self),
    {
        match self {
            TestGroup::TestSuiteBin(group) => TestenvConfig {
                needs_upsilon_clone: group.needs_upsilon_clone,
            }.compile(),
            TestGroup::Package { needs_testenv, .. } => TestenvConfig {
                needs_upsilon_clone: *needs_testenv,
            }.compile(),
        }
    }
}

fn suite_bin(name: &'static str, bin: &'static str, filter: &'static str, needs_upsilon_clone: bool) -> (res:
    TestGroup)
    ensures
        group_name(res) == name@,
        group_filter(res) == filter@,
        group_testenv(res) is Some <==> needs_upsilon_clone,
{
    TestGroup::TestSuiteBin(
        TestSuiteBinGroup { name, aliases: Vec::new(), bin, nextest_filter: filter, needs_upsilon_clone },
    )
}

/// The test groups the task knows, in order: five binaries of the test
/// suite (three of which need a clone of the repository), and the `ukonf`
/// and `upsilon-shell` (alias `ush`) packages.
pub fn known_test_groups() -> (res: Vec<TestGroup>)
    ensures
        res@.len() == 7,
        group_name(res@[0]) == "git-clone"@ && group_testenv(res@[0]) is Some,
        group_name(res@[1]) == "git-graphql"@ && group_testenv(res@[1]) is Some,
        group_name(res@[2]) == "github-mirror"@ && group_testenv(res@[2]) is None,
        group_name(res@[3]) == "lookup-repo"@ && group_testenv(res@[3]) is Some,
        group_name(res@[4]) == "viewer"@ && group_testenv(res@[4]) is None,
        group_name(res@[5]) == "ukonf"@ && group_testenv(res@[5]) is None,
        group_name(res@[6]) == "upsilon-shell"@ && group_testenv(res@[6]) is None,
        group_filter(res@[0]) == "package(=upsilon-testsuite) & binary(=git_clone)"@,
        group_filter(res@[1]) == "package(=upsilon-testsuite) & binary(=git_graphql)"@,
        group_filter(res@[2]) == "package(=upsilon-testsuite) & binary(=github_mirror)"@,
        group_filter(res@[3]) == "package(=upsilon-testsuite) & binary(=lookup_repo)"@,
        group_filter(res@[4]) == "package(=upsilon-testsuite) & binary(=viewer)"@,
        group_filter(res@[5]) == "package(=ukonf)"@,
        group_filter(res@[6]) == "package(=upsilon-shell)"@,
{
    let mut v: Vec<TestGroup> = Vec::new();
    v.push(suite_bin("git-clone", "git_clone", "package(=upsilon-testsuite) & binary(=git_clone)", true));
    v.push(suite_bin("git-graphql", "git_graphql", "package(=upsilon-testsuite) & binary(=git_graphql)", true));
    v.push(
        suite_bin("github-mirror", "github_mirror", "package(=upsilon-testsuite) & binary(=github_mirror)", false),
    );
    v.push(suite_bin("lookup-repo", "lookup_repo", "package(=upsilon-testsuite) & binary(=lookup_repo)", true));
    v.push(suite_bin("viewer", "viewer", "package(=upsilon-testsuite) & binary(=viewer)", false));
    v.push(
        TestGroup::Package {
            name: "ukonf",
            aliases: Vec::new(),
            package: "ukonf",
            needs_testenv: false,
            nextest_filter: "package(=ukonf)",
        },
    );
    let mut ush_aliases: Vec<&'static str> = Vec::new();
    ush_aliases.push("ush");
    v.push(
        TestGroup::Package {
            name: "upsilon-shell",
            aliases: ush_aliases,
            package: "upsilon-shell",
            needs_testenv: false,
            nextest_filter: "package(=upsilon-shell)",
        },
    );
    v
}

/// The groups selected by `flags` (one per known group, in order), in
/// order.
pub open spec fn selected(groups: Seq<TestGroup>, flags: Seq<bool>) -> Seq<TestGroup>
    decreases groups.len(),
{
    if groups.len() == 0 {
        Seq::empty()
    } else {
        selected(groups.drop_last(), flags) + if flags[groups.len() - 1] {
            seq![groups.last()]
        } else {
            Seq::empty()
        }
    }
}

/// Whether any of the groups needs a clone of the repository.
pub open spec fn any_needs_clone(groups: Seq<TestGroup>) -> bool {
    exists|i: int| 0 <= i < groups.len() && (#[trigger] group_testenv(groups[i])) is Some
}

/// The selected test groups, with what they need from the environment.
#[derive(Debug, Clone)]
pub struct TestGroups<'a> {
    pub groups: Vec<&'a TestGroup>,
    pub testenv_config: Option<TestenvConfig>,
}

pub open spec fn refs_view(v: Seq<&TestGroup>) -> Seq<TestGroup> {
    v.map_values(|g: &TestGroup| *g)
}

/// The nextest arguments that select the groups: `-E` and the filter of
/// each.
pub open spec fn group_args(groups: Seq<TestGroup>) -> Seq<Seq<char>>
    decreases groups.len(),
{
    if groups.len() == 0 {
        Seq::empty()
    } else {
        group_args(groups.drop_last()) + seq!["-E"@, group_filter(groups.last())]
    }
}

pub open spec fn strings_view(v: Seq<String>) -> Seq<Seq<char>> {
    v.map_values(|s: String| s@)
}

impl<'a> TestGroups<'a> {
    /// The groups of `known` whose flag is set (one flag per known group),
    /// with what they need together from the test environment.
    pub fn from_flags(known: &'a Vec<TestGroup>, flags: &[bool]) -> (res: TestGroups<'a>)
        requires
            flags@.len() == known@.len(),
        ensures
            refs_view(res.groups@) == selected(known@, flags@),
            res.testenv_config == (if any_needs_clone(selected(known@, flags@)) {
                Some(TestenvConfig { needs_upsilon_clone: true })
            } else {
                None::<TestenvConfig>
            }),
    {
        let mut groups: Vec<&'a TestGroup> = Vec::new();
        let mut cfg = TestenvConfig { needs_upsilon_clone: false };
        let mut i: usize = 0;
        proof {
            assert(known@.take(0) =~= Seq::<TestGroup>::empty());
        }
        while i < known.len()
            invariant
                i <= known@.len(),
                flags@.len() == known@.len(),
                refs_view(groups@) == selected(known@.take(i as int), flags@),
                cfg.needs_upsilon_clone == any_needs_clone(refs_view(groups@)),
            decreases known@.len() - i,
        {
            proof {
                assert(known@.take(i + 1).drop_last() =~= known@.take(i as int));
                assert(known@.take(i + 1).last() == known@[i as int]);
            }
            let ghost before = refs_view(groups@);
            if flags[i] {
                let g: &'a TestGroup = &known[i];
                let t = g.testenv_config();
                cfg.merge_with(t);
                groups.push(g);
                proof {
                    let after = refs_view(groups@);
                    assert(after =~= before.push(known@[i as int]));
                    if cfg.needs_upsilon_clone {
                        if !any_needs_clone(before) {
                            assert(group_testenv(after[before.len() as int]) is Some);
                        }
                    }
                    if any_needs_clone(after) {
                        let j = choose|j: int|
                            0 <= j < after.len() && (#[trigger] group_testenv(after[j])) is Some;
                        if j < before.len() {
                            assert(after[j] == before[j]);
                        }
                    }
                    if any_needs_clone(before) {
                        let j = choose|j: int|
                            0 <= j < before.len() && (#[trigger] group_testenv(before[j])) is Some;
                        assert(after[j] == before[j]);
                    }
                }
            } else {
                proof {
                    assert(selected(known@.take(i + 1), flags@) =~= before);
                }
            }
            i = i + 1;
        }
        proof {
            assert(known@.take(known@.len() as int) =~= known@);
        }
        TestGroups { groups, testenv_config: cfg.compile() }
    }

    /// The nextest arguments that select the groups.
    pub fn to_args(&self) -> (res: Vec<String>)
        ensures
            strings_view(res@) == group_args(refs_view(self.groups@)),
    {
        let ghost gs = refs_view(self.groups@);
        let mut args: Vec<String> = Vec::new();
        let mut i: usize = 0;
        proof {
            assert(gs.take(0) =~= Seq::<TestGroup>::empty());
            assert(strings_view(args@) =~= Seq::<Seq<char>>::empty());
        }
        while i < self.groups.len()
            invariant
                i <= self.groups@.len(),
                gs == refs_view(self.groups@),
                strings_view(args@) == group_args(gs.take(i as int)),
            decreases self.groups@.len() - i,
        {
            proof {
                assert(gs.take(i + 1).drop_last() =~= gs.take(i as int));
                assert(gs.take(i + 1).last() == gs[i as int]);
            }
            let ghost before = strings_view(args@);
            let e = "-E".to_owned();
            let f = self.groups[i].nextest_filter().to_owned();
            args.push(e);
            args.push(f);
            proof {
                assert(strings_view(args@) =~= before + seq!["-E"@, group_filter(gs[i as int])]);
            }
            i = i + 1;
        }
        proof {
            assert(gs.take(gs.len() as int) =~= gs);
        }
        args
    }

    /// What the test environment must prepare: everything where no group
    /// was selected (all tests run), else what the selected groups need.
    pub fn testenv_config(&self) -> (res: Option<TestenvConfig>)
        ensures
            res == (if self.groups@.len() == 0 {
                Some(TestenvConfig { needs_upsilon_clone: true })
            } else {
                self.testenv_config
            }),
    {
        if self.groups.len() == 0 {
            Some(TestenvConfig::all())
        } else {
            self.testenv_config
        }
    }
}

/// The flag `s` where `b` holds.
pub open spec fn flag_if(b: bool, s: Seq<char>) -> Seq<Seq<char>> {
    if b {
        seq![s]
    } else {
        Seq::empty()
    }
}

fn push_if(args: &mut Vec<String>, b: bool, s: &str)
    ensures
        strings_view(final(args)@) == strings_view(old(args)@) + flag_if(b, s@),
{
    let ghost before = strings_view(args@);
    if b {
        args.push(s.to_owned());
        proof {
            assert(strings_view(args@) =~= before + seq![s@]);
        }
    } else {
        proof {
            assert(strings_view(args@) =~= before + Seq::<Seq<char>>::empty());
        }
    }
}

fn push_all(args: &mut Vec<String>, more: &[String])
    ensures
        strings_view(final(args)@) == strings_view(old(args)@) + strings_view(more@),
{
    let ghost before = strings_view(args@);
    let mut i: usize = 0;
    proof {
        assert(strings_view(more@).take(0) =~= Seq::<Seq<char>>::empty());
        assert(strings_view(args@) =~= before + strings_view(more@).take(0));
    }
    while i < more.len()
        invariant
            i <= more@.len(),
            strings_view(args@) == before + strings_view(more@).take(i as int),
        decreases more@.len() - i,
    {
        let ghost prev = strings_view(args@);
        let x = more[i].as_str().to_owned();
        args.push(x);
        proof {
            assert(strings_view(args@) =~= prev.push(more@[i as int]@));
            assert(strings_view(more@).take(i + 1) =~= strings_view(more@).take(i as int).push(
                more@[i as int]@,
            ));
            assert(strings_view(args@) =~= before + strings_view(more@).take(i + 1));
        }
        i = i + 1;
    }
    proof {
        assert(strings_view(more@).take(more@.len() as int) =~= strings_view(more@));
    }
}

/// The packages left out of the test runs.
pub open spec fn excludes_spec() -> Seq<Seq<char>> {
    seq![
        "--exclude"@, "upsilon-setup-testenv"@,
        "--exclude"@, "upsilon-xtask"@,
        "--exclude"@, "cargo-cranky"@,
        "--exclude"@, "cargo-guard"@,
    ]
}

/// The arguments that leave out of the test runs the packages that have
/// no tests to run there.
pub fn test_excludes() -> (res: Vec<String>)
    ensures
        strings_view(res@) == excludes_spec(),
{
    let mut v: Vec<String> = Vec::new();
    v.push("--exclude".to_owned());
    v.push("upsilon-setup-testenv".to_owned());
    v.push("--exclude".to_owned());
    v.push("upsilon-xtask".to_owned());
    v.push("--exclude".to_owned());
    v.push("cargo-cranky".to_owned());
    v.push("--exclude".to_owned());
    v.push("cargo-guard".to_owned());
    proof {
        assert(strings_view(v@) =~= excludes_spec());
    }
    v
}

/// The cargo arguments that run the documentation tests.
pub fn doctest_args(verbose: bool, no_fail_fast: bool, profile: &str) -> (res: Vec<String>)
    ensures
        strings_view(res@) == seq!["test"@, "--doc"@, "--workspace"@] + flag_if(verbose, "--verbose"@)
            + flag_if(no_fail_fast, "--no-fail-fast"@) + seq!["--profile"@, profile@],
{
    let mut v: Vec<String> = Vec::new();
    v.push("test".to_owned());
    v.push("--doc".to_owned());
    v.push("--workspace".to_owned());
    proof {
        assert(strings_view(v@) =~= seq!["test"@, "--doc"@, "--workspace"@]);
    }
    push_if(&mut v, verbose, "--verbose");
    push_if(&mut v, no_fail_fast, "--no-fail-fast");
    let ghost before = strings_view(v@);
    v.push("--profile".to_owned());
    v.push(profile.to_owned());
    proof {
        assert(strings_view(v@) =~= before + seq!["--profile"@, profile@]);
    }
    v
}

/// The cargo arguments that build (`no_run`) or run the set-up of the test
/// environment.
pub fn setup_testenv_args(no_run: bool, verbose: bool, profile: &str) -> (res: Vec<String>)
    ensures
        strings_view(res@) == flag_if(no_run, "build"@) + flag_if(!no_run, "run"@) + seq![
            "-p"@,
            "upsilon-setup-testenv"@,
            "--bin"@,
            "upsilon-setup-testenv"@,
        ] + flag_if(verbose, "--verbose"@) + seq!["--profile"@, profile@],
{
    let mut v: Vec<String> = Vec::new();
    proof {
        assert(strings_view(v@) =~= Seq::<Seq<char>>::empty());
    }
    push_if(&mut v, no_run, "build");
    push_if(&mut v, !no_run, "run");
    let ghost a = strings_view(v@);
    v.push("-p".to_owned());
    v.push("upsilon-setup-testenv".to_owned());
    v.push("--bin".to_owned());
    v.push("upsilon-setup-testenv".to_owned());
    proof {
        assert(strings_view(v@) =~= a + seq![
            "-p"@,
            "upsilon-setup-testenv"@,
            "--bin"@,
            "upsilon-setup-testenv"@,
        ]);
        assert(Seq::<Seq<char>>::empty() + a =~= a);
    }
    push_if(&mut v, verbose, "--verbose");
    let ghost b = strings_view(v@);
    v.push("--profile".to_owned());
    v.push(profile.to_owned());
    proof {
        assert(strings_view(v@) =~= b + seq!["--profile"@, profile@]);
    }
    v
}

/// The options of a nextest run.
#[derive(Debug, Clone, Copy, PartialEq, Eq)]
pub struct NextestOptions {
    pub offline: bool,
    pub verbose: bool,
    pub no_fail_fast: bool,
    pub no_run: bool,
    pub no_capture: bool,
}

/// The cargo arguments of the nextest run of the selected groups and
/// test filters.
pub open spec fn nextest_args_spec(
    o: NextestOptions,
    profile: Seq<char>,
    groups: Seq<TestGroup>,
    filters: Seq<Seq<char>>,
) -> Seq<Seq<char>> {
    seq!["nextest"@, "run"@, "--all"@] + excludes_spec() + flag_if(o.offline, "--offline"@) + flag_if(
        o.verbose,
        "--verbose"@,
    ) + flag_if(o.no_fail_fast, "--no-fail-fast"@) + flag_if(o.no_run, "--no-run"@) + flag_if(
        o.no_capture,
        "--no-capture"@,
    ) + seq!["--cargo-profile"@, profile] + group_args(groups) + filters
}

/// The cargo arguments that run the tests with nextest.
pub fn nextest_args(o: NextestOptions, profile: &str, groups: &TestGroups, filters: &[String]) -> (res:
    Vec<String>)
    ensures
        strings_view(res@) == nextest_args_spec(
            o,
            profile@,
            refs_view(groups.groups@),
            strings_view(filters@),
        ),
{
    let mut v: Vec<String> = Vec::new();
    v.push("nextest".to_owned());
    v.push("run".to_owned());
    v.push("--all".to_owned());
    proof {
        assert(strings_view(v@) =~= seq!["nextest"@, "run"@, "--all"@]);
    }
    let ex = test_excludes();
    push_all(&mut v, ex.as_slice());
    push_if(&mut v, o.offline, "--offline");
    push_if(&mut v, o.verbose, "--verbose");
    push_if(&mut v, o.no_fail_fast, "--no-fail-fast");
    push_if(&mut v, o.no_run, "--no-run");
    push_if(&mut v, o.no_capture, "--no-capture");
    let ghost b = strings_view(v@);
    v.push("--cargo-profile".to_owned());
    v.push(profile.to_owned());
    proof {
        assert(strings_view(v@) =~= b + seq!["--cargo-profile"@, profile@]);
    }
    let ga = groups.to_args();
    push_all(&mut v, ga.as_slice());
    push_all(&mut v, filters);
    v
}

pub open spec fn env_view(v: Seq<(String, String)>) -> Seq<(Seq<char>, Seq<char>)> {
    v.map_values(|p: (String, String)| (p.0@, p.1@))
}

/// The environment of the set-up of the test environment.
pub fn setup_testenv_env(setup_testenv: &str, offline: bool, config: TestenvConfig, bin_dir: &str) -> (res: Vec<
    (String, String),
>)
    ensures
        env_view(res@) == seq![("UPSILON_SETUP_TESTENV"@, setup_testenv@)] + (if offline {
            seq![("UPSILON_TESTSUITE_OFFLINE"@, ""@)]
        } else {
            Seq::empty()
        }) + (if config.needs_upsilon_clone {
            seq![("UPSILON_SETUP_TESTENV_UPSILON_CLONE"@, "1"@)]
        } else {
            Seq::empty()
        }) + seq![("RUST_LOG"@, "info"@), ("UPSILON_BIN_DIR"@, bin_dir@)],
{
    let mut v: Vec<(String, String)> = Vec::new();
    v.push(("UPSILON_SETUP_TESTENV".to_owned(), setup_testenv.to_owned()));
    let ghost a = env_view(v@);
    if offline {
        v.push(("UPSILON_TESTSUITE_OFFLINE".to_owned(), "".to_owned()));
    }
    let ghost b = env_view(v@);
    if config.needs_upsilon_clone {
        v.push(("UPSILON_SETUP_TESTENV_UPSILON_CLONE".to_owned(), "1".to_owned()));
    }
    let ghost c = env_view(v@);
    v.push(("RUST_LOG".to_owned(), "info".to_owned()));
    v.push(("UPSILON_BIN_DIR".to_owned(), bin_dir.to_owned()));
    proof {
        assert(a =~= seq![("UPSILON_SETUP_TESTENV"@, setup_testenv@)]);
        if offline {
            assert(b =~= a + seq![("UPSILON_TESTSUITE_OFFLINE"@, ""@)]);
        } else {
            assert(b =~= a + Seq::<(Seq<char>, Seq<char>)>::empty());
        }
        if config.needs_upsilon_clone {
            assert(c =~= b + seq![("UPSILON_SETUP_TESTENV_UPSILON_CLONE"@, "1"@)]);
        } else {
            assert(c =~= b + Seq::<(Seq<char>, Seq<char>)>::empty());
        }
        assert(env_view(v@) =~= c + seq![("RUST_LOG"@, "info"@), ("UPSILON_BIN_DIR"@, bin_dir@)]);
    }
    v
}

} // verus!
