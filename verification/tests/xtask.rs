use upsilon_dev::xtask::test_groups::{
    doctest_args, known_test_groups, nextest_args, setup_testenv_args, setup_testenv_env, NextestOptions,
    TestGroups, TestenvConfig,
};
use upsilon_dev::cranky::{CrankyConfig, LintLevel, LintLevelOrGroup, LintMap};
use upsilon_dev::xtask::cmd::{convert_path_to_win, extend_filext_new, cargo_build_profile_file_name, npm_path};
use upsilon_dev::xtask::pkg::{Pkg, Profile};

#[test]
fn package_arguments() {
    let p = Pkg::dev_pkg("upsilon-xtask");
    assert_eq!(p.build_args(), vec!["-p", "upsilon-xtask"]);
    assert_eq!(p.run_args(), vec!["-p", "upsilon-xtask"]);
    assert_eq!(p.install_args("/ws"), vec!["--path", "/ws/dev/upsilon-xtask"]);
    assert_eq!(Pkg::local_crates("a").install_args("/ws"), vec!["--path", "/ws/crates/a"]);
    assert_eq!(Pkg::plugin_pkg("b").install_args("/ws/"), vec!["--path", "/ws/plugins/b"]);
    assert_eq!(Pkg::crates_io("cargo-nextest").install_args("/ws"), vec!["cargo-nextest"]);
    assert_eq!(p.publish_args(), vec!["publish", "-p", "upsilon-xtask"]);
    assert_eq!(
        p.nextest_test_filter("t1"),
        vec!["-E", "package(=upsilon-xtask) & test(=t1)"]
    );
}

#[test]
fn binary_targets() {
    let p = Pkg::local_crates("upsilon-web");
    let t = p.main_target();
    assert_eq!(t.build_args(), vec!["-p", "upsilon-web", "--bin", "upsilon-web"]);
    let t2 = p.bin_target("other");
    assert_eq!(t2.run_args(), vec!["-p", "upsilon-web", "--bin", "other"]);
    assert_eq!(
        t2.install_args("/ws"),
        vec!["--path", "/ws/crates/upsilon-web", "--bin", "other"]
    );
    assert_eq!(t.path_in_profile(Profile::Release, "/ws", ""), "/ws/target/release/upsilon-web");
    assert_eq!(t.path_in_profile(Profile::Dev, "/ws", ""), "/ws/target/debug/upsilon-web");
    assert_eq!(t2.path_in_custom_dir("/ws/target/debug", ""), "/ws/target/debug/other");
    assert_eq!(t.path_in_custom_dir("/tmp/bin", "exe"), "/tmp/bin/upsilon-web.exe");
}

#[test]
fn profiles() {
    assert_eq!(Profile::Dev.name(), "dev");
    assert_eq!(Profile::Dev.target_dir("/ws"), "/ws/target/debug");
    assert_eq!(Profile::Ci.target_dir("/ws"), "/ws/target/ci");
    assert_eq!(Profile::from_name("debug"), Some(Profile::Dev));
    assert_eq!(Profile::from_name("dev"), Some(Profile::Dev));
    assert_eq!(Profile::from_name("difftests"), Some(Profile::Difftests));
    assert_eq!(Profile::from_name("nightly"), None);
    for p in [Profile::Dev, Profile::Release, Profile::Difftests, Profile::Ci] {
        assert_eq!(Profile::from_name(p.name()), Some(p));
    }
}

#[test]
fn workspace_paths() {
    assert_eq!(cargo_build_profile_file_name("/ws"), "/ws/target/profiles/prof_%m_%p.profraw");
    assert_eq!(npm_path(), "npm");
    assert_eq!(convert_path_to_win("a/b/c.txt"), "a\\b\\c.txt");
    assert_eq!(extend_filext_new(".github/workflows/ci.yaml"), ".github/workflows/ci.yaml.new");
    assert_eq!(extend_filext_new("x"), "x.new");
}

fn lint_map(entries: Vec<(&str, LintLevelOrGroup)>) -> LintMap {
    let mut map = LintMap::new();
    for (k, v) in entries {
        map.insert(k.to_owned(), v);
    }
    map
}

fn level(l: LintLevel) -> LintLevelOrGroup {
    LintLevelOrGroup::Level(l)
}

#[test]
fn lint_flags_strictest_first() {
    let map = lint_map(vec![
        ("aaa", level(LintLevel::Allow)),
        ("bbb", level(LintLevel::Warn)),
        ("ccc", level(LintLevel::Deny)),
    ]);
    let config = CrankyConfig::from_lint_map(&map);
    assert_eq!(config.extra_right_args().join(" "), "-Dccc -Wbbb -Aaaa");
}

#[test]
fn lint_groups_are_prefixed() {
    let clippy = lint_map(vec![("all", level(LintLevel::Warn)), ("pedantic", level(LintLevel::Forbid))]);
    let map = lint_map(vec![
        ("clippy", LintLevelOrGroup::Group(clippy)),
        ("dead_code", level(LintLevel::Warn)),
        ("unsafe_code", level(LintLevel::ForceWarn)),
    ]);
    let config = CrankyConfig::from_lint_map(&map);
    assert_eq!(
        config.extra_right_args(),
        vec!["-Fclippy::pedantic", "--force-warn", "unsafe_code", "-Wdead_code", "-Wclippy::all"]
    );
}

#[test]
fn cargo_and_workspace_paths() {
    assert_eq!(upsilon_dev::xtask::cmd::cargo_path(true, "/rust/bin/cargo"), "cargo");
    assert_eq!(upsilon_dev::xtask::cmd::cargo_path(false, "/rust/bin/cargo"), "/rust/bin/cargo");
    assert_eq!(upsilon_dev::xtask::cmd::workspace_root("/ws/dev/upsilon-xtask"), "/ws");
    assert_eq!(upsilon_dev::xtask::cmd::try_workspace_root("/ws/dev/upsilon-xtask"), Some("/ws".to_owned()));
    assert_eq!(upsilon_dev::xtask::cmd::try_workspace_root("/"), None);
}

#[test]
fn test_group_selection() {
    let known = known_test_groups();
    let names: Vec<&str> = known.iter().map(|g| g.name()).collect();
    assert_eq!(
        names,
        vec!["git-clone", "git-graphql", "github-mirror", "lookup-repo", "viewer", "ukonf", "upsilon-shell"]
    );
    assert_eq!(known[6].aliases(), &["ush"]);

    let none = TestGroups::from_flags(&known, &[false; 7]);
    assert!(none.groups.is_empty());
    assert!(none.to_args().is_empty());
    assert_eq!(none.testenv_config(), Some(TestenvConfig { needs_upsilon_clone: true }));

    let some = TestGroups::from_flags(&known, &[false, false, true, false, true, true, false]);
    assert_eq!(
        some.to_args(),
        vec![
            "-E",
            "package(=upsilon-testsuite) & binary(=github_mirror)",
            "-E",
            "package(=upsilon-testsuite) & binary(=viewer)",
            "-E",
            "package(=ukonf)",
        ]
    );
    assert_eq!(some.testenv_config(), None);

    let clone = TestGroups::from_flags(&known, &[false, true, false, false, false, false, true]);
    assert_eq!(clone.testenv_config(), Some(TestenvConfig { needs_upsilon_clone: true }));
}

#[test]
fn test_run_arguments() {
    assert_eq!(doctest_args(true, false, "dev"), vec!["test", "--doc", "--workspace", "--verbose", "--profile", "dev"]);
    assert_eq!(
        setup_testenv_args(true, false, "dev"),
        vec!["build", "-p", "upsilon-setup-testenv", "--bin", "upsilon-setup-testenv", "--profile", "dev"]
    );
    assert_eq!(setup_testenv_args(false, true, "ci")[0], "run");
    let known = known_test_groups();
    let groups = TestGroups::from_flags(&known, &[false, false, false, false, false, true, false]);
    let o = NextestOptions { offline: true, verbose: false, no_fail_fast: true, no_run: false, no_capture: false };
    let args = nextest_args(o, "difftests", &groups, &["my_test".to_owned()]);
    assert_eq!(
        args,
        vec![
            "nextest", "run", "--all", "--exclude", "upsilon-setup-testenv", "--exclude", "upsilon-xtask",
            "--exclude", "cargo-cranky", "--exclude", "cargo-guard", "--offline", "--no-fail-fast",
            "--cargo-profile", "difftests", "-E", "package(=ukonf)", "my_test",
        ]
    );
    let env = setup_testenv_env("/t/1", true, TestenvConfig { needs_upsilon_clone: false }, "/bin");
    let env: Vec<(&str, &str)> = env.iter().map(|(k, v)| (k.as_str(), v.as_str())).collect();
    assert_eq!(
        env,
        vec![
            ("UPSILON_SETUP_TESTENV", "/t/1"),
            ("UPSILON_TESTSUITE_OFFLINE", ""),
            ("RUST_LOG", "info"),
            ("UPSILON_BIN_DIR", "/bin"),
        ]
    );
}

#[test]
fn quick_test_profiles() {
    assert!(upsilon_dev::xtask::difftests::quick_tests_profile_supported("difftests"));
    assert!(upsilon_dev::xtask::difftests::quick_tests_profile_supported("difftests-ci"));
    assert!(!upsilon_dev::xtask::difftests::quick_tests_profile_supported("dev"));
    assert!(!upsilon_dev::xtask::difftests::quick_tests_profile_supported("difftestsx"));
    assert!(upsilon_dev::xtask::difftests::quick_tests_profile_supported("difftests-"));
}
