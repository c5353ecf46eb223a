use upsilon_dev::difftests::cli::{
    AnalysisIndex, AnalysisIndexStrategy, AnalysisPlan, CompileTestIndexFlags, FlattenFilesTarget,
};
use upsilon_dev::difftests::compile::IndexDataCompilerConfig;
use upsilon_dev::difftests::coverage::{
    CoverageData, CoverageFunction, CoverageMapping, CoverageRegion, IndexRegion, TestIndex,
};
use upsilon_dev::difftests::difftest::{index_data_usable, scan_difftest_files, Difftest, DifftestsCleaned};
use upsilon_dev::difftests::index::{AnalysisVerdict, AnalyzeAllSingleTest};
use upsilon_dev::shell::cli::App;
use upsilon_dev::test_support::{ConfigInit, CxConfigVars, KeepConfig, TestCxConfig, TestCxView};
use upsilon_dev::xtask::difftests::tests_to_rerun;
use upsilon_dev::xtask::docusaurus::Docusaurus;

fn difftest_in(dir: &str, files: &[&str]) -> Difftest {
    let files: Vec<String> = files.iter().map(|f| format!("{dir}/{f}")).collect();
    let scan = scan_difftest_files(&files, "self.profraw");
    Difftest::new(
        dir.to_owned(),
        format!("{dir}/self.profraw"),
        format!("{dir}/self.json"),
        scan,
        None,
        None,
    )
}

#[test]
fn difftest_goes_through_its_stages() {
    let mut d = difftest_in("t", &["self.profraw", "self.json", "child.profraw"]);
    assert_eq!(d.dir(), "t");
    assert_eq!(d.self_profraw(), "t/self.profraw");
    assert_eq!(d.self_json(), "t/self.json");
    assert_eq!(d.other_profraws(), &["t/child.profraw".to_owned()]);
    assert!(!d.has_index());
    assert_eq!(d.merge_needed(false), Ok(true));
    assert!(d.has_profdata().is_none());

    d.set_profdata_file("t/merged.profdata".to_owned());
    assert_eq!(d.merge_needed(false), Ok(false));
    assert_eq!(d.merge_needed(true), Ok(true));
    assert_eq!(d.has_profdata().unwrap().get_profdata(), "t/merged.profdata");

    d.set_exported_profdata_file("t/exported.json".to_owned());
    {
        let e = d.assert_has_exported_profdata();
        assert_eq!(e.get_exported_profdata(), "t/exported.json");
        assert_eq!(e.get_profdata(), "t/merged.profdata");
    }

    d.mark_cleaned();
    assert_eq!(d.merge_needed(false), Err(DifftestsCleaned));
    assert!(d.has_profdata().is_none());
    assert!(d.other_profraws().is_empty());
}

#[test]
fn cleaned_marker_and_profdata_are_found() {
    let d = difftest_in("u", &["a.profdata", "b.profdata", "cargo_difftests_cleaned"]);
    assert_eq!(d.merge_needed(false), Err(DifftestsCleaned));
    let mut d = difftest_in("v", &["a.profdata", "b.profdata"]);
    assert_eq!(d.merge_needed(false), Ok(false));
    assert_eq!(d.has_profdata().unwrap().get_profdata(), "v/a.profdata");
}

#[test]
fn index_usability() {
    assert!(index_data_usable(true, true, 10, 10));
    assert!(index_data_usable(true, true, 11, 10));
    assert!(!index_data_usable(true, true, 9, 10));
    assert!(!index_data_usable(true, false, 11, 10));
    assert!(!index_data_usable(false, true, 11, 10));
}

fn region(l1: usize, l2: usize, count: usize, file_id: usize) -> CoverageRegion {
    CoverageRegion { l1, c1: 2, l2, c2: 7, execution_count: count, file_id }
}

#[test]
fn compiling_a_test_index() {
    let data = CoverageData {
        data: vec![CoverageMapping {
            functions: vec![
                CoverageFunction {
                    filenames: vec!["/repo/src/a.rs".to_owned(), "/cargo/registry/x.rs".to_owned()],
                    regions: vec![region(1, 2, 3, 0), region(4, 5, 1, 1), region(6, 7, 0, 0)],
                },
                CoverageFunction {
                    filenames: vec!["/elsewhere/b.rs".to_owned(), "/repo/src/a.rs".to_owned()],
                    regions: vec![region(8, 9, 2, 0), region(10, 11, 5, 1)],
                },
            ],
        }],
    };
    let config = IndexDataCompilerConfig::from_flags(
        CompileTestIndexFlags::default(),
        Some("/repo".to_owned()),
        "/cargo".to_owned(),
    );
    assert_eq!(config.flatten_root.as_deref(), Some("/repo"));
    assert!(config.ignore_cargo_registry);
    assert_eq!(config.index_filename_converter("/repo/src/a.rs"), "src/a.rs");
    assert_eq!(config.index_filename_converter("/other/c.rs"), "/other/c.rs");
    assert!(config.accept_file("/repo/src/a.rs"));
    assert!(!config.accept_file("/cargo/registry/x.rs"));

    let index = TestIndex::index(data, &config, 1700, 25);
    assert_eq!(index.files, vec!["src/a.rs".to_owned(), "/elsewhere/b.rs".to_owned()]);
    assert_eq!(
        index.regions,
        vec![
            IndexRegion { l1: 1, c1: 2, l2: 2, c2: 7, count: 3, file_id: 0 },
            IndexRegion { l1: 8, c1: 2, l2: 9, c2: 7, count: 2, file_id: 1 },
            IndexRegion { l1: 10, c1: 2, l2: 11, c2: 7, count: 5, file_id: 0 },
        ]
    );
    assert_eq!((index.test_run_secs, index.test_run_nanos), (1700, 25));
}

#[test]
fn compiler_config_without_flattening() {
    let flags = CompileTestIndexFlags {
        ignore_cargo_registry: false,
        flatten_files_to: None,
        remove_bin_path: false,
    };
    let config = IndexDataCompilerConfig::from_flags(flags, Some("/repo".to_owned()), "/cargo".to_owned());
    assert_eq!(config.flatten_root, None);
    assert_eq!(config.index_filename_converter("/repo/src/a.rs"), "/repo/src/a.rs");
    assert!(config.accept_file("/cargo/registry/x.rs"));
    let with_root = CompileTestIndexFlags { flatten_files_to: Some(FlattenFilesTarget::RepoRoot), ..flags };
    let config = IndexDataCompilerConfig::from_flags(with_root, None, "/cargo".to_owned());
    assert_eq!(config.flatten_root, None);
}

#[test]
fn analysis_plans() {
    let plan = |s: AnalysisIndexStrategy, has: bool| {
        AnalysisIndex { index_root: Some("idx".to_owned()), index_strategy: s }.analysis_plan(has)
    };
    assert_eq!(plan(AnalysisIndexStrategy::Never, true), AnalysisPlan::CoverageData);
    assert_eq!(plan(AnalysisIndexStrategy::Always, true), AnalysisPlan::ExistingIndex);
    assert_eq!(plan(AnalysisIndexStrategy::Always, false), AnalysisPlan::CompileIndex { clean: false });
    assert_eq!(plan(AnalysisIndexStrategy::AlwaysAndClean, false), AnalysisPlan::CompileIndex { clean: true });
    assert_eq!(plan(AnalysisIndexStrategy::IfAvailable, true), AnalysisPlan::ExistingIndex);
    assert_eq!(plan(AnalysisIndexStrategy::IfAvailable, false), AnalysisPlan::CoverageData);
}

#[test]
fn only_dirty_tests_rerun() {
    let t = |name: &str, verdict: AnalysisVerdict| AnalyzeAllSingleTest { difftest: None, test_desc: name.to_owned(), verdict };
    let kept = tests_to_rerun(vec![
        t("a", AnalysisVerdict::Clean),
        t("b", AnalysisVerdict::Dirty),
        t("c", AnalysisVerdict::Clean),
        t("d", AnalysisVerdict::Dirty),
    ]);
    let names: Vec<&str> = kept.iter().map(|t| t.test_desc.as_str()).collect();
    assert_eq!(names, vec!["b", "d"]);
    assert!(tests_to_rerun(Vec::<AnalyzeAllSingleTest<u8>>::new()).is_empty());
}

fn app(https: bool, http_port: u16, gql_endpoint: Option<&str>) -> App {
    App {
        ssh: true,
        ssh_port: 22,
        git_protocol: false,
        git_protocol_port: 9418,
        git_http: true,
        http_port,
        https,
        hostname: "localhost".to_owned(),
        gql_endpoint: gql_endpoint.map(str::to_owned),
        reconfigure: false,
    }
}

#[test]
fn graphql_endpoint_from_the_host() {
    assert_eq!(app(false, 80, None).into_parsed().gql_endpoint, "http://localhost/graphql");
    assert_eq!(app(true, 443, None).into_parsed().gql_endpoint, "https://localhost/graphql");
    assert_eq!(app(false, 8000, None).into_parsed().gql_endpoint, "http://localhost:8000/graphql");
    assert_eq!(app(true, 80, None).into_parsed().gql_endpoint, "https://localhost:80/graphql");
    assert_eq!(app(false, 80, Some("http://x/gql")).into_parsed().gql_endpoint, "http://x/gql");
    let info = app(false, 8000, None).into_parsed().to_ush_host_info();
    assert_eq!(info.hostname, "localhost");
    assert_eq!(info.http_port, 8000);
    assert!(info.git_ssh_enabled && !info.git_protocol_enabled && info.git_http_enabled);
}

#[test]
fn test_context_workdir() {
    let vars = CxConfigVars {
        workdir: "/tmp/tests".to_owned(),
        upsilon_web_bin: "web".to_owned(),
        gracefully_shutdown_host_bin: "host".to_owned(),
        crate_name: "c",
        pkg_name: "p",
        bin_name: None,
        bin_path: "bin".to_owned(),
        test_name: "my_test",
        source_file_path_hash: 1234,
        works_offline: true,
        config_init: KeepConfig,
    };
    let mut cfg = TestCxConfig::new(&vars);
    cfg.with_port(8000).with_git_protocol().with_config("a: 1");
    assert_eq!(cfg.workdir(), "/tmp/tests/1234/my_test");
}

#[test]
fn docusaurus_arguments() {
    let d = Docusaurus::new("docs".to_owned());
    assert_eq!(d.build_args(), vec!["run", "build"]);
    assert_eq!(d.serve_args(), vec!["run", "serve"]);
}

struct CountingInit {
    calls: std::cell::Cell<u32>,
}

impl ConfigInit for CountingInit {
    fn initializes(&self, _before: TestCxView, _after: TestCxView) -> bool {
        true
    }

    fn init(&self, cfg: &mut TestCxConfig) {
        self.calls.set(self.calls.get() + 1);
        cfg.with_port(9000).with_ssh_protocol();
    }
}

#[test]
fn config_initializer_runs_once() {
    let vars = CxConfigVars {
        workdir: "/tmp/tests".to_owned(),
        upsilon_web_bin: "web".to_owned(),
        gracefully_shutdown_host_bin: "host".to_owned(),
        crate_name: "c",
        pkg_name: "p",
        bin_name: Some("b"),
        bin_path: "bin".to_owned(),
        test_name: "t",
        source_file_path_hash: 7,
        works_offline: false,
        config_init: CountingInit { calls: std::cell::Cell::new(0) },
    };
    let cfg = TestCxConfig::new(&vars);
    assert_eq!(vars.config_init.calls.get(), 1);
    assert_eq!(cfg.workdir(), "/tmp/tests/7/t");
}
