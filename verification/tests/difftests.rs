use upsilon_dev::difftests::analysis::{
    file_is_from_cargo_registry, test_touched_files, AnalysisContext, AnalysisResult, DiffHunkLines,
    GitDiffStrategy,
};
use upsilon_dev::difftests::cli::{AnalysisIndex, AnalysisIndexStrategy, DirtyAlgorithm, AnalysisAlgorithm, IndexResolverError};
use upsilon_dev::difftests::coverage::{
    CoverageData, CoverageFunction, CoverageMapping, CoverageRegion, IndexRegion, TestIndex,
};
use upsilon_dev::difftests::difftest::{scan_difftest_files, DiscoverIndexPathResolver};
use upsilon_dev::difftests::index::{
    compare_indexes_touch_same_files, AnalysisVerdict, IndexRegionSerDe, TouchSameFilesDifference,
};
use upsilon_dev::difftests::upsilon::{self as up, CbFileData, LineRange};

fn region(l1: usize, l2: usize, count: usize, file_id: usize) -> CoverageRegion {
    CoverageRegion { l1, c1: 1, l2, c2: 1, execution_count: count, file_id }
}

fn sample_data() -> CoverageData {
    CoverageData {
        data: vec![
            CoverageMapping {
                functions: vec![
                    CoverageFunction {
                        filenames: vec!["/src/a.rs".to_owned(), "/src/b.rs".to_owned()],
                        regions: vec![region(1, 3, 1, 0), region(10, 12, 0, 1)],
                    },
                    CoverageFunction { filenames: vec!["/src/c.rs".to_owned()], regions: vec![] },
                ],
            },
            CoverageMapping { functions: vec![] },
            CoverageMapping {
                functions: vec![CoverageFunction {
                    filenames: vec!["/home/u/.cargo/registry/src/x/lib.rs".to_owned(), "/src/a.rs".to_owned()],
                    regions: vec![region(5, 5, 2, 0), region(20, 25, 4, 1)],
                }],
            },
        ],
    }
}

#[test]
fn regions_are_walked_in_order() {
    let cx = AnalysisContext::new(sample_data());
    let mut it = cx.regions();
    let mut seen = Vec::new();
    while let Some(r) = it.next() {
        seen.push((r.l1, r.l2, r.execution_count, r.file_ref.to_owned()));
    }
    assert_eq!(
        seen,
        vec![
            (1, 3, 1, "/src/a.rs".to_owned()),
            (10, 12, 0, "/src/b.rs".to_owned()),
            (5, 5, 2, "/home/u/.cargo/registry/src/x/lib.rs".to_owned()),
            (20, 25, 4, "/src/a.rs".to_owned()),
        ]
    );
    assert!(it.next().is_none());
}

#[test]
fn touched_files_skip_unrun_regions_and_the_registry() {
    let cx = AnalysisContext::new(sample_data());
    assert_eq!(test_touched_files(&cx, false, "/home/u/.cargo"), vec!["/src/a.rs"]);
    assert_eq!(
        test_touched_files(&cx, true, "/home/u/.cargo"),
        vec!["/home/u/.cargo/registry/src/x/lib.rs", "/src/a.rs"]
    );
}

#[test]
fn registry_files() {
    assert!(file_is_from_cargo_registry("/home/u/.cargo/registry/src/a/b.rs", "/home/u/.cargo"));
    assert!(!file_is_from_cargo_registry("src/main.rs", "/home/u/.cargo"));
    assert!(!file_is_from_cargo_registry("/home/u/.cargo/registryx/a.rs", "/home/u/.cargo"));
}

#[test]
fn git_diff_strategies() {
    let cx = AnalysisContext::new(sample_data());
    let touched = test_touched_files(&cx, false, "/home/u/.cargo");
    let files = GitDiffStrategy::FilesOnly;
    assert!(files.file_delta_dirty(&touched, Some("src/a.rs"), None));
    assert!(files.file_delta_dirty(&touched, None, Some("a.rs")));
    assert!(!files.file_delta_dirty(&touched, Some("src/b.rs"), None));
    assert!(!GitDiffStrategy::Hunks.file_delta_dirty(&touched, Some("src/a.rs"), None));
    let hunks = GitDiffStrategy::Hunks;
    let h = |s: u32, n: u32| DiffHunkLines { old_start: s, old_lines: n, new_start: s, new_lines: 1 };
    assert!(hunks.hunk_dirty(&cx, Some("src/a.rs"), None, &h(2, 1)));
    assert!(hunks.hunk_dirty(&cx, Some("src/a.rs"), None, &h(24, 3)));
    assert!(!hunks.hunk_dirty(&cx, Some("src/a.rs"), None, &h(4, 2)));
    assert!(!hunks.hunk_dirty(&cx, Some("src/b.rs"), None, &h(10, 2)));
    assert!(!files.hunk_dirty(&cx, Some("src/a.rs"), None, &h(2, 1)));
    assert_eq!(GitDiffStrategy::default(), GitDiffStrategy::FilesOnly);
}

#[test]
fn analysis_context_result() {
    let index = TestIndex { regions: vec![], files: vec![], test_run_secs: 0, test_run_nanos: 0 };
    let mut cx = AnalysisContext::from_index(index);
    assert!(cx.get_index().is_some());
    assert!(cx.get_profdata().is_none());
    cx.set_result(AnalysisResult::Dirty);
    assert_eq!(cx.finish_analysis(), AnalysisResult::Dirty);
    assert_eq!(AnalysisVerdict::from(AnalysisResult::Clean), AnalysisVerdict::Clean);
}

fn index(files: &[&str]) -> TestIndex {
    TestIndex {
        regions: vec![IndexRegion { l1: 1, c1: 1, l2: 2, c2: 1, count: 1, file_id: 0 }],
        files: files.iter().map(|s| s.to_string()).collect(),
        test_run_secs: 0,
        test_run_nanos: 0,
    }
}

#[test]
fn comparing_indexes() {
    assert!(compare_indexes_touch_same_files(&index(&["a", "b"]), &index(&["b", "a", "a"])).is_ok());
    let d = compare_indexes_touch_same_files(&index(&["c", "a", "b"]), &index(&["b", "d"])).unwrap_err();
    assert_eq!(
        d.differences(),
        &[
            TouchSameFilesDifference::TouchedByFirstOnly("a".to_owned()),
            TouchSameFilesDifference::TouchedByFirstOnly("c".to_owned()),
            TouchSameFilesDifference::TouchedBySecondOnly("d".to_owned()),
        ]
    );
    let d = compare_indexes_touch_same_files(&index(&["x"]), &index(&["z/b", "a", "m", "x"])).unwrap_err();
    assert_eq!(
        d.differences(),
        &[
            TouchSameFilesDifference::TouchedBySecondOnly("a".to_owned()),
            TouchSameFilesDifference::TouchedBySecondOnly("m".to_owned()),
            TouchSameFilesDifference::TouchedBySecondOnly("z/b".to_owned()),
        ]
    );
}

#[test]
fn comparing_indexes_by_path() {
    assert!(compare_indexes_touch_same_files(&index(&["a/b/", "c"]), &index(&["c", "a/b"])).is_ok());
    let d = compare_indexes_touch_same_files(&index(&["a/b", "a/b/"]), &index(&["z"])).unwrap_err();
    assert_eq!(
        d.differences(),
        &[
            TouchSameFilesDifference::TouchedByFirstOnly("a/b".to_owned()),
            TouchSameFilesDifference::TouchedBySecondOnly("z".to_owned()),
        ]
    );
}

#[test]
fn index_regions_round_trip() {
    let r = IndexRegion { l1: 1, c1: 2, l2: 3, c2: 4, count: 5, file_id: 6 };
    let s = IndexRegionSerDe::from(r);
    assert_eq!(s.0, [1, 2, 3, 4, 5, 6]);
    assert_eq!(IndexRegion::from(s), r);
}

#[test]
fn index_path_resolver() {
    let resolver = DiscoverIndexPathResolver::Remap { from: "foo".into(), to: "bar".into() };
    assert_eq!(resolver.resolve("foo/bar/baz"), Some("bar/bar/baz".to_owned()));
    assert_eq!(resolver.resolve("bar/baz"), None);
}

#[test]
fn difftest_directory_scan() {
    let files = vec![
        "d/self.profraw".to_owned(),
        "d/other-1.profraw".to_owned(),
        "d/merged.profdata".to_owned(),
        "d/second.profdata".to_owned(),
        "d/self.json".to_owned(),
        "d/cargo_difftests_cleaned".to_owned(),
        "d/other-2.profraw".to_owned(),
    ];
    let scan = scan_difftest_files(&files, "self.profraw");
    assert_eq!(scan.other_profraws, vec!["d/other-1.profraw", "d/other-2.profraw"]);
    assert_eq!(scan.profdata_file, Some("d/merged.profdata".to_owned()));
    assert!(scan.cleaned);
    let scan = scan_difftest_files(&vec!["d/self.json".to_owned()], "self.profraw");
    assert!(scan.other_profraws.is_empty() && scan.profdata_file.is_none() && !scan.cleaned);
}

#[test]
fn command_line_choices() {
    assert_eq!(
        DirtyAlgorithm::GitDiffHunks.convert(None),
        AnalysisAlgorithm::GitDiff { strategy: GitDiffStrategy::Hunks, commit: None }
    );
    assert_eq!(DirtyAlgorithm::FsMtime.convert(None), AnalysisAlgorithm::FileSystemMtimes);
    assert_eq!(DirtyAlgorithm::default().name(), "fs-mtime");
    let ai = AnalysisIndex { index_root: Some("idx".to_owned()), index_strategy: AnalysisIndexStrategy::Always };
    assert_eq!(
        ai.index_resolver(Some("root".to_owned())),
        Ok(Some(DiscoverIndexPathResolver::Remap { from: "root".to_owned(), to: "idx".to_owned() }))
    );
    assert_eq!(ai.index_resolver(None), Err(IndexResolverError::RootIsNone));
    let never = AnalysisIndex { index_root: None, index_strategy: AnalysisIndexStrategy::Never };
    assert_eq!(never.index_resolver(None), Ok(None));
}

#[test]
fn workspace_hunk_analysis() {
    let data = sample_data();
    let rust = CbFileData::from_new_path(Some("src/a.rs"));
    assert!(rust.is_rust);
    assert!(!CbFileData::from_new_path(Some("README.md")).is_rust);
    assert!(!CbFileData::from_new_path(None).is_rust);
    assert_eq!(up::rust_file_modified_hunk(&data, "src/a.rs", 3, 2, rust), up::AnalysisResult::Dirty);
    assert_eq!(up::rust_file_modified_hunk(&data, "src/a.rs", 5, 2, rust), up::AnalysisResult::Fresh);
    assert_eq!(up::rust_file_modified_hunk(&data, "lib.rs", 5, 1, rust), up::AnalysisResult::Dirty);
}

#[test]
fn line_ranges() {
    let a = LineRange::new(3, 4);
    let b = LineRange::new(1, 10);
    assert!(!a.intersects(&b));
    assert!(b.intersects(&a));
    assert!(LineRange::new(1, 3).intersects(&LineRange::new(3, 5)));
    assert!(!LineRange::new(1, 2).intersects(&LineRange::new(3, 5)));
}

#[test]
fn workspace_diff_analysis() {
    let data = sample_data();
    let file = |status, p: &str| up::DiffEvent::File { status, new_path: Some(p.to_owned()) };
    let hunk = |p: &str, old_start, old_lines| up::DiffEvent::Hunk { new_path: Some(p.to_owned()), old_start, old_lines };
    let fresh = vec![
        file(up::DeltaStatus::Modified, "src/a.rs"),
        hunk("src/a.rs", 5, 2),
        file(up::DeltaStatus::Added, "README.md"),
        hunk("README.md", 1, 100),
    ];
    assert_eq!(up::analysis_context_analyze(&data, &fresh), up::AnalysisResult::Fresh);
    let mut dirty = fresh.clone();
    dirty.push(hunk("src/a.rs", 3, 2));
    dirty.push(file(up::DeltaStatus::Deleted, "src/b.rs"));
    assert_eq!(up::analysis_context_analyze(&data, &dirty), up::AnalysisResult::Dirty);
    assert_eq!(up::analysis_context_analyze(&data, &vec![]), up::AnalysisResult::Fresh);
    assert_eq!(up::event_result(&data, &file(up::DeltaStatus::Modified, "src/a.rs")), up::AnalysisResult::Fresh);
}

#[test]
fn index_root_resolver_and_result_names() {
    assert_eq!(upsilon_dev::difftests::cli::resolver_for_index_root("/tmp/d", None), None);
    assert_eq!(
        upsilon_dev::difftests::cli::resolver_for_index_root("/tmp/d", Some("/idx".to_owned())),
        Some(DiscoverIndexPathResolver::Remap { from: "/tmp/d".to_owned(), to: "/idx".to_owned() })
    );
    assert_eq!(AnalysisResult::Clean.display_name(), "clean");
    assert_eq!(AnalysisResult::Dirty.display_name(), "dirty");
}

#[test]
fn file_system_mtimes() {
    let f = upsilon_dev::difftests::analysis::file_system_mtime_analysis;
    assert_eq!(f(&[(10, 0), (20, 5)], (20, 5)), AnalysisResult::Clean);
    assert_eq!(f(&[(10, 0), (20, 6)], (20, 5)), AnalysisResult::Dirty);
    assert_eq!(f(&[(21, 0)], (20, 999)), AnalysisResult::Dirty);
    assert_eq!(f(&[], (0, 0)), AnalysisResult::Clean);
}
