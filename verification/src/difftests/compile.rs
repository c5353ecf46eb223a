//! Compiling the coverage data of a test into its test index.

use vstd::prelude::*;

use super::analysis::{file_is_from_cargo_registry, is_registry_file};
use super::coverage::{
    analysis_region_view, coverage_wf, source_regions, AnalysisContextInternal, CoverageData,
    IndexRegion, RegionView, TestIndex,
};
use super::cli::{CompileTestIndexFlags, FlattenFilesTarget};
use crate::paths::{path_strip_prefix, strip_prefix};
use crate::text::str_eq;

verus! {

/// How the files of a test index are named and chosen: made relative to
/// `flatten_root` where they lie under it, and without the cargo
/// registry's files (under `cargo_home`) where those are ignored.
#[derive(Debug, Clone, PartialEq, Eq)]
pub struct IndexDataCompilerConfig {
    pub flatten_root: Option<String>,
    pub ignore_cargo_registry: bool,
    pub cargo_home: String,
    pub remove_bin_path: bool,
}

/// The name a file gets in the index.
pub open spec fn index_file_name(cfg: IndexDataCompilerConfig, path: Seq<char>) -> Seq<char> {
    match cfg.flatten_root {
        Some(root) => match path_strip_prefix(path, root@) {
            Some(rest) => rest,
            None => path,
        },
        None => path,
    }
}

/// Whether the index keeps the regions of a file.
pub open spec fn index_accepts(cfg: IndexDataCompilerConfig, path: Seq<char>) -> bool {
    !(cfg.ignore_cargo_registry && is_registry_file(path, cfg.cargo_home@))
}

impl IndexDataCompilerConfig {
    /// The configuration the command-line flags ask for; `repo_root` is the
    /// work tree of the repository, used where files are flattened to it.
    pub fn from_flags(flags: CompileTestIndexFlags, repo_root: Option<String>, cargo_home: String) -> (res:
        Self)
        ensures
            res.flatten_root == (match flags.flatten_files_to {
                Some(FlattenFilesTarget::RepoRoot) => repo_root,
                None => None,
            }),
            res.ignore_cargo_registry == flags.ignore_cargo_registry,
            res.cargo_home == cargo_home,
            res.remove_bin_path == flags.remove_bin_path,
    {
        let flatten_root = match flags.flatten_files_to {
            Some(FlattenFilesTarget::RepoRoot) => repo_root,
            None => None,
        };
        IndexDataCompilerConfig {
            flatten_root,
            ignore_cargo_registry: flags.ignore_cargo_registry,
            cargo_home,
            remove_bin_path: flags.remove_bin_path,
        }
    }

    /// The name `path` gets in the index.
    pub fn index_filename_converter(&self, path: &str) -> (res: String)
        ensures
            res@ == index_file_name(*self, path@),
    {
        match &self.flatten_root {
            Some(root) => match strip_prefix(path, root.as_str()) {
                Some(rest) => rest,
                None => path.to_owned(),
            },
            None => path.to_owned(),
        }
    }

    /// Whether the index keeps the regions of `path`.
    pub fn accept_file(&self, path: &str) -> (res: bool)
        ensures
            res == index_accepts(*self, path@),
    {
        !(self.ignore_cargo_registry && file_is_from_cargo_registry(path, self.cargo_home.as_str()))
    }
}

/// The index being built: the coverage file names seen, the index's file
/// names (in the same order) and its regions.
pub struct IndexBuild {
    pub keys: Seq<Seq<char>>,
    pub files: Seq<Seq<char>>,
    pub regions: Seq<IndexRegion>,
}

/// Position of `k` in `keys`, or -1.
pub open spec fn seq_index_of(keys: Seq<Seq<char>>, k: Seq<char>) -> int
    decreases keys.len(),
{
    if keys.len() == 0 {
        -1
    } else if seq_index_of(keys.drop_last(), k) >= 0 {
        seq_index_of(keys.drop_last(), k)
    } else if keys.last() == k {
        keys.len() - 1
    } else {
        -1
    }
}

/// The index after region `r`: regions that never ran, or of files the
/// configuration rejects, are left out; a region of a file seen before
/// gets that file's id; a new file gets the next id, under its index name.
pub open spec fn index_step(cfg: IndexDataCompilerConfig, st: IndexBuild, r: RegionView) -> IndexBuild {
    if r.execution_count == 0 || !index_accepts(cfg, r.file) {
        st
    } else {
        let k = seq_index_of(st.keys, r.file);
        let id: int = if k >= 0 {
            k
        } else {
            st.keys.len() as int
        };
        let region = IndexRegion {
            l1: r.l1,
            c1: r.c1,
            l2: r.l2,
            c2: r.c2,
            count: r.execution_count,
            file_id: id as usize,
        };
        if k >= 0 {
            IndexBuild { regions: st.regions.push(region), ..st }
        } else {
            IndexBuild {
                keys: st.keys.push(r.file),
                files: st.files.push(index_file_name(cfg, r.file)),
                regions: st.regions.push(region),
            }
        }
    }
}

/// The index of the regions `rs`, in order.
pub open spec fn index_spec(cfg: IndexDataCompilerConfig, rs: Seq<RegionView>) -> IndexBuild
    decreases rs.len(),
{
    if rs.len() == 0 {
        IndexBuild { keys: Seq::empty(), files: Seq::empty(), regions: Seq::empty() }
    } else {
        index_step(cfg, index_spec(cfg, rs.drop_last()), rs.last())
    }
}

proof fn lemma_index_spec_lens(cfg: IndexDataCompilerConfig, rs: Seq<RegionView>)
    ensures
        index_spec(cfg, rs).keys.len() == index_spec(cfg, rs).files.len(),
        index_spec(cfg, rs).keys.len() <= rs.len(),
        forall|i: int| 0 <= i < index_spec(cfg, rs).regions.len() ==> (#[trigger] index_spec(cfg, rs).regions[i]).file_id < index_spec(cfg, rs).files.len(),
    decreases rs.len(),
{
    if rs.len() > 0 {
        lemma_index_spec_lens(cfg, rs.drop_last());
        let st = index_spec(cfg, rs.drop_last());
        let r = rs.last();
        lemma_seq_index_of(st.keys, r.file);
        let nt = index_spec(cfg, rs);
        assert forall|i: int| 0 <= i < nt.regions.len() implies (#[trigger] nt.regions[i]).file_id < nt.files.len() by {
            if i < st.regions.len() {
                assert(nt.regions[i] == st.regions[i]);
            }
        }
    }
}

proof fn lemma_seq_index_of(keys: Seq<Seq<char>>, k: Seq<char>)
    ensures
        -1 <= seq_index_of(keys, k) < keys.len(),
        seq_index_of(keys, k) >= 0 ==> keys[seq_index_of(keys, k)] == k,
        seq_index_of(keys, k) == -1 ==> !keys.contains(k),
    decreases keys.len(),
{
    if keys.len() > 0 {
        lemma_seq_index_of(keys.drop_last(), k);
        if seq_index_of(keys, k) == -1 {
            assert forall|i: int| 0 <= i < keys.len() implies keys[i] != k by {
                if i < keys.len() - 1 {
                    assert(keys.drop_last()[i] == keys[i]);
                }
            }
        }
    }
}

/// Position of `k` among `keys`.
fn find_key(keys: &Vec<String>, k: &str) -> (res: Option<usize>)
    ensures
        match res {
            Some(i) => seq_index_of(keys@.map_values(|s: String| s@), k@) == i as int,
            None => seq_index_of(keys@.map_values(|s: String| s@), k@) == -1,
        },
{
    let ghost kv = keys@.map_values(|s: String| s@);
    let mut i: usize = 0;
    proof {
        assert(kv.take(0) =~= Seq::<Seq<char>>::empty());
    }
    while i < keys.len()
        invariant
            i <= keys@.len(),
            kv == keys@.map_values(|s: String| s@),
            seq_index_of(kv.take(i as int), k@) == -1,
        decreases keys@.len() - i,
    {
        proof {
            assert(kv.take(i + 1).drop_last() =~= kv.take(i as int));
            assert(kv.take(i + 1).last() == keys@[i as int]@);
        }
        if str_eq(keys[i].as_str(), k) {
            proof {
                lemma_seq_index_of_prefix_found(kv, i as int, k@);
            }
            return Some(i);
        }
        i = i + 1;
    }
    proof {
        assert(kv.take(keys@.len() as int) =~= kv);
    }
    None
}

proof fn lemma_seq_index_of_prefix_found(keys: Seq<Seq<char>>, i: int, k: Seq<char>)
    requires
        0 <= i < keys.len(),
        keys[i] == k,
        seq_index_of(keys.take(i), k) == -1,
    ensures
        seq_index_of(keys, k) == i,
    decreases keys.len(),
{
    if keys.len() - 1 == i {
        assert(keys.drop_last() =~= keys.take(i));
    } else {
        assert(keys.drop_last().take(i) =~= keys.take(i));
        lemma_seq_index_of_prefix_found(keys.drop_last(), i, k);
    }
}

impl TestIndex {
    /// Compiles the coverage data of a test into its index: the regions
    /// that ran in accepted files, in order, each naming its file by the
    /// order of first appearance; the test ran at the given time.
    pub fn index(
        profdata: CoverageData,
        config: &IndexDataCompilerConfig,
        test_run_secs: i64,
        test_run_nanos: u32,
    ) -> (res: TestIndex)
        requires
            coverage_wf(profdata),
        ensures
            res.files@.map_values(|s: String| s@) == index_spec(
                *config,
                source_regions(AnalysisContextInternal::CoverageData(profdata)),
            ).files,
            res.regions@ == index_spec(
                *config,
                source_regions(AnalysisContextInternal::CoverageData(profdata)),
            ).regions,
            res.test_run_secs == test_run_secs,
            res.test_run_nanos == test_run_nanos,
            super::coverage::index_wf(res),
    {
        let source = AnalysisContextInternal::CoverageData(profdata);
        let ghost rs = source_regions(source);
        let mut keys: Vec<String> = Vec::new();
        let mut files: Vec<String> = Vec::new();
        let mut regions: Vec<IndexRegion> = Vec::new();
        let mut it = source.regions();
        proof {
            assert(rs.take(0) =~= Seq::<RegionView>::empty());
            assert(keys@.map_values(|s: String| s@) =~= Seq::<Seq<char>>::empty());
            assert(files@.map_values(|s: String| s@) =~= Seq::<Seq<char>>::empty());
        }
        loop
            invariant
                it.wf(),
                it.source_spec() == source,
                rs == source_regions(source),
                0 <= it.position() <= rs.len(),
                keys@.map_values(|s: String| s@) == index_spec(*config, rs.take(it.position())).keys,
                files@.map_values(|s: String| s@) == index_spec(*config, rs.take(it.position())).files,
                regions@ == index_spec(*config, rs.take(it.position())).regions,
            ensures
                keys@.map_values(|s: String| s@) == index_spec(*config, rs).keys,
                files@.map_values(|s: String| s@) == index_spec(*config, rs).files,
                regions@ == index_spec(*config, rs).regions,
            decreases rs.len() - it.position(),
        {
            let ghost p = it.position();
            match it.next() {
                None => {
                    proof {
                        assert(rs.take(p) =~= rs);
                    }
                    break;
                },
                Some(r) => {
                    let ghost rv = analysis_region_view(r);
                    let ghost st = index_spec(*config, rs.take(p));
                    proof {
                        assert(rv == rs[p]);
                        assert(rs.take(p + 1).drop_last() =~= rs.take(p));
                        assert(rs.take(p + 1).last() == rv);
                        lemma_index_spec_lens(*config, rs.take(p));
                        lemma_seq_index_of(st.keys, rv.file);
                    }
                    if r.execution_count != 0 && config.accept_file(r.file_ref) {
                        let file_id = match find_key(&keys, r.file_ref) {
                            Some(k) => k,
                            None => {
                                let ghost kv = keys@.map_values(|s: String| s@);
                                let ghost fv = files@.map_values(|s: String| s@);
                                let id = keys.len();
                                keys.push(r.file_ref.to_owned());
                                files.push(config.index_filename_converter(r.file_ref));
                                proof {
                                    assert(keys@.map_values(|s: String| s@) =~= kv.push(rv.file));
                                    assert(files@.map_values(|s: String| s@) =~= fv.push(
                                        super::compile::index_file_name(*config, rv.file),
                                    ));
                                }
                                id
                            },
                        };
                        regions.push(
                            IndexRegion {
                                l1: r.l1,
                                c1: r.c1,
                                l2: r.l2,
                                c2: r.c2,
                                count: r.execution_count,
                                file_id,
                            },
                        );
                    }
                },
            }
        }
        proof {
            lemma_index_spec_lens(*config, rs);
        }
        TestIndex { regions, files, test_run_secs, test_run_nanos }
    }
}

} // verus!
