//! Coverage data of a test run (as `llvm-cov export` writes it), the test
//! index compiled from it, and the walk over their code regions.

use vstd::prelude::*;

verus! {

/// A code region of a coverage mapping, and how often it ran.
#[derive(Clone, Copy, Debug, PartialEq, Eq)]
pub struct CoverageRegion {
    pub l1: usize,
    pub c1: usize,
    pub l2: usize,
    pub c2: usize,
    pub execution_count: usize,
    /// Index into the file names of the function.
    pub file_id: usize,
}

/// A function of a coverage mapping: the files its regions lie in, and
/// its regions.
pub struct CoverageFunction {
    pub filenames: Vec<String>,
    pub regions: Vec<CoverageRegion>,
}

/// The coverage mapping of one binary.
pub struct CoverageMapping {
    pub functions: Vec<CoverageFunction>,
}

/// The coverage data of a test run.
pub struct CoverageData {
    pub data: Vec<CoverageMapping>,
}

/// A region of a test index; `file_id` indexes the files of the index.
#[derive(Clone, Copy, Debug, PartialEq, Eq)]
pub struct IndexRegion {
    pub l1: usize,
    pub c1: usize,
    pub l2: usize,
    pub c2: usize,
    pub count: usize,
    pub file_id: usize,
}

/// The compact index of what a test touched: the regions that ran, the
/// files they lie in, and when the test ran (seconds and nanoseconds since
/// the Unix epoch, UTC).
pub struct TestIndex {
    pub regions: Vec<IndexRegion>,
    pub files: Vec<String>,
    pub test_run_secs: i64,
    pub test_run_nanos: u32,
}

/// A region as the analysis sees it: its lines and columns, how often it
/// ran, and its file.
pub struct RegionView {
    pub l1: usize,
    pub c1: usize,
    pub l2: usize,
    pub c2: usize,
    pub execution_count: usize,
    pub file: Seq<char>,
}

/// Every region of `f` names one of its files.
pub open spec fn function_wf(f: CoverageFunction) -> bool {
    forall|i: int| 0 <= i < f.regions@.len() ==> (#[trigger] f.regions@[i]).file_id < f.filenames@.len()
}

/// Every region of the data names a file of its function.
pub open spec fn coverage_wf(d: CoverageData) -> bool {
    forall|m: int, f: int|
        0 <= m < d.data@.len() && 0 <= f < d.data@[m].functions@.len() ==> function_wf(
            #[trigger] d.data@[m].functions@[f],
        )
}

/// Every region of the index names one of its files.
pub open spec fn index_wf(ix: TestIndex) -> bool {
    forall|i: int| 0 <= i < ix.regions@.len() ==> (#[trigger] ix.regions@[i]).file_id < ix.files@.len()
}

pub open spec fn coverage_region_view(f: CoverageFunction, r: CoverageRegion) -> RegionView {
    RegionView {
        l1: r.l1,
        c1: r.c1,
        l2: r.l2,
        c2: r.c2,
        execution_count: r.execution_count,
        file: f.filenames@[r.file_id as int]@,
    }
}

pub open spec fn function_regions(f: CoverageFunction) -> Seq<RegionView> {
    f.regions@.map_values(|r: CoverageRegion| coverage_region_view(f, r))
}

/// The regions of the functions `fs`, function by function.
pub open spec fn functions_regions(fs: Seq<CoverageFunction>) -> Seq<RegionView>
    decreases fs.len(),
{
    if fs.len() == 0 {
        Seq::empty()
    } else {
        functions_regions(fs.drop_last()) + function_regions(fs.last())
    }
}

/// The regions of the mappings `ms`, mapping by mapping.
pub open spec fn mappings_regions(ms: Seq<CoverageMapping>) -> Seq<RegionView>
    decreases ms.len(),
{
    if ms.len() == 0 {
        Seq::empty()
    } else {
        mappings_regions(ms.drop_last()) + functions_regions(ms.last().functions@)
    }
}

/// All regions of the coverage data, in order.
pub open spec fn coverage_regions(d: CoverageData) -> Seq<RegionView> {
    mappings_regions(d.data@)
}

pub open spec fn index_region_view(ix: TestIndex, r: IndexRegion) -> RegionView {
    RegionView {
        l1: r.l1,
        c1: r.c1,
        l2: r.l2,
        c2: r.c2,
        execution_count: r.count,
        file: ix.files@[r.file_id as int]@,
    }
}

/// All regions of the index, in order.
pub open spec fn index_regions(ix: TestIndex) -> Seq<RegionView> {
    ix.regions@.map_values(|r: IndexRegion| index_region_view(ix, r))
}

proof fn lemma_functions_regions_prefix(fs: Seq<CoverageFunction>, a: int)
    requires
        0 <= a <= fs.len(),
    ensures
        functions_regions(fs.take(a)).len() <= functions_regions(fs).len(),
        functions_regions(fs.take(a)) == functions_regions(fs).take(
            functions_regions(fs.take(a)).len() as int,
        ),
    decreases fs.len() - a,
{
    if a == fs.len() {
        assert(fs.take(a) =~= fs);
    } else {
        lemma_functions_regions_prefix(fs, a + 1);
        assert(fs.take(a + 1).drop_last() =~= fs.take(a));
        let p = functions_regions(fs.take(a));
        let q = functions_regions(fs.take(a + 1));
        assert(q == p + function_regions(fs[a]));
        assert(functions_regions(fs).take(p.len() as int) =~= q.take(p.len() as int));
        assert(q.take(p.len() as int) =~= p);
    }
}

proof fn lemma_mappings_regions_prefix(ms: Seq<CoverageMapping>, a: int)
    requires
        0 <= a <= ms.len(),
    ensures
        mappings_regions(ms.take(a)).len() <= mappings_regions(ms).len(),
        mappings_regions(ms.take(a)) == mappings_regions(ms).take(
            mappings_regions(ms.take(a)).len() as int,
        ),
    decreases ms.len() - a,
{
    if a == ms.len() {
        assert(ms.take(a) =~= ms);
    } else {
        lemma_mappings_regions_prefix(ms, a + 1);
        assert(ms.take(a + 1).drop_last() =~= ms.take(a));
        let p = mappings_regions(ms.take(a));
        let q = mappings_regions(ms.take(a + 1));
        assert(q == p + functions_regions(ms[a].functions@));
        assert(mappings_regions(ms).take(p.len() as int) =~= q.take(p.len() as int));
        assert(q.take(p.len() as int) =~= p);
    }
}

/// Where an analysis reads its regions from.
pub enum AnalysisContextInternal {
    /// The full coverage data of a difftest.
    CoverageData(CoverageData),
    /// A compiled test index.
    IndexData(TestIndex),
}

/// The regions that an analysis source holds, in order.
pub open spec fn source_regions(s: AnalysisContextInternal) -> Seq<RegionView> {
    match s {
        AnalysisContextInternal::CoverageData(d) => coverage_regions(d),
        AnalysisContextInternal::IndexData(ix) => index_regions(ix),
    }
}

pub open spec fn source_wf(s: AnalysisContextInternal) -> bool {
    match s {
        AnalysisContextInternal::CoverageData(d) => coverage_wf(d),
        AnalysisContextInternal::IndexData(ix) => index_wf(ix),
    }
}

/// A region handed out by [`AnalysisRegions`].
pub struct AnalysisRegion<'r> {
    pub l1: usize,
    pub c1: usize,
    pub l2: usize,
    pub c2: usize,
    pub execution_count: usize,
    pub file_ref: &'r str,
}

pub open spec fn analysis_region_view(r: AnalysisRegion) -> RegionView {
    RegionView {
        l1: r.l1,
        c1: r.c1,
        l2: r.l2,
        c2: r.c2,
        execution_count: r.execution_count,
        file: r.file_ref@,
    }
}

/// Where the walk over the regions stands.
enum RegionsIterState {
    CoverageData { mapping_idx: usize, function_idx: usize, region_idx: usize },
    IndexData { region_idx: usize },
}

/// A walk over the regions of an analysis source, in order.
pub struct AnalysisRegions<'r> {
    source: &'r AnalysisContextInternal,
    state: RegionsIterState,
}

impl<'r> AnalysisRegions<'r> {
    /// The source walked.
    pub closed spec fn source_spec(&self) -> AnalysisContextInternal {
        *self.source
    }

    /// How many regions the walk has handed out.
    pub closed spec fn position(&self) -> int {
        match (*self.source, self.state) {
            (
                AnalysisContextInternal::CoverageData(d),
                RegionsIterState::CoverageData { mapping_idx, function_idx, region_idx },
            ) => if mapping_idx < d.data@.len() {
                mappings_regions(d.data@.take(mapping_idx as int)).len() + functions_regions(
                    d.data@[mapping_idx as int].functions@.take(function_idx as int),
                ).len() + region_idx
            } else {
                coverage_regions(d).len() as int
            },
            (AnalysisContextInternal::IndexData(_), RegionsIterState::IndexData { region_idx }) => region_idx as int,
            _ => 0,
        }
    }

    /// The state matches the source and points inside it.
    pub closed spec fn wf(&self) -> bool {
        &&& source_wf(*self.source)
        &&& match (*self.source, self.state) {
            (
                AnalysisContextInternal::CoverageData(d),
                RegionsIterState::CoverageData { mapping_idx, function_idx, region_idx },
            ) => mapping_idx <= d.data@.len() && (mapping_idx < d.data@.len() ==> (function_idx
                <= d.data@[mapping_idx as int].functions@.len() && (function_idx
                < d.data@[mapping_idx as int].functions@.len() ==> region_idx
                <= d.data@[mapping_idx as int].functions@[function_idx as int].regions@.len())
                && (function_idx == d.data@[mapping_idx as int].functions@.len() ==> region_idx
                == 0))),
            (AnalysisContextInternal::IndexData(ix), RegionsIterState::IndexData { region_idx }) => region_idx
                <= ix.regions@.len(),
            _ => false,
        }
        &&& 0 <= self.position() <= source_regions(*self.source).len()
    }
}

impl AnalysisContextInternal {
    /// A walk over the regions of the source, from the first.
    pub fn regions(&self) -> (res: AnalysisRegions<'_>)
        requires
            source_wf(*self),
        ensures
            res.wf(),
            res.source_spec() == *self,
            res.position() == 0,
    {
        let state = match self {
            AnalysisContextInternal::CoverageData(_) => RegionsIterState::CoverageData {
                mapping_idx: 0,
                function_idx: 0,
                region_idx: 0,
            },
            AnalysisContextInternal::IndexData(_) => RegionsIterState::IndexData { region_idx: 0 },
        };
        let res = AnalysisRegions { source: self, state };
        proof {
            if let AnalysisContextInternal::CoverageData(d) = self {
                assert(d.data@.take(0) =~= Seq::<CoverageMapping>::empty());
                if d.data@.len() > 0 {
                    assert(d.data@[0].functions@.take(0) =~= Seq::<CoverageFunction>::empty());
                }
            }
        }
        res
    }
}

impl<'r> AnalysisRegions<'r> {
    /// The next region, or `None` once all have been handed out.
    pub fn next(&mut self) -> (res: Option<AnalysisRegion<'r>>)
        requires
            old(self).wf(),
        ensures
            final(self).wf(),
            final(self).source_spec() == old(self).source_spec(),
            match res {
                Some(r) => old(self).position() < source_regions(old(self).source_spec()).len()
                    && analysis_region_view(r) == source_regions(old(self).source_spec())[old(
                    self,
                ).position()] && final(self).position() == old(self).position() + 1,
                None => old(self).position() == source_regions(old(self).source_spec()).len()
                    && final(self).position() == old(self).position(),
            },
    {
        match self.source {
            AnalysisContextInternal::CoverageData(profdata) => {
                let (mut mi, mut fi, mut ri) = match self.state {
                    RegionsIterState::CoverageData { mapping_idx, function_idx, region_idx } => (
                        mapping_idx,
                        function_idx,
                        region_idx,
                    ),
                    RegionsIterState::IndexData { .. } => (0, 0, 0),
                };
                let ghost ms = profdata.data@;
                let ghost pos0 = self.position();
                proof {
                    lemma_mappings_regions_prefix(ms, mi as int);
                    if mi < ms.len() {
                        lemma_functions_regions_prefix(ms[mi as int].functions@, fi as int);
                    }
                }
                loop
                    invariant
                        ms == profdata.data@,
                        *self.source == AnalysisContextInternal::CoverageData(*profdata),
                        coverage_wf(*profdata),
                        self.wf(),
                        self.position() == pos0,
                        self.state == (RegionsIterState::CoverageData {
                            mapping_idx: mi,
                            function_idx: fi,
                            region_idx: ri,
                        }),
                        pos0 == old(self).position(),
                        *old(self).source == *self.source,
                        old(self).source == self.source,
                    ensures
                        self.wf(),
                        self.source == old(self).source,
                        mi < ms.len(),
                        fi < ms[mi as int].functions@.len(),
                        ri < ms[mi as int].functions@[fi as int].regions@.len(),
                    decreases ms.len() - mi, (if mi < ms.len() {
                        ms[mi as int].functions@.len() - fi
                    } else {
                        0
                    }), (if mi < ms.len() && fi < ms[mi as int].functions@.len() {
                        ms[mi as int].functions@[fi as int].regions@.len() - ri
                    } else {
                        0
                    }),
                {
                    if mi >= profdata.data.len() {
                        proof {
                            assert(ms.take(ms.len() as int) =~= ms);
                        }
                        return None;
                    }
                    let mapping = &profdata.data[mi];
                    if fi >= mapping.functions.len() {
                        proof {
                            assert(ms.take(mi + 1).drop_last() =~= ms.take(mi as int));
                            assert(mapping.functions@.take(fi as int) =~= mapping.functions@);
                        }
                        mi = mi + 1;
                        fi = 0;
                        ri = 0;
                        self.state = RegionsIterState::CoverageData {
                            mapping_idx: mi,
                            function_idx: fi,
                            region_idx: ri,
                        };
                        proof {
                            lemma_mappings_regions_prefix(ms, mi as int);
                            if mi < ms.len() {
                                assert(ms[mi as int].functions@.take(0) =~= Seq::<CoverageFunction>::empty());
                            } else {
                                assert(ms.take(mi as int) =~= ms);
                            }
                        }
                        continue;
                    }
                    let function = &mapping.functions[fi];
                    if ri >= function.regions.len() {
                        proof {
                            let fs = mapping.functions@;
                            assert(fs.take(fi + 1).drop_last() =~= fs.take(fi as int));
                        }
                        fi = fi + 1;
                        ri = 0;
                        self.state = RegionsIterState::CoverageData {
                            mapping_idx: mi,
                            function_idx: fi,
                            region_idx: ri,
                        };
                        proof {
                            lemma_functions_regions_prefix(mapping.functions@, fi as int);
                        }
                        continue;
                    }
                    break;
                }
                let mapping = &profdata.data[mi];
                let function = &mapping.functions[fi];
                let region = function.regions[ri];
                let nr = function.regions.len();
                proof {
                    assert(ri < nr);
                    assert(function_wf(*function));
                    assert(region == function.regions@[ri as int]);
                }
                let r = AnalysisRegion {
                    l1: region.l1,
                    c1: region.c1,
                    l2: region.l2,
                    c2: region.c2,
                    execution_count: region.execution_count,
                    file_ref: function.filenames[region.file_id].as_str(),
                };
                proof {
                    let fs = mapping.functions@;
                    lemma_mappings_regions_prefix(ms, mi + 1);
                    assert(ms.take(mi + 1).drop_last() =~= ms.take(mi as int));
                    lemma_functions_regions_prefix(fs, fi + 1);
                    assert(fs.take(fi + 1).drop_last() =~= fs.take(fi as int));
                    let a = mappings_regions(ms.take(mi as int));
                    let b = functions_regions(fs.take(fi as int));
                    let c = function_regions(*function);
                    let k = a.len() + b.len() + ri;
                    assert(functions_regions(fs.take(fi + 1)) == b + c);
                    assert(mappings_regions(ms.take(mi + 1)) == a + functions_regions(fs));
                    assert(functions_regions(fs.take(fi + 1))[b.len() + ri] == c[ri as int]);
                    assert(functions_regions(fs)[b.len() + ri] == c[ri as int]);
                    assert(mappings_regions(ms.take(mi + 1))[k] == c[ri as int]);
                    assert(coverage_regions(*profdata)[k] == c[ri as int]);
                }
                self.state = RegionsIterState::CoverageData {
                    mapping_idx: mi,
                    function_idx: fi,
                    region_idx: ri + 1,
                };
                Some(r)
            },
            AnalysisContextInternal::IndexData(index) => {
                let ri = match self.state {
                    RegionsIterState::IndexData { region_idx } => region_idx,
                    RegionsIterState::CoverageData { .. } => 0,
                };
                if ri >= index.regions.len() {
                    return None;
                }
                let region = index.regions[ri];
                proof {
                    assert(index.regions@[ri as int] == region);
                }
                let r = AnalysisRegion {
                    l1: region.l1,
                    c1: region.c1,
                    l2: region.l2,
                    c2: region.c2,
                    execution_count: region.count,
                    file_ref: index.files[region.file_id].as_str(),
                };
                self.state = RegionsIterState::IndexData { region_idx: ri + 1 };
                Some(r)
            },
        }
    }
}

} // verus!
