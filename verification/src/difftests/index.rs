//! Test indexes: their stored form, and comparing the files two of them
//! touched.

use vstd::prelude::*;

use super::analysis::{path_sorted, AnalysisResult};
use super::coverage::{IndexRegion, TestIndex};
use crate::paths::{less, path_less};

verus! {

/// The stored form of an [`IndexRegion`]: `[l1, c1, l2, c2, count, file_id]`.
#[derive(Clone, Copy, Debug, PartialEq, Eq)]
pub struct IndexRegionSerDe(pub [usize; 6]);

impl From<IndexRegionSerDe> for IndexRegion {
    fn from(value: IndexRegionSerDe) -> (res: Self) {
        let a = value.0;
        IndexRegion { l1: a[0], c1: a[1], l2: a[2], c2: a[3], count: a[4], file_id: a[5] }
    }
}

impl vstd::std_specs::convert::FromSpecImpl<IndexRegionSerDe> for IndexRegion {
    open spec fn obeys_from_spec() -> bool {
        true
    }

    open spec fn from_spec(v: IndexRegionSerDe) -> IndexRegion {
        IndexRegion {
            l1: v.0[0],
            c1: v.0[1],
            l2: v.0[2],
            c2: v.0[3],
            count: v.0[4],
            file_id: v.0[5],
        }
    }
}

impl From<IndexRegion> for IndexRegionSerDe {
    fn from(value: IndexRegion) -> (res: Self) {
        IndexRegionSerDe([value.l1, value.c1, value.l2, value.c2, value.count, value.file_id])
    }
}

impl vstd::std_specs::convert::FromSpecImpl<IndexRegion> for IndexRegionSerDe {
    open spec fn obeys_from_spec() -> bool {
        true
    }

    open spec fn from_spec(v: IndexRegion) -> IndexRegionSerDe {
        IndexRegionSerDe([v.l1, v.c1, v.l2, v.c2, v.count, v.file_id])
    }
}

/// Storing a region and reading it back gives the region.
pub proof fn lemma_index_region_round_trip(r: IndexRegion)
    ensures
        <IndexRegion as vstd::std_specs::convert::FromSpec<IndexRegionSerDe>>::from_spec(
            <IndexRegionSerDe as vstd::std_specs::convert::FromSpec<IndexRegion>>::from_spec(r),
        ) == r,
{
}

/// A file that only one of two indexes touched.
#[derive(Clone, Debug, PartialEq, Eq)]
pub enum TouchSameFilesDifference {
    TouchedByFirstOnly(String),
    TouchedBySecondOnly(String),
}

/// The differences found between two indexes.
#[derive(Clone, Debug)]
pub struct IndexCompareDifferences<D> {
    differences: Vec<D>,
}

impl<D> IndexCompareDifferences<D> {
    pub closed spec fn differences_spec(&self) -> Seq<D> {
        self.differences@
    }

    /// The differences, in order.
    pub fn differences(&self) -> (res: &[D])
        ensures
            res@ == self.differences_spec(),
    {
        self.differences.as_slice()
    }
}

/// The verdict on one analysed test, with its description.
pub struct AnalyzeAllSingleTest<T> {
    pub difftest: Option<super::difftest::Difftest>,
    pub test_desc: T,
    pub verdict: AnalysisVerdict,
}

/// The verdict on a test, as reported to consumers of the analysis.
#[derive(Copy, Clone, PartialEq, Eq, Debug)]
pub enum AnalysisVerdict {
    Clean,
    Dirty,
}

impl From<AnalysisResult> for AnalysisVerdict {
    fn from(r: AnalysisResult) -> (res: Self) {
        match r {
            AnalysisResult::Clean => AnalysisVerdict::Clean,
            AnalysisResult::Dirty => AnalysisVerdict::Dirty,
        }
    }
}

impl vstd::std_specs::convert::FromSpecImpl<AnalysisResult> for AnalysisVerdict {
    open spec fn obeys_from_spec() -> bool {
        true
    }

    open spec fn from_spec(r: AnalysisResult) -> AnalysisVerdict {
        match r {
            AnalysisResult::Clean => AnalysisVerdict::Clean,
            AnalysisResult::Dirty => AnalysisVerdict::Dirty,
        }
    }
}

pub open spec fn strs(v: Seq<String>) -> Seq<Seq<char>> {
    v.map_values(|s: String| s@)
}

/// The path of a difference, and whether the first index alone touched it.
pub open spec fn difference_view(d: TouchSameFilesDifference) -> (bool, Seq<char>) {
    match d {
        TouchSameFilesDifference::TouchedByFirstOnly(p) => (true, p@),
        TouchSameFilesDifference::TouchedBySecondOnly(p) => (false, p@),
    }
}

pub open spec fn differences_view(ds: Seq<TouchSameFilesDifference>) -> Seq<(bool, Seq<char>)> {
    ds.map_values(|d: TouchSameFilesDifference| difference_view(d))
}

/// `a` and `b` name the same path: neither sorts before the other. `Path`
/// compares component by component, so `a/b/` and `a/b` are one path.
pub open spec fn path_same(a: Seq<char>, b: Seq<char>) -> bool {
    !path_less(a, b) && !path_less(b, a)
}

/// Some item of `s` names the same path as `f`.
pub open spec fn has_same(s: Seq<Seq<char>>, f: Seq<char>) -> bool {
    exists|k: int| 0 <= k < s.len() && path_same(#[trigger] s[k], f)
}

/// `f` is an item of `s` that no earlier item of `s` names the same path
/// as: the one of its path that a set of paths keeps.
pub open spec fn first_of_path(s: Seq<Seq<char>>, f: Seq<char>) -> bool {
    exists|k: int|
        #![trigger s[k]]
        0 <= k < s.len() && s[k] == f && forall|j: int| 0 <= j < k ==> !path_same(#[trigger] s[j], f)
}

/// `ds` lists, with side `first`, for each path that `from` names and
/// `other` does not, the first item of `from` naming it, once, in path
/// order, and nothing else.
pub open spec fn lists_exactly(
    ds: Seq<(bool, Seq<char>)>,
    first: bool,
    from: Seq<Seq<char>>,
    other: Seq<Seq<char>>,
) -> bool {
    &&& forall|i: int|
        0 <= i < ds.len() ==> (#[trigger] ds[i]).0 == first && first_of_path(from, ds[i].1)
            && !has_same(other, ds[i].1)
    &&& forall|f: Seq<char>|
        from.contains(f) && !has_same(other, f) ==> exists|i: int|
            0 <= i < ds.len() && ((#[trigger] ds[i]).1 == f || path_same(ds[i].1, f))
    &&& forall|i: int, j: int| 0 <= i < j < ds.len() ==> !path_same(#[trigger] ds[i].1, #[trigger] ds[j].1)
    &&& forall|i: int, j: int| 0 <= i < j < ds.len() ==> !path_less(#[trigger] ds[j].1, #[trigger] ds[i].1)
}

/// `ds` lists first the paths that only `a` names, then those that only
/// `b` names.
pub open spec fn splits_differences(ds: Seq<TouchSameFilesDifference>, a: Seq<Seq<char>>, b: Seq<Seq<char>>) -> bool {
    exists|k: int|
        #![trigger ds.take(k)]
        0 <= k <= ds.len() && lists_exactly(differences_view(ds.take(k)), true, a, b) && lists_exactly(
            differences_view(ds.skip(k)),
            false,
            b,
            a,
        )
}

/// `r` and `f` sort alike against every path, and name the same path.
spec fn alike(r: Seq<char>, f: Seq<char>) -> bool {
    &&& !path_less(r, f)
    &&& !path_less(f, r)
    &&& forall|c: Seq<char>| #![trigger path_less(c, r)] #![trigger path_less(c, f)] path_less(c, r) <==> path_less(c, f)
    &&& forall|c: Seq<char>| #![trigger path_less(r, c)] #![trigger path_less(f, c)] path_less(r, c) <==> path_less(f, c)
}

/// `r` stands for `f`: it is `f`, or sorts alike.
spec fn represents(r: Seq<char>, f: Seq<char>) -> bool {
    r == f || alike(r, f)
}

/// `o` holds one item of `s` per path that `s` names, the first naming it,
/// in path order.
spec fn reps_of(o: Seq<Seq<char>>, s: Seq<Seq<char>>) -> bool {
    &&& path_sorted(o)
    &&& forall|i: int, j: int| 0 <= i < j < o.len() ==> !path_same(#[trigger] o[i], #[trigger] o[j])
    &&& forall|i: int| 0 <= i < o.len() ==> first_of_path(s, #[trigger] o[i])
    &&& forall|f: Seq<char>| s.contains(f) ==> exists|i: int| 0 <= i < o.len() && represents(#[trigger] o[i], f)
}

proof fn lemma_same_transfer(r: Seq<char>, f: Seq<char>, g: Seq<char>)
    requires
        represents(r, f),
    ensures
        path_same(g, r) <==> path_same(g, f),
{
    if r != f {
        assert(path_less(g, r) <==> path_less(g, f));
        assert(path_less(r, g) <==> path_less(f, g));
    }
}

proof fn lemma_has_same_transfer(s: Seq<Seq<char>>, r: Seq<char>, f: Seq<char>)
    requires
        represents(r, f),
    ensures
        has_same(s, r) <==> has_same(s, f),
{
    if has_same(s, r) {
        let k = choose|k: int| 0 <= k < s.len() && path_same(#[trigger] s[k], r);
        lemma_same_transfer(r, f, s[k]);
    }
    if has_same(s, f) {
        let k = choose|k: int| 0 <= k < s.len() && path_same(#[trigger] s[k], f);
        lemma_same_transfer(r, f, s[k]);
    }
}

/// Against the representatives `o` of `s`, a path has a same one exactly
/// where it has one in `s`.
proof fn lemma_has_same_reps(o: Seq<Seq<char>>, s: Seq<Seq<char>>, f: Seq<char>)
    requires
        reps_of(o, s),
    ensures
        has_same(o, f) <==> has_same(s, f),
{
    if has_same(o, f) {
        let i = choose|i: int| 0 <= i < o.len() && path_same(#[trigger] o[i], f);
        assert(first_of_path(s, o[i]));
        let k = choose|k: int| #![trigger s[k]] 0 <= k < s.len() && s[k] == o[i] && forall|j: int| 0 <= j < k ==> !path_same(#[trigger] s[j], o[i]);
        assert(path_same(s[k], f));
    }
    if has_same(s, f) {
        let k = choose|k: int| 0 <= k < s.len() && path_same(#[trigger] s[k], f);
        assert(s.contains(s[k]));
        let i = choose|i: int| 0 <= i < o.len() && represents(#[trigger] o[i], s[k]);
        lemma_same_transfer(o[i], s[k], f);
        assert(path_same(o[i], f));
    }
}

/// The position of an item of `v` naming the same path as `f`, which then
/// sorts alike with `f`; `None` where there is none.
fn find_same_path(v: &Vec<String>, f: &str) -> (res: Option<usize>)
    ensures
        match res {
            Some(k) => k < v@.len() && alike(strs(v@)[k as int], f@),
            None => !has_same(strs(v@), f@),
        },
{
    let mut i: usize = 0;
    while i < v.len()
        invariant
            i <= v@.len(),
            forall|k: int| 0 <= k < i ==> !path_same(#[trigger] strs(v@)[k], f@),
        decreases v@.len() - i,
    {
        let a = less(v[i].as_str(), f);
        let b = less(f, v[i].as_str());
        if !a && !b {
            proof {
                let r = strs(v@)[i as int];
                assert(r == v@[i as int]@);
                assert forall|c: Seq<char>| #![trigger path_less(c, r)] #![trigger path_less(c, f@)] path_less(c, r) <==> path_less(c, f@) by {}
                assert forall|c: Seq<char>| #![trigger path_less(r, c)] #![trigger path_less(f@, c)] path_less(r, c) <==> path_less(f@, c) by {}
            }
            return Some(i);
        }
        proof {
            assert(strs(v@)[i as int] == v@[i as int]@);
        }
        i = i + 1;
    }
    None
}

/// One item of `v` per path it names, the first naming it, in path order.
fn sorted_distinct(v: &Vec<String>) -> (res: Vec<String>)
    ensures
        reps_of(strs(res@), strs(v@)),
{
    let ghost s = strs(v@);
    let mut out: Vec<String> = Vec::new();
    let mut i: usize = 0;
    while i < v.len()
        invariant
            i <= v@.len(),
            s == strs(v@),
            path_sorted(strs(out@)),
            forall|a: int, b: int| 0 <= a < b < strs(out@).len() ==> !path_same(#[trigger] strs(out@)[a], #[trigger] strs(out@)[b]),
            forall|a: int| 0 <= a < strs(out@).len() ==> first_of_path(s, #[trigger] strs(out@)[a]),
            forall|k: int| #![trigger s[k]] 0 <= k < i ==> exists|a: int| 0 <= a < strs(out@).len() && represents(#[trigger] strs(out@)[a], s[k]),
        decreases v@.len() - i,
    {
        let ghost o = strs(out@);
        let ghost x = s[i as int];
        proof {
            assert(x == v@[i as int]@);
        }
        match find_same_path(&out, v[i].as_str()) {
            Some(m) => {
                proof {
                    assert(represents(o[m as int], x));
                }
            },
            None => {
                let k = super::analysis::insert_sorted(&mut out, v[i].clone());
                proof {
                    let o2 = strs(out@);
                    assert(o2 =~= o.insert(k as int, x));
                    assert forall|a: int, b: int| 0 <= a < b < o2.len() implies !path_same(#[trigger] o2[a], #[trigger] o2[b]) by {
                        if a < k && b < k {
                            assert(o2[a] == o[a] && o2[b] == o[b]);
                        } else if a < k && b == k {
                            assert(o2[a] == o[a] && o2[b] == x);
                        } else if a < k {
                            assert(o2[a] == o[a] && o2[b] == o[b - 1]);
                        } else if a == k {
                            assert(o2[a] == x && o2[b] == o[b - 1]);
                        } else {
                            assert(o2[a] == o[a - 1] && o2[b] == o[b - 1]);
                        }
                    }
                    assert(first_of_path(s, x)) by {
                        assert forall|j: int| 0 <= j < i implies !path_same(#[trigger] s[j], x) by {
                            let a = choose|a: int| 0 <= a < o.len() && represents(#[trigger] o[a], s[j]);
                            lemma_same_transfer(o[a], s[j], x);
                        }
                        assert(s[i as int] == x);
                    }
                    assert forall|a: int| 0 <= a < o2.len() implies first_of_path(s, #[trigger] o2[a]) by {
                        if a < k {
                            assert(o2[a] == o[a]);
                        } else if a > k {
                            assert(o2[a] == o[a - 1]);
                        }
                    }
                    assert forall|j: int| #![trigger s[j]] 0 <= j < i + 1 implies exists|a: int| 0 <= a < o2.len() && represents(#[trigger] o2[a], s[j]) by {
                        if j == i {
                            assert(o2[k as int] == x);
                            assert(represents(o2[k as int], s[j]));
                        } else {
                            let a = choose|a: int| 0 <= a < o.len() && represents(#[trigger] o[a], s[j]);
                            if a < k {
                                assert(o2[a] == o[a]);
                                assert(represents(o2[a], s[j]));
                            } else {
                                assert(o2[a + 1] == o[a]);
                                assert(represents(o2[a + 1], s[j]));
                            }
                        }
                    }
                }
            },
        }
        i = i + 1;
    }
    proof {
        let o = strs(out@);
        assert forall|f: Seq<char>| s.contains(f) implies exists|a: int| 0 <= a < o.len() && represents(#[trigger] o[a], f) by {
            let k = choose|k: int| 0 <= k < s.len() && s[k] == f;
        }
    }
    out
}

/// `x` is one of the first `i` items of `fs`.
#[verifier::opaque]
spec fn among(fs: Seq<Seq<char>>, i: int, x: Seq<char>) -> bool {
    exists|k: int| 0 <= k < i && fs[k] == x
}

/// `ds` lists, with side `first`, each of the first `i` items of `fs`
/// that `os` names no same path as, in order.
#[verifier::opaque]
spec fn part_so_far(ds: Seq<(bool, Seq<char>)>, first: bool, fs: Seq<Seq<char>>, os: Seq<Seq<char>>, i: int) -> bool {
    &&& forall|m: int|
        0 <= m < ds.len() ==> (#[trigger] ds[m]).0 == first && among(fs, i, ds[m].1) && !has_same(os, ds[m].1)
    &&& forall|k: int|
        #![trigger fs[k]]
        0 <= k < i && !has_same(os, fs[k]) ==> exists|m: int| 0 <= m < ds.len() && (#[trigger] ds[m]).1 == fs[k]
    &&& forall|a: int, b: int| 0 <= a < b < ds.len() ==> !path_same(#[trigger] ds[a].1, #[trigger] ds[b].1)
    &&& forall|a: int, b: int| 0 <= a < b < ds.len() ==> !path_less(#[trigger] ds[b].1, #[trigger] ds[a].1)
}

proof fn lemma_part_start(first: bool, fs: Seq<Seq<char>>, os: Seq<Seq<char>>)
    ensures
        part_so_far(Seq::empty(), first, fs, os, 0),
{
    reveal(part_so_far);
}

proof fn lemma_part_skip(ds: Seq<(bool, Seq<char>)>, first: bool, fs: Seq<Seq<char>>, os: Seq<Seq<char>>, i: int)
    requires
        0 <= i < fs.len(),
        part_so_far(ds, first, fs, os, i),
        has_same(os, fs[i]),
    ensures
        part_so_far(ds, first, fs, os, i + 1),
{
    reveal(part_so_far);
    assert forall|m: int| 0 <= m < ds.len() implies (#[trigger] ds[m]).0 == first && among(fs, i + 1, ds[m].1)
        && !has_same(os, ds[m].1) by {
        reveal(among);
        let k = choose|k: int| 0 <= k < i && fs[k] == ds[m].1;
    }
}

proof fn lemma_part_push(ds: Seq<(bool, Seq<char>)>, first: bool, fs: Seq<Seq<char>>, os: Seq<Seq<char>>, i: int)
    requires
        0 <= i < fs.len(),
        part_so_far(ds, first, fs, os, i),
        !has_same(os, fs[i]),
        path_sorted(fs),
        forall|a: int, b: int| 0 <= a < b < fs.len() ==> !path_same(#[trigger] fs[a], #[trigger] fs[b]),
    ensures
        part_so_far(ds.push((first, fs[i])), first, fs, os, i + 1),
{
    reveal(part_so_far);
    let x = fs[i];
    let ds1 = ds.push((first, x));
    assert forall|m2: int| 0 <= m2 < ds1.len() implies (#[trigger] ds1[m2]).0 == first && among(fs, i + 1, ds1[m2].1)
        && !has_same(os, ds1[m2].1) by {
        reveal(among);
        if m2 < ds.len() {
            assert(ds1[m2] == ds[m2]);
            let k = choose|k: int| 0 <= k < i && fs[k] == ds[m2].1;
        } else {
            assert(fs[i] == ds1[m2].1);
        }
    }
    assert forall|k: int| #![trigger fs[k]] 0 <= k < i + 1 && !has_same(os, fs[k]) implies exists|m2: int| 0 <= m2 < ds1.len() && (#[trigger] ds1[m2]).1 == fs[k] by {
        if k == i {
            assert(ds1[ds.len() as int].1 == fs[k]);
        } else {
            let m2 = choose|m2: int| 0 <= m2 < ds.len() && (#[trigger] ds[m2]).1 == fs[k];
            assert(ds1[m2] == ds[m2]);
        }
    }
    assert forall|a: int, b: int| 0 <= a < b < ds1.len() implies !path_same(#[trigger] ds1[a].1, #[trigger] ds1[b].1) by {
        if b == ds.len() {
            assert(ds1[a] == ds[a]);
            reveal(among);
            let k = choose|k: int| 0 <= k < i && fs[k] == ds[a].1;
            assert(!path_same(fs[k], fs[i]));
        } else {
            assert(ds1[a] == ds[a] && ds1[b] == ds[b]);
        }
    }
    assert forall|a: int, b: int| 0 <= a < b < ds1.len() implies !path_less(#[trigger] ds1[b].1, #[trigger] ds1[a].1) by {
        if b == ds.len() {
            assert(ds1[a] == ds[a]);
            reveal(among);
            let k = choose|k: int| 0 <= k < i && fs[k] == ds[a].1;
            assert(!path_less(fs[i], fs[k]));
        } else {
            assert(ds1[a] == ds[a] && ds1[b] == ds[b]);
        }
    }
}

proof fn lemma_part_done(ds: Seq<(bool, Seq<char>)>, first: bool, fs: Seq<Seq<char>>, os: Seq<Seq<char>>)
    requires
        part_so_far(ds, first, fs, os, fs.len() as int),
    ensures
        forall|i: int| 0 <= i < ds.len() ==> (#[trigger] ds[i]).0 == first && fs.contains(ds[i].1) && !has_same(os, ds[i].1),
        forall|r: Seq<char>| fs.contains(r) && !has_same(os, r) ==> exists|i: int| 0 <= i < ds.len() && (#[trigger] ds[i]).1 == r,
        forall|i: int, j: int| 0 <= i < j < ds.len() ==> !path_same(#[trigger] ds[i].1, #[trigger] ds[j].1),
        forall|i: int, j: int| 0 <= i < j < ds.len() ==> !path_less(#[trigger] ds[j].1, #[trigger] ds[i].1),
{
    reveal(part_so_far);
    assert forall|m: int| 0 <= m < ds.len() implies fs.contains((#[trigger] ds[m]).1) by {
        reveal(among);
        assert(among(fs, fs.len() as int, ds[m].1));
        let k = choose|k: int| 0 <= k < fs.len() && fs[k] == ds[m].1;
    }
    assert forall|r: Seq<char>| fs.contains(r) && !has_same(os, r) implies exists|m: int| 0 <= m < ds.len() && (#[trigger] ds[m]).1 == r by {
        let k = choose|k: int| 0 <= k < fs.len() && fs[k] == r;
    }
}

/// Appends a difference, of side `first`, for each path of `from` (one
/// item per path, in path order) that `other` does not name.
fn push_missing(out: &mut Vec<TouchSameFilesDifference>, from: &Vec<String>, other: &Vec<String>, first: bool)
    requires
        path_sorted(strs(from@)),
        forall|a: int, b: int| 0 <= a < b < strs(from@).len() ==> !path_same(#[trigger] strs(from@)[a], #[trigger] strs(from@)[b]),
    ensures
        final(out)@.len() >= old(out)@.len(),
        final(out)@.take(old(out)@.len() as int) == old(out)@,
        ({
            let ds = differences_view(final(out)@.skip(old(out)@.len() as int));
            &&& forall|i: int|
                0 <= i < ds.len() ==> (#[trigger] ds[i]).0 == first && strs(from@).contains(ds[i].1)
                    && !has_same(strs(other@), ds[i].1)
            &&& forall|r: Seq<char>|
                strs(from@).contains(r) && !has_same(strs(other@), r) ==> exists|i: int|
                    0 <= i < ds.len() && (#[trigger] ds[i]).1 == r
            &&& forall|i: int, j: int| 0 <= i < j < ds.len() ==> !path_same(#[trigger] ds[i].1, #[trigger] ds[j].1)
            &&& forall|i: int, j: int| 0 <= i < j < ds.len() ==> !path_less(#[trigger] ds[j].1, #[trigger] ds[i].1)
        }),
{
    let ghost start = out@;
    let ghost fs = strs(from@);
    let ghost os = strs(other@);
    let mut i: usize = 0;
    proof {
        assert(differences_view(out@.skip(start.len() as int)) =~= Seq::<(bool, Seq<char>)>::empty());
        lemma_part_start(first, fs, os);
    }
    while i < from.len()
        invariant
            i <= from@.len(),
            fs == strs(from@),
            os == strs(other@),
            path_sorted(fs),
            forall|a: int, b: int| 0 <= a < b < fs.len() ==> !path_same(#[trigger] fs[a], #[trigger] fs[b]),
            out@.len() >= start.len(),
            out@.take(start.len() as int) == start,
            part_so_far(differences_view(out@.skip(start.len() as int)), first, fs, os, i as int),
        decreases from@.len() - i,
    {
        let ghost before = out@;
        let ghost x = fs[i as int];
        proof {
            assert(x == from@[i as int]@);
        }
        match find_same_path(other, from[i].as_str()) {
            Some(m) => {
                proof {
                    assert(path_same(os[m as int], x));
                    assert(has_same(os, x));
                    lemma_part_skip(differences_view(out@.skip(start.len() as int)), first, fs, os, i as int);
                }
            },
            None => {
                let d = if first {
                    TouchSameFilesDifference::TouchedByFirstOnly(from[i].clone())
                } else {
                    TouchSameFilesDifference::TouchedBySecondOnly(from[i].clone())
                };
                out.push(d);
                proof {
                    let ds0 = differences_view(before.skip(start.len() as int));
                    let ds1 = differences_view(out@.skip(start.len() as int));
                    assert(ds1 =~= ds0.push((first, x)));
                    assert(out@.take(start.len() as int) =~= before.take(start.len() as int));
                    lemma_part_push(ds0, first, fs, os, i as int);
                }
            },
        }
        i = i + 1;
    }
    proof {
        lemma_part_done(differences_view(out@.skip(start.len() as int)), first, fs, os);
    }
}

/// One part of the comparison, stated over the representatives, read over
/// all the files.
proof fn lemma_part_lists_exactly(
    ds: Seq<(bool, Seq<char>)>,
    first: bool,
    ra: Seq<Seq<char>>,
    rb: Seq<Seq<char>>,
    a: Seq<Seq<char>>,
    b: Seq<Seq<char>>,
)
    requires
        reps_of(ra, a),
        reps_of(rb, b),
        forall|i: int| 0 <= i < ds.len() ==> (#[trigger] ds[i]).0 == first && ra.contains(ds[i].1) && !has_same(rb, ds[i].1),
        forall|r: Seq<char>| ra.contains(r) && !has_same(rb, r) ==> exists|i: int| 0 <= i < ds.len() && (#[trigger] ds[i]).1 == r,
        forall|i: int, j: int| 0 <= i < j < ds.len() ==> !path_same(#[trigger] ds[i].1, #[trigger] ds[j].1),
        forall|i: int, j: int| 0 <= i < j < ds.len() ==> !path_less(#[trigger] ds[j].1, #[trigger] ds[i].1),
    ensures
        lists_exactly(ds, first, a, b),
{
    assert forall|i: int| 0 <= i < ds.len() implies (#[trigger] ds[i]).0 == first && first_of_path(a, ds[i].1)
        && !has_same(b, ds[i].1) by {
        let m = choose|m: int| 0 <= m < ra.len() && ra[m] == ds[i].1;
        assert(first_of_path(a, ra[m]));
        lemma_has_same_reps(rb, b, ds[i].1);
    }
    assert forall|f: Seq<char>| a.contains(f) && !has_same(b, f) implies exists|i: int|
        0 <= i < ds.len() && ((#[trigger] ds[i]).1 == f || path_same(ds[i].1, f)) by {
        let m = choose|m: int| 0 <= m < ra.len() && represents(#[trigger] ra[m], f);
        let r = ra[m];
        lemma_has_same_transfer(b, r, f);
        lemma_has_same_reps(rb, b, r);
        assert(ra.contains(r));
        let i = choose|i: int| 0 <= i < ds.len() && (#[trigger] ds[i]).1 == r;
        if r != f {
            assert(path_same(ds[i].1, f));
        }
    }
}

/// Where every path of `a` has a same one in `b`, `ra` and `rb` being their
/// representatives: no path of `ra` lacks a same one in `rb`.
proof fn lemma_all_have_same(ra: Seq<Seq<char>>, rb: Seq<Seq<char>>, a: Seq<Seq<char>>, b: Seq<Seq<char>>)
    requires
        reps_of(ra, a),
        reps_of(rb, b),
        forall|r: Seq<char>| ra.contains(r) ==> has_same(rb, r),
    ensures
        forall|f: Seq<char>| a.contains(f) ==> has_same(b, f),
{
    assert forall|f: Seq<char>| a.contains(f) implies has_same(b, f) by {
        let m = choose|m: int| 0 <= m < ra.len() && represents(#[trigger] ra[m], f);
        assert(ra.contains(ra[m]));
        lemma_has_same_reps(rb, b, ra[m]);
        lemma_has_same_transfer(b, ra[m], f);
    }
}

/// Compares the files two indexes touched, by path (`Path` compares
/// component by component): `Ok` where each names the paths the other
/// does, else the paths that only the first names, then those that only
/// the second names, each part in path order, each path given by the first
/// file naming it.
pub fn compare_indexes_touch_same_files(index_a: &TestIndex, index_b: &TestIndex) -> (res: Result<
    (),
    IndexCompareDifferences<TouchSameFilesDifference>,
>)
    ensures
        res is Ok <==> (forall|f: Seq<char>| strs(index_a.files@).contains(f) ==> has_same(strs(index_b.files@), f))
            && (forall|f: Seq<char>| strs(index_b.files@).contains(f) ==> has_same(strs(index_a.files@), f)),
        res matches Err(d) ==> splits_differences(d.differences_spec(), strs(index_a.files@), strs(index_b.files@)),
{
    let a_files = sorted_distinct(&index_a.files);
    let b_files = sorted_distinct(&index_b.files);
    let ghost a = strs(index_a.files@);
    let ghost b = strs(index_b.files@);
    let ghost ra = strs(a_files@);
    let ghost rb = strs(b_files@);
    let mut differences: Vec<TouchSameFilesDifference> = Vec::new();
    push_missing(&mut differences, &a_files, &b_files, true);
    let ghost first_part = differences@;
    proof {
        assert(differences@.skip(0) =~= differences@);
    }
    push_missing(&mut differences, &b_files, &a_files, false);
    let ghost k = first_part.len() as int;
    proof {
        assert(differences@.take(k) == first_part);
        lemma_part_lists_exactly(differences_view(first_part), true, ra, rb, a, b);
        lemma_part_lists_exactly(differences_view(differences@.skip(k)), false, rb, ra, b, a);
    }
    if differences.len() == 0 {
        proof {
            let ds1 = differences_view(first_part);
            let ds2 = differences_view(differences@.skip(k));
            assert(ds1.len() == 0 && ds2.len() == 0);
            assert forall|r: Seq<char>| ra.contains(r) implies has_same(rb, r) by {
                if !has_same(rb, r) {
                    let i = choose|i: int| 0 <= i < ds1.len() && (#[trigger] ds1[i]).1 == r;
                }
            }
            assert forall|r: Seq<char>| rb.contains(r) implies has_same(ra, r) by {
                if !has_same(ra, r) {
                    let i = choose|i: int| 0 <= i < ds2.len() && (#[trigger] ds2[i]).1 == r;
                }
            }
            lemma_all_have_same(ra, rb, a, b);
            lemma_all_have_same(rb, ra, b, a);
        }
        Ok(())
    } else {
        proof {
            let ds1 = differences_view(first_part);
            let ds2 = differences_view(differences@.skip(k));
            if k > 0 {
                let x = ds1[0].1;
                assert(first_of_path(a, x));
                let j = choose|j: int| #![trigger a[j]] 0 <= j < a.len() && a[j] == x && forall|j2: int| 0 <= j2 < j ==> !path_same(#[trigger] a[j2], x);
                assert(a.contains(x));
                assert(!has_same(b, x));
            } else {
                assert(ds2.len() > 0);
                let x = ds2[0].1;
                assert(first_of_path(b, x));
                let j = choose|j: int| #![trigger b[j]] 0 <= j < b.len() && b[j] == x && forall|j2: int| 0 <= j2 < j ==> !path_same(#[trigger] b[j2], x);
                assert(b.contains(x));
                assert(!has_same(a, x));
            }
        }
        let d = IndexCompareDifferences { differences };
        proof {
            assert(d.differences_spec().take(k) == first_part);
            assert(0 <= k <= d.differences_spec().len());
            assert(splits_differences(d.differences_spec(), a, b));
        }
        Err(d)
    }
}

} // verus!
