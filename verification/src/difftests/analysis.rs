//! Deciding whether a test is dirty: the files and regions it touched,
//! held against what changed.

use vstd::prelude::*;

use super::coverage::{
    source_regions, source_wf, AnalysisContextInternal, AnalysisRegions, CoverageData, RegionView,
    TestIndex, analysis_region_view,
};
use crate::paths::{ends_with, less, path_ends_with, path_less, path_starts_with, starts_with};
use crate::text::{push_str, str_eq};

verus! {

/// The result of the analysis of a test.
#[derive(Debug, Clone, Copy, PartialEq, Eq)]
pub enum AnalysisResult {
    /// No source file the test used was modified.
    Clean,
    /// Some source file the test used was modified: the test should run again.
    Dirty,
}

impl AnalysisResult {
    /// The result as the command line prints it.
    pub fn display_name(&self) -> (res: &'static str)
        ensures
            res@ == match *self {
                AnalysisResult::Clean => "clean"@,
                AnalysisResult::Dirty => "dirty"@,
            },
    {
        match self {
            AnalysisResult::Clean => "clean",
            AnalysisResult::Dirty => "dirty",
        }
    }
}

/// An analysis of one test, over its coverage data or its index.
pub struct AnalysisContext {
    internal: AnalysisContextInternal,
    result: AnalysisResult,
}

impl AnalysisContext {
    pub closed spec fn internal_spec(&self) -> AnalysisContextInternal {
        self.internal
    }

    pub closed spec fn result_spec(&self) -> AnalysisResult {
        self.result
    }

    /// An analysis over a test index, clean until it finds otherwise.
    pub fn from_index(index: TestIndex) -> (res: Self)
        ensures
            res.internal_spec() == AnalysisContextInternal::IndexData(index),
            res.result_spec() == AnalysisResult::Clean,
    {
        AnalysisContext { internal: AnalysisContextInternal::IndexData(index), result: AnalysisResult::Clean }
    }

    /// An analysis over the coverage data of a difftest, clean until it
    /// finds otherwise.
    pub fn new(profdata: CoverageData) -> (res: Self)
        ensures
            res.internal_spec() == AnalysisContextInternal::CoverageData(profdata),
            res.result_spec() == AnalysisResult::Clean,
    {
        AnalysisContext {
            internal: AnalysisContextInternal::CoverageData(profdata),
            result: AnalysisResult::Clean,
        }
    }

    /// The coverage data, where the analysis has it.
    pub fn get_profdata(&self) -> (res: Option<&CoverageData>)
        ensures
            match self.internal_spec() {
                AnalysisContextInternal::CoverageData(d) => res == Some(&d),
                AnalysisContextInternal::IndexData(_) => res is None,
            },
    {
        match &self.internal {
            AnalysisContextInternal::CoverageData(d) => Some(d),
            AnalysisContextInternal::IndexData(_) => None,
        }
    }

    /// The test index, where the analysis has one.
    pub fn get_index(&self) -> (res: Option<&TestIndex>)
        ensures
            match self.internal_spec() {
                AnalysisContextInternal::CoverageData(_) => res is None,
                AnalysisContextInternal::IndexData(ix) => res == Some(&ix),
            },
    {
        match &self.internal {
            AnalysisContextInternal::CoverageData(_) => None,
            AnalysisContextInternal::IndexData(ix) => Some(ix),
        }
    }

    /// A walk over the regions of the test.
    pub fn regions(&self) -> (res: AnalysisRegions<'_>)
        requires
            source_wf(self.internal_spec()),
        ensures
            res.wf(),
            res.source_spec() == self.internal_spec(),
            res.position() == 0,
    {
        self.internal.regions()
    }

    /// Records the outcome of the analysis.
    pub fn set_result(&mut self, result: AnalysisResult)
        ensures
            final(self).internal_spec() == old(self).internal_spec(),
            final(self).result_spec() == result,
    {
        self.result = result;
    }

    /// The outcome of the analysis.
    pub fn finish_analysis(self) -> (res: AnalysisResult)
        ensures
            res == self.result_spec(),
    {
        self.result
    }
}

/// Whether `f` lies under the registry of the cargo home `cargo_home`.
pub open spec fn is_registry_file(f: Seq<char>, cargo_home: Seq<char>) -> bool {
    path_starts_with(f, cargo_home + "/registry"@)
}

/// Whether the file `f` lies under the cargo registry of the cargo home
/// `cargo_home`.
pub fn file_is_from_cargo_registry(f: &str, cargo_home: &str) -> (res: bool)
    ensures
        res == is_registry_file(f@, cargo_home@),
{
    let mut prefix = cargo_home.to_owned();
    push_str(&mut prefix, "/registry");
    starts_with(f, prefix.as_str())
}

/// `r` ran, and its file counts as touched: any file where registry files
/// are included, else only those outside the registry.
pub open spec fn touches(r: RegionView, include_registry_files: bool, cargo_home: Seq<char>) -> bool {
    r.execution_count > 0 && (include_registry_files || !is_registry_file(r.file, cargo_home))
}

/// `f` is the file of a region among `rs` that touched it.
pub open spec fn touched_by(
    rs: Seq<RegionView>,
    f: Seq<char>,
    include_registry_files: bool,
    cargo_home: Seq<char>,
) -> bool {
    exists|i: int| 0 <= i < rs.len() && touches(#[trigger] rs[i], include_registry_files, cargo_home) && rs[i].file == f
}

pub open spec fn no_repeats(v: Seq<Seq<char>>) -> bool {
    forall|i: int, j: int| 0 <= i < j < v.len() ==> v[i] != v[j]
}

/// Whether `v` holds `f`.
fn holds_str(v: &Vec<String>, f: &str) -> (res: bool)
    ensures
        res == v@.map_values(|s: String| s@).contains(f@),
{
    let ghost vv = v@.map_values(|s: String| s@);
    let mut i: usize = 0;
    while i < v.len()
        invariant
            i <= v@.len(),
            vv == v@.map_values(|s: String| s@),
            forall|k: int| 0 <= k < i ==> vv[k] != f@,
        decreases v@.len() - i,
    {
        if str_eq(v[i].as_str(), f) {
            proof {
                assert(vv[i as int] == f@);
            }
            return true;
        }
        i = i + 1;
    }
    false
}

/// No path of `s` sorts before one ahead of it: `s` is in path order.
pub open spec fn path_sorted(s: Seq<Seq<char>>) -> bool {
    forall|i: int, j: int| #![trigger s[i], s[j]] 0 <= i < j < s.len() ==> !path_less(s[j], s[i])
}

/// Inserts `f` into `v` before the first entry it sorts before, and gives
/// the position; a vector in path order stays so.
pub(crate) fn insert_sorted(v: &mut Vec<String>, f: String) -> (k: usize)
    ensures
        k <= old(v)@.len(),
        final(v)@.map_values(|s: String| s@) == old(v)@.map_values(|s: String| s@).insert(
            k as int,
            f@,
        ),
        path_sorted(old(v)@.map_values(|s: String| s@)) ==> path_sorted(
            final(v)@.map_values(|s: String| s@),
        ),
{
    let mut k: usize = 0;
    let mut found = false;
    while k < v.len() && !found
        invariant
            k <= v@.len(),
            forall|j: int| 0 <= j < k && !(found && j == k - 1) ==> !path_less(f@, #[trigger] v@[j]@),
            found ==> 0 < k && path_less(f@, v@[k - 1]@) && !path_less(v@[k - 1]@, f@),
            found ==> forall|c: Seq<char>| #[trigger] path_less(c, f@) ==> path_less(c, v@[k - 1]@),
        decreases v@.len() - k + if found { 0int } else { 1int },
    {
        if less(f.as_str(), v[k].as_str()) {
            found = true;
        }
        k = k + 1;
    }
    if found {
        k = k - 1;
    }
    proof {
        assert forall|j: int| 0 <= j < k implies !path_less(f@, #[trigger] v@[j]@) by {}
        assert(k < v@.len() ==> path_less(f@, v@[k as int]@) && !path_less(v@[k as int]@, f@));
    }
    let ghost before = v@.map_values(|s: String| s@);
    let ghost fv = f@;
    let ghost old_v = v@;
    v.insert(k, f);
    proof {
        let after = v@.map_values(|s: String| s@);
        assert(after =~= before.insert(k as int, fv));
        if path_sorted(before) {
            assert forall|i: int, j: int| 0 <= i < j < after.len() implies !path_less(
                #[trigger] after[j],
                #[trigger] after[i],
            ) by {
                if j < k {
                    assert(after[i] == before[i] && after[j] == before[j]);
                } else if j == k {
                    assert(after[j] == fv && after[i] == old_v[i]@);
                    assert(!path_less(fv, old_v[i]@));
                } else if i == k {
                    assert(after[i] == fv && after[j] == before[j - 1]);
                    if j - 1 == k {
                        assert(!path_less(old_v[k as int]@, fv));
                    } else {
                        assert(!path_less(before[j - 1], before[k as int]));
                        if path_less(before[j - 1], fv) {
                            assert(path_less(before[j - 1], old_v[k as int]@));
                        }
                    }
                } else if i < k {
                    assert(after[i] == before[i] && after[j] == before[j - 1]);
                } else {
                    assert(after[i] == before[i - 1] && after[j] == before[j - 1]);
                }
            }
        }
    }
    k
}

/// Inserting a new item keeps a sequence free of repeats, and adds just it.
pub(crate) proof fn lemma_insert_fresh(s: Seq<Seq<char>>, k: int, x: Seq<char>)
    requires
        0 <= k <= s.len(),
        no_repeats(s),
        !s.contains(x),
    ensures
        no_repeats(s.insert(k, x)),
        forall|f: Seq<char>| s.insert(k, x).contains(f) <==> s.contains(f) || f == x,
{
    let t = s.insert(k, x);
    assert forall|i: int, j: int| 0 <= i < j < t.len() implies t[i] != t[j] by {
        if i < k && j < k {
        } else if i < k && j == k {
            assert(s[i] != x);
        } else if i < k {
            assert(t[j] == s[j - 1]);
        } else if i == k {
            assert(t[j] == s[j - 1]);
            assert(s[j - 1] != x);
        } else {
            assert(t[i] == s[i - 1] && t[j] == s[j - 1]);
        }
    }
    assert forall|f: Seq<char>| t.contains(f) <==> s.contains(f) || f == x by {
        if t.contains(f) {
            let i = choose|i: int| 0 <= i < t.len() && t[i] == f;
            if i < k {
                assert(s[i] == f);
            } else if i > k {
                assert(s[i - 1] == f);
            }
        }
        if s.contains(f) {
            let i = choose|i: int| 0 <= i < s.len() && s[i] == f;
            if i < k {
                assert(t[i] == f);
            } else {
                assert(t[i + 1] == f);
            }
        }
        if f == x {
            assert(t[k] == x);
        }
    }
}

/// The files that the test touched: those of the regions that ran, without
/// the registry's unless `include_registry_files`, each once, in path
/// order (no file sorts before the one ahead of it).
pub fn test_touched_files(cx: &AnalysisContext, include_registry_files: bool, cargo_home: &str) -> (res:
    Vec<String>)
    requires
        source_wf(cx.internal_spec()),
    ensures
        no_repeats(res@.map_values(|s: String| s@)),
        path_sorted(res@.map_values(|s: String| s@)),
        forall|f: Seq<char>|
            res@.map_values(|s: String| s@).contains(f) <==> touched_by(
                source_regions(cx.internal_spec()),
                f,
                include_registry_files,
                cargo_home@,
            ),
{
    let ghost rs = source_regions(cx.internal_spec());
    let mut files: Vec<String> = Vec::new();
    let mut it = cx.regions();
    loop
        invariant
            it.wf(),
            it.source_spec() == cx.internal_spec(),
            rs == source_regions(cx.internal_spec()),
            0 <= it.position() <= rs.len(),
            no_repeats(files@.map_values(|s: String| s@)),
            path_sorted(files@.map_values(|s: String| s@)),
            forall|f: Seq<char>|
                files@.map_values(|s: String| s@).contains(f) <==> touched_by(
                    rs.take(it.position()),
                    f,
                    include_registry_files,
                    cargo_home@,
                ),
        ensures
            no_repeats(files@.map_values(|s: String| s@)),
            path_sorted(files@.map_values(|s: String| s@)),
            forall|f: Seq<char>|
                files@.map_values(|s: String| s@).contains(f) <==> touched_by(
                    rs,
                    f,
                    include_registry_files,
                    cargo_home@,
                ),
        decreases rs.len() - it.position(),
    {
        let ghost p = it.position();
        let ghost before = files@.map_values(|s: String| s@);
        match it.next() {
            None => {
                proof {
                    assert(rs.take(p) =~= rs);
                }
                break;
            },
            Some(r) => {
                let ghost rv = analysis_region_view(r);
                proof {
                    assert(rv == rs[p]);
                    assert(rs.take(p + 1).drop_last() =~= rs.take(p));
                }
                if r.execution_count > 0 && (include_registry_files || !file_is_from_cargo_registry(
                    r.file_ref,
                    cargo_home,
                )) && !holds_str(&files, r.file_ref) {
                    let k = insert_sorted(&mut files, r.file_ref.to_owned());
                    proof {
                        let after = files@.map_values(|s: String| s@);
                        lemma_insert_fresh(before, k as int, rv.file);
                        assert forall|f: Seq<char>| after.contains(f) <==> touched_by(
                            rs.take(p + 1),
                            f,
                            include_registry_files,
                            cargo_home@,
                        ) by {
                            lemma_touched_by_push(rs.take(p), rv, f, include_registry_files, cargo_home@);
                            assert(rs.take(p + 1) =~= rs.take(p).push(rv));
                        }
                    }
                } else {
                    proof {
                        assert forall|f: Seq<char>| before.contains(f) <==> touched_by(
                            rs.take(p + 1),
                            f,
                            include_registry_files,
                            cargo_home@,
                        ) by {
                            lemma_touched_by_push(rs.take(p), rv, f, include_registry_files, cargo_home@);
                            assert(rs.take(p + 1) =~= rs.take(p).push(rv));
                        }
                    }
                }
            },
        }
    }
    files
}

proof fn lemma_touched_by_push(
    rs: Seq<RegionView>,
    r: RegionView,
    f: Seq<char>,
    inc: bool,
    home: Seq<char>,
)
    ensures
        touched_by(rs.push(r), f, inc, home) <==> touched_by(rs, f, inc, home) || (touches(
            r,
            inc,
            home,
        ) && r.file == f),
{
    if touched_by(rs, f, inc, home) {
        let i = choose|i: int| 0 <= i < rs.len() && touches(#[trigger] rs[i], inc, home) && rs[i].file == f;
        assert(rs.push(r)[i] == rs[i]);
    }
    if touches(r, inc, home) && r.file == f {
        assert(rs.push(r)[rs.len() as int] == r);
    }
    if touched_by(rs.push(r), f, inc, home) {
        let i = choose|i: int| 0 <= i < rs.push(r).len() && touches(#[trigger] rs.push(r)[i], inc, home) && rs.push(r)[i].file == f;
        if i < rs.len() {
            assert(rs.push(r)[i] == rs[i]);
        }
    }
}

/// How a git diff is held against what the test touched.
#[derive(Debug, Clone, Copy, PartialEq, Eq)]
pub enum GitDiffStrategy {
    /// Any changed file that the test touched makes it dirty.
    FilesOnly,
    /// Any changed hunk that meets a region the test ran makes it dirty.
    Hunks,
}

impl Default for GitDiffStrategy {
    fn default() -> (res: Self)
        ensures
            res == GitDiffStrategy::FilesOnly,
    {
        GitDiffStrategy::FilesOnly
    }
}

/// The line numbers of a diff hunk: where it starts and how many lines it
/// spans, before and after the change.
#[derive(Debug, Clone, Copy, PartialEq, Eq)]
pub struct DiffHunkLines {
    pub old_start: u32,
    pub old_lines: u32,
    pub new_start: u32,
    pub new_lines: u32,
}

/// A half-open range of lines `start..end`.
#[derive(Debug, Clone, Copy)]
struct LineRange {
    start: usize,
    end: usize,
}

/// Whether the ranges `a` and `b` (half-open) meet: `a` covers the first
/// line of `b`, or `a` covers the last line of `b`.
pub open spec fn ranges_intersect(a: (int, int), b: (int, int)) -> bool {
    (a.0 <= b.0 && a.1 > b.0) || (a.0 < b.1 && a.1 >= b.1)
}

impl LineRange {
    fn intersects(&self, other: &LineRange) -> (res: bool)
        ensures
            res == ranges_intersect((self.start as int, self.end as int), (other.start as int, other.end as int)),
    {
        (self.start <= other.start && self.end > other.start) || (self.start < other.end && self.end >= other.end)
    }
}

/// The kind of change a hunk makes, with its old and new line ranges.
#[derive(Debug, Clone, Copy)]
enum Diff {
    Added(LineRange, LineRange),
    Removed(LineRange, LineRange),
    Modified(LineRange, LineRange),
}

/// A hunk that adds lines replaces none, one that removes lines adds none;
/// a hunk never does neither.
pub open spec fn hunk_ok(h: DiffHunkLines) -> bool {
    &&& h.old_start + h.old_lines <= u32::MAX
    &&& h.new_start + h.new_lines <= u32::MAX
    &&& (h.old_lines > 0 || h.new_lines > 0)
}

impl Diff {
    fn from_hunk(hunk: &DiffHunkLines) -> (res: Diff)
        requires
            hunk_ok(*hunk),
        ensures
            match res {
                Diff::Added(old, _) => old.start == hunk.old_start && old.end == hunk.old_start + hunk.old_lines,
                Diff::Removed(old, _) => old.start == hunk.old_start && old.end == hunk.old_start + hunk.old_lines,
                Diff::Modified(old, _) => old.start == hunk.old_start && old.end == hunk.old_start + hunk.old_lines,
            },
    {
        let new_range = LineRange {
            start: hunk.new_start as usize,
            end: (hunk.new_start + hunk.new_lines) as usize,
        };
        let old_range = LineRange {
            start: hunk.old_start as usize,
            end: (hunk.old_start + hunk.old_lines) as usize,
        };
        if hunk.old_lines == 0 {
            Diff::Added(old_range, new_range)
        } else if hunk.new_lines == 0 {
            Diff::Removed(old_range, new_range)
        } else {
            Diff::Modified(old_range, new_range)
        }
    }
}

/// Some touched file ends with the changed path.
pub open spec fn file_change_touches(touched: Seq<Seq<char>>, path: Seq<char>) -> bool {
    exists|i: int| 0 <= i < touched.len() && path_ends_with(#[trigger] touched[i], path)
}

/// The region ran, lies in the changed file (either path ends with the
/// other), and its lines `l1..=l2` meet the hunk's old lines.
pub open spec fn region_hit(r: RegionView, path: Seq<char>, h: DiffHunkLines) -> bool {
    r.execution_count > 0 && (path_ends_with(path, r.file) || path_ends_with(r.file, path))
        && ranges_intersect((r.l1 as int, r.l2 + 1), (h.old_start as int, h.old_start + h.old_lines))
}

/// The region ran and lies in the changed file.
pub open spec fn region_in_changed_file(r: RegionView, path: Seq<char>) -> bool {
    r.execution_count > 0 && (path_ends_with(path, r.file) || path_ends_with(r.file, path))
}

/// A region of the changed file whose line range is not a valid range.
pub open spec fn region_bad(r: RegionView) -> bool {
    r.l2 >= usize::MAX || r.l1 > r.l2 + 1
}

/// Every region of the changed file before the first one that meets the
/// hunk has valid lines.
pub open spec fn hunk_scan_ok(rs: Seq<RegionView>, path: Seq<char>, h: DiffHunkLines) -> bool {
    forall|i: int|
        0 <= i < rs.len() && region_in_changed_file(#[trigger] rs[i], path) && region_bad(rs[i]) ==> exists|j: int|
            0 <= j < i && region_hit(#[trigger] rs[j], path, h)
}

/// The files of a changed file: its new path, or its old path where it has
/// no new one (for the file callback); the other way round for hunks.
pub open spec fn first_path(a: Option<Seq<char>>, b: Option<Seq<char>>) -> Option<Seq<char>> {
    match a {
        Some(p) => Some(p),
        None => b,
    }
}

pub open spec fn opt_str_view(o: Option<&str>) -> Option<Seq<char>> {
    match o {
        Some(s) => Some(s@),
        None => None,
    }
}

impl GitDiffStrategy {
    /// Whether a changed file (with its new and old paths) makes the test
    /// dirty: under `FilesOnly`, where some touched file ends with its path.
    pub fn file_delta_dirty(
        &self,
        touched_files: &Vec<String>,
        new_path: Option<&str>,
        old_path: Option<&str>,
    ) -> (res: bool)
        ensures
            res == (*self == GitDiffStrategy::FilesOnly && match first_path(
                opt_str_view(new_path),
                opt_str_view(old_path),
            ) {
                Some(p) => file_change_touches(touched_files@.map_values(|s: String| s@), p),
                None => false,
            }),
    {
        match self {
            GitDiffStrategy::Hunks => false,
            GitDiffStrategy::FilesOnly => {
                let path = match new_path {
                    Some(p) => p,
                    None => match old_path {
                        Some(p) => p,
                        None => {
                            return false;
                        },
                    },
                };
                let ghost tv = touched_files@.map_values(|s: String| s@);
                let mut i: usize = 0;
                while i < touched_files.len()
                    invariant
                        i <= touched_files@.len(),
                        tv == touched_files@.map_values(|s: String| s@),
                        *self == GitDiffStrategy::FilesOnly,
                        first_path(opt_str_view(new_path), opt_str_view(old_path)) == Some(path@),
                        forall|k: int| 0 <= k < i ==> !path_ends_with(#[trigger] tv[k], path@),
                    decreases touched_files@.len() - i,
                {
                    if ends_with(touched_files[i].as_str(), path) {
                        proof {
                            assert(tv[i as int] == touched_files@[i as int]@);
                            assert(path_ends_with(tv[i as int], path@));
                            assert(file_change_touches(tv, path@));
                        }
                        return true;
                    }
                    i = i + 1;
                }
                false
            },
        }
    }

    /// Whether a changed hunk makes the test dirty: under `Hunks`, where
    /// some region that ran in the changed file meets the hunk's old lines.
    pub fn hunk_dirty(
        &self,
        cx: &AnalysisContext,
        old_path: Option<&str>,
        new_path: Option<&str>,
        hunk: &DiffHunkLines,
    ) -> (res: bool)
        requires
            source_wf(cx.internal_spec()),
            hunk_ok(*hunk),
            first_path(opt_str_view(old_path), opt_str_view(new_path)) matches Some(p)
                ==> hunk_scan_ok(source_regions(cx.internal_spec()), p, *hunk),
        ensures
            res == (*self == GitDiffStrategy::Hunks && match first_path(
                opt_str_view(old_path),
                opt_str_view(new_path),
            ) {
                Some(p) => exists|i: int|
                    0 <= i < source_regions(cx.internal_spec()).len() && region_hit(
                        #[trigger] source_regions(cx.internal_spec())[i],
                        p,
                        *hunk,
                    ),
                None => false,
            }),
    {
        match self {
            GitDiffStrategy::FilesOnly => false,
            GitDiffStrategy::Hunks => {
                let diff = Diff::from_hunk(hunk);
                let target = match diff {
                    Diff::Added(old, _) => old,
                    Diff::Removed(old, _) => old,
                    Diff::Modified(old, _) => old,
                };
                let path = match old_path {
                    Some(p) => p,
                    None => match new_path {
                        Some(p) => p,
                        None => {
                            return false;
                        },
                    },
                };
                let ghost rs = source_regions(cx.internal_spec());
                let mut it = cx.regions();
                loop
                    invariant
                        it.wf(),
                        it.source_spec() == cx.internal_spec(),
                        rs == source_regions(cx.internal_spec()),
                        0 <= it.position() <= rs.len(),
                        hunk_scan_ok(rs, path@, *hunk),
                        *self == GitDiffStrategy::Hunks,
                        first_path(opt_str_view(old_path), opt_str_view(new_path)) == Some(path@),
                        target.start == hunk.old_start,
                        target.end == hunk.old_start + hunk.old_lines,
                        forall|j: int| 0 <= j < it.position() ==> !region_hit(#[trigger] rs[j], path@, *hunk),
                    ensures
                        forall|j: int| 0 <= j < rs.len() ==> !region_hit(#[trigger] rs[j], path@, *hunk),
                    decreases rs.len() - it.position(),
                {
                    let ghost p = it.position();
                    match it.next() {
                        None => {
                            break;
                        },
                        Some(r) => {
                            proof {
                                assert(analysis_region_view(r) == rs[p]);
                            }
                            if r.execution_count > 0 && (ends_with(path, r.file_ref) || ends_with(
                                r.file_ref,
                                path,
                            )) {
                                proof {
                                    assert(region_in_changed_file(rs[p], path@));
                                    if region_bad(rs[p]) {
                                        let j = choose|j: int| 0 <= j < p && region_hit(#[trigger] rs[j], path@, *hunk);
                                        assert(!region_hit(rs[j], path@, *hunk));
                                    }
                                }
                                let region_range = LineRange { start: r.l1, end: r.l2 + 1 };
                                if region_range.intersects(&target) {
                                    proof {
                                        assert(region_hit(rs[p], path@, *hunk));
                                        assert(region_hit(source_regions(cx.internal_spec())[p], path@, *hunk));
                                    }
                                    return true;
                                }
                            }
                        },
                    }
                }
                false
            },
        }
    }
}

/// The time `a` comes after the time `b`; times are seconds and
/// nanoseconds since the Unix epoch.
pub open spec fn time_after(a: (i64, u32), b: (i64, u32)) -> bool {
    a.0 > b.0 || (a.0 == b.0 && a.1 > b.1)
}

/// The verdict of the file-system analysis, from the modification times of
/// the files the test touched: dirty as soon as one was modified after the
/// test ran (`test_run`), clean otherwise.
pub fn file_system_mtime_analysis(touched_mtimes: &[(i64, u32)], test_run: (i64, u32)) -> (res: AnalysisResult)
    ensures
        res == AnalysisResult::Dirty <==> exists|i: int|
            0 <= i < touched_mtimes@.len() && time_after(#[trigger] touched_mtimes@[i], test_run),
{
    let mut i: usize = 0;
    while i < touched_mtimes.len()
        invariant
            i <= touched_mtimes@.len(),
            forall|j: int| 0 <= j < i ==> !time_after(#[trigger] touched_mtimes@[j], test_run),
        decreases touched_mtimes@.len() - i,
    {
        let (secs, nanos) = touched_mtimes[i];
        if secs > test_run.0 || (secs == test_run.0 && nanos > test_run.1) {
            proof {
                assert(time_after(touched_mtimes@[i as int], test_run));
            }
            return AnalysisResult::Dirty;
        }
        i = i + 1;
    }
    AnalysisResult::Clean
}

} // verus!
