//! The workspace's own test-impact analysis: changed Rust files held
//! against the regions the test ran.

use vstd::prelude::*;

use super::coverage::{coverage_wf, CoverageData, CoverageFunction};
use crate::paths::{ends_with, extension, path_ends_with, path_extension};

verus! {

/// Whether a test must run again.
#[derive(Copy, Clone, Debug, PartialEq, Eq)]
pub enum AnalysisResult {
    Fresh,
    Dirty,
}

/// An inclusive range of lines `start..=end`.
#[derive(Copy, Clone, Debug, PartialEq, Eq)]
pub struct LineRange {
    pub start: usize,
    pub end: usize,
}

/// `other` starts or ends inside `r` (both inclusive ranges).
pub open spec fn line_ranges_meet(r: LineRange, other: LineRange) -> bool {
    (r.start <= other.start && r.end >= other.start) || (r.start <= other.end && r.end >= other.end)
}

impl LineRange {
    /// The lines `start..=end`.
    pub fn new(start: usize, end: usize) -> (res: Self)
        ensures
            res == (LineRange { start, end }),
    {
        LineRange { start, end }
    }

    /// Whether the first or the last line of `other` lies in this range.
    pub fn intersects(&self, other: &Self) -> (res: bool)
        ensures
            res == line_ranges_meet(*self, *other),
    {
        (self.start <= other.start && self.end >= other.start) || (self.start <= other.end
            && self.end >= other.end)
    }
}

/// What the callbacks know of a changed file: whether it is Rust source.
#[derive(Copy, Clone, Debug, PartialEq, Eq)]
pub struct CbFileData {
    pub is_rust: bool,
}

pub open spec fn is_rust_path(p: Option<Seq<char>>) -> bool {
    match p {
        Some(p) => path_extension(p) == Some("rs"@),
        None => false,
    }
}

impl CbFileData {
    /// The data of a changed file from its new path: Rust source where the
    /// path has the `rs` extension.
    pub fn from_new_path(new_path: Option<&str>) -> (res: Self)
        ensures
            res.is_rust == is_rust_path(
                match new_path {
                    Some(p) => Some(p@),
                    None => None,
                },
            ),
    {
        let is_rust = match new_path {
            Some(p) => match extension(p) {
                Some(e) => crate::text::str_eq(e.as_str(), "rs"),
                None => false,
            },
            None => false,
        };
        CbFileData { is_rust }
    }
}

/// Every function of the data names at least one file.
pub open spec fn functions_have_files(d: CoverageData) -> bool {
    forall|m: int, f: int|
        0 <= m < d.data@.len() && 0 <= f < d.data@[m].functions@.len() ==> (#[trigger] d.data@[m].functions@[f]).filenames@.len() > 0
}

/// A region of function `f` that ran and meets the changed lines of `path`.
pub open spec fn function_hit(f: CoverageFunction, path: Seq<char>, changed: LineRange) -> bool {
    path_ends_with(f.filenames@[0]@, path) && exists|r: int|
        0 <= r < f.regions@.len() && (#[trigger] f.regions@[r]).execution_count != 0
            && line_ranges_meet(LineRange { start: f.regions@[r].l1, end: f.regions@[r].l2 }, changed)
}

/// The lines `old_start..=old_start + old_lines - 1` that a hunk changed.
pub open spec fn changed_lines(old_start: u32, old_lines: u32) -> LineRange {
    LineRange { start: old_start as usize, end: (old_start + old_lines - 1) as usize }
}

/// The verdict on a changed hunk of a Rust file: dirty where a region that
/// ran, in a function whose first file ends with the changed path, meets
/// the hunk's old lines.
pub fn rust_file_modified_hunk(
    data: &CoverageData,
    new_path: &str,
    old_start: u32,
    old_lines: u32,
    file_data: CbFileData,
) -> (res: AnalysisResult)
    requires
        file_data.is_rust,
        functions_have_files(*data),
        1 <= old_start + old_lines <= u32::MAX,
    ensures
        res == AnalysisResult::Dirty <==> exists|m: int, f: int|
            0 <= m < data.data@.len() && 0 <= f < data.data@[m].functions@.len() && function_hit(
                #[trigger] data.data@[m].functions@[f],
                new_path@,
                changed_lines(old_start, old_lines),
            ),
{
    let changed = LineRange::new(old_start as usize, (old_start + old_lines - 1) as usize);
    let mut m: usize = 0;
    while m < data.data.len()
        invariant
            m <= data.data@.len(),
            functions_have_files(*data),
            changed == changed_lines(old_start, old_lines),
            forall|m2: int, f2: int|
                0 <= m2 < m && 0 <= f2 < data.data@[m2].functions@.len() ==> !function_hit(
                    #[trigger] data.data@[m2].functions@[f2],
                    new_path@,
                    changed,
                ),
        decreases data.data@.len() - m,
    {
        let mapping = &data.data[m];
        let mut f: usize = 0;
        while f < mapping.functions.len()
            invariant
                m < data.data@.len(),
                *mapping == data.data@[m as int],
                f <= mapping.functions@.len(),
                functions_have_files(*data),
                changed == changed_lines(old_start, old_lines),
                forall|m2: int, f2: int|
                    0 <= m2 < m && 0 <= f2 < data.data@[m2].functions@.len() ==> !function_hit(
                        #[trigger] data.data@[m2].functions@[f2],
                        new_path@,
                        changed,
                    ),
                forall|f2: int| 0 <= f2 < f ==> !function_hit(
                    #[trigger] data.data@[m as int].functions@[f2],
                    new_path@,
                    changed,
                ),
            decreases mapping.functions@.len() - f,
        {
            let func = &mapping.functions[f];
            proof {
                assert(func.filenames@.len() > 0);
            }
            if ends_with(func.filenames[0].as_str(), new_path) {
                let mut r: usize = 0;
                while r < func.regions.len()
                    invariant
                        r <= func.regions@.len(),
                        changed == changed_lines(old_start, old_lines),
                        func.filenames@.len() > 0,
                        path_ends_with(func.filenames@[0]@, new_path@),
                        *func == data.data@[m as int].functions@[f as int],
                        m < data.data@.len(),
                        f < data.data@[m as int].functions@.len(),
                        forall|r2: int|
                            0 <= r2 < r ==> !((#[trigger] func.regions@[r2]).execution_count != 0
                                && line_ranges_meet(
                                LineRange { start: func.regions@[r2].l1, end: func.regions@[r2].l2 },
                                changed,
                            )),
                    decreases func.regions@.len() - r,
                {
                    let region = func.regions[r];
                    if region.execution_count != 0 && LineRange::new(region.l1, region.l2).intersects(
                        &changed,
                    ) {
                        proof {
                            assert(func.regions@[r as int] == region);
                            assert(function_hit(*func, new_path@, changed));
                            assert(function_hit(data.data@[m as int].functions@[f as int], new_path@, changed));
                        }
                        return AnalysisResult::Dirty;
                    }
                    r = r + 1;
                }
                proof {
                    assert(!function_hit(*func, new_path@, changed));
                }
            }
            f = f + 1;
        }
        m = m + 1;
    }
    AnalysisResult::Fresh
}

/// A region of the coverage data that ran, in a function whose first file
/// ends with `path`, and that holds line `line`.
pub open spec fn ran_line(data: CoverageData, path: Seq<char>, line: int) -> bool {
    exists|m: int, f: int, r: int|
        #![trigger data.data@[m].functions@[f].regions@[r]]
        0 <= m < data.data@.len() && 0 <= f < data.data@[m].functions@.len() && 0 <= r
            < data.data@[m].functions@[f].regions@.len() && path_ends_with(
            data.data@[m].functions@[f].filenames@[0]@,
            path,
        ) && data.data@[m].functions@[f].regions@[r].execution_count != 0
            && data.data@[m].functions@[f].regions@[r].l1 <= line
            && line <= data.data@[m].functions@[f].regions@[r].l2
}

/// A changed hunk of a Rust file makes the test dirty exactly where a
/// region that ran, in the changed file, holds the hunk's first old line
/// or its last old line (`old_start + old_lines - 1`): a hunk that ends
/// inside such a region counts as much as one that starts there.
pub proof fn lemma_hunk_dirty_by_first_or_last_line(data: CoverageData, path: Seq<char>, old_start: u32, old_lines: u32)
    requires
        1 <= old_start + old_lines <= u32::MAX,
    ensures
        (exists|m: int, f: int|
            0 <= m < data.data@.len() && 0 <= f < data.data@[m].functions@.len() && function_hit(
                #[trigger] data.data@[m].functions@[f],
                path,
                changed_lines(old_start, old_lines),
            )) <==> (ran_line(data, path, old_start as int) || ran_line(data, path, old_start + old_lines - 1)),
{
    let c = changed_lines(old_start, old_lines);
    assert(c.start == old_start && c.end == old_start + old_lines - 1);
    if exists|m: int, f: int|
        0 <= m < data.data@.len() && 0 <= f < data.data@[m].functions@.len() && function_hit(
            #[trigger] data.data@[m].functions@[f],
            path,
            c,
        ) {
        let (m, f) = choose|m: int, f: int|
            0 <= m < data.data@.len() && 0 <= f < data.data@[m].functions@.len() && function_hit(
                #[trigger] data.data@[m].functions@[f],
                path,
                c,
            );
        let func = data.data@[m].functions@[f];
        let r = choose|r: int|
            0 <= r < func.regions@.len() && (#[trigger] func.regions@[r]).execution_count != 0
                && line_ranges_meet(LineRange { start: func.regions@[r].l1, end: func.regions@[r].l2 }, c);
        if func.regions@[r].l1 <= c.start && func.regions@[r].l2 >= c.start {
            assert(ran_line(data, path, old_start as int));
        } else {
            assert(ran_line(data, path, old_start + old_lines - 1));
        }
    }
    if ran_line(data, path, old_start as int) {
        let (m, f, r) = choose|m: int, f: int, r: int|
            #![trigger data.data@[m].functions@[f].regions@[r]]
            0 <= m < data.data@.len() && 0 <= f < data.data@[m].functions@.len() && 0 <= r
                < data.data@[m].functions@[f].regions@.len() && path_ends_with(
                data.data@[m].functions@[f].filenames@[0]@,
                path,
            ) && data.data@[m].functions@[f].regions@[r].execution_count != 0
                && data.data@[m].functions@[f].regions@[r].l1 <= old_start as int
                && old_start as int <= data.data@[m].functions@[f].regions@[r].l2;
        let func = data.data@[m].functions@[f];
        assert(func.regions@[r].execution_count != 0 && line_ranges_meet(
            LineRange { start: func.regions@[r].l1, end: func.regions@[r].l2 },
            c,
        ));
        assert(function_hit(func, path, c));
    }
    if ran_line(data, path, old_start + old_lines - 1) {
        let (m, f, r) = choose|m: int, f: int, r: int|
            #![trigger data.data@[m].functions@[f].regions@[r]]
            0 <= m < data.data@.len() && 0 <= f < data.data@[m].functions@.len() && 0 <= r
                < data.data@[m].functions@[f].regions@.len() && path_ends_with(
                data.data@[m].functions@[f].filenames@[0]@,
                path,
            ) && data.data@[m].functions@[f].regions@[r].execution_count != 0
                && data.data@[m].functions@[f].regions@[r].l1 <= old_start + old_lines - 1
                && old_start + old_lines - 1 <= data.data@[m].functions@[f].regions@[r].l2;
        let func = data.data@[m].functions@[f];
        assert(func.regions@[r].execution_count != 0 && line_ranges_meet(
            LineRange { start: func.regions@[r].l1, end: func.regions@[r].l2 },
            c,
        ));
        assert(function_hit(func, path, c));
    }
}

/// How a file changed between the two trees of a diff.
#[derive(Copy, Clone, Debug, PartialEq, Eq)]
pub enum DeltaStatus {
    Unmodified,
    Added,
    Deleted,
    Modified,
    Renamed,
    Copied,
    Ignored,
    Untracked,
    Typechange,
    Unreadable,
    Conflicted,
}

/// What walking a diff reports, in order: each changed file, and each
/// hunk of a changed file, with the file's new path.
#[derive(Clone, Debug, PartialEq, Eq)]
pub enum DiffEvent {
    File { status: DeltaStatus, new_path: Option<String> },
    Hunk { new_path: Option<String>, old_start: u32, old_lines: u32 },
}

/// The event can be judged: a hunk names its file, and its old lines can
/// be counted.
pub open spec fn event_judgeable(e: DiffEvent) -> bool {
    match e {
        DiffEvent::File { .. } => true,
        DiffEvent::Hunk { new_path, old_start, old_lines } => new_path is Some && 1 <= old_start
            + old_lines <= u32::MAX,
    }
}

/// The event makes the test dirty: a hunk of a Rust file that meets a
/// region the test ran; changed files themselves never do.
pub open spec fn event_dirty(data: CoverageData, e: DiffEvent) -> bool {
    match e {
        DiffEvent::File { .. } => false,
        DiffEvent::Hunk { new_path, old_start, old_lines } => match new_path {
            Some(p) => is_rust_path(Some(p@)) && exists|m: int, f: int|
                0 <= m < data.data@.len() && 0 <= f < data.data@[m].functions@.len() && function_hit(
                    #[trigger] data.data@[m].functions@[f],
                    p@,
                    changed_lines(old_start, old_lines),
                ),
            None => false,
        },
    }
}

/// The verdict on one event of the diff, with the standard callbacks:
/// files are fresh whatever their change; a hunk of a Rust file is judged
/// against the regions that ran, a hunk of another file is fresh.
pub fn event_result(data: &CoverageData, e: &DiffEvent) -> (res: AnalysisResult)
    requires
        functions_have_files(*data),
        event_judgeable(*e),
    ensures
        res == AnalysisResult::Dirty <==> event_dirty(*data, *e),
{
    match e {
        DiffEvent::File { .. } => AnalysisResult::Fresh,
        DiffEvent::Hunk { new_path, old_start, old_lines } => {
            let p = match new_path {
                Some(p) => p.as_str(),
                None => {
                    return AnalysisResult::Fresh;
                },
            };
            let file_data = CbFileData::from_new_path(Some(p));
            if file_data.is_rust {
                rust_file_modified_hunk(data, p, *old_start, *old_lines, file_data)
            } else {
                AnalysisResult::Fresh
            }
        },
    }
}

/// The verdict on a test given the diff since it ran (its events in
/// order): dirty as soon as one event makes it dirty, where the walk
/// stops; fresh otherwise.
pub fn analysis_context_analyze(data: &CoverageData, events: &Vec<DiffEvent>) -> (res: AnalysisResult)
    requires
        functions_have_files(*data),
        forall|i: int| 0 <= i < events@.len() ==> event_judgeable(#[trigger] events@[i]),
    ensures
        res == AnalysisResult::Dirty <==> exists|i: int|
            0 <= i < events@.len() && event_dirty(*data, #[trigger] events@[i]),
{
    let mut i: usize = 0;
    while i < events.len()
        invariant
            i <= events@.len(),
            functions_have_files(*data),
            forall|j: int| 0 <= j < events@.len() ==> event_judgeable(#[trigger] events@[j]),
            forall|j: int| 0 <= j < i ==> !event_dirty(*data, #[trigger] events@[j]),
        decreases events@.len() - i,
    {
        match event_result(data, &events[i]) {
            AnalysisResult::Dirty => {
                return AnalysisResult::Dirty;
            },
            AnalysisResult::Fresh => {},
        }
        i = i + 1;
    }
    AnalysisResult::Fresh
}

} // verus!
