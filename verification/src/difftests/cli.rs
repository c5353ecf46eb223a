//! The options of the `cargo difftests` command line, and the decisions
//! they lead to.

use vstd::prelude::*;

use super::analysis::GitDiffStrategy;
use super::difftest::DiscoverIndexPathResolver;

verus! {

/// Where to flatten the file paths of a compiled test index to.
#[derive(Debug, Copy, Clone, PartialEq, Eq)]
pub enum FlattenFilesTarget {
    RepoRoot,
}

impl FlattenFilesTarget {
    /// The name of the target on the command line.
    pub fn name(&self) -> (res: &'static str)
        ensures
            res@ == "repo-root"@,
    {
        "repo-root"
    }
}

/// How to compile a test index.
#[derive(Debug, Copy, Clone, PartialEq, Eq)]
pub struct CompileTestIndexFlags {
    pub ignore_cargo_registry: bool,
    pub flatten_files_to: Option<FlattenFilesTarget>,
    pub remove_bin_path: bool,
}

impl Default for CompileTestIndexFlags {
    fn default() -> (res: Self)
        ensures
            res == (CompileTestIndexFlags {
                ignore_cargo_registry: true,
                flatten_files_to: Some(FlattenFilesTarget::RepoRoot),
                remove_bin_path: true,
            }),
    {
        CompileTestIndexFlags {
            ignore_cargo_registry: true,
            flatten_files_to: Some(FlattenFilesTarget::RepoRoot),
            remove_bin_path: true,
        }
    }
}

/// When an analysis uses the test index of a difftest.
#[derive(Debug, Copy, Clone, PartialEq, Eq)]
pub enum AnalysisIndexStrategy {
    Always,
    IfAvailable,
    Never,
    AlwaysAndClean,
}

impl Default for AnalysisIndexStrategy {
    fn default() -> (res: Self)
        ensures
            res == AnalysisIndexStrategy::Never,
    {
        AnalysisIndexStrategy::Never
    }
}

pub open spec fn index_strategy_name(s: AnalysisIndexStrategy) -> Seq<char> {
    match s {
        AnalysisIndexStrategy::Always => "always"@,
        AnalysisIndexStrategy::IfAvailable => "if-available"@,
        AnalysisIndexStrategy::Never => "never"@,
        AnalysisIndexStrategy::AlwaysAndClean => "always-and-clean"@,
    }
}

impl AnalysisIndexStrategy {
    /// The name of the strategy on the command line.
    pub fn name(&self) -> (res: &'static str)
        ensures
            res@ == index_strategy_name(*self),
    {
        match self {
            AnalysisIndexStrategy::Always => "always",
            AnalysisIndexStrategy::IfAvailable => "if-available",
            AnalysisIndexStrategy::Never => "never",
            AnalysisIndexStrategy::AlwaysAndClean => "always-and-clean",
        }
    }
}

/// A difftest directory.
#[derive(Debug, Clone, PartialEq, Eq)]
pub struct DifftestDir {
    pub dir: String,
}

/// Other binaries whose coverage counts for a test.
#[derive(Debug, Clone, PartialEq, Eq)]
pub struct OtherBinaries {
    pub other_binaries: Vec<String>,
}

/// The options of exporting the profile data of a difftest.
#[derive(Debug, Clone, PartialEq, Eq)]
pub struct ExportProfdataCommand {
    pub ignore_registry_files: bool,
    pub other_binaries: OtherBinaries,
    pub force: bool,
}

/// What to do with the report of two indexes' touched files.
#[derive(Debug, Copy, Clone, PartialEq, Eq)]
pub enum IndexesTouchSameFilesReportAction {
    Print,
    Assert,
}

impl Default for IndexesTouchSameFilesReportAction {
    fn default() -> (res: Self)
        ensures
            res == IndexesTouchSameFilesReportAction::Print,
    {
        IndexesTouchSameFilesReportAction::Print
    }
}

impl IndexesTouchSameFilesReportAction {
    /// The name of the action on the command line.
    pub fn name(&self) -> (res: &'static str)
        ensures
            res@ == (match *self {
                IndexesTouchSameFilesReportAction::Print => "print"@,
                IndexesTouchSameFilesReportAction::Assert => "assert"@,
            }),
    {
        match self {
            IndexesTouchSameFilesReportAction::Print => "print",
            IndexesTouchSameFilesReportAction::Assert => "assert",
        }
    }

    /// Whether the report fails the command: only when asserting, and the
    /// indexes differ.
    pub fn fails(&self, same_files: bool) -> (res: bool)
        ensures
            res == (*self == IndexesTouchSameFilesReportAction::Assert && !same_files),
    {
        match self {
            IndexesTouchSameFilesReportAction::Print => false,
            IndexesTouchSameFilesReportAction::Assert => !same_files,
        }
    }
}

/// The analysis algorithm, as chosen on the command line.
#[derive(Debug, Copy, Clone, PartialEq, Eq)]
pub enum DirtyAlgorithm {
    FsMtime,
    GitDiffFiles,
    GitDiffHunks,
}

impl Default for DirtyAlgorithm {
    fn default() -> (res: Self)
        ensures
            res == DirtyAlgorithm::FsMtime,
    {
        DirtyAlgorithm::FsMtime
    }
}

/// The analysis algorithm: file modification times, or a git diff against
/// a commit (by its object id; `None` for `HEAD`).
#[derive(Debug, Copy, Clone, PartialEq, Eq)]
pub enum AnalysisAlgorithm {
    FileSystemMtimes,
    GitDiff { strategy: GitDiffStrategy, commit: Option<[u8; 20]> },
}

impl DirtyAlgorithm {
    /// The name of the algorithm on the command line.
    pub fn name(&self) -> (res: &'static str)
        ensures
            res@ == (match *self {
                DirtyAlgorithm::FsMtime => "fs-mtime"@,
                DirtyAlgorithm::GitDiffFiles => "git-diff-files"@,
                DirtyAlgorithm::GitDiffHunks => "git-diff-hunks"@,
            }),
    {
        match self {
            DirtyAlgorithm::FsMtime => "fs-mtime",
            DirtyAlgorithm::GitDiffFiles => "git-diff-files",
            DirtyAlgorithm::GitDiffHunks => "git-diff-hunks",
        }
    }

    /// The algorithm to run, diffing against `commit` where it is a git
    /// diff.
    pub fn convert(self, commit: Option<[u8; 20]>) -> (res: AnalysisAlgorithm)
        ensures
            res == (match self {
                DirtyAlgorithm::FsMtime => AnalysisAlgorithm::FileSystemMtimes,
                DirtyAlgorithm::GitDiffFiles => AnalysisAlgorithm::GitDiff {
                    strategy: GitDiffStrategy::FilesOnly,
                    commit,
                },
                DirtyAlgorithm::GitDiffHunks => AnalysisAlgorithm::GitDiff {
                    strategy: GitDiffStrategy::Hunks,
                    commit,
                },
            }),
    {
        match self {
            DirtyAlgorithm::FsMtime => AnalysisAlgorithm::FileSystemMtimes,
            DirtyAlgorithm::GitDiffFiles => AnalysisAlgorithm::GitDiff {
                strategy: GitDiffStrategy::FilesOnly,
                commit,
            },
            DirtyAlgorithm::GitDiffHunks => AnalysisAlgorithm::GitDiff {
                strategy: GitDiffStrategy::Hunks,
                commit,
            },
        }
    }
}

/// Why no index resolver could be made.
#[derive(Debug, Copy, Clone, PartialEq, Eq)]
pub enum IndexResolverError {
    RootIsNone,
}

impl IndexResolverError {
    /// The message of the error.
    pub fn message(&self) -> (res: &'static str)
        ensures
            res@ == "--root was not provided, but was required by the --index-strategy"@,
    {
        "--root was not provided, but was required by the --index-strategy"
    }
}

/// Where the test indexes are, and when to use them.
#[derive(Debug, Clone, PartialEq, Eq)]
pub struct AnalysisIndex {
    pub index_root: Option<String>,
    pub index_strategy: AnalysisIndexStrategy,
}

impl AnalysisIndex {
    /// The resolver of index paths: none for `never`; otherwise one that
    /// maps difftest directories under `root` to index files under the
    /// index root, which then must be given, as must `root`.
    pub fn index_resolver(&self, root: Option<String>) -> (res: Result<
        Option<DiscoverIndexPathResolver>,
        IndexResolverError,
    >)
        requires
            self.index_strategy != AnalysisIndexStrategy::Never ==> self.index_root is Some,
        ensures
            match self.index_strategy {
                AnalysisIndexStrategy::Never => res == Ok::<
                    Option<DiscoverIndexPathResolver>,
                    IndexResolverError,
                >(None),
                _ => match root {
                    None => res == Err::<Option<DiscoverIndexPathResolver>, IndexResolverError>(
                        IndexResolverError::RootIsNone,
                    ),
                    Some(r) => res matches Ok(Some(DiscoverIndexPathResolver::Remap { from, to }))
                        && from@ == r@ && to@ == self.index_root.unwrap()@,
                },
            },
    {
        match self.index_strategy {
            AnalysisIndexStrategy::Never => Ok(None),
            _ => {
                let to = match &self.index_root {
                    Some(r) => r.clone(),
                    None => String::new(),
                };
                match root {
                    None => Err(IndexResolverError::RootIsNone),
                    Some(from) => Ok(Some(DiscoverIndexPathResolver::Remap { from, to })),
                }
            },
        }
    }
}

/// Where the analysis of one test reads its regions from.
#[derive(Debug, Clone, Copy, PartialEq, Eq)]
pub enum AnalysisPlan {
    /// The test index found for the difftest.
    ExistingIndex,
    /// The coverage data of the difftest, merged and exported as needed.
    CoverageData,
    /// A test index compiled from the coverage data, saved where the
    /// resolver places it, the difftest cleaned afterwards if `clean`.
    CompileIndex { clean: bool },
}

/// The plan for analysing a test under an index strategy: a found index is
/// used unless the strategy is `never`; without one, `always` and
/// `always-and-clean` compile one, the others read the coverage data.
pub open spec fn analysis_plan_spec(strategy: AnalysisIndexStrategy, has_index: bool) -> AnalysisPlan {
    match strategy {
        AnalysisIndexStrategy::Never => AnalysisPlan::CoverageData,
        AnalysisIndexStrategy::Always => if has_index {
            AnalysisPlan::ExistingIndex
        } else {
            AnalysisPlan::CompileIndex { clean: false }
        },
        AnalysisIndexStrategy::AlwaysAndClean => if has_index {
            AnalysisPlan::ExistingIndex
        } else {
            AnalysisPlan::CompileIndex { clean: true }
        },
        AnalysisIndexStrategy::IfAvailable => if has_index {
            AnalysisPlan::ExistingIndex
        } else {
            AnalysisPlan::CoverageData
        },
    }
}

impl AnalysisIndex {
    /// How to analyse a difftest, given whether an index was found for it.
    pub fn analysis_plan(&self, has_index: bool) -> (res: AnalysisPlan)
        ensures
            res == analysis_plan_spec(self.index_strategy, has_index),
    {
        match self.index_strategy {
            AnalysisIndexStrategy::Never => AnalysisPlan::CoverageData,
            AnalysisIndexStrategy::Always => if has_index {
                AnalysisPlan::ExistingIndex
            } else {
                AnalysisPlan::CompileIndex { clean: false }
            },
            AnalysisIndexStrategy::AlwaysAndClean => if has_index {
                AnalysisPlan::ExistingIndex
            } else {
                AnalysisPlan::CompileIndex { clean: true }
            },
            AnalysisIndexStrategy::IfAvailable => if has_index {
                AnalysisPlan::ExistingIndex
            } else {
                AnalysisPlan::CoverageData
            },
        }
    }
}

/// The resolver that maps difftest directories under `tmpdir_root` to test
/// indexes under `index_root`, where an index root was given.
pub fn resolver_for_index_root(tmpdir_root: &str, index_root: Option<String>) -> (res: Option<
    DiscoverIndexPathResolver,
>)
    ensures
        match index_root {
            Some(r) => res matches Some(DiscoverIndexPathResolver::Remap { from, to }) && from@
                == tmpdir_root@ && to == r,
            None => res is None,
        },
{
    match index_root {
        Some(to) => Some(DiscoverIndexPathResolver::Remap { from: tmpdir_root.to_owned(), to }),
        None => None,
    }
}

} // verus!
