//! Choosing the tests to run again after a change.

use vstd::prelude::*;

use crate::difftests::index::{AnalysisVerdict, AnalyzeAllSingleTest};

verus! {

/// The analysis algorithm, as the task's command line names it.
#[derive(Debug, Clone, Copy, PartialEq, Eq)]
pub enum DirtyAlgo {
    FsMtime,
    GitDiffFiles,
    GitDiffHunks,
}

impl Default for DirtyAlgo {
    fn default() -> (res: Self)
        ensures
            res == DirtyAlgo::FsMtime,
    {
        DirtyAlgo::FsMtime
    }
}

impl DirtyAlgo {
    /// The name of the algorithm, as `cargo difftests` takes it.
    pub fn name(&self) -> (res: &'static str)
        ensures
            res@ == (match *self {
                DirtyAlgo::FsMtime => "fs-mtime"@,
                DirtyAlgo::GitDiffFiles => "git-diff-files"@,
                DirtyAlgo::GitDiffHunks => "git-diff-hunks"@,
            }),
    {
        match self {
            DirtyAlgo::FsMtime => "fs-mtime",
            DirtyAlgo::GitDiffFiles => "git-diff-files",
            DirtyAlgo::GitDiffHunks => "git-diff-hunks",
        }
    }
}

/// The difftests task.
#[derive(Debug, Clone, Copy, PartialEq, Eq)]
pub enum DiffTestsCommand {
    PrintTestsToRerun { algo: DirtyAlgo },
}

/// The analysed tests that must run again: those found dirty, in order.
pub open spec fn dirty_tests<T>(tests: Seq<AnalyzeAllSingleTest<T>>) -> Seq<AnalyzeAllSingleTest<T>>
    decreases tests.len(),
{
    if tests.len() == 0 {
        Seq::empty()
    } else {
        dirty_tests(tests.drop_last()) + if tests.last().verdict == AnalysisVerdict::Dirty {
            seq![tests.last()]
        } else {
            Seq::empty()
        }
    }
}

/// Keeps the tests found dirty, in order.
pub fn tests_to_rerun<T>(tests: Vec<AnalyzeAllSingleTest<T>>) -> (res: Vec<AnalyzeAllSingleTest<T>>)
    ensures
        res@ == dirty_tests(tests@),
{
    let ghost all = tests@;
    let mut rest = tests;
    let mut kept: Vec<AnalyzeAllSingleTest<T>> = Vec::new();
    let mut reversed: Vec<AnalyzeAllSingleTest<T>> = Vec::new();
    while rest.len() > 0
        invariant
            all == rest@ + reversed@.reverse(),
        decreases rest@.len(),
    {
        let t = rest.pop().unwrap();
        let ghost before = reversed@;
        reversed.push(t);
        proof {
            assert(reversed@.reverse() =~= seq![reversed@.last()] + before.reverse());
            assert(all =~= rest@ + reversed@.reverse());
        }
    }
    proof {
        assert(all =~= reversed@.reverse());
        assert(all.take(0) =~= Seq::<AnalyzeAllSingleTest<T>>::empty());
    }
    let mut i: usize = 0;
    let n = reversed.len();
    while reversed.len() > 0
        invariant
            n == all.len(),
            i + reversed@.len() == n,
            all == (all.take(i as int) + reversed@.reverse()),
            kept@ == dirty_tests(all.take(i as int)),
        decreases reversed@.len(),
    {
        let t = reversed.pop().unwrap();
        let ghost tv = t;
        proof {
            assert(all.take(i + 1).drop_last() =~= all.take(i as int));
            assert(all[i as int] == tv) by {
                assert(all.take(i as int) + reversed@.push(tv).reverse() == all);
                assert(reversed@.push(tv).reverse()[0] == tv);
            }
            assert(all.take(i + 1).last() == tv);
        }
        match t.verdict {
            AnalysisVerdict::Dirty => {
                kept.push(t);
            },
            AnalysisVerdict::Clean => {},
        }
        i = i + 1;
        proof {
            assert(all =~= all.take(i as int) + reversed@.reverse());
        }
    }
    proof {
        assert(all.take(i as int) =~= all);
    }
    kept
}

/// Whether quick test runs support the build profile `profile`: only the
/// `difftests` profile and those named `difftests-..` collect the coverage
/// they need.
pub fn quick_tests_profile_supported(profile: &str) -> (res: bool)
    ensures
        res == (profile@ == "difftests"@ || (10 <= profile@.len() && profile@.take(10) == "difftests-"@)),
{
    let is_difftests = crate::text::str_eq(profile, "difftests");
    let prefixed = crate::text::str_starts_with(profile, "difftests-");
    proof {
        reveal_strlit("difftests-");
        assert("difftests-"@.len() == 10);
    }
    is_difftests || prefixed
}

} // verus!
