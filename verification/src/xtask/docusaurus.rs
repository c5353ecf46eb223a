//! The documentation site, built and served with npm.

use vstd::prelude::*;

verus! {

/// The documentation site at `root`.
#[derive(Debug, Clone, PartialEq, Eq)]
pub struct Docusaurus {
    pub root: String,
}

impl Docusaurus {
    /// The site rooted at `root`.
    pub fn new(root: String) -> (res: Self)
        ensures
            res.root == root,
    {
        Docusaurus { root }
    }

    /// The npm arguments that build the site.
    pub fn build_args(&self) -> (res: Vec<&'static str>)
        ensures
            res@.map_values(|s: &'static str| s@) == seq!["run"@, "build"@],
    {
        let res = vec!["run", "build"];
        proof {
            assert(res@.map_values(|s: &'static str| s@) =~= seq!["run"@, "build"@]);
        }
        res
    }

    /// The npm arguments that serve the site.
    pub fn serve_args(&self) -> (res: Vec<&'static str>)
        ensures
            res@.map_values(|s: &'static str| s@) == seq!["run"@, "serve"@],
    {
        let res = vec!["run", "serve"];
        proof {
            assert(res@.map_values(|s: &'static str| s@) =~= seq!["run"@, "serve"@]);
        }
        res
    }
}

} // verus!
