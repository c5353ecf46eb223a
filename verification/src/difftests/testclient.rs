//! The description a test gives of itself when it starts collecting
//! coverage for test-impact analysis.

use vstd::prelude::*;

verus! {

/// A description of a test: which package, crate and binary it comes from,
/// and its name; `cargo difftests` only reads `bin_path`.
#[derive(Debug, Clone, PartialEq, Eq)]
pub struct TestDesc {
    pub pkg_name: String,
    pub crate_name: String,
    pub bin_name: Option<String>,
    pub bin_path: String,
    pub test_name: String,
    /// Any other fields that identify the test, as name and value.
    pub other_fields: Vec<(String, String)>,
}

} // verus!
