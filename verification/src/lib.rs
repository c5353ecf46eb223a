//! Tooling logic for the upsilon development workspace: the shell command
//! language, the ukonf syntax tree, workspace task helpers and test-index
//! comparisons, each with machine-checked contracts.

use vstd::prelude::*;

pub mod text;
pub mod paths;
pub mod shell;
pub mod ukonf;
pub mod xtask;
pub mod cranky;
pub mod difftests;
pub mod test_support;
pub mod test_macro;
pub mod shutdown_host;
pub mod plugin;

verus! {

} // verus!
