//! Test-impact analysis: which tests must run again after a change, from
//! the code regions each test touched.

pub mod coverage;
pub mod analysis;
pub mod index;
pub mod difftest;
pub mod cli;
pub mod upsilon;
pub mod compile;
pub mod testclient;
