//! Workspace task helpers: packages and their cargo arguments, build
//! profiles, and the paths the tasks use.

pub mod cmd;
pub mod pkg;
pub mod docusaurus;
pub mod difftests;
pub mod cargo_toml_style;
pub mod ws_layout;
pub mod langmap;
pub mod test_groups;
pub mod ukonf_fns;
