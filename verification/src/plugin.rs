//! The debug data driver plugin of the web server: its configuration and
//! the fairing it registers.

use vstd::prelude::*;

verus! {

/// The configuration of the sample plugin.
#[derive(Debug, Clone, Copy, PartialEq, Eq)]
pub struct SamplePluginConfig {
    pub a: usize,
    pub b: usize,
}

/// The sample plugin, with its configuration.
#[derive(Debug, Clone, Copy, PartialEq, Eq)]
pub struct SamplePlugin {
    pub config: SamplePluginConfig,
}

/// The fairing that the plugin registers.
#[derive(Debug, Clone, Copy, PartialEq, Eq)]
pub struct DebugDataDriverFairing;

impl SamplePlugin {
    /// The plugin loaded with `config`.
    pub fn new(config: SamplePluginConfig) -> (res: Self)
        ensures
            res.config == config,
    {
        SamplePlugin { config }
    }
}

impl DebugDataDriverFairing {
    /// The name under which the fairing is registered.
    pub fn name(&self) -> (res: &'static str)
        ensures
            res@ == "Debug Data Driver Fairing aaa"@,
    {
        "Debug Data Driver Fairing aaa"
    }
}

} // verus!
