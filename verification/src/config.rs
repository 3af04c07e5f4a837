//! Options that steer how a decoded identifier is rendered.

use vstd::prelude::*;

verus! {

/// Rendering options of one decode call.
pub struct DemanglingConfig {
    /// Shorten well-known fully-qualified names.
    pub collapse_scala_names: bool,
    /// Carried for the caller's own tracing. The decoders write nothing and
    /// hand back the same result whatever it is set to.
    pub debug: bool,
}

impl Default for DemanglingConfig {
    fn default() -> (config: Self)
        ensures
            config.collapse_scala_names,
            !config.debug,
    {
        DemanglingConfig { collapse_scala_names: true, debug: false }
    }
}

} // verus!
