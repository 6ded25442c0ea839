//! The environment selector that decides where the manifest comes from.

use vstd::prelude::*;

verus! {

/// Which manifest source a run uses: a local manifest in development, the
/// published one in production.
#[derive(Debug, Clone, Copy, PartialEq, Eq, Structural)]
pub enum Environment {
    Development,
    Production,
}

impl Default for Environment {
    /// A run is a production run unless the environment says otherwise.
    fn default() -> (r: Self)
        ensures
            r == Environment::Production,
    {
        Environment::Production
    }
}

/// The resolved configuration of a run.
#[derive(Debug, Clone, Copy, PartialEq, Eq, Structural)]
pub struct Config {
    pub environment: Environment,
}

} // verus!
