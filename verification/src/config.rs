//! Engine configuration.
use vstd::prelude::*;
use crate::strings::owned;

verus! {

/// Configuration of the engine.
#[derive(Debug, Clone)]
pub struct PithConfig {
    /// Root of the zero-byte filesystem (the `src/` directory).
    pub fs_root: String,
    /// Path of the Unix domain socket of the API.
    pub socket_path: String,
    /// Log level filter (`info`, `debug`, `trace`, ...).
    pub log_level: String,
    /// Whether permissions are enforced.
    pub enforce_permissions: bool,
}

impl Default for PithConfig {
    fn default() -> (c: Self)
        ensures
            c.fs_root@ == "../src"@,
            c.socket_path@ == "/tmp/pith.sock"@,
            c.log_level@ == "info"@,
            !c.enforce_permissions,
    {
        PithConfig {
            fs_root: owned("../src"),
            socket_path: owned("/tmp/pith.sock"),
            log_level: owned("info"),
            enforce_permissions: false,
        }
    }
}

} // verus!
