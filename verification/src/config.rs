//! Runtime configuration.
use vstd::prelude::*;

verus! {

/// Minimal configuration for Loki.
#[derive(Debug, Clone, Copy)]
pub struct LokiConfig {
    pub timeout_ms: u64,
}

/// The timeout used when none is configured, in milliseconds.
pub fn default_timeout() -> (r: u64)
    ensures
        r == 5000,
{
    5000
}

impl Default for LokiConfig {
    fn default() -> (r: Self)
        ensures
            r.timeout_ms == 5000,
    {
        LokiConfig { timeout_ms: default_timeout() }
    }
}

} // verus!
