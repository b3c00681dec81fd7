//! Settings of the host metrics sampler.

use vstd::prelude::*;

verus! {

/// Which processor readings to take.
pub struct CpuConfig {
    pub usage: bool,
    pub frequency: bool,
}

impl Default for CpuConfig {
    fn default() -> (r: Self)
        ensures
            r.usage && r.frequency,
    {
        CpuConfig { usage: true, frequency: true }
    }
}

/// Which memory readings to take.
pub struct MemoryConfig {
    pub ram: bool,
    pub swap: bool,
}

impl Default for MemoryConfig {
    fn default() -> (r: Self)
        ensures
            r.ram && r.swap,
    {
        MemoryConfig { ram: true, swap: true }
    }
}

/// The sampler's settings.
pub struct Config {
    /// Interval between two samples, in milliseconds.
    pub interval: Option<u64>,
    pub cpu: CpuConfig,
    pub memory: MemoryConfig,
}

} // verus!
