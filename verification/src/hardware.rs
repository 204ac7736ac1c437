//! Hardware profile consumed by the coordinator.

use crate::errors::MiningResult;
use vstd::prelude::*;

verus! {

/// Bytes in one gibibyte.
pub const GIB: u64 = 1024 * 1024 * 1024;

/// Hardware profile for mining.
#[derive(Debug, Clone, Copy)]
pub struct MiningHardwareProfile {
    /// Number of physical CPU cores.
    pub physical_cores: usize,
    /// Number of logical CPU cores.
    pub logical_cores: usize,
    /// Available system memory in bytes.
    pub available_memory: u64,
    /// CPU supports SHA extensions.
    pub has_sha_extensions: bool,
    /// CPU supports AVX2.
    pub has_avx2: bool,
    /// GPU available for mining.
    pub gpu_available: bool,
    /// GPU compute units, if a GPU is available.
    pub gpu_compute_units: Option<u32>,
    /// Performance tier, 1 (lowest) to 5 (highest).
    pub performance_tier: u8,
}

/// Score of a core count, 1 to 5.
pub open spec fn core_score(cores: usize) -> int {
    if cores <= 2 {
        1
    } else if cores <= 4 {
        2
    } else if cores <= 8 {
        3
    } else if cores <= 16 {
        4
    } else {
        5
    }
}

/// Score of a memory size, 1 to 5, by whole gibibytes.
pub open spec fn memory_score(memory: u64) -> int {
    let gib = memory / GIB;
    if gib <= 4 {
        1
    } else if gib <= 8 {
        2
    } else if gib <= 16 {
        3
    } else if gib <= 32 {
        4
    } else {
        5
    }
}

/// The performance tier: the mean of the two scores, rounded down.
pub open spec fn tier_of(cores: usize, memory: u64) -> int {
    (core_score(cores) + memory_score(memory)) / 2
}

/// The profile that follows from a logical core count and a memory size:
/// half as many physical cores, at least one of each, no special features.
pub open spec fn profile_of(logical_cores: usize, available_memory: u64) -> MiningHardwareProfile {
    MiningHardwareProfile {
        physical_cores: if logical_cores / 2 >= 1 {
            logical_cores / 2
        } else {
            1
        },
        logical_cores: if logical_cores >= 1 {
            logical_cores
        } else {
            1
        },
        available_memory,
        has_sha_extensions: false,
        has_avx2: false,
        gpu_available: false,
        gpu_compute_units: None,
        performance_tier: tier_of(logical_cores, available_memory) as u8,
    }
}

/// The number of threads recommended for `cores` cores at a CPU percentage:
/// that share of the cores rounded down, at least one, at most all of them.
pub open spec fn recommended(cores: usize, max_percentage: u8) -> int {
    let share = (cores * max_percentage) / 100;
    let at_least_one = if share < 1 {
        1
    } else {
        share
    };
    if at_least_one > cores {
        cores as int
    } else {
        at_least_one
    }
}

/// Logical core count assumed when the system is not probed.
pub fn detect_cpu_cores() -> (r: usize)
    ensures
        r == 4,
{
    4
}

/// Memory size assumed when the system is not probed: 8 GiB.
pub fn detect_available_memory() -> (r: u64)
    ensures
        r == 8 * GIB,
{
    8 * GIB
}

impl MiningHardwareProfile {
    /// The conservative profile used without a probe of the system: 4 logical
    /// cores and 8 GiB of memory.
    pub fn detect() -> (r: MiningResult<Self>)
        ensures
            r is Ok,
            r->Ok_0 == profile_of(4, (8 * GIB) as u64),
    {
        Self::detect_basic()
    }

    /// The profile for the assumed core count and memory size.
    pub fn detect_basic() -> (r: MiningResult<Self>)
        ensures
            r is Ok,
            r->Ok_0 == profile_of(4, (8 * GIB) as u64),
    {
        Ok(Self::from_probe(detect_cpu_cores(), detect_available_memory()))
    }

    /// The profile for a probed logical core count and memory size.
    pub fn from_probe(logical_cores: usize, available_memory: u64) -> (r: Self)
        ensures
            r == profile_of(logical_cores, available_memory),
    {
        let physical: usize = logical_cores / 2;
        MiningHardwareProfile {
            physical_cores: if physical >= 1 {
                physical
            } else {
                1
            },
            logical_cores: if logical_cores >= 1 {
                logical_cores
            } else {
                1
            },
            available_memory,
            has_sha_extensions: false,
            has_avx2: false,
            gpu_available: false,
            gpu_compute_units: None,
            performance_tier: Self::calculate_tier(logical_cores, available_memory),
        }
    }

    /// The performance tier for a core count and a memory size.
    pub fn calculate_tier(cores: usize, memory: u64) -> (r: u8)
        ensures
            r == tier_of(cores, memory),
            1 <= r <= 5,
    {
        let core_score: u8 = if cores <= 2 {
            1
        } else if cores <= 4 {
            2
        } else if cores <= 8 {
            3
        } else if cores <= 16 {
            4
        } else {
            5
        };
        let mem_gb: u64 = memory / GIB;
        let mem_score: u8 = if mem_gb <= 4 {
            1
        } else if mem_gb <= 8 {
            2
        } else if mem_gb <= 16 {
            3
        } else if mem_gb <= 32 {
            4
        } else {
            5
        };
        (core_score + mem_score) / 2
    }

    /// Number of physical CPU cores.
    pub fn physical_cores(&self) -> (r: usize)
        ensures
            r == self.physical_cores,
    {
        self.physical_cores
    }

    /// Number of logical CPU cores.
    pub fn logical_cores(&self) -> (r: usize)
        ensures
            r == self.logical_cores,
    {
        self.logical_cores
    }

    /// Whether the hardware can mine: at least two physical cores and 2 GiB of memory.
    pub open spec fn suitable(&self) -> bool {
        self.physical_cores >= 2 && self.available_memory >= 2 * GIB
    }

    /// Whether the hardware can mine: at least two physical cores and 2 GiB of memory.
    pub fn is_suitable_for_mining(&self) -> (r: bool)
        ensures
            r == self.suitable(),
    {
        self.physical_cores >= 2 && self.available_memory >= 2 * GIB
    }

    /// The number of threads recommended at a maximum CPU percentage.
    pub fn recommended_threads(&self, max_percentage: u8) -> (r: usize)
        ensures
            r == recommended(self.physical_cores, max_percentage),
    {
        proof {
            vstd::arithmetic::mul::lemma_mul_upper_bound(
                self.physical_cores as int,
                usize::MAX as int,
                max_percentage as int,
                255,
            );
        }
        let product: u128 = (self.physical_cores as u128) * (max_percentage as u128);
        let share: u128 = product / 100;
        let at_least_one: u128 = if share < 1 {
            1
        } else {
            share
        };
        if at_least_one > self.physical_cores as u128 {
            self.physical_cores
        } else {
            at_least_one as usize
        }
    }
}

impl Default for MiningHardwareProfile {
    fn default() -> (r: Self)
        ensures
            r == profile_of(4, (8 * GIB) as u64),
    {
        Self::from_probe(detect_cpu_cores(), detect_available_memory())
    }
}

} // verus!
