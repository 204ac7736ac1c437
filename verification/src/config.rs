//! Configuration of a mining run.

use vstd::prelude::*;
use vstd::string::*;

verus! {

/// Configuration of the mining plugin.
#[derive(Debug)]
pub struct MiningConfig {
    /// Maximum CPU usage in percent (1 to 100).
    pub max_cpu_percentage: u8,
    /// Run mining at background priority.
    pub background_priority: bool,
    /// Number of mining threads (0 = derive it from the CPU percentage).
    pub thread_count: usize,
    /// Pool URL for the stratum connection.
    pub pool_url: Option<String>,
    /// Worker name for the pool.
    pub worker_name: String,
    /// Enable GPU mining if available.
    pub gpu_enabled: bool,
    /// Minimum hash rate in hashes per second before pausing (0 = no minimum).
    pub min_hashrate: u64,
    /// Pause automatically when the system is busy.
    pub auto_pause_on_load: bool,
    /// CPU temperature threshold for throttling, in degrees Celsius.
    pub thermal_throttle_temp: Option<u8>,
}

/// The number of worker threads for the given settings and core count: an
/// explicit count clamped to the cores, else the share of the cores that the
/// CPU percentage allows, rounded up and at least one.
pub open spec fn effective_threads(thread_count: usize, max_cpu_percentage: u8, cores: usize) -> int {
    if thread_count > 0 {
        if thread_count <= cores {
            thread_count as int
        } else {
            cores as int
        }
    } else {
        let share = (cores * max_cpu_percentage + 99) / 100;
        if share < 1 {
            1
        } else if share > usize::MAX {
            usize::MAX as int
        } else {
            share
        }
    }
}

impl Clone for MiningConfig {
    fn clone(&self) -> (r: Self)
        ensures
            r == *self,
    {
        MiningConfig {
            max_cpu_percentage: self.max_cpu_percentage,
            background_priority: self.background_priority,
            thread_count: self.thread_count,
            pool_url: match &self.pool_url {
                Some(url) => Some(url.clone()),
                None => None,
            },
            worker_name: self.worker_name.clone(),
            gpu_enabled: self.gpu_enabled,
            min_hashrate: self.min_hashrate,
            auto_pause_on_load: self.auto_pause_on_load,
            thermal_throttle_temp: self.thermal_throttle_temp,
        }
    }
}

impl Default for MiningConfig {
    fn default() -> (r: Self)
        ensures
            r.max_cpu_percentage == 25,
            r.background_priority,
            r.thread_count == 0,
            r.pool_url is None,
            r.worker_name@ == "essentia_worker"@,
            !r.gpu_enabled,
            r.min_hashrate == 0,
            r.auto_pause_on_load,
            r.thermal_throttle_temp == Some(80u8),
    {
        MiningConfig {
            max_cpu_percentage: 25,
            background_priority: true,
            thread_count: 0,
            pool_url: None,
            worker_name: String::from_str("essentia_worker"),
            gpu_enabled: false,
            min_hashrate: 0,
            auto_pause_on_load: true,
            thermal_throttle_temp: Some(80),
        }
    }
}

impl MiningConfig {
    /// A configuration with the default values.
    pub fn new() -> (r: Self)
        ensures
            r.max_cpu_percentage == 25,
            r.background_priority,
            r.thread_count == 0,
            r.pool_url is None,
            r.worker_name@ == "essentia_worker"@,
            !r.gpu_enabled,
            r.min_hashrate == 0,
            r.auto_pause_on_load,
            r.thermal_throttle_temp == Some(80u8),
    {
        MiningConfig::default()
    }

    /// Whether the CPU percentage lies in the accepted range, 1 to 100.
    pub open spec fn cpu_percentage_valid(&self) -> bool {
        1 <= self.max_cpu_percentage <= 100
    }

    /// Sets the maximum CPU usage, capped at 100 percent.
    pub fn with_max_cpu_usage(self, percentage: u8) -> (r: Self)
        ensures
            r == (MiningConfig {
                max_cpu_percentage: if percentage > 100 {
                    100u8
                } else {
                    percentage
                },
                ..self
            }),
    {
        let capped: u8 = if percentage > 100 {
            100
        } else {
            percentage
        };
        MiningConfig { max_cpu_percentage: capped, ..self }
    }

    /// Sets background priority mode.
    pub fn with_background_priority(self, enabled: bool) -> (r: Self)
        ensures
            r == (MiningConfig { background_priority: enabled, ..self }),
    {
        MiningConfig { background_priority: enabled, ..self }
    }

    /// Sets an explicit thread count (0 = derive it from the CPU percentage).
    pub fn with_thread_count(self, count: usize) -> (r: Self)
        ensures
            r == (MiningConfig { thread_count: count, ..self }),
    {
        MiningConfig { thread_count: count, ..self }
    }

    /// Sets the pool URL.
    pub fn with_pool_url(self, url: &str) -> (r: Self)
        ensures
            r.pool_url is Some,
            r.pool_url->0@ == url@,
            r.max_cpu_percentage == self.max_cpu_percentage,
            r.background_priority == self.background_priority,
            r.thread_count == self.thread_count,
            r.worker_name == self.worker_name,
            r.gpu_enabled == self.gpu_enabled,
            r.min_hashrate == self.min_hashrate,
            r.auto_pause_on_load == self.auto_pause_on_load,
            r.thermal_throttle_temp == self.thermal_throttle_temp,
    {
        MiningConfig { pool_url: Some(String::from_str(url)), ..self }
    }

    /// Sets the worker name.
    pub fn with_worker_name(self, name: &str) -> (r: Self)
        ensures
            r.worker_name@ == name@,
            r.max_cpu_percentage == self.max_cpu_percentage,
            r.background_priority == self.background_priority,
            r.thread_count == self.thread_count,
            r.pool_url == self.pool_url,
            r.gpu_enabled == self.gpu_enabled,
            r.min_hashrate == self.min_hashrate,
            r.auto_pause_on_load == self.auto_pause_on_load,
            r.thermal_throttle_temp == self.thermal_throttle_temp,
    {
        MiningConfig { worker_name: String::from_str(name), ..self }
    }

    /// Enables or disables GPU mining.
    pub fn with_gpu_enabled(self, enabled: bool) -> (r: Self)
        ensures
            r == (MiningConfig { gpu_enabled: enabled, ..self }),
    {
        MiningConfig { gpu_enabled: enabled, ..self }
    }

    /// The number of worker threads to run on `available_cores` cores. It is at
    /// least one whenever there is at least one core.
    pub fn effective_thread_count(&self, available_cores: usize) -> (r: usize)
        ensures
            r == effective_threads(self.thread_count, self.max_cpu_percentage, available_cores),
            available_cores >= 1 ==> r >= 1,
    {
        if self.thread_count > 0 {
            if self.thread_count <= available_cores {
                self.thread_count
            } else {
                available_cores
            }
        } else {
            proof {
                vstd::arithmetic::mul::lemma_mul_upper_bound(
                    available_cores as int,
                    usize::MAX as int,
                    self.max_cpu_percentage as int,
                    255,
                );
            }
            let product: u128 = (available_cores as u128) * (self.max_cpu_percentage as u128);
            let share: u128 = (product + 99) / 100;
            if share < 1 {
                1
            } else if share > usize::MAX as u128 {
                usize::MAX
            } else {
                share as usize
            }
        }
    }
}

} // verus!
