//! Proof-of-work mining coordination for chains of the Bitcoin family:
//! double SHA-256 search over partitioned nonce ranges, pool management with
//! failover, hash-rate monitoring and reward distribution.
//!
//! The library is written in Verus: its functions carry contracts over
//! mathematical models of its types, and Verus proves them.
//!
//! Clocks, threads and locks stay with the caller. Functions that stamp time
//! take the time as an argument, in nanoseconds on the caller's monotonic
//! clock, and shared state is owned by whoever holds the value; only the
//! coordinator shares its flag and counters between threads.
//!
//! Every quantity is an integer or an exact fraction: rates are whole hashes
//! per second, difficulties whole numbers of a unit that the caller chooses
//! (rewards go by their proportions alone), amounts satoshis, fees and
//! thresholds basis points, decay factors parts per million.

pub mod arith;
pub mod config;
pub mod coordinator;
pub mod errors;
pub mod flexforge;
pub mod hardware;
pub mod hash_rate_monitor;
pub mod number;
pub mod plugin;
pub mod pool_management;
pub mod ratio;
pub mod reward_distribution;
pub mod reward_map;
pub mod sha256;
pub mod stratum;
pub mod text;
pub mod traits;
pub mod types;

pub use config::MiningConfig;
pub use coordinator::MiningCoordinator;
pub use errors::{MiningError, MiningResult};
pub use flexforge::{MiningDisplayStats, MiningPluginFlexForge, MiningUiConfig};
pub use hardware::MiningHardwareProfile;
pub use plugin::MiningPlugin;
pub use stratum::{parse_stratum_url, StratumClient};
pub use types::{BlockHeader, HashTarget, MiningJob, MiningStats, Nonce, PoolConnection};
