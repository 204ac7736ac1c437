//! The interfaces of the mining subsystems, for callers that want to stand
//! in their own hardware profile, coordinator or pool client.

use crate::coordinator::{is_plan, worker_count, MiningCoordinator, WorkAssignment};
use crate::errors::{ErrorKind, MiningResult};
use crate::hardware::MiningHardwareProfile;
use crate::stratum::StratumClient;
use crate::types::{MiningJob, MiningStats, PoolConnection};
use vstd::prelude::*;

verus! {

/// Hardware detection and profiling.
pub trait MiningHardwareTrait: Send + Sync {
    /// Number of physical CPU cores.
    fn physical_cores(&self) -> usize;

    /// Number of logical CPU cores.
    fn logical_cores(&self) -> usize;

    /// Whether the hardware is suitable for mining.
    fn is_suitable_for_mining(&self) -> bool;

    /// The thread count recommended at a maximum CPU percentage.
    fn recommended_threads(&self, max_percentage: u8) -> usize;
}

/// Mining coordination.
pub trait MiningCoordinatorTrait: Send + Sync {
    /// Marks mining as running and plans the work for the given job.
    fn start(&self, job: MiningJob) -> MiningResult<Vec<WorkAssignment>>;

    /// Asks all workers to stop.
    fn stop(&self);

    /// Whether mining is marked as running.
    fn is_running(&self) -> bool;

    /// The current mining statistics.
    fn stats(&self) -> MiningStats;
}

/// Pool client.
pub trait PoolClientTrait: Send + Sync {
    /// Connects to the mining pool.
    fn connect(&mut self) -> MiningResult<()>;

    /// Disconnects from the pool.
    fn disconnect(&mut self);

    /// The current connection state.
    fn state(&self) -> &PoolConnection;

    /// Whether the client is connected.
    fn is_connected(&self) -> bool;

    /// Takes the newest job from the pool.
    fn get_job(&mut self) -> MiningResult<Option<MiningJob>>;

    /// Submits a share to the pool.
    fn submit_share(&self, job_id: &str, extranonce2: &[u8], ntime: u32, nonce: u32) -> MiningResult<
        bool,
    >;
}

impl MiningHardwareTrait for MiningHardwareProfile {
    fn physical_cores(&self) -> (r: usize)
        ensures
            r == self.physical_cores,
    {
        self.physical_cores
    }

    fn logical_cores(&self) -> (r: usize)
        ensures
            r == self.logical_cores,
    {
        self.logical_cores
    }

    fn is_suitable_for_mining(&self) -> (r: bool)
        ensures
            r == self.suitable(),
    {
        MiningHardwareProfile::is_suitable_for_mining(self)
    }

    fn recommended_threads(&self, max_percentage: u8) -> (r: usize)
        ensures
            r == crate::hardware::recommended(self.physical_cores, max_percentage),
    {
        MiningHardwareProfile::recommended_threads(self, max_percentage)
    }
}

impl MiningCoordinatorTrait for MiningCoordinator {
    fn start(&self, job: MiningJob) -> (r: MiningResult<Vec<WorkAssignment>>)
        ensures
            r is Ok ==> is_plan(
                r->Ok_0@,
                job,
                worker_count(self.config(), self.hardware().physical_cores),
            ),
            r is Err ==> r->Err_0@ == (ErrorKind::Coordinator, "Mining already running"@),
    {
        MiningCoordinator::start(self, job)
    }

    fn stop(&self) {
        MiningCoordinator::stop(self)
    }

    fn is_running(&self) -> bool {
        MiningCoordinator::is_running(self)
    }

    fn stats(&self) -> (r: MiningStats)
        ensures
            r.hashrate == 0,
            r.shares_accepted == 0,
            r.shares_rejected == 0,
            r.difficulty == 0,
            r.estimated_time_to_block is None,
    {
        MiningCoordinator::stats(self)
    }
}

impl PoolClientTrait for StratumClient {
    fn connect(&mut self) -> (r: MiningResult<()>)
        ensures
            r is Ok,
            final(self).connection() matches PoolConnection::Connected { url, worker } && url@
                == old(self).pool_url() && worker@ == old(self).worker_name(),
            final(self).pool_url() == old(self).pool_url(),
            final(self).worker_name() == old(self).worker_name(),
            final(self).pending_job() == old(self).pending_job(),
            final(self).spec_extranonce1() == old(self).spec_extranonce1(),
            final(self).spec_extranonce2_size() == old(self).spec_extranonce2_size(),
    {
        StratumClient::connect(self)
    }

    fn disconnect(&mut self)
        ensures
            final(self).connection() is Disconnected,
            final(self).pool_url() == old(self).pool_url(),
            final(self).worker_name() == old(self).worker_name(),
            final(self).pending_job() == old(self).pending_job(),
            final(self).spec_extranonce1() == old(self).spec_extranonce1(),
            final(self).spec_extranonce2_size() == old(self).spec_extranonce2_size(),
    {
        StratumClient::disconnect(self)
    }

    fn state(&self) -> (r: &PoolConnection)
        ensures
            *r == self.connection(),
    {
        StratumClient::state(self)
    }

    fn is_connected(&self) -> (r: bool)
        ensures
            r == self.connected(),
    {
        StratumClient::is_connected(self)
    }

    fn get_job(&mut self) -> (r: MiningResult<Option<MiningJob>>)
        ensures
            old(self).connected() ==> r is Ok && r->Ok_0 == old(self).pending_job(),
            old(self).connected() ==> final(self).pending_job() is None,
            !old(self).connected() ==> r is Err && r->Err_0@ == (
                ErrorKind::PoolConnection,
                "Not connected to pool"@,
            ) && final(self).pending_job() == old(self).pending_job(),
            final(self).connection() == old(self).connection(),
            final(self).pool_url() == old(self).pool_url(),
            final(self).worker_name() == old(self).worker_name(),
            final(self).spec_extranonce1() == old(self).spec_extranonce1(),
            final(self).spec_extranonce2_size() == old(self).spec_extranonce2_size(),
    {
        StratumClient::get_job(self)
    }

    fn submit_share(&self, job_id: &str, extranonce2: &[u8], ntime: u32, nonce: u32) -> (r:
        MiningResult<bool>)
        ensures
            self.connected() ==> r == Ok::<bool, crate::errors::MiningError>(true),
            !self.connected() ==> r is Err && r->Err_0@ == (
                ErrorKind::PoolConnection,
                "Not connected to pool"@,
            ),
    {
        StratumClient::submit_share(self, job_id, extranonce2, ntime, nonce)
    }
}

} // verus!
