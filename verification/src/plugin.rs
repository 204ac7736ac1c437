//! The plugin: one configuration, one hardware profile, at most one pool
//! session and at most one coordinator behind a start/stop surface.

use crate::config::MiningConfig;
use crate::coordinator::{is_plan, worker_count, MiningCoordinator, WorkAssignment};
use crate::errors::{
    configuration_error,
    coordinator_error,
    ErrorKind,
    MiningResult,
};
use crate::hardware::{profile_of, MiningHardwareProfile, GIB};
use crate::stratum::StratumClient;
use crate::types::{MiningJob, MiningStats, PoolConnection};
use std::sync::Arc;
use vstd::prelude::*;

verus! {

/// A second handle to the coordinator, made by `Arc::clone`: it points to
/// the same coordinator as the first.
#[verifier::external_body]
fn share_coordinator(handle: &Arc<MiningCoordinator>) -> (r: Arc<MiningCoordinator>)
    ensures
        r == *handle,
{
    Arc::clone(handle)
}

/// Main mining plugin interface.
pub struct MiningPlugin {
    config: MiningConfig,
    coordinator: Option<Arc<MiningCoordinator>>,
    stratum_client: Option<StratumClient>,
    hardware_profile: MiningHardwareProfile,
}

impl MiningPlugin {
    /// The current configuration.
    pub closed spec fn spec_config(&self) -> MiningConfig {
        self.config
    }

    /// The coordinator, while mining is active.
    pub closed spec fn coordinator(&self) -> Option<Arc<MiningCoordinator>> {
        self.coordinator
    }

    /// The pool session, while one is held.
    pub closed spec fn client(&self) -> Option<StratumClient> {
        self.stratum_client
    }

    /// The hardware profile.
    pub closed spec fn hardware(&self) -> MiningHardwareProfile {
        self.hardware_profile
    }

    /// The CPU percentage of the configuration is from 1 to 100.
    pub open spec fn wf(&self) -> bool {
        self.spec_config().cpu_percentage_valid()
    }

    /// A plugin with the given configuration, on the hardware profile that is
    /// assumed without a probe. Fails when the CPU percentage is not from 1 to 100.
    pub fn new(config: MiningConfig) -> (r: MiningResult<Self>)
        ensures
            config.cpu_percentage_valid() ==> r is Ok && r->Ok_0.wf() && r->Ok_0.spec_config()
                == config && r->Ok_0.coordinator() is None && r->Ok_0.client() is None
                && r->Ok_0.hardware() == profile_of(4, (8 * GIB) as u64),
            !config.cpu_percentage_valid() ==> r is Err && r->Err_0@ == (
                ErrorKind::Configuration,
                "CPU percentage must be between 1 and 100"@,
            ),
    {
        match MiningHardwareProfile::detect() {
            Ok(profile) => Self::with_hardware(config, profile),
            Err(e) => Err(e),
        }
    }

    /// A plugin with the given configuration on the given hardware profile.
    /// Fails when the CPU percentage is not from 1 to 100. Whether the
    /// hardware can mine is tested when mining starts.
    pub fn with_hardware(config: MiningConfig, hardware_profile: MiningHardwareProfile) -> (r:
        MiningResult<Self>)
        ensures
            config.cpu_percentage_valid() ==> r is Ok && r->Ok_0.wf() && r->Ok_0.spec_config()
                == config && r->Ok_0.coordinator() is None && r->Ok_0.client() is None
                && r->Ok_0.hardware() == hardware_profile,
            !config.cpu_percentage_valid() ==> r is Err && r->Err_0@ == (
                ErrorKind::Configuration,
                "CPU percentage must be between 1 and 100"@,
            ),
    {
        if config.max_cpu_percentage == 0 || config.max_cpu_percentage > 100 {
            return Err(configuration_error("CPU percentage must be between 1 and 100"));
        }
        Ok(MiningPlugin { config, coordinator: None, stratum_client: None, hardware_profile })
    }

    /// The hardware profile.
    pub fn hardware_profile(&self) -> (r: &MiningHardwareProfile)
        ensures
            *r == self.hardware(),
    {
        &self.hardware_profile
    }

    /// The current configuration.
    pub fn config(&self) -> (r: &MiningConfig)
        ensures
            *r == self.spec_config(),
    {
        &self.config
    }

    /// Replaces the configuration. Fails, and changes nothing, when the CPU
    /// percentage is not from 1 to 100.
    pub fn update_config(&mut self, config: MiningConfig) -> (r: MiningResult<()>)
        ensures
            old(self).wf() ==> final(self).wf(),
            final(self).coordinator() == old(self).coordinator(),
            final(self).client() == old(self).client(),
            final(self).hardware() == old(self).hardware(),
            config.cpu_percentage_valid() ==> r is Ok && final(self).spec_config() == config,
            !config.cpu_percentage_valid() ==> r is Err && r->Err_0@ == (
                ErrorKind::Configuration,
                "CPU percentage must be between 1 and 100"@,
            ) && final(self).spec_config() == old(self).spec_config(),
    {
        if config.max_cpu_percentage == 0 || config.max_cpu_percentage > 100 {
            return Err(configuration_error("CPU percentage must be between 1 and 100"));
        }
        self.config = config;
        Ok(())
    }

    /// Opens a session with the configured pool under the configured worker
    /// name. Fails, and changes nothing, when no pool URL is configured.
    pub fn connect_to_pool(&mut self) -> (r: MiningResult<()>)
        ensures
            old(self).wf() ==> final(self).wf(),
            final(self).spec_config() == old(self).spec_config(),
            final(self).coordinator() == old(self).coordinator(),
            final(self).hardware() == old(self).hardware(),
            match old(self).spec_config().pool_url {
                Some(url) => {
                    let config = old(self).spec_config();
                    &&& r is Ok
                    &&& final(self).client() matches Some(client)
                    &&& final(self).client()->0.connected()
                    &&& final(self).client()->0.pool_url() == url@
                    &&& final(self).client()->0.worker_name() == config.worker_name@
                    &&& final(self).client()->0.pending_job() is None
                },
                None => {
                    &&& r is Err
                    &&& r->Err_0@ == (ErrorKind::Configuration, "No pool URL configured"@)
                    &&& final(self).client() == old(self).client()
                },
            },
    {
        match &self.config.pool_url {
            None => Err(configuration_error("No pool URL configured")),
            Some(url) => {
                let mut client = StratumClient::new(url.as_str(), self.config.worker_name.as_str());
                match client.connect() {
                    Ok(()) => {
                        self.stratum_client = Some(client);
                        Ok(())
                    },
                    Err(e) => Err(e),
                }
            },
        }
    }

    /// Closes the pool session, if there is one.
    pub fn disconnect_from_pool(&mut self)
        ensures
            old(self).wf() ==> final(self).wf(),
            final(self).client() is None,
            final(self).spec_config() == old(self).spec_config(),
            final(self).coordinator() == old(self).coordinator(),
            final(self).hardware() == old(self).hardware(),
    {
        self.stratum_client = None;
    }

    /// Hands a job that the pool pushed to the pool session, which keeps only
    /// the newest. Without a session the job is dropped; the result tells
    /// whether there was one.
    pub fn notify(&mut self, job: MiningJob) -> (r: bool)
        ensures
            old(self).wf() ==> final(self).wf(),
            r == old(self).client() is Some,
            final(self).spec_config() == old(self).spec_config(),
            final(self).coordinator() == old(self).coordinator(),
            final(self).hardware() == old(self).hardware(),
            match old(self).client() {
                Some(before) => {
                    &&& final(self).client() is Some
                    &&& final(self).client()->0.pending_job() == Some(job)
                    &&& final(self).client()->0.connection() == before.connection()
                    &&& final(self).client()->0.pool_url() == before.pool_url()
                    &&& final(self).client()->0.worker_name() == before.worker_name()
                },
                None => final(self).client() is None,
            },
    {
        let mut held = self.stratum_client.take();
        let had = match &mut held {
            Some(client) => {
                client.notify(job);
                true
            },
            None => false,
        };
        self.stratum_client = held;
        had
    }

    /// The state of the pool session; disconnected when there is none.
    pub fn pool_connection_state(&self) -> (r: PoolConnection)
        ensures
            match self.client() {
                Some(client) => r == client.connection(),
                None => r is Disconnected,
            },
    {
        match &self.stratum_client {
            Some(client) => client.state().clone(),
            None => PoolConnection::Disconnected,
        }
    }

    /// Starts background mining: makes a coordinator on the plugin's hardware
    /// profile, takes the newest job from a connected pool session and plans
    /// the work of every worker for it. Without a session or without a job
    /// the coordinator is kept idle and the plan is empty.
    ///
    /// Fails, and keeps no coordinator, when mining is already active, when
    /// the hardware is not suitable for mining, or when there is a session
    /// that is not connected.
    pub fn start_background_mining(&mut self) -> (r: MiningResult<Vec<WorkAssignment>>)
        ensures
            old(self).wf() ==> final(self).wf(),
            final(self).spec_config() == old(self).spec_config(),
            final(self).hardware() == old(self).hardware(),
            old(self).coordinator() is Some ==> {
                &&& r is Err
                &&& r->Err_0@ == (ErrorKind::Coordinator, "Mining already active"@)
                &&& final(self).coordinator() == old(self).coordinator()
                &&& final(self).client() == old(self).client()
            },
            old(self).coordinator() is None && !old(self).hardware().suitable() ==> {
                &&& r is Err
                &&& r->Err_0@ == (
                    ErrorKind::HardwareDetection,
                    "Hardware does not meet minimum requirements for mining"@,
                )
                &&& final(self).coordinator() is None
                &&& final(self).client() == old(self).client()
            },
            old(self).coordinator() is None && old(self).hardware().suitable() ==> match old(self).client() {
                None => {
                    &&& r is Ok
                    &&& r->Ok_0@.len() == 0
                    &&& final(self).coordinator() is Some
                    &&& final(self).client() is None
                },
                Some(client) => if !client.connected() {
                    &&& r is Err
                    &&& r->Err_0@ == (ErrorKind::PoolConnection, "Not connected to pool"@)
                    &&& final(self).coordinator() is None
                    &&& final(self).client() == old(self).client()
                } else {
                    &&& final(self).client() is Some
                    &&& final(self).client()->0.pending_job() is None
                    &&& final(self).client()->0.connection() == client.connection()
                    &&& final(self).client()->0.pool_url() == client.pool_url()
                    &&& final(self).client()->0.worker_name() == client.worker_name()
                    &&& match client.pending_job() {
                        None => {
                            &&& r is Ok
                            &&& r->Ok_0@.len() == 0
                            &&& final(self).coordinator() is Some
                        },
                        Some(job) => {
                            &&& r is Ok ==> final(self).coordinator() is Some && is_plan(
                                r->Ok_0@,
                                job,
                                worker_count(
                                    old(self).spec_config(),
                                    old(self).hardware().physical_cores,
                                ),
                            )
                            &&& r is Err ==> final(self).coordinator() is None && r->Err_0@ == (
                                ErrorKind::Coordinator,
                                "Mining already running"@,
                            )
                        },
                    }
                },
            },
    {
        if self.coordinator.is_some() {
            return Err(coordinator_error("Mining already active"));
        }
        let coordinator = match MiningCoordinator::with_hardware(
            self.config.clone(),
            self.hardware_profile,
        ) {
            Ok(c) => c,
            Err(e) => {
                return Err(e);
            },
        };
        let mut plan: Vec<WorkAssignment> = Vec::new();
        let job = match &mut self.stratum_client {
            Some(client) => match client.get_job() {
                Ok(job) => job,
                Err(e) => {
                    return Err(e);
                },
            },
            None => None,
        };
        match job {
            Some(job) => match coordinator.start(job) {
                Ok(p) => {
                    plan = p;
                },
                Err(e) => {
                    return Err(e);
                },
            },
            None => {},
        }
        self.coordinator = Some(Arc::new(coordinator));
        Ok(plan)
    }

    /// A handle to the coordinator for the workers, while mining is active.
    pub fn coordinator_handle(&self) -> (r: Option<Arc<MiningCoordinator>>)
        ensures
            r == self.coordinator(),
    {
        match &self.coordinator {
            Some(c) => Some(share_coordinator(c)),
            None => None,
        }
    }

    /// Stops background mining and lets the coordinator go.
    pub fn stop_background_mining(&mut self)
        ensures
            old(self).wf() ==> final(self).wf(),
            final(self).coordinator() is None,
            final(self).spec_config() == old(self).spec_config(),
            final(self).client() == old(self).client(),
            final(self).hardware() == old(self).hardware(),
    {
        match &self.coordinator {
            Some(c) => {
                c.stop();
            },
            None => {},
        }
        self.coordinator = None;
    }

    /// Whether mining runs. Without a coordinator it does not.
    pub fn is_mining(&self) -> (r: bool)
        ensures
            self.coordinator() is None ==> !r,
    {
        match &self.coordinator {
            Some(c) => c.is_running(),
            None => false,
        }
    }

    /// The counters of the coordinator; all zero without one.
    pub fn stats(&self) -> (r: MiningStats)
        ensures
            self.coordinator() is None ==> r.total_hashes == 0 && r.shares_found == 0,
            r.hashrate == 0,
            r.shares_accepted == 0,
            r.shares_rejected == 0,
            r.difficulty == 0,
            r.estimated_time_to_block is None,
    {
        match &self.coordinator {
            Some(c) => c.stats(),
            None => MiningStats::default(),
        }
    }

    /// Stops mining and closes the pool session.
    pub fn shutdown(&mut self)
        ensures
            old(self).wf() ==> final(self).wf(),
            final(self).coordinator() is None,
            final(self).client() is None,
            final(self).spec_config() == old(self).spec_config(),
            final(self).hardware() == old(self).hardware(),
    {
        self.stop_background_mining();
        self.disconnect_from_pool();
    }
}

} // verus!
