//! The proof-of-work search: nonce partitioning, the worker loop and the
//! coordinator that hands out work.

use crate::config::{effective_threads, MiningConfig};
use crate::errors::{coordinator_error, hardware_error, ErrorKind, MiningResult};
use crate::hardware::{profile_of, MiningHardwareProfile, GIB};
use crate::sha256::{double_sha256, double_sha256_of};
use crate::types::{header_bytes, meets_target, BlockHeader, HashTarget, MiningJob, MiningStats};
use std::sync::atomic::{AtomicBool, AtomicU64, Ordering};
use vstd::prelude::*;

verus! {

/// Hashes a worker counts locally before it adds them to the shared total.
pub const HASH_BATCH: u64 = 1000;

/// An inclusive range of nonces.
#[derive(Debug, Clone, Copy, PartialEq, Eq, Structural)]
pub struct NonceRange {
    /// First nonce of the range.
    pub start: u32,
    /// Last nonce of the range.
    pub end: u32,
}

/// The width of every partition but the last: the nonce space divided by the
/// number of workers, rounded down.
pub open spec fn partition_width(threads: int) -> int {
    u32::MAX as int / threads
}

/// First nonce of worker `i` among `threads` workers.
pub open spec fn partition_start(threads: int, i: int) -> int {
    i * partition_width(threads)
}

/// Last nonce of worker `i` among `threads` workers: the last worker's range
/// runs to the end of the nonce space.
pub open spec fn partition_end(threads: int, i: int) -> int {
    if i == threads - 1 {
        u32::MAX as int
    } else {
        i * partition_width(threads) + partition_width(threads) - 1
    }
}

/// Whether `ranges` are the partitions of the nonce space for `threads` workers.
pub open spec fn is_partition(ranges: Seq<NonceRange>, threads: int) -> bool {
    &&& ranges.len() == threads
    &&& forall|i: int|
        0 <= i < threads ==> (#[trigger] ranges[i]).start == partition_start(threads, i)
            && ranges[i].end == partition_end(threads, i)
}

/// The worker whose partition holds `nonce`.
pub open spec fn partition_owner(threads: int, nonce: int) -> int {
    let i = nonce / partition_width(threads);
    if i < threads - 1 {
        i
    } else {
        threads - 1
    }
}

proof fn lemma_partition_bounds(threads: int, i: int)
    requires
        1 <= threads <= u32::MAX,
        0 <= i < threads,
    ensures
        partition_width(threads) >= 1,
        0 <= partition_start(threads, i) <= partition_end(threads, i) <= u32::MAX,
        i + 1 < threads ==> partition_end(threads, i) + 1 == partition_start(threads, i + 1),
        partition_start(threads, i) + partition_width(threads) <= u32::MAX,
{
    let max = u32::MAX as int;
    let w = max / threads;
    assert(w >= 1 && w * threads <= max && (i + 1) * w <= threads * w && i * w >= 0 && (i + 1) * w
        == i * w + w) by (nonlinear_arith)
        requires
            1 <= threads <= max,
            0 <= i < threads,
            w == max / threads,
    ;
}

/// Every nonce lies in the partition of exactly one worker: the partitions are
/// disjoint and together cover the whole nonce space.
pub proof fn lemma_partition_disjoint_cover(threads: int, nonce: int)
    requires
        1 <= threads <= u32::MAX,
        0 <= nonce <= u32::MAX,
    ensures
        0 <= partition_owner(threads, nonce) < threads,
        forall|i: int|
            0 <= i < threads ==> ((partition_start(threads, i) <= nonce <= #[trigger] partition_end(
                threads,
                i,
            )) <==> i == partition_owner(threads, nonce)),
{
    let max = u32::MAX as int;
    let w = partition_width(threads);
    let q = nonce / w;
    lemma_partition_bounds(threads, 0);
    assert(q * w <= nonce < (q + 1) * w && q >= 0) by (nonlinear_arith)
        requires
            w >= 1,
            nonce >= 0,
            q == nonce / w,
    ;
    assert forall|i: int| 0 <= i < threads implies ((partition_start(threads, i) <= nonce
        <= #[trigger] partition_end(threads, i)) <==> i == partition_owner(threads, nonce)) by {
        lemma_partition_bounds(threads, i);
        assert((i < q ==> (i + 1) * w <= q * w) && (q < i ==> (q + 1) * w <= i * w) && (i + 1) * w
            == i * w + w) by (nonlinear_arith)
            requires
                w >= 1,
        ;
    }
}

/// The partitions of the nonce space for `threads` workers.
pub fn nonce_partition(threads: u32) -> (r: Vec<NonceRange>)
    requires
        threads >= 1,
    ensures
        is_partition(r@, threads as int),
{
    let width: u32 = u32::MAX / threads;
    let mut ranges: Vec<NonceRange> = Vec::new();
    let mut i: u32 = 0;
    while i < threads
        invariant
            i <= threads,
            threads >= 1,
            width == partition_width(threads as int),
            ranges@.len() == i,
            forall|j: int|
                0 <= j < i ==> (#[trigger] ranges@[j]).start == partition_start(threads as int, j)
                    && ranges@[j].end == partition_end(threads as int, j),
        decreases threads - i,
    {
        proof {
            lemma_partition_bounds(threads as int, i as int);
        }
        let start: u32 = i * width;
        let end: u32 = if i == threads - 1 {
            u32::MAX
        } else {
            start + width - 1
        };
        ranges.push(NonceRange { start, end });
        i += 1;
    }
    ranges
}

/// Whether the header with the given nonce hashes to a value that meets the target.
pub open spec fn nonce_is_valid(header: BlockHeader, target: HashTarget, nonce: u32) -> bool {
    meets_target(double_sha256_of(header_bytes(BlockHeader { nonce, ..header })), target.target@)
}

/// The number of valid nonces among the `count` nonces that start at `from`.
pub open spec fn valid_count(header: BlockHeader, target: HashTarget, from: u32, count: nat) -> nat
    decreases count,
{
    if count == 0 {
        0
    } else {
        valid_count(header, target, from, (count - 1) as nat) + if nonce_is_valid(
            header,
            target,
            (from + count - 1) as u32,
        ) {
            1nat
        } else {
            0nat
        }
    }
}

/// The number of valid nonces among the first `hashes` nonces from `from` on.
pub open spec fn shares_among(header: BlockHeader, target: HashTarget, from: u32, hashes: u64) -> nat {
    valid_count(header, target, from, hashes as nat)
}

/// The number of nonces in an inclusive range; none if the end lies before the start.
pub open spec fn range_len(start: u32, end: u32) -> int {
    if start <= end {
        end - start + 1
    } else {
        0
    }
}

/// Hashes the header with the given nonce and tests the result against the target.
pub fn check_nonce(header: BlockHeader, target: &HashTarget, nonce: u32) -> (r: bool)
    ensures
        r == nonce_is_valid(header, *target, nonce),
{
    let candidate = BlockHeader { nonce, ..header };
    let serialized = candidate.serialize();
    let hash = double_sha256(&serialized);
    target.is_valid_hash(&hash)
}

/// What one worker did: how many nonces it hashed and how many of them were valid.
#[derive(Debug, Clone, Copy, PartialEq, Eq, Structural)]
pub struct WorkerReport {
    /// Nonces hashed, counted from the start of the range.
    pub hashes: u64,
    /// Valid hashes among them.
    pub shares: u64,
}

/// One worker and its inclusive nonce range for a job.
#[derive(Debug, Clone, Copy)]
pub struct WorkAssignment {
    /// Header template of the job.
    pub header: BlockHeader,
    /// Target of the job.
    pub target: HashTarget,
    /// The worker's nonces.
    pub range: NonceRange,
}

/// Whether `plan` assigns the partitions for `threads` workers, in order, each
/// with the job's header and target.
pub open spec fn is_plan(plan: Seq<WorkAssignment>, job: MiningJob, threads: int) -> bool {
    &&& plan.len() == threads
    &&& forall|i: int|
        0 <= i < threads ==> {
            &&& (#[trigger] plan[i]).header == job.header
            &&& plan[i].target == job.target
            &&& plan[i].range.start == partition_start(threads, i)
            &&& plan[i].range.end == partition_end(threads, i)
        }
}

/// The number of workers on `cores` cores, at most one per nonce partition
/// that can be told apart.
pub open spec fn worker_count(config: MiningConfig, cores: usize) -> int {
    let wanted = effective_threads(config.thread_count, config.max_cpu_percentage, cores);
    if wanted > u32::MAX {
        u32::MAX as int
    } else {
        wanted
    }
}

fn clamp_to_u32(n: usize) -> (r: u32)
    ensures
        r == if n > u32::MAX {
            u32::MAX as int
        } else {
            n as int
        },
{
    if n > u32::MAX as usize {
        u32::MAX
    } else {
        n as u32
    }
}

/// Decides a start request: refuses it when mining already runs, else plans
/// the work of every worker.
pub fn plan_start(already_running: bool, job: &MiningJob, threads: u32) -> (r: MiningResult<
    Vec<WorkAssignment>,
>)
    requires
        threads >= 1,
    ensures
        already_running ==> r is Err && r->Err_0@ == (
            ErrorKind::Coordinator,
            "Mining already running"@,
        ),
        !already_running ==> r is Ok && is_plan(r->Ok_0@, *job, threads as int),
{
    if already_running {
        return Err(coordinator_error("Mining already running"));
    }
    let ranges = nonce_partition(threads);
    let mut plan: Vec<WorkAssignment> = Vec::new();
    let mut i: usize = 0;
    while i < ranges.len()
        invariant
            i <= ranges.len(),
            is_partition(ranges@, threads as int),
            plan@.len() == i,
            forall|j: int|
                0 <= j < i ==> {
                    &&& (#[trigger] plan@[j]).header == job.header
                    &&& plan@[j].target == job.target
                    &&& plan@[j].range == ranges@[j]
                },
        decreases ranges.len() - i,
    {
        plan.push(WorkAssignment { header: job.header, target: job.target, range: ranges[i] });
        i += 1;
    }
    Ok(plan)
}

/// Coordinator of the mining workers: it hands out the work and holds the
/// counters that the workers share.
pub struct MiningCoordinator {
    config: MiningConfig,
    hardware: MiningHardwareProfile,
    running: AtomicBool,
    total_hashes: AtomicU64,
    shares_found: AtomicU64,
}

impl MiningCoordinator {
    /// The coordinator's hardware is suitable for mining.
    #[verifier::type_invariant]
    spec fn hardware_is_suitable(&self) -> bool {
        self.hardware.suitable()
    }

    /// The configuration the coordinator was made with.
    pub closed spec fn config(&self) -> MiningConfig {
        self.config
    }

    /// The hardware the coordinator runs on.
    pub closed spec fn hardware(&self) -> MiningHardwareProfile {
        self.hardware
    }

    /// A coordinator on the hardware profile that is assumed without a probe.
    pub fn new(config: MiningConfig) -> (r: MiningResult<Self>)
        ensures
            r is Ok,
            r->Ok_0.config() == config,
            r->Ok_0.hardware() == profile_of(4, (8 * GIB) as u64),
    {
        match MiningHardwareProfile::detect() {
            Ok(hardware) => Self::with_hardware(config, hardware),
            Err(e) => Err(e),
        }
    }

    /// A coordinator on the given hardware, which must be suitable for mining.
    pub fn with_hardware(config: MiningConfig, hardware: MiningHardwareProfile) -> (r: MiningResult<
        Self,
    >)
        ensures
            hardware.suitable() ==> r is Ok && r->Ok_0.config() == config && r->Ok_0.hardware()
                == hardware,
            !hardware.suitable() ==> r is Err && r->Err_0@ == (
                ErrorKind::HardwareDetection,
                "Hardware does not meet minimum requirements for mining"@,
            ),
    {
        if !hardware.is_suitable_for_mining() {
            return Err(
                hardware_error("Hardware does not meet minimum requirements for mining"),
            );
        }
        Ok(
            MiningCoordinator {
                config,
                hardware,
                running: AtomicBool::new(false),
                total_hashes: AtomicU64::new(0),
                shares_found: AtomicU64::new(0),
            },
        )
    }

    /// The number of workers that a start hands work to.
    pub fn thread_count(&self) -> (r: u32)
        ensures
            r == worker_count(self.config(), self.hardware().physical_cores),
            r >= 1,
            self.hardware().suitable(),
    {
        proof {
            use_type_invariant(self);
        }
        clamp_to_u32(self.config.effective_thread_count(self.hardware.physical_cores))
    }

    /// Marks mining as running and plans the work of every worker for `job`.
    /// Whether it succeeds depends on the running flag alone, which other
    /// threads share: if mining already runs it fails, and otherwise the plan
    /// holds the partitions of the nonce space, one for each worker.
    pub fn start(&self, job: MiningJob) -> (r: MiningResult<Vec<WorkAssignment>>)
        ensures
            r is Ok ==> is_plan(
                r->Ok_0@,
                job,
                worker_count(self.config(), self.hardware().physical_cores),
            ),
            r is Err ==> r->Err_0@ == (ErrorKind::Coordinator, "Mining already running"@),
    {
        let already_running = self.running.swap(true, Ordering::SeqCst);
        plan_start(already_running, &job, self.thread_count())
    }

    /// Asks every worker to stop at its next nonce.
    pub fn stop(&self) {
        self.running.store(false, Ordering::SeqCst);
    }

    /// Whether mining is marked as running.
    pub fn is_running(&self) -> bool {
        self.running.load(Ordering::SeqCst)
    }

    /// The shared counters as they stand; every other statistic is zero.
    pub fn stats(&self) -> (r: MiningStats)
        ensures
            r.hashrate == 0,
            r.shares_accepted == 0,
            r.shares_rejected == 0,
            r.difficulty == 0,
            r.estimated_time_to_block is None,
    {
        MiningStats {
            total_hashes: self.total_hashes.load(Ordering::Relaxed),
            hashrate: 0,
            shares_found: self.shares_found.load(Ordering::Relaxed),
            shares_accepted: 0,
            shares_rejected: 0,
            difficulty: 0,
            estimated_time_to_block: None,
        }
    }

    /// Runs one worker on its assignment until the range is exhausted or
    /// mining is stopped, and reports what it did. Each valid hash is added to
    /// the shared share counter at once, the hashes to the shared total in
    /// batches. On an empty range it does nothing.
    pub fn run_worker(&self, work: WorkAssignment) -> (r: WorkerReport)
        ensures
            r.hashes <= range_len(work.range.start, work.range.end),
            r.shares == shares_among(work.header, work.target, work.range.start, r.hashes),
    {
        Self::mining_thread(
            &self.running,
            &self.total_hashes,
            &self.shares_found,
            work.header,
            work.target,
            work.range.start,
            work.range.end,
        )
    }

    /// The worker loop over the inclusive nonce range from `start_nonce` to
    /// `end_nonce`. While `running` is set it hashes the header with the next
    /// nonce and counts the hash; a hash that meets the target also counts as
    /// a share. On an empty range it returns at once, with nothing counted.
    pub fn mining_thread(
        running: &AtomicBool,
        total_hashes: &AtomicU64,
        shares_found: &AtomicU64,
        header: BlockHeader,
        target: HashTarget,
        start_nonce: u32,
        end_nonce: u32,
    ) -> (r: WorkerReport)
        ensures
            r.hashes <= range_len(start_nonce, end_nonce),
            r.shares == shares_among(header, target, start_nonce, r.hashes),
    {
        if start_nonce > end_nonce {
            return WorkerReport { hashes: 0, shares: 0 };
        }
        let mut progress = WorkerProgress {
            nonce: start_nonce,
            batch_count: 0,
            report: WorkerReport { hashes: 0, shares: 0 },
            more: true,
        };
        let mut stopped: bool = false;
        while progress.more && !stopped
            invariant
                progress_fits(progress, header, target, start_nonce, end_nonce),
            decreases
                    end_nonce - progress.nonce + if progress.more && !stopped {
                        1int
                    } else {
                        0int
                    },
        {
            let reading = running.load(Ordering::Relaxed);
            match worker_step(reading, progress, header, &target, start_nonce, end_nonce) {
                Some(step) => {
                    if step.share_found {
                        shares_found.fetch_add(1, Ordering::Relaxed);
                    }
                    if step.flushed > 0 {
                        total_hashes.fetch_add(step.flushed, Ordering::Relaxed);
                    }
                    progress = step.progress;
                },
                None => {
                    stopped = true;
                },
            }
        }
        if progress.batch_count > 0 {
            total_hashes.fetch_add(progress.batch_count, Ordering::Relaxed);
        }
        progress.report
    }
}

/// How far a worker has come in its range.
#[derive(Debug, Clone, Copy, PartialEq, Eq, Structural)]
pub struct WorkerProgress {
    /// The next nonce to hash, while nonces are left; else the last of the range.
    pub nonce: u32,
    /// Hashes counted since the last addition to the shared total.
    pub batch_count: u64,
    /// What the worker did so far.
    pub report: WorkerReport,
    /// Whether nonces of the range are left.
    pub more: bool,
}

/// One step of a worker: where it stands afterwards, and what it hands to
/// the shared counters.
#[derive(Debug, Clone, Copy, PartialEq, Eq, Structural)]
pub struct WorkerStep {
    /// The progress after the step.
    pub progress: WorkerProgress,
    /// Whether the hash of the step met the target: one more share.
    pub share_found: bool,
    /// The hashes to add to the shared total: a full batch, or nothing.
    pub flushed: u64,
}

/// Whether a progress fits the range from `start_nonce` to `end_nonce`: the
/// hashes counted are the nonces before the next one, or the whole range once
/// it is exhausted; the shares are the valid ones among them; and the batch
/// is short of a full one.
pub open spec fn progress_fits(
    progress: WorkerProgress,
    header: BlockHeader,
    target: HashTarget,
    start_nonce: u32,
    end_nonce: u32,
) -> bool {
    &&& start_nonce <= progress.nonce <= end_nonce
    &&& progress.more ==> progress.report.hashes == progress.nonce - start_nonce
    &&& !progress.more ==> progress.report.hashes == range_len(start_nonce, end_nonce)
    &&& progress.report.shares == shares_among(header, target, start_nonce, progress.report.hashes)
    &&& progress.report.shares <= progress.report.hashes
    &&& progress.batch_count <= progress.report.hashes
    &&& progress.batch_count < HASH_BATCH
}

/// The step that a running worker takes from `progress`: it hashes the header
/// with the next nonce and counts the hash, as a share too if it meets the
/// target; a batch that has become full goes to the shared total; and the
/// nonce moves on by one, unless it was the last of the range.
pub open spec fn step_from(
    progress: WorkerProgress,
    header: BlockHeader,
    target: HashTarget,
    end_nonce: u32,
) -> WorkerStep {
    let valid = nonce_is_valid(header, target, progress.nonce);
    let batch = progress.batch_count + 1;
    WorkerStep {
        progress: WorkerProgress {
            nonce: if progress.nonce == end_nonce {
                end_nonce
            } else {
                (progress.nonce + 1) as u32
            },
            batch_count: if batch >= HASH_BATCH {
                0
            } else {
                batch as u64
            },
            report: WorkerReport {
                hashes: (progress.report.hashes + 1) as u64,
                shares: if valid {
                    (progress.report.shares + 1) as u64
                } else {
                    progress.report.shares
                },
            },
            more: progress.nonce != end_nonce,
        },
        share_found: valid,
        flushed: if batch >= HASH_BATCH {
            batch as u64
        } else {
            0
        },
    }
}

/// Decides what a worker does after a reading of the running flag. With the
/// flag clear, or with no nonce left, it stops. Otherwise it takes one step.
pub fn worker_step(
    running: bool,
    progress: WorkerProgress,
    header: BlockHeader,
    target: &HashTarget,
    start_nonce: u32,
    end_nonce: u32,
) -> (r: Option<WorkerStep>)
    requires
        progress_fits(progress, header, *target, start_nonce, end_nonce),
    ensures
        r is Some <==> running && progress.more,
        r is Some ==> r->0 == step_from(progress, header, *target, end_nonce),
        r is Some ==> progress_fits(r->0.progress, header, *target, start_nonce, end_nonce),
{
    if !running || !progress.more {
        return None;
    }
    let share_found = check_nonce(header, target, progress.nonce);
    let shares: u64 = if share_found {
        progress.report.shares + 1
    } else {
        progress.report.shares
    };
    let hashes: u64 = progress.report.hashes + 1;
    let batch: u64 = progress.batch_count + 1;
    let flushed: u64 = if batch >= HASH_BATCH {
        batch
    } else {
        0
    };
    let last = progress.nonce == end_nonce;
    let nonce: u32 = if last {
        end_nonce
    } else {
        progress.nonce + 1
    };
    Some(
        WorkerStep {
            progress: WorkerProgress {
                nonce,
                batch_count: if batch >= HASH_BATCH {
                    0
                } else {
                    batch
                },
                report: WorkerReport { hashes, shares },
                more: !last,
            },
            share_found,
            flushed,
        },
    )
}

} // verus!
