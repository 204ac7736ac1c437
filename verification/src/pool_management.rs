//! Multi-pool registry: pool states, priority-ordered selection, failover and
//! health checks.

use crate::errors::{configuration_error, pool_connection_error, ErrorKind, MiningResult};
use crate::ratio::{fraction, fraction_of, lemma_exceeds_at_least, Ratio};
use crate::text::{decimal, join, render_decimal, str_eq};
use crate::types::{Nanos, Timestamp, NANOS_PER_SEC};
use vstd::prelude::*;
use vstd::string::*;

verus! {

/// Pool priority level. Primary ranks before Backup, Backup before Emergency.
#[derive(Debug, Clone, Copy, PartialEq, Eq, PartialOrd, Ord, Structural)]
pub enum PoolPriority {
    /// Primary pool, used first.
    Primary,
    /// Backup pool, used when the primary fails.
    Backup,
    /// Emergency pool, the last resort.
    Emergency,
}

impl PoolPriority {
    /// The position of the priority in the order of use, from 0.
    pub open spec fn spec_rank(self) -> int {
        match self {
            PoolPriority::Primary => 0,
            PoolPriority::Backup => 1,
            PoolPriority::Emergency => 2,
        }
    }

    /// The position of the priority in the order of use, from 0.
    pub fn rank(&self) -> (r: u8)
        ensures
            r == self.spec_rank(),
    {
        match self {
            PoolPriority::Primary => 0,
            PoolPriority::Backup => 1,
            PoolPriority::Emergency => 2,
        }
    }
}

/// Pool configuration.
#[derive(Debug)]
pub struct PoolConfig {
    /// Pool identifier.
    pub id: String,
    /// Pool URL.
    pub url: String,
    /// Worker name.
    pub worker: String,
    /// Worker password.
    pub password: Option<String>,
    /// Pool priority.
    pub priority: PoolPriority,
    /// Connection timeout.
    pub connect_timeout: Nanos,
    /// Keep-alive interval.
    pub keepalive_interval: Nanos,
    /// Maximum retries before failover.
    pub max_retries: u32,
    /// Delay between retries.
    pub retry_delay: Nanos,
    /// Pool fee in basis points: hundredths of a percent.
    pub fee_basis_points: u32,
}

impl Clone for PoolConfig {
    fn clone(&self) -> (r: Self)
        ensures
            r == *self,
    {
        PoolConfig {
            id: self.id.clone(),
            url: self.url.clone(),
            worker: self.worker.clone(),
            password: match &self.password {
                Some(p) => Some(p.clone()),
                None => None,
            },
            priority: self.priority,
            connect_timeout: self.connect_timeout,
            keepalive_interval: self.keepalive_interval,
            max_retries: self.max_retries,
            retry_delay: self.retry_delay,
            fee_basis_points: self.fee_basis_points,
        }
    }
}

impl Default for PoolConfig {
    fn default() -> (r: Self)
        ensures
            r.id@ == "default"@,
            r.url@ == "stratum+tcp://localhost:3333"@,
            r.worker@ == "worker1"@,
            r.password is None,
            r.priority == PoolPriority::Primary,
            r.connect_timeout == 30 * NANOS_PER_SEC,
            r.keepalive_interval == 30 * NANOS_PER_SEC,
            r.max_retries == 3,
            r.retry_delay == 5 * NANOS_PER_SEC,
            r.fee_basis_points == 100,
    {
        PoolConfig {
            id: String::from_str("default"),
            url: String::from_str("stratum+tcp://localhost:3333"),
            worker: String::from_str("worker1"),
            password: None,
            priority: PoolPriority::Primary,
            connect_timeout: 30 * NANOS_PER_SEC,
            keepalive_interval: 30 * NANOS_PER_SEC,
            max_retries: 3,
            retry_delay: 5 * NANOS_PER_SEC,
            fee_basis_points: 100,
        }
    }
}

/// Pool status.
#[derive(Debug, PartialEq, Eq)]
pub enum PoolStatus {
    /// Disconnected.
    Disconnected,
    /// Connecting.
    Connecting,
    /// Connected and ready.
    Connected,
    /// Subscribed to the pool.
    Subscribed,
    /// Authorized and mining.
    Authorized,
    /// Connection failed.
    Failed { reason: String },
    /// Temporarily disabled.
    Disabled { reason: String },
}

impl Clone for PoolStatus {
    fn clone(&self) -> (r: Self)
        ensures
            r == *self,
    {
        match self {
            PoolStatus::Disconnected => PoolStatus::Disconnected,
            PoolStatus::Connecting => PoolStatus::Connecting,
            PoolStatus::Connected => PoolStatus::Connected,
            PoolStatus::Subscribed => PoolStatus::Subscribed,
            PoolStatus::Authorized => PoolStatus::Authorized,
            PoolStatus::Failed { reason } => PoolStatus::Failed { reason: reason.clone() },
            PoolStatus::Disabled { reason } => PoolStatus::Disabled { reason: reason.clone() },
        }
    }
}

impl PoolStatus {
    /// Whether a pool in this status may be selected: it has neither failed
    /// nor been disabled.
    pub open spec fn selectable(self) -> bool {
        !(self is Failed) && !(self is Disabled)
    }

    /// Whether a pool in this status holds a connection.
    pub open spec fn online(self) -> bool {
        self is Connected || self is Subscribed || self is Authorized
    }

    /// Whether a pool in this status may be selected.
    pub fn is_selectable(&self) -> (r: bool)
        ensures
            r == self.selectable(),
    {
        match self {
            PoolStatus::Failed { .. } => false,
            PoolStatus::Disabled { .. } => false,
            _ => true,
        }
    }

    /// Whether a pool in this status holds a connection.
    pub fn is_online(&self) -> (r: bool)
        ensures
            r == self.online(),
    {
        match self {
            PoolStatus::Connected => true,
            PoolStatus::Subscribed => true,
            PoolStatus::Authorized => true,
            _ => false,
        }
    }
}

/// State of one pool.
#[derive(Debug)]
pub struct PoolState {
    /// Pool configuration.
    pub config: PoolConfig,
    /// Current status.
    pub status: PoolStatus,
    /// Connection attempts.
    pub connection_attempts: u32,
    /// Successful connections.
    pub successful_connections: u32,
    /// Shares submitted.
    pub shares_submitted: u64,
    /// Shares accepted.
    pub shares_accepted: u64,
    /// Shares rejected.
    pub shares_rejected: u64,
    /// Time of the last connection.
    pub last_connected: Option<Timestamp>,
    /// Time of the last share.
    pub last_share: Option<Timestamp>,
    /// Connection latency in milliseconds.
    pub latency_ms: Option<u64>,
}

impl Clone for PoolState {
    fn clone(&self) -> (r: Self)
        ensures
            r == *self,
    {
        PoolState {
            config: self.config.clone(),
            status: self.status.clone(),
            connection_attempts: self.connection_attempts,
            successful_connections: self.successful_connections,
            shares_submitted: self.shares_submitted,
            shares_accepted: self.shares_accepted,
            shares_rejected: self.shares_rejected,
            last_connected: self.last_connected,
            last_share: self.last_share,
            latency_ms: self.latency_ms,
        }
    }
}

/// The state of a pool that was never connected and has no shares.
pub open spec fn fresh_state(config: PoolConfig) -> PoolState {
    PoolState {
        config,
        status: PoolStatus::Disconnected,
        connection_attempts: 0,
        successful_connections: 0,
        shares_submitted: 0,
        shares_accepted: 0,
        shares_rejected: 0,
        last_connected: None,
        last_share: None,
        latency_ms: None,
    }
}

impl PoolState {
    /// No more shares are accepted or rejected than were submitted; the
    /// difference is the stale shares.
    pub open spec fn consistent(&self) -> bool {
        self.shares_accepted + self.shares_rejected <= self.shares_submitted
    }

    /// Accepted shares per submitted share; one while nothing was submitted.
    pub open spec fn acceptance(&self) -> Ratio {
        fraction(self.shares_accepted, self.shares_submitted, 1)
    }

    /// A new pool state: disconnected, all counters zero.
    pub fn new(config: PoolConfig) -> (r: Self)
        ensures
            r == fresh_state(config),
            r.consistent(),
    {
        PoolState {
            config,
            status: PoolStatus::Disconnected,
            connection_attempts: 0,
            successful_connections: 0,
            shares_submitted: 0,
            shares_accepted: 0,
            shares_rejected: 0,
            last_connected: None,
            last_share: None,
            latency_ms: None,
        }
    }

    /// Accepted shares per submitted share; one while nothing was submitted.
    pub fn acceptance_rate(&self) -> (r: Ratio)
        ensures
            r == self.acceptance(),
            self.consistent() ==> r.within_unit(),
    {
        fraction_of(self.shares_accepted, self.shares_submitted, 1)
    }

    /// Rejected shares per submitted share; zero while nothing was submitted.
    pub fn rejection_rate(&self) -> (r: Ratio)
        ensures
            r == fraction(self.shares_rejected, self.shares_submitted, 0),
            self.consistent() ==> r.within_unit(),
    {
        fraction_of(self.shares_rejected, self.shares_submitted, 0)
    }

    /// Shares neither accepted nor rejected per submitted share; zero while
    /// nothing was submitted.
    pub fn stale_rate(&self) -> (r: Ratio)
        requires
            self.consistent(),
        ensures
            r == fraction(
                (self.shares_submitted - (self.shares_accepted + self.shares_rejected)) as u64,
                self.shares_submitted,
                0,
            ),
            r.within_unit(),
    {
        let accounted: u64 = self.shares_accepted + self.shares_rejected;
        fraction_of(self.shares_submitted - accounted, self.shares_submitted, 0)
    }
}

/// Pool manager configuration.
#[derive(Debug, Clone, Copy)]
pub struct PoolManagerConfig {
    /// Enable automatic failover.
    pub auto_failover: bool,
    /// Failover timeout.
    pub failover_timeout: Nanos,
    /// Health check interval.
    pub health_check_interval: Nanos,
    /// Maximum number of pools.
    pub max_pools: usize,
    /// Minimum acceptance rate of a healthy pool, in basis points.
    pub min_acceptance_basis_points: u32,
}

impl Default for PoolManagerConfig {
    fn default() -> (r: Self)
        ensures
            r == (PoolManagerConfig {
                auto_failover: true,
                failover_timeout: (30 * NANOS_PER_SEC) as u64,
                health_check_interval: (60 * NANOS_PER_SEC) as u64,
                max_pools: 10,
                min_acceptance_basis_points: 9500,
            }),
    {
        PoolManagerConfig {
            auto_failover: true,
            failover_timeout: 30 * NANOS_PER_SEC,
            health_check_interval: 60 * NANOS_PER_SEC,
            max_pools: 10,
            min_acceptance_basis_points: 9500,
        }
    }
}

/// Failover event record.
#[derive(Debug)]
pub struct FailoverEvent {
    /// When the failover occurred.
    pub timestamp: Timestamp,
    /// Previous pool.
    pub from_pool: Option<String>,
    /// New pool.
    pub to_pool: String,
    /// Reason for the failover.
    pub reason: String,
}

impl Clone for FailoverEvent {
    fn clone(&self) -> (r: Self)
        ensures
            r == *self,
    {
        FailoverEvent {
            timestamp: self.timestamp,
            from_pool: match &self.from_pool {
                Some(p) => Some(p.clone()),
                None => None,
            },
            to_pool: self.to_pool.clone(),
            reason: self.reason.clone(),
        }
    }
}

/// Health check result.
#[derive(Debug)]
pub struct HealthCheckResult {
    /// Healthy pool ids.
    pub healthy_pools: Vec<String>,
    /// Unhealthy pool ids.
    pub unhealthy_pools: Vec<String>,
    /// When the check was performed.
    pub checked_at: Timestamp,
}

fn clone_ids(ids: &Vec<String>) -> (r: Vec<String>)
    ensures
        r@ == ids@,
{
    let mut out: Vec<String> = Vec::new();
    let mut i: usize = 0;
    while i < ids.len()
        invariant
            i <= ids@.len(),
            out@ == ids@.subrange(0, i as int),
        decreases ids@.len() - i,
    {
        out.push(ids[i].clone());
        assert(ids@.subrange(0, i + 1) =~= ids@.subrange(0, i as int).push(ids@[i as int]));
        i += 1;
    }
    assert(ids@.subrange(0, ids@.len() as int) =~= ids@);
    out
}

impl Clone for HealthCheckResult {
    fn clone(&self) -> (r: Self)
        ensures
            r.healthy_pools@ == self.healthy_pools@,
            r.unhealthy_pools@ == self.unhealthy_pools@,
            r.checked_at == self.checked_at,
    {
        HealthCheckResult {
            healthy_pools: clone_ids(&self.healthy_pools),
            unhealthy_pools: clone_ids(&self.unhealthy_pools),
            checked_at: self.checked_at,
        }
    }
}

/// Aggregate statistics across pools.
#[derive(Debug, Clone, Copy)]
pub struct AggregatePoolStats {
    /// Total pools.
    pub pools_count: usize,
    /// Pools that hold a connection.
    pub connected_pools: usize,
    /// Total shares submitted.
    pub total_shares_submitted: u128,
    /// Total shares accepted.
    pub total_shares_accepted: u128,
    /// Total shares rejected.
    pub total_shares_rejected: u128,
    /// Accepted per submitted share over all pools; zero while nothing was submitted.
    pub overall_acceptance_rate: Ratio,
}

impl Default for AggregatePoolStats {
    fn default() -> (r: Self)
        ensures
            r == (AggregatePoolStats {
                pools_count: 0,
                connected_pools: 0,
                total_shares_submitted: 0,
                total_shares_accepted: 0,
                total_shares_rejected: 0,
                overall_acceptance_rate: Ratio { numerator: 0, denominator: 1 },
            }),
    {
        AggregatePoolStats {
            pools_count: 0,
            connected_pools: 0,
            total_shares_submitted: 0,
            total_shares_accepted: 0,
            total_shares_rejected: 0,
            overall_acceptance_rate: Ratio { numerator: 0, denominator: 1 },
        }
    }
}

// ---------------------------------------------------------------------------
// The registry as a sequence of pool states
// ---------------------------------------------------------------------------

/// Whether a pool with the given id is registered.
pub open spec fn has_pool(pools: Seq<PoolState>, id: Seq<char>) -> bool {
    exists|i: int| 0 <= i < pools.len() && (#[trigger] pools[i]).config.id@ == id
}

/// The position of the pool with the given id.
pub open spec fn index_of(pools: Seq<PoolState>, id: Seq<char>) -> int {
    choose|i: int| 0 <= i < pools.len() && (#[trigger] pools[i]).config.id@ == id
}

/// No two pools share an id.
pub open spec fn unique_ids(pools: Seq<PoolState>) -> bool {
    forall|i: int, j: int|
        0 <= i < j < pools.len() ==> (#[trigger] pools[i]).config.id@ != (
        #[trigger] pools[j]).config.id@
}

/// Whether pool `a` comes before pool `b` in the order of selection: by
/// priority first, then by the higher acceptance rate.
pub open spec fn better(a: PoolState, b: PoolState) -> bool {
    a.config.priority.spec_rank() < b.config.priority.spec_rank() || (
    a.config.priority.spec_rank() == b.config.priority.spec_rank() && a.acceptance().exceeds(
        b.acceptance(),
    ))
}

/// Whether position `i` holds the pool that selection picks: a selectable
/// pool that no selectable pool comes before in the order of selection, and
/// the earliest registered among such pools.
pub open spec fn is_best(pools: Seq<PoolState>, i: int) -> bool {
    &&& 0 <= i < pools.len()
    &&& pools[i].status.selectable()
    &&& forall|j: int|
        0 <= j < pools.len() && (#[trigger] pools[j]).status.selectable() ==> !better(
            pools[j],
            pools[i],
        ) && (j < i ==> better(pools[i], pools[j]))
}

/// The position of the pool that selection picks, if any pool is selectable.
pub open spec fn best_index(pools: Seq<PoolState>) -> Option<int> {
    if exists|i: int| is_best(pools, i) {
        Some(choose|i: int| is_best(pools, i))
    } else {
        None
    }
}

/// Whether a pool is healthy: its acceptance rate reaches the minimum and it
/// has neither failed nor been disabled.
pub open spec fn healthy(pool: PoolState, min_basis_points: u32) -> bool {
    pool.acceptance().at_least_basis_points(min_basis_points) && pool.status.selectable()
}

/// The ids of the pools whose health is `wanted`, in the order of the registry.
pub open spec fn ids_by_health(pools: Seq<PoolState>, min_basis_points: u32, wanted: bool) -> Seq<
    Seq<char>,
>
    decreases pools.len(),
{
    if pools.len() == 0 {
        Seq::empty()
    } else {
        let rest = ids_by_health(pools.drop_last(), min_basis_points, wanted);
        if healthy(pools.last(), min_basis_points) == wanted {
            rest.push(pools.last().config.id@)
        } else {
            rest
        }
    }
}

/// A health check sorts every pool into exactly one of the two lists.
pub proof fn lemma_health_partitions(pools: Seq<PoolState>, min_basis_points: u32)
    ensures
        ids_by_health(pools, min_basis_points, true).len() + ids_by_health(
            pools,
            min_basis_points,
            false,
        ).len() == pools.len(),
    decreases pools.len(),
{
    if pools.len() > 0 {
        lemma_health_partitions(pools.drop_last(), min_basis_points);
    }
}

/// The characters of each string of a sequence.
pub open spec fn views(ids: Seq<String>) -> Seq<Seq<char>> {
    ids.map_values(|s: String| s@)
}

/// The sum of one counter over the pools.
pub open spec fn total_submitted(pools: Seq<PoolState>) -> nat
    decreases pools.len(),
{
    if pools.len() == 0 {
        0
    } else {
        total_submitted(pools.drop_last()) + pools.last().shares_submitted as nat
    }
}

/// The sum of the accepted shares over the pools.
pub open spec fn total_accepted(pools: Seq<PoolState>) -> nat
    decreases pools.len(),
{
    if pools.len() == 0 {
        0
    } else {
        total_accepted(pools.drop_last()) + pools.last().shares_accepted as nat
    }
}

/// The sum of the rejected shares over the pools.
pub open spec fn total_rejected(pools: Seq<PoolState>) -> nat
    decreases pools.len(),
{
    if pools.len() == 0 {
        0
    } else {
        total_rejected(pools.drop_last()) + pools.last().shares_rejected as nat
    }
}

/// The number of pools that hold a connection.
pub open spec fn online_count(pools: Seq<PoolState>) -> nat
    decreases pools.len(),
{
    if pools.len() == 0 {
        0
    } else {
        online_count(pools.drop_last()) + if pools.last().status.online() {
            1nat
        } else {
            0nat
        }
    }
}

/// With unique ids, the position of an id is the one place that holds it.
pub proof fn lemma_index_of(pools: Seq<PoolState>, i: int)
    requires
        unique_ids(pools),
        0 <= i < pools.len(),
    ensures
        has_pool(pools, pools[i].config.id@),
        index_of(pools, pools[i].config.id@) == i,
{
    let id = pools[i].config.id@;
    let k = index_of(pools, id);
    if k < i {
        assert(pools[k].config.id@ != pools[i].config.id@);
    } else if i < k {
        assert(pools[i].config.id@ != pools[k].config.id@);
    }
}

/// In every state of a manager, no pool has more accepted and rejected
/// shares together than submitted ones.
pub proof fn lemma_shares_within_submitted(manager: PoolManager, i: int)
    requires
        manager.wf(),
        0 <= i < manager.pools().len(),
    ensures
        manager.pools()[i].shares_accepted + manager.pools()[i].shares_rejected
            <= manager.pools()[i].shares_submitted,
        manager.pools()[i].acceptance().within_unit(),
{
    assert(manager.pools()[i].consistent());
}

/// At most one position holds the pool that selection picks.
pub proof fn lemma_best_unique(pools: Seq<PoolState>, i: int, k: int)
    requires
        is_best(pools, i),
        is_best(pools, k),
    ensures
        i == k,
{
    if i < k {
        assert(pools[i].status.selectable());
        assert(better(pools[k], pools[i]));
    } else if k < i {
        assert(pools[k].status.selectable());
        assert(better(pools[i], pools[k]));
    }
}

/// Selection picks no pool only when no pool is selectable.
pub proof fn lemma_best_exists(pools: Seq<PoolState>, i: int)
    requires
        best_index(pools) is None,
        0 <= i < pools.len(),
    ensures
        !pools[i].status.selectable(),
{
    if pools[i].status.selectable() {
        let b = lemma_best_of_prefix(pools, pools.len() as int);
        assert(is_best(pools, b));
    }
}

/// Among the first `n` pools, if one is selectable, some position is best
/// with respect to those `n`.
proof fn lemma_best_of_prefix(pools: Seq<PoolState>, n: int) -> (b: int)
    requires
        0 <= n <= pools.len(),
        exists|i: int| 0 <= i < n && (#[trigger] pools[i]).status.selectable(),
    ensures
        0 <= b < n,
        pools[b].status.selectable(),
        forall|j: int|
            0 <= j < n && (#[trigger] pools[j]).status.selectable() ==> !better(pools[j], pools[b])
                && (j < b ==> better(pools[b], pools[j])),
    decreases n,
{
    let last = n - 1;
    if exists|i: int| 0 <= i < last && (#[trigger] pools[i]).status.selectable() {
        let prev = lemma_best_of_prefix(pools, last);
        if pools[last].status.selectable() && better(pools[last], pools[prev]) {
            assert forall|j: int| 0 <= j < n && (#[trigger] pools[j]).status.selectable() implies !better(
                pools[j],
                pools[last],
            ) && (j < last ==> better(pools[last], pools[j])) by {
                if j < last {
                    lemma_better_chain(pools[last], pools[prev], pools[j]);
                }
            }
            last
        } else {
            prev
        }
    } else {
        last
    }
}

/// If `a` comes before `b` and `c` does not come before `b`, then `a` comes
/// before `c` and `c` does not come before `a`.
pub proof fn lemma_better_chain(a: PoolState, b: PoolState, c: PoolState)
    requires
        better(a, b),
        !better(c, b),
    ensures
        better(a, c),
        !better(c, a),
{
    let (ra, rb, rc) = (a.acceptance(), b.acceptance(), c.acceptance());
    if a.config.priority.spec_rank() == b.config.priority.spec_rank()
        && c.config.priority.spec_rank() == b.config.priority.spec_rank() {
        assert(rb.at_least(rc));
        lemma_exceeds_at_least(ra, rb, rc);
    }
}

fn find_pool(pools: &Vec<PoolState>, pool_id: &str) -> (r: Option<usize>)
    ensures
        match r {
            Some(i) => i < pools@.len() && pools@[i as int].config.id@ == pool_id@,
            None => !has_pool(pools@, pool_id@),
        },
{
    let mut i: usize = 0;
    while i < pools.len()
        invariant
            i <= pools@.len(),
            forall|j: int| 0 <= j < i ==> (#[trigger] pools@[j]).config.id@ != pool_id@,
        decreases pools@.len() - i,
    {
        if str_eq(pools[i].config.id.as_str(), pool_id) {
            return Some(i);
        }
        i += 1;
    }
    None
}

fn outranks(a: &PoolState, b: &PoolState) -> (r: bool)
    ensures
        r == better(*a, *b),
{
    let rank_a = a.config.priority.rank();
    let rank_b = b.config.priority.rank();
    if rank_a < rank_b {
        true
    } else if rank_a > rank_b {
        false
    } else {
        let x = a.acceptance_rate();
        let y = b.acceptance_rate();
        proof {
            vstd::arithmetic::mul::lemma_mul_upper_bound(
                x.numerator as int,
                u64::MAX as int,
                y.denominator as int,
                u64::MAX as int,
            );
            vstd::arithmetic::mul::lemma_mul_upper_bound(
                y.numerator as int,
                u64::MAX as int,
                x.denominator as int,
                u64::MAX as int,
            );
        }
        x.numerator * y.denominator > y.numerator * x.denominator
    }
}

fn is_healthy(pool: &PoolState, min_basis_points: u32) -> (r: bool)
    ensures
        r == healthy(*pool, min_basis_points),
{
    let rate = pool.acceptance_rate();
    proof {
        vstd::arithmetic::mul::lemma_mul_upper_bound(
            min_basis_points as int,
            u32::MAX as int,
            rate.denominator as int,
            u64::MAX as int,
        );
    }
    rate.numerator * 10000 >= (min_basis_points as u128) * rate.denominator
        && pool.status.is_selectable()
}

fn best_pool(pools: &Vec<PoolState>) -> (r: Option<usize>)
    ensures
        match r {
            Some(b) => is_best(pools@, b as int) && best_index(pools@) == Some(b as int),
            None => best_index(pools@) is None,
        },
{
    let mut best: Option<usize> = None;
    let mut i: usize = 0;
    while i < pools.len()
        invariant
            i <= pools@.len(),
            match best {
                Some(b) => b < i && pools@[b as int].status.selectable() && forall|j: int|
                    0 <= j < i && (#[trigger] pools@[j]).status.selectable() ==> !better(
                        pools@[j],
                        pools@[b as int],
                    ) && (j < b ==> better(pools@[b as int], pools@[j])),
                None => forall|j: int| 0 <= j < i ==> !(#[trigger] pools@[j]).status.selectable(),
            },
        decreases pools@.len() - i,
    {
        if pools[i].status.is_selectable() {
            match best {
                None => {
                    best = Some(i);
                },
                Some(b) => {
                    if outranks(&pools[i], &pools[b]) {
                        assert forall|j: int|
                            0 <= j < i + 1 && (#[trigger] pools@[j]).status.selectable() implies !better(
                            pools@[j],
                            pools@[i as int],
                        ) && (j < i ==> better(pools@[i as int], pools@[j])) by {
                            if j < i {
                                lemma_better_chain(pools@[i as int], pools@[b as int], pools@[j]);
                            }
                        }
                        best = Some(i);
                    }
                },
            }
        }
        i += 1;
    }
    proof {
        match best {
            Some(b) => {
                assert(is_best(pools@, b as int));
                let k = choose|k: int| is_best(pools@, k);
                lemma_best_unique(pools@, b as int, k);
            },
            None => {
                assert forall|k: int| !is_best(pools@, k) by {
                    if is_best(pools@, k) {
                        assert(pools@[k].status.selectable());
                    }
                }
            },
        }
    }
    best
}


/// The text of the error for an unknown pool.
pub open spec fn pool_not_found(id: Seq<char>) -> Seq<char> {
    "Pool not found: "@ + id
}

/// The text of the error for a full registry.
pub open spec fn registry_full(max_pools: usize) -> Seq<char> {
    "Maximum number of pools ("@ + decimal(max_pools as nat) + ") exceeded"@
}

/// Whether `after` is `before` with another status and nothing else changed.
pub open spec fn only_status_differs(before: PoolState, after: PoolState) -> bool {
    after == (PoolState { status: after.status, ..before })
}

/// Whether `after` is `before` with the pool `active`, if there is one, marked
/// as failed for `reason`, and every other pool as it was.
pub open spec fn marked_failed(
    before: Seq<PoolState>,
    active: Option<String>,
    reason: Seq<char>,
    after: Seq<PoolState>,
) -> bool {
    &&& after.len() == before.len()
    &&& forall|j: int|
        0 <= j < before.len() ==> if active is Some && (#[trigger] before[j]).config.id@
            == active->0@ {
            &&& only_status_differs(before[j], after[j])
            &&& after[j].status matches PoolStatus::Failed { reason: r } && r@ == reason
        } else {
            after[j] == before[j]
        }
}

/// The state of a pool after one more share, submitted at `now`.
pub open spec fn with_share(before: PoolState, accepted: bool, now: Timestamp) -> PoolState {
    PoolState {
        shares_submitted: (before.shares_submitted + 1) as u64,
        shares_accepted: if accepted {
            (before.shares_accepted + 1) as u64
        } else {
            before.shares_accepted
        },
        shares_rejected: if accepted {
            before.shares_rejected
        } else {
            (before.shares_rejected + 1) as u64
        },
        last_share: Some(now),
        ..before
    }
}

/// Pool manager for multi-pool support.
#[derive(Debug)]
pub struct PoolManager {
    config: PoolManagerConfig,
    pools: Vec<PoolState>,
    active_pool: Option<String>,
    failover_history: Vec<FailoverEvent>,
}

impl PoolManager {
    /// The settings of the manager.
    pub closed spec fn settings(&self) -> PoolManagerConfig {
        self.config
    }

    /// The registered pools, in the order of their registration.
    pub closed spec fn pools(&self) -> Seq<PoolState> {
        self.pools@
    }

    /// The id of the active pool.
    pub closed spec fn active(&self) -> Option<String> {
        self.active_pool
    }

    /// The failover events, oldest first.
    pub closed spec fn history(&self) -> Seq<FailoverEvent> {
        self.failover_history@
    }

    /// The ids are unique, every pool's counters are consistent, and the
    /// active pool is registered.
    pub open spec fn wf(&self) -> bool {
        &&& unique_ids(self.pools())
        &&& forall|i: int| 0 <= i < self.pools().len() ==> (#[trigger] self.pools()[i]).consistent()
        &&& self.active() matches Some(a) ==> has_pool(self.pools(), a@)
    }

    /// A manager without pools.
    pub fn new(config: PoolManagerConfig) -> (r: Self)
        ensures
            r.wf(),
            r.settings() == config,
            r.pools() == Seq::<PoolState>::empty(),
            r.active() is None,
            r.history() == Seq::<FailoverEvent>::empty(),
    {
        PoolManager {
            config,
            pools: Vec::new(),
            active_pool: None,
            failover_history: Vec::new(),
        }
    }

    /// Registers a pool in its fresh state; a pool with the same id is
    /// replaced in its place. Fails, and changes nothing, when the registry
    /// already holds the maximum number of pools.
    pub fn add_pool(&mut self, config: PoolConfig) -> (r: MiningResult<()>)
        requires
            old(self).wf(),
        ensures
            final(self).wf(),
            final(self).settings() == old(self).settings(),
            final(self).active() == old(self).active(),
            final(self).history() == old(self).history(),
            old(self).pools().len() >= old(self).settings().max_pools ==> {
                &&& r is Err
                &&& r->Err_0@ == (
                    ErrorKind::Configuration,
                    registry_full(old(self).settings().max_pools),
                )
                &&& final(self).pools() == old(self).pools()
            },
            old(self).pools().len() < old(self).settings().max_pools ==> {
                let before = old(self).pools();
                &&& r is Ok
                &&& final(self).pools() == if has_pool(before, config.id@) {
                    before.update(index_of(before, config.id@), fresh_state(config))
                } else {
                    before.push(fresh_state(config))
                }
            },
    {
        if self.pools.len() >= self.config.max_pools {
            let count = render_decimal(self.config.max_pools as u128);
            let mut message = join("Maximum number of pools (", count.as_str());
            message.append(") exceeded");
            return Err(configuration_error(message.as_str()));
        }
        let ghost before = self.pools@;
        match find_pool(&self.pools, config.id.as_str()) {
            Some(i) => {
                proof {
                    lemma_index_of(before, i as int);
                }
                self.pools[i] = PoolState::new(config);
                assert forall|a: Seq<char>| has_pool(before, a) implies has_pool(self.pools@, a) by {
                    let k = index_of(before, a);
                    assert(self.pools@[k].config.id@ == a);
                }
            },
            None => {
                self.pools.push(PoolState::new(config));
                assert forall|a: Seq<char>| has_pool(before, a) implies has_pool(self.pools@, a) by {
                    let k = index_of(before, a);
                    assert(self.pools@[k].config.id@ == a);
                }
            },
        }
        Ok(())
    }

    /// Removes a pool; if it was the active pool, no pool is active
    /// afterwards. Fails, and changes nothing, when no such pool is registered.
    pub fn remove_pool(&mut self, pool_id: &str) -> (r: MiningResult<()>)
        requires
            old(self).wf(),
        ensures
            final(self).wf(),
            final(self).settings() == old(self).settings(),
            final(self).history() == old(self).history(),
            !has_pool(old(self).pools(), pool_id@) ==> {
                &&& r is Err
                &&& r->Err_0@ == (ErrorKind::PoolConnection, pool_not_found(pool_id@))
                &&& final(self).pools() == old(self).pools()
                &&& final(self).active() == old(self).active()
            },
            has_pool(old(self).pools(), pool_id@) ==> {
                let before = old(self).pools();
                let active = old(self).active();
                &&& r is Ok
                &&& final(self).pools() == before.remove(index_of(before, pool_id@))
                &&& final(self).active() == if active is Some && active->0@ == pool_id@ {
                    None
                } else {
                    active
                }
            },
    {
        let ghost before = self.pools@;
        match find_pool(&self.pools, pool_id) {
            None => Err(pool_connection_error(join("Pool not found: ", pool_id).as_str())),
            Some(i) => {
                proof {
                    lemma_index_of(before, i as int);
                }
                self.pools.remove(i);
                let was_active = match &self.active_pool {
                    Some(a) => str_eq(a.as_str(), pool_id),
                    None => false,
                };
                if was_active {
                    self.active_pool = None;
                }
                proof {
                    let after = self.pools@;
                    assert forall|x: int, y: int| 0 <= x < y < after.len() implies (
                    #[trigger] after[x]).config.id@ != (#[trigger] after[y]).config.id@ by {
                        let bx = if x < i {
                            x
                        } else {
                            x + 1
                        };
                        let by = if y < i {
                            y
                        } else {
                            y + 1
                        };
                        assert(after[x] == before[bx]);
                        assert(after[y] == before[by]);
                    }
                    assert forall|k: int| 0 <= k < after.len() implies (
                    #[trigger] after[k]).consistent() by {
                        let bk = if k < i {
                            k
                        } else {
                            k + 1
                        };
                        assert(after[k] == before[bk]);
                    }
                    if self.active_pool is Some {
                        let a = self.active_pool->0@;
                        let k = index_of(before, a);
                        assert(k != i);
                        let nk = if k < i {
                            k
                        } else {
                            k - 1
                        };
                        assert(after[nk] == before[k]);
                    }
                }
                Ok(())
            },
        }
    }

    /// The state of a pool, if it is registered.
    pub fn get_pool(&self, pool_id: &str) -> (r: Option<PoolState>)
        requires
            self.wf(),
        ensures
            has_pool(self.pools(), pool_id@) ==> r == Some(
                self.pools()[index_of(self.pools(), pool_id@)],
            ),
            !has_pool(self.pools(), pool_id@) ==> r is None,
    {
        match find_pool(&self.pools, pool_id) {
            Some(i) => {
                proof {
                    lemma_index_of(self.pools@, i as int);
                }
                Some(self.pools[i].clone())
            },
            None => None,
        }
    }

    /// The states of all pools, in the order of their registration.
    pub fn all_pools(&self) -> (r: Vec<PoolState>)
        ensures
            r@ == self.pools(),
    {
        let mut out: Vec<PoolState> = Vec::new();
        let mut i: usize = 0;
        while i < self.pools.len()
            invariant
                i <= self.pools@.len(),
                out@ == self.pools@.subrange(0, i as int),
            decreases self.pools@.len() - i,
        {
            out.push(self.pools[i].clone());
            assert(self.pools@.subrange(0, i + 1) =~= self.pools@.subrange(0, i as int).push(
                self.pools@[i as int],
            ));
            i += 1;
        }
        assert(self.pools@.subrange(0, self.pools@.len() as int) =~= self.pools@);
        out
    }

    /// The id of the active pool.
    pub fn active_pool_id(&self) -> (r: Option<String>)
        ensures
            r == self.active(),
    {
        match &self.active_pool {
            Some(a) => Some(a.clone()),
            None => None,
        }
    }

    /// Makes a registered pool the active one. Fails, and changes nothing,
    /// when no such pool is registered.
    pub fn set_active_pool(&mut self, pool_id: &str) -> (r: MiningResult<()>)
        requires
            old(self).wf(),
        ensures
            final(self).wf(),
            final(self).settings() == old(self).settings(),
            final(self).pools() == old(self).pools(),
            final(self).history() == old(self).history(),
            !has_pool(old(self).pools(), pool_id@) ==> r is Err && r->Err_0@ == (
                ErrorKind::PoolConnection,
                pool_not_found(pool_id@),
            ) && final(self).active() == old(self).active(),
            has_pool(old(self).pools(), pool_id@) ==> r is Ok && final(self).active() is Some
                && final(self).active()->0@ == pool_id@,
    {
        match find_pool(&self.pools, pool_id) {
            None => Err(pool_connection_error(join("Pool not found: ", pool_id).as_str())),
            Some(_) => {
                self.active_pool = Some(String::from_str(pool_id));
                Ok(())
            },
        }
    }

    /// Sets the status of a pool. Fails, and changes nothing, when no such
    /// pool is registered.
    pub fn update_status(&mut self, pool_id: &str, status: PoolStatus) -> (r: MiningResult<()>)
        requires
            old(self).wf(),
        ensures
            final(self).wf(),
            final(self).settings() == old(self).settings(),
            final(self).active() == old(self).active(),
            final(self).history() == old(self).history(),
            !has_pool(old(self).pools(), pool_id@) ==> {
                &&& r is Err
                &&& r->Err_0@ == (ErrorKind::PoolConnection, pool_not_found(pool_id@))
                &&& final(self).pools() == old(self).pools()
            },
            has_pool(old(self).pools(), pool_id@) ==> {
                let before = old(self).pools();
                let i = index_of(before, pool_id@);
                &&& r is Ok
                &&& final(self).pools() == before.update(i, PoolState { status, ..before[i] })
            },
    {
        let ghost before = self.pools@;
        match find_pool(&self.pools, pool_id) {
            None => Err(pool_connection_error(join("Pool not found: ", pool_id).as_str())),
            Some(i) => {
                proof {
                    lemma_index_of(before, i as int);
                }
                self.pools[i].status = status;
                proof {
                    assert(self.pools@ =~= before.update(
                        i as int,
                        PoolState { status, ..before[i as int] },
                    ));
                    Self::lemma_same_ids(before, self.pools@, self.active_pool);
                }
                Ok(())
            },
        }
    }

    /// Pools with the same ids in the same places are as unique, and hold
    /// the active pool as before.
    proof fn lemma_same_ids(before: Seq<PoolState>, after: Seq<PoolState>, active: Option<String>)
        requires
            unique_ids(before),
            after.len() == before.len(),
            forall|j: int| 0 <= j < before.len() ==> (#[trigger] after[j]).config.id@ == before[j].config.id@,
            active matches Some(a) ==> has_pool(before, a@),
        ensures
            unique_ids(after),
            active matches Some(a) ==> has_pool(after, a@),
            forall|id: Seq<char>| has_pool(before, id) == has_pool(after, id),
    {
        assert forall|x: int, y: int| 0 <= x < y < after.len() implies (#[trigger] after[x]).config.id@
            != (#[trigger] after[y]).config.id@ by {
            assert(before[x].config.id@ != before[y].config.id@);
        }
        assert forall|id: Seq<char>| has_pool(before, id) == has_pool(after, id) by {
            if has_pool(before, id) {
                let k = index_of(before, id);
                assert(after[k].config.id@ == id);
            }
            if has_pool(after, id) {
                let k = index_of(after, id);
                assert(before[k].config.id@ == id);
            }
        }
    }

    /// Whether one more share of the pool can be counted: the pool is not
    /// registered, or its counter of submitted shares is not at its end.
    pub fn can_record_share(&self, pool_id: &str) -> (r: bool)
        requires
            self.wf(),
        ensures
            r == (has_pool(self.pools(), pool_id@) ==> self.pools()[index_of(
                self.pools(),
                pool_id@,
            )].shares_submitted < u64::MAX),
    {
        match find_pool(&self.pools, pool_id) {
            Some(i) => {
                proof {
                    lemma_index_of(self.pools@, i as int);
                }
                self.pools[i].shares_submitted < u64::MAX
            },
            None => true,
        }
    }

    /// Counts a submitted share of a pool as accepted or rejected and stamps
    /// it with `now`. Fails, and changes nothing, when no such pool is
    /// registered.
    pub fn record_share(&mut self, pool_id: &str, accepted: bool, now: Timestamp) -> (r:
        MiningResult<()>)
        requires
            old(self).wf(),
            has_pool(old(self).pools(), pool_id@) ==> old(self).pools()[index_of(
                old(self).pools(),
                pool_id@,
            )].shares_submitted < u64::MAX,
        ensures
            final(self).wf(),
            final(self).settings() == old(self).settings(),
            final(self).active() == old(self).active(),
            final(self).history() == old(self).history(),
            !has_pool(old(self).pools(), pool_id@) ==> {
                &&& r is Err
                &&& r->Err_0@ == (ErrorKind::PoolConnection, pool_not_found(pool_id@))
                &&& final(self).pools() == old(self).pools()
            },
            has_pool(old(self).pools(), pool_id@) ==> {
                let before = old(self).pools();
                let i = index_of(before, pool_id@);
                &&& r is Ok
                &&& final(self).pools() == before.update(i, with_share(before[i], accepted, now))
            },
    {
        let ghost before = self.pools@;
        match find_pool(&self.pools, pool_id) {
            None => Err(pool_connection_error(join("Pool not found: ", pool_id).as_str())),
            Some(i) => {
                proof {
                    lemma_index_of(before, i as int);
                    assert(before[i as int].consistent());
                }
                self.pools[i].shares_submitted += 1;
                if accepted {
                    self.pools[i].shares_accepted += 1;
                } else {
                    self.pools[i].shares_rejected += 1;
                }
                self.pools[i].last_share = Some(now);
                proof {
                    assert(self.pools@ =~= before.update(i as int, self.pools@[i as int]));
                    Self::lemma_same_ids(before, self.pools@, self.active_pool);
                    assert forall|k: int| 0 <= k < self.pools@.len() implies (
                    #[trigger] self.pools@[k]).consistent() by {
                        if k != i {
                            assert(self.pools@[k] == before[k]);
                            assert(before[k].consistent());
                        }
                    }
                }
                Ok(())
            },
        }
    }

    /// The id of the pool that selection picks: among the pools that have
    /// neither failed nor been disabled, the one that comes first by priority
    /// and then by acceptance rate, the earliest registered among equals.
    pub fn select_best_pool(&self) -> (r: Option<String>)
        ensures
            match best_index(self.pools()) {
                Some(i) => r == Some(self.pools()[i].config.id),
                None => r is None,
            },
    {
        match best_pool(&self.pools) {
            Some(b) => Some(self.pools[b].config.id.clone()),
            None => None,
        }
    }

    /// Fails over: marks the active pool, if there is one, as failed for
    /// `reason`, then selects the best remaining pool, makes it active and
    /// records the event. When no pool can be selected, no pool is active
    /// afterwards and no event is recorded.
    pub fn failover(&mut self, reason: &str, now: Timestamp) -> (r: Option<String>)
        requires
            old(self).wf(),
        ensures
            final(self).wf(),
            final(self).settings() == old(self).settings(),
            marked_failed(old(self).pools(), old(self).active(), reason@, final(self).pools()),
            match best_index(final(self).pools()) {
                Some(i) => {
                    &&& r == Some(final(self).pools()[i].config.id)
                    &&& final(self).active() == r
                    &&& final(self).history().len() == old(self).history().len() + 1
                    &&& final(self).history().drop_last() == old(self).history()
                    &&& final(self).history().last().timestamp == now
                    &&& final(self).history().last().from_pool == old(self).active()
                    &&& final(self).history().last().to_pool == final(self).pools()[i].config.id
                    &&& final(self).history().last().reason@ == reason@
                },
                None => {
                    &&& r is None
                    &&& final(self).active() is None
                    &&& final(self).history() == old(self).history()
                },
            },
    {
        let ghost before = self.pools@;
        let current: Option<String> = self.active_pool_id();
        match &current {
            Some(id) => {
                match find_pool(&self.pools, id.as_str()) {
                    Some(i) => {
                        proof {
                            lemma_index_of(before, i as int);
                        }
                        self.pools[i].status = PoolStatus::Failed { reason: String::from_str(reason) };
                        proof {
                            assert forall|j: int| 0 <= j < before.len() && j != i implies (
                            #[trigger] before[j]).config.id@ != id@ by {
                                if j < i {
                                    assert(before[j].config.id@ != before[i as int].config.id@);
                                } else {
                                    assert(before[i as int].config.id@ != before[j].config.id@);
                                }
                            }
                        }
                    },
                    None => {},
                }
            },
            None => {},
        }
        proof {
            Self::lemma_same_ids(before, self.pools@, self.active_pool);
            assert forall|k: int| 0 <= k < self.pools@.len() implies (
            #[trigger] self.pools@[k]).consistent() by {
                assert(before[k].consistent());
            }
        }
        let ghost marked = self.pools@;
        match best_pool(&self.pools) {
            Some(b) => {
                let id = self.pools[b].config.id.clone();
                self.active_pool = Some(id.clone());
                self.failover_history.push(
                    FailoverEvent {
                        timestamp: now,
                        from_pool: current,
                        to_pool: id.clone(),
                        reason: String::from_str(reason),
                    },
                );
                assert(self.failover_history@.drop_last() =~= old(self).failover_history@);
                assert(marked[b as int].config.id@ == id@);
                Some(id)
            },
            None => {
                self.active_pool = None;
                None
            },
        }
    }

    /// The failover events, oldest first.
    pub fn failover_history(&self) -> (r: Vec<FailoverEvent>)
        ensures
            r@ == self.history(),
    {
        let mut out: Vec<FailoverEvent> = Vec::new();
        let mut i: usize = 0;
        while i < self.failover_history.len()
            invariant
                i <= self.failover_history@.len(),
                out@ == self.failover_history@.subrange(0, i as int),
            decreases self.failover_history@.len() - i,
        {
            out.push(self.failover_history[i].clone());
            assert(self.failover_history@.subrange(0, i + 1) =~= self.failover_history@.subrange(
                0,
                i as int,
            ).push(self.failover_history@[i as int]));
            i += 1;
        }
        assert(self.failover_history@.subrange(0, self.failover_history@.len() as int)
            =~= self.failover_history@);
        out
    }

    /// Sorts the pool ids into healthy and unhealthy, each in the order of the
    /// registry, and stamps the result with `now`.
    pub fn health_check(&self, now: Timestamp) -> (r: HealthCheckResult)
        ensures
            views(r.healthy_pools@) == ids_by_health(
                self.pools(),
                self.settings().min_acceptance_basis_points,
                true,
            ),
            views(r.unhealthy_pools@) == ids_by_health(
                self.pools(),
                self.settings().min_acceptance_basis_points,
                false,
            ),
            r.checked_at == now,
    {
        let mut healthy_pools: Vec<String> = Vec::new();
        let mut unhealthy_pools: Vec<String> = Vec::new();
        let min = self.config.min_acceptance_basis_points;
        let mut i: usize = 0;
        assert(self.pools@.subrange(0, 0) =~= Seq::<PoolState>::empty());
        assert(views(healthy_pools@) =~= Seq::<Seq<char>>::empty());
        assert(views(unhealthy_pools@) =~= Seq::<Seq<char>>::empty());
        while i < self.pools.len()
            invariant
                i <= self.pools@.len(),
                min == self.config.min_acceptance_basis_points,
                views(healthy_pools@) == ids_by_health(self.pools@.subrange(0, i as int), min, true),
                views(unhealthy_pools@) == ids_by_health(
                    self.pools@.subrange(0, i as int),
                    min,
                    false,
                ),
            decreases self.pools@.len() - i,
        {
            let ghost prefix = self.pools@.subrange(0, i as int);
            let ghost longer = self.pools@.subrange(0, i + 1);
            assert(longer.drop_last() =~= prefix);
            assert(longer.last() == self.pools@[i as int]);
            let ghost h = healthy_pools@;
            let ghost u = unhealthy_pools@;
            let id = self.pools[i].config.id.clone();
            if is_healthy(&self.pools[i], min) {
                healthy_pools.push(id);
                assert(views(healthy_pools@) =~= views(h).push(id@));
            } else {
                unhealthy_pools.push(id);
                assert(views(unhealthy_pools@) =~= views(u).push(id@));
            }
            i += 1;
        }
        assert(self.pools@.subrange(0, self.pools@.len() as int) =~= self.pools@);
        HealthCheckResult { healthy_pools, unhealthy_pools, checked_at: now }
    }

    /// Sums the share counters over all pools and counts the pools that hold
    /// a connection.
    pub fn aggregate_stats(&self) -> (r: AggregatePoolStats)
        ensures
            r.pools_count == self.pools().len(),
            r.connected_pools == online_count(self.pools()),
            r.total_shares_submitted == total_submitted(self.pools()),
            r.total_shares_accepted == total_accepted(self.pools()),
            r.total_shares_rejected == total_rejected(self.pools()),
            r.overall_acceptance_rate == if r.total_shares_submitted == 0 {
                Ratio { numerator: 0, denominator: 1 }
            } else {
                Ratio {
                    numerator: r.total_shares_accepted,
                    denominator: r.total_shares_submitted,
                }
            },
    {
        let mut submitted: u128 = 0;
        let mut accepted: u128 = 0;
        let mut rejected: u128 = 0;
        let mut connected: usize = 0;
        let mut i: usize = 0;
        assert(self.pools@.subrange(0, 0) =~= Seq::<PoolState>::empty());
        while i < self.pools.len()
            invariant
                i <= self.pools@.len(),
                connected <= i,
                connected == online_count(self.pools@.subrange(0, i as int)),
                submitted == total_submitted(self.pools@.subrange(0, i as int)),
                accepted == total_accepted(self.pools@.subrange(0, i as int)),
                rejected == total_rejected(self.pools@.subrange(0, i as int)),
                submitted <= i * u64::MAX,
                accepted <= i * u64::MAX,
                rejected <= i * u64::MAX,
            decreases self.pools@.len() - i,
        {
            let ghost prefix = self.pools@.subrange(0, i as int);
            let ghost longer = self.pools@.subrange(0, i + 1);
            assert(longer.drop_last() =~= prefix);
            assert(longer.last() == self.pools@[i as int]);
            assert(i * u64::MAX + u64::MAX == (i + 1) * u64::MAX && (i + 1) * u64::MAX
                <= usize::MAX * u64::MAX) by (nonlinear_arith)
                requires
                    i < usize::MAX,
            ;
            submitted += self.pools[i].shares_submitted as u128;
            accepted += self.pools[i].shares_accepted as u128;
            rejected += self.pools[i].shares_rejected as u128;
            if self.pools[i].status.is_online() {
                connected += 1;
            }
            i += 1;
        }
        assert(self.pools@.subrange(0, self.pools@.len() as int) =~= self.pools@);
        AggregatePoolStats {
            pools_count: self.pools.len(),
            connected_pools: connected,
            total_shares_submitted: submitted,
            total_shares_accepted: accepted,
            total_shares_rejected: rejected,
            overall_acceptance_rate: if submitted == 0 {
                Ratio { numerator: 0, denominator: 1 }
            } else {
                Ratio { numerator: accepted, denominator: submitted }
            },
        }
    }
}

} // verus!
