//! Reward distribution: share accounting, block rewards, the reward methods,
//! worker balances and the payout lifecycle. Amounts are whole satoshis and
//! difficulties whole numbers of a unit that the caller chooses: rewards go
//! by the proportions of difficulties alone.

use crate::arith::{lemma_quotient_at_most, saturating_quotient};
use crate::errors::{configuration_error, ErrorKind, MiningResult};
use crate::ratio::{fraction, fraction_of, Ratio};
use crate::reward_map::{
    amount_for,
    capped_sum,
    credited,
    has_key,
    key_index,
    lemma_credited_total,
    lemma_key_index,
    lemma_total_push,
    lemma_total_remove,
    lemma_total_update,
    lemma_with_amount_unique,
    tally_total,
    unique_keys,
    RewardMap,
    Tally,
};
use crate::text::{decimal, join, render_decimal, str_eq};
use crate::types::{elapsed, elapsed_between, Timestamp, NANOS_PER_SEC};
use vstd::prelude::*;
use vstd::string::*;

verus! {

/// One, in the parts per million in which decay factors are given.
pub const PPM: u64 = 1_000_000;

/// All of a fee or share, in basis points.
pub const BASIS_POINTS: u64 = 10_000;

/// Satoshis in one bitcoin.
pub const SATS_PER_BTC: u64 = 100_000_000;

/// Reward calculation method.
#[derive(Debug, Clone, Copy, PartialEq, Eq, Structural)]
pub enum RewardMethod {
    /// Pay per share: a fixed payment for each valid share.
    Pps,
    /// Pay per last N shares: in proportion to the recent shares.
    Pplns,
    /// Proportional: in proportion to the shares of the block's round.
    Prop,
    /// Score-based: shares weighted by their age.
    Score,
    /// Solo mining: the full reward to the finder.
    Solo,
}

impl RewardMethod {
    /// The name of the method.
    pub open spec fn spec_name(self) -> Seq<char> {
        match self {
            RewardMethod::Pps => "Pay Per Share"@,
            RewardMethod::Pplns => "Pay Per Last N Shares"@,
            RewardMethod::Prop => "Proportional"@,
            RewardMethod::Score => "Score-Based"@,
            RewardMethod::Solo => "Solo Mining"@,
        }
    }

    /// The name of the method.
    pub fn name(&self) -> (r: &'static str)
        ensures
            r@ == self.spec_name(),
    {
        match self {
            RewardMethod::Pps => "Pay Per Share",
            RewardMethod::Pplns => "Pay Per Last N Shares",
            RewardMethod::Prop => "Proportional",
            RewardMethod::Score => "Score-Based",
            RewardMethod::Solo => "Solo Mining",
        }
    }
}

/// Mining share record.
#[derive(Debug)]
pub struct Share {
    /// Share id.
    pub id: u64,
    /// Worker id.
    pub worker_id: String,
    /// Share difficulty, in the caller's unit of difficulty.
    pub difficulty: u64,
    /// When the share was recorded.
    pub timestamp: Timestamp,
    /// Whether the share was accepted.
    pub accepted: bool,
    /// Block height when the share was submitted.
    pub block_height: u64,
}

impl Clone for Share {
    fn clone(&self) -> (r: Self)
        ensures
            r == *self,
    {
        Share {
            id: self.id,
            worker_id: self.worker_id.clone(),
            difficulty: self.difficulty,
            timestamp: self.timestamp,
            accepted: self.accepted,
            block_height: self.block_height,
        }
    }
}

/// Block reward information.
#[derive(Debug)]
pub struct BlockReward {
    /// Block height.
    pub height: u64,
    /// Block hash.
    pub hash: String,
    /// Block reward in satoshis.
    pub reward_sats: u64,
    /// Transaction fees in satoshis.
    pub fees_sats: u64,
    /// When the block was found.
    pub found_at: Timestamp,
    /// Whether the reward is mature (spendable).
    pub is_mature: bool,
    /// Confirmations.
    pub confirmations: u32,
}

impl Clone for BlockReward {
    fn clone(&self) -> (r: Self)
        ensures
            r == *self,
    {
        BlockReward {
            height: self.height,
            hash: self.hash.clone(),
            reward_sats: self.reward_sats,
            fees_sats: self.fees_sats,
            found_at: self.found_at,
            is_mature: self.is_mature,
            confirmations: self.confirmations,
        }
    }
}

impl BlockReward {
    /// Reward and fees together fit the amount type.
    pub open spec fn total_fits(&self) -> bool {
        self.reward_sats + self.fees_sats <= u64::MAX
    }

    /// The block is marked mature exactly when it has the confirmations for it.
    pub open spec fn maturity_matches(&self, maturity_confirmations: u32) -> bool {
        self.is_mature <==> self.confirmations >= maturity_confirmations
    }

    /// The total reward in BTC, as an exact fraction.
    pub fn total_btc(&self) -> (r: Ratio)
        ensures
            r == (Ratio {
                numerator: (self.reward_sats + self.fees_sats) as u128,
                denominator: SATS_PER_BTC as u128,
            }),
    {
        Ratio {
            numerator: self.reward_sats as u128 + self.fees_sats as u128,
            denominator: SATS_PER_BTC as u128,
        }
    }

    /// Whether reward and fees together fit the amount type.
    pub fn has_total(&self) -> (r: bool)
        ensures
            r == self.total_fits(),
    {
        self.reward_sats <= u64::MAX - self.fees_sats
    }

    /// The total reward: block reward and fees.
    pub fn total_sats(&self) -> (r: u64)
        requires
            self.total_fits(),
        ensures
            r == self.reward_sats + self.fees_sats,
    {
        self.reward_sats + self.fees_sats
    }
}

/// Worker statistics.
#[derive(Debug)]
pub struct WorkerStats {
    /// Worker id.
    pub worker_id: String,
    /// Total shares submitted.
    pub shares_submitted: u64,
    /// Accepted shares.
    pub shares_accepted: u64,
    /// Rejected shares.
    pub shares_rejected: u64,
    /// Total difficulty of the accepted shares.
    pub total_difficulty: u128,
    /// Pending reward in satoshis.
    pub pending_reward_sats: u64,
    /// Paid reward in satoshis.
    pub paid_reward_sats: u64,
    /// Time of the last share.
    pub last_share: Option<Timestamp>,
    /// Active since.
    pub active_since: Option<Timestamp>,
}

impl Clone for WorkerStats {
    fn clone(&self) -> (r: Self)
        ensures
            r == *self,
    {
        WorkerStats {
            worker_id: self.worker_id.clone(),
            shares_submitted: self.shares_submitted,
            shares_accepted: self.shares_accepted,
            shares_rejected: self.shares_rejected,
            total_difficulty: self.total_difficulty,
            pending_reward_sats: self.pending_reward_sats,
            paid_reward_sats: self.paid_reward_sats,
            last_share: self.last_share,
            active_since: self.active_since,
        }
    }
}

impl Default for WorkerStats {
    fn default() -> (r: Self)
        ensures
            r.is_fresh(Seq::<char>::empty(), None),
    {
        WorkerStats {
            worker_id: String::new(),
            shares_submitted: 0,
            shares_accepted: 0,
            shares_rejected: 0,
            total_difficulty: 0,
            pending_reward_sats: 0,
            paid_reward_sats: 0,
            last_share: None,
            active_since: None,
        }
    }
}

impl WorkerStats {
    /// Statistics without shares or rewards, under the given id.
    pub open spec fn is_fresh(&self, worker_id: Seq<char>, active_since: Option<Timestamp>) -> bool {
        &&& self.worker_id@ == worker_id
        &&& self.shares_submitted == 0
        &&& self.shares_accepted == 0
        &&& self.shares_rejected == 0
        &&& self.total_difficulty == 0
        &&& self.pending_reward_sats == 0
        &&& self.paid_reward_sats == 0
        &&& self.last_share is None
        &&& self.active_since == active_since
    }

    /// Every submitted share was accepted or rejected, and the accepted
    /// difficulty is no more than that many shares can have.
    pub open spec fn consistent(&self) -> bool {
        &&& self.shares_accepted + self.shares_rejected == self.shares_submitted
        &&& self.total_difficulty <= self.shares_accepted * u64::MAX
    }

    /// Accepted shares per submitted share; one while nothing was submitted.
    pub open spec fn acceptance(&self) -> Ratio {
        fraction(self.shares_accepted, self.shares_submitted, 1)
    }

    /// New statistics for a worker: no shares, no rewards.
    pub fn new(worker_id: &str) -> (r: Self)
        ensures
            r.is_fresh(worker_id@, None),
            r.consistent(),
    {
        WorkerStats {
            worker_id: String::from_str(worker_id),
            shares_submitted: 0,
            shares_accepted: 0,
            shares_rejected: 0,
            total_difficulty: 0,
            pending_reward_sats: 0,
            paid_reward_sats: 0,
            last_share: None,
            active_since: None,
        }
    }

    /// The pending and paid rewards together in BTC, as an exact fraction.
    pub fn total_earnings_btc(&self) -> (r: Ratio)
        ensures
            r == (Ratio {
                numerator: (self.pending_reward_sats + self.paid_reward_sats) as u128,
                denominator: SATS_PER_BTC as u128,
            }),
    {
        Ratio {
            numerator: self.pending_reward_sats as u128 + self.paid_reward_sats as u128,
            denominator: SATS_PER_BTC as u128,
        }
    }

    /// Accepted shares per submitted share. It is one while nothing was
    /// submitted, and lies between zero and one whenever no more shares were
    /// accepted than submitted; then it is one exactly when every submitted
    /// share was accepted.
    pub fn acceptance_rate(&self) -> (r: Ratio)
        ensures
            r == self.acceptance(),
            self.shares_submitted == 0 ==> r.is_one(),
            self.shares_accepted <= self.shares_submitted ==> r.within_unit(),
            r.is_one() <==> (self.shares_submitted == 0 || self.shares_accepted
                == self.shares_submitted),
    {
        fraction_of(self.shares_accepted, self.shares_submitted, 1)
    }
}

/// Payout status.
#[derive(Debug, PartialEq, Eq)]
pub enum PayoutStatus {
    /// Not yet processed.
    Pending,
    /// Being sent.
    Processing,
    /// Transaction confirmed.
    Completed,
    /// Transaction failed.
    Failed { reason: String },
}

impl PayoutStatus {
    /// Whether a payout in this status can still be completed: it is
    /// pending or being sent.
    pub open spec fn open(self) -> bool {
        self is Pending || self is Processing
    }

    /// Whether a payout in this status can still be completed.
    pub fn is_open(&self) -> (r: bool)
        ensures
            r == self.open(),
    {
        match self {
            PayoutStatus::Pending => true,
            PayoutStatus::Processing => true,
            _ => false,
        }
    }
}

impl Clone for PayoutStatus {
    fn clone(&self) -> (r: Self)
        ensures
            r == *self,
    {
        match self {
            PayoutStatus::Pending => PayoutStatus::Pending,
            PayoutStatus::Processing => PayoutStatus::Processing,
            PayoutStatus::Completed => PayoutStatus::Completed,
            PayoutStatus::Failed { reason } => PayoutStatus::Failed { reason: reason.clone() },
        }
    }
}

/// Payout record.
#[derive(Debug)]
pub struct Payout {
    /// Payout id.
    pub id: u64,
    /// Worker id.
    pub worker_id: String,
    /// Amount in satoshis.
    pub amount_sats: u64,
    /// Destination address.
    pub address: String,
    /// Transaction id, once sent.
    pub txid: Option<String>,
    /// Payout status.
    pub status: PayoutStatus,
    /// When the payout was created.
    pub created_at: Timestamp,
    /// When the payout was completed.
    pub completed_at: Option<Timestamp>,
}

impl Clone for Payout {
    fn clone(&self) -> (r: Self)
        ensures
            r == *self,
    {
        Payout {
            id: self.id,
            worker_id: self.worker_id.clone(),
            amount_sats: self.amount_sats,
            address: self.address.clone(),
            txid: match &self.txid {
                Some(t) => Some(t.clone()),
                None => None,
            },
            status: self.status.clone(),
            created_at: self.created_at,
            completed_at: self.completed_at,
        }
    }
}

/// Reward distribution configuration.
#[derive(Debug, Clone, Copy)]
pub struct RewardConfig {
    /// Reward calculation method.
    pub method: RewardMethod,
    /// Pool fee in basis points: hundredths of a percent.
    pub pool_fee_basis_points: u32,
    /// Minimum payout in satoshis.
    pub min_payout_sats: u64,
    /// Number of shares that the PPLNS method looks back on.
    pub pplns_window: usize,
    /// Confirmations after which a block is mature.
    pub maturity_confirmations: u32,
    /// Weight that a share keeps per second of age under the Score method,
    /// in parts per million.
    pub score_decay_ppm: u32,
}

impl RewardConfig {
    /// The fee is at most the whole reward and the decay factor at most one.
    pub open spec fn valid(&self) -> bool {
        self.pool_fee_basis_points <= BASIS_POINTS && self.score_decay_ppm <= PPM
    }

    /// Whether the fee is at most the whole reward and the decay factor at most one.
    pub fn is_valid(&self) -> (r: bool)
        ensures
            r == self.valid(),
    {
        self.pool_fee_basis_points as u64 <= BASIS_POINTS && self.score_decay_ppm as u64 <= PPM
    }
}

impl Default for RewardConfig {
    fn default() -> (r: Self)
        ensures
            r == (RewardConfig {
                method: RewardMethod::Pplns,
                pool_fee_basis_points: 100,
                min_payout_sats: 10_000,
                pplns_window: 100_000,
                maturity_confirmations: 100,
                score_decay_ppm: 999_900,
            }),
            r.valid(),
    {
        RewardConfig {
            method: RewardMethod::Pplns,
            pool_fee_basis_points: 100,
            min_payout_sats: 10_000,
            pplns_window: 100_000,
            maturity_confirmations: 100,
            score_decay_ppm: 999_900,
        }
    }
}

/// Pool-wide statistics.
#[derive(Debug, Clone, Copy)]
pub struct PoolStats {
    /// Registered workers.
    pub total_workers: usize,
    /// Accepted shares of all workers.
    pub total_shares: u128,
    /// Accepted difficulty of all workers.
    pub total_difficulty: u128,
    /// Blocks found.
    pub blocks_found: usize,
    /// Mature (spendable) blocks.
    pub mature_blocks: usize,
    /// Pending rewards of all workers in satoshis.
    pub total_pending_sats: u128,
    /// Paid rewards of all workers in satoshis.
    pub total_paid_sats: u128,
}

impl Default for PoolStats {
    fn default() -> (r: Self)
        ensures
            r == (PoolStats {
                total_workers: 0,
                total_shares: 0,
                total_difficulty: 0,
                blocks_found: 0,
                mature_blocks: 0,
                total_pending_sats: 0,
                total_paid_sats: 0,
            }),
    {
        PoolStats {
            total_workers: 0,
            total_shares: 0,
            total_difficulty: 0,
            blocks_found: 0,
            mature_blocks: 0,
            total_pending_sats: 0,
            total_paid_sats: 0,
        }
    }
}

// ---------------------------------------------------------------------------
// The reward methods over a share log
// ---------------------------------------------------------------------------

/// What is left of a block's total after the pool fee, rounded down.
pub open spec fn distributable(total_sats: u64, fee_basis_points: u32) -> u64 {
    if fee_basis_points >= BASIS_POINTS {
        0
    } else {
        (total_sats * (BASIS_POINTS - fee_basis_points) / (BASIS_POINTS as int)) as u64
    }
}

/// The part of `pool` that falls to `weight` out of `total_weight`, rounded
/// down; nothing when the total weight is zero.
pub open spec fn portion(pool: u64, weight: u64, total_weight: nat) -> u64 {
    saturating_quotient((pool * weight) as nat, total_weight)
}

/// Whether a share counts for the block at `height`: it was accepted, and
/// was submitted at that height (`exact`) or no later.
pub open spec fn share_counts(share: Share, exact: bool, height: u64) -> bool {
    share.accepted && if exact {
        share.block_height == height
    } else {
        share.block_height <= height
    }
}

/// The first `limit` shares that count for the block at `height`, in log order.
pub open spec fn counted_shares(shares: Seq<Share>, exact: bool, height: u64, limit: nat) -> Seq<
    Share,
>
    decreases shares.len(),
{
    if shares.len() == 0 {
        Seq::empty()
    } else {
        let before = counted_shares(shares.drop_last(), exact, height, limit);
        if before.len() < limit && share_counts(shares.last(), exact, height) {
            before.push(shares.last())
        } else {
            before
        }
    }
}

/// The sum of the difficulties of shares.
pub open spec fn difficulty_sum(shares: Seq<Share>) -> nat
    decreases shares.len(),
{
    if shares.len() == 0 {
        0
    } else {
        difficulty_sum(shares.drop_last()) + shares.last().difficulty as nat
    }
}

/// The rewards when each share earns its part of `pool` by difficulty out of
/// `total_weight`, summed by worker.
pub open spec fn proportional_tally(shares: Seq<Share>, pool: u64, total_weight: nat) -> Tally
    decreases shares.len(),
{
    if shares.len() == 0 {
        Seq::empty()
    } else {
        credited(
            proportional_tally(shares.drop_last(), pool, total_weight),
            shares.last().worker_id@,
            portion(pool, shares.last().difficulty, total_weight),
        )
    }
}

/// The product of two factors given in parts per million, rounded down.
pub open spec fn mul_ppm(a: nat, b: nat) -> nat {
    a * b / (PPM as nat)
}

/// `base` to the power `exp` in parts per million, by repeated squaring with
/// every product rounded down. It never exceeds the exact power, and for a
/// base of at most one falls short of it by at most `pow_ppm_slack(exp)`
/// parts per million.
pub open spec fn pow_ppm(base: nat, exp: nat) -> nat
    decreases exp,
{
    if exp == 0 {
        PPM as nat
    } else if exp % 2 == 0 {
        mul_ppm(pow_ppm(base, exp / 2), pow_ppm(base, exp / 2))
    } else {
        mul_ppm(base, pow_ppm(base, (exp - 1) as nat))
    }
}

/// The age of a share at `now` in whole seconds.
pub open spec fn age_secs(share: Share, now: Timestamp) -> nat {
    (elapsed_between(share.timestamp, now) / NANOS_PER_SEC) as nat
}

/// The score of a share at `now`: its difficulty weighted by the decay
/// factor to the power of its age in seconds, rounded down.
pub open spec fn share_score(share: Share, now: Timestamp, decay_ppm: u32) -> u64 {
    (share.difficulty * pow_ppm(decay_ppm as nat, age_secs(share, now)) / (PPM as int)) as u64
}

/// The scores of the accepted shares, summed by worker, each sum capped at `u64::MAX`.
pub open spec fn score_tally(shares: Seq<Share>, now: Timestamp, decay_ppm: u32) -> Tally
    decreases shares.len(),
{
    if shares.len() == 0 {
        Seq::empty()
    } else {
        let before = score_tally(shares.drop_last(), now, decay_ppm);
        if shares.last().accepted {
            credited(before, shares.last().worker_id@, share_score(shares.last(), now, decay_ppm))
        } else {
            before
        }
    }
}

/// The rewards when each worker earns its part of `pool` by its score out of
/// `total_weight`.
pub open spec fn scaled_tally(scores: Tally, pool: u64, total_weight: nat) -> Tally {
    Seq::new(scores.len(), |i: int| (scores[i].0, portion(pool, scores[i].1, total_weight)))
}

/// The worker of the most recent accepted share.
pub open spec fn last_accepted_worker(shares: Seq<Share>) -> Option<Seq<char>>
    decreases shares.len(),
{
    if shares.len() == 0 {
        None
    } else if shares.last().accepted {
        Some(shares.last().worker_id@)
    } else {
        last_accepted_worker(shares.drop_last())
    }
}

/// The rewards of a block with `pool` to distribute, by the given method.
pub open spec fn rewards_for(
    config: RewardConfig,
    shares: Seq<Share>,
    height: u64,
    pool: u64,
    now: Timestamp,
) -> Tally {
    match config.method {
        RewardMethod::Pps => Seq::empty(),
        RewardMethod::Pplns => {
            let counted = counted_shares(shares, false, height, config.pplns_window as nat);
            proportional_tally(counted, pool, difficulty_sum(counted))
        },
        RewardMethod::Prop => {
            let counted = counted_shares(shares, true, height, shares.len());
            proportional_tally(counted, pool, difficulty_sum(counted))
        },
        RewardMethod::Score => {
            let scores = score_tally(shares, now, config.score_decay_ppm);
            if tally_total(scores) == 0 {
                Seq::empty()
            } else {
                scaled_tally(scores, pool, tally_total(scores))
            }
        },
        RewardMethod::Solo => match last_accepted_worker(shares) {
            Some(worker) => seq![(worker, pool)],
            None => Seq::empty(),
        },
    }
}

/// A part times the total weight is at most the pool times the weight.
pub proof fn lemma_portion(pool: u64, weight: u64, total_weight: nat)
    requires
        total_weight > 0,
    ensures
        portion(pool, weight, total_weight) * total_weight <= pool * weight,
        weight <= total_weight ==> portion(pool, weight, total_weight) <= pool,
{
    let n = (pool * weight) as int;
    let d = total_weight as int;
    assert(n >= 0) by (nonlinear_arith)
        requires
            n == pool * weight,
    ;
    vstd::arithmetic::div_mod::lemma_fundamental_div_mod(n, d);
    assert((n / d) * d <= n && n / d >= 0) by (nonlinear_arith)
        requires
            n == d * (n / d) + n % d,
            0 <= n % d < d,
            n >= 0,
    ;
    let p = portion(pool, weight, total_weight) as int;
    assert(p <= n / d);
    assert(p * d <= (n / d) * d) by (nonlinear_arith)
        requires
            0 <= p <= n / d,
            d > 0,
    ;
    if weight <= total_weight {
        assert(pool * weight <= pool * d) by (nonlinear_arith)
            requires
                weight <= d,
                pool >= 0,
        ;
        lemma_quotient_at_most(n, d, pool as int);
    }
}

/// Under a proportional method the ids stay unique, and the rewards times
/// the total weight come to at most the pool times the difficulty counted.
pub proof fn lemma_proportional_tally(shares: Seq<Share>, pool: u64, total_weight: nat)
    requires
        difficulty_sum(shares) <= total_weight,
    ensures
        unique_keys(proportional_tally(shares, pool, total_weight)),
        tally_total(proportional_tally(shares, pool, total_weight)) * total_weight <= pool
            * difficulty_sum(shares),
        tally_total(proportional_tally(shares, pool, total_weight)) <= pool,
    decreases shares.len(),
{
    let tally = proportional_tally(shares, pool, total_weight);
    if shares.len() == 0 {
        assert(tally_total(tally) * total_weight == 0) by (nonlinear_arith)
            requires
                tally_total(tally) == 0,
        ;
        assert(pool * difficulty_sum(shares) == 0) by (nonlinear_arith)
            requires
                difficulty_sum(shares) == 0,
        ;
    } else {
        let before = proportional_tally(shares.drop_last(), pool, total_weight);
        let last = shares.last();
        let part = portion(pool, last.difficulty, total_weight);
        lemma_proportional_tally(shares.drop_last(), pool, total_weight);
        lemma_with_amount_unique(
            before,
            last.worker_id@,
            capped_sum(amount_for(before, last.worker_id@), part),
        );
        let t = tally_total(before) as int;
        let w = total_weight as int;
        let before_sum = difficulty_sum(shares.drop_last()) as int;
        let d = last.difficulty as int;
        if total_weight == 0 {
            assert(part == 0);
            assert(t <= pool);
        } else {
            lemma_portion(pool, last.difficulty, total_weight);
            assert((t + part) * w <= pool * (before_sum + d) && pool * (before_sum + d) <= pool * w)
            by (nonlinear_arith)
                requires
                    t * w <= pool * before_sum,
                    part * w <= pool * d,
                    before_sum + d <= w,
                    pool >= 0,
            ;
            assert(t + part <= pool) by (nonlinear_arith)
                requires
                    (t + part) * w <= pool * w,
                    w > 0,
            ;
        }
        if has_key(before, last.worker_id@) {
            let k = key_index(before, last.worker_id@);
            lemma_total_update(before, k, (last.worker_id@, before[k].1));
        }
        lemma_credited_total(before, last.worker_id@, part);
        if total_weight == 0 {
            assert(tally_total(tally) * total_weight == 0) by (nonlinear_arith)
                requires
                    total_weight == 0,
            ;
            assert(pool * difficulty_sum(shares) >= 0) by (nonlinear_arith);
        }
    }
}

/// The parts of a pool by score come to at most the pool, and the ids stay unique.
pub proof fn lemma_scaled_tally(scores: Tally, pool: u64, total_weight: nat)
    requires
        unique_keys(scores),
        tally_total(scores) <= total_weight,
        total_weight > 0,
    ensures
        unique_keys(scaled_tally(scores, pool, total_weight)),
        tally_total(scaled_tally(scores, pool, total_weight)) * total_weight <= pool * tally_total(
            scores,
        ),
        tally_total(scaled_tally(scores, pool, total_weight)) <= pool,
    decreases scores.len(),
{
    let scaled = scaled_tally(scores, pool, total_weight);
    assert forall|i: int, j: int| 0 <= i < j < scaled.len() implies (#[trigger] scaled[i]).0 != (
    #[trigger] scaled[j]).0 by {
        assert(scores[i].0 != scores[j].0);
    }
    let w = total_weight as int;
    if scores.len() == 0 {
        assert(tally_total(scaled) * w == 0) by (nonlinear_arith)
            requires
                tally_total(scaled) == 0,
        ;
        assert(pool * tally_total(scores) == 0) by (nonlinear_arith)
            requires
                tally_total(scores) == 0,
        ;
    } else {
        let shorter = scores.drop_last();
        assert forall|i: int, j: int| 0 <= i < j < shorter.len() implies (#[trigger] shorter[i]).0
            != (#[trigger] shorter[j]).0 by {
            assert(scores[i].0 != scores[j].0);
        }
        lemma_scaled_tally(shorter, pool, total_weight);
        assert(scaled.drop_last() =~= scaled_tally(shorter, pool, total_weight));
        let part = scaled.last().1;
        lemma_portion(pool, scores.last().1, total_weight);
        let t = tally_total(scaled.drop_last()) as int;
        let before_sum = tally_total(shorter) as int;
        let d = scores.last().1 as int;
        assert((t + part) * w <= pool * (before_sum + d) && pool * (before_sum + d) <= pool * w)
            by (nonlinear_arith)
            requires
                t * w <= pool * before_sum,
                part * w <= pool * d,
                before_sum + d <= w,
                pool >= 0,
        ;
        assert(t + part <= pool) by (nonlinear_arith)
            requires
                (t + part) * w <= pool * w,
                w > 0,
        ;
    }
}

/// A power of a number that is not negative is not negative.
pub proof fn lemma_pow_not_negative(base: int, exp: nat)
    requires
        base >= 0,
    ensures
        vstd::arithmetic::power::pow(base, exp) >= 0,
    decreases exp,
{
    vstd::arithmetic::power::lemma_pow0(base);
    if exp > 0 {
        lemma_pow_not_negative(base, (exp - 1) as nat);
        vstd::arithmetic::power::lemma_pow_adds(base, 1, (exp - 1) as nat);
        vstd::arithmetic::power::lemma_pow1(base);
        let rest = vstd::arithmetic::power::pow(base, (exp - 1) as nat);
        assert(base * rest >= 0) by (nonlinear_arith)
            requires
                base >= 0,
                rest >= 0,
        ;
    }
}

/// The zeroth power is one, the first power is the base, and every power of
/// one is one: these powers carry no rounding.
pub proof fn lemma_pow_ppm_exact(base: nat, exp: nat)
    ensures
        pow_ppm(base, 0) == PPM,
        pow_ppm(base, 1) == base,
        pow_ppm(PPM as nat, exp) == PPM,
    decreases exp,
{
    assert(pow_ppm(base, 1) == mul_ppm(base, pow_ppm(base, 0)));
    assert(base * 1_000_000 / 1_000_000 == base) by (nonlinear_arith);
    if exp == 0 {
    } else if exp % 2 == 0 {
        lemma_pow_ppm_exact(base, exp / 2);
    } else {
        lemma_pow_ppm_exact(base, (exp - 1) as nat);
    }
}

/// Rounding down never lifts a power above the exact one: with `PPM` for
/// one, `pow_ppm(base, exp) <= PPM * (base / PPM)^exp`, here with both sides
/// multiplied by `PPM^exp`.
pub proof fn lemma_pow_ppm_at_most_exact(base: nat, exp: nat)
    ensures
        pow_ppm(base, exp) * vstd::arithmetic::power::pow(PPM as int, exp) <= PPM
            * vstd::arithmetic::power::pow(base as int, exp),
    decreases exp,
{
    let m = PPM as int;
    let b = base as int;
    let p = pow_ppm(base, exp) as int;
    vstd::arithmetic::power::lemma_pow0(m);
    vstd::arithmetic::power::lemma_pow0(b);
    if exp == 0 {
    } else if exp % 2 == 0 {
        let h = (exp / 2) as nat;
        lemma_pow_ppm_at_most_exact(base, h);
        let ph = pow_ppm(base, h) as int;
        let mh = vstd::arithmetic::power::pow(m, h);
        let bh = vstd::arithmetic::power::pow(b, h);
        lemma_pow_not_negative(m, h);
        lemma_pow_not_negative(b, h);
        vstd::arithmetic::power::lemma_pow_adds(m, h, h);
        vstd::arithmetic::power::lemma_pow_adds(b, h, h);
        assert(exp == h + h);
        vstd::arithmetic::div_mod::lemma_fundamental_div_mod(ph * ph, m);
        assert(p == (ph * ph) / m);
        assert(p * m <= ph * ph) by (nonlinear_arith)
            requires
                ph * ph == m * p + (ph * ph) % m,
                (ph * ph) % m >= 0,
        ;
        assert(p * (mh * mh) <= m * (bh * bh)) by (nonlinear_arith)
            requires
                p * m <= ph * ph,
                ph * mh <= m * bh,
                ph >= 0,
                mh >= 0,
                bh >= 0,
                p >= 0,
                m == 1_000_000,
        {
            assert((ph * mh) * (ph * mh) <= (m * bh) * (m * bh));
            assert((p * m) * (mh * mh) <= (ph * ph) * (mh * mh));
            assert((ph * ph) * (mh * mh) == (ph * mh) * (ph * mh));
            assert((m * bh) * (m * bh) == m * (m * (bh * bh)));
            assert((p * m) * (mh * mh) == m * (p * (mh * mh)));
        }
    } else {
        let e1 = (exp - 1) as nat;
        lemma_pow_ppm_at_most_exact(base, e1);
        let p1 = pow_ppm(base, e1) as int;
        let m1 = vstd::arithmetic::power::pow(m, e1);
        let b1 = vstd::arithmetic::power::pow(b, e1);
        lemma_pow_not_negative(m, e1);
        lemma_pow_not_negative(b, e1);
        vstd::arithmetic::power::lemma_pow_adds(m, 1, e1);
        vstd::arithmetic::power::lemma_pow_adds(b, 1, e1);
        vstd::arithmetic::power::lemma_pow1(m);
        vstd::arithmetic::power::lemma_pow1(b);
        vstd::arithmetic::div_mod::lemma_fundamental_div_mod(b * p1, m);
        assert(p == (b * p1) / m);
        assert(p * m <= b * p1) by (nonlinear_arith)
            requires
                b * p1 == m * p + (b * p1) % m,
                (b * p1) % m >= 0,
        ;
        assert(p * (m * m1) <= m * (b * b1)) by (nonlinear_arith)
            requires
                p * m <= b * p1,
                p1 * m1 <= m * b1,
                m1 >= 0,
                b >= 0,
        {
            assert((p * m) * m1 <= (b * p1) * m1);
            assert(b * (p1 * m1) <= b * (m * b1));
            assert((b * p1) * m1 == b * (p1 * m1));
            assert((p * m) * m1 == p * (m * m1));
            assert(b * (m * b1) == m * (b * b1));
        }
    }
}

/// The most that rounding can take off a power, in parts per million: each
/// of the products of squaring and multiplying loses less than one part.
pub open spec fn pow_ppm_slack(exp: nat) -> nat {
    if exp == 0 {
        0
    } else {
        (2 * exp - 1) as nat
    }
}

proof fn lemma_pow_at_most(small: int, large: int, exp: nat)
    requires
        0 <= small <= large,
    ensures
        0 <= vstd::arithmetic::power::pow(small, exp) <= vstd::arithmetic::power::pow(large, exp),
    decreases exp,
{
    vstd::arithmetic::power::lemma_pow0(small);
    vstd::arithmetic::power::lemma_pow0(large);
    if exp > 0 {
        let e1 = (exp - 1) as nat;
        lemma_pow_at_most(small, large, e1);
        vstd::arithmetic::power::lemma_pow_adds(small, 1, e1);
        vstd::arithmetic::power::lemma_pow_adds(large, 1, e1);
        vstd::arithmetic::power::lemma_pow1(small);
        vstd::arithmetic::power::lemma_pow1(large);
        let s1 = vstd::arithmetic::power::pow(small, e1);
        let l1 = vstd::arithmetic::power::pow(large, e1);
        assert(0 <= small * s1 <= large * l1) by (nonlinear_arith)
            requires
                0 <= small <= large,
                0 <= s1 <= l1,
        ;
    }
}

/// Rounding down takes little off a power of a factor of at most one: with
/// `PPM` for one, `PPM * (base / PPM)^exp <= pow_ppm(base, exp) +
/// pow_ppm_slack(exp)`, here with both sides multiplied by `PPM^exp`.
pub proof fn lemma_pow_ppm_near_exact(base: nat, exp: nat)
    requires
        base <= PPM,
    ensures
        PPM * vstd::arithmetic::power::pow(base as int, exp) <= (pow_ppm(base, exp)
            + pow_ppm_slack(exp)) * vstd::arithmetic::power::pow(PPM as int, exp),
    decreases exp,
{
    let m = PPM as int;
    let b = base as int;
    let p = pow_ppm(base, exp) as int;
    vstd::arithmetic::power::lemma_pow0(m);
    vstd::arithmetic::power::lemma_pow0(b);
    if exp == 0 {
    } else if exp % 2 == 0 {
        let h = (exp / 2) as nat;
        assert(exp == h + h);
        lemma_pow_ppm_near_exact(base, h);
        lemma_pow_ppm_at_most_exact(base, h);
        lemma_pow_ppm_bound(base, h);
        lemma_pow_at_most(b, m, h);
        lemma_pow_not_negative(m, h);
        let ph = pow_ppm(base, h) as int;
        let c = pow_ppm_slack(h) as int;
        let mh = vstd::arithmetic::power::pow(m, h);
        let bh = vstd::arithmetic::power::pow(b, h);
        vstd::arithmetic::power::lemma_pow_adds(m, h, h);
        vstd::arithmetic::power::lemma_pow_adds(b, h, h);
        vstd::arithmetic::div_mod::lemma_fundamental_div_mod(ph * ph, m);
        assert(p == (ph * ph) / m);
        assert(ph * ph <= m * p + m) by (nonlinear_arith)
            requires
                ph * ph == m * p + (ph * ph) % m,
                (ph * ph) % m < m,
        ;
        let approx = ph * mh;
        let exact = m * bh;
        assert(0 <= approx && (ph + c) * mh == approx + c * mh) by (nonlinear_arith)
            requires
                approx == ph * mh,
                ph >= 0,
                mh >= 0,
        ;
        assert(0 <= approx <= exact <= approx + c * mh);
        assert(exact <= m * mh && approx <= m * mh) by (nonlinear_arith)
            requires
                exact == m * bh,
                approx == ph * mh,
                0 <= bh <= mh,
                0 <= ph <= m,
                m > 0,
        ;
        assert(exact * exact <= approx * approx + (c * mh) * (2 * (m * mh))) by (nonlinear_arith)
            requires
                0 <= approx <= exact <= approx + c * mh,
                exact <= m * mh,
                approx <= m * mh,
                c * mh >= 0,
        {
            assert(exact * exact - approx * approx == (exact - approx) * (exact + approx));
            assert((exact - approx) * (exact + approx) <= (c * mh) * (exact + approx));
            assert((c * mh) * (exact + approx) <= (c * mh) * (2 * (m * mh)));
        }
        assert(c * mh >= 0) by (nonlinear_arith)
            requires
                c >= 0,
                mh >= 0,
        ;
        assert(approx * approx <= (m * p + m) * (mh * mh)) by (nonlinear_arith)
            requires
                approx == ph * mh,
                ph * ph <= m * p + m,
                mh >= 0,
        {
            assert(approx * approx == (ph * ph) * (mh * mh));
            assert(mh * mh >= 0);
        }
        assert(m * (bh * bh) <= (p + 1 + 2 * c) * (mh * mh)) by (nonlinear_arith)
            requires
                exact == m * bh,
                exact * exact <= approx * approx + (c * mh) * (2 * (m * mh)),
                approx * approx <= (m * p + m) * (mh * mh),
                m == 1_000_000,
        {
            assert(exact * exact == m * (m * (bh * bh)));
            assert((c * mh) * (2 * (m * mh)) == m * ((2 * c) * (mh * mh)));
            assert((m * p + m) * (mh * mh) == m * ((p + 1) * (mh * mh)));
            assert(m * (m * (bh * bh)) <= m * ((p + 1) * (mh * mh) + (2 * c) * (mh * mh)));
            assert((p + 1) * (mh * mh) + (2 * c) * (mh * mh) == (p + 1 + 2 * c) * (mh * mh));
        }
        assert(p + 1 + 2 * c == p + pow_ppm_slack(exp));
    } else {
        let e1 = (exp - 1) as nat;
        lemma_pow_ppm_near_exact(base, e1);
        lemma_pow_not_negative(m, e1);
        lemma_pow_not_negative(b, e1);
        let p1 = pow_ppm(base, e1) as int;
        let c1 = pow_ppm_slack(e1) as int;
        let m1 = vstd::arithmetic::power::pow(m, e1);
        let b1 = vstd::arithmetic::power::pow(b, e1);
        vstd::arithmetic::power::lemma_pow_adds(m, 1, e1);
        vstd::arithmetic::power::lemma_pow_adds(b, 1, e1);
        vstd::arithmetic::power::lemma_pow1(m);
        vstd::arithmetic::power::lemma_pow1(b);
        vstd::arithmetic::div_mod::lemma_fundamental_div_mod(b * p1, m);
        assert(p == (b * p1) / m);
        assert(b * p1 <= m * p + m) by (nonlinear_arith)
            requires
                b * p1 == m * p + (b * p1) % m,
                (b * p1) % m < m,
        ;
        assert(m * (b * b1) <= (p + 1 + c1) * (m * m1)) by (nonlinear_arith)
            requires
                m * b1 <= (p1 + c1) * m1,
                b * p1 <= m * p + m,
                0 <= b <= m,
                m1 >= 0,
                c1 >= 0,
        {
            assert(m * (b * b1) == b * (m * b1));
            assert(b * (m * b1) <= b * ((p1 + c1) * m1));
            assert(b * ((p1 + c1) * m1) == (b * p1) * m1 + (b * c1) * m1);
            assert((b * p1) * m1 <= (m * p + m) * m1);
            assert(b * c1 <= m * c1);
            assert((b * c1) * m1 <= (m * c1) * m1);
            assert((m * p + m) * m1 + (m * c1) * m1 == (p + 1 + c1) * (m * m1));
        }
        assert(p + 1 + c1 <= p + pow_ppm_slack(exp));
        let me = vstd::arithmetic::power::pow(m, exp);
        assert((p + 1 + c1) * me <= (p + pow_ppm_slack(exp)) * me) by (nonlinear_arith)
            requires
                p + 1 + c1 <= p + pow_ppm_slack(exp),
                me >= 0,
        ;
        lemma_pow_not_negative(m, exp);
    }
}

/// A power of a factor of at most one is at most one.
pub proof fn lemma_pow_ppm_bound(base: nat, exp: nat)
    requires
        base <= PPM,
    ensures
        pow_ppm(base, exp) <= PPM,
    decreases exp,
{
    if exp == 0 {
    } else if exp % 2 == 0 {
        lemma_pow_ppm_bound(base, exp / 2);
        let h = pow_ppm(base, exp / 2) as int;
        assert(h * h <= 1_000_000 * 1_000_000) by (nonlinear_arith)
            requires
                0 <= h <= 1_000_000,
        ;
        lemma_quotient_at_most(h * h, 1_000_000, 1_000_000);
    } else {
        lemma_pow_ppm_bound(base, (exp - 1) as nat);
        let h = pow_ppm(base, (exp - 1) as nat) as int;
        assert(base * h <= 1_000_000 * 1_000_000) by (nonlinear_arith)
            requires
                0 <= h <= 1_000_000,
                0 <= base <= 1_000_000,
        ;
        lemma_quotient_at_most(base * h, 1_000_000, 1_000_000);
    }
}


// ---------------------------------------------------------------------------
// Workers, blocks and payouts as sequences
// ---------------------------------------------------------------------------

/// A worker's statistics under the id it is known by.
#[derive(Debug)]
pub struct WorkerEntry {
    /// The id under which the worker is looked up.
    pub key: String,
    /// The worker's statistics.
    pub stats: WorkerStats,
}

/// Whether a worker is known under the given id.
pub open spec fn has_worker(workers: Seq<WorkerEntry>, id: Seq<char>) -> bool {
    exists|i: int| 0 <= i < workers.len() && (#[trigger] workers[i]).key@ == id
}

/// The position of the worker known under the given id.
pub open spec fn worker_index(workers: Seq<WorkerEntry>, id: Seq<char>) -> int {
    choose|i: int| 0 <= i < workers.len() && (#[trigger] workers[i]).key@ == id
}

/// No two workers are known under the same id.
pub open spec fn unique_workers(workers: Seq<WorkerEntry>) -> bool {
    forall|i: int, j: int|
        0 <= i < j < workers.len() ==> (#[trigger] workers[i]).key@ != (#[trigger] workers[j]).key@
}

/// The accepted difficulty of all workers.
pub open spec fn difficulty_total(workers: Seq<WorkerEntry>) -> nat
    decreases workers.len(),
{
    if workers.len() == 0 {
        0
    } else {
        difficulty_total(workers.drop_last()) + workers.last().stats.total_difficulty as nat
    }
}

/// The accepted shares of all workers.
pub open spec fn accepted_total(workers: Seq<WorkerEntry>) -> nat
    decreases workers.len(),
{
    if workers.len() == 0 {
        0
    } else {
        accepted_total(workers.drop_last()) + workers.last().stats.shares_accepted as nat
    }
}

/// The pending rewards of all workers.
pub open spec fn pending_total(workers: Seq<WorkerEntry>) -> nat
    decreases workers.len(),
{
    if workers.len() == 0 {
        0
    } else {
        pending_total(workers.drop_last()) + workers.last().stats.pending_reward_sats as nat
    }
}

/// The paid rewards of all workers.
pub open spec fn paid_total(workers: Seq<WorkerEntry>) -> nat
    decreases workers.len(),
{
    if workers.len() == 0 {
        0
    } else {
        paid_total(workers.drop_last()) + workers.last().stats.paid_reward_sats as nat
    }
}

/// What the workers gain when the amounts of a tally are credited to them.
pub open spec fn gained(workers: Seq<WorkerEntry>, rewards: Tally) -> nat
    decreases workers.len(),
{
    if workers.len() == 0 {
        0
    } else {
        gained(workers.drop_last(), rewards) + amount_for(rewards, workers.last().key@) as nat
    }
}

/// The number of mature blocks.
pub open spec fn mature_count(blocks: Seq<BlockReward>) -> nat
    decreases blocks.len(),
{
    if blocks.len() == 0 {
        0
    } else {
        mature_count(blocks.drop_last()) + if blocks.last().is_mature {
            1nat
        } else {
            0nat
        }
    }
}

/// Whether position `i` holds the first block at `height`.
pub open spec fn is_first_block(blocks: Seq<BlockReward>, height: u64, i: int) -> bool {
    &&& 0 <= i < blocks.len()
    &&& blocks[i].height == height
    &&& forall|j: int| 0 <= j < i ==> (#[trigger] blocks[j]).height != height
}

/// Whether a block at `height` is recorded.
pub open spec fn has_block(blocks: Seq<BlockReward>, height: u64) -> bool {
    exists|i: int| is_first_block(blocks, height, i)
}

/// The position of the first block at `height`.
pub open spec fn block_index(blocks: Seq<BlockReward>, height: u64) -> int {
    choose|i: int| is_first_block(blocks, height, i)
}

/// Whether a payout with the given id exists.
pub open spec fn has_payout(payouts: Seq<Payout>, id: u64) -> bool {
    exists|i: int| 0 <= i < payouts.len() && (#[trigger] payouts[i]).id == id
}

/// The position of the payout with the given id.
pub open spec fn payout_index(payouts: Seq<Payout>, id: u64) -> int {
    choose|i: int| 0 <= i < payouts.len() && (#[trigger] payouts[i]).id == id
}

/// The ids grow strictly along the sequence and do not exceed `counter`.
pub open spec fn share_ids_increase(shares: Seq<Share>, counter: u64) -> bool {
    &&& forall|i: int, j: int|
        0 <= i < j < shares.len() ==> (#[trigger] shares[i]).id < (#[trigger] shares[j]).id
    &&& forall|i: int| 0 <= i < shares.len() ==> 1 <= (#[trigger] shares[i]).id <= counter
}

/// The ids grow strictly along the sequence and do not exceed `counter`.
pub open spec fn payout_ids_increase(payouts: Seq<Payout>, counter: u64) -> bool {
    &&& forall|i: int, j: int|
        0 <= i < j < payouts.len() ==> (#[trigger] payouts[i]).id < (#[trigger] payouts[j]).id
    &&& forall|i: int| 0 <= i < payouts.len() ==> 1 <= (#[trigger] payouts[i]).id <= counter
}

/// The pending payouts, in order.
pub open spec fn pending_of(payouts: Seq<Payout>) -> Seq<Payout>
    decreases payouts.len(),
{
    if payouts.len() == 0 {
        Seq::empty()
    } else if payouts.last().status is Pending {
        pending_of(payouts.drop_last()).push(payouts.last())
    } else {
        pending_of(payouts.drop_last())
    }
}

/// With unique ids, the position of an id is the one place that holds it.
pub proof fn lemma_worker_index(workers: Seq<WorkerEntry>, i: int)
    requires
        unique_workers(workers),
        0 <= i < workers.len(),
    ensures
        has_worker(workers, workers[i].key@),
        worker_index(workers, workers[i].key@) == i,
{
    let k = worker_index(workers, workers[i].key@);
    if k < i {
        assert(workers[k].key@ != workers[i].key@);
    } else if i < k {
        assert(workers[i].key@ != workers[k].key@);
    }
}

/// With growing ids, the position of an id is the one place that holds it.
pub proof fn lemma_payout_index(payouts: Seq<Payout>, counter: u64, i: int)
    requires
        payout_ids_increase(payouts, counter),
        0 <= i < payouts.len(),
    ensures
        has_payout(payouts, payouts[i].id),
        payout_index(payouts, payouts[i].id) == i,
{
    let k = payout_index(payouts, payouts[i].id);
    if k < i {
        assert(payouts[k].id < payouts[i].id);
    } else if i < k {
        assert(payouts[i].id < payouts[k].id);
    }
}

/// Replacing a worker changes the sums by the differences.
pub proof fn lemma_totals_update(workers: Seq<WorkerEntry>, i: int, entry: WorkerEntry)
    requires
        0 <= i < workers.len(),
    ensures
        difficulty_total(workers.update(i, entry)) == difficulty_total(workers)
            - workers[i].stats.total_difficulty + entry.stats.total_difficulty,
        pending_total(workers.update(i, entry)) == pending_total(workers)
            - workers[i].stats.pending_reward_sats + entry.stats.pending_reward_sats,
        paid_total(workers.update(i, entry)) == paid_total(workers) - workers[i].stats.paid_reward_sats
            + entry.stats.paid_reward_sats,
        accepted_total(workers.update(i, entry)) == accepted_total(workers)
            - workers[i].stats.shares_accepted + entry.stats.shares_accepted,
    decreases workers.len(),
{
    let next = workers.update(i, entry);
    if i == workers.len() - 1 {
        assert(next.drop_last() =~= workers.drop_last());
    } else {
        assert(next.drop_last() =~= workers.drop_last().update(i, entry));
        lemma_totals_update(workers.drop_last(), i, entry);
    }
}

/// The sums over the first workers are at most the sums over all.
pub proof fn lemma_totals_prefix(workers: Seq<WorkerEntry>, n: int)
    requires
        0 <= n <= workers.len(),
    ensures
        difficulty_total(workers.subrange(0, n)) <= difficulty_total(workers),
    decreases workers.len(),
{
    if n == workers.len() {
        assert(workers.subrange(0, n) =~= workers);
    } else {
        assert(workers.drop_last().subrange(0, n) =~= workers.subrange(0, n));
        lemma_totals_prefix(workers.drop_last(), n);
    }
}

/// What workers gain from a tally is at most the total of the tally: no
/// amount is credited twice.
pub proof fn lemma_gained_bounded(workers: Seq<WorkerEntry>, rewards: Tally)
    requires
        unique_workers(workers),
        unique_keys(rewards),
    ensures
        gained(workers, rewards) <= tally_total(rewards),
    decreases workers.len(),
{
    if workers.len() > 0 {
        let rest = workers.drop_last();
        let key = workers.last().key@;
        assert forall|i: int, j: int| 0 <= i < j < rest.len() implies (#[trigger] rest[i]).key@ != (
        #[trigger] rest[j]).key@ by {
            assert(workers[i].key@ != workers[j].key@);
        }
        if has_key(rewards, key) {
            let k = key_index(rewards, key);
            let fewer = rewards.remove(k);
            assert forall|i: int, j: int| 0 <= i < j < fewer.len() implies (#[trigger] fewer[i]).0
                != (#[trigger] fewer[j]).0 by {
                let bi = if i < k {
                    i
                } else {
                    i + 1
                };
                let bj = if j < k {
                    j
                } else {
                    j + 1
                };
                assert(rewards[bi].0 != rewards[bj].0);
            }
            lemma_total_remove(rewards, k);
            lemma_gained_bounded(rest, fewer);
            lemma_gained_without(rest, rewards, k);
        } else {
            lemma_gained_bounded(rest, rewards);
        }
    }
}

/// Workers that are not known under the id at position `k` of a tally gain
/// the same from the tally without that position.
proof fn lemma_gained_without(workers: Seq<WorkerEntry>, rewards: Tally, k: int)
    requires
        unique_keys(rewards),
        0 <= k < rewards.len(),
        forall|i: int| 0 <= i < workers.len() ==> (#[trigger] workers[i]).key@ != rewards[k].0,
    ensures
        gained(workers, rewards) == gained(workers, rewards.remove(k)),
    decreases workers.len(),
{
    if workers.len() > 0 {
        let rest = workers.drop_last();
        let key = workers.last().key@;
        let fewer = rewards.remove(k);
        assert forall|i: int| 0 <= i < rest.len() implies (#[trigger] rest[i]).key@ != rewards[k].0 by {
            assert(workers[i].key@ != rewards[k].0);
        }
        lemma_gained_without(rest, rewards, k);
        assert(workers[workers.len() - 1].key@ != rewards[k].0);
        assert forall|i: int, j: int| 0 <= i < j < fewer.len() implies (#[trigger] fewer[i]).0 != (
        #[trigger] fewer[j]).0 by {
            let bi = if i < k {
                i
            } else {
                i + 1
            };
            let bj = if j < k {
                j
            } else {
                j + 1
            };
            assert(rewards[bi].0 != rewards[bj].0);
        }
        if has_key(rewards, key) {
            let o = key_index(rewards, key);
            assert(o != k);
            let no = if o < k {
                o
            } else {
                o - 1
            };
            assert(fewer[no] == rewards[o]);
            lemma_key_index(rewards, o);
            lemma_key_index(fewer, no);
        } else if has_key(fewer, key) {
            let no = key_index(fewer, key);
            let o = if no < k {
                no
            } else {
                no + 1
            };
            assert(rewards[o].0 == key);
        }
    }
}

fn find_worker(workers: &Vec<WorkerEntry>, worker_id: &str) -> (r: Option<usize>)
    ensures
        match r {
            Some(i) => i < workers@.len() && workers@[i as int].key@ == worker_id@,
            None => !has_worker(workers@, worker_id@),
        },
{
    let mut i: usize = 0;
    while i < workers.len()
        invariant
            i <= workers@.len(),
            forall|j: int| 0 <= j < i ==> (#[trigger] workers@[j]).key@ != worker_id@,
        decreases workers@.len() - i,
    {
        if str_eq(workers[i].key.as_str(), worker_id) {
            return Some(i);
        }
        i += 1;
    }
    None
}

fn find_block(blocks: &Vec<BlockReward>, height: u64) -> (r: Option<usize>)
    ensures
        match r {
            Some(i) => is_first_block(blocks@, height, i as int) && has_block(blocks@, height)
                && block_index(blocks@, height) == i,
            None => !has_block(blocks@, height),
        },
{
    let mut i: usize = 0;
    while i < blocks.len()
        invariant
            i <= blocks@.len(),
            forall|j: int| 0 <= j < i ==> (#[trigger] blocks@[j]).height != height,
        decreases blocks@.len() - i,
    {
        if blocks[i].height == height {
            proof {
                assert(is_first_block(blocks@, height, i as int));
                let k = block_index(blocks@, height);
                if k < i {
                    assert(blocks@[k].height != height);
                } else if i < k {
                    assert(blocks@[i as int].height != height);
                }
            }
            return Some(i);
        }
        i += 1;
    }
    proof {
        assert forall|k: int| !is_first_block(blocks@, height, k) by {
            if is_first_block(blocks@, height, k) {
                assert(blocks@[k].height != height);
            }
        }
    }
    None
}

fn find_payout(payouts: &Vec<Payout>, id: u64) -> (r: Option<usize>)
    ensures
        match r {
            Some(i) => i < payouts@.len() && payouts@[i as int].id == id,
            None => !has_payout(payouts@, id),
        },
{
    let mut i: usize = 0;
    while i < payouts.len()
        invariant
            i <= payouts@.len(),
            forall|j: int| 0 <= j < i ==> (#[trigger] payouts@[j]).id != id,
        decreases payouts@.len() - i,
    {
        if payouts[i].id == id {
            return Some(i);
        }
        i += 1;
    }
    None
}

/// What is left of a block's total after the pool fee.
pub fn distributable_of(total_sats: u64, fee_basis_points: u32) -> (r: u64)
    ensures
        r == distributable(total_sats, fee_basis_points),
        r <= total_sats,
{
    if fee_basis_points as u64 >= BASIS_POINTS {
        return 0;
    }
    let keep: u128 = (BASIS_POINTS - fee_basis_points as u64) as u128;
    proof {
        vstd::arithmetic::mul::lemma_mul_upper_bound(
            total_sats as int,
            u64::MAX as int,
            keep as int,
            10_000,
        );
        assert(total_sats * keep <= total_sats * 10_000) by (nonlinear_arith)
            requires
                keep <= 10_000,
                total_sats >= 0,
        ;
        lemma_quotient_at_most(total_sats * keep, 10_000, total_sats as int);
    }
    (((total_sats as u128) * keep) / (BASIS_POINTS as u128)) as u64
}

/// The part of `pool` that falls to `weight` out of `total_weight`.
pub fn portion_of(pool: u64, weight: u64, total_weight: u128) -> (r: u64)
    ensures
        r == portion(pool, weight, total_weight as nat),
{
    if total_weight == 0 {
        return 0;
    }
    proof {
        vstd::arithmetic::mul::lemma_mul_upper_bound(
            pool as int,
            u64::MAX as int,
            weight as int,
            u64::MAX as int,
        );
    }
    let q: u128 = ((pool as u128) * (weight as u128)) / total_weight;
    if q > u64::MAX as u128 {
        u64::MAX
    } else {
        q as u64
    }
}

/// `base` to the power `exp`, in parts per million.
pub fn decay_power(base: u64, exp: u64) -> (r: u64)
    requires
        base <= PPM,
    ensures
        r == pow_ppm(base as nat, exp as nat),
        r <= PPM,
    decreases exp,
{
    proof {
        lemma_pow_ppm_bound(base as nat, exp as nat);
    }
    if exp == 0 {
        PPM
    } else if exp % 2 == 0 {
        let half = decay_power(base, exp / 2);
        assert(half * half <= 1_000_000 * 1_000_000) by (nonlinear_arith)
            requires
                half <= 1_000_000,
        ;
        half * half / PPM
    } else {
        let rest = decay_power(base, exp - 1);
        assert(base * rest <= 1_000_000 * 1_000_000) by (nonlinear_arith)
            requires
                rest <= 1_000_000,
                base <= 1_000_000,
        ;
        base * rest / PPM
    }
}

/// The score of a share at `now` under a decay factor.
pub fn score_of(share: &Share, now: Timestamp, decay_ppm: u32) -> (r: u64)
    requires
        decay_ppm <= PPM,
    ensures
        r == share_score(*share, now, decay_ppm),
{
    let age: u64 = elapsed(share.timestamp, now) / NANOS_PER_SEC;
    let weight = decay_power(decay_ppm as u64, age);
    proof {
        vstd::arithmetic::mul::lemma_mul_upper_bound(
            share.difficulty as int,
            u64::MAX as int,
            weight as int,
            1_000_000,
        );
        assert(share.difficulty * weight <= share.difficulty * 1_000_000) by (nonlinear_arith)
            requires
                weight <= 1_000_000,
                share.difficulty >= 0,
        ;
        lemma_quotient_at_most(
            share.difficulty as int * weight as int,
            1_000_000,
            share.difficulty as int,
        );
    }
    (((share.difficulty as u128) * (weight as u128)) / (PPM as u128)) as u64
}

proof fn lemma_difficulty_sum_bound(shares: Seq<Share>)
    ensures
        difficulty_sum(shares) <= shares.len() * u64::MAX,
    decreases shares.len(),
{
    if shares.len() > 0 {
        lemma_difficulty_sum_bound(shares.drop_last());
        assert((shares.len() - 1) * u64::MAX + u64::MAX == shares.len() * u64::MAX)
            by (nonlinear_arith);
    }
}

proof fn lemma_counted_len(shares: Seq<Share>, exact: bool, height: u64, limit: nat)
    ensures
        counted_shares(shares, exact, height, limit).len() <= shares.len(),
        counted_shares(shares, exact, height, limit).len() <= limit,
    decreases shares.len(),
{
    if shares.len() > 0 {
        lemma_counted_len(shares.drop_last(), exact, height, limit);
    }
}

/// The rewards of a proportional method over the first `limit` shares that count.
fn proportional_rewards(shares: &Vec<Share>, exact: bool, height: u64, limit: usize, pool: u64) -> (r:
    RewardMap)
    ensures
        r.wf(),
        r@ == proportional_tally(
            counted_shares(shares@, exact, height, limit as nat),
            pool,
            difficulty_sum(counted_shares(shares@, exact, height, limit as nat)),
        ),
{
    let n = shares.len();
    let ghost lim = limit as nat;
    let mut count: usize = 0;
    let mut total: u128 = 0;
    let mut i: usize = 0;
    assert(shares@.subrange(0, 0) =~= Seq::<Share>::empty());
    while i < n
        invariant
            i <= n,
            n == shares@.len(),
            lim == limit,
            count == counted_shares(shares@.subrange(0, i as int), exact, height, lim).len(),
            total == difficulty_sum(counted_shares(shares@.subrange(0, i as int), exact, height, lim)),
        decreases n - i,
    {
        let ghost longer = shares@.subrange(0, i + 1);
        assert(longer.drop_last() =~= shares@.subrange(0, i as int));
        assert(longer.last() == shares@[i as int]);
        let counts = shares[i].accepted && if exact {
            shares[i].block_height == height
        } else {
            shares[i].block_height <= height
        };
        if count < limit && counts {
            proof {
                let next = counted_shares(longer, exact, height, lim);
                assert(next.drop_last() =~= counted_shares(
                    shares@.subrange(0, i as int),
                    exact,
                    height,
                    lim,
                ));
                lemma_difficulty_sum_bound(next);
                lemma_counted_len(longer, exact, height, lim);
                assert(next.len() * u64::MAX <= usize::MAX * u64::MAX) by (nonlinear_arith)
                    requires
                        next.len() <= usize::MAX,
                ;
            }
            count += 1;
            total += shares[i].difficulty as u128;
        }
        i += 1;
    }
    assert(shares@.subrange(0, n as int) =~= shares@);
    let ghost weight = total as nat;
    let mut rewards = RewardMap::new();
    let mut picked: usize = 0;
    i = 0;
    while i < n
        invariant
            i <= n,
            n == shares@.len(),
            lim == limit,
            weight == total,
            rewards.wf(),
            picked == counted_shares(shares@.subrange(0, i as int), exact, height, lim).len(),
            rewards@ == proportional_tally(
                counted_shares(shares@.subrange(0, i as int), exact, height, lim),
                pool,
                weight,
            ),
        decreases n - i,
    {
        let ghost longer = shares@.subrange(0, i + 1);
        assert(longer.drop_last() =~= shares@.subrange(0, i as int));
        assert(longer.last() == shares@[i as int]);
        let counts = shares[i].accepted && if exact {
            shares[i].block_height == height
        } else {
            shares[i].block_height <= height
        };
        if picked < limit && counts {
            proof {
                let next = counted_shares(longer, exact, height, lim);
                assert(next.drop_last() =~= counted_shares(
                    shares@.subrange(0, i as int),
                    exact,
                    height,
                    lim,
                ));
                lemma_counted_len(longer, exact, height, lim);
            }
            picked += 1;
            rewards.credit(shares[i].worker_id.as_str(), portion_of(pool, shares[i].difficulty, total));
        }
        i += 1;
    }
    rewards
}

/// The rewards of the Score method.
fn score_rewards(shares: &Vec<Share>, pool: u64, now: Timestamp, decay_ppm: u32) -> (r: RewardMap)
    requires
        decay_ppm <= PPM,
    ensures
        r.wf(),
        r@ == if tally_total(score_tally(shares@, now, decay_ppm)) == 0 {
            Seq::<(Seq<char>, u64)>::empty()
        } else {
            scaled_tally(
                score_tally(shares@, now, decay_ppm),
                pool,
                tally_total(score_tally(shares@, now, decay_ppm)),
            )
        },
{
    let n = shares.len();
    let mut scores = RewardMap::new();
    let mut i: usize = 0;
    assert(shares@.subrange(0, 0) =~= Seq::<Share>::empty());
    while i < n
        invariant
            i <= n,
            n == shares@.len(),
            decay_ppm <= PPM,
            scores.wf(),
            scores@ == score_tally(shares@.subrange(0, i as int), now, decay_ppm),
        decreases n - i,
    {
        let ghost longer = shares@.subrange(0, i + 1);
        assert(longer.drop_last() =~= shares@.subrange(0, i as int));
        assert(longer.last() == shares@[i as int]);
        if shares[i].accepted {
            scores.credit(shares[i].worker_id.as_str(), score_of(&shares[i], now, decay_ppm));
        }
        i += 1;
    }
    assert(shares@.subrange(0, n as int) =~= shares@);
    let total = scores.total();
    let mut rewards = RewardMap::new();
    if total == 0 {
        return rewards;
    }
    let ghost all = scores@;
    let ghost scaled = scaled_tally(all, pool, total as nat);
    proof {
        lemma_scaled_tally(all, pool, total as nat);
    }
    let m = scores.len();
    let mut k: usize = 0;
    while k < m
        invariant
            k <= m,
            m == all.len(),
            all == scores@,
            scores.wf(),
            rewards.wf(),
            scaled == scaled_tally(all, pool, total as nat),
            unique_keys(scaled),
            rewards@ == scaled.subrange(0, k as int),
        decreases m - k,
    {
        let ghost before = rewards@;
        let part = portion_of(pool, scores.amount_at(k), total);
        proof {
            if has_key(before, all[k as int].0) {
                let o = key_index(before, all[k as int].0);
                assert(scaled[o].0 == scaled[k as int].0);
            }
        }
        rewards.credit(scores.worker_at(k), part);
        assert(rewards@ =~= scaled.subrange(0, k + 1));
        k += 1;
    }
    assert(scaled.subrange(0, m as int) =~= scaled);
    rewards
}

/// The rewards of the Solo method.
fn solo_rewards(shares: &Vec<Share>, pool: u64) -> (r: RewardMap)
    ensures
        r.wf(),
        r@ == match last_accepted_worker(shares@) {
            Some(worker) => seq![(worker, pool)],
            None => Seq::<(Seq<char>, u64)>::empty(),
        },
{
    let mut rewards = RewardMap::new();
    let mut i: usize = shares.len();
    assert(shares@.subrange(0, shares@.len() as int) =~= shares@);
    while i > 0
        invariant
            i <= shares@.len(),
            rewards.wf(),
            rewards@ == Seq::<(Seq<char>, u64)>::empty(),
            last_accepted_worker(shares@) == last_accepted_worker(shares@.subrange(0, i as int)),
        decreases i,
    {
        let ghost prefix = shares@.subrange(0, i as int);
        assert(prefix.drop_last() =~= shares@.subrange(0, i - 1));
        assert(prefix.last() == shares@[i - 1]);
        if shares[i - 1].accepted {
            rewards.credit(shares[i - 1].worker_id.as_str(), pool);
            assert(rewards@ =~= seq![(shares@[i - 1].worker_id@, pool)]);
            return rewards;
        }
        i -= 1;
    }
    rewards
}


/// The text of the error for an unknown worker.
pub open spec fn worker_not_found(id: Seq<char>) -> Seq<char> {
    "Worker not found: "@ + id
}

/// The text of the error for an unknown block.
pub open spec fn block_not_found(height: u64) -> Seq<char> {
    "Block "@ + decimal(height as nat) + " not found"@
}

/// The text of the error for an unknown payout.
pub open spec fn payout_not_found(id: u64) -> Seq<char> {
    "Payout "@ + decimal(id as nat) + " not found"@
}

/// The text of the error for a payout that is completed or has failed.
pub open spec fn payout_settled(id: u64) -> Seq<char> {
    "Payout "@ + decimal(id as nat) + " already settled"@
}

/// The number of shares dropped from the front of a log of `len` shares.
pub open spec fn dropped(len: nat, config: RewardConfig) -> nat {
    if config.method == RewardMethod::Pplns && len > config.pplns_window {
        (len - config.pplns_window) as nat
    } else {
        0
    }
}

/// Whether `share` is the record of a share with the given data.
pub open spec fn is_share_record(
    share: Share,
    id: u64,
    worker_id: Seq<char>,
    difficulty: u64,
    accepted: bool,
    now: Timestamp,
    height: u64,
) -> bool {
    &&& share.id == id
    &&& share.worker_id@ == worker_id
    &&& share.difficulty == difficulty
    &&& share.timestamp == now
    &&& share.accepted == accepted
    &&& share.block_height == height
}

/// The statistics after one more share.
pub open spec fn with_share(
    before: WorkerStats,
    difficulty: u64,
    accepted: bool,
    now: Timestamp,
) -> WorkerStats {
    WorkerStats {
        shares_submitted: (before.shares_submitted + 1) as u64,
        shares_accepted: if accepted {
            (before.shares_accepted + 1) as u64
        } else {
            before.shares_accepted
        },
        shares_rejected: if accepted {
            before.shares_rejected
        } else {
            (before.shares_rejected + 1) as u64
        },
        total_difficulty: if accepted {
            (before.total_difficulty + difficulty) as u128
        } else {
            before.total_difficulty
        },
        last_share: Some(now),
        ..before
    }
}

/// A block after the confirmations of the blocks at `height` were set: a block
/// at that height has them, and is mature exactly when they reach `maturity`.
pub open spec fn confirmed(block: BlockReward, height: u64, confirmations: u32, maturity: u32) -> BlockReward {
    if block.height == height {
        BlockReward { confirmations, is_mature: confirmations >= maturity, ..block }
    } else {
        block
    }
}

/// A block as it is recorded: as it is given, but marked mature exactly
/// when its confirmations reach `maturity`.
pub open spec fn recorded(block: BlockReward, maturity: u32) -> BlockReward {
    BlockReward { is_mature: block.confirmations >= maturity, ..block }
}

/// Whether `payout` is a new pending payout with the given data.
pub open spec fn is_new_payout(
    payout: Payout,
    id: u64,
    worker_id: Seq<char>,
    amount: u64,
    address: Seq<char>,
    now: Timestamp,
) -> bool {
    &&& payout.id == id
    &&& payout.worker_id@ == worker_id
    &&& payout.amount_sats == amount
    &&& payout.address@ == address
    &&& payout.txid is None
    &&& payout.status is Pending
    &&& payout.created_at == now
    &&& payout.completed_at is None
}

/// Whether `after` is `before` completed at `now` under the given transaction id.
pub open spec fn is_completed(before: Payout, after: Payout, txid: Seq<char>, now: Timestamp) -> bool {
    &&& after == (Payout {
        txid: after.txid,
        status: PayoutStatus::Completed,
        completed_at: Some(now),
        ..before
    })
    &&& after.txid is Some
    &&& after.txid->0@ == txid
}

/// Reward distribution manager.
#[derive(Debug)]
pub struct RewardDistributor {
    config: RewardConfig,
    workers: Vec<WorkerEntry>,
    shares: Vec<Share>,
    blocks: Vec<BlockReward>,
    payouts: Vec<Payout>,
    share_counter: u64,
    payout_counter: u64,
    current_height: u64,
}

impl RewardDistributor {
    /// The settings of the distributor.
    pub closed spec fn settings(&self) -> RewardConfig {
        self.config
    }

    /// The workers, in the order in which they became known.
    pub closed spec fn workers(&self) -> Seq<WorkerEntry> {
        self.workers@
    }

    /// The share log, oldest first.
    pub closed spec fn shares(&self) -> Seq<Share> {
        self.shares@
    }

    /// The recorded blocks, oldest first.
    pub closed spec fn blocks(&self) -> Seq<BlockReward> {
        self.blocks@
    }

    /// The payouts, oldest first.
    pub closed spec fn payouts(&self) -> Seq<Payout> {
        self.payouts@
    }

    /// The id of the last share.
    pub closed spec fn share_counter(&self) -> u64 {
        self.share_counter
    }

    /// The id of the last payout.
    pub closed spec fn payout_counter(&self) -> u64 {
        self.payout_counter
    }

    /// The current block height.
    pub closed spec fn current_height(&self) -> u64 {
        self.current_height
    }

    /// The workers are known under unique ids and their counters are
    /// consistent and bounded by the shares recorded; the ids of shares and
    /// payouts grow strictly; under PPLNS the share log holds no more shares
    /// than the window; and every block is marked mature exactly when it has
    /// the confirmations for it.
    pub open spec fn wf(&self) -> bool {
        &&& unique_workers(self.workers())
        &&& forall|i: int|
            0 <= i < self.workers().len() ==> (#[trigger] self.workers()[i]).stats.consistent()
                && self.workers()[i].stats.shares_submitted <= self.share_counter()
        &&& difficulty_total(self.workers()) <= self.share_counter() * u64::MAX
        &&& share_ids_increase(self.shares(), self.share_counter())
        &&& payout_ids_increase(self.payouts(), self.payout_counter())
        &&& self.settings().method == RewardMethod::Pplns ==> self.shares().len()
            <= self.settings().pplns_window
        &&& forall|i: int|
            0 <= i < self.blocks().len() ==> (#[trigger] self.blocks()[i]).maturity_matches(
                self.settings().maturity_confirmations,
            )
    }

    /// Every block is marked mature exactly when it has the confirmations for it.
    pub open spec fn maturity_consistent(&self) -> bool {
        forall|i: int|
            0 <= i < self.blocks().len() ==> (#[trigger] self.blocks()[i]).maturity_matches(
                self.settings().maturity_confirmations,
            )
    }

    /// A distributor without workers, shares, blocks or payouts.
    pub fn new(config: RewardConfig) -> (r: Self)
        ensures
            r.wf(),
            r.maturity_consistent(),
            r.settings() == config,
            r.workers() == Seq::<WorkerEntry>::empty(),
            r.shares() == Seq::<Share>::empty(),
            r.blocks() == Seq::<BlockReward>::empty(),
            r.payouts() == Seq::<Payout>::empty(),
            r.share_counter() == 0,
            r.payout_counter() == 0,
            r.current_height() == 0,
    {
        RewardDistributor {
            config,
            workers: Vec::new(),
            shares: Vec::new(),
            blocks: Vec::new(),
            payouts: Vec::new(),
            share_counter: 0,
            payout_counter: 0,
            current_height: 0,
        }
    }

    /// Registers a worker, active since `now`, unless it is already known.
    pub fn register_worker(&mut self, worker_id: &str, now: Timestamp)
        requires
            old(self).wf(),
        ensures
            final(self).wf(),
            final(self).settings() == old(self).settings(),
            final(self).shares() == old(self).shares(),
            final(self).blocks() == old(self).blocks(),
            final(self).payouts() == old(self).payouts(),
            final(self).share_counter() == old(self).share_counter(),
            final(self).payout_counter() == old(self).payout_counter(),
            final(self).current_height() == old(self).current_height(),
            has_worker(old(self).workers(), worker_id@) ==> final(self).workers() == old(self).workers(),
            !has_worker(old(self).workers(), worker_id@) ==> {
                &&& final(self).workers().len() == old(self).workers().len() + 1
                &&& final(self).workers().drop_last() == old(self).workers()
                &&& final(self).workers().last().key@ == worker_id@
                &&& final(self).workers().last().stats.is_fresh(worker_id@, Some(now))
            },
    {
        let ghost before = self.workers@;
        assert(forall|i: int|
            0 <= i < self.blocks().len() ==> (#[trigger] self.blocks@[i]) == self.blocks()[i]);
        match find_worker(&self.workers, worker_id) {
            Some(_) => {},
            None => {
                let mut stats = WorkerStats::new(worker_id);
                stats.active_since = Some(now);
                self.workers.push(WorkerEntry { key: String::from_str(worker_id), stats });
                proof {
                    assert(self.workers@.drop_last() =~= before);
                    assert(difficulty_total(self.workers@) == difficulty_total(before));
                    assert forall|i: int, j: int| 0 <= i < j < self.workers@.len() implies (
                    #[trigger] self.workers@[i]).key@ != (#[trigger] self.workers@[j]).key@ by {
                        if j < before.len() {
                            assert(before[i].key@ != before[j].key@);
                        } else {
                            assert(before[i].key@ != worker_id@);
                        }
                    }
                    assert forall|i: int| 0 <= i < self.workers@.len() implies (
                    #[trigger] self.workers@[i]).stats.consistent()
                        && self.workers@[i].stats.shares_submitted <= self.share_counter by {
                        if i < before.len() {
                            assert(before[i].stats.consistent());
                        }
                    }
                }
            },
        }
    }

    /// Records a share of a worker at `now` under the next share id, which is
    /// returned, and counts it in the worker's statistics; a worker that is
    /// not yet known becomes known, under an empty name. Under PPLNS the
    /// oldest shares beyond the window are dropped from the log.
    pub fn record_share(
        &mut self,
        worker_id: &str,
        difficulty: u64,
        accepted: bool,
        now: Timestamp,
    ) -> (r: u64)
        requires
            old(self).wf(),
            old(self).share_counter() < u64::MAX,
        ensures
            final(self).wf(),
            r == old(self).share_counter() + 1,
            final(self).share_counter() == r,
            final(self).settings() == old(self).settings(),
            final(self).blocks() == old(self).blocks(),
            final(self).payouts() == old(self).payouts(),
            final(self).payout_counter() == old(self).payout_counter(),
            final(self).current_height() == old(self).current_height(),
            final(self).shares().len() == old(self).shares().len() + 1 - dropped(
                old(self).shares().len() + 1,
                old(self).settings(),
            ),
            forall|j: int|
                0 <= j < final(self).shares().len() ==> {
                    let from = j + dropped(old(self).shares().len() + 1, old(self).settings());
                    if from < old(self).shares().len() {
                        (#[trigger] final(self).shares()[j]) == old(self).shares()[from]
                    } else {
                        is_share_record(
                            final(self).shares()[j],
                            r,
                            worker_id@,
                            difficulty,
                            accepted,
                            now,
                            old(self).current_height(),
                        )
                    }
                },
            has_worker(old(self).workers(), worker_id@) ==> {
                let before = old(self).workers();
                let i = worker_index(before, worker_id@);
                final(self).workers() == before.update(
                    i,
                    WorkerEntry {
                        stats: with_share(before[i].stats, difficulty, accepted, now),
                        ..before[i]
                    },
                )
            },
            !has_worker(old(self).workers(), worker_id@) ==> {
                &&& final(self).workers().len() == old(self).workers().len() + 1
                &&& final(self).workers().drop_last() == old(self).workers()
                &&& final(self).workers().last().key@ == worker_id@
                &&& final(self).workers().last().stats.worker_id@ == Seq::<char>::empty()
                &&& final(self).workers().last().stats.active_since == Some(now)
                &&& final(self).workers().last().stats.pending_reward_sats == 0
                &&& final(self).workers().last().stats.paid_reward_sats == 0
                &&& final(self).workers().last().stats.shares_submitted == 1
                &&& final(self).workers().last().stats.shares_accepted == if accepted {
                    1u64
                } else {
                    0u64
                }
                &&& final(self).workers().last().stats.shares_rejected == if accepted {
                    0u64
                } else {
                    1u64
                }
                &&& final(self).workers().last().stats.total_difficulty == if accepted {
                    difficulty as u128
                } else {
                    0u128
                }
                &&& final(self).workers().last().stats.last_share == Some(now)
            },
    {
        let ghost old_shares = self.shares@;
        let ghost old_workers = self.workers@;
        let ghost old_counter = self.share_counter;
        assert(forall|i: int|
            0 <= i < self.blocks().len() ==> (#[trigger] self.blocks@[i]) == self.blocks()[i]);
        self.share_counter = self.share_counter + 1;
        let share_id = self.share_counter;
        self.shares.push(
            Share {
                id: share_id,
                worker_id: String::from_str(worker_id),
                difficulty,
                timestamp: now,
                accepted,
                block_height: self.current_height,
            },
        );
        let ghost pushed = self.shares@;
        if self.config.method == RewardMethod::Pplns {
            let window = self.config.pplns_window;
            while self.shares.len() > window
                invariant
                    window == self.config.pplns_window,
                    self.shares@.len() <= pushed.len(),
                    self.shares@.len() >= window || self.shares@.len() == pushed.len(),
                    self.shares@ == pushed.subrange(
                        pushed.len() - self.shares@.len(),
                        pushed.len() as int,
                    ),
                    self.config == old(self).config,
                    self.workers == old(self).workers,
                    self.blocks == old(self).blocks,
                    self.payouts == old(self).payouts,
                    self.share_counter == share_id,
                    self.payout_counter == old(self).payout_counter,
                    self.current_height == old(self).current_height,
                decreases self.shares@.len(),
            {
                self.shares.remove(0);
                assert(self.shares@ =~= pushed.subrange(
                    pushed.len() - self.shares@.len(),
                    pushed.len() as int,
                ));
            }
        } else {
            assert(self.shares@ =~= pushed.subrange(0, pushed.len() as int));
        }
        proof {
            let kept = self.shares@;
            let skip = pushed.len() - kept.len();
            assert(skip == dropped(old_shares.len() + 1, self.config));
            assert forall|i: int, j: int| 0 <= i < j < kept.len() implies (#[trigger] kept[i]).id < (
            #[trigger] kept[j]).id by {
                assert(kept[i] == pushed[i + skip]);
                assert(kept[j] == pushed[j + skip]);
                if j + skip < old_shares.len() {
                    assert(old_shares[i + skip].id < old_shares[j + skip].id);
                } else {
                    assert(old_shares[i + skip].id <= old_counter);
                }
            }
            assert forall|i: int| 0 <= i < kept.len() implies 1 <= (#[trigger] kept[i]).id
                <= share_id by {
                assert(kept[i] == pushed[i + skip]);
                if i + skip < old_shares.len() {
                    assert(old_shares[i + skip].id <= old_counter);
                }
            }
            assert forall|j: int| 0 <= j < kept.len() implies {
                let from = j + dropped(old_shares.len() + 1, self.config);
                if from < old_shares.len() {
                    (#[trigger] kept[j]) == old_shares[from]
                } else {
                    is_share_record(
                        kept[j],
                        share_id,
                        worker_id@,
                        difficulty,
                        accepted,
                        now,
                        self.current_height,
                    )
                }
            } by {
                assert(kept[j] == pushed[j + skip]);
            }
            assert(old_counter * u64::MAX + u64::MAX == (old_counter + 1) * u64::MAX) by (nonlinear_arith);
        }
        match find_worker(&self.workers, worker_id) {
            Some(i) => {
                proof {
                    lemma_worker_index(old_workers, i as int);
                    assert(old_workers[i as int].stats.consistent());
                    assert(old_workers[i as int].stats.shares_accepted * u64::MAX + u64::MAX == (
                    old_workers[i as int].stats.shares_accepted + 1) * u64::MAX && (
                    old_workers[i as int].stats.shares_accepted + 1) * u64::MAX <= 0x1_0000_0000_0000_0000
                        * u64::MAX) by (nonlinear_arith)
                        requires
                            old_workers[i as int].stats.shares_accepted < 0x1_0000_0000_0000_0000,
                    ;
                }
                self.workers[i].stats.shares_submitted += 1;
                if accepted {
                    self.workers[i].stats.shares_accepted += 1;
                    self.workers[i].stats.total_difficulty += difficulty as u128;
                } else {
                    self.workers[i].stats.shares_rejected += 1;
                }
                self.workers[i].stats.last_share = Some(now);
                proof {
                    let entry = self.workers@[i as int];
                    assert(self.workers@ =~= old_workers.update(i as int, entry));
                    lemma_totals_update(old_workers, i as int, entry);
                    assert forall|x: int, y: int| 0 <= x < y < self.workers@.len() implies (
                    #[trigger] self.workers@[x]).key@ != (#[trigger] self.workers@[y]).key@ by {
                        assert(old_workers[x].key@ != old_workers[y].key@);
                    }
                    assert forall|k: int| 0 <= k < self.workers@.len() implies (
                    #[trigger] self.workers@[k]).stats.consistent()
                        && self.workers@[k].stats.shares_submitted <= self.share_counter by {
                        assert(old_workers[k].stats.consistent());
                    }
                }
            },
            None => {
                let mut stats = WorkerStats::new("");
                proof {
                    reveal_strlit("");
                    assert(""@ =~= Seq::<char>::empty());
                }
                stats.active_since = Some(now);
                stats.shares_submitted = 1;
                if accepted {
                    stats.shares_accepted = 1;
                    stats.total_difficulty = difficulty as u128;
                } else {
                    stats.shares_rejected = 1;
                }
                stats.last_share = Some(now);
                self.workers.push(WorkerEntry { key: String::from_str(worker_id), stats });
                proof {
                    assert(self.workers@.drop_last() =~= old_workers);
                    assert(difficulty_total(self.workers@) == difficulty_total(old_workers)
                        + self.workers@.last().stats.total_difficulty);
                    assert forall|x: int, y: int| 0 <= x < y < self.workers@.len() implies (
                    #[trigger] self.workers@[x]).key@ != (#[trigger] self.workers@[y]).key@ by {
                        if y < old_workers.len() {
                            assert(old_workers[x].key@ != old_workers[y].key@);
                        } else {
                            assert(old_workers[x].key@ != worker_id@);
                        }
                    }
                    assert forall|k: int| 0 <= k < self.workers@.len() implies (
                    #[trigger] self.workers@[k]).stats.consistent()
                        && self.workers@[k].stats.shares_submitted <= self.share_counter by {
                        if k < old_workers.len() {
                            assert(old_workers[k].stats.consistent());
                        }
                    }
                }
            },
        }
        share_id
    }

    /// Records a found block. The block is stored as it is given, but for
    /// its maturity: it is marked mature exactly when its confirmations reach
    /// the configured number.
    pub fn record_block(&mut self, reward: BlockReward)
        requires
            old(self).wf(),
        ensures
            final(self).wf(),
            final(self).maturity_consistent(),
            final(self).blocks() == old(self).blocks().push(
                recorded(reward, old(self).settings().maturity_confirmations),
            ),
            final(self).settings() == old(self).settings(),
            final(self).workers() == old(self).workers(),
            final(self).shares() == old(self).shares(),
            final(self).payouts() == old(self).payouts(),
            final(self).share_counter() == old(self).share_counter(),
            final(self).payout_counter() == old(self).payout_counter(),
            final(self).current_height() == old(self).current_height(),
    {
        let ghost before = self.blocks@;
        let mut block = reward;
        block.is_mature = block.confirmations >= self.config.maturity_confirmations;
        self.blocks.push(block);
        proof {
            assert forall|i: int| 0 <= i < self.blocks@.len() implies (
            #[trigger] self.blocks@[i]).maturity_matches(self.config.maturity_confirmations) by {
                if i < before.len() {
                    assert(old(self).blocks()[i].maturity_matches(
                        self.config.maturity_confirmations,
                    ));
                }
            }
        }
    }

    /// Sets the confirmations of every block at `height`, and marks each of
    /// them mature exactly when the confirmations reach the configured number.
    pub fn update_confirmations(&mut self, height: u64, confirmations: u32)
        requires
            old(self).wf(),
        ensures
            final(self).wf(),
            final(self).blocks().len() == old(self).blocks().len(),
            forall|i: int|
                0 <= i < old(self).blocks().len() ==> (#[trigger] final(self).blocks()[i])
                    == confirmed(
                    old(self).blocks()[i],
                    height,
                    confirmations,
                    old(self).settings().maturity_confirmations,
                ),
            final(self).maturity_consistent(),
            final(self).settings() == old(self).settings(),
            final(self).workers() == old(self).workers(),
            final(self).shares() == old(self).shares(),
            final(self).payouts() == old(self).payouts(),
            final(self).share_counter() == old(self).share_counter(),
            final(self).payout_counter() == old(self).payout_counter(),
            final(self).current_height() == old(self).current_height(),
    {
        let ghost before = self.blocks@;
        let n = self.blocks.len();
        let mut i: usize = 0;
        while i < n
            invariant
                i <= n,
                n == before.len(),
                self.blocks@.len() == n,
                forall|k: int|
                    0 <= k < n ==> (#[trigger] self.blocks@[k]) == if k < i && before[k].height == height {
                        BlockReward {
                            confirmations,
                            is_mature: confirmations >= self.config.maturity_confirmations,
                            ..before[k]
                        }
                    } else {
                        before[k]
                    },
                self.config == old(self).config,
                self.workers == old(self).workers,
                self.shares == old(self).shares,
                self.payouts == old(self).payouts,
                self.share_counter == old(self).share_counter,
                self.payout_counter == old(self).payout_counter,
                self.current_height == old(self).current_height,
            decreases n - i,
        {
            if self.blocks[i].height == height {
                self.blocks[i].confirmations = confirmations;
                self.blocks[i].is_mature = confirmations >= self.config.maturity_confirmations;
            }
            i += 1;
        }
        proof {
            assert forall|k: int| 0 <= k < self.blocks@.len() implies (
            #[trigger] self.blocks@[k]).maturity_matches(self.config.maturity_confirmations) by {
                assert(old(self).blocks()[k].maturity_matches(self.config.maturity_confirmations));
            }
        }
    }

    /// The rewards of the first block recorded at `block_height`, by the
    /// configured method, from what is left of the block's total after the
    /// pool fee. The rewards come to no more than that. Fails when no block
    /// is recorded at that height.
    pub fn calculate_rewards(&self, block_height: u64, now: Timestamp) -> (r: MiningResult<RewardMap>)
        requires
            self.wf(),
            self.settings().valid(),
            has_block(self.blocks(), block_height) ==> self.blocks()[block_index(
                self.blocks(),
                block_height,
            )].total_fits(),
        ensures
            !has_block(self.blocks(), block_height) ==> r is Err && r->Err_0@ == (
                ErrorKind::Configuration,
                block_not_found(block_height),
            ),
            has_block(self.blocks(), block_height) ==> {
                let block = self.blocks()[block_index(self.blocks(), block_height)];
                let pool = distributable(
                    (block.reward_sats + block.fees_sats) as u64,
                    self.settings().pool_fee_basis_points,
                );
                &&& r is Ok
                &&& r->Ok_0.wf()
                &&& r->Ok_0@ == rewards_for(self.settings(), self.shares(), block_height, pool, now)
                &&& tally_total(r->Ok_0@) <= pool
            },
            self.settings().method == RewardMethod::Pps && r is Ok ==> r->Ok_0@.len() == 0,
    {
        match find_block(&self.blocks, block_height) {
            None => {
                let mut message = join("Block ", render_decimal(block_height as u128).as_str());
                message.append(" not found");
                Err(configuration_error(message.as_str()))
            },
            Some(i) => {
                let total = self.blocks[i].total_sats();
                let pool = distributable_of(total, self.config.pool_fee_basis_points);
                let rewards = match self.config.method {
                    RewardMethod::Pps => self.calculate_pps(pool),
                    RewardMethod::Pplns => self.calculate_pplns(pool, block_height),
                    RewardMethod::Prop => self.calculate_proportional(pool, block_height),
                    RewardMethod::Score => self.calculate_score(pool, now),
                    RewardMethod::Solo => self.calculate_solo(pool),
                };
                Ok(rewards)
            },
        }
    }

    /// PPS pays per share and nothing per block: no rewards.
    fn calculate_pps(&self, distributable: u64) -> (r: RewardMap)
        ensures
            r.wf(),
            r@ == Seq::<(Seq<char>, u64)>::empty(),
            tally_total(r@) <= distributable,
    {
        RewardMap::new()
    }

    /// PPLNS: among the accepted shares submitted no later than the block,
    /// the first that fit the window earn by difficulty.
    fn calculate_pplns(&self, distributable: u64, block_height: u64) -> (r: RewardMap)
        ensures
            r.wf(),
            r@ == proportional_tally(
                counted_shares(self.shares@, false, block_height, self.config.pplns_window as nat),
                distributable,
                difficulty_sum(
                    counted_shares(self.shares@, false, block_height, self.config.pplns_window as nat),
                ),
            ),
            tally_total(r@) <= distributable,
    {
        proof {
            let counted = counted_shares(
                self.shares@,
                false,
                block_height,
                self.config.pplns_window as nat,
            );
            lemma_proportional_tally(counted, distributable, difficulty_sum(counted));
        }
        proportional_rewards(&self.shares, false, block_height, self.config.pplns_window, distributable)
    }

    /// Proportional: the accepted shares submitted at the block's height
    /// earn by difficulty.
    fn calculate_proportional(&self, distributable: u64, block_height: u64) -> (r: RewardMap)
        ensures
            r.wf(),
            r@ == proportional_tally(
                counted_shares(self.shares@, true, block_height, self.shares@.len()),
                distributable,
                difficulty_sum(counted_shares(self.shares@, true, block_height, self.shares@.len())),
            ),
            tally_total(r@) <= distributable,
    {
        proof {
            let counted = counted_shares(self.shares@, true, block_height, self.shares@.len());
            lemma_proportional_tally(counted, distributable, difficulty_sum(counted));
        }
        proportional_rewards(&self.shares, true, block_height, self.shares.len(), distributable)
    }

    /// Score: the workers earn by the scores of their accepted shares.
    fn calculate_score(&self, distributable: u64, now: Timestamp) -> (r: RewardMap)
        requires
            self.config.valid(),
        ensures
            r.wf(),
            r@ == if tally_total(score_tally(self.shares@, now, self.config.score_decay_ppm)) == 0 {
                Seq::<(Seq<char>, u64)>::empty()
            } else {
                scaled_tally(
                    score_tally(self.shares@, now, self.config.score_decay_ppm),
                    distributable,
                    tally_total(score_tally(self.shares@, now, self.config.score_decay_ppm)),
                )
            },
            tally_total(r@) <= distributable,
    {
        let r = score_rewards(&self.shares, distributable, now, self.config.score_decay_ppm);
        proof {
            let scores = score_tally(self.shares@, now, self.config.score_decay_ppm);
            if tally_total(scores) > 0 {
                lemma_score_tally_unique(self.shares@, now, self.config.score_decay_ppm);
                lemma_scaled_tally(scores, distributable, tally_total(scores));
            }
        }
        r
    }

    /// Solo: the worker of the most recent accepted share earns everything.
    fn calculate_solo(&self, distributable: u64) -> (r: RewardMap)
        ensures
            r.wf(),
            r@ == match last_accepted_worker(self.shares@) {
                Some(worker) => seq![(worker, distributable)],
                None => Seq::<(Seq<char>, u64)>::empty(),
            },
            tally_total(r@) <= distributable,
    {
        let r = solo_rewards(&self.shares, distributable);
        proof {
            match last_accepted_worker(self.shares@) {
                Some(worker) => {
                    let none = Seq::<(Seq<char>, u64)>::empty();
                    assert(r@ =~= none.push((worker, distributable)));
                    lemma_total_push(none, (worker, distributable));
                },
                None => {},
            }
        }
        r
    }

    /// Whether the rewards of the block at `block_height` can be calculated:
    /// the fee is at most the whole reward and the decay factor at most one,
    /// and the total of the block, if one is recorded there, fits the amount type.
    pub fn can_calculate_rewards(&self, block_height: u64) -> (r: bool)
        ensures
            r == (self.settings().valid() && (has_block(self.blocks(), block_height)
                ==> self.blocks()[block_index(self.blocks(), block_height)].total_fits())),
    {
        if !self.config.is_valid() {
            return false;
        }
        match find_block(&self.blocks, block_height) {
            None => true,
            Some(i) => self.blocks[i].has_total(),
        }
    }

    /// The id of the last share recorded; zero before the first.
    pub fn share_count(&self) -> (r: u64)
        ensures
            r == self.share_counter(),
    {
        self.share_counter
    }

    /// The id of the last payout created; zero before the first.
    pub fn payout_count(&self) -> (r: u64)
        ensures
            r == self.payout_counter(),
    {
        self.payout_counter
    }

    /// Whether a payout can be created for the worker: none is due, or the
    /// payout ids are not exhausted.
    pub fn can_create_payout(&self, worker_id: &str) -> (r: bool)
        requires
            self.wf(),
        ensures
            r == (has_worker(self.workers(), worker_id@) && self.workers()[worker_index(
                self.workers(),
                worker_id@,
            )].stats.pending_reward_sats >= self.settings().min_payout_sats
                ==> self.payout_counter() < u64::MAX),
    {
        match find_worker(&self.workers, worker_id) {
            None => true,
            Some(i) => {
                proof {
                    lemma_worker_index(self.workers@, i as int);
                }
                self.workers[i].stats.pending_reward_sats < self.config.min_payout_sats
                    || self.payout_counter < u64::MAX
            },
        }
    }

    /// Whether every worker's pending rewards stay within the amount type
    /// when the rewards are credited.
    pub fn can_distribute(&self, rewards: &RewardMap) -> (r: bool)
        requires
            rewards.wf(),
        ensures
            r == forall|i: int|
                0 <= i < self.workers().len() ==> (#[trigger] self.workers()[i]).stats.pending_reward_sats
                    + amount_for(rewards@, self.workers()[i].key@) <= u64::MAX,
    {
        let mut i: usize = 0;
        while i < self.workers.len()
            invariant
                i <= self.workers@.len(),
                rewards.wf(),
                forall|k: int|
                    0 <= k < i ==> (#[trigger] self.workers@[k]).stats.pending_reward_sats + amount_for(
                        rewards@,
                        self.workers@[k].key@,
                    ) <= u64::MAX,
            decreases self.workers@.len() - i,
        {
            match rewards.get(self.workers[i].key.as_str()) {
                Some(amount) => {
                    if amount > u64::MAX - self.workers[i].stats.pending_reward_sats {
                        assert(self.workers()[i as int].stats.pending_reward_sats + amount_for(
                            rewards@,
                            self.workers()[i as int].key@,
                        ) > u64::MAX);
                        return false;
                    }
                },
                None => {},
            }
            i += 1;
        }
        assert forall|k: int| 0 <= k < self.workers().len() implies (
        #[trigger] self.workers()[k]).stats.pending_reward_sats + amount_for(
            rewards@,
            self.workers()[k].key@,
        ) <= u64::MAX by {
            assert(self.workers@[k].stats.pending_reward_sats + amount_for(
                rewards@,
                self.workers@[k].key@,
            ) <= u64::MAX);
        }
        true
    }

    /// Whether completing the payout with the given id keeps the paid rewards
    /// of its worker within the amount type. It does when there is no such
    /// payout, when the payout is settled, and when no such worker is known.
    pub fn can_complete(&self, payout_id: u64) -> (r: bool)
        requires
            self.wf(),
        ensures
            r == (has_payout(self.payouts(), payout_id) ==> {
                let payout = self.payouts()[payout_index(self.payouts(), payout_id)];
                payout.status.open() && has_worker(self.workers(), payout.worker_id@)
                    ==> self.workers()[worker_index(
                    self.workers(),
                    payout.worker_id@,
                )].stats.paid_reward_sats + payout.amount_sats <= u64::MAX
            }),
    {
        match find_payout(&self.payouts, payout_id) {
            None => true,
            Some(k) => {
                proof {
                    lemma_payout_index(self.payouts@, self.payout_counter, k as int);
                }
                if !self.payouts[k].status.is_open() {
                    return true;
                }
                match find_worker(&self.workers, self.payouts[k].worker_id.as_str()) {
                    None => true,
                    Some(i) => {
                        proof {
                            lemma_worker_index(self.workers@, i as int);
                        }
                        self.payouts[k].amount_sats <= u64::MAX
                            - self.workers[i].stats.paid_reward_sats
                    },
                }
            },
        }
    }

    /// Credits each worker the amount that the rewards hold for the id it is
    /// known under; amounts for unknown ids are dropped.
    pub fn distribute_rewards(&mut self, rewards: &RewardMap)
        requires
            old(self).wf(),
            rewards.wf(),
            forall|i: int|
                0 <= i < old(self).workers().len() ==> (#[trigger] old(self).workers()[i]).stats.pending_reward_sats
                    + amount_for(rewards@, old(self).workers()[i].key@) <= u64::MAX,
        ensures
            final(self).wf(),
            final(self).workers().len() == old(self).workers().len(),
            forall|i: int|
                0 <= i < old(self).workers().len() ==> (#[trigger] final(self).workers()[i]) == (WorkerEntry {
                    stats: WorkerStats {
                        pending_reward_sats: (old(self).workers()[i].stats.pending_reward_sats
                            + amount_for(rewards@, old(self).workers()[i].key@)) as u64,
                        ..old(self).workers()[i].stats
                    },
                    ..old(self).workers()[i]
                }),
            pending_total(final(self).workers()) == pending_total(old(self).workers()) + gained(
                old(self).workers(),
                rewards@,
            ),
            pending_total(final(self).workers()) - pending_total(old(self).workers()) <= tally_total(
                rewards@,
            ),
            final(self).settings() == old(self).settings(),
            final(self).shares() == old(self).shares(),
            final(self).blocks() == old(self).blocks(),
            final(self).payouts() == old(self).payouts(),
            final(self).share_counter() == old(self).share_counter(),
            final(self).payout_counter() == old(self).payout_counter(),
            final(self).current_height() == old(self).current_height(),
    {
        let ghost before = self.workers@;
        let n = self.workers.len();
        let mut i: usize = 0;
        assert(forall|k: int|
            0 <= k < self.blocks().len() ==> (#[trigger] self.blocks@[k]) == self.blocks()[k]);
        assert(forall|k: int|
            0 <= k < before.len() ==> (#[trigger] before[k]) == old(self).workers()[k]);
        while i < n
            invariant
                i <= n,
                n == before.len(),
                self.workers@.len() == n,
                rewards.wf(),
                before == old(self).workers(),
                forall|k: int|
                    0 <= k < n ==> (#[trigger] before[k]).stats.pending_reward_sats + amount_for(
                        rewards@,
                        before[k].key@,
                    ) <= u64::MAX,
                forall|k: int|
                    0 <= k < n ==> (#[trigger] self.workers@[k]) == if k < i {
                        WorkerEntry {
                            stats: WorkerStats {
                                pending_reward_sats: (before[k].stats.pending_reward_sats + amount_for(
                                    rewards@,
                                    before[k].key@,
                                )) as u64,
                                ..before[k].stats
                            },
                            ..before[k]
                        }
                    } else {
                        before[k]
                    },
                self.config == old(self).config,
                self.shares == old(self).shares,
                self.blocks == old(self).blocks,
                self.payouts == old(self).payouts,
                self.share_counter == old(self).share_counter,
                self.payout_counter == old(self).payout_counter,
                self.current_height == old(self).current_height,
            decreases n - i,
        {
            assert(self.workers@[i as int] == before[i as int]);
            match rewards.get(self.workers[i].key.as_str()) {
                Some(amount) => {
                    self.workers[i].stats.pending_reward_sats += amount;
                },
                None => {},
            }
            i += 1;
        }
        proof {
            let after = self.workers@;
            assert forall|x: int, y: int| 0 <= x < y < after.len() implies (#[trigger] after[x]).key@
                != (#[trigger] after[y]).key@ by {
                assert(before[x].key@ != before[y].key@);
            }
            assert forall|k: int| 0 <= k < after.len() implies (#[trigger] after[k]).stats.consistent()
                && after[k].stats.shares_submitted <= self.share_counter by {
                assert(before[k].stats.consistent());
            }
            lemma_same_difficulty(before, after);
            assert(forall|k: int|
                0 <= k < self.blocks().len() ==> (#[trigger] self.blocks@[k]) == old(self).blocks()[k]);
            lemma_credited_totals(before, after, rewards@, n as int);
            assert(before.subrange(0, n as int) =~= before);
            assert(after.subrange(0, n as int) =~= after);
            lemma_gained_bounded(before, rewards@);
        }
    }

    /// Creates a pending payout of a worker's whole pending balance under the
    /// next payout id, if the balance reaches the minimum payout; the balance
    /// is then zero. Nothing is created, and nothing changes, when the
    /// balance is lower. Fails when the worker is not known.
    pub fn create_payout(&mut self, worker_id: &str, address: &str, now: Timestamp) -> (r:
        MiningResult<Option<Payout>>)
        requires
            old(self).wf(),
            has_worker(old(self).workers(), worker_id@) ==> {
                let i = worker_index(old(self).workers(), worker_id@);
                let pending = old(self).workers()[i].stats.pending_reward_sats;
                pending >= old(self).settings().min_payout_sats ==> old(self).payout_counter()
                    < u64::MAX
            },
        ensures
            final(self).wf(),
            final(self).settings() == old(self).settings(),
            final(self).shares() == old(self).shares(),
            final(self).blocks() == old(self).blocks(),
            final(self).share_counter() == old(self).share_counter(),
            final(self).current_height() == old(self).current_height(),
            !has_worker(old(self).workers(), worker_id@) ==> {
                &&& r is Err
                &&& r->Err_0@ == (ErrorKind::Configuration, worker_not_found(worker_id@))
                &&& final(self).workers() == old(self).workers()
                &&& final(self).payouts() == old(self).payouts()
                &&& final(self).payout_counter() == old(self).payout_counter()
            },
            has_worker(old(self).workers(), worker_id@) ==> {
                let i = worker_index(old(self).workers(), worker_id@);
                let pending = old(self).workers()[i].stats.pending_reward_sats;
                if pending < old(self).settings().min_payout_sats {
                    &&& r is Ok
                    &&& r->Ok_0 is None
                    &&& final(self).workers() == old(self).workers()
                    &&& final(self).payouts() == old(self).payouts()
                    &&& final(self).payout_counter() == old(self).payout_counter()
                } else {
                    &&& r is Ok
                    &&& r->Ok_0 is Some
                    &&& is_new_payout(
                        r->Ok_0->0,
                        (old(self).payout_counter() + 1) as u64,
                        worker_id@,
                        pending,
                        address@,
                        now,
                    )
                    &&& final(self).payout_counter() == old(self).payout_counter() + 1
                    &&& final(self).workers() == old(self).workers().update(
                        i,
                        WorkerEntry {
                            stats: WorkerStats {
                                pending_reward_sats: 0,
                                ..old(self).workers()[i].stats
                            },
                            ..old(self).workers()[i]
                        },
                    )
                    &&& final(self).payouts() == old(self).payouts().push(r->Ok_0->0)
                }
            },
    {
        let ghost old_workers = self.workers@;
        let ghost old_payouts = self.payouts@;
        assert(forall|k: int|
            0 <= k < self.blocks().len() ==> (#[trigger] self.blocks@[k]) == self.blocks()[k]);
        match find_worker(&self.workers, worker_id) {
            None => Err(configuration_error(join("Worker not found: ", worker_id).as_str())),
            Some(i) => {
                proof {
                    lemma_worker_index(old_workers, i as int);
                }
                if self.workers[i].stats.pending_reward_sats < self.config.min_payout_sats {
                    return Ok(None);
                }
                assert(old(self).workers()[i as int].stats.pending_reward_sats
                    >= self.config.min_payout_sats);
                self.payout_counter = self.payout_counter + 1;
                let payout_id = self.payout_counter;
                let amount = self.workers[i].stats.pending_reward_sats;
                self.workers[i].stats.pending_reward_sats = 0;
                let payout = Payout {
                    id: payout_id,
                    worker_id: String::from_str(worker_id),
                    amount_sats: amount,
                    address: String::from_str(address),
                    txid: None,
                    status: PayoutStatus::Pending,
                    created_at: now,
                    completed_at: None,
                };
                self.payouts.push(payout.clone());
                proof {
                    let entry = self.workers@[i as int];
                    assert(self.workers@ =~= old_workers.update(i as int, entry));
                    lemma_totals_update(old_workers, i as int, entry);
                    assert forall|x: int, y: int| 0 <= x < y < self.workers@.len() implies (
                    #[trigger] self.workers@[x]).key@ != (#[trigger] self.workers@[y]).key@ by {
                        assert(old_workers[x].key@ != old_workers[y].key@);
                    }
                    assert forall|k: int| 0 <= k < self.workers@.len() implies (
                    #[trigger] self.workers@[k]).stats.consistent()
                        && self.workers@[k].stats.shares_submitted <= self.share_counter by {
                        assert(old_workers[k].stats.consistent());
                    }
                    assert forall|x: int, y: int| 0 <= x < y < self.payouts@.len() implies (
                    #[trigger] self.payouts@[x]).id < (#[trigger] self.payouts@[y]).id by {
                        if y < old_payouts.len() {
                            assert(old_payouts[x].id < old_payouts[y].id);
                        } else {
                            assert(old_payouts[x].id <= old(self).payout_counter);
                        }
                    }
                    assert forall|k: int| 0 <= k < self.payouts@.len() implies 1 <= (
                    #[trigger] self.payouts@[k]).id <= self.payout_counter by {
                        if k < old_payouts.len() {
                            assert(old_payouts[k].id <= old(self).payout_counter);
                        }
                    }
                }
                Ok(Some(payout))
            },
        }
    }

    /// Completes a payout that is pending or being sent, at `now` under a
    /// transaction id, and adds its amount to the paid rewards of its worker,
    /// if that worker is known. Fails, and changes nothing, when no payout
    /// has the given id, or when the payout is already completed or has
    /// failed: an amount is paid once.
    pub fn complete_payout(&mut self, payout_id: u64, txid: &str, now: Timestamp) -> (r:
        MiningResult<()>)
        requires
            old(self).wf(),
            has_payout(old(self).payouts(), payout_id) ==> {
                let payout = old(self).payouts()[payout_index(old(self).payouts(), payout_id)];
                payout.status.open() && has_worker(old(self).workers(), payout.worker_id@)
                    ==> old(self).workers()[worker_index(
                    old(self).workers(),
                    payout.worker_id@,
                )].stats.paid_reward_sats + payout.amount_sats <= u64::MAX
            },
        ensures
            final(self).wf(),
            final(self).settings() == old(self).settings(),
            final(self).shares() == old(self).shares(),
            final(self).blocks() == old(self).blocks(),
            final(self).share_counter() == old(self).share_counter(),
            final(self).payout_counter() == old(self).payout_counter(),
            final(self).current_height() == old(self).current_height(),
            !has_payout(old(self).payouts(), payout_id) ==> {
                &&& r is Err
                &&& r->Err_0@ == (ErrorKind::Configuration, payout_not_found(payout_id))
                &&& final(self).workers() == old(self).workers()
                &&& final(self).payouts() == old(self).payouts()
            },
            has_payout(old(self).payouts(), payout_id) && !old(self).payouts()[payout_index(
                old(self).payouts(),
                payout_id,
            )].status.open() ==> {
                &&& r is Err
                &&& r->Err_0@ == (ErrorKind::Configuration, payout_settled(payout_id))
                &&& final(self).workers() == old(self).workers()
                &&& final(self).payouts() == old(self).payouts()
            },
            has_payout(old(self).payouts(), payout_id) && old(self).payouts()[payout_index(
                old(self).payouts(),
                payout_id,
            )].status.open() ==> {
                let k = payout_index(old(self).payouts(), payout_id);
                let payout = old(self).payouts()[k];
                &&& r is Ok
                &&& final(self).payouts() == old(self).payouts().update(k, final(self).payouts()[k])
                &&& is_completed(payout, final(self).payouts()[k], txid@, now)
                &&& if has_worker(old(self).workers(), payout.worker_id@) {
                    let i = worker_index(old(self).workers(), payout.worker_id@);
                    final(self).workers() == old(self).workers().update(
                        i,
                        WorkerEntry {
                            stats: WorkerStats {
                                paid_reward_sats: (old(self).workers()[i].stats.paid_reward_sats
                                    + payout.amount_sats) as u64,
                                ..old(self).workers()[i].stats
                            },
                            ..old(self).workers()[i]
                        },
                    )
                } else {
                    final(self).workers() == old(self).workers()
                }
            },
    {
        let ghost old_workers = self.workers@;
        let ghost old_payouts = self.payouts@;
        assert(forall|k: int|
            0 <= k < self.blocks().len() ==> (#[trigger] self.blocks@[k]) == self.blocks()[k]);
        match find_payout(&self.payouts, payout_id) {
            None => {
                let mut message = join("Payout ", render_decimal(payout_id as u128).as_str());
                message.append(" not found");
                Err(configuration_error(message.as_str()))
            },
            Some(k) => {
                proof {
                    lemma_payout_index(old_payouts, self.payout_counter, k as int);
                }
                if !self.payouts[k].status.is_open() {
                    let mut message = join("Payout ", render_decimal(payout_id as u128).as_str());
                    message.append(" already settled");
                    return Err(configuration_error(message.as_str()));
                }
                self.payouts[k].txid = Some(String::from_str(txid));
                self.payouts[k].status = PayoutStatus::Completed;
                self.payouts[k].completed_at = Some(now);
                proof {
                    assert(self.payouts@ =~= old_payouts.update(k as int, self.payouts@[k as int]));
                    assert forall|x: int, y: int| 0 <= x < y < self.payouts@.len() implies (
                    #[trigger] self.payouts@[x]).id < (#[trigger] self.payouts@[y]).id by {
                        assert(old_payouts[x].id < old_payouts[y].id);
                    }
                    assert forall|j: int| 0 <= j < self.payouts@.len() implies 1 <= (
                    #[trigger] self.payouts@[j]).id <= self.payout_counter by {
                        assert(old_payouts[j].id <= self.payout_counter);
                    }
                }
                let amount = self.payouts[k].amount_sats;
                match find_worker(&self.workers, self.payouts[k].worker_id.as_str()) {
                    Some(i) => {
                        proof {
                            lemma_worker_index(old_workers, i as int);
                        }
                        self.workers[i].stats.paid_reward_sats += amount;
                        proof {
                            let entry = self.workers@[i as int];
                            assert(self.workers@ =~= old_workers.update(i as int, entry));
                            lemma_totals_update(old_workers, i as int, entry);
                            assert forall|x: int, y: int|
                                0 <= x < y < self.workers@.len() implies (
                            #[trigger] self.workers@[x]).key@ != (#[trigger] self.workers@[y]).key@ by {
                                assert(old_workers[x].key@ != old_workers[y].key@);
                            }
                            assert forall|j: int| 0 <= j < self.workers@.len() implies (
                            #[trigger] self.workers@[j]).stats.consistent()
                                && self.workers@[j].stats.shares_submitted <= self.share_counter by {
                                assert(old_workers[j].stats.consistent());
                            }
                        }
                    },
                    None => {},
                }
                Ok(())
            },
        }
    }

    /// The statistics of a worker, if it is known.
    pub fn get_worker_stats(&self, worker_id: &str) -> (r: Option<WorkerStats>)
        requires
            self.wf(),
        ensures
            has_worker(self.workers(), worker_id@) ==> r == Some(
                self.workers()[worker_index(self.workers(), worker_id@)].stats,
            ),
            !has_worker(self.workers(), worker_id@) ==> r is None,
    {
        match find_worker(&self.workers, worker_id) {
            Some(i) => {
                proof {
                    lemma_worker_index(self.workers@, i as int);
                }
                Some(self.workers[i].stats.clone())
            },
            None => None,
        }
    }

    /// The statistics of all workers, in the order in which they became known.
    pub fn all_worker_stats(&self) -> (r: Vec<WorkerStats>)
        ensures
            r@.len() == self.workers().len(),
            forall|i: int| 0 <= i < r@.len() ==> (#[trigger] r@[i]) == self.workers()[i].stats,
    {
        let mut out: Vec<WorkerStats> = Vec::new();
        let mut i: usize = 0;
        while i < self.workers.len()
            invariant
                i <= self.workers@.len(),
                out@.len() == i,
                forall|k: int| 0 <= k < i ==> (#[trigger] out@[k]) == self.workers@[k].stats,
            decreases self.workers@.len() - i,
        {
            out.push(self.workers[i].stats.clone());
            i += 1;
        }
        out
    }

    /// The payouts that are pending, oldest first.
    pub fn pending_payouts(&self) -> (r: Vec<Payout>)
        ensures
            r@ == pending_of(self.payouts()),
    {
        let mut out: Vec<Payout> = Vec::new();
        let mut i: usize = 0;
        assert(self.payouts@.subrange(0, 0) =~= Seq::<Payout>::empty());
        while i < self.payouts.len()
            invariant
                i <= self.payouts@.len(),
                out@ == pending_of(self.payouts@.subrange(0, i as int)),
            decreases self.payouts@.len() - i,
        {
            let ghost longer = self.payouts@.subrange(0, i + 1);
            assert(longer.drop_last() =~= self.payouts@.subrange(0, i as int));
            assert(longer.last() == self.payouts@[i as int]);
            let pending = match self.payouts[i].status {
                PayoutStatus::Pending => true,
                _ => false,
            };
            if pending {
                out.push(self.payouts[i].clone());
            }
            i += 1;
        }
        assert(self.payouts@.subrange(0, self.payouts@.len() as int) =~= self.payouts@);
        out
    }

    /// The sums over all workers, and the numbers of blocks and mature blocks.
    pub fn pool_stats(&self) -> (r: PoolStats)
        requires
            self.wf(),
        ensures
            r.total_workers == self.workers().len(),
            r.total_shares == accepted_total(self.workers()),
            r.total_difficulty == difficulty_total(self.workers()),
            r.total_pending_sats == pending_total(self.workers()),
            r.total_paid_sats == paid_total(self.workers()),
            r.blocks_found == self.blocks().len(),
            r.mature_blocks == mature_count(self.blocks()),
    {
        let n = self.workers.len();
        let mut shares: u128 = 0;
        let mut difficulty: u128 = 0;
        let mut pending: u128 = 0;
        let mut paid: u128 = 0;
        let mut i: usize = 0;
        assert(self.workers@.subrange(0, 0) =~= Seq::<WorkerEntry>::empty());
        assert(self.share_counter * u64::MAX <= u64::MAX * u64::MAX) by (nonlinear_arith)
            requires
                self.share_counter <= u64::MAX,
        ;
        while i < n
            invariant
                i <= n,
                n == self.workers@.len(),
                difficulty_total(self.workers@) <= u64::MAX * u64::MAX,
                shares == accepted_total(self.workers@.subrange(0, i as int)),
                difficulty == difficulty_total(self.workers@.subrange(0, i as int)),
                pending == pending_total(self.workers@.subrange(0, i as int)),
                paid == paid_total(self.workers@.subrange(0, i as int)),
                shares <= i * u64::MAX,
                pending <= i * u64::MAX,
                paid <= i * u64::MAX,
            decreases n - i,
        {
            let ghost longer = self.workers@.subrange(0, i + 1);
            assert(longer.drop_last() =~= self.workers@.subrange(0, i as int));
            assert(longer.last() == self.workers@[i as int]);
            proof {
                lemma_totals_prefix(self.workers@, i + 1);
                assert(i * u64::MAX + u64::MAX == (i + 1) * u64::MAX && (i + 1) * u64::MAX
                    <= usize::MAX * u64::MAX) by (nonlinear_arith)
                    requires
                        i < usize::MAX,
                ;
            }
            shares += self.workers[i].stats.shares_accepted as u128;
            difficulty += self.workers[i].stats.total_difficulty;
            pending += self.workers[i].stats.pending_reward_sats as u128;
            paid += self.workers[i].stats.paid_reward_sats as u128;
            i += 1;
        }
        assert(self.workers@.subrange(0, n as int) =~= self.workers@);
        let m = self.blocks.len();
        let mut mature: usize = 0;
        let mut k: usize = 0;
        assert(self.blocks@.subrange(0, 0) =~= Seq::<BlockReward>::empty());
        while k < m
            invariant
                k <= m,
                m == self.blocks@.len(),
                mature <= k,
                mature == mature_count(self.blocks@.subrange(0, k as int)),
            decreases m - k,
        {
            let ghost longer = self.blocks@.subrange(0, k + 1);
            assert(longer.drop_last() =~= self.blocks@.subrange(0, k as int));
            assert(longer.last() == self.blocks@[k as int]);
            if self.blocks[k].is_mature {
                mature += 1;
            }
            k += 1;
        }
        assert(self.blocks@.subrange(0, m as int) =~= self.blocks@);
        PoolStats {
            total_workers: n,
            total_shares: shares,
            total_difficulty: difficulty,
            blocks_found: m,
            mature_blocks: mature,
            total_pending_sats: pending,
            total_paid_sats: paid,
        }
    }

    /// Sets the current block height, which later shares are recorded under.
    pub fn set_block_height(&mut self, height: u64)
        ensures
            final(self).current_height() == height,
            old(self).wf() ==> final(self).wf(),
            final(self).settings() == old(self).settings(),
            final(self).workers() == old(self).workers(),
            final(self).shares() == old(self).shares(),
            final(self).blocks() == old(self).blocks(),
            final(self).payouts() == old(self).payouts(),
            final(self).share_counter() == old(self).share_counter(),
            final(self).payout_counter() == old(self).payout_counter(),
    {
        assert(forall|k: int|
            0 <= k < self.blocks().len() ==> (#[trigger] self.blocks@[k]) == self.blocks()[k]);
        assert(forall|k: int|
            0 <= k < self.workers().len() ==> (#[trigger] self.workers@[k]) == self.workers()[k]);
        self.current_height = height;
    }
}

/// Workers with the same accepted difficulty each have the same in total.
proof fn lemma_same_difficulty(before: Seq<WorkerEntry>, after: Seq<WorkerEntry>)
    requires
        after.len() == before.len(),
        forall|k: int|
            0 <= k < before.len() ==> (#[trigger] after[k]).stats.total_difficulty
                == before[k].stats.total_difficulty,
    ensures
        difficulty_total(after) == difficulty_total(before),
    decreases before.len(),
{
    if before.len() > 0 {
        assert(after.last().stats.total_difficulty == before.last().stats.total_difficulty) by {
            assert(after[after.len() - 1].stats.total_difficulty == before[before.len()
                - 1].stats.total_difficulty);
        }
        assert forall|k: int| 0 <= k < before.drop_last().len() implies (
        #[trigger] after.drop_last()[k]).stats.total_difficulty
            == before.drop_last()[k].stats.total_difficulty by {
            assert(after[k].stats.total_difficulty == before[k].stats.total_difficulty);
        }
        lemma_same_difficulty(before.drop_last(), after.drop_last());
    }
}

/// When the first `n` workers were credited their amounts of a tally, their
/// pending rewards grew by what they gained.
proof fn lemma_credited_totals(before: Seq<WorkerEntry>, after: Seq<WorkerEntry>, rewards: Tally, n: int)
    requires
        0 <= n <= before.len(),
        after.len() == before.len(),
        forall|k: int|
            0 <= k < n ==> (#[trigger] after[k]).stats.pending_reward_sats == before[k].stats.pending_reward_sats
                + amount_for(rewards, before[k].key@),
    ensures
        pending_total(after.subrange(0, n)) == pending_total(before.subrange(0, n)) + gained(
            before.subrange(0, n),
            rewards,
        ),
    decreases n,
{
    if n > 0 {
        lemma_credited_totals(before, after, rewards, n - 1);
        assert(after.subrange(0, n).drop_last() =~= after.subrange(0, n - 1));
        assert(before.subrange(0, n).drop_last() =~= before.subrange(0, n - 1));
        assert(after.subrange(0, n).last() == after[n - 1]);
        assert(before.subrange(0, n).last() == before[n - 1]);
    }
}

/// The rewards of a block by any method come to no more than what there is
/// to distribute, and hold one amount for each worker.
pub proof fn lemma_rewards_within_pool(
    config: RewardConfig,
    shares: Seq<Share>,
    height: u64,
    pool: u64,
    now: Timestamp,
)
    ensures
        unique_keys(rewards_for(config, shares, height, pool, now)),
        tally_total(rewards_for(config, shares, height, pool, now)) <= pool,
{
    let none = Seq::<(Seq<char>, u64)>::empty();
    match config.method {
        RewardMethod::Pps => {},
        RewardMethod::Pplns => {
            let counted = counted_shares(shares, false, height, config.pplns_window as nat);
            lemma_proportional_tally(counted, pool, difficulty_sum(counted));
        },
        RewardMethod::Prop => {
            let counted = counted_shares(shares, true, height, shares.len());
            lemma_proportional_tally(counted, pool, difficulty_sum(counted));
        },
        RewardMethod::Score => {
            let scores = score_tally(shares, now, config.score_decay_ppm);
            lemma_score_tally_unique(shares, now, config.score_decay_ppm);
            if tally_total(scores) > 0 {
                lemma_scaled_tally(scores, pool, tally_total(scores));
            }
        },
        RewardMethod::Solo => {
            match last_accepted_worker(shares) {
                Some(worker) => {
                    assert(seq![(worker, pool)] =~= none.push((worker, pool)));
                    lemma_total_push(none, (worker, pool));
                },
                None => {},
            }
        },
    }
}

/// When the rewards of a block are credited to the workers, the pending
/// rewards grow by no more than what there is to distribute: every floor
/// leaves its residue with the pool, and so does every amount for an id
/// under which no worker is known.
pub proof fn lemma_credit_within_pool(
    workers: Seq<WorkerEntry>,
    config: RewardConfig,
    shares: Seq<Share>,
    height: u64,
    pool: u64,
    now: Timestamp,
)
    requires
        unique_workers(workers),
    ensures
        gained(workers, rewards_for(config, shares, height, pool, now)) <= tally_total(
            rewards_for(config, shares, height, pool, now),
        ) <= pool,
{
    lemma_rewards_within_pool(config, shares, height, pool, now);
    lemma_gained_bounded(workers, rewards_for(config, shares, height, pool, now));
}

/// In every state of a distributor the ids of the shares in the log grow
/// strictly, and none exceeds the id that was last given out.
pub proof fn lemma_share_ids_grow(distributor: RewardDistributor, i: int, j: int)
    requires
        distributor.wf(),
        0 <= i < j < distributor.shares().len(),
    ensures
        distributor.shares()[i].id < distributor.shares()[j].id <= distributor.share_counter(),
{
}

/// In every state of a distributor the ids of the payouts grow strictly,
/// and none exceeds the id that was last given out.
pub proof fn lemma_payout_ids_grow(distributor: RewardDistributor, i: int, j: int)
    requires
        distributor.wf(),
        0 <= i < j < distributor.payouts().len(),
    ensures
        distributor.payouts()[i].id < distributor.payouts()[j].id <= distributor.payout_counter(),
{
}

/// In every state of a distributor the acceptance rate of every worker lies
/// between zero and one.
pub proof fn lemma_worker_rate_within_unit(distributor: RewardDistributor, i: int)
    requires
        distributor.wf(),
        0 <= i < distributor.workers().len(),
    ensures
        distributor.workers()[i].stats.acceptance().within_unit(),
{
    assert(distributor.workers()[i].stats.consistent());
}

/// In every state of a distributor every block is marked mature exactly
/// when it has the configured number of confirmations.
pub proof fn lemma_mature_when_confirmed(distributor: RewardDistributor, i: int)
    requires
        distributor.wf(),
        0 <= i < distributor.blocks().len(),
    ensures
        distributor.blocks()[i].is_mature <==> distributor.blocks()[i].confirmations
            >= distributor.settings().maturity_confirmations,
{
    assert(distributor.blocks()[i].maturity_matches(distributor.settings().maturity_confirmations));
}

/// The scores by worker have unique ids.
pub proof fn lemma_score_tally_unique(shares: Seq<Share>, now: Timestamp, decay_ppm: u32)
    ensures
        unique_keys(score_tally(shares, now, decay_ppm)),
    decreases shares.len(),
{
    if shares.len() > 0 {
        lemma_score_tally_unique(shares.drop_last(), now, decay_ppm);
        let before = score_tally(shares.drop_last(), now, decay_ppm);
        if shares.last().accepted {
            lemma_with_amount_unique(
                before,
                shares.last().worker_id@,
                capped_sum(
                    amount_for(before, shares.last().worker_id@),
                    share_score(shares.last(), now, decay_ppm),
                ),
            );
        }
    }
}

} // verus!
