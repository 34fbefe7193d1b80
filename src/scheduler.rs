//! Compute scheduler: a registry of GPU pools, dispatch of matrix tasks to
//! them, proof acceptance, per-pool reputation and slashing.
use std::collections::HashMap;
use vstd::prelude::*;

use crate::attestation::Pallet as AttestationLedger;
use crate::codec::H256;
use crate::ledger::{min_nat, AccountId, Balance, BlockNumber, Ledger};
use crate::settlement::remove_id;

verus! {

broadcast use vstd::std_specs::hash::group_hash_axioms;

pub type PoolId = u64;

pub type TaskId = u64;

/// Highest reputation and success rate a pool can have.
pub const MAX_REPUTATION: u32 = 100;

/// NVLink efficiency that a pool without NVLink declares.
pub const NO_NVLINK_EFFICIENCY: u32 = 100;

pub const MIN_NVLINK_EFFICIENCY: u32 = 120;

pub const MAX_NVLINK_EFFICIENCY: u32 = 150;

/// Task complexity (m·n·k) that one unit of a pool's price pays for.
pub const COMPLEXITY_UNIT: u128 = 1_000_000;

#[derive(Clone, Copy, Debug, PartialEq, Eq, Structural)]
pub enum PoolStatus {
    Active,
    Inactive,
    Deregistered,
}

#[derive(Clone, Copy, Debug, PartialEq, Eq, Structural)]
pub enum TaskPriority {
    Low,
    Normal,
    High,
    Critical,
}

#[derive(Clone, Copy, Debug, PartialEq, Eq, Structural)]
pub enum TaskStatus {
    Pending,
    Assigned,
    Computing,
    ProofSubmitted,
    Verifying,
    Completed,
    Failed,
}

/// Dimensions of a matrix product task.
#[derive(Clone, Copy, Debug, PartialEq, Eq, Structural)]
pub struct TaskDimensions {
    pub m: u32,
    pub n: u32,
    pub k: u32,
}

/// The weighted components of a pool's score and their sum.
#[derive(Clone, Copy, Debug, PartialEq, Eq, Structural, Default)]
pub struct PoolScore {
    pub reputation_score: u32,
    pub success_rate_score: u32,
    pub price_score: u32,
    pub nvlink_score: u32,
    pub final_score: u32,
}

/// Whether an NVLink efficiency lies in the band allowed for the flag:
/// exactly 100 without NVLink, 120 to 150 with it.
pub open spec fn nvlink_ok(has_nvlink: bool, efficiency: u32) -> bool {
    if has_nvlink {
        MIN_NVLINK_EFFICIENCY <= efficiency <= MAX_NVLINK_EFFICIENCY
    } else {
        efficiency == NO_NVLINK_EFFICIENCY
    }
}

pub fn ensure_nvlink(has_nvlink: bool, nvlink_efficiency: u32) -> (r: bool)
    ensures
        r == nvlink_ok(has_nvlink, nvlink_efficiency),
{
    if has_nvlink {
        MIN_NVLINK_EFFICIENCY <= nvlink_efficiency && nvlink_efficiency <= MAX_NVLINK_EFFICIENCY
    } else {
        nvlink_efficiency == NO_NVLINK_EFFICIENCY
    }
}

/// `m·n·k`.
pub open spec fn complexity(d: TaskDimensions) -> nat {
    d.m as nat * d.n as nat * d.k as nat
}

/// `max(1, complexity / 1_000_000)`.
pub open spec fn complexity_factor(d: TaskDimensions) -> nat {
    let f = complexity(d) / (COMPLEXITY_UNIT as nat);
    if f >= 1 {
        f
    } else {
        1
    }
}

/// The reward of a task: the price times the complexity factor, scaled by
/// `efficiency / 100` (truncating) when the pool has NVLink; `None` when an
/// intermediate product leaves the range of a balance.
pub open spec fn reward_of(d: TaskDimensions, price: nat, has_nvlink: bool, efficiency: u32) -> Option<
    nat,
> {
    let base = price * complexity_factor(d);
    if base > u128::MAX {
        None
    } else if has_nvlink {
        if base * efficiency > u128::MAX {
            None
        } else {
            Some((base * efficiency / 100) as nat)
        }
    } else {
        Some(base)
    }
}

pub fn calculate_reward(
    dimensions: TaskDimensions,
    price_per_task: Balance,
    has_nvlink: bool,
    nvlink_efficiency: u32,
) -> (r: Option<Balance>)
    ensures
        match reward_of(dimensions, price_per_task as nat, has_nvlink, nvlink_efficiency) {
            Some(v) => r == Some(v as Balance),
            None => r is None,
        },
{
    let m = dimensions.m as u128;
    let n = dimensions.n as u128;
    let k = dimensions.k as u128;
    assert(m * n <= 0xffff_ffffu128 * 0xffff_ffffu128) by (nonlinear_arith)
        requires
            m <= 0xffff_ffffu128,
            n <= 0xffff_ffffu128,
    ;
    let mn = m * n;
    assert(mn * k <= 0xffff_ffff_ffff_ffff_ffff_ffffu128 * 0xffff_ffffu128) by (nonlinear_arith)
        requires
            mn <= 0xffff_ffffu128 * 0xffff_ffffu128,
            k <= 0xffff_ffffu128,
    ;
    let c = mn * k;
    let quotient = c / COMPLEXITY_UNIT;
    let factor: u128 = if quotient >= 1 {
        quotient
    } else {
        1
    };
    let base = match price_per_task.checked_mul(factor) {
        Some(v) => v,
        None => return None,
    };
    if has_nvlink {
        match base.checked_mul(nvlink_efficiency as u128) {
            Some(v) => Some(v / 100),
            None => None,
        }
    } else {
        Some(base)
    }
}

/// The price component before weighting: 100 when all candidate prices are
/// equal, else `100 − 100·(price − min)/(max − min)` (truncating, and never
/// below 0).
pub open spec fn price_norm(price: nat, min_price: nat, max_price: nat) -> nat {
    if max_price == min_price {
        100
    } else {
        let spread = if max_price >= min_price {
            (max_price - min_price) as nat
        } else {
            0
        };
        let delta = if price >= min_price {
            (price - min_price) as nat
        } else {
            0
        };
        let q = if spread == 0 {
            0
        } else {
            delta * 100 / spread
        };
        if q >= 100 {
            0
        } else {
            (100 - q) as nat
        }
    }
}

pub open spec fn min_u32(a: u32, b: u32) -> nat {
    if a <= b {
        a as nat
    } else {
        b as nat
    }
}

/// The score of a pool given the lowest and highest price among the pools
/// compared with it.
pub open spec fn pool_score_of(
    reputation: u32,
    success_rate: u32,
    price: nat,
    has_nvlink: bool,
    efficiency: u32,
    min_price: nat,
    max_price: nat,
) -> PoolScore {
    let rep = min_u32(reputation, MAX_REPUTATION) * 40;
    let sr = min_u32(success_rate, MAX_REPUTATION) * 30;
    let pr = price_norm(price, min_price, max_price) * 20;
    let nv = if has_nvlink {
        min_u32(efficiency, MAX_NVLINK_EFFICIENCY) * 100 / 150
    } else {
        0
    } * 10;
    PoolScore {
        reputation_score: rep as u32,
        success_rate_score: sr as u32,
        price_score: pr as u32,
        nvlink_score: nv as u32,
        final_score: (rep + sr + pr + nv) as u32,
    }
}

fn normalized_price(price: u128, min_price: u128, max_price: u128) -> (r: u32)
    ensures
        r == price_norm(price as nat, min_price as nat, max_price as nat),
        r <= 100,
{
    if max_price == min_price {
        return 100;
    }
    let spread = max_price.saturating_sub(min_price);
    let delta = price.saturating_sub(min_price);
    if spread == 0 {
        return 100;
    }
    if delta >= spread {
        assert(delta as nat * 100 / spread as nat >= 100) by {
            assert(delta as nat * 100 >= spread as nat * 100) by (nonlinear_arith)
                requires
                    delta >= spread,
            ;
            vstd::arithmetic::div_mod::lemma_div_is_ordered(
                spread as int * 100,
                delta as int * 100,
                spread as int,
            );
            vstd::arithmetic::div_mod::lemma_div_by_multiple(100, spread as int);
            assert(spread as int * 100 == 100 * spread as int);
        }
        return 0;
    }
    // Long division of 100·delta by spread, one addition of delta at a time,
    // keeping the remainder below spread so that nothing overflows.
    let mut q: u128 = 0;
    let mut acc: u128 = 0;
    let mut k: u128 = 0;
    while k < 100
        invariant
            0 < spread,
            delta < spread,
            k <= 100,
            q <= k,
            acc < spread,
            q as int * spread as int + acc as int == k as int * delta as int,
        decreases 100 - k,
    {
        if delta >= spread - acc {
            acc = delta - (spread - acc);
            q = q + 1;
        } else {
            acc = acc + delta;
        }
        k = k + 1;
        assert(q as int * spread as int == (q as int - 1) * spread as int + spread as int
            && k as int * delta as int == (k as int - 1) * delta as int + delta as int) by (nonlinear_arith);
    }
    proof {
        vstd::arithmetic::div_mod::lemma_fundamental_div_mod_converse(
            delta as int * 100,
            spread as int,
            q as int,
            acc as int,
        );
        assert(delta as int * 100 == q as int * spread as int + acc as int);
    }
    if q >= 100 {
        0
    } else {
        (100 - q) as u32
    }
}

pub fn calculate_pool_score(
    reputation: u32,
    success_rate: u32,
    price: Balance,
    has_nvlink: bool,
    nvlink_efficiency: u32,
    min_price: u128,
    max_price: u128,
) -> (r: PoolScore)
    ensures
        r == pool_score_of(
            reputation,
            success_rate,
            price as nat,
            has_nvlink,
            nvlink_efficiency,
            min_price as nat,
            max_price as nat,
        ),
        r.final_score <= 10_000,
{
    let rep: u32 = if reputation <= MAX_REPUTATION {
        reputation
    } else {
        MAX_REPUTATION
    };
    let sr: u32 = if success_rate <= MAX_REPUTATION {
        success_rate
    } else {
        MAX_REPUTATION
    };
    let norm = normalized_price(price, min_price, max_price);
    let nv: u32 = if has_nvlink {
        let e: u32 = if nvlink_efficiency <= MAX_NVLINK_EFFICIENCY {
            nvlink_efficiency
        } else {
            MAX_NVLINK_EFFICIENCY
        };
        e * 100 / 150
    } else {
        0
    };
    let reputation_score = rep * 40;
    let success_rate_score = sr * 30;
    let price_score = norm * 20;
    let nvlink_score = nv * 10;
    PoolScore {
        reputation_score,
        success_rate_score,
        price_score,
        nvlink_score,
        final_score: reputation_score + success_rate_score + price_score + nvlink_score,
    }
}

/// A registered GPU pool.
#[derive(Clone, Debug, PartialEq, Eq)]
pub struct ComputePool {
    pub pool_id: PoolId,
    pub owner: AccountId,
    pub gpu_model: Vec<u8>,
    pub gpu_memory: u32,
    pub has_nvlink: bool,
    pub nvlink_efficiency: u32,
    pub price_per_task: Balance,
    pub reputation: u32,
    pub success_rate: u32,
    pub total_tasks: u32,
    pub completed_tasks: u32,
    pub failed_tasks: u32,
    pub status: PoolStatus,
    pub deposit_held: Balance,
    pub score: PoolScore,
}

/// A matrix task and where it stands.
#[derive(Clone, Copy, Debug, PartialEq, Eq)]
pub struct ComputeTask {
    pub task_id: TaskId,
    pub user: AccountId,
    pub pool_id: PoolId,
    pub dimensions: TaskDimensions,
    pub priority: TaskPriority,
    pub status: TaskStatus,
    pub submitted_at: BlockNumber,
    pub proof_hash: Option<H256>,
    pub verification_result: Option<bool>,
    pub reward_amount: Option<Balance>,
}

/// Outcome counters of a pool owner across its tasks.
#[derive(Clone, Copy, Debug, PartialEq, Eq, Structural)]
pub struct ReputationInfo {
    pub reputation: u32,
    pub total_tasks: u32,
    pub successful_tasks: u32,
    pub failed_tasks: u32,
}

/// Reputation of an owner never seen.
pub const DEFAULT_REPUTATION: u32 = 80;

impl Default for ReputationInfo {
    fn default() -> (r: ReputationInfo)
        ensures
            r == (ReputationInfo {
                reputation: DEFAULT_REPUTATION,
                total_tasks: 0,
                successful_tasks: 0,
                failed_tasks: 0,
            }),
    {
        ReputationInfo { reputation: DEFAULT_REPUTATION, total_tasks: 0, successful_tasks: 0, failed_tasks: 0 }
    }
}

/// What a user locked for a task: its reward for the pool owner and a
/// deposit returned on claim.
#[derive(Clone, Copy, Debug, PartialEq, Eq, Structural)]
pub struct TaskEscrow {
    pub user: AccountId,
    pub pool_owner: AccountId,
    pub reward_amount: Balance,
    pub task_deposit: Balance,
    pub claimed: bool,
}

#[derive(Clone, Copy, Debug, PartialEq, Eq, Structural)]
pub struct Config {
    pub pool_deposit: Balance,
    pub task_deposit: Balance,
    /// Most a pool loses from its deposit on one failed task.
    pub failure_slash: Balance,
    pub task_timeout: BlockNumber,
    pub max_gpu_model_len: u32,
    pub min_pool_stake: Balance,
    pub stake_slash_percent: u32,
    pub max_tasks_per_pool: u32,
    pub initial_reputation: u32,
}

#[derive(Clone, Copy, Debug, PartialEq, Eq, Structural)]
pub enum Error {
    PoolAlreadyExists,
    PoolNotFound,
    NotPoolOwner,
    PoolInactive,
    InvalidNvlinkEfficiency,
    InvalidDimensions,
    TaskNotFound,
    NoAvailablePool,
    InvalidTaskState,
    NotTaskUser,
    NotAssignedPoolOwner,
    InvalidProof,
    RewardNotAvailable,
    RewardAlreadyClaimed,
    TaskExpired,
    DisputeNotAllowed,
    TooManyActiveTasks,
    ActiveTasksExist,
    InsufficientBalance,
    ArithmeticOverflow,
    InsufficientStake,
    StakeNotFound,
}

/// One staker's stake in a pool.
#[derive(Clone, Copy, Debug, PartialEq, Eq, Structural)]
pub struct StakeEntry {
    pub who: AccountId,
    pub amount: Balance,
}

/// The sum of the first `n` stakes.
pub open spec fn stake_sum(s: Seq<StakeEntry>, n: nat) -> nat
    decreases n,
{
    if n == 0 {
        0
    } else {
        stake_sum(s, (n - 1) as nat) + s[n - 1].amount as nat
    }
}

/// The stake of `who` among the first `n` entries (0 without an entry).
pub open spec fn stake_in(s: Seq<StakeEntry>, who: AccountId, n: nat) -> nat
    decreases n,
{
    if n == 0 {
        0
    } else if s[n - 1].who == who {
        s[n - 1].amount as nat
    } else {
        stake_in(s, who, (n - 1) as nat)
    }
}

/// No staker has two entries.
pub open spec fn stakers_unique(s: Seq<StakeEntry>) -> bool {
    forall|i: int, j: int| 0 <= i < s.len() && 0 <= j < s.len() && i != j ==> #[trigger] s[i].who != #[trigger] s[j].who
}

/// A pool's total stake is the sum of its stakes, one entry per staker.
pub open spec fn stakes_consistent(slot: PoolSlot) -> bool {
    &&& slot.total_stake as nat == stake_sum(slot.stakes@, slot.stakes@.len())
    &&& stakers_unique(slot.stakes@)
}

proof fn lemma_stake_push(s: Seq<StakeEntry>, e: StakeEntry, who: AccountId, n: nat)
    requires
        n <= s.len(),
    ensures
        stake_sum(s.push(e), n) == stake_sum(s, n),
        stake_in(s.push(e), who, n) == stake_in(s, who, n),
    decreases n,
{
    if n > 0 {
        lemma_stake_push(s, e, who, (n - 1) as nat);
        assert(s.push(e)[n - 1] == s[n - 1]);
    }
}

proof fn lemma_stake_update(s: Seq<StakeEntry>, i: int, amount: Balance, who: AccountId, n: nat)
    requires
        0 <= i < s.len(),
        n <= s.len(),
        stakers_unique(s),
    ensures
        i < n ==> stake_sum(s.update(i, StakeEntry { amount, ..s[i] }), n) + s[i].amount
            == stake_sum(s, n) + amount,
        i >= n ==> stake_sum(s.update(i, StakeEntry { amount, ..s[i] }), n) == stake_sum(s, n),
        i < n && who == s[i].who ==> stake_in(s.update(i, StakeEntry { amount, ..s[i] }), who, n) == amount,
        who != s[i].who ==> stake_in(s.update(i, StakeEntry { amount, ..s[i] }), who, n) == stake_in(s, who, n),
        i >= n ==> stake_in(s.update(i, StakeEntry { amount, ..s[i] }), who, n) == stake_in(s, who, n),
    decreases n,
{
    if n > 0 {
        lemma_stake_update(s, i, amount, who, (n - 1) as nat);
        if n - 1 != i {
            assert(s.update(i, StakeEntry { amount, ..s[i] })[n - 1] == s[n - 1]);
            if n - 1 > i && who == s[i].who {
                assert(s[n - 1].who != s[i].who);
            }
        }
    }
}

proof fn lemma_stake_le_sum(s: Seq<StakeEntry>, who: AccountId, n: nat)
    requires
        n <= s.len(),
    ensures
        stake_in(s, who, n) <= stake_sum(s, n),
    decreases n,
{
    if n > 0 {
        lemma_stake_le_sum(s, who, (n - 1) as nat);
    }
}

/// With no entry for `who`, its stake is 0.
proof fn lemma_stake_absent(s: Seq<StakeEntry>, who: AccountId, n: nat)
    requires
        n <= s.len(),
        forall|j: int| 0 <= j < n ==> s[j].who != who,
    ensures
        stake_in(s, who, n) == 0,
    decreases n,
{
    if n > 0 {
        lemma_stake_absent(s, who, (n - 1) as nat);
    }
}

/// Everything kept under one pool identifier. The slot outlives the pool:
/// stakes stay after deregistration.
pub struct PoolSlot {
    pub pool: Option<ComputePool>,
    /// Tasks of the pool that are not yet terminal.
    pub task_ids: Vec<TaskId>,
    pub active_tasks: u32,
    /// At most one entry per staker.
    pub stakes: Vec<StakeEntry>,
    pub total_stake: Balance,
}

/// Everything kept under one task identifier.
pub struct TaskSlot {
    pub task: ComputeTask,
    /// The reward the pool owner may claim, once the task completed.
    pub reward: Option<Balance>,
    pub escrow: Option<TaskEscrow>,
    /// Whether the task's user has disputed its verdict; a verdict is
    /// disputed at most once.
    pub disputed: bool,
}

pub open spec fn is_terminal(status: TaskStatus) -> bool {
    status == TaskStatus::Completed || status == TaskStatus::Failed
}

pub open spec fn min_nat_u32(a: nat, b: nat) -> nat {
    if a <= b {
        a
    } else {
        b
    }
}

/// A pool's success rate: `min(100, completed·100 / total)`.
pub open spec fn success_rate_of(completed: u32, total: u32) -> nat {
    min_nat_u32(completed as nat * 100 / total as nat, 100)
}

/// A pool's counters agree: every finished task is counted once as completed
/// or failed, and the success rate follows from them; reputation and NVLink
/// efficiency lie in their bands.
pub open spec fn pool_consistent(p: ComputePool) -> bool {
    &&& p.total_tasks == p.completed_tasks + p.failed_tasks
    &&& p.total_tasks > 0 ==> p.success_rate == success_rate_of(p.completed_tasks, p.total_tasks)
    &&& p.success_rate <= MAX_REPUTATION
    &&& p.reputation <= MAX_REPUTATION
    &&& nvlink_ok(p.has_nvlink, p.nvlink_efficiency)
}

/// A pool after one of its tasks ended: the counters move (unless the total
/// is already at its ceiling), the success rate follows them, and reputation
/// gains one point on success (up to 100) or loses two on failure (down to 0).
pub open spec fn after_outcome(p: ComputePool, success: bool) -> ComputePool {
    let counted = p.total_tasks < u32::MAX;
    let total: nat = if counted {
        p.total_tasks as nat + 1
    } else {
        p.total_tasks as nat
    };
    let completed: nat = if counted && success {
        p.completed_tasks as nat + 1
    } else {
        p.completed_tasks as nat
    };
    let failed: nat = if counted && !success {
        p.failed_tasks as nat + 1
    } else {
        p.failed_tasks as nat
    };
    ComputePool {
        total_tasks: total as u32,
        completed_tasks: completed as u32,
        failed_tasks: failed as u32,
        success_rate: if total > 0 {
            min_nat_u32(completed * 100 / total, 100) as u32
        } else {
            p.success_rate
        },
        reputation: if success {
            min_nat_u32(p.reputation as nat + 1, 100) as u32
        } else if p.reputation >= 2 {
            (p.reputation - 2) as u32
        } else {
            0
        },
        ..p
    }
}

pub open spec fn sat_inc(x: u32) -> u32 {
    if x < u32::MAX {
        (x + 1) as u32
    } else {
        x
    }
}

/// An owner's reputation record after one of its tasks ended.
pub open spec fn rep_after_outcome(r: ReputationInfo, success: bool) -> ReputationInfo {
    ReputationInfo {
        reputation: if success {
            min_nat_u32(r.reputation as nat + 1, 100) as u32
        } else if r.reputation >= 2 {
            (r.reputation - 2) as u32
        } else {
            0
        },
        total_tasks: sat_inc(r.total_tasks),
        successful_tasks: if success {
            sat_inc(r.successful_tasks)
        } else {
            r.successful_tasks
        },
        failed_tasks: if success {
            r.failed_tasks
        } else {
            sat_inc(r.failed_tasks)
        },
    }
}

pub open spec fn sat_add_u128(a: Balance, b: Balance) -> Balance {
    if a + b > u128::MAX {
        u128::MAX
    } else {
        (a + b) as u128
    }
}

pub struct Pallet {
    pub config: Config,
    /// Pool `i` is kept at index `i`.
    pub pools: Vec<PoolSlot>,
    /// Task `i` is kept at index `i`.
    pub tasks: Vec<TaskSlot>,
    pub pool_by_owner: HashMap<AccountId, PoolId>,
    pub miner_reputation: HashMap<AccountId, ReputationInfo>,
}

impl Pallet {
    pub open spec fn has_pool(self, id: PoolId) -> bool {
        id < self.pools@.len() && self.pools@[id as int].pool is Some
    }

    pub open spec fn pool(self, id: PoolId) -> ComputePool {
        self.pools@[id as int].pool.unwrap()
    }

    pub open spec fn active_count(self, id: PoolId) -> u32 {
        if id < self.pools@.len() {
            self.pools@[id as int].active_tasks
        } else {
            0
        }
    }

    pub open spec fn has_task(self, id: TaskId) -> bool {
        id < self.tasks@.len()
    }

    pub open spec fn task(self, id: TaskId) -> ComputeTask {
        self.tasks@[id as int].task
    }

    pub open spec fn reward(self, id: TaskId) -> Option<Balance> {
        self.tasks@[id as int].reward
    }

    pub open spec fn escrow(self, id: TaskId) -> Option<TaskEscrow> {
        self.tasks@[id as int].escrow
    }

    pub open spec fn owns_pool(self, owner: AccountId) -> bool {
        self.pool_by_owner@.contains_key(owner)
    }

    pub open spec fn stake_of(self, id: PoolId, who: AccountId) -> nat {
        if id < self.pools@.len() {
            stake_in(self.pools@[id as int].stakes@, who, self.pools@[id as int].stakes@.len())
        } else {
            0
        }
    }

    pub open spec fn total_stake_of(self, id: PoolId) -> nat {
        if id < self.pools@.len() {
            self.pools@[id as int].total_stake as nat
        } else {
            0
        }
    }

    /// Pools and tasks sit at their own index; every stored pool is
    /// consistent; an owner has at most one pool, found through the owner
    /// index; each pool's total stake is the sum of its stakes.
    pub open spec fn wf(self) -> bool {
        &&& self.pools@.len() < u64::MAX
        &&& self.tasks@.len() < u64::MAX
        &&& forall|id: PoolId| #[trigger]
            self.has_pool(id) ==> self.pool(id).pool_id == id && pool_consistent(self.pool(id))
                && self.owns_pool(self.pool(id).owner) && self.pool_by_owner@[self.pool(id).owner]
                == id
        &&& forall|o: AccountId| #[trigger]
            self.owns_pool(o) ==> self.has_pool(self.pool_by_owner@[o]) && self.pool(
                self.pool_by_owner@[o],
            ).owner == o
        &&& forall|id: TaskId| #[trigger] self.has_task(id) ==> self.task(id).task_id == id
        &&& forall|q: int| 0 <= q < self.pools@.len() ==> #[trigger] stakes_consistent(self.pools@[q])
    }

    pub fn new(config: Config) -> (r: Pallet)
        ensures
            r.wf(),
            r.config == config,
            r.pools@.len() == 0,
            r.tasks@.len() == 0,
            forall|o: AccountId| !r.owns_pool(o),
    {
        Pallet {
            config,
            pools: Vec::new(),
            tasks: Vec::new(),
            pool_by_owner: HashMap::new(),
            miner_reputation: HashMap::new(),
        }
    }

    pub fn next_pool_id(&self) -> (r: PoolId)
        ensures
            r == self.pools@.len(),
    {
        self.pools.len() as u64
    }

    pub fn next_task_id(&self) -> (r: TaskId)
        ensures
            r == self.tasks@.len(),
    {
        self.tasks.len() as u64
    }

    pub fn pools(&self, id: PoolId) -> (r: Option<&ComputePool>)
        ensures
            match r {
                Some(p) => self.has_pool(id) && *p == self.pool(id),
                None => !self.has_pool(id),
            },
    {
        if id < self.pools.len() as u64 {
            self.pools[id as usize].pool.as_ref()
        } else {
            None
        }
    }

    pub fn tasks(&self, id: TaskId) -> (r: Option<ComputeTask>)
        ensures
            match r {
                Some(t) => self.has_task(id) && t == self.task(id),
                None => !self.has_task(id),
            },
    {
        if id < self.tasks.len() as u64 {
            Some(self.tasks[id as usize].task)
        } else {
            None
        }
    }

    pub fn rewards(&self, id: TaskId) -> (r: Option<Balance>)
        ensures
            r == (if self.has_task(id) {
                self.reward(id)
            } else {
                None
            }),
    {
        if id < self.tasks.len() as u64 {
            self.tasks[id as usize].reward
        } else {
            None
        }
    }

    pub fn task_escrow(&self, id: TaskId) -> (r: Option<TaskEscrow>)
        ensures
            r == (if self.has_task(id) {
                self.escrow(id)
            } else {
                None
            }),
    {
        if id < self.tasks.len() as u64 {
            self.tasks[id as usize].escrow
        } else {
            None
        }
    }

    pub fn active_task_count(&self, id: PoolId) -> (r: u32)
        ensures
            r == self.active_count(id),
    {
        if id < self.pools.len() as u64 {
            self.pools[id as usize].active_tasks
        } else {
            0
        }
    }

    pub fn pool_by_owner(&self, owner: AccountId) -> (r: Option<PoolId>)
        ensures
            match r {
                Some(id) => self.owns_pool(owner) && id == self.pool_by_owner@[owner],
                None => !self.owns_pool(owner),
            },
    {
        match self.pool_by_owner.get(&owner) {
            Some(id) => Some(*id),
            None => None,
        }
    }

    /// The entry of `who` among the stakes of slot `i`, if any.
    fn stake_index(&self, i: usize, who: AccountId) -> (r: Option<usize>)
        requires
            i < self.pools@.len(),
        ensures
            match r {
                Some(k) => k < self.pools@[i as int].stakes@.len() && self.pools@[i as int].stakes@[k as int].who
                    == who && stake_in(self.pools@[i as int].stakes@, who, self.pools@[i as int].stakes@.len())
                    == self.pools@[i as int].stakes@[k as int].amount,
                None => (forall|j: int| 0 <= j < self.pools@[i as int].stakes@.len() ==> #[trigger] self.pools@[i as int].stakes@[j].who != who)
                    && stake_in(self.pools@[i as int].stakes@, who, self.pools@[i as int].stakes@.len()) == 0,
            },
    {
        let ghost s = self.pools@[i as int].stakes@;
        let mut k: usize = self.pools[i].stakes.len();
        while k > 0
            invariant
                k <= s.len(),
                s == self.pools@[i as int].stakes@,
                i < self.pools@.len(),
                stake_in(s, who, s.len()) == stake_in(s, who, k as nat),
                forall|j: int| k <= j < s.len() ==> #[trigger] s[j].who != who,
            decreases k,
        {
            if self.pools[i].stakes[k - 1].who == who {
                return Some(k - 1);
            }
            k = k - 1;
        }
        None
    }

    pub fn pool_stakes(&self, id: PoolId, who: AccountId) -> (r: Balance)
        ensures
            r == self.stake_of(id, who),
    {
        if id < self.pools.len() as u64 {
            match self.stake_index(id as usize, who) {
                Some(k) => self.pools[id as usize].stakes[k].amount,
                None => 0,
            }
        } else {
            0
        }
    }

    pub fn total_pool_stake(&self, id: PoolId) -> (r: Balance)
        ensures
            r == self.total_stake_of(id),
    {
        if id < self.pools.len() as u64 {
            self.pools[id as usize].total_stake
        } else {
            0
        }
    }

    pub fn miner_reputation(&self, who: AccountId) -> (r: ReputationInfo)
        ensures
            r == (if self.miner_reputation@.contains_key(who) {
                self.miner_reputation@[who]
            } else {
                ReputationInfo {
                    reputation: DEFAULT_REPUTATION,
                    total_tasks: 0,
                    successful_tasks: 0,
                    failed_tasks: 0,
                }
            }),
    {
        match self.miner_reputation.get(&who) {
            Some(r) => *r,
            None => ReputationInfo::default(),
        }
    }

    /// A change that keeps every pool's identity and owner and every pool
    /// consistent, and touches neither tasks nor the owner index, keeps the
    /// scheduler well-formed.
    pub proof fn lemma_pools_updated(self, new: Pallet)
        requires
            self.wf(),
            new.pools@.len() == self.pools@.len(),
            new.tasks@.len() == self.tasks@.len(),
            forall|t: TaskId| #[trigger] new.has_task(t) ==> new.task(t).task_id == self.task(t).task_id,
            new.pool_by_owner == self.pool_by_owner,
            forall|q: PoolId| #[trigger] new.has_pool(q) == self.has_pool(q),
            forall|q: PoolId| #[trigger]
                self.has_pool(q) ==> new.pool(q).pool_id == self.pool(q).pool_id && new.pool(q).owner
                    == self.pool(q).owner && pool_consistent(new.pool(q)),
            forall|q: int|
                0 <= q < self.pools@.len() ==> stakes_consistent(#[trigger] new.pools@[q]) || (
                new.pools@[q].stakes == self.pools@[q].stakes && new.pools@[q].total_stake
                    == self.pools@[q].total_stake),
        ensures
            new.wf(),
    {
        assert forall|q: int| 0 <= q < new.pools@.len() implies #[trigger] stakes_consistent(new.pools@[q]) by {
            assert(stakes_consistent(self.pools@[q]));
        }
        assert forall|id: PoolId| #[trigger] new.has_pool(id) implies new.pool(id).pool_id == id
            && pool_consistent(new.pool(id)) && new.owns_pool(new.pool(id).owner)
            && new.pool_by_owner@[new.pool(id).owner] == id by {
            assert(self.has_pool(id));
        }
        assert forall|o: AccountId| #[trigger] new.owns_pool(o) implies new.has_pool(
            new.pool_by_owner@[o],
        ) && new.pool(new.pool_by_owner@[o]).owner == o by {
            assert(self.owns_pool(o));
            assert(self.has_pool(self.pool_by_owner@[o]));
        }
        assert forall|id: TaskId| #[trigger] new.has_task(id) implies new.task(id).task_id == id by {
            assert(self.has_task(id));
        }
    }

    /// Pools other than `id` keep their slot, tasks and owner index stay.
    pub open spec fn only_pool_changed(self, new: Pallet, id: PoolId) -> bool {
        &&& new.config == self.config
        &&& new.pools@.len() == self.pools@.len()
        &&& forall|q: int| 0 <= q < self.pools@.len() && q != id ==> #[trigger] new.pools@[q] == self.pools@[q]
        &&& new.tasks == self.tasks
    }

    /// The error `register_pool` fails with, if any.
    pub open spec fn register_error(
        self,
        ledger: Ledger,
        owner: AccountId,
        gpu_model: Seq<u8>,
        gpu_memory: u32,
        has_nvlink: bool,
        nvlink_efficiency: u32,
        price_per_task: Balance,
    ) -> Option<Error> {
        if self.owns_pool(owner) {
            Some(Error::PoolAlreadyExists)
        } else if gpu_memory == 0 {
            Some(Error::InvalidDimensions)
        } else if price_per_task == 0 {
            Some(Error::InsufficientBalance)
        } else if !nvlink_ok(has_nvlink, nvlink_efficiency) {
            Some(Error::InvalidNvlinkEfficiency)
        } else if gpu_model.len() > self.config.max_gpu_model_len {
            Some(Error::ArithmeticOverflow)
        } else if ledger.free_of(owner) < self.config.pool_deposit {
            Some(Error::InsufficientBalance)
        } else if self.pools@.len() + 1 >= u64::MAX {
            Some(Error::ArithmeticOverflow)
        } else {
            None
        }
    }

    /// Registers the caller's pool, reserving the pool deposit. Returns the
    /// new pool's identifier.
    pub fn register_pool(
        &mut self,
        ledger: &mut Ledger,
        owner: AccountId,
        gpu_model: Vec<u8>,
        gpu_memory: u32,
        has_nvlink: bool,
        nvlink_efficiency: u32,
        price_per_task: Balance,
    ) -> (r: Result<PoolId, Error>)
        requires
            old(self).wf(),
            old(ledger).wf(),
        ensures
            final(self).wf(),
            final(ledger).wf(),
            match old(self).register_error(
                *old(ledger),
                owner,
                gpu_model@,
                gpu_memory,
                has_nvlink,
                nvlink_efficiency,
                price_per_task,
            ) {
                Some(e) => r == Err::<PoolId, Error>(e) && *final(self) == *old(self)
                    && *final(ledger) == *old(ledger),
                None => {
                    let id = old(self).pools@.len() as u64;
                    let rep = min_u32(old(self).config.initial_reputation, MAX_REPUTATION) as u32;
                    &&& r == Ok::<PoolId, Error>(id)
                    &&& final(self).pools@.len() == id + 1
                    &&& forall|q: int| 0 <= q < id ==> #[trigger] final(self).pools@[q] == old(self).pools@[q]
                    &&& final(self).has_pool(id)
                    &&& final(self).pool(id) == (ComputePool {
                        pool_id: id,
                        owner,
                        gpu_model,
                        gpu_memory,
                        has_nvlink,
                        nvlink_efficiency,
                        price_per_task,
                        reputation: rep,
                        success_rate: 100,
                        total_tasks: 0,
                        completed_tasks: 0,
                        failed_tasks: 0,
                        status: PoolStatus::Active,
                        deposit_held: old(self).config.pool_deposit,
                        score: PoolScore {
                            reputation_score: 0,
                            success_rate_score: 0,
                            price_score: 0,
                            nvlink_score: 0,
                            final_score: 0,
                        },
                    })
                    &&& final(self).active_count(id) == 0
                    &&& final(self).total_stake_of(id) == 0
                    &&& forall|a: AccountId| #[trigger] final(self).stake_of(id, a) == 0
                    &&& final(self).pool_by_owner@ == old(self).pool_by_owner@.insert(owner, id)
                    &&& final(self).miner_reputation@ == old(self).miner_reputation@.insert(
                        owner,
                        ReputationInfo { reputation: rep, total_tasks: 0, successful_tasks: 0, failed_tasks: 0 },
                    )
                    &&& final(self).tasks == old(self).tasks
                    &&& final(ledger).free_of(owner) == old(ledger).free_of(owner) - old(
                        self,
                    ).config.pool_deposit
                    &&& final(ledger).reserved_of(owner) == old(ledger).reserved_of(owner) + old(
                        self,
                    ).config.pool_deposit
                    &&& old(ledger).others_unchanged(*final(ledger), owner, owner)
                },
            },
    {
        if self.pool_by_owner.contains_key(&owner) {
            return Err(Error::PoolAlreadyExists);
        }
        if gpu_memory == 0 {
            return Err(Error::InvalidDimensions);
        }
        if price_per_task == 0 {
            return Err(Error::InsufficientBalance);
        }
        if !ensure_nvlink(has_nvlink, nvlink_efficiency) {
            return Err(Error::InvalidNvlinkEfficiency);
        }
        if gpu_model.len() > self.config.max_gpu_model_len as usize {
            return Err(Error::ArithmeticOverflow);
        }
        let deposit = self.config.pool_deposit;
        if ledger.free_balance(owner) < deposit {
            return Err(Error::InsufficientBalance);
        }
        if self.pools.len() as u64 >= u64::MAX - 1 {
            return Err(Error::ArithmeticOverflow);
        }
        let _ = ledger.reserve(owner, deposit);
        let pool_id = self.pools.len() as u64;
        let rep: u32 = if self.config.initial_reputation <= MAX_REPUTATION {
            self.config.initial_reputation
        } else {
            MAX_REPUTATION
        };
        let pool = ComputePool {
            pool_id,
            owner,
            gpu_model,
            gpu_memory,
            has_nvlink,
            nvlink_efficiency,
            price_per_task,
            reputation: rep,
            success_rate: 100,
            total_tasks: 0,
            completed_tasks: 0,
            failed_tasks: 0,
            status: PoolStatus::Active,
            deposit_held: deposit,
            score: PoolScore {
                reputation_score: 0,
                success_rate_score: 0,
                price_score: 0,
                nvlink_score: 0,
                final_score: 0,
            },
        };
        let ghost old_self = *self;
        self.pools.push(
            PoolSlot {
                pool: Some(pool),
                task_ids: Vec::new(),
                active_tasks: 0,
                stakes: Vec::new(),
                total_stake: 0,
            },
        );
        self.pool_by_owner.insert(owner, pool_id);
        self.miner_reputation.insert(
            owner,
            ReputationInfo { reputation: rep, total_tasks: 0, successful_tasks: 0, failed_tasks: 0 },
        );
        proof {
            assert(self.pools@[pool_id as int] == self.pools@.last());
            assert forall|q: int| 0 <= q < pool_id implies #[trigger] self.pools@[q] == old_self.pools@[q] by {}
            assert forall|id: PoolId| #[trigger] self.has_pool(id) implies self.pool(id).pool_id == id
                && pool_consistent(self.pool(id)) && self.owns_pool(self.pool(id).owner)
                && self.pool_by_owner@[self.pool(id).owner] == id by {
                if id != pool_id {
                    assert(old_self.has_pool(id));
                    assert(self.pool(id) == old_self.pool(id));
                    assert(self.pool(id).owner != owner);
                }
            }
            assert forall|o: AccountId| #[trigger] self.owns_pool(o) implies self.has_pool(
                self.pool_by_owner@[o],
            ) && self.pool(self.pool_by_owner@[o]).owner == o by {
                if o != owner {
                    assert(old_self.owns_pool(o));
                    let q = old_self.pool_by_owner@[o];
                    assert(old_self.has_pool(q));
                    assert(self.pools@[q as int] == old_self.pools@[q as int]);
                }
            }
            assert forall|id: TaskId| #[trigger] self.has_task(id) implies self.task(id).task_id == id by {
                assert(old_self.has_task(id));
            }
        }
        Ok(pool_id)
    }

    /// The owner changes the hardware and price of its pool.
    pub fn update_pool_config(
        &mut self,
        caller: AccountId,
        pool_id: PoolId,
        gpu_model: Vec<u8>,
        gpu_memory: u32,
        has_nvlink: bool,
        nvlink_efficiency: u32,
        price_per_task: Balance,
    ) -> (r: Result<(), Error>)
        requires
            old(self).wf(),
        ensures
            final(self).wf(),
            r == (if gpu_memory == 0 {
                Err(Error::InvalidDimensions)
            } else if price_per_task == 0 {
                Err(Error::InsufficientBalance)
            } else if !nvlink_ok(has_nvlink, nvlink_efficiency) {
                Err(Error::InvalidNvlinkEfficiency)
            } else if gpu_model@.len() > old(self).config.max_gpu_model_len {
                Err(Error::ArithmeticOverflow)
            } else if !old(self).has_pool(pool_id) {
                Err(Error::PoolNotFound)
            } else if old(self).pool(pool_id).owner != caller {
                Err(Error::NotPoolOwner)
            } else if old(self).pool(pool_id).status == PoolStatus::Deregistered {
                Err(Error::PoolInactive)
            } else {
                Ok(())
            }),
            r is Err ==> *final(self) == *old(self),
            r is Ok ==> old(self).only_pool_changed(*final(self), pool_id),
            r is Ok ==> final(self).has_pool(pool_id) && final(self).pool(pool_id) == (ComputePool {
                gpu_model,
                gpu_memory,
                has_nvlink,
                nvlink_efficiency,
                price_per_task,
                ..old(self).pool(pool_id)
            }),
            r is Ok ==> final(self).pools@[pool_id as int].task_ids == old(self).pools@[pool_id as int].task_ids,
            r is Ok ==> final(self).active_count(pool_id) == old(self).active_count(pool_id),
    {
        if gpu_memory == 0 {
            return Err(Error::InvalidDimensions);
        }
        if price_per_task == 0 {
            return Err(Error::InsufficientBalance);
        }
        if !ensure_nvlink(has_nvlink, nvlink_efficiency) {
            return Err(Error::InvalidNvlinkEfficiency);
        }
        if gpu_model.len() > self.config.max_gpu_model_len as usize {
            return Err(Error::ArithmeticOverflow);
        }
        if pool_id >= self.pools.len() as u64 {
            return Err(Error::PoolNotFound);
        }
        let i = pool_id as usize;
        match &self.pools[i].pool {
            Some(p) => {
                if p.owner != caller {
                    return Err(Error::NotPoolOwner);
                }
                if p.status == PoolStatus::Deregistered {
                    return Err(Error::PoolInactive);
                }
            },
            None => return Err(Error::PoolNotFound),
        }
        let ghost old_self = *self;
        let mut p = self.pools[i].pool.take().unwrap();
        p.gpu_model = gpu_model;
        p.gpu_memory = gpu_memory;
        p.has_nvlink = has_nvlink;
        p.nvlink_efficiency = nvlink_efficiency;
        p.price_per_task = price_per_task;
        self.pools[i].pool = Some(p);
        proof {
            assert forall|q: PoolId| #[trigger] old_self.has_pool(q) implies self.pool(q).pool_id
                == old_self.pool(q).pool_id && self.pool(q).owner == old_self.pool(q).owner
                && pool_consistent(self.pool(q)) by {}
            old_self.lemma_pools_updated(*self);
        }
        Ok(())
    }

    /// The owner removes its pool, which must have no active task; the pool
    /// deposit still held is released.
    pub fn deregister_pool(&mut self, ledger: &mut Ledger, caller: AccountId, pool_id: PoolId) -> (r:
        Result<(), Error>)
        requires
            old(self).wf(),
            old(ledger).wf(),
        ensures
            final(self).wf(),
            final(ledger).wf(),
            r == (if !old(self).has_pool(pool_id) {
                Err(Error::PoolNotFound)
            } else if old(self).pool(pool_id).owner != caller {
                Err(Error::NotPoolOwner)
            } else if old(self).active_count(pool_id) != 0 {
                Err(Error::ActiveTasksExist)
            } else {
                Ok(())
            }),
            r is Err ==> *final(self) == *old(self) && *final(ledger) == *old(ledger),
            r is Ok ==> !final(self).has_pool(pool_id) && !final(self).owns_pool(caller),
            r is Ok ==> old(self).only_pool_changed(*final(self), pool_id),
            r is Ok ==> final(self).pool_by_owner@ == old(self).pool_by_owner@.remove(caller),
            r is Ok ==> final(self).active_count(pool_id) == 0,
            r is Ok ==> final(self).pools@[pool_id as int].task_ids@.len() == 0,
            r is Ok ==> final(ledger).free_of(caller) == old(ledger).free_of(caller) + min_nat(
                old(self).pool(pool_id).deposit_held as nat,
                old(ledger).reserved_of(caller),
            ),
            r is Ok ==> final(ledger).reserved_of(caller) == old(ledger).reserved_of(caller)
                - min_nat(old(self).pool(pool_id).deposit_held as nat, old(ledger).reserved_of(caller)),
            old(ledger).others_unchanged(*final(ledger), caller, caller),
    {
        if pool_id >= self.pools.len() as u64 {
            return Err(Error::PoolNotFound);
        }
        let i = pool_id as usize;
        let held = match &self.pools[i].pool {
            Some(p) => {
                if p.owner != caller {
                    return Err(Error::NotPoolOwner);
                }
                p.deposit_held
            },
            None => return Err(Error::PoolNotFound),
        };
        if self.pools[i].active_tasks != 0 {
            return Err(Error::ActiveTasksExist);
        }
        let ghost old_self = *self;
        assert(old_self.has_pool(pool_id));
        assert(old_self.pool_by_owner@[caller] == pool_id);
        self.pools[i].pool = None;
        self.pools[i].task_ids = Vec::new();
        self.pools[i].active_tasks = 0;
        self.pool_by_owner.remove(&caller);
        let _ = ledger.unreserve(caller, held);
        proof {
            assert forall|id: PoolId| #[trigger] self.has_pool(id) implies self.pool(id).pool_id == id
                && pool_consistent(self.pool(id)) && self.owns_pool(self.pool(id).owner)
                && self.pool_by_owner@[self.pool(id).owner] == id by {
                assert(old_self.has_pool(id));
                assert(id != pool_id);
                assert(old_self.pool_by_owner@[old_self.pool(id).owner] == id);
            }
            assert forall|o: AccountId| #[trigger] self.owns_pool(o) implies self.has_pool(
                self.pool_by_owner@[o],
            ) && self.pool(self.pool_by_owner@[o]).owner == o by {
                assert(old_self.owns_pool(o));
                assert(old_self.has_pool(old_self.pool_by_owner@[o]));
                assert(old_self.pool_by_owner@[o] != pool_id);
            }
            assert forall|q: int| 0 <= q < self.pools@.len() implies #[trigger] stakes_consistent(self.pools@[q]) by {
                assert(stakes_consistent(old_self.pools@[q]));
            }
            assert forall|id: TaskId| #[trigger] self.has_task(id) implies self.task(id).task_id == id by {
                assert(old_self.has_task(id));
            }
        }
        Ok(())
    }

    /// What `stake_to_pool` does: on success `amount` moves from the staker's
    /// free to its reserved balance and is added to its stake and to the
    /// pool's total; a total that would leave the range of a balance is an
    /// error; on failure nothing changes.
    pub open spec fn stake_post(
        self,
        new: Pallet,
        ledger: Ledger,
        new_ledger: Ledger,
        who: AccountId,
        pool_id: PoolId,
        amount: Balance,
        r: Result<(), Error>,
    ) -> bool {
        &&& r == (if !self.has_pool(pool_id) {
            Err(Error::PoolNotFound)
        } else if ledger.free_of(who) < amount {
            Err(Error::InsufficientBalance)
        } else if self.total_stake_of(pool_id) + amount > u128::MAX {
            Err(Error::ArithmeticOverflow)
        } else {
            Ok(())
        })
        &&& r is Err ==> new == self && new_ledger == ledger
        &&& r is Ok ==> {
            &&& self.only_pool_changed(new, pool_id)
            &&& new.pools@[pool_id as int].pool == self.pools@[pool_id as int].pool
            &&& new.pools@[pool_id as int].task_ids == self.pools@[pool_id as int].task_ids
            &&& new.active_count(pool_id) == self.active_count(pool_id)
            &&& new.pool_by_owner == self.pool_by_owner
            &&& new.miner_reputation == self.miner_reputation
            &&& new.stake_of(pool_id, who) == self.stake_of(pool_id, who) + amount
            &&& forall|a: AccountId| a != who ==> #[trigger] new.stake_of(pool_id, a) == self.stake_of(pool_id, a)
            &&& new.total_stake_of(pool_id) == self.total_stake_of(pool_id) + amount
            &&& new_ledger.free_of(who) == ledger.free_of(who) - amount
            &&& new_ledger.reserved_of(who) == ledger.reserved_of(who) + amount
            &&& ledger.others_unchanged(new_ledger, who, who)
        }
    }

    pub fn stake_to_pool(&mut self, ledger: &mut Ledger, who: AccountId, pool_id: PoolId, amount: Balance) -> (r:
        Result<(), Error>)
        requires
            old(self).wf(),
            old(ledger).wf(),
        ensures
            final(self).wf(),
            final(ledger).wf(),
            old(self).stake_post(*final(self), *old(ledger), *final(ledger), who, pool_id, amount, r),
    {
        if pool_id >= self.pools.len() as u64 || self.pools[pool_id as usize].pool.is_none() {
            return Err(Error::PoolNotFound);
        }
        if ledger.free_balance(who) < amount {
            return Err(Error::InsufficientBalance);
        }
        let i = pool_id as usize;
        let total = self.pools[i].total_stake;
        if total > u128::MAX - amount {
            return Err(Error::ArithmeticOverflow);
        }
        let _ = ledger.reserve(who, amount);
        let ghost old_self = *self;
        let ghost s0 = self.pools@[i as int].stakes@;
        assert(stakes_consistent(old_self.pools@[i as int]));
        match self.stake_index(i, who) {
            Some(k) => {
                let cur = self.pools[i].stakes[k].amount;
                proof {
                    lemma_stake_le_sum(s0, who, s0.len());
                }
                self.pools[i].stakes[k].amount = cur + amount;
                proof {
                    assert(self.pools@[i as int].stakes@ == s0.update(k as int, StakeEntry { amount: (cur + amount) as u128, ..s0[k as int] }));
                    assert forall|a: AccountId| true implies stake_in(self.pools@[i as int].stakes@, a, s0.len())
                        == if a == who { (stake_in(s0, a, s0.len()) + amount) as nat } else { stake_in(s0, a, s0.len()) } by {
                        lemma_stake_update(s0, k as int, (cur + amount) as u128, a, s0.len());
                    }
                    lemma_stake_update(s0, k as int, (cur + amount) as u128, who, s0.len());
                    assert(stakers_unique(self.pools@[i as int].stakes@));
                    assert(stake_sum(self.pools@[i as int].stakes@, self.pools@[i as int].stakes@.len())
                        == stake_sum(s0, s0.len()) + amount);
                }
            },
            None => {
                self.pools[i].stakes.push(StakeEntry { who, amount });
                proof {
                    let s1 = self.pools@[i as int].stakes@;
                    assert(s1 == s0.push(StakeEntry { who, amount }));
                    assert forall|a: AccountId| true implies stake_in(s1, a, s1.len())
                        == if a == who { (stake_in(s0, a, s0.len()) + amount) as nat } else { stake_in(s0, a, s0.len()) } by {
                        lemma_stake_push(s0, StakeEntry { who, amount }, a, s0.len());
                    }
                    lemma_stake_push(s0, StakeEntry { who, amount }, who, s0.len());
                    assert(stakers_unique(s1));
                    assert(stake_sum(s1, s1.len()) == stake_sum(s0, s0.len()) + amount);
                }
            },
        }
        self.pools[i].total_stake = total + amount;
        proof {
            assert(stakes_consistent(self.pools@[i as int]));
            assert forall|q: PoolId| #[trigger] old_self.has_pool(q) implies self.pool(q).pool_id
                == old_self.pool(q).pool_id && self.pool(q).owner == old_self.pool(q).owner
                && pool_consistent(self.pool(q)) by {}
            old_self.lemma_pools_updated(*self);
        }
        Ok(())
    }

    /// What `unstake_from_pool` does: on success `amount` is released to the
    /// staker (as far as it is still reserved) and taken off its stake and the
    /// pool's total; a stake smaller than `amount` fails.
    pub open spec fn unstake_post(
        self,
        new: Pallet,
        ledger: Ledger,
        new_ledger: Ledger,
        who: AccountId,
        pool_id: PoolId,
        amount: Balance,
        r: Result<(), Error>,
    ) -> bool {
        &&& r == (if self.stake_of(pool_id, who) < amount {
            Err(Error::StakeNotFound)
        } else {
            Ok(())
        })
        &&& r is Err ==> new == self && new_ledger == ledger
        &&& r is Ok && pool_id < self.pools@.len() ==> {
            &&& self.only_pool_changed(new, pool_id)
            &&& new.pools@[pool_id as int].pool == self.pools@[pool_id as int].pool
            &&& new.pools@[pool_id as int].task_ids == self.pools@[pool_id as int].task_ids
            &&& new.active_count(pool_id) == self.active_count(pool_id)
            &&& new.stake_of(pool_id, who) == self.stake_of(pool_id, who) - amount
            &&& forall|a: AccountId| a != who ==> #[trigger] new.stake_of(pool_id, a) == self.stake_of(pool_id, a)
            &&& new.total_stake_of(pool_id) == self.total_stake_of(pool_id) - amount
        }
        &&& r is Ok && pool_id >= self.pools@.len() ==> new == self
        &&& r is Ok ==> new.pool_by_owner == self.pool_by_owner && new.miner_reputation == self.miner_reputation
        &&& r is Ok ==> new_ledger.free_of(who) == ledger.free_of(who) + min_nat(amount as nat, ledger.reserved_of(who))
        &&& r is Ok ==> new_ledger.reserved_of(who) == ledger.reserved_of(who) - min_nat(amount as nat, ledger.reserved_of(who))
        &&& ledger.others_unchanged(new_ledger, who, who)
    }

    pub fn unstake_from_pool(&mut self, ledger: &mut Ledger, who: AccountId, pool_id: PoolId, amount: Balance) -> (r:
        Result<(), Error>)
        requires
            old(self).wf(),
            old(ledger).wf(),
        ensures
            final(self).wf(),
            final(ledger).wf(),
            old(self).unstake_post(*final(self), *old(ledger), *final(ledger), who, pool_id, amount, r),
    {
        let current = self.pool_stakes(pool_id, who);
        if current < amount {
            return Err(Error::StakeNotFound);
        }
        let _ = ledger.unreserve(who, amount);
        if pool_id < self.pools.len() as u64 {
            let i = pool_id as usize;
            let ghost old_self = *self;
            let ghost s0 = self.pools@[i as int].stakes@;
            assert(stakes_consistent(old_self.pools@[i as int]));
            proof {
                lemma_stake_le_sum(s0, who, s0.len());
            }
            match self.stake_index(i, who) {
                Some(k) => {
                    self.pools[i].stakes[k].amount = current - amount;
                    proof {
                        assert(self.pools@[i as int].stakes@ == s0.update(k as int, StakeEntry { amount: (current - amount) as u128, ..s0[k as int] }));
                        assert forall|a: AccountId| true implies stake_in(self.pools@[i as int].stakes@, a, s0.len())
                            == if a == who { (stake_in(s0, a, s0.len()) - amount) as nat } else { stake_in(s0, a, s0.len()) } by {
                            lemma_stake_update(s0, k as int, (current - amount) as u128, a, s0.len());
                        }
                        lemma_stake_update(s0, k as int, (current - amount) as u128, who, s0.len());
                        assert(stakers_unique(self.pools@[i as int].stakes@));
                    }
                },
                None => {},
            }
            self.pools[i].total_stake = self.pools[i].total_stake - amount;
            proof {
                assert(stakes_consistent(self.pools@[i as int]));
                assert forall|q: PoolId| #[trigger] old_self.has_pool(q) implies self.pool(q).pool_id
                    == old_self.pool(q).pool_id && self.pool(q).owner == old_self.pool(q).owner
                    && pool_consistent(self.pool(q)) by {}
                old_self.lemma_pools_updated(*self);
            }
        }
        Ok(())
    }

    /// The reputation record of `who`, defaulting for an owner never seen.
    pub open spec fn rep_of(self, who: AccountId) -> ReputationInfo {
        if self.miner_reputation@.contains_key(who) {
            self.miner_reputation@[who]
        } else {
            ReputationInfo { reputation: DEFAULT_REPUTATION, total_tasks: 0, successful_tasks: 0, failed_tasks: 0 }
        }
    }

    /// Records the end of a task of pool `pool_id` in the pool's counters and
    /// in its owner's reputation record.
    fn update_reputation(&mut self, pool_id: PoolId, success: bool)
        requires
            old(self).wf(),
        ensures
            final(self).wf(),
            final(self).tasks == old(self).tasks,
            final(self).pool_by_owner == old(self).pool_by_owner,
            final(self).config == old(self).config,
            final(self).pools@.len() == old(self).pools@.len(),
            forall|q: int| 0 <= q < old(self).pools@.len() && q != pool_id ==> #[trigger] final(self).pools@[q] == old(self).pools@[q],
            !old(self).has_pool(pool_id) ==> *final(self) == *old(self),
            old(self).has_pool(pool_id) ==> {
                let slot = old(self).pools@[pool_id as int];
                &&& final(self).pools@[pool_id as int] == PoolSlot {
                    pool: Some(after_outcome(old(self).pool(pool_id), success)),
                    ..slot
                }
                &&& final(self).miner_reputation@ == old(self).miner_reputation@.insert(
                    old(self).pool(pool_id).owner,
                    rep_after_outcome(old(self).rep_of(old(self).pool(pool_id).owner), success),
                )
            },
    {
        if pool_id >= self.pools.len() as u64 || self.pools[pool_id as usize].pool.is_none() {
            return;
        }
        let i = pool_id as usize;
        let ghost old_self = *self;
        let mut p = self.pools[i].pool.take().unwrap();
        let ghost p0 = p;
        assert(old_self.has_pool(pool_id));
        assert(pool_consistent(p0));
        if p.total_tasks < u32::MAX {
            p.total_tasks = p.total_tasks + 1;
            if success {
                p.completed_tasks = p.completed_tasks + 1;
            } else {
                p.failed_tasks = p.failed_tasks + 1;
            }
        }
        if p.total_tasks > 0 {
            let rate = p.completed_tasks as u64 * 100 / p.total_tasks as u64;
            p.success_rate = if rate <= 100 {
                rate as u32
            } else {
                100
            };
        }
        p.reputation = if success {
            if p.reputation < 100 {
                p.reputation + 1
            } else {
                100
            }
        } else {
            p.reputation.saturating_sub(2)
        };
        let owner = p.owner;
        assert(p == after_outcome(p0, success));
        self.pools[i].pool = Some(p);
        let mut rep = self.miner_reputation(owner);
        rep.total_tasks = rep.total_tasks.saturating_add(1);
        if success {
            rep.successful_tasks = rep.successful_tasks.saturating_add(1);
            rep.reputation = if rep.reputation < 100 {
                rep.reputation + 1
            } else {
                100
            };
        } else {
            rep.failed_tasks = rep.failed_tasks.saturating_add(1);
            rep.reputation = rep.reputation.saturating_sub(2);
        }
        self.miner_reputation.insert(owner, rep);
        proof {
            assert(self.pools@[pool_id as int] == PoolSlot { pool: Some(after_outcome(p0, success)), ..old_self.pools@[pool_id as int] });
            assert forall|q: PoolId| #[trigger] old_self.has_pool(q) implies self.pool(q).pool_id
                == old_self.pool(q).pool_id && self.pool(q).owner == old_self.pool(q).owner
                && pool_consistent(self.pool(q)) by {
                if q == pool_id {
                    assert(pool_consistent(p0));
                }
            }
            old_self.lemma_pools_updated(*self);
        }
    }

    /// Takes task `task_id` off the active list of pool `pool_id`.
    fn decrement_pool_activity(&mut self, pool_id: PoolId, task_id: TaskId)
        requires
            old(self).wf(),
        ensures
            final(self).wf(),
            final(self).tasks == old(self).tasks,
            final(self).pool_by_owner == old(self).pool_by_owner,
            final(self).miner_reputation == old(self).miner_reputation,
            final(self).config == old(self).config,
            final(self).pools@.len() == old(self).pools@.len(),
            forall|q: int| 0 <= q < old(self).pools@.len() && q != pool_id ==> #[trigger] final(self).pools@[q] == old(self).pools@[q],
            pool_id < old(self).pools@.len() ==> {
                &&& final(self).pools@[pool_id as int].pool == old(self).pools@[pool_id as int].pool
                &&& final(self).pools@[pool_id as int].stakes == old(self).pools@[pool_id as int].stakes
                &&& final(self).pools@[pool_id as int].total_stake == old(self).pools@[pool_id as int].total_stake
                &&& final(self).active_count(pool_id) == (if old(self).active_count(pool_id) > 0 {
                    (old(self).active_count(pool_id) - 1) as u32
                } else {
                    0
                })
                &&& forall|x: TaskId| #[trigger] final(self).pools@[pool_id as int].task_ids@.contains(x)
                    <==> old(self).pools@[pool_id as int].task_ids@.contains(x) && x != task_id
                &&& final(self).pools@[pool_id as int].task_ids@.len() <= old(self).pools@[pool_id as int].task_ids@.len()
            },
            pool_id >= old(self).pools@.len() ==> *final(self) == *old(self),
    {
        if pool_id >= self.pools.len() as u64 {
            return;
        }
        let i = pool_id as usize;
        let ghost old_self = *self;
        self.pools[i].active_tasks = self.pools[i].active_tasks.saturating_sub(1);
        remove_id(&mut self.pools[i].task_ids, task_id);
        proof {
            assert forall|q: PoolId| #[trigger] old_self.has_pool(q) implies self.pool(q).pool_id
                == old_self.pool(q).pool_id && self.pool(q).owner == old_self.pool(q).owner
                && pool_consistent(self.pool(q)) by {}
            old_self.lemma_pools_updated(*self);
        }
    }

    /// Drops the task's claimable reward and returns its escrow, reward and
    /// deposit together, to the user.
    fn release_escrow(&mut self, ledger: &mut Ledger, task_id: TaskId)
        requires
            old(self).wf(),
            old(ledger).wf(),
            old(self).has_task(task_id),
        ensures
            final(self).wf(),
            final(ledger).wf(),
            final(self).pools == old(self).pools,
            final(self).pool_by_owner == old(self).pool_by_owner,
            final(self).miner_reputation == old(self).miner_reputation,
            final(self).config == old(self).config,
            final(self).tasks@ == old(self).tasks@.update(
                task_id as int,
                TaskSlot { reward: None, escrow: None, ..old(self).tasks@[task_id as int] },
            ),
            match old(self).escrow(task_id) {
                Some(e) => {
                    let total = sat_add_u128(e.reward_amount, e.task_deposit);
                    let moved = min_nat(total as nat, old(ledger).reserved_of(e.user));
                    &&& final(ledger).free_of(e.user) == old(ledger).free_of(e.user) + moved
                    &&& final(ledger).reserved_of(e.user) == old(ledger).reserved_of(e.user) - moved
                    &&& old(ledger).others_unchanged(*final(ledger), e.user, e.user)
                },
                None => *final(ledger) == *old(ledger),
            },
    {
        let len = self.tasks.len();
        assert(task_id < len);
        let i = task_id as usize;
        let ghost old_self = *self;
        self.tasks[i].reward = None;
        let escrow = self.tasks[i].escrow.take();
        if let Some(e) = escrow {
            let total = e.reward_amount.saturating_add(e.task_deposit);
            let _ = ledger.unreserve(e.user, total);
        }
        proof {
            assert(self.tasks@ =~= old_self.tasks@.update(
                task_id as int,
                TaskSlot { reward: None, escrow: None, ..old_self.tasks@[task_id as int] },
            ));
            assert forall|q: PoolId| #[trigger] old_self.has_pool(q) implies self.pool(q).pool_id
                == old_self.pool(q).pool_id && self.pool(q).owner == old_self.pool(q).owner
                && pool_consistent(self.pool(q)) by {}
            old_self.lemma_pools_updated(*self);
        }
    }

    /// Takes up to `failure_slash` from the deposit pool `pool_id` still
    /// holds, destroying it from the owner's reserved balance.
    fn slash_pool(&mut self, ledger: &mut Ledger, pool_id: PoolId)
        requires
            old(self).wf(),
            old(ledger).wf(),
        ensures
            final(self).wf(),
            final(ledger).wf(),
            final(self).tasks == old(self).tasks,
            final(self).pool_by_owner == old(self).pool_by_owner,
            final(self).miner_reputation == old(self).miner_reputation,
            final(self).config == old(self).config,
            final(self).pools@.len() == old(self).pools@.len(),
            forall|q: int| 0 <= q < old(self).pools@.len() && q != pool_id ==> #[trigger] final(self).pools@[q] == old(self).pools@[q],
            !old(self).has_pool(pool_id) ==> *final(self) == *old(self) && *final(ledger) == *old(ledger),
            old(self).has_pool(pool_id) ==> {
                let p = old(self).pool(pool_id);
                let amount = min_nat(p.deposit_held as nat, old(self).config.failure_slash as nat);
                let slashed = min_nat(amount, old(ledger).reserved_of(p.owner));
                &&& final(self).pools@[pool_id as int] == PoolSlot {
                    pool: Some(ComputePool { deposit_held: (p.deposit_held - slashed) as u128, ..p }),
                    ..old(self).pools@[pool_id as int]
                }
                &&& final(ledger).free_of(p.owner) == old(ledger).free_of(p.owner)
                &&& final(ledger).reserved_of(p.owner) == old(ledger).reserved_of(p.owner) - slashed
                &&& old(ledger).others_unchanged(*final(ledger), p.owner, p.owner)
            },
    {
        if pool_id >= self.pools.len() as u64 || self.pools[pool_id as usize].pool.is_none() {
            return;
        }
        let i = pool_id as usize;
        let ghost old_self = *self;
        let mut p = self.pools[i].pool.take().unwrap();
        let ghost p0 = p;
        let amount = if p.deposit_held > self.config.failure_slash {
            self.config.failure_slash
        } else {
            p.deposit_held
        };
        let (slashed, _) = ledger.slash_reserved(p.owner, amount);
        p.deposit_held = p.deposit_held - slashed;
        self.pools[i].pool = Some(p);
        proof {
            assert(self.pools@[pool_id as int] == PoolSlot {
                pool: Some(ComputePool { deposit_held: p.deposit_held, ..p0 }),
                ..old_self.pools@[pool_id as int]
            });
            assert forall|q: PoolId| #[trigger] old_self.has_pool(q) implies self.pool(q).pool_id
                == old_self.pool(q).pool_id && self.pool(q).owner == old_self.pool(q).owner
                && pool_consistent(self.pool(q)) by {}
            old_self.lemma_pools_updated(*self);
        }
    }

    /// Whether pool `id` can take a task whose third dimension is `k`: it is
    /// active, under its task cap, and has at least `k` of GPU memory.
    pub open spec fn is_candidate(self, id: PoolId, k: u32) -> bool {
        &&& self.has_pool(id)
        &&& self.pool(id).status == PoolStatus::Active
        &&& self.active_count(id) < self.config.max_tasks_per_pool
        &&& self.pool(id).gpu_memory >= k
    }

    /// The lowest price among candidates with identifier below `n`
    /// (`u128::MAX` when there is none).
    pub open spec fn min_price_upto(self, k: u32, n: nat) -> nat
        decreases n,
    {
        if n == 0 {
            u128::MAX as nat
        } else {
            let prev = self.min_price_upto(k, (n - 1) as nat);
            let id = (n - 1) as u64;
            if self.is_candidate(id, k) && (self.pool(id).price_per_task as nat) < prev {
                self.pool(id).price_per_task as nat
            } else {
                prev
            }
        }
    }

    /// The highest price among candidates with identifier below `n` (0 when
    /// there is none).
    pub open spec fn max_price_upto(self, k: u32, n: nat) -> nat
        decreases n,
    {
        if n == 0 {
            0
        } else {
            let prev = self.max_price_upto(k, (n - 1) as nat);
            let id = (n - 1) as u64;
            if self.is_candidate(id, k) && (self.pool(id).price_per_task as nat) > prev {
                self.pool(id).price_per_task as nat
            } else {
                prev
            }
        }
    }

    /// The score of pool `id` among all candidates for `k`.
    pub open spec fn candidate_score(self, id: PoolId, k: u32) -> PoolScore {
        let p = self.pool(id);
        pool_score_of(
            p.reputation,
            p.success_rate,
            p.price_per_task as nat,
            p.has_nvlink,
            p.nvlink_efficiency,
            self.min_price_upto(k, self.pools@.len()),
            self.max_price_upto(k, self.pools@.len()),
        )
    }

    /// Pool `w` wins the selection for `k`: no candidate scores higher, and
    /// every candidate before it scores strictly lower.
    pub open spec fn is_best(self, w: PoolId, k: u32) -> bool {
        &&& self.is_candidate(w, k)
        &&& forall|c: PoolId| #[trigger]
            self.is_candidate(c, k) ==> self.candidate_score(c, k).final_score <= self.candidate_score(
                w,
                k,
            ).final_score
        &&& forall|c: PoolId|
            c < w && #[trigger] self.is_candidate(c, k) ==> self.candidate_score(c, k).final_score
                < self.candidate_score(w, k).final_score
    }

    pub open spec fn has_candidate(self, k: u32) -> bool {
        exists|c: PoolId| #[trigger] self.is_candidate(c, k)
    }

    /// The winner of the selection for `k`; meaningful when there is a
    /// candidate.
    pub open spec fn best_pool(self, k: u32) -> PoolId {
        choose|w: PoolId| self.is_best(w, k)
    }

    proof fn lemma_best_unique(self, w1: PoolId, w2: PoolId, k: u32)
        requires
            self.is_best(w1, k),
            self.is_best(w2, k),
        ensures
            w1 == w2,
    {
        if w1 < w2 {
            assert(self.is_candidate(w1, k));
        } else if w2 < w1 {
            assert(self.is_candidate(w2, k));
        }
    }

    fn check_candidate(&self, id: usize, k: u32) -> (r: bool)
        requires
            id < self.pools@.len(),
        ensures
            r == self.is_candidate(id as u64, k),
    {
        match &self.pools[id].pool {
            Some(p) => p.status == PoolStatus::Active && self.pools[id].active_tasks
                < self.config.max_tasks_per_pool && p.gpu_memory >= k,
            None => false,
        }
    }

    /// Picks the pool for a task whose third dimension is `k`, among all
    /// candidates: the first with the highest score, where prices are
    /// normalised over the candidates' price range.
    pub fn select_best_pool_for_task(&self, k: u32) -> (r: Option<(PoolId, PoolScore)>)
        requires
            self.wf(),
        ensures
            r is None <==> !self.has_candidate(k),
            r matches Some((w, sc)) ==> self.is_best(w, k) && sc == self.candidate_score(w, k)
                && w == self.best_pool(k),
    {
        let n = self.pools.len();
        let mut lo: u128 = u128::MAX;
        let mut hi: u128 = 0;
        let mut i: usize = 0;
        while i < n
            invariant
                n == self.pools@.len(),
                i <= n,
                lo == self.min_price_upto(k, i as nat),
                hi == self.max_price_upto(k, i as nat),
            decreases n - i,
        {
            if self.check_candidate(i, k) {
                let price = match &self.pools[i].pool {
                    Some(p) => p.price_per_task,
                    None => 0,
                };
                if price < lo {
                    lo = price;
                }
                if price > hi {
                    hi = price;
                }
            }
            i = i + 1;
        }
        let mut best: Option<(PoolId, PoolScore)> = None;
        let mut j: usize = 0;
        while j < n
            invariant
                n == self.pools@.len(),
                n < u64::MAX,
                j <= n,
                lo == self.min_price_upto(k, n as nat),
                hi == self.max_price_upto(k, n as nat),
                best is None ==> forall|c: PoolId| c < j ==> !#[trigger] self.is_candidate(c, k),
                best matches Some((w, sc)) ==> {
                    &&& w < j
                    &&& self.is_candidate(w, k)
                    &&& sc == self.candidate_score(w, k)
                    &&& forall|c: PoolId| c < j && #[trigger] self.is_candidate(c, k) ==> self.candidate_score(c, k).final_score <= sc.final_score
                    &&& forall|c: PoolId| c < w && #[trigger] self.is_candidate(c, k) ==> self.candidate_score(c, k).final_score < sc.final_score
                },
            decreases n - j,
        {
            if self.check_candidate(j, k) {
                let sc = match &self.pools[j].pool {
                    Some(p) => calculate_pool_score(
                        p.reputation,
                        p.success_rate,
                        p.price_per_task,
                        p.has_nvlink,
                        p.nvlink_efficiency,
                        lo,
                        hi,
                    ),
                    None => PoolScore {
                        reputation_score: 0,
                        success_rate_score: 0,
                        price_score: 0,
                        nvlink_score: 0,
                        final_score: 0,
                    },
                };
                let better = match best {
                    Some((_, cur)) => cur.final_score < sc.final_score,
                    None => true,
                };
                if better {
                    best = Some((j as u64, sc));
                }
            }
            j = j + 1;
        }
        proof {
            if let Some((w, sc)) = best {
                assert forall|c: PoolId| #[trigger] self.is_candidate(c, k) implies self.candidate_score(c, k).final_score <= sc.final_score by {
                    assert(c < n);
                }
                let b = self.best_pool(k);
                assert(self.is_best(w, k));
                assert(self.is_best(b, k));
                self.lemma_best_unique(w, b, k);
            } else {
                assert forall|c: PoolId| !#[trigger] self.is_candidate(c, k) by {
                    if self.is_candidate(c, k) {
                        assert(c < n);
                    }
                }
            }
        }
        best
    }

    proof fn lemma_task_pushed(self, new: Pallet)
        requires
            self.wf(),
            new.pools == self.pools,
            new.pool_by_owner == self.pool_by_owner,
            new.tasks@.len() == self.tasks@.len() + 1,
            new.tasks@.len() < u64::MAX,
            forall|t: int| 0 <= t < self.tasks@.len() ==> #[trigger] new.tasks@[t] == self.tasks@[t],
            new.tasks@[self.tasks@.len() as int].task.task_id == self.tasks@.len(),
        ensures
            new.wf(),
    {
        assert forall|id: PoolId| #[trigger] new.has_pool(id) implies new.pool(id).pool_id == id
            && pool_consistent(new.pool(id)) && new.owns_pool(new.pool(id).owner)
            && new.pool_by_owner@[new.pool(id).owner] == id by {
            assert(self.has_pool(id));
        }
        assert forall|o: AccountId| #[trigger] new.owns_pool(o) implies new.has_pool(
            new.pool_by_owner@[o],
        ) && new.pool(new.pool_by_owner@[o]).owner == o by {
            assert(self.owns_pool(o));
            assert(self.has_pool(self.pool_by_owner@[o]));
        }
        assert forall|id: TaskId| #[trigger] new.has_task(id) implies new.task(id).task_id == id by {
            if id < self.tasks@.len() {
                assert(self.has_task(id));
            }
        }
    }

    /// The pool a new task goes to: the preferred one, which must be active,
    /// under its cap and large enough, or else the selection's winner.
    pub open spec fn submit_target(self, k: u32, preferred: Option<PoolId>) -> Result<PoolId, Error> {
        match preferred {
            Some(p) => if !self.has_pool(p) {
                Err(Error::PoolNotFound)
            } else if self.pool(p).status != PoolStatus::Active {
                Err(Error::PoolInactive)
            } else if self.active_count(p) >= self.config.max_tasks_per_pool {
                Err(Error::TooManyActiveTasks)
            } else if self.pool(p).gpu_memory < k {
                Err(Error::NoAvailablePool)
            } else {
                Ok(p)
            },
            None => if self.has_candidate(k) {
                Ok(self.best_pool(k))
            } else {
                Err(Error::NoAvailablePool)
            },
        }
    }

    /// The score written back to the chosen pool: for a preferred pool its
    /// price is compared with itself alone.
    pub open spec fn target_score(self, k: u32, preferred: Option<PoolId>, t: PoolId) -> PoolScore {
        let p = self.pool(t);
        match preferred {
            Some(_) => pool_score_of(
                p.reputation,
                p.success_rate,
                p.price_per_task as nat,
                p.has_nvlink,
                p.nvlink_efficiency,
                p.price_per_task as nat,
                p.price_per_task as nat,
            ),
            None => self.candidate_score(t, k),
        }
    }

    /// The error `submit_task` fails with, if any.
    pub open spec fn submit_task_error(
        self,
        ledger: Ledger,
        user: AccountId,
        d: TaskDimensions,
        preferred: Option<PoolId>,
    ) -> Option<Error> {
        if d.m == 0 || d.n == 0 || d.k == 0 {
            Some(Error::InvalidDimensions)
        } else {
            match self.submit_target(d.k, preferred) {
                Err(e) => Some(e),
                Ok(t) => {
                    let p = self.pool(t);
                    if self.pools@[t as int].task_ids@.len() >= self.config.max_tasks_per_pool {
                        Some(Error::TooManyActiveTasks)
                    } else {
                        match reward_of(d, p.price_per_task as nat, p.has_nvlink, p.nvlink_efficiency) {
                            None => Some(Error::ArithmeticOverflow),
                            Some(rw) => if ledger.free_of(user) < sat_add_u128(
                                rw as u128,
                                self.config.task_deposit,
                            ) {
                                Some(Error::InsufficientBalance)
                            } else if self.tasks@.len() + 1 >= u64::MAX {
                                Some(Error::ArithmeticOverflow)
                            } else {
                                None
                            },
                        }
                    }
                },
            }
        }
    }

    /// A user submits a matrix task. It goes to the preferred pool or to the
    /// selection's winner; its reward plus the task deposit are reserved from
    /// the user, and it starts computing at once. Returns the task's
    /// identifier.
    pub fn submit_task(
        &mut self,
        ledger: &mut Ledger,
        user: AccountId,
        dimensions: TaskDimensions,
        priority: TaskPriority,
        preferred_pool_id: Option<PoolId>,
        now: BlockNumber,
    ) -> (r: Result<TaskId, Error>)
        requires
            old(self).wf(),
            old(ledger).wf(),
        ensures
            final(self).wf(),
            final(ledger).wf(),
            match old(self).submit_task_error(*old(ledger), user, dimensions, preferred_pool_id) {
                Some(e) => r == Err::<TaskId, Error>(e) && *final(self) == *old(self)
                    && *final(ledger) == *old(ledger),
                None => {
                    let t = old(self).submit_target(dimensions.k, preferred_pool_id)->Ok_0;
                    let p = old(self).pool(t);
                    let rw = reward_of(dimensions, p.price_per_task as nat, p.has_nvlink, p.nvlink_efficiency)->Some_0 as u128;
                    let id = old(self).tasks@.len() as u64;
                    let total = sat_add_u128(rw, old(self).config.task_deposit);
                    &&& r == Ok::<TaskId, Error>(id)
                    &&& final(self).tasks@ == old(self).tasks@.push(
                        TaskSlot {
                            task: ComputeTask {
                                task_id: id,
                                user,
                                pool_id: t,
                                dimensions,
                                priority,
                                status: TaskStatus::Computing,
                                submitted_at: now,
                                proof_hash: None,
                                verification_result: None,
                                reward_amount: Some(rw),
                            },
                            reward: None,
                            escrow: Some(
                                TaskEscrow {
                                    user,
                                    pool_owner: p.owner,
                                    reward_amount: rw,
                                    task_deposit: old(self).config.task_deposit,
                                    claimed: false,
                                },
                            ),
                            disputed: false,
                        },
                    )
                    &&& final(self).pools@.len() == old(self).pools@.len()
                    &&& forall|q: int| 0 <= q < old(self).pools@.len() && q != t ==> #[trigger] final(self).pools@[q] == old(self).pools@[q]
                    &&& final(self).pools@[t as int].pool == Some(
                        ComputePool { score: old(self).target_score(dimensions.k, preferred_pool_id, t), ..p },
                    )
                    &&& final(self).pools@[t as int].task_ids@ == old(self).pools@[t as int].task_ids@.push(id)
                    &&& final(self).active_count(t) == old(self).active_count(t) + 1
                    &&& final(self).pools@[t as int].stakes == old(self).pools@[t as int].stakes
                    &&& final(self).pools@[t as int].total_stake == old(self).pools@[t as int].total_stake
                    &&& final(self).pool_by_owner == old(self).pool_by_owner
                    &&& final(self).miner_reputation == old(self).miner_reputation
                    &&& final(ledger).free_of(user) == old(ledger).free_of(user) - total
                    &&& final(ledger).reserved_of(user) == old(ledger).reserved_of(user) + total
                    &&& old(ledger).others_unchanged(*final(ledger), user, user)
                },
            },
    {
        if dimensions.m == 0 || dimensions.n == 0 || dimensions.k == 0 {
            return Err(Error::InvalidDimensions);
        }
        let k = dimensions.k;
        let (target, score) = match preferred_pool_id {
            Some(pid) => {
                if pid >= self.pools.len() as u64 {
                    return Err(Error::PoolNotFound);
                }
                let sc = match &self.pools[pid as usize].pool {
                    Some(p) => {
                        if p.status != PoolStatus::Active {
                            return Err(Error::PoolInactive);
                        }
                        if self.pools[pid as usize].active_tasks >= self.config.max_tasks_per_pool {
                            return Err(Error::TooManyActiveTasks);
                        }
                        if p.gpu_memory < k {
                            return Err(Error::NoAvailablePool);
                        }
                        calculate_pool_score(
                            p.reputation,
                            p.success_rate,
                            p.price_per_task,
                            p.has_nvlink,
                            p.nvlink_efficiency,
                            p.price_per_task,
                            p.price_per_task,
                        )
                    },
                    None => return Err(Error::PoolNotFound),
                };
                (pid, sc)
            },
            None => match self.select_best_pool_for_task(k) {
                Some(x) => x,
                None => return Err(Error::NoAvailablePool),
            },
        };
        let len = self.pools.len();
        assert(target < len);
        let i = target as usize;
        if self.pools[i].task_ids.len() >= self.config.max_tasks_per_pool as usize {
            return Err(Error::TooManyActiveTasks);
        }
        let (price, has_nvlink, efficiency, owner) = match &self.pools[i].pool {
            Some(p) => (p.price_per_task, p.has_nvlink, p.nvlink_efficiency, p.owner),
            None => return Err(Error::PoolNotFound),
        };
        let reward = match calculate_reward(dimensions, price, has_nvlink, efficiency) {
            Some(v) => v,
            None => return Err(Error::ArithmeticOverflow),
        };
        let task_deposit = self.config.task_deposit;
        let total = reward.saturating_add(task_deposit);
        if ledger.free_balance(user) < total {
            return Err(Error::InsufficientBalance);
        }
        if self.tasks.len() as u64 >= u64::MAX - 1 {
            return Err(Error::ArithmeticOverflow);
        }
        let _ = ledger.reserve(user, total);
        let task_id = self.tasks.len() as u64;
        let ghost old_self = *self;
        let mut p = self.pools[i].pool.take().unwrap();
        p.score = score;
        self.pools[i].pool = Some(p);
        self.pools[i].task_ids.push(task_id);
        self.pools[i].active_tasks = self.pools[i].active_tasks + 1;
        proof {
            assert forall|q: PoolId| #[trigger] old_self.has_pool(q) implies self.pool(q).pool_id
                == old_self.pool(q).pool_id && self.pool(q).owner == old_self.pool(q).owner
                && pool_consistent(self.pool(q)) by {}
            old_self.lemma_pools_updated(*self);
        }
        let ghost mid = *self;
        self.tasks.push(
            TaskSlot {
                task: ComputeTask {
                    task_id,
                    user,
                    pool_id: target,
                    dimensions,
                    priority,
                    status: TaskStatus::Computing,
                    submitted_at: now,
                    proof_hash: None,
                    verification_result: None,
                    reward_amount: Some(reward),
                },
                reward: None,
                escrow: Some(
                    TaskEscrow {
                        user,
                        pool_owner: owner,
                        reward_amount: reward,
                        task_deposit,
                        claimed: false,
                    },
                ),
                disputed: false,
            },
        );
        proof {
            mid.lemma_task_pushed(*self);
        }
        Ok(task_id)
    }

    /// What releasing task `task_id`'s escrow returns to its user: reward and
    /// deposit together (saturating), as far as they are still reserved.
    pub open spec fn released(self, ledger: Ledger, task_id: TaskId) -> nat {
        match self.escrow(task_id) {
            Some(e) => min_nat(
                sat_add_u128(e.reward_amount, e.task_deposit) as nat,
                ledger.reserved_of(e.user),
            ),
            None => 0,
        }
    }

    /// The reserved balance of `a` once task `task_id`'s escrow is released.
    pub open spec fn reserved_after_release(self, ledger: Ledger, task_id: TaskId, a: AccountId) -> nat {
        match self.escrow(task_id) {
            Some(e) => if e.user == a {
                (ledger.reserved_of(a) - self.released(ledger, task_id)) as nat
            } else {
                ledger.reserved_of(a)
            },
            None => ledger.reserved_of(a),
        }
    }

    /// What a failure of task `task_id` slashes from pool `pool_id`: up to
    /// `failure_slash` of its held deposit, as far as the owner still has it
    /// reserved once the escrow is released.
    pub open spec fn failure_slash_of(self, ledger: Ledger, task_id: TaskId, pool_id: PoolId) -> nat {
        let p = self.pool(pool_id);
        min_nat(
            min_nat(p.deposit_held as nat, self.config.failure_slash as nat),
            self.reserved_after_release(ledger, task_id, p.owner),
        )
    }

    /// The effects of a failed verdict on task `task_id` of pool `pool_id`:
    /// the reward and escrow are gone, the escrow returns to the user, the
    /// pool counts a failure and loses `failure_slash_of` from its deposit and
    /// from its owner's reserved balance.
    pub open spec fn failure_effects(
        self,
        new: Pallet,
        ledger: Ledger,
        new_ledger: Ledger,
        task_id: TaskId,
        pool_id: PoolId,
    ) -> bool {
        let p = self.pool(pool_id);
        let slashed = self.failure_slash_of(ledger, task_id, pool_id);
        let back = self.released(ledger, task_id);
        &&& new.reward(task_id) is None
        &&& new.escrow(task_id) is None
        &&& new.has_pool(pool_id)
        &&& new.pool(pool_id) == (ComputePool {
            deposit_held: (p.deposit_held - slashed) as u128,
            ..after_outcome(p, false)
        })
        &&& new_ledger.reserved_of(p.owner) == self.reserved_after_release(ledger, task_id, p.owner)
            - slashed
        &&& match self.escrow(task_id) {
            Some(e) => {
                &&& new_ledger.free_of(e.user) == ledger.free_of(e.user) + back
                &&& e.user != p.owner ==> new_ledger.reserved_of(e.user) == ledger.reserved_of(e.user)
                    - back
                &&& e.user != p.owner ==> new_ledger.free_of(p.owner) == ledger.free_of(p.owner)
                &&& ledger.others_unchanged(new_ledger, e.user, p.owner)
            },
            None => {
                &&& new_ledger.free_of(p.owner) == ledger.free_of(p.owner)
                &&& ledger.others_unchanged(new_ledger, p.owner, p.owner)
            },
        }
    }

    /// Marks task `task_id` as disputed.
    fn set_disputed(&mut self, task_id: TaskId)
        requires
            old(self).wf(),
            old(self).has_task(task_id),
        ensures
            final(self).wf(),
            final(self).tasks@ == old(self).tasks@.update(
                task_id as int,
                TaskSlot { disputed: true, ..old(self).tasks@[task_id as int] },
            ),
            final(self).pools == old(self).pools,
            final(self).pool_by_owner == old(self).pool_by_owner,
            final(self).miner_reputation == old(self).miner_reputation,
            final(self).config == old(self).config,
    {
        let len = self.tasks.len();
        assert(task_id < len);
        let ghost old_self = *self;
        self.tasks[task_id as usize].disputed = true;
        proof {
            assert(self.tasks@ =~= old_self.tasks@.update(
                task_id as int,
                TaskSlot { disputed: true, ..old_self.tasks@[task_id as int] },
            ));
            assert forall|q: PoolId| #[trigger] old_self.has_pool(q) implies self.pool(q).pool_id
                == old_self.pool(q).pool_id && self.pool(q).owner == old_self.pool(q).owner
                && pool_consistent(self.pool(q)) by {}
            old_self.lemma_pools_updated(*self);
        }
    }

    /// Replaces the record of task `task_id`, keeping its identifier.
    fn set_task(&mut self, task_id: TaskId, t: ComputeTask)
        requires
            old(self).wf(),
            old(self).has_task(task_id),
            t.task_id == task_id,
        ensures
            final(self).wf(),
            final(self).tasks@ == old(self).tasks@.update(
                task_id as int,
                TaskSlot { task: t, ..old(self).tasks@[task_id as int] },
            ),
            final(self).pools == old(self).pools,
            final(self).pool_by_owner == old(self).pool_by_owner,
            final(self).miner_reputation == old(self).miner_reputation,
            final(self).config == old(self).config,
    {
        let len = self.tasks.len();
        assert(task_id < len);
        let ghost old_self = *self;
        self.tasks[task_id as usize].task = t;
        proof {
            assert(self.tasks@ =~= old_self.tasks@.update(
                task_id as int,
                TaskSlot { task: t, ..old_self.tasks@[task_id as int] },
            ));
            assert forall|q: PoolId| #[trigger] old_self.has_pool(q) implies self.pool(q).pool_id
                == old_self.pool(q).pool_id && self.pool(q).owner == old_self.pool(q).owner
                && pool_consistent(self.pool(q)) by {}
            old_self.lemma_pools_updated(*self);
        }
    }

    /// Sets the claimable reward of task `task_id`.
    fn set_reward(&mut self, task_id: TaskId, reward: Option<Balance>)
        requires
            old(self).wf(),
            old(self).has_task(task_id),
        ensures
            final(self).wf(),
            final(self).tasks@ == old(self).tasks@.update(
                task_id as int,
                TaskSlot { reward, ..old(self).tasks@[task_id as int] },
            ),
            final(self).pools == old(self).pools,
            final(self).pool_by_owner == old(self).pool_by_owner,
            final(self).miner_reputation == old(self).miner_reputation,
            final(self).config == old(self).config,
    {
        let len = self.tasks.len();
        assert(task_id < len);
        let ghost old_self = *self;
        self.tasks[task_id as usize].reward = reward;
        proof {
            assert(self.tasks@ =~= old_self.tasks@.update(
                task_id as int,
                TaskSlot { reward, ..old_self.tasks@[task_id as int] },
            ));
            assert forall|q: PoolId| #[trigger] old_self.has_pool(q) implies self.pool(q).pool_id
                == old_self.pool(q).pool_id && self.pool(q).owner == old_self.pool(q).owner
                && pool_consistent(self.pool(q)) by {}
            old_self.lemma_pools_updated(*self);
        }
    }

    /// The error `submit_proof` fails with, if any.
    pub open spec fn submit_proof_error(
        self,
        caller: AccountId,
        task_id: TaskId,
        proof_hash: Seq<u8>,
        now: BlockNumber,
    ) -> Option<Error> {
        let t = self.task(task_id);
        if proof_hash == Seq::new(32, |i: int| 0u8) {
            Some(Error::InvalidProof)
        } else if !self.has_task(task_id) {
            Some(Error::TaskNotFound)
        } else if t.status != TaskStatus::Computing {
            Some(Error::InvalidTaskState)
        } else if !self.has_pool(t.pool_id) {
            Some(Error::PoolNotFound)
        } else if self.pool(t.pool_id).owner != caller {
            Some(Error::NotAssignedPoolOwner)
        } else if now > crate::settlement::sat_add(t.submitted_at, self.config.task_timeout) {
            Some(Error::TaskExpired)
        } else {
            None
        }
    }

    /// The owner of the task's pool submits its proof and the verification
    /// verdict. The task becomes completed or failed; the pool's counters and
    /// reputation follow. On success the reward becomes claimable and the
    /// attestation ledger is asked, best-effort, to open an attestation for
    /// the owner; on failure the escrow returns to the user and the pool is
    /// slashed. Returns the attestation opened, or `None` when there is none:
    /// a refusal of the attestation ledger does not undo the verdict.
    pub fn submit_proof(
        &mut self,
        ledger: &mut Ledger,
        attestations: &mut AttestationLedger,
        caller: AccountId,
        task_id: TaskId,
        proof_hash: H256,
        verification_result: bool,
        now: BlockNumber,
    ) -> (r: Result<Option<u64>, Error>)
        requires
            old(self).wf(),
            old(ledger).wf(),
            old(attestations).wf(),
        ensures
            final(self).wf(),
            final(ledger).wf(),
            final(attestations).wf(),
            old(attestations).evolves_to(*final(attestations)),
            match old(self).submit_proof_error(caller, task_id, proof_hash@, now) {
                Some(e) => r == Err::<Option<u64>, Error>(e) && *final(self) == *old(self)
                    && *final(ledger) == *old(ledger) && *final(attestations) == *old(attestations),
                None => {
                    let t = old(self).task(task_id);
                    let q = t.pool_id;
                    let p = old(self).pool(q);
                    let v = verification_result;
                    &&& r == Ok::<Option<u64>, Error>(
                        if v && old(attestations).attestations@.len() + 1 < u64::MAX && old(ledger).free_of(caller)
                            >= old(attestations).config.attestation_deposit {
                            Some(old(attestations).attestations@.len() as u64)
                        } else {
                            None
                        },
                    )
                    &&& final(self).task(task_id) == (ComputeTask {
                        proof_hash: Some(proof_hash),
                        verification_result: Some(v),
                        status: if v {
                            TaskStatus::Completed
                        } else {
                            TaskStatus::Failed
                        },
                        ..t
                    })
                    &&& final(self).tasks@.len() == old(self).tasks@.len()
                    &&& forall|x: int| 0 <= x < old(self).tasks@.len() && x != task_id ==> #[trigger] final(self).tasks@[x] == old(self).tasks@[x]
                    &&& v ==> final(self).reward(task_id) == (if t.reward_amount is Some {
                        t.reward_amount
                    } else {
                        old(self).reward(task_id)
                    })
                    &&& v ==> final(self).escrow(task_id) == old(self).escrow(task_id)
                    &&& !v ==> final(self).reward(task_id) is None && final(self).escrow(task_id) is None
                    &&& !v ==> old(self).failure_effects(*final(self), *old(ledger), *final(ledger), task_id, q)
                    &&& final(self).has_pool(q)
                    &&& v ==> final(self).pool(q) == after_outcome(p, true)
                    &&& !v ==> final(self).pool(q) == (ComputePool {
                        deposit_held: final(self).pool(q).deposit_held,
                        ..after_outcome(p, false)
                    })
                    &&& final(self).pool(q).deposit_held <= p.deposit_held
                    &&& final(self).active_count(q) == (if old(self).active_count(q) > 0 {
                        (old(self).active_count(q) - 1) as u32
                    } else {
                        0
                    })
                    &&& !final(self).pools@[q as int].task_ids@.contains(task_id)
                    &&& final(self).pools@.len() == old(self).pools@.len()
                    &&& forall|x: int| 0 <= x < old(self).pools@.len() && x != q ==> #[trigger] final(self).pools@[x] == old(self).pools@[x]
                    &&& final(self).pool_by_owner == old(self).pool_by_owner
                    &&& !v ==> *final(attestations) == *old(attestations)
                    &&& (v && old(attestations).attestations@.len() + 1 < u64::MAX && old(ledger).free_of(caller)
                        >= old(attestations).config.attestation_deposit) ==> {
                        &&& final(attestations).attestations@.len() == old(attestations).attestations@.len() + 1
                        &&& final(attestations).attestations@.last().attester == caller
                        &&& final(attestations).attestations@.last().task_id == task_id
                        &&& final(attestations).attestations@.last().result_hash == proof_hash
                        &&& final(attestations).attestations@.last().status == crate::attestation::AttestationStatus::Pending
                    }
                },
            },
    {
        let mut zero = true;
        let mut b: usize = 0;
        while b < 32
            invariant
                b <= 32,
                proof_hash@.len() == 32,
                zero <==> forall|j: int| 0 <= j < b ==> proof_hash@[j] == 0u8,
            decreases 32 - b,
        {
            if proof_hash[b] != 0 {
                zero = false;
            }
            b = b + 1;
        }
        if zero {
            assert(proof_hash@ =~= Seq::new(32, |i: int| 0u8));
            return Err(Error::InvalidProof);
        }
        assert(proof_hash@ != Seq::new(32, |i: int| 0u8)) by {
            let j = choose|j: int| 0 <= j < 32 && proof_hash@[j] != 0u8;
            assert(Seq::new(32, |i: int| 0u8)[j] == 0u8);
        }
        let t = match self.tasks(task_id) {
            Some(t) => t,
            None => return Err(Error::TaskNotFound),
        };
        if t.status != TaskStatus::Computing {
            return Err(Error::InvalidTaskState);
        }
        let pool_id = t.pool_id;
        let owner = match self.pools(pool_id) {
            Some(p) => p.owner,
            None => return Err(Error::PoolNotFound),
        };
        if owner != caller {
            return Err(Error::NotAssignedPoolOwner);
        }
        if now > t.submitted_at.saturating_add(self.config.task_timeout) {
            return Err(Error::TaskExpired);
        }
        let ghost s0 = *self;
        let mut nt = t;
        nt.proof_hash = Some(proof_hash);
        nt.verification_result = Some(verification_result);
        nt.status = if verification_result {
            TaskStatus::Completed
        } else {
            TaskStatus::Failed
        };
        assert(s0.has_task(task_id));
        self.set_task(task_id, nt);
        self.decrement_pool_activity(pool_id, task_id);
        self.update_reputation(pool_id, verification_result);
        if verification_result {
            if let Some(amount) = t.reward_amount {
                self.set_reward(task_id, Some(amount));
            }
            match attestations.on_task_completed(
                ledger,
                owner,
                task_id,
                proof_hash,
                Vec::new(),
                0,
                0,
                now,
            ) {
                Ok(id) => Ok(Some(id)),
                Err(_) => Ok(None),
            }
        } else {
            self.release_escrow(ledger, task_id);
            self.slash_pool(ledger, pool_id);
            Ok(None)
        }
    }

    /// The error `claim_reward` fails with, if any.
    pub open spec fn claim_error(self, ledger: Ledger, caller: AccountId, task_id: TaskId) -> Option<
        Error,
    > {
        let t = self.task(task_id);
        let e = self.escrow(task_id)->Some_0;
        let rw = self.reward(task_id)->Some_0;
        if !self.has_task(task_id) {
            Some(Error::TaskNotFound)
        } else if t.status != TaskStatus::Completed {
            Some(Error::InvalidTaskState)
        } else if t.verification_result != Some(true) {
            Some(Error::RewardNotAvailable)
        } else if !self.has_pool(t.pool_id) {
            Some(Error::PoolNotFound)
        } else if self.pool(t.pool_id).owner != caller {
            Some(Error::NotAssignedPoolOwner)
        } else if self.reward(task_id) is None {
            Some(Error::RewardNotAvailable)
        } else if self.escrow(task_id) is None {
            Some(Error::RewardNotAvailable)
        } else if e.claimed {
            Some(Error::RewardAlreadyClaimed)
        } else if ledger.reserved_of(e.user) < rw || (e.user != caller && ledger.total_of(caller)
            + rw > u128::MAX) {
            Some(Error::InsufficientBalance)
        } else {
            None
        }
    }

    /// The pool owner claims a completed task's reward: it moves from the
    /// user's reserved balance to the owner's free balance, the user's task
    /// deposit is released, and the escrow is marked claimed.
    pub fn claim_reward(&mut self, ledger: &mut Ledger, caller: AccountId, task_id: TaskId) -> (r: Result<
        (),
        Error,
    >)
        requires
            old(self).wf(),
            old(ledger).wf(),
        ensures
            final(self).wf(),
            final(ledger).wf(),
            match old(self).claim_error(*old(ledger), caller, task_id) {
                Some(e) => r == Err::<(), Error>(e) && *final(self) == *old(self)
                    && *final(ledger) == *old(ledger),
                None => {
                    let e = old(self).escrow(task_id)->Some_0;
                    let rw = old(self).reward(task_id)->Some_0;
                    let after = (old(ledger).reserved_of(e.user) - rw) as nat;
                    let back = min_nat(e.task_deposit as nat, after);
                    &&& r is Ok
                    &&& final(self).tasks@ == old(self).tasks@.update(
                        task_id as int,
                        TaskSlot {
                            reward: None,
                            escrow: Some(TaskEscrow { claimed: true, ..e }),
                            ..old(self).tasks@[task_id as int]
                        },
                    )
                    &&& final(self).pools == old(self).pools
                    &&& final(self).pool_by_owner == old(self).pool_by_owner
                    &&& e.user != caller ==> final(ledger).free_of(caller) == old(ledger).free_of(caller) + rw
                    &&& e.user != caller ==> final(ledger).reserved_of(caller) == old(ledger).reserved_of(caller)
                    &&& e.user != caller ==> final(ledger).free_of(e.user) == old(ledger).free_of(e.user) + back
                    &&& final(ledger).reserved_of(e.user) == after - back
                    &&& e.user == caller ==> final(ledger).free_of(caller) == old(ledger).free_of(caller) + rw + back
                    &&& old(ledger).others_unchanged(*final(ledger), e.user, caller)
                },
            },
    {
        let t = match self.tasks(task_id) {
            Some(t) => t,
            None => return Err(Error::TaskNotFound),
        };
        if t.status != TaskStatus::Completed {
            return Err(Error::InvalidTaskState);
        }
        if t.verification_result != Some(true) {
            return Err(Error::RewardNotAvailable);
        }
        let owner = match self.pools(t.pool_id) {
            Some(p) => p.owner,
            None => return Err(Error::PoolNotFound),
        };
        if owner != caller {
            return Err(Error::NotAssignedPoolOwner);
        }
        let reward = match self.rewards(task_id) {
            Some(v) => v,
            None => return Err(Error::RewardNotAvailable),
        };
        let escrow = match self.task_escrow(task_id) {
            Some(e) => e,
            None => return Err(Error::RewardNotAvailable),
        };
        if escrow.claimed {
            return Err(Error::RewardAlreadyClaimed);
        }
        let user = escrow.user;
        if ledger.reserved_balance(user) < reward {
            return Err(Error::InsufficientBalance);
        }
        if user != caller {
            let room = u128::MAX - ledger.free_balance(caller);
            if ledger.reserved_balance(caller) > room || reward > room - ledger.reserved_balance(caller) {
                return Err(Error::InsufficientBalance);
            }
        }
        let _ = ledger.repatriate_reserved(user, caller, reward);
        let _ = ledger.unreserve(user, escrow.task_deposit);
        let len = self.tasks.len();
        assert(task_id < len);
        let i = task_id as usize;
        let ghost old_self = *self;
        self.tasks[i].reward = None;
        self.tasks[i].escrow = Some(TaskEscrow { claimed: true, ..escrow });
        proof {
            assert(self.tasks@ =~= old_self.tasks@.update(
                task_id as int,
                TaskSlot {
                    reward: None,
                    escrow: Some(TaskEscrow { claimed: true, ..escrow }),
                    ..old_self.tasks@[task_id as int]
                },
            ));
            assert forall|q: PoolId| #[trigger] old_self.has_pool(q) implies self.pool(q).pool_id
                == old_self.pool(q).pool_id && self.pool(q).owner == old_self.pool(q).owner
                && pool_consistent(self.pool(q)) by {}
            old_self.lemma_pools_updated(*self);
        }
        Ok(())
    }

    /// The error `dispute_verification` fails with, if any.
    pub open spec fn dispute_error(self, caller: AccountId, task_id: TaskId) -> Option<Error> {
        let t = self.task(task_id);
        if !self.has_task(task_id) {
            Some(Error::TaskNotFound)
        } else if t.user != caller {
            Some(Error::NotTaskUser)
        } else if !is_terminal(t.status) {
            Some(Error::DisputeNotAllowed)
        } else if self.tasks@[task_id as int].disputed {
            Some(Error::DisputeNotAllowed)
        } else if t.verification_result == Some(true) {
            if !self.has_pool(t.pool_id) {
                Some(Error::PoolNotFound)
            } else {
                None
            }
        } else if t.verification_result == Some(false) {
            None
        } else {
            Some(Error::DisputeNotAllowed)
        }
    }

    /// The task's user disputes the verdict on a finished task, which flips
    /// it: a verified task becomes failed (its escrow returns to the user, the
    /// pool loses reputation and is slashed); a failed one becomes completed
    /// (its reward is claimable again and the pool gains reputation). A task
    /// is disputed at most once: a second dispute is not allowed.
    pub fn dispute_verification(&mut self, ledger: &mut Ledger, caller: AccountId, task_id: TaskId) -> (r:
        Result<(), Error>)
        requires
            old(self).wf(),
            old(ledger).wf(),
        ensures
            final(self).wf(),
            final(ledger).wf(),
            match old(self).dispute_error(caller, task_id) {
                Some(e) => r == Err::<(), Error>(e) && *final(self) == *old(self)
                    && *final(ledger) == *old(ledger),
                None => {
                    let t = old(self).task(task_id);
                    let was_verified = t.verification_result == Some(true);
                    &&& r is Ok
                    &&& final(self).task(task_id) == (ComputeTask {
                        status: if was_verified {
                            TaskStatus::Failed
                        } else {
                            TaskStatus::Completed
                        },
                        verification_result: Some(!was_verified),
                        ..t
                    })
                    &&& final(self).tasks@.len() == old(self).tasks@.len()
                    &&& forall|x: int| 0 <= x < old(self).tasks@.len() && x != task_id ==> #[trigger] final(self).tasks@[x] == old(self).tasks@[x]
                    &&& was_verified ==> final(self).reward(task_id) is None && final(self).escrow(task_id) is None
                    &&& !was_verified ==> final(self).escrow(task_id) == old(self).escrow(task_id)
                    &&& !was_verified ==> final(self).reward(task_id) == (if t.reward_amount is Some {
                        t.reward_amount
                    } else {
                        old(self).reward(task_id)
                    })
                    &&& !was_verified ==> *final(ledger) == *old(ledger)
                    &&& final(self).tasks@[task_id as int].disputed
                    &&& was_verified ==> old(self).failure_effects(*final(self), *old(ledger), *final(ledger), task_id, t.pool_id)
                    &&& !was_verified && old(self).has_pool(t.pool_id) ==> final(self).has_pool(t.pool_id)
                        && final(self).pool(t.pool_id) == after_outcome(old(self).pool(t.pool_id), true)
                },
            },
    {
        let t = match self.tasks(task_id) {
            Some(t) => t,
            None => return Err(Error::TaskNotFound),
        };
        if t.user != caller {
            return Err(Error::NotTaskUser);
        }
        if t.status != TaskStatus::Completed && t.status != TaskStatus::Failed {
            return Err(Error::DisputeNotAllowed);
        }
        let len = self.tasks.len();
        assert(task_id < len);
        if self.tasks[task_id as usize].disputed {
            return Err(Error::DisputeNotAllowed);
        }
        let pool_id = t.pool_id;
        match t.verification_result {
            Some(true) => {
                if self.pools(pool_id).is_none() {
                    return Err(Error::PoolNotFound);
                }
                let mut nt = t;
                nt.status = TaskStatus::Failed;
                nt.verification_result = Some(false);
                self.set_task(task_id, nt);
                self.update_reputation(pool_id, false);
                self.release_escrow(ledger, task_id);
                self.slash_pool(ledger, pool_id);
                self.set_disputed(task_id);
            },
            Some(false) => {
                let mut nt = t;
                nt.status = TaskStatus::Completed;
                nt.verification_result = Some(true);
                self.set_task(task_id, nt);
                if let Some(amount) = t.reward_amount {
                    self.set_reward(task_id, Some(amount));
                }
                self.update_reputation(pool_id, true);
                self.set_disputed(task_id);
            },
            None => return Err(Error::DisputeNotAllowed),
        }
        Ok(())
    }

    /// Fails a task that is not yet terminal, with the effects of a failed
    /// verdict; a terminal task is left alone. The block-tick applies it to
    /// every overdue task.
    pub fn mark_task_failed(&mut self, ledger: &mut Ledger, task_id: TaskId)
        requires
            old(self).wf(),
            old(ledger).wf(),
            old(self).has_task(task_id),
        ensures
            final(self).wf(),
            final(ledger).wf(),
            final(self).tasks@.len() == old(self).tasks@.len(),
            forall|x: int| 0 <= x < old(self).tasks@.len() && x != task_id ==> #[trigger] final(self).tasks@[x] == old(self).tasks@[x],
            is_terminal(old(self).task(task_id).status) ==> *final(self) == *old(self) && *final(ledger) == *old(ledger),
            !is_terminal(old(self).task(task_id).status) ==> {
                &&& final(self).task(task_id) == (ComputeTask {
                    status: TaskStatus::Failed,
                    verification_result: Some(false),
                    ..old(self).task(task_id)
                })
                &&& final(self).reward(task_id) is None
                &&& final(self).escrow(task_id) is None
                &&& final(self).tasks@[task_id as int].disputed == old(self).tasks@[task_id as int].disputed
                &&& old(self).has_pool(old(self).task(task_id).pool_id) ==> old(self).failure_effects(
                    *final(self),
                    *old(ledger),
                    *final(ledger),
                    task_id,
                    old(self).task(task_id).pool_id,
                )
                &&& final(self).active_count(old(self).task(task_id).pool_id) == (if old(self).active_count(
                    old(self).task(task_id).pool_id,
                ) > 0 {
                    (old(self).active_count(old(self).task(task_id).pool_id) - 1) as u32
                } else {
                    0
                })
            },
    {
        let t = match self.tasks(task_id) {
            Some(t) => t,
            None => return,
        };
        if t.status == TaskStatus::Completed || t.status == TaskStatus::Failed {
            return;
        }
        let mut nt = t;
        nt.status = TaskStatus::Failed;
        nt.verification_result = Some(false);
        self.set_task(task_id, nt);
        self.decrement_pool_activity(t.pool_id, task_id);
        self.update_reputation(t.pool_id, false);
        self.release_escrow(ledger, task_id);
        self.slash_pool(ledger, t.pool_id);
    }

    /// Whether a task listed as active has run past its timeout at `now`.
    pub open spec fn overdue(self, task_id: TaskId, now: BlockNumber) -> bool {
        &&& self.has_task(task_id)
        &&& !is_terminal(self.task(task_id).status)
        &&& now > crate::settlement::sat_add(self.task(task_id).submitted_at, self.config.task_timeout)
    }

    /// Whether some pool lists `task_id` among its active tasks.
    pub open spec fn listed(self, task_id: TaskId) -> bool {
        exists|q: int| 0 <= q < self.pools@.len() && #[trigger] self.pools@[q].task_ids@.contains(task_id)
    }

    /// Block-tick: every listed task that has run past its timeout fails, as
    /// on a failed verdict. Returns the identifiers of the tasks that timed
    /// out.
    pub fn on_initialize(&mut self, ledger: &mut Ledger, now: BlockNumber) -> (expired: Vec<TaskId>)
        requires
            old(self).wf(),
            old(ledger).wf(),
        ensures
            final(self).wf(),
            final(ledger).wf(),
            final(self).tasks@.len() == old(self).tasks@.len(),
            forall|t: TaskId| #[trigger] expired@.contains(t) <==> old(self).listed(t) && old(self).overdue(t, now),
            forall|t: TaskId| #[trigger] final(self).has_task(t) ==> final(self).task(t).status == (if old(
                self,
            ).listed(t) && old(self).overdue(t, now) {
                TaskStatus::Failed
            } else {
                old(self).task(t).status
            }),
            forall|t: TaskId| #[trigger] final(self).has_task(t) ==> if old(self).listed(t) && old(self).overdue(t, now) {
                &&& final(self).task(t) == (ComputeTask {
                    status: TaskStatus::Failed,
                    verification_result: Some(false),
                    ..old(self).task(t)
                })
                &&& final(self).reward(t) is None
                &&& final(self).escrow(t) is None
            } else {
                final(self).tasks@[t as int] == old(self).tasks@[t as int]
            },
    {
        let ghost orig = *self;
        let mut expired: Vec<TaskId> = Vec::new();
        let mut i: usize = 0;
        while i < self.pools.len()
            invariant
                *self == orig,
                i <= self.pools@.len(),
                forall|t: TaskId| #[trigger] expired@.contains(t) <==> (exists|q: int| 0 <= q < i && #[trigger] self.pools@[q].task_ids@.contains(t)) && self.overdue(t, now),
            decreases self.pools@.len() - i,
        {
            let mut j: usize = 0;
            let ghost before = expired@;
            while j < self.pools[i].task_ids.len()
                invariant
                    *self == orig,
                    i < self.pools@.len(),
                    j <= self.pools@[i as int].task_ids@.len(),
                    forall|t: TaskId| #[trigger] expired@.contains(t) <==> before.contains(t) || (self.pools@[i as int].task_ids@.subrange(0, j as int).contains(t) && self.overdue(t, now)),
                decreases self.pools@[i as int].task_ids@.len() - j,
            {
                let t = self.pools[i].task_ids[j];
                let ghost pre = self.pools@[i as int].task_ids@.subrange(0, j as int);
                let ghost old_expired = expired@;
                assert(self.pools@[i as int].task_ids@.subrange(0, j as int + 1) =~= pre.push(t));
                let overdue = match self.tasks(t) {
                    Some(task) => task.status != TaskStatus::Completed && task.status
                        != TaskStatus::Failed && now > task.submitted_at.saturating_add(
                        self.config.task_timeout,
                    ),
                    None => false,
                };
                if overdue {
                    expired.push(t);
                }
                j = j + 1;
                assert forall|x: TaskId| #[trigger] expired@.contains(x) <==> before.contains(x) || (self.pools@[i as int].task_ids@.subrange(0, j as int).contains(x) && self.overdue(x, now)) by {
                    crate::settlement::lemma_push_contains(pre, t, x);
                    crate::settlement::lemma_push_contains(old_expired, t, x);
                }
            }
            assert(self.pools@[i as int].task_ids@.subrange(0, j as int) =~= self.pools@[i as int].task_ids@);
            i = i + 1;
            assert forall|t: TaskId| #[trigger] expired@.contains(t) <==> (exists|q: int| 0 <= q < i && #[trigger] self.pools@[q].task_ids@.contains(t)) && self.overdue(t, now) by {
                if self.pools@[i - 1].task_ids@.contains(t) {
                    assert(0 <= i - 1 < i);
                }
                if exists|q: int| 0 <= q < i && #[trigger] self.pools@[q].task_ids@.contains(t) {
                    let q = choose|q: int| 0 <= q < i && #[trigger] self.pools@[q].task_ids@.contains(t);
                    if q < i - 1 {
                        assert(exists|q2: int| 0 <= q2 < i - 1 && #[trigger] self.pools@[q2].task_ids@.contains(t));
                    }
                }
            }
        }
        let mut k: usize = 0;
        while k < expired.len()
            invariant
                k <= expired@.len(),
                self.wf(),
                ledger.wf(),
                self.tasks@.len() == orig.tasks@.len(),
                forall|t: TaskId| #[trigger] expired@.contains(t) <==> orig.listed(t) && orig.overdue(t, now),
                forall|t: TaskId| #[trigger] self.has_task(t) ==> self.task(t).status == (if expired@.subrange(0, k as int).contains(t) {
                    TaskStatus::Failed
                } else {
                    orig.task(t).status
                }),
                forall|t: TaskId| #[trigger] self.has_task(t) ==> if expired@.subrange(0, k as int).contains(t) {
                    &&& self.task(t) == (ComputeTask {
                        status: TaskStatus::Failed,
                        verification_result: Some(false),
                        ..orig.task(t)
                    })
                    &&& self.reward(t) is None
                    &&& self.escrow(t) is None
                } else {
                    self.tasks@[t as int] == orig.tasks@[t as int]
                },
            decreases expired@.len() - k,
        {
            let t = expired[k];
            let ghost pre = expired@.subrange(0, k as int);
            let ghost s_before = *self;
            assert(expired@.subrange(0, k as int + 1) =~= pre.push(t));
            assert(expired@.contains(t));
            assert(orig.has_task(t));
            self.mark_task_failed(ledger, t);
            k = k + 1;
            assert forall|x: TaskId| #[trigger] self.has_task(x) implies self.task(x).status == (if expired@.subrange(0, k as int).contains(x) {
                TaskStatus::Failed
            } else {
                orig.task(x).status
            }) by {
                crate::settlement::lemma_push_contains(pre, t, x);
                assert(s_before.has_task(x));
                if x == t {
                    if pre.contains(t) {
                        assert(s_before.task(t).status == TaskStatus::Failed);
                    }
                }
            }
            assert forall|x: TaskId| #[trigger] self.has_task(x) implies if expired@.subrange(0, k as int).contains(x) {
                &&& self.task(x) == (ComputeTask {
                    status: TaskStatus::Failed,
                    verification_result: Some(false),
                    ..orig.task(x)
                })
                &&& self.reward(x) is None
                &&& self.escrow(x) is None
            } else {
                self.tasks@[x as int] == orig.tasks@[x as int]
            } by {
                crate::settlement::lemma_push_contains(pre, t, x);
                assert(s_before.has_task(x));
                if x == t && !pre.contains(t) {
                    assert(orig.overdue(t, now));
                    assert(s_before.tasks@[t as int] == orig.tasks@[t as int]);
                }
            }
        }
        assert(expired@.subrange(0, k as int) =~= expired@);
        expired
    }

    /// Whether task `task_id` exists and has completed.
    pub fn is_task_completed(&self, task_id: TaskId) -> (r: bool)
        ensures
            r == (self.has_task(task_id) && self.task(task_id).status == TaskStatus::Completed),
    {
        match self.tasks(task_id) {
            Some(t) => t.status == TaskStatus::Completed,
            None => false,
        }
    }

    /// The plain score used when another module schedules work: the mean of
    /// reputation and success rate.
    pub open spec fn plain_score(self, id: PoolId) -> nat {
        (self.pool(id).reputation as nat + self.pool(id).success_rate as nat) / 2
    }

    pub open spec fn is_active_pool(self, id: PoolId) -> bool {
        self.has_pool(id) && self.pool(id).status == PoolStatus::Active
    }

    /// Pool `w` is the first active pool with the highest positive plain
    /// score.
    pub open spec fn is_plain_best(self, w: PoolId) -> bool {
        &&& self.is_active_pool(w)
        &&& self.plain_score(w) > 0
        &&& forall|c: PoolId| #[trigger] self.is_active_pool(c) ==> self.plain_score(c) <= self.plain_score(w)
        &&& forall|c: PoolId| c < w && #[trigger] self.is_active_pool(c) ==> self.plain_score(c) < self.plain_score(w)
    }

    pub open spec fn has_plain_candidate(self) -> bool {
        exists|c: PoolId| #[trigger] self.is_active_pool(c) && self.plain_score(c) > 0
    }

    pub open spec fn plain_best(self) -> PoolId {
        choose|w: PoolId| self.is_plain_best(w)
    }

    /// Schedules work for another module: the task goes to the first active
    /// pool with the best plain score, at that pool's price, and starts
    /// computing at once. Nothing is reserved. Returns the task's identifier,
    /// the pool owner and the price.
    pub fn schedule_compute(
        &mut self,
        user: AccountId,
        dimensions: (u32, u32, u32),
        now: BlockNumber,
    ) -> (r: Result<(TaskId, AccountId, Balance), Error>)
        requires
            old(self).wf(),
        ensures
            final(self).wf(),
            !old(self).has_plain_candidate() ==> r == Err::<(TaskId, AccountId, Balance), Error>(Error::NoAvailablePool),
            r is Err ==> *final(self) == *old(self),
            old(self).has_plain_candidate() && old(self).tasks@.len() + 1 < u64::MAX && old(self).pools@[old(self).plain_best() as int].task_ids@.len() < old(self).config.max_tasks_per_pool ==> r is Ok,
            r matches Ok((id, owner, price)) ==> {
                let w = old(self).plain_best();
                let p = old(self).pool(w);
                &&& old(self).is_plain_best(w)
                &&& id == old(self).tasks@.len()
                &&& owner == p.owner
                &&& price == p.price_per_task
                &&& final(self).tasks@ == old(self).tasks@.push(
                    TaskSlot {
                        task: ComputeTask {
                            task_id: id,
                            user,
                            pool_id: w,
                            dimensions: TaskDimensions { m: dimensions.0, n: dimensions.1, k: dimensions.2 },
                            priority: TaskPriority::Normal,
                            status: TaskStatus::Computing,
                            submitted_at: now,
                            proof_hash: None,
                            verification_result: None,
                            reward_amount: Some(price),
                        },
                        reward: None,
                        escrow: None,
                        disputed: false,
                    },
                )
                &&& final(self).pools@[w as int].task_ids@ == old(self).pools@[w as int].task_ids@.push(id)
                &&& final(self).active_count(w) == sat_inc(old(self).active_count(w))
            },
    {
        let n = self.pools.len();
        let mut best: Option<PoolId> = None;
        let mut best_score: u32 = 0;
        let mut j: usize = 0;
        while j < n
            invariant
                n == self.pools@.len(),
                n < u64::MAX,
                j <= n,
                self.wf(),
                best is None ==> best_score == 0 && forall|c: PoolId| c < j && #[trigger] self.is_active_pool(c) ==> self.plain_score(c) == 0,
                best matches Some(w) ==> {
                    &&& w < j
                    &&& self.is_active_pool(w)
                    &&& best_score == self.plain_score(w)
                    &&& best_score > 0
                    &&& forall|c: PoolId| c < j && #[trigger] self.is_active_pool(c) ==> self.plain_score(c) <= best_score
                    &&& forall|c: PoolId| c < w && #[trigger] self.is_active_pool(c) ==> self.plain_score(c) < best_score
                },
            decreases n - j,
        {
            let ghost jj = j as u64;
            match &self.pools[j].pool {
                Some(p) => {
                    if p.status == PoolStatus::Active {
                        assert(self.has_pool(jj));
                        assert(pool_consistent(self.pool(jj)));
                        let sc = (p.reputation + p.success_rate) / 2;
                        if sc > best_score {
                            best_score = sc;
                            best = Some(j as u64);
                        }
                    }
                },
                None => {},
            }
            j = j + 1;
        }
        let w = match best {
            Some(w) => w,
            None => {
                proof {
                    assert forall|c: PoolId| !(#[trigger] self.is_active_pool(c) && self.plain_score(c) > 0) by {
                        if self.is_active_pool(c) {
                            assert(c < n);
                        }
                    }
                }
                return Err(Error::NoAvailablePool);
            },
        };
        proof {
            assert forall|c: PoolId| #[trigger] self.is_active_pool(c) implies self.plain_score(c) <= self.plain_score(w) by {
                assert(c < n);
            }
            assert(self.is_plain_best(w));
            let b = self.plain_best();
            assert(self.is_plain_best(b));
            if b < w {
                assert(self.is_active_pool(b));
            } else if w < b {
                assert(self.is_active_pool(w));
            }
        }
        if self.tasks.len() as u64 >= u64::MAX - 1 {
            return Err(Error::ArithmeticOverflow);
        }
        let i = w as usize;
        if self.pools[i].task_ids.len() >= self.config.max_tasks_per_pool as usize {
            return Err(Error::TooManyActiveTasks);
        }
        let (owner, price) = match &self.pools[i].pool {
            Some(p) => (p.owner, p.price_per_task),
            None => return Err(Error::NoAvailablePool),
        };
        let task_id = self.tasks.len() as u64;
        let ghost old_self = *self;
        self.pools[i].task_ids.push(task_id);
        self.pools[i].active_tasks = self.pools[i].active_tasks.saturating_add(1);
        proof {
            assert forall|q: PoolId| #[trigger] old_self.has_pool(q) implies self.pool(q).pool_id
                == old_self.pool(q).pool_id && self.pool(q).owner == old_self.pool(q).owner
                && pool_consistent(self.pool(q)) by {}
            old_self.lemma_pools_updated(*self);
        }
        let ghost mid = *self;
        self.tasks.push(
            TaskSlot {
                task: ComputeTask {
                    task_id,
                    user,
                    pool_id: w,
                    dimensions: TaskDimensions { m: dimensions.0, n: dimensions.1, k: dimensions.2 },
                    priority: TaskPriority::Normal,
                    status: TaskStatus::Computing,
                    submitted_at: now,
                    proof_hash: None,
                    verification_result: None,
                    reward_amount: Some(price),
                },
                reward: None,
                escrow: None,
                disputed: false,
            },
        );
        proof {
            mid.lemma_task_pushed(*self);
        }
        Ok((task_id, owner, price))
    }
}

/// Staking `n` on a pool and then unstaking `n` from it leaves every stake,
/// the pool's total stake and the staker's free and reserved balances as
/// they were.
pub proof fn lemma_stake_then_unstake_round_trip(
    s0: Pallet,
    s1: Pallet,
    s2: Pallet,
    l0: Ledger,
    l1: Ledger,
    l2: Ledger,
    who: AccountId,
    pool_id: PoolId,
    n: Balance,
    r2: Result<(), Error>,
)
    requires
        s0.wf(),
        l0.wf(),
        s0.stake_post(s1, l0, l1, who, pool_id, n, Ok(())),
        s1.unstake_post(s2, l1, l2, who, pool_id, n, r2),
    ensures
        r2 is Ok,
        s2.stake_of(pool_id, who) == s0.stake_of(pool_id, who),
        s2.total_stake_of(pool_id) == s0.total_stake_of(pool_id),
        forall|a: AccountId| #[trigger] s2.stake_of(pool_id, a) == s0.stake_of(pool_id, a),
        l2.free_of(who) == l0.free_of(who),
        l2.reserved_of(who) == l0.reserved_of(who),
        l0.others_unchanged(l2, who, who),
{
    assert(pool_id < s0.pools@.len());
    assert forall|a: AccountId| #[trigger] s2.stake_of(pool_id, a) == s0.stake_of(pool_id, a) by {
        if a != who {
            assert(s1.stake_of(pool_id, a) == s0.stake_of(pool_id, a));
        }
    }
}

/// Every stored pool's counters agree: each finished task is counted once as
/// completed or failed, and the success rate is `min(100, completed·100 /
/// total)` once a task has finished.
pub proof fn lemma_pool_counters_agree(s: Pallet, id: PoolId)
    requires
        s.wf(),
        s.has_pool(id),
    ensures
        s.pool(id).total_tasks == s.pool(id).completed_tasks + s.pool(id).failed_tasks,
        s.pool(id).total_tasks > 0 ==> s.pool(id).success_rate == min_nat_u32(
            s.pool(id).completed_tasks as nat * 100 / s.pool(id).total_tasks as nat,
            100,
        ),
{
}

/// Every stored pool's NVLink efficiency is 100, or lies in 120 to 150.
pub proof fn lemma_pool_nvlink_in_band(s: Pallet, id: PoolId)
    requires
        s.wf(),
        s.has_pool(id),
    ensures
        s.pool(id).nvlink_efficiency == NO_NVLINK_EFFICIENCY || (MIN_NVLINK_EFFICIENCY
            <= s.pool(id).nvlink_efficiency <= MAX_NVLINK_EFFICIENCY),
{
}

/// Identifiers are positions: the next pool and task identifiers are in use
/// by no pool slot or task, and every stored pool and task carries its own
/// identifier, so none is given twice.
pub proof fn lemma_fresh_ids_unused(s: Pallet, pool_id: PoolId, task_id: TaskId)
    requires
        s.wf(),
    ensures
        !s.has_pool(s.pools@.len() as u64),
        !s.has_task(s.tasks@.len() as u64),
        s.has_pool(pool_id) ==> s.pool(pool_id).pool_id == pool_id,
        s.has_task(task_id) ==> s.task(task_id).task_id == task_id,
{
}

/// A task's verdict is disputed at most once: once a dispute of it has
/// succeeded (which marks it disputed), every further dispute of it fails.
pub proof fn lemma_second_dispute_refused(s: Pallet, caller: AccountId, task_id: TaskId)
    requires
        s.wf(),
        s.has_task(task_id),
        s.tasks@[task_id as int].disputed,
    ensures
        s.dispute_error(caller, task_id) is Some,
{
}

/// Every pool slot's total stake is the sum of its stakes, and each stake is
/// at most that total.
pub proof fn lemma_total_stake_is_sum(s: Pallet, id: PoolId, who: AccountId)
    requires
        s.wf(),
        id < s.pools@.len(),
    ensures
        s.total_stake_of(id) == stake_sum(s.pools@[id as int].stakes@, s.pools@[id as int].stakes@.len()),
        s.stake_of(id, who) <= s.total_stake_of(id),
{
    assert(stakes_consistent(s.pools@[id as int]));
    lemma_stake_le_sum(s.pools@[id as int].stakes@, who, s.pools@[id as int].stakes@.len());
}

} // verus!
