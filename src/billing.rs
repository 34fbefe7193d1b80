//! Task billing ledger: priced task definitions, orders charged in DBC at the
//! oracle's rate and split between a burn and the miner, and per-era
//! statistics that drive reward sharing.
use std::collections::HashMap;
use vstd::prelude::*;

use crate::codec::H256;
use crate::ledger::{min_nat, pct_of, percent_of, AccountId, Balance, BlockNumber, Ledger};

verus! {

broadcast use vstd::std_specs::hash::group_hash_axioms;

/// Token counts are priced per this many tokens.
pub const TOKENS_PER_PRICE_UNIT: u128 = 1000;

/// The burn share of the fixed revenue split offered to other modules.
pub const FIXED_BURN_PERCENT: u32 = 15;

/// The miner share of the fixed revenue split offered to other modules.
pub const FIXED_MINER_PERCENT: u32 = 85;

#[derive(Clone, Copy, Debug, PartialEq, Eq, Structural)]
pub enum TaskOrderStatus {
    Pending,
    InProgress,
    Completed,
    Settled,
}

/// A priced model offering.
#[derive(Clone, Debug, PartialEq, Eq)]
pub struct TaskDefinition {
    pub model_id: Vec<u8>,
    pub version: Vec<u8>,
    pub admin: AccountId,
    pub input_price_usd_per_1k: Balance,
    pub output_price_usd_per_1k: Balance,
    pub max_tokens_per_request: u64,
    pub policy_cid: Vec<u8>,
    pub is_active: bool,
}

/// An order for one request against a task definition.
#[derive(Clone, Copy, Debug, PartialEq, Eq)]
pub struct TaskOrder {
    pub order_id: u64,
    pub task_id: u64,
    pub customer: AccountId,
    pub miner: AccountId,
    pub input_tokens: u64,
    pub output_tokens: u64,
    pub dbc_price_snapshot: Balance,
    pub total_dbc_charged: Balance,
    pub dbc_burned: Balance,
    pub miner_payout: Balance,
    pub created_at: BlockNumber,
    pub status: TaskOrderStatus,
    pub attestation_hash: Option<H256>,
}

/// Totals of the orders settled within one era.
#[derive(Clone, Copy, Debug, PartialEq, Eq, Structural, Default)]
pub struct EraTaskStats {
    pub total_charged: Balance,
    pub total_burned: Balance,
    pub total_miner_payout: Balance,
    pub completed_orders: u64,
}

/// One miner's payout total and order count within one era.
#[derive(Clone, Copy, Debug, PartialEq, Eq, Structural)]
pub struct MinerEraStats {
    pub era: u32,
    pub miner: AccountId,
    pub total_payout: Balance,
    pub orders: u64,
}

#[derive(Clone, Copy, Debug, PartialEq, Eq, Structural)]
pub struct Config {
    /// Receives the burned share of every settled order.
    pub treasury: AccountId,
    pub burn_percentage: u32,
    pub miner_payout_percentage: u32,
    /// Share of an era's rewards that goes to task mode.
    pub task_mode_reward_percentage: u32,
    pub era_duration: BlockNumber,
    pub max_model_id_len: u32,
    pub max_policy_cid_len: u32,
    pub order_timeout: BlockNumber,
}

#[derive(Clone, Copy, Debug, PartialEq, Eq, Structural)]
pub enum Error {
    TaskDefinitionNotFound,
    TaskDefinitionInactive,
    TaskOrderNotFound,
    InvalidOrderStatus,
    TokenCountExceedsLimit,
    InsufficientBalance,
    PriceOracleUnavailable,
    ArithmeticOverflow,
    NotAuthorized,
    OrderNotExpired,
}

/// The USD value of an order: each token count times its price per thousand
/// tokens, each part truncated; `None` when a product leaves the range of a
/// balance or the sum leaves the range of a `u64`.
pub open spec fn usd_value_of(
    input_tokens: u64,
    output_tokens: u64,
    input_price: Balance,
    output_price: Balance,
) -> Option<u64> {
    let a = input_tokens as nat * input_price as nat;
    let b = output_tokens as nat * output_price as nat;
    if a > u128::MAX || b > u128::MAX {
        None
    } else if a / 1000 + b / 1000 > u64::MAX {
        None
    } else {
        Some((a / 1000 + b / 1000) as u64)
    }
}

pub fn calculate_order_usd_value(
    input_tokens: u64,
    output_tokens: u64,
    input_price_usd_per_1k: Balance,
    output_price_usd_per_1k: Balance,
) -> (r: Result<u64, Error>)
    ensures
        match usd_value_of(input_tokens, output_tokens, input_price_usd_per_1k, output_price_usd_per_1k) {
            Some(v) => r == Ok::<u64, Error>(v),
            None => r == Err::<u64, Error>(Error::ArithmeticOverflow),
        },
{
    let a = match (input_tokens as u128).checked_mul(input_price_usd_per_1k) {
        Some(v) => v / TOKENS_PER_PRICE_UNIT,
        None => return Err(Error::ArithmeticOverflow),
    };
    let b = match (output_tokens as u128).checked_mul(output_price_usd_per_1k) {
        Some(v) => v / TOKENS_PER_PRICE_UNIT,
        None => return Err(Error::ArithmeticOverflow),
    };
    let total = match a.checked_add(b) {
        Some(v) => v,
        None => return Err(Error::ArithmeticOverflow),
    };
    if total > u64::MAX as u128 {
        return Err(Error::ArithmeticOverflow);
    }
    Ok(total as u64)
}

/// The split of a charge: the burn is `burn%` of it, the miner gets the rest;
/// fails when the configured burn and miner shares together exceed it.
pub open spec fn revenue_split_of(total: Balance, burn: u32, miner: u32) -> Option<(Balance, Balance)> {
    let burned = pct_of(total, burn);
    let cut = pct_of(total, miner);
    if burned + cut > total {
        None
    } else {
        Some((burned as u128, (total - burned) as u128))
    }
}

/// `era_duration` is zero means a single era, the zeroth.
pub open spec fn era_of(block: BlockNumber, era_duration: BlockNumber) -> u32 {
    if era_duration == 0 {
        0
    } else if block as nat / era_duration as nat > u32::MAX {
        u32::MAX
    } else {
        (block / era_duration) as u32
    }
}

pub open spec fn sat_add_u128(a: Balance, b: Balance) -> Balance {
    if a + b > u128::MAX {
        u128::MAX
    } else {
        (a + b) as u128
    }
}

pub open spec fn sat_add_u64(a: u64, b: u64) -> u64 {
    if a + b > u64::MAX {
        u64::MAX
    } else {
        (a + b) as u64
    }
}

/// Era statistics after one more settled order.
pub open spec fn stats_with(s: EraTaskStats, o: TaskOrder) -> EraTaskStats {
    EraTaskStats {
        total_charged: sat_add_u128(s.total_charged, o.total_dbc_charged),
        total_burned: sat_add_u128(s.total_burned, o.dbc_burned),
        total_miner_payout: sat_add_u128(s.total_miner_payout, o.miner_payout),
        completed_orders: sat_add_u64(s.completed_orders, 1),
    }
}

/// What order `o` keeps reserved from account `a`: its whole charge until it
/// is settled, when `a` is its customer.
pub open spec fn held_for(o: TaskOrder, a: AccountId) -> nat {
    if o.customer == a && o.status != TaskOrderStatus::Settled {
        o.total_dbc_charged as nat
    } else {
        0
    }
}

/// The charges the first `n` orders keep reserved from `a`.
pub open spec fn held_upto(orders: Seq<TaskOrder>, a: AccountId, n: nat) -> nat
    decreases n,
{
    if n == 0 {
        0
    } else {
        held_upto(orders, a, (n - 1) as nat) + held_for(orders[n - 1], a)
    }
}

proof fn lemma_held_push(orders: Seq<TaskOrder>, x: TaskOrder, a: AccountId, n: nat)
    requires
        n <= orders.len(),
    ensures
        held_upto(orders.push(x), a, n) == held_upto(orders, a, n),
    decreases n,
{
    if n > 0 {
        lemma_held_push(orders, x, a, (n - 1) as nat);
        assert(orders.push(x)[n - 1] == orders[n - 1]);
    }
}

proof fn lemma_held_update(orders: Seq<TaskOrder>, i: int, y: TaskOrder, a: AccountId, n: nat)
    requires
        0 <= i < orders.len(),
        n <= orders.len(),
    ensures
        i < n ==> held_upto(orders.update(i, y), a, n) + held_for(orders[i], a) == held_upto(orders, a, n)
            + held_for(y, a),
        i >= n ==> held_upto(orders.update(i, y), a, n) == held_upto(orders, a, n),
    decreases n,
{
    if n > 0 {
        lemma_held_update(orders, i, y, a, (n - 1) as nat);
        if n - 1 != i {
            assert(orders.update(i, y)[n - 1] == orders[n - 1]);
        }
    }
}

/// Whether the treasury and the miner can receive an order's shares: each
/// payee other than the customer has room in its balance for what it gets.
pub open spec fn settle_has_room(ledger: Ledger, o: TaskOrder, treasury: AccountId) -> bool {
    &&& (o.customer == treasury || ledger.total_of(treasury) + o.dbc_burned <= u128::MAX)
    &&& (o.customer == o.miner || ledger.total_of(o.miner) + o.miner_payout + (if treasury == o.miner
        && o.customer != treasury {
        o.dbc_burned as nat
    } else {
        0
    }) <= u128::MAX)
}

pub struct Pallet {
    pub config: Config,
    /// Definition `i` is stored at index `i`.
    pub definitions: Vec<TaskDefinition>,
    /// Order `i` is stored at index `i`.
    pub orders: Vec<TaskOrder>,
    pub era_stats: HashMap<u32, EraTaskStats>,
    /// At most one entry per era and miner.
    pub miner_stats: Vec<MinerEraStats>,
}

impl Pallet {
    pub open spec fn has_definition(self, id: u64) -> bool {
        id < self.definitions@.len()
    }

    pub open spec fn definition(self, id: u64) -> TaskDefinition {
        self.definitions@[id as int]
    }

    pub open spec fn has_order(self, id: u64) -> bool {
        id < self.orders@.len()
    }

    pub open spec fn order(self, id: u64) -> TaskOrder {
        self.orders@[id as int]
    }

    pub open spec fn era_stats_view(self, era: u32) -> EraTaskStats {
        if self.era_stats@.contains_key(era) {
            self.era_stats@[era]
        } else {
            EraTaskStats { total_charged: 0, total_burned: 0, total_miner_payout: 0, completed_orders: 0 }
        }
    }

    /// The payout total and order count of `miner` in `era`.
    pub open spec fn miner_stats_of(self, era: u32, miner: AccountId) -> (Balance, u64) {
        if exists|i: int| 0 <= i < self.miner_stats@.len() && #[trigger] self.miner_stats@[i].era == era
            && self.miner_stats@[i].miner == miner {
            let i = choose|i: int| 0 <= i < self.miner_stats@.len() && #[trigger] self.miner_stats@[i].era == era
                && self.miner_stats@[i].miner == miner;
            (self.miner_stats@[i].total_payout, self.miner_stats@[i].orders)
        } else {
            (0, 0)
        }
    }

    /// The charges this ledger keeps reserved from `a`: those of `a`'s
    /// orders that are not settled.
    pub open spec fn held_by(self, a: AccountId) -> nat {
        held_upto(self.orders@, a, self.orders@.len())
    }

    /// The ledger's part of the reservation accounting: for every account
    /// whose reserved balance covers what this ledger holds from it, the
    /// reserved balance moves exactly as the held charges do.
    pub open spec fn accounting_kept(self, new: Pallet, ledger: Ledger, new_ledger: Ledger) -> bool {
        forall|a: AccountId|
            ledger.reserved_of(a) >= #[trigger] self.held_by(a) ==> new_ledger.reserved_of(a) as int
                - new.held_by(a) == ledger.reserved_of(a) as int - self.held_by(a)
    }

    proof fn lemma_held_pushed(self, new: Pallet, x: TaskOrder)
        requires
            new.orders@ == self.orders@.push(x),
        ensures
            forall|a: AccountId| #[trigger] new.held_by(a) == self.held_by(a) + held_for(x, a),
    {
        assert forall|a: AccountId| #[trigger] new.held_by(a) == self.held_by(a) + held_for(x, a) by {
            lemma_held_push(self.orders@, x, a, self.orders@.len());
            assert(new.orders@[self.orders@.len() as int] == x);
        }
    }

    proof fn lemma_held_updated(self, new: Pallet, i: int, y: TaskOrder)
        requires
            0 <= i < self.orders@.len(),
            new.orders@ == self.orders@.update(i, y),
        ensures
            forall|a: AccountId| #[trigger] new.held_by(a) + held_for(self.orders@[i], a)
                == self.held_by(a) + held_for(y, a),
    {
        assert forall|a: AccountId| #[trigger] new.held_by(a) + held_for(self.orders@[i], a)
            == self.held_by(a) + held_for(y, a) by {
            lemma_held_update(self.orders@, i, y, a, self.orders@.len());
        }
    }

    /// Every order's charge is exactly its burn plus its payout; identifiers
    /// match positions; shares are percentages; one statistics entry per era
    /// and miner.
    pub open spec fn wf(self) -> bool {
        &&& self.config.burn_percentage <= 100
        &&& self.config.miner_payout_percentage <= 100
        &&& self.config.task_mode_reward_percentage <= 100
        &&& self.definitions@.len() < u64::MAX
        &&& self.orders@.len() < u64::MAX
        &&& forall|i: int| 0 <= i < self.orders@.len() ==> #[trigger] self.orders@[i].order_id == i
        &&& forall|i: int| 0 <= i < self.orders@.len() ==> #[trigger] self.orders@[i].dbc_burned as nat
            + self.orders@[i].miner_payout as nat == self.orders@[i].total_dbc_charged as nat
        &&& forall|i: int, j: int|
            0 <= i < self.miner_stats@.len() && 0 <= j < self.miner_stats@.len() && i != j
                && #[trigger] self.miner_stats@[i].era == #[trigger] self.miner_stats@[j].era
                ==> self.miner_stats@[i].miner != self.miner_stats@[j].miner
    }

    pub fn new(config: Config) -> (r: Pallet)
        requires
            config.burn_percentage <= 100,
            config.miner_payout_percentage <= 100,
            config.task_mode_reward_percentage <= 100,
        ensures
            r.wf(),
            r.config == config,
            r.definitions@.len() == 0,
            r.orders@.len() == 0,
    {
        Pallet {
            config,
            definitions: Vec::new(),
            orders: Vec::new(),
            era_stats: HashMap::new(),
            miner_stats: Vec::new(),
        }
    }

    pub fn next_task_id(&self) -> (r: u64)
        ensures
            r == self.definitions@.len(),
    {
        self.definitions.len() as u64
    }

    pub fn next_order_id(&self) -> (r: u64)
        ensures
            r == self.orders@.len(),
    {
        self.orders.len() as u64
    }

    pub fn task_definition_of(&self, id: u64) -> (r: Option<&TaskDefinition>)
        ensures
            match r {
                Some(d) => self.has_definition(id) && *d == self.definition(id),
                None => !self.has_definition(id),
            },
    {
        if id < self.definitions.len() as u64 {
            Some(&self.definitions[id as usize])
        } else {
            None
        }
    }

    pub fn task_order_of(&self, id: u64) -> (r: Option<TaskOrder>)
        ensures
            match r {
                Some(o) => self.has_order(id) && o == self.order(id),
                None => !self.has_order(id),
            },
    {
        if id < self.orders.len() as u64 {
            Some(self.orders[id as usize])
        } else {
            None
        }
    }

    pub fn era_stats_of(&self, era: u32) -> (r: EraTaskStats)
        ensures
            r == self.era_stats_view(era),
    {
        match self.era_stats.get(&era) {
            Some(s) => *s,
            None => EraTaskStats { total_charged: 0, total_burned: 0, total_miner_payout: 0, completed_orders: 0 },
        }
    }

    fn miner_stats_index(&self, era: u32, miner: AccountId) -> (r: Option<usize>)
        ensures
            match r {
                Some(i) => i < self.miner_stats@.len() && self.miner_stats@[i as int].era == era
                    && self.miner_stats@[i as int].miner == miner,
                None => forall|i: int| 0 <= i < self.miner_stats@.len() ==> !(#[trigger] self.miner_stats@[i].era == era
                    && self.miner_stats@[i].miner == miner),
            },
    {
        let mut i: usize = 0;
        while i < self.miner_stats.len()
            invariant
                i <= self.miner_stats@.len(),
                forall|j: int| 0 <= j < i ==> !(#[trigger] self.miner_stats@[j].era == era
                    && self.miner_stats@[j].miner == miner),
            decreases self.miner_stats@.len() - i,
        {
            if self.miner_stats[i].era == era && self.miner_stats[i].miner == miner {
                return Some(i);
            }
            i = i + 1;
        }
        None
    }

    pub fn miner_task_stats_of(&self, era: u32, miner: AccountId) -> (r: (Balance, u64))
        requires
            self.wf(),
        ensures
            r == self.miner_stats_of(era, miner),
    {
        match self.miner_stats_index(era, miner) {
            Some(i) => {
                let ghost k = choose|k: int| 0 <= k < self.miner_stats@.len() && #[trigger] self.miner_stats@[k].era == era
                    && self.miner_stats@[k].miner == miner;
                assert(k == i);
                (self.miner_stats[i].total_payout, self.miner_stats[i].orders)
            },
            None => (0, 0),
        }
    }

    /// The era that block `block` falls in.
    pub fn block_to_era(&self, block: BlockNumber) -> (r: u32)
        ensures
            r == era_of(block, self.config.era_duration),
    {
        if self.config.era_duration == 0 {
            return 0;
        }
        let era = block / self.config.era_duration;
        if era > u32::MAX as u64 {
            u32::MAX
        } else {
            era as u32
        }
    }

    /// Splits a charge into its burned share and the miner's payout.
    pub fn calculate_revenue_split(&self, total: Balance) -> (r: Result<(Balance, Balance), Error>)
        requires
            self.wf(),
        ensures
            match revenue_split_of(total, self.config.burn_percentage, self.config.miner_payout_percentage) {
                Some(s) => r == Ok::<(Balance, Balance), Error>(s),
                None => r == Err::<(Balance, Balance), Error>(Error::ArithmeticOverflow),
            },
            r matches Ok((burned, payout)) ==> burned + payout == total,
    {
        let burned = percent_of(total, self.config.burn_percentage);
        let cut = percent_of(total, self.config.miner_payout_percentage);
        if burned > total - cut {
            return Err(Error::ArithmeticOverflow);
        }
        Ok((burned, total - burned))
    }

    /// Splits an era's rewards into the task-mode pool and the rest.
    pub fn split_era_rewards(&self, total_era_rewards: Balance) -> (r: Result<(Balance, Balance), Error>)
        requires
            self.wf(),
        ensures
            r == Ok::<(Balance, Balance), Error>(
                (
                    pct_of(total_era_rewards, self.config.task_mode_reward_percentage) as u128,
                    (total_era_rewards - pct_of(total_era_rewards, self.config.task_mode_reward_percentage)) as u128,
                ),
            ),
    {
        let task_pool = percent_of(total_era_rewards, self.config.task_mode_reward_percentage);
        Ok((task_pool, total_era_rewards - task_pool))
    }

    /// A miner's share of the task-mode pool of an era's rewards, in
    /// proportion to its payout in that era; `None` when nobody, or not this
    /// miner, earned a payout in the era, or when the product leaves the range
    /// of a balance.
    pub fn miner_reward_share(&self, era_index: u32, miner: AccountId, total_era_rewards: Balance) -> (r:
        Option<Balance>)
        requires
            self.wf(),
        ensures
            ({
                let task_pool = pct_of(total_era_rewards, self.config.task_mode_reward_percentage);
                let total = self.era_stats_view(era_index).total_miner_payout as nat;
                let mine = self.miner_stats_of(era_index, miner).0 as nat;
                r == (if total == 0 || mine == 0 || task_pool * mine > u128::MAX {
                    None
                } else {
                    Some((task_pool * mine / total) as u128)
                })
            }),
    {
        let task_pool = percent_of(total_era_rewards, self.config.task_mode_reward_percentage);
        let stats = self.era_stats_of(era_index);
        if stats.total_miner_payout == 0 {
            return None;
        }
        let (mine, _) = self.miner_task_stats_of(era_index, miner);
        if mine == 0 {
            return None;
        }
        match task_pool.checked_mul(mine) {
            Some(v) => {
                assert(v == task_pool as nat * mine as nat);
                Some(v / stats.total_miner_payout)
            },
            None => None,
        }
    }

    /// The fixed split offered to other modules: 15% burned, 85% to the
    /// miner, each truncated.
    pub fn get_revenue_split(total: Balance) -> (r: (Balance, Balance))
        ensures
            r.0 == pct_of(total, FIXED_BURN_PERCENT),
            r.1 == pct_of(total, FIXED_MINER_PERCENT),
    {
        (percent_of(total, FIXED_BURN_PERCENT), percent_of(total, FIXED_MINER_PERCENT))
    }

    /// A simple price for other modules: one oracle price per thousand tokens
    /// (input and output together, truncated); `None` without a positive
    /// price or on overflow.
    pub fn calculate_billing(input_tokens: u64, output_tokens: u64, dbc_price: Option<Balance>) -> (r: Option<
        Balance,
    >)
        ensures
            r == (match dbc_price {
                Some(p) => if p == 0 || input_tokens as nat + output_tokens as nat > u64::MAX {
                    None
                } else if (input_tokens as nat + output_tokens as nat) / 1000 * p as nat > u128::MAX {
                    None
                } else {
                    Some(((input_tokens as nat + output_tokens as nat) / 1000 * p as nat) as u128)
                },
                None => None,
            }),
    {
        let price = match dbc_price {
            Some(p) => p,
            None => return None,
        };
        if price == 0 {
            return None;
        }
        let total = match input_tokens.checked_add(output_tokens) {
            Some(v) => v,
            None => return None,
        };
        let thousands = total / 1000;
        (thousands as u128).checked_mul(price)
    }

    /// Creates a task definition administered by the caller. Returns its
    /// identifier.
    pub fn create_task_definition(
        &mut self,
        admin: AccountId,
        model_id: Vec<u8>,
        version: Vec<u8>,
        input_price_usd_per_1k: Balance,
        output_price_usd_per_1k: Balance,
        max_tokens_per_request: u64,
        policy_cid: Vec<u8>,
    ) -> (r: Result<u64, Error>)
        requires
            old(self).wf(),
        ensures
            final(self).wf(),
            r == (if model_id@.len() > old(self).config.max_model_id_len || version@.len() > old(
                self,
            ).config.max_model_id_len || policy_cid@.len() > old(self).config.max_policy_cid_len
                || old(self).definitions@.len() + 1 >= u64::MAX {
                Err(Error::ArithmeticOverflow)
            } else {
                Ok(old(self).definitions@.len() as u64)
            }),
            r is Err ==> *final(self) == *old(self),
            r is Ok ==> final(self).definitions@ == old(self).definitions@.push(
                TaskDefinition {
                    model_id,
                    version,
                    admin,
                    input_price_usd_per_1k,
                    output_price_usd_per_1k,
                    max_tokens_per_request,
                    policy_cid,
                    is_active: true,
                },
            ),
            r is Ok ==> final(self).orders == old(self).orders,
    {
        if model_id.len() > self.config.max_model_id_len as usize || version.len()
            > self.config.max_model_id_len as usize || policy_cid.len()
            > self.config.max_policy_cid_len as usize || self.definitions.len() as u64 >= u64::MAX
            - 1 {
            return Err(Error::ArithmeticOverflow);
        }
        let id = self.definitions.len() as u64;
        self.definitions.push(
            TaskDefinition {
                model_id,
                version,
                admin,
                input_price_usd_per_1k,
                output_price_usd_per_1k,
                max_tokens_per_request,
                policy_cid,
                is_active: true,
            },
        );
        Ok(id)
    }

    /// The definition's admin changes any of its prices, token limit and
    /// active flag.
    pub fn update_task_definition(
        &mut self,
        who: AccountId,
        task_id: u64,
        input_price_usd_per_1k: Option<Balance>,
        output_price_usd_per_1k: Option<Balance>,
        max_tokens_per_request: Option<u64>,
        is_active: Option<bool>,
    ) -> (r: Result<(), Error>)
        requires
            old(self).wf(),
        ensures
            final(self).wf(),
            r == (if !old(self).has_definition(task_id) {
                Err(Error::TaskDefinitionNotFound)
            } else if old(self).definition(task_id).admin != who {
                Err(Error::NotAuthorized)
            } else {
                Ok(())
            }),
            r is Err ==> *final(self) == *old(self),
            r is Ok ==> {
                let d = old(self).definition(task_id);
                &&& final(self).definitions@ == old(self).definitions@.update(
                    task_id as int,
                    TaskDefinition {
                        input_price_usd_per_1k: match input_price_usd_per_1k {
                            Some(v) => v,
                            None => d.input_price_usd_per_1k,
                        },
                        output_price_usd_per_1k: match output_price_usd_per_1k {
                            Some(v) => v,
                            None => d.output_price_usd_per_1k,
                        },
                        max_tokens_per_request: match max_tokens_per_request {
                            Some(v) => v,
                            None => d.max_tokens_per_request,
                        },
                        is_active: match is_active {
                            Some(v) => v,
                            None => d.is_active,
                        },
                        ..d
                    },
                )
                &&& final(self).orders == old(self).orders
            },
    {
        if task_id >= self.definitions.len() as u64 {
            return Err(Error::TaskDefinitionNotFound);
        }
        let i = task_id as usize;
        if self.definitions[i].admin != who {
            return Err(Error::NotAuthorized);
        }
        if let Some(v) = input_price_usd_per_1k {
            self.definitions[i].input_price_usd_per_1k = v;
        }
        if let Some(v) = output_price_usd_per_1k {
            self.definitions[i].output_price_usd_per_1k = v;
        }
        if let Some(v) = max_tokens_per_request {
            self.definitions[i].max_tokens_per_request = v;
        }
        if let Some(v) = is_active {
            self.definitions[i].is_active = v;
        }
        proof {
            let d = old(self).definition(task_id);
            assert(self.definitions@ =~= old(self).definitions@.update(
                task_id as int,
                TaskDefinition {
                    input_price_usd_per_1k: match input_price_usd_per_1k {
                        Some(v) => v,
                        None => d.input_price_usd_per_1k,
                    },
                    output_price_usd_per_1k: match output_price_usd_per_1k {
                        Some(v) => v,
                        None => d.output_price_usd_per_1k,
                    },
                    max_tokens_per_request: match max_tokens_per_request {
                        Some(v) => v,
                        None => d.max_tokens_per_request,
                    },
                    is_active: match is_active {
                        Some(v) => v,
                        None => d.is_active,
                    },
                    ..d
                },
            ));
        }
        Ok(())
    }

    /// The error `create_task_order` fails with before it asks the oracle to
    /// convert the order's USD value, if any.
    pub open spec fn order_error_before_quote(
        self,
        task_id: u64,
        input_tokens: u64,
        output_tokens: u64,
        dbc_price: Option<Balance>,
    ) -> Option<Error> {
        let d = self.definition(task_id);
        if !self.has_definition(task_id) {
            Some(Error::TaskDefinitionNotFound)
        } else if !d.is_active {
            Some(Error::TaskDefinitionInactive)
        } else if input_tokens as nat + output_tokens as nat > u64::MAX {
            Some(Error::ArithmeticOverflow)
        } else if input_tokens as nat + output_tokens as nat > d.max_tokens_per_request {
            Some(Error::TokenCountExceedsLimit)
        } else if dbc_price is None {
            Some(Error::PriceOracleUnavailable)
        } else if usd_value_of(
            input_tokens,
            output_tokens,
            d.input_price_usd_per_1k,
            d.output_price_usd_per_1k,
        ) is None {
            Some(Error::ArithmeticOverflow)
        } else {
            None
        }
    }

    /// The USD value the oracle is asked to convert for an order.
    pub open spec fn order_usd(self, task_id: u64, input_tokens: u64, output_tokens: u64) -> u64 {
        let d = self.definition(task_id);
        usd_value_of(input_tokens, output_tokens, d.input_price_usd_per_1k, d.output_price_usd_per_1k)->Some_0
    }

    /// The error an order fails with once the oracle answered `quote`, if
    /// any.
    pub open spec fn order_error_after_quote(self, ledger: Ledger, customer: AccountId, quote: Option<Balance>) -> Option<
        Error,
    > {
        match quote {
            None => Some(Error::PriceOracleUnavailable),
            Some(total) => if revenue_split_of(
                total,
                self.config.burn_percentage,
                self.config.miner_payout_percentage,
            ) is None {
                Some(Error::ArithmeticOverflow)
            } else if ledger.free_of(customer) < total {
                Some(Error::InsufficientBalance)
            } else if self.orders@.len() + 1 >= u64::MAX {
                Some(Error::ArithmeticOverflow)
            } else {
                None
            },
        }
    }

    /// The order stored for a charge of `total`.
    pub open spec fn placed_order(
        self,
        customer: AccountId,
        task_id: u64,
        miner: AccountId,
        input_tokens: u64,
        output_tokens: u64,
        now: BlockNumber,
        dbc_price: Balance,
        total: Balance,
    ) -> TaskOrder {
        let split = revenue_split_of(total, self.config.burn_percentage, self.config.miner_payout_percentage)->Some_0;
        TaskOrder {
            order_id: self.orders@.len() as u64,
            task_id,
            customer,
            miner,
            input_tokens,
            output_tokens,
            dbc_price_snapshot: dbc_price,
            total_dbc_charged: total,
            dbc_burned: split.0,
            miner_payout: split.1,
            created_at: now,
            status: TaskOrderStatus::InProgress,
            attestation_hash: None,
        }
    }

    /// What an order placement does once the oracle answered `quote`.
    pub open spec fn order_post(
        self,
        new: Pallet,
        ledger: Ledger,
        new_ledger: Ledger,
        customer: AccountId,
        task_id: u64,
        miner: AccountId,
        input_tokens: u64,
        output_tokens: u64,
        now: BlockNumber,
        dbc_price: Balance,
        quote: Option<Balance>,
        r: Result<u64, Error>,
    ) -> bool {
        match self.order_error_after_quote(ledger, customer, quote) {
            Some(e) => r == Err::<u64, Error>(e) && new == self && new_ledger == ledger,
            None => {
                let total = quote->Some_0;
                &&& r == Ok::<u64, Error>(self.orders@.len() as u64)
                &&& new.orders@ == self.orders@.push(
                    self.placed_order(customer, task_id, miner, input_tokens, output_tokens, now, dbc_price, total),
                )
                &&& new.definitions == self.definitions
                &&& new_ledger.free_of(customer) == ledger.free_of(customer) - total
                &&& new_ledger.reserved_of(customer) == ledger.reserved_of(customer) + total
                &&& ledger.others_unchanged(new_ledger, customer, customer)
            },
        }
    }

    /// The customer orders a request of `input_tokens` and `output_tokens`
    /// against an active definition, to be served by `miner`. The order's USD
    /// value is converted to DBC by `dbc_for_usd` (the price oracle);
    /// `dbc_price` is the oracle's current price, kept as a snapshot. The
    /// charge is reserved from the customer and the order starts in
    /// progress. Returns the order's identifier.
    pub fn create_task_order<F: Fn(u64) -> Option<Balance>>(
        &mut self,
        ledger: &mut Ledger,
        customer: AccountId,
        task_id: u64,
        miner: AccountId,
        input_tokens: u64,
        output_tokens: u64,
        now: BlockNumber,
        dbc_price: Option<Balance>,
        dbc_for_usd: &F,
    ) -> (r: Result<u64, Error>)
        requires
            old(self).wf(),
            old(ledger).wf(),
            forall|v: u64| #[trigger] call_requires(*dbc_for_usd, (v,)),
        ensures
            final(self).wf(),
            final(ledger).wf(),
            old(self).accounting_kept(*final(self), *old(ledger), *final(ledger)),
            match old(self).order_error_before_quote(task_id, input_tokens, output_tokens, dbc_price) {
                Some(e) => r == Err::<u64, Error>(e) && *final(self) == *old(self)
                    && *final(ledger) == *old(ledger),
                None => exists|quote: Option<Balance>|
                    call_ensures(*dbc_for_usd, (old(self).order_usd(task_id, input_tokens, output_tokens),), quote)
                        && #[trigger] old(self).order_post(
                        *final(self),
                        *old(ledger),
                        *final(ledger),
                        customer,
                        task_id,
                        miner,
                        input_tokens,
                        output_tokens,
                        now,
                        dbc_price->Some_0,
                        quote,
                        r,
                    ),
            },
    {
        if task_id >= self.definitions.len() as u64 {
            return Err(Error::TaskDefinitionNotFound);
        }
        let i = task_id as usize;
        if !self.definitions[i].is_active {
            return Err(Error::TaskDefinitionInactive);
        }
        let total_tokens = match input_tokens.checked_add(output_tokens) {
            Some(v) => v,
            None => return Err(Error::ArithmeticOverflow),
        };
        if total_tokens > self.definitions[i].max_tokens_per_request {
            return Err(Error::TokenCountExceedsLimit);
        }
        let price = match dbc_price {
            Some(p) => p,
            None => return Err(Error::PriceOracleUnavailable),
        };
        let usd = match calculate_order_usd_value(
            input_tokens,
            output_tokens,
            self.definitions[i].input_price_usd_per_1k,
            self.definitions[i].output_price_usd_per_1k,
        ) {
            Ok(v) => v,
            Err(e) => return Err(e),
        };
        let quote = dbc_for_usd(usd);
        let r = self.place_order(ledger, customer, task_id, miner, input_tokens, output_tokens, now, price, quote);
        assert(call_ensures(*dbc_for_usd, (old(self).order_usd(task_id, input_tokens, output_tokens),), quote));
        r
    }

    fn place_order(
        &mut self,
        ledger: &mut Ledger,
        customer: AccountId,
        task_id: u64,
        miner: AccountId,
        input_tokens: u64,
        output_tokens: u64,
        now: BlockNumber,
        dbc_price: Balance,
        quote: Option<Balance>,
    ) -> (r: Result<u64, Error>)
        requires
            old(self).wf(),
            old(ledger).wf(),
        ensures
            final(self).wf(),
            final(ledger).wf(),
            old(self).order_post(
                *final(self),
                *old(ledger),
                *final(ledger),
                customer,
                task_id,
                miner,
                input_tokens,
                output_tokens,
                now,
                dbc_price,
                quote,
                r,
            ),
            old(self).accounting_kept(*final(self), *old(ledger), *final(ledger)),
    {
        let total = match quote {
            Some(v) => v,
            None => return Err(Error::PriceOracleUnavailable),
        };
        let (burned, payout) = match self.calculate_revenue_split(total) {
            Ok(v) => v,
            Err(e) => return Err(e),
        };
        if ledger.free_balance(customer) < total {
            return Err(Error::InsufficientBalance);
        }
        if self.orders.len() as u64 >= u64::MAX - 1 {
            return Err(Error::ArithmeticOverflow);
        }
        let ghost s0 = *self;
        let _ = ledger.reserve(customer, total);
        let order_id = self.orders.len() as u64;
        self.orders.push(
            TaskOrder {
                order_id,
                task_id,
                customer,
                miner,
                input_tokens,
                output_tokens,
                dbc_price_snapshot: dbc_price,
                total_dbc_charged: total,
                dbc_burned: burned,
                miner_payout: payout,
                created_at: now,
                status: TaskOrderStatus::InProgress,
                attestation_hash: None,
            },
        );
        proof {
            assert forall|k: int| 0 <= k < self.orders@.len() implies #[trigger] self.orders@[k].dbc_burned as nat
                + self.orders@[k].miner_payout as nat == self.orders@[k].total_dbc_charged as nat by {
                if k < old(self).orders@.len() {
                    assert(self.orders@[k] == old(self).orders@[k]);
                }
            }
            assert forall|k: int| 0 <= k < self.orders@.len() implies #[trigger] self.orders@[k].order_id == k by {
                if k < old(self).orders@.len() {
                    assert(self.orders@[k] == old(self).orders@[k]);
                }
            }
            s0.lemma_held_pushed(*self, self.orders@.last());
        }
        Ok(order_id)
    }

    /// Replaces order `id`, keeping what the invariant needs of it.
    fn set_order(&mut self, id: u64, o: TaskOrder)
        requires
            old(self).wf(),
            old(self).has_order(id),
            o.order_id == id,
            o.dbc_burned as nat + o.miner_payout as nat == o.total_dbc_charged as nat,
        ensures
            final(self).wf(),
            final(self).orders@ == old(self).orders@.update(id as int, o),
            final(self).definitions == old(self).definitions,
            final(self).era_stats == old(self).era_stats,
            final(self).miner_stats == old(self).miner_stats,
            final(self).config == old(self).config,
    {
        let len = self.orders.len();
        assert(id < len);
        self.orders[id as usize] = o;
        proof {
            assert forall|k: int| 0 <= k < self.orders@.len() implies #[trigger] self.orders@[k].dbc_burned as nat
                + self.orders@[k].miner_payout as nat == self.orders@[k].total_dbc_charged as nat by {
                if k != id {
                    assert(self.orders@[k] == old(self).orders@[k]);
                }
            }
            assert forall|k: int| 0 <= k < self.orders@.len() implies #[trigger] self.orders@[k].order_id == k by {
                if k != id {
                    assert(self.orders@[k] == old(self).orders@[k]);
                }
            }
        }
    }

    /// The order's miner reports it done, with the attestation's hash.
    pub fn mark_order_completed(&mut self, who: AccountId, order_id: u64, attestation_hash: H256) -> (r: Result<
        (),
        Error,
    >)
        requires
            old(self).wf(),
        ensures
            final(self).wf(),
            r == (if !old(self).has_order(order_id) {
                Err(Error::TaskOrderNotFound)
            } else if old(self).order(order_id).miner != who {
                Err(Error::NotAuthorized)
            } else if old(self).order(order_id).status != TaskOrderStatus::InProgress {
                Err(Error::InvalidOrderStatus)
            } else {
                Ok(())
            }),
            r is Err ==> *final(self) == *old(self),
            r is Ok ==> final(self).orders@ == old(self).orders@.update(
                order_id as int,
                TaskOrder {
                    status: TaskOrderStatus::Completed,
                    attestation_hash: Some(attestation_hash),
                    ..old(self).order(order_id)
                },
            ),
            r is Ok ==> final(self).definitions == old(self).definitions,
            forall|a: AccountId| #[trigger] final(self).held_by(a) == old(self).held_by(a),
    {
        let o = match self.task_order_of(order_id) {
            Some(o) => o,
            None => return Err(Error::TaskOrderNotFound),
        };
        if o.miner != who {
            return Err(Error::NotAuthorized);
        }
        if o.status != TaskOrderStatus::InProgress {
            return Err(Error::InvalidOrderStatus);
        }
        assert(old(self).orders@[order_id as int].dbc_burned as nat + o.miner_payout as nat == o.total_dbc_charged as nat);
        let ghost s0 = *self;
        self.set_order(
            order_id,
            TaskOrder { status: TaskOrderStatus::Completed, attestation_hash: Some(attestation_hash), ..o },
        );
        proof {
            s0.lemma_held_updated(*self, order_id as int, self.orders@[order_id as int]);
        }
        Ok(())
    }

    /// Adds a settled order's payout to its miner's statistics for `era`.
    fn record_miner_payout(&mut self, era: u32, miner: AccountId, payout: Balance)
        requires
            old(self).wf(),
        ensures
            final(self).wf(),
            final(self).miner_stats_of(era, miner) == ({
                let (p, c) = old(self).miner_stats_of(era, miner);
                (sat_add_u128(p, payout), sat_add_u64(c, 1))
            }),
            forall|e: u32, m: AccountId| !(e == era && m == miner) ==> #[trigger] final(self).miner_stats_of(e, m) == old(self).miner_stats_of(e, m),
            final(self).orders == old(self).orders,
            final(self).definitions == old(self).definitions,
            final(self).era_stats == old(self).era_stats,
            final(self).config == old(self).config,
    {
        match self.miner_stats_index(era, miner) {
            Some(i) => {
                let cur = self.miner_stats[i];
                let ghost k0 = choose|k: int| 0 <= k < self.miner_stats@.len() && #[trigger] self.miner_stats@[k].era == era
                    && self.miner_stats@[k].miner == miner;
                assert(k0 == i);
                let entry = MinerEraStats {
                    era,
                    miner,
                    total_payout: cur.total_payout.saturating_add(payout),
                    orders: cur.orders.saturating_add(1),
                };
                self.miner_stats.set(i, entry);
                proof {
                    assert(self.miner_stats@ == old(self).miner_stats@.update(i as int, entry));
                    assert forall|e: u32, m: AccountId| !(e == era && m == miner) implies #[trigger] self.miner_stats_of(e, m) == old(self).miner_stats_of(e, m) by {
                        if exists|k: int| 0 <= k < old(self).miner_stats@.len() && #[trigger] old(self).miner_stats@[k].era == e
                            && old(self).miner_stats@[k].miner == m {
                            let k = choose|k: int| 0 <= k < old(self).miner_stats@.len() && #[trigger] old(self).miner_stats@[k].era == e
                                && old(self).miner_stats@[k].miner == m;
                            assert(self.miner_stats@[k] == old(self).miner_stats@[k]);
                            let k2 = choose|k2: int| 0 <= k2 < self.miner_stats@.len() && #[trigger] self.miner_stats@[k2].era == e
                                && self.miner_stats@[k2].miner == m;
                            assert(k2 != i);
                        }
                        if exists|k: int| 0 <= k < self.miner_stats@.len() && #[trigger] self.miner_stats@[k].era == e
                            && self.miner_stats@[k].miner == m {
                            let k = choose|k: int| 0 <= k < self.miner_stats@.len() && #[trigger] self.miner_stats@[k].era == e
                                && self.miner_stats@[k].miner == m;
                            assert(k != i);
                            assert(old(self).miner_stats@[k] == self.miner_stats@[k]);
                        }
                    }
                    assert(self.miner_stats@[i as int].era == era && self.miner_stats@[i as int].miner == miner);
                    let k1 = choose|k: int| 0 <= k < self.miner_stats@.len() && #[trigger] self.miner_stats@[k].era == era
                        && self.miner_stats@[k].miner == miner;
                    if k1 != i {
                        assert(old(self).miner_stats@[k1] == self.miner_stats@[k1]);
                        assert(old(self).miner_stats@[i as int].era == old(self).miner_stats@[k1].era);
                    }
                    assert(k1 == i);
                }
            },
            None => {
                self.miner_stats.push(
                    MinerEraStats { era, miner, total_payout: payout, orders: 1 },
                );
                proof {
                    let n = old(self).miner_stats@.len() as int;
                    assert(self.miner_stats@[n].era == era);
                    assert forall|e: u32, m: AccountId| !(e == era && m == miner) implies #[trigger] self.miner_stats_of(e, m) == old(self).miner_stats_of(e, m) by {
                        if exists|k: int| 0 <= k < old(self).miner_stats@.len() && #[trigger] old(self).miner_stats@[k].era == e
                            && old(self).miner_stats@[k].miner == m {
                            let k = choose|k: int| 0 <= k < old(self).miner_stats@.len() && #[trigger] old(self).miner_stats@[k].era == e
                                && old(self).miner_stats@[k].miner == m;
                            assert(self.miner_stats@[k] == old(self).miner_stats@[k]);
                            let k2 = choose|k2: int| 0 <= k2 < self.miner_stats@.len() && #[trigger] self.miner_stats@[k2].era == e
                                && self.miner_stats@[k2].miner == m;
                            if k2 != k {
                                assert(k2 < n);
                            }
                        }
                        if exists|k: int| 0 <= k < self.miner_stats@.len() && #[trigger] self.miner_stats@[k].era == e
                            && self.miner_stats@[k].miner == m {
                            let k = choose|k: int| 0 <= k < self.miner_stats@.len() && #[trigger] self.miner_stats@[k].era == e
                                && self.miner_stats@[k].miner == m;
                            assert(k < n);
                            assert(old(self).miner_stats@[k] == self.miner_stats@[k]);
                        }
                    }
                    let k1 = choose|k: int| 0 <= k < self.miner_stats@.len() && #[trigger] self.miner_stats@[k].era == era
                        && self.miner_stats@[k].miner == miner;
                    assert(k1 == n);
                }
            },
        }
    }

    /// The error `settle_task_order` fails with, if any.
    pub open spec fn settle_error(self, caller: AccountId, order_id: u64) -> Option<Error> {
        let o = self.order(order_id);
        if !self.has_order(order_id) {
            Some(Error::TaskOrderNotFound)
        } else if o.status != TaskOrderStatus::Completed {
            Some(Error::InvalidOrderStatus)
        } else if !self.has_definition(o.task_id) {
            Some(Error::TaskDefinitionNotFound)
        } else if caller != o.customer && caller != o.miner && caller != self.definition(o.task_id).admin {
            Some(Error::NotAuthorized)
        } else {
            None
        }
    }

    /// Settles a completed order: the burned share goes from the customer's
    /// reservation to the treasury and the payout to the miner, and the era's
    /// statistics and the miner's grow. A given hash replaces the stored
    /// attestation hash.
    pub fn settle_task_order(
        &mut self,
        ledger: &mut Ledger,
        caller: AccountId,
        order_id: u64,
        attestation_hash: Option<H256>,
    ) -> (r: Result<(), Error>)
        requires
            old(self).wf(),
            old(ledger).wf(),
        ensures
            final(self).wf(),
            final(ledger).wf(),
            (r is Err || settle_has_room(*old(ledger), old(self).order(order_id), old(self).config.treasury))
                ==> old(self).accounting_kept(*final(self), *old(ledger), *final(ledger)),
            match old(self).settle_error(caller, order_id) {
                Some(e) => r == Err::<(), Error>(e) && *final(self) == *old(self)
                    && *final(ledger) == *old(ledger),
                None => {
                    let o = old(self).order(order_id);
                    let settled = TaskOrder {
                        status: TaskOrderStatus::Settled,
                        attestation_hash: if attestation_hash is Some {
                            attestation_hash
                        } else {
                            o.attestation_hash
                        },
                        ..o
                    };
                    let era = era_of(o.created_at, old(self).config.era_duration);
                    &&& r is Ok
                    &&& final(self).orders@ == old(self).orders@.update(order_id as int, settled)
                    &&& final(self).era_stats_view(era) == stats_with(old(self).era_stats_view(era), o)
                    &&& forall|e: u32| e != era ==> #[trigger] final(self).era_stats_view(e) == old(self).era_stats_view(e)
                    &&& final(self).miner_stats_of(era, o.miner) == ({
                        let (p, c) = old(self).miner_stats_of(era, o.miner);
                        (sat_add_u128(p, o.miner_payout), sat_add_u64(c, 1))
                    })
                    &&& (o.customer != old(self).config.treasury && o.customer != o.miner
                        && old(ledger).reserved_of(o.customer) >= o.total_dbc_charged
                        && old(ledger).total_of(old(self).config.treasury) + o.dbc_burned <= u128::MAX
                        && old(ledger).total_of(o.miner) + o.miner_payout <= u128::MAX
                        && old(self).config.treasury != o.miner) ==> {
                        &&& final(ledger).reserved_of(o.customer) == old(ledger).reserved_of(o.customer) - o.total_dbc_charged
                        &&& final(ledger).free_of(o.customer) == old(ledger).free_of(o.customer)
                        &&& final(ledger).free_of(old(self).config.treasury) == old(ledger).free_of(old(self).config.treasury) + o.dbc_burned
                        &&& final(ledger).free_of(o.miner) == old(ledger).free_of(o.miner) + o.miner_payout
                    }
                },
            },
    {
        let o = match self.task_order_of(order_id) {
            Some(o) => o,
            None => return Err(Error::TaskOrderNotFound),
        };
        if o.status != TaskOrderStatus::Completed {
            return Err(Error::InvalidOrderStatus);
        }
        let admin = match self.task_definition_of(o.task_id) {
            Some(d) => d.admin,
            None => return Err(Error::TaskDefinitionNotFound),
        };
        if caller != o.customer && caller != o.miner && caller != admin {
            return Err(Error::NotAuthorized);
        }
        let treasury = self.config.treasury;
        let ghost l0 = *ledger;
        let _ = ledger.repatriate_reserved(o.customer, treasury, o.dbc_burned);
        let ghost l1 = *ledger;
        let _ = ledger.repatriate_reserved(o.customer, o.miner, o.miner_payout);
        let hash = match attestation_hash {
            Some(h) => Some(h),
            None => o.attestation_hash,
        };
        assert(old(self).orders@[order_id as int].dbc_burned as nat + o.miner_payout as nat == o.total_dbc_charged as nat);
        let settled = TaskOrder { status: TaskOrderStatus::Settled, attestation_hash: hash, ..o };
        let ghost s0 = *self;
        self.set_order(order_id, settled);
        let ghost s1 = *self;
        proof {
            s0.lemma_held_updated(s1, order_id as int, settled);
        }
        let era = self.block_to_era(o.created_at);
        let stats = self.era_stats_of(era);
        self.era_stats.insert(
            era,
            EraTaskStats {
                total_charged: stats.total_charged.saturating_add(o.total_dbc_charged),
                total_burned: stats.total_burned.saturating_add(o.dbc_burned),
                total_miner_payout: stats.total_miner_payout.saturating_add(o.miner_payout),
                completed_orders: stats.completed_orders.saturating_add(1),
            },
        );
        let ghost mid = *self;
        assert(mid.miner_stats == old(self).miner_stats);
        assert(mid.miner_stats_of(era, o.miner) == old(self).miner_stats_of(era, o.miner));
        self.record_miner_payout(era, o.miner, o.miner_payout);
        proof {
            let c = o.customer;
            let i = order_id as int;
            assert(held_for(s0.orders@[i], c) == o.total_dbc_charged);
            assert(held_for(settled, c) == 0);
            assert(s1.held_by(c) + held_for(s0.orders@[i], c) == s0.held_by(c) + held_for(settled, c));
            assert(self.orders == s1.orders);
            if settle_has_room(l0, o, treasury) && l0.reserved_of(c) >= s0.held_by(c) {
                assert(l1.reserved_of(c) == l0.reserved_of(c) - o.dbc_burned);
                if c != treasury && c != o.miner {
                    assert(l1.total_of(o.miner) == l0.total_of(o.miner) + (if treasury == o.miner {
                        o.dbc_burned as nat
                    } else {
                        0
                    }));
                }
                assert(ledger.reserved_of(c) == l1.reserved_of(c) - o.miner_payout);
            }
            if settle_has_room(l0, o, treasury) {
                assert forall|a: AccountId|
                    l0.reserved_of(a) >= #[trigger] s0.held_by(a) implies ledger.reserved_of(a) as int
                        - self.held_by(a) == l0.reserved_of(a) as int - s0.held_by(a) by {
                    assert(s1.held_by(a) + held_for(s0.orders@[i], a) == s0.held_by(a) + held_for(settled, a));
                    if a != c {
                        assert(held_for(s0.orders@[i], a) == 0);
                        assert(ledger.reserved_of(a) == l1.reserved_of(a));
                        assert(l1.reserved_of(a) == l0.reserved_of(a));
                    }
                }
            }
        }
        Ok(())
    }

    /// Cancels an order that is not yet settled once the order timeout has
    /// passed: the whole charge returns to the customer and the order is
    /// closed as settled.
    pub fn cancel_expired_order(&mut self, ledger: &mut Ledger, order_id: u64, now: BlockNumber) -> (r: Result<
        (),
        Error,
    >)
        requires
            old(self).wf(),
            old(ledger).wf(),
        ensures
            final(self).wf(),
            final(ledger).wf(),
            r == (if !old(self).has_order(order_id) {
                Err(Error::TaskOrderNotFound)
            } else if old(self).order(order_id).status == TaskOrderStatus::Settled {
                Err(Error::InvalidOrderStatus)
            } else if old(self).order(order_id).created_at as nat + old(self).config.order_timeout as nat
                > u64::MAX {
                Err(Error::ArithmeticOverflow)
            } else if now as nat <= old(self).order(order_id).created_at as nat + old(
                self,
            ).config.order_timeout as nat {
                Err(Error::OrderNotExpired)
            } else {
                Ok(())
            }),
            r is Err ==> *final(self) == *old(self) && *final(ledger) == *old(ledger),
            old(self).accounting_kept(*final(self), *old(ledger), *final(ledger)),
            r is Ok ==> {
                let o = old(self).order(order_id);
                let back = min_nat(o.total_dbc_charged as nat, old(ledger).reserved_of(o.customer));
                &&& final(self).orders@ == old(self).orders@.update(
                    order_id as int,
                    TaskOrder { status: TaskOrderStatus::Settled, ..o },
                )
                &&& final(self).era_stats == old(self).era_stats
                &&& final(ledger).free_of(o.customer) == old(ledger).free_of(o.customer) + back
                &&& final(ledger).reserved_of(o.customer) == old(ledger).reserved_of(o.customer) - back
                &&& old(ledger).others_unchanged(*final(ledger), o.customer, o.customer)
            },
    {
        let o = match self.task_order_of(order_id) {
            Some(o) => o,
            None => return Err(Error::TaskOrderNotFound),
        };
        if o.status == TaskOrderStatus::Settled {
            return Err(Error::InvalidOrderStatus);
        }
        let deadline = match o.created_at.checked_add(self.config.order_timeout) {
            Some(d) => d,
            None => return Err(Error::ArithmeticOverflow),
        };
        if now <= deadline {
            return Err(Error::OrderNotExpired);
        }
        let ghost l0 = *ledger;
        let _ = ledger.unreserve(o.customer, o.total_dbc_charged);
        assert(old(self).orders@[order_id as int].dbc_burned as nat + o.miner_payout as nat == o.total_dbc_charged as nat);
        let ghost s0 = *self;
        self.set_order(order_id, TaskOrder { status: TaskOrderStatus::Settled, ..o });
        proof {
            let i = order_id as int;
            s0.lemma_held_updated(*self, i, self.orders@[i]);
            assert(self.held_by(o.customer) + held_for(s0.orders@[i], o.customer) == s0.held_by(o.customer)
                + held_for(self.orders@[i], o.customer));
            assert(held_for(s0.orders@[i], o.customer) == o.total_dbc_charged);
            assert(held_for(self.orders@[i], o.customer) == 0);
            assert forall|a: AccountId|
                l0.reserved_of(a) >= #[trigger] s0.held_by(a) implies ledger.reserved_of(a) as int
                    - self.held_by(a) == l0.reserved_of(a) as int - s0.held_by(a) by {
                if a != o.customer {
                    assert(ledger.account(a) == l0.account(a));
                }
            }
        }
        Ok(())
    }
}

/// For every order, settled or not, the burned share and the miner's payout
/// add up to the charge.
pub proof fn lemma_order_charge_conserved(b: Pallet, order_id: u64)
    requires
        b.wf(),
        b.has_order(order_id),
    ensures
        b.order(order_id).dbc_burned as nat + b.order(order_id).miner_payout as nat == b.order(
            order_id,
        ).total_dbc_charged as nat,
{
    assert(b.orders@[order_id as int].dbc_burned as nat + b.orders@[order_id as int].miner_payout as nat
        == b.orders@[order_id as int].total_dbc_charged as nat);
}


} // verus!
