//! Read-only views of the ledgers' state, as external readers query it.
use vstd::prelude::*;

use crate::attestation::{Attestation, Pallet as AttestationLedger, AttestationStatus, NodeRegistration};
use crate::billing::{era_of, EraTaskStats, Pallet as TaskBilling, TaskDefinition, TaskOrder};
use crate::ledger::{AccountId, BlockNumber};
use crate::scheduler::{ComputePool, ComputeTask, PoolId, PoolStatus, Pallet as Scheduler};
use crate::settlement::{PaymentIntent, Pallet as SettlementLedger, SettlementReceipt};

verus! {

/// How many attestations among the first `n` are pending.
pub open spec fn pending_count(atts: Seq<Attestation>, n: nat) -> nat
    decreases n,
{
    if n == 0 {
        0
    } else {
        pending_count(atts, (n - 1) as nat) + if atts[n - 1].status == AttestationStatus::Pending {
            1nat
        } else {
            0nat
        }
    }
}

/// A view over the state of all four ledgers.
pub struct Dbc3Storage<'a> {
    pub scheduler: &'a Scheduler,
    pub attestations: &'a AttestationLedger,
    pub settlement: &'a SettlementLedger,
    pub billing: &'a TaskBilling,
}

impl<'a> Dbc3Storage<'a> {
    pub fn new(
        scheduler: &'a Scheduler,
        attestations: &'a AttestationLedger,
        settlement: &'a SettlementLedger,
        billing: &'a TaskBilling,
    ) -> (r: Dbc3Storage<'a>)
        ensures
            *r.scheduler == *scheduler,
            *r.attestations == *attestations,
            *r.settlement == *settlement,
            *r.billing == *billing,
    {
        Dbc3Storage { scheduler, attestations, settlement, billing }
    }

    pub fn get_task_definition(&self, task_id: u64) -> (r: Option<&TaskDefinition>)
        ensures
            match r {
                Some(d) => self.billing.has_definition(task_id) && *d == self.billing.definition(task_id),
                None => !self.billing.has_definition(task_id),
            },
    {
        self.billing.task_definition_of(task_id)
    }

    pub fn get_task_order(&self, order_id: u64) -> (r: Option<TaskOrder>)
        ensures
            match r {
                Some(o) => self.billing.has_order(order_id) && o == self.billing.order(order_id),
                None => !self.billing.has_order(order_id),
            },
    {
        self.billing.task_order_of(order_id)
    }

    pub fn get_era_task_stats(&self, era: u32) -> (r: EraTaskStats)
        ensures
            r == self.billing.era_stats_view(era),
    {
        self.billing.era_stats_of(era)
    }

    /// The era of block `now`.
    pub fn get_current_era(&self, now: BlockNumber) -> (r: u32)
        ensures
            r == era_of(now, self.billing.config.era_duration),
    {
        self.billing.block_to_era(now)
    }

    pub fn get_compute_pool(&self, pool_id: PoolId) -> (r: Option<&ComputePool>)
        ensures
            match r {
                Some(p) => self.scheduler.has_pool(pool_id) && *p == self.scheduler.pool(pool_id),
                None => !self.scheduler.has_pool(pool_id),
            },
    {
        self.scheduler.pools(pool_id)
    }

    /// The identifiers of the active pools, in increasing order.
    pub fn get_active_pools(&self) -> (r: Vec<PoolId>)
        ensures
            forall|id: PoolId| #[trigger] r@.contains(id) <==> self.scheduler.is_active_pool(id),
            forall|i: int, j: int| 0 <= i < j < r@.len() ==> r@[i] < r@[j],
    {
        let n = self.scheduler.pools.len();
        let mut out: Vec<PoolId> = Vec::new();
        let mut i: usize = 0;
        while i < n
            invariant
                n == self.scheduler.pools@.len(),
                i <= n,
                forall|id: PoolId| #[trigger] out@.contains(id) <==> id < i && self.scheduler.is_active_pool(id),
                forall|a: int, b: int| 0 <= a < b < out@.len() ==> out@[a] < out@[b],
                forall|a: int| 0 <= a < out@.len() ==> out@[a] < i,
            decreases n - i,
        {
            let active = match &self.scheduler.pools[i].pool {
                Some(p) => p.status == PoolStatus::Active,
                None => false,
            };
            let ghost before = out@;
            if active {
                out.push(i as u64);
            }
            proof {
                assert forall|id: PoolId| #[trigger] out@.contains(id) <==> id < i + 1 && self.scheduler.is_active_pool(id) by {
                    crate::settlement::lemma_push_contains(before, i as u64, id);
                    if before.contains(id) {
                        let k = choose|k: int| 0 <= k < before.len() && before[k] == id;
                        assert(before[k] < i);
                    }
                }
            }
            i = i + 1;
        }
        out
    }

    pub fn get_compute_task(&self, task_id: u64) -> (r: Option<ComputeTask>)
        ensures
            match r {
                Some(t) => self.scheduler.has_task(task_id) && t == self.scheduler.task(task_id),
                None => !self.scheduler.has_task(task_id),
            },
    {
        self.scheduler.tasks(task_id)
    }

    /// The reputation of pool `pool_id`, if it exists.
    pub fn get_pool_reputation(&self, pool_id: PoolId) -> (r: Option<u32>)
        ensures
            r == (if self.scheduler.has_pool(pool_id) {
                Some(self.scheduler.pool(pool_id).reputation)
            } else {
                None
            }),
    {
        match self.scheduler.pools(pool_id) {
            Some(p) => Some(p.reputation),
            None => None,
        }
    }

    pub fn get_attestation(&self, attestation_id: u64) -> (r: Option<&Attestation>)
        ensures
            match r {
                Some(a) => self.attestations.has_attestation(attestation_id) && *a
                    == self.attestations.attestation(attestation_id),
                None => !self.attestations.has_attestation(attestation_id),
            },
    {
        self.attestations.attestation_of(attestation_id)
    }

    pub fn get_node_registration(&self, who: AccountId) -> (r: Option<&NodeRegistration>)
        ensures
            match r {
                Some(n) => self.attestations.has_node(who) && *n == self.attestations.node(who),
                None => !self.attestations.has_node(who),
            },
    {
        self.attestations.node_of(who)
    }

    /// How many attestations are pending.
    pub fn get_pending_attestation_count(&self) -> (r: u64)
        ensures
            r == pending_count(self.attestations.attestations@, self.attestations.attestations@.len()),
    {
        let n = self.attestations.attestations.len();
        let mut count: u64 = 0;
        let mut i: usize = 0;
        while i < n
            invariant
                n == self.attestations.attestations@.len(),
                i <= n,
                count == pending_count(self.attestations.attestations@, i as nat),
                count <= i,
            decreases n - i,
        {
            if self.attestations.attestations[i].status == AttestationStatus::Pending {
                count = count + 1;
            }
            i = i + 1;
        }
        count
    }

    pub fn get_payment_intent(&self, intent_id: u64) -> (r: Option<&PaymentIntent>)
        ensures
            match r {
                Some(i) => self.settlement.has_intent(intent_id) && *i == self.settlement.intent(intent_id),
                None => !self.settlement.has_intent(intent_id),
            },
    {
        self.settlement.get_payment_intent(intent_id)
    }

    pub fn get_settlement_receipt(&self, intent_id: u64) -> (r: Option<SettlementReceipt>)
        ensures
            match r {
                Some(rc) => self.settlement.has_receipt(intent_id) && rc == self.settlement.receipts@[intent_id],
                None => !self.settlement.has_receipt(intent_id),
            },
    {
        self.settlement.get_settlement_receipt(intent_id)
    }
}

/// A view over the settlement ledger.
pub struct X402Settlement<'a> {
    pub ledger: &'a SettlementLedger,
}

impl<'a> X402Settlement<'a> {
    pub fn new(ledger: &'a SettlementLedger) -> (r: X402Settlement<'a>)
        ensures
            *r.ledger == *ledger,
    {
        X402Settlement { ledger }
    }

    pub fn get_payment_intent(&self, intent_id: u64) -> (r: Option<&PaymentIntent>)
        ensures
            match r {
                Some(i) => self.ledger.has_intent(intent_id) && *i == self.ledger.intent(intent_id),
                None => !self.ledger.has_intent(intent_id),
            },
    {
        self.ledger.get_payment_intent(intent_id)
    }

    pub fn get_settlement_receipt(&self, intent_id: u64) -> (r: Option<SettlementReceipt>)
        ensures
            match r {
                Some(rc) => self.ledger.has_receipt(intent_id) && rc == self.ledger.receipts@[intent_id],
                None => !self.ledger.has_receipt(intent_id),
            },
    {
        self.ledger.get_settlement_receipt(intent_id)
    }

    pub fn is_nonce_used(&self, account: AccountId, nonce: u64) -> (r: bool)
        ensures
            r == self.ledger.nonce_used(account, nonce),
    {
        self.ledger.is_nonce_used(account, nonce)
    }

    pub fn get_next_intent_id(&self) -> (r: u64)
        ensures
            r == self.ledger.next_intent_id,
    {
        self.ledger.next_intent_id
    }

    /// How many intents are tracked as pending.
    pub fn get_pending_intents_count(&self) -> (r: u64)
        ensures
            r == self.ledger.pending_intent_ids@.len(),
    {
        self.ledger.pending_intent_ids.len() as u64
    }
}

} // verus!
