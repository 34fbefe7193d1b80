//! Attestation ledger: a registry of compute nodes and their advertised
//! capabilities, and signed claims of completed work that may be challenged
//! within a window and are then confirmed, slashed or defended.
use std::collections::HashMap;
use vstd::prelude::*;

use crate::codec::H256;
use crate::ledger::{min_nat, pct_of, percent_of, AccountId, Balance, BlockNumber, Ledger};
use crate::settlement::Pallet as SettlementLedger;

verus! {

broadcast use vstd::std_specs::hash::group_hash_axioms;

/// Longest region tag of a capability.
pub const MAX_REGION_LEN: usize = 16;

/// Who an action comes from: the chain itself, or a signed account.
#[derive(Clone, Copy, Debug, PartialEq, Eq, Structural)]
pub enum Origin {
    Root,
    Signed(AccountId),
}

#[derive(Clone, Copy, Debug, PartialEq, Eq, Structural)]
pub enum AttestationStatus {
    /// Within or past the challenge window, not yet resolved.
    Pending,
    /// The window passed without a challenge.
    Confirmed,
    /// Challenged and found invalid.
    Slashed,
    /// Challenged, and the attester won.
    Defended,
}

/// A claim by a node that it executed a task with a given result.
#[derive(Clone, Debug, PartialEq, Eq)]
pub struct Attestation {
    pub id: u64,
    pub attester: AccountId,
    pub task_id: u64,
    pub result_hash: H256,
    pub model_id: Vec<u8>,
    pub input_tokens: u64,
    pub output_tokens: u64,
    pub deposit: Balance,
    pub status: AttestationStatus,
    pub submitted_at: BlockNumber,
    pub challenge_end: BlockNumber,
    pub challenger: Option<AccountId>,
}

/// Hardware a node registered.
#[derive(Clone, Debug, PartialEq, Eq)]
pub struct NodeRegistration {
    pub owner: AccountId,
    pub gpu_uuid: Vec<u8>,
    pub tflops: u32,
    pub registered_at: BlockNumber,
    pub last_heartbeat: BlockNumber,
    pub is_active: bool,
}

/// The models a node serves, and on what terms.
#[derive(Clone, Debug, PartialEq, Eq)]
pub struct AgentCapability {
    pub owner: AccountId,
    pub model_ids: Vec<Vec<u8>>,
    pub max_concurrent: u32,
    pub price_per_token: Balance,
    pub region: Vec<u8>,
    pub updated_at: BlockNumber,
}

#[derive(Clone, Copy, Debug, PartialEq, Eq, Structural)]
pub struct Config {
    pub attestation_deposit: Balance,
    pub challenge_window: BlockNumber,
    /// Share of the deposit, in percent, that a guilty attester loses.
    pub slash_percent: u32,
    pub heartbeat_interval: BlockNumber,
    pub max_model_id_len: u32,
    pub max_gpu_uuid_len: u32,
    pub max_models_per_agent: u32,
    /// The account allowed to confirm attestations besides root.
    pub admin: AccountId,
}

#[derive(Clone, Copy, Debug, PartialEq, Eq, Structural)]
pub enum Error {
    NodeAlreadyRegistered,
    NodeNotRegistered,
    HeartbeatTooEarly,
    AttestationNotFound,
    AlreadyChallenged,
    ChallengeWindowExpired,
    ChallengeWindowNotExpired,
    NotAttester,
    InvalidStatus,
    InsufficientDeposit,
    ArithmeticOverflow,
    InvalidModelId,
    TooManyModels,
    InvalidRegion,
    BadOrigin,
}

pub open spec fn sat_add(a: u64, b: u64) -> u64 {
    if a + b > u64::MAX {
        u64::MAX
    } else {
        (a + b) as u64
    }
}

/// Whether two byte strings are equal.
pub fn bytes_eq(a: &Vec<u8>, b: &Vec<u8>) -> (r: bool)
    ensures
        r == (a@ == b@),
{
    if a.len() != b.len() {
        return false;
    }
    let mut i: usize = 0;
    while i < a.len()
        invariant
            i <= a@.len(),
            a@.len() == b@.len(),
            forall|j: int| 0 <= j < i ==> a@[j] == b@[j],
        decreases a@.len() - i,
    {
        if a[i] != b[i] {
            return false;
        }
        i = i + 1;
    }
    assert(a@ =~= b@);
    true
}

/// The moves an attestation's status may take: unchanged, or from pending to
/// one of the three final states.
pub open spec fn attestation_step_ok(from: AttestationStatus, to: AttestationStatus) -> bool {
    from == to || from == AttestationStatus::Pending
}

/// What attestation `x` keeps reserved from account `a`: its deposit while it
/// is pending and `a` is its attester.
pub open spec fn held_for(x: Attestation, a: AccountId) -> nat {
    if x.attester == a && x.status == AttestationStatus::Pending {
        x.deposit as nat
    } else {
        0
    }
}

/// The deposits the first `n` attestations keep reserved from `a`.
pub open spec fn held_upto(atts: Seq<Attestation>, a: AccountId, n: nat) -> nat
    decreases n,
{
    if n == 0 {
        0
    } else {
        held_upto(atts, a, (n - 1) as nat) + held_for(atts[n - 1], a)
    }
}

proof fn lemma_held_push(atts: Seq<Attestation>, x: Attestation, a: AccountId, n: nat)
    requires
        n <= atts.len(),
    ensures
        held_upto(atts.push(x), a, n) == held_upto(atts, a, n),
    decreases n,
{
    if n > 0 {
        lemma_held_push(atts, x, a, (n - 1) as nat);
        assert(atts.push(x)[n - 1] == atts[n - 1]);
    }
}

proof fn lemma_held_update(atts: Seq<Attestation>, i: int, y: Attestation, a: AccountId, n: nat)
    requires
        0 <= i < atts.len(),
        n <= atts.len(),
    ensures
        i < n ==> held_upto(atts.update(i, y), a, n) + held_for(atts[i], a) == held_upto(atts, a, n)
            + held_for(y, a),
        i >= n ==> held_upto(atts.update(i, y), a, n) == held_upto(atts, a, n),
    decreases n,
{
    if n > 0 {
        lemma_held_update(atts, i, y, a, (n - 1) as nat);
        if n - 1 != i {
            assert(atts.update(i, y)[n - 1] == atts[n - 1]);
        }
    }
}

pub struct Pallet {
    pub config: Config,
    /// Attestation `i` is stored at index `i`.
    pub attestations: Vec<Attestation>,
    pub nodes: HashMap<AccountId, NodeRegistration>,
    /// At most one capability per owner, in order of first declaration.
    pub capabilities: Vec<AgentCapability>,
}

impl Pallet {
    pub open spec fn next_id(self) -> nat {
        self.attestations@.len()
    }

    pub open spec fn has_attestation(self, id: u64) -> bool {
        id < self.attestations@.len()
    }

    pub open spec fn attestation(self, id: u64) -> Attestation {
        self.attestations@[id as int]
    }

    pub open spec fn has_node(self, a: AccountId) -> bool {
        self.nodes@.contains_key(a)
    }

    pub open spec fn node(self, a: AccountId) -> NodeRegistration {
        self.nodes@[a]
    }

    /// Whether `a` declared a capability that lists `model`.
    pub open spec fn serves(self, a: AccountId, model: Seq<u8>) -> bool {
        exists|i: int, j: int|
            0 <= i < self.capabilities@.len() && self.capabilities@[i].owner == a && 0 <= j
                < self.capabilities@[i].model_ids@.len()
                && #[trigger] self.capabilities@[i].model_ids@[j]@ == model
    }

    /// The deposits this ledger keeps reserved from `a`: those of `a`'s
    /// pending attestations.
    pub open spec fn held_by(self, a: AccountId) -> nat {
        held_upto(self.attestations@, a, self.attestations@.len())
    }

    /// The ledger's part of the reservation accounting: for every account
    /// whose reserved balance covers what this ledger holds from it, the
    /// reserved balance moves exactly as the held deposits do.
    pub open spec fn accounting_kept(self, new: Pallet, ledger: Ledger, new_ledger: Ledger) -> bool {
        forall|a: AccountId|
            ledger.reserved_of(a) >= #[trigger] self.held_by(a) ==> new_ledger.reserved_of(a) as int
                - new.held_by(a) == ledger.reserved_of(a) as int - self.held_by(a)
    }

    proof fn lemma_held_pushed(self, new: Pallet, x: Attestation)
        requires
            new.attestations@ == self.attestations@.push(x),
        ensures
            forall|a: AccountId| #[trigger] new.held_by(a) == self.held_by(a) + held_for(x, a),
    {
        assert forall|a: AccountId| #[trigger] new.held_by(a) == self.held_by(a) + held_for(x, a) by {
            lemma_held_push(self.attestations@, x, a, self.attestations@.len());
            assert(new.attestations@[self.attestations@.len() as int] == x);
        }
    }

    proof fn lemma_held_updated(self, new: Pallet, i: int, y: Attestation)
        requires
            0 <= i < self.attestations@.len(),
            new.attestations@ == self.attestations@.update(i, y),
        ensures
            forall|a: AccountId| #[trigger] new.held_by(a) + held_for(self.attestations@[i], a)
                == self.held_by(a) + held_for(y, a),
    {
        assert forall|a: AccountId| #[trigger] new.held_by(a) + held_for(self.attestations@[i], a)
            == self.held_by(a) + held_for(y, a) by {
            lemma_held_update(self.attestations@, i, y, a, self.attestations@.len());
        }
    }

    /// Each attestation sits at its own index, and each owner has at most one
    /// capability; the slash share is a percentage.
    pub open spec fn wf(self) -> bool {
        &&& self.config.slash_percent <= 100
        &&& self.attestations@.len() < u64::MAX
        &&& forall|i: int|
            0 <= i < self.attestations@.len() ==> #[trigger] self.attestations@[i].id == i
        &&& forall|i: int, j: int|
            0 <= i < self.capabilities@.len() && 0 <= j < self.capabilities@.len() && i != j
                ==> #[trigger] self.capabilities@[i].owner != #[trigger] self.capabilities@[j].owner
    }

    /// What every action keeps: attestations are only appended; an existing
    /// one keeps its attester, task, result and deposit, moves only from
    /// pending, and keeps its challenger once it has one; nodes stay.
    pub open spec fn evolves_to(self, new: Pallet) -> bool {
        &&& new.config == self.config
        &&& self.attestations@.len() <= new.attestations@.len()
        &&& forall|id: u64| #[trigger]
            self.has_attestation(id) ==> {
                let a = self.attestation(id);
                let b = new.attestation(id);
                &&& b.id == a.id
                &&& b.attester == a.attester
                &&& b.task_id == a.task_id
                &&& b.result_hash == a.result_hash
                &&& b.deposit == a.deposit
                &&& b.challenge_end == a.challenge_end
                &&& attestation_step_ok(a.status, b.status)
                &&& (a.challenger is Some ==> b.challenger == a.challenger)
            }
        &&& forall|a: AccountId| #[trigger] self.has_node(a) ==> new.has_node(a)
    }

    pub fn new(config: Config) -> (r: Pallet)
        requires
            config.slash_percent <= 100,
        ensures
            r.wf(),
            r.config == config,
            r.next_id() == 0,
            forall|a: AccountId| !r.has_node(a),
            r.capabilities@.len() == 0,
    {
        Pallet {
            config,
            attestations: Vec::new(),
            nodes: HashMap::new(),
            capabilities: Vec::new(),
        }
    }

    pub fn next_attestation_id(&self) -> (r: u64)
        ensures
            r == self.next_id(),
    {
        self.attestations.len() as u64
    }

    pub fn attestation_of(&self, id: u64) -> (r: Option<&Attestation>)
        ensures
            match r {
                Some(a) => self.has_attestation(id) && *a == self.attestation(id),
                None => !self.has_attestation(id),
            },
    {
        if id < self.attestations.len() as u64 {
            Some(&self.attestations[id as usize])
        } else {
            None
        }
    }

    pub fn node_of(&self, who: AccountId) -> (r: Option<&NodeRegistration>)
        ensures
            match r {
                Some(n) => self.has_node(who) && *n == self.node(who),
                None => !self.has_node(who),
            },
    {
        self.nodes.get(&who)
    }

    /// Registers the caller's node; one node per account.
    pub fn register_node(&mut self, who: AccountId, gpu_uuid: Vec<u8>, tflops: u32, now: BlockNumber) -> (r:
        Result<(), Error>)
        requires
            old(self).wf(),
        ensures
            final(self).wf(),
            old(self).evolves_to(*final(self)),
            r == (if old(self).has_node(who) {
                Err(Error::NodeAlreadyRegistered)
            } else if gpu_uuid@.len() > old(self).config.max_gpu_uuid_len {
                Err(Error::ArithmeticOverflow)
            } else {
                Ok(())
            }),
            r is Err ==> *final(self) == *old(self),
            r is Ok ==> final(self).nodes@ == old(self).nodes@.insert(
                who,
                NodeRegistration {
                    owner: who,
                    gpu_uuid,
                    tflops,
                    registered_at: now,
                    last_heartbeat: now,
                    is_active: true,
                },
            ),
            r is Ok ==> final(self).attestations == old(self).attestations,
            r is Ok ==> final(self).capabilities == old(self).capabilities,
    {
        if self.nodes.contains_key(&who) {
            return Err(Error::NodeAlreadyRegistered);
        }
        if gpu_uuid.len() > self.config.max_gpu_uuid_len as usize {
            return Err(Error::ArithmeticOverflow);
        }
        self.nodes.insert(
            who,
            NodeRegistration {
                owner: who,
                gpu_uuid,
                tflops,
                registered_at: now,
                last_heartbeat: now,
                is_active: true,
            },
        );
        Ok(())
    }

    /// Records the caller's heartbeat; fails until a heartbeat interval has
    /// passed since the last one.
    pub fn heartbeat(&mut self, who: AccountId, now: BlockNumber) -> (r: Result<(), Error>)
        requires
            old(self).wf(),
        ensures
            final(self).wf(),
            old(self).evolves_to(*final(self)),
            r == (if !old(self).has_node(who) {
                Err(Error::NodeNotRegistered)
            } else if (now as nat) < old(self).node(who).last_heartbeat as nat
                + old(self).config.heartbeat_interval as nat {
                Err(Error::HeartbeatTooEarly)
            } else {
                Ok(())
            }),
            r is Err ==> *final(self) == *old(self),
            r is Ok ==> final(self).nodes@ == old(self).nodes@.insert(
                who,
                NodeRegistration { last_heartbeat: now, is_active: true, ..old(self).node(who) },
            ),
            r is Ok ==> final(self).attestations == old(self).attestations,
            r is Ok ==> final(self).capabilities == old(self).capabilities,
    {
        let last = match self.nodes.get(&who) {
            Some(n) => n.last_heartbeat,
            None => return Err(Error::NodeNotRegistered),
        };
        match last.checked_add(self.config.heartbeat_interval) {
            Some(due) => {
                if now < due {
                    return Err(Error::HeartbeatTooEarly);
                }
            },
            None => return Err(Error::HeartbeatTooEarly),
        }
        let mut node = self.nodes.remove(&who).unwrap();
        node.last_heartbeat = now;
        node.is_active = true;
        self.nodes.insert(who, node);
        assert(final(self).nodes@ =~= old(self).nodes@.insert(
            who,
            NodeRegistration { last_heartbeat: now, is_active: true, ..old(self).node(who) },
        ));
        Ok(())
    }

    /// The attestation a new claim gets: pending, with the configured deposit
    /// and a challenge window that opens now.
    pub open spec fn fresh_attestation(
        self,
        attester: AccountId,
        task_id: u64,
        result_hash: H256,
        model_id: Vec<u8>,
        input_tokens: u64,
        output_tokens: u64,
        now: BlockNumber,
    ) -> Attestation {
        Attestation {
            id: self.attestations@.len() as u64,
            attester,
            task_id,
            result_hash,
            model_id,
            input_tokens,
            output_tokens,
            deposit: self.config.attestation_deposit,
            status: AttestationStatus::Pending,
            submitted_at: now,
            challenge_end: sat_add(now, self.config.challenge_window),
            challenger: None,
        }
    }

    fn push_attestation(
        &mut self,
        attester: AccountId,
        task_id: u64,
        result_hash: H256,
        model_id: Vec<u8>,
        input_tokens: u64,
        output_tokens: u64,
        now: BlockNumber,
    ) -> (id: u64)
        requires
            old(self).wf(),
            old(self).attestations@.len() + 1 < u64::MAX,
        ensures
            final(self).wf(),
            old(self).evolves_to(*final(self)),
            id == old(self).attestations@.len(),
            final(self).attestations@ == old(self).attestations@.push(
                old(self).fresh_attestation(
                    attester,
                    task_id,
                    result_hash,
                    model_id,
                    input_tokens,
                    output_tokens,
                    now,
                ),
            ),
            final(self).nodes == old(self).nodes,
            final(self).capabilities == old(self).capabilities,
    {
        let id = self.attestations.len() as u64;
        let challenge_end = now.saturating_add(self.config.challenge_window);
        self.attestations.push(
            Attestation {
                id,
                attester,
                task_id,
                result_hash,
                model_id,
                input_tokens,
                output_tokens,
                deposit: self.config.attestation_deposit,
                status: AttestationStatus::Pending,
                submitted_at: now,
                challenge_end,
                challenger: None,
            },
        );
        assert forall|k: u64| #[trigger] old(self).has_attestation(k) implies self.attestation(k)
            == old(self).attestation(k) by {}
        id
    }

    /// A registered node claims a task result, reserving the attestation
    /// deposit. Returns the new attestation's identifier.
    pub fn submit_attestation(
        &mut self,
        ledger: &mut Ledger,
        attester: AccountId,
        task_id: u64,
        result_hash: H256,
        model_id: Vec<u8>,
        input_tokens: u64,
        output_tokens: u64,
        now: BlockNumber,
    ) -> (r: Result<u64, Error>)
        requires
            old(self).wf(),
            old(ledger).wf(),
        ensures
            final(self).wf(),
            final(ledger).wf(),
            old(self).evolves_to(*final(self)),
            r == (if !old(self).has_node(attester) {
                Err(Error::NodeNotRegistered)
            } else if old(ledger).free_of(attester) < old(self).config.attestation_deposit {
                Err(Error::InsufficientDeposit)
            } else if model_id@.len() > old(self).config.max_model_id_len {
                Err(Error::ArithmeticOverflow)
            } else if old(self).attestations@.len() + 1 >= u64::MAX {
                Err(Error::ArithmeticOverflow)
            } else {
                Ok(old(self).attestations@.len() as u64)
            }),
            r is Err ==> *final(self) == *old(self) && *final(ledger) == *old(ledger),
            r is Ok ==> final(self).attestations@ == old(self).attestations@.push(
                old(self).fresh_attestation(
                    attester,
                    task_id,
                    result_hash,
                    model_id,
                    input_tokens,
                    output_tokens,
                    now,
                ),
            ),
            r is Ok ==> final(ledger).free_of(attester) == old(ledger).free_of(attester) - old(
                self,
            ).config.attestation_deposit,
            r is Ok ==> final(ledger).reserved_of(attester) == old(ledger).reserved_of(attester)
                + old(self).config.attestation_deposit,
            old(ledger).others_unchanged(*final(ledger), attester, attester),
            old(self).accounting_kept(*final(self), *old(ledger), *final(ledger)),
    {
        if !self.nodes.contains_key(&attester) {
            return Err(Error::NodeNotRegistered);
        }
        let deposit = self.config.attestation_deposit;
        if ledger.free_balance(attester) < deposit {
            return Err(Error::InsufficientDeposit);
        }
        if model_id.len() > self.config.max_model_id_len as usize {
            return Err(Error::ArithmeticOverflow);
        }
        if self.attestations.len() as u64 >= u64::MAX - 1 {
            return Err(Error::ArithmeticOverflow);
        }
        let ghost s0 = *self;
        let _ = ledger.reserve(attester, deposit);
        let id = self.push_attestation(
            attester,
            task_id,
            result_hash,
            model_id,
            input_tokens,
            output_tokens,
            now,
        );
        proof {
            s0.lemma_held_pushed(*self, self.attestations@.last());
        }
        Ok(id)
    }

    /// Called by the scheduler when a task's proof is accepted: opens a
    /// pending attestation for the pool owner, reserving its deposit. Unlike
    /// `submit_attestation`, the attester need not be a registered node.
    pub fn on_task_completed(
        &mut self,
        ledger: &mut Ledger,
        attester: AccountId,
        task_id: u64,
        result_hash: H256,
        model_id: Vec<u8>,
        input_tokens: u64,
        output_tokens: u64,
        now: BlockNumber,
    ) -> (r: Result<u64, Error>)
        requires
            old(self).wf(),
            old(ledger).wf(),
        ensures
            final(self).wf(),
            final(ledger).wf(),
            old(self).evolves_to(*final(self)),
            r == (if old(self).attestations@.len() + 1 >= u64::MAX {
                Err(Error::ArithmeticOverflow)
            } else if model_id@.len() > old(self).config.max_model_id_len {
                Err(Error::InvalidModelId)
            } else if old(ledger).free_of(attester) < old(self).config.attestation_deposit {
                Err(Error::InsufficientDeposit)
            } else {
                Ok(old(self).attestations@.len() as u64)
            }),
            r is Err ==> *final(self) == *old(self) && *final(ledger) == *old(ledger),
            r is Ok ==> final(self).attestations@ == old(self).attestations@.push(
                old(self).fresh_attestation(
                    attester,
                    task_id,
                    result_hash,
                    model_id,
                    input_tokens,
                    output_tokens,
                    now,
                ),
            ),
            r is Ok ==> final(self).nodes == old(self).nodes,
            r is Ok ==> final(ledger).free_of(attester) == old(ledger).free_of(attester) - old(
                self,
            ).config.attestation_deposit,
            r is Ok ==> final(ledger).reserved_of(attester) == old(ledger).reserved_of(attester)
                + old(self).config.attestation_deposit,
            old(ledger).others_unchanged(*final(ledger), attester, attester),
            old(self).accounting_kept(*final(self), *old(ledger), *final(ledger)),
    {
        if self.attestations.len() as u64 >= u64::MAX - 1 {
            return Err(Error::ArithmeticOverflow);
        }
        if model_id.len() > self.config.max_model_id_len as usize {
            return Err(Error::InvalidModelId);
        }
        let deposit = self.config.attestation_deposit;
        if ledger.free_balance(attester) < deposit {
            return Err(Error::InsufficientDeposit);
        }
        let ghost s0 = *self;
        let _ = ledger.reserve(attester, deposit);
        let id = self.push_attestation(
            attester,
            task_id,
            result_hash,
            model_id,
            input_tokens,
            output_tokens,
            now,
        );
        proof {
            s0.lemma_held_pushed(*self, self.attestations@.last());
        }
        Ok(id)
    }

    /// Opens a challenge on a pending attestation within its window.
    pub fn challenge_attestation(&mut self, challenger: AccountId, attestation_id: u64, now: BlockNumber) -> (r:
        Result<(), Error>)
        requires
            old(self).wf(),
        ensures
            final(self).wf(),
            old(self).evolves_to(*final(self)),
            r == (if !old(self).has_attestation(attestation_id) {
                Err(Error::AttestationNotFound)
            } else if old(self).attestation(attestation_id).status != AttestationStatus::Pending {
                Err(Error::InvalidStatus)
            } else if old(self).attestation(attestation_id).challenger is Some {
                Err(Error::AlreadyChallenged)
            } else if now > old(self).attestation(attestation_id).challenge_end {
                Err(Error::ChallengeWindowExpired)
            } else {
                Ok(())
            }),
            r is Err ==> *final(self) == *old(self),
            r is Ok ==> final(self).attestations@ == old(self).attestations@.update(
                attestation_id as int,
                Attestation {
                    challenger: Some(challenger),
                    ..old(self).attestation(attestation_id)
                },
            ),
            r is Ok ==> final(self).nodes == old(self).nodes,
            r is Ok ==> final(self).capabilities == old(self).capabilities,
            forall|a: AccountId| #[trigger] final(self).held_by(a) == old(self).held_by(a),
    {
        if attestation_id >= self.attestations.len() as u64 {
            return Err(Error::AttestationNotFound);
        }
        let i = attestation_id as usize;
        if self.attestations[i].status != AttestationStatus::Pending {
            return Err(Error::InvalidStatus);
        }
        if self.attestations[i].challenger.is_some() {
            return Err(Error::AlreadyChallenged);
        }
        if now > self.attestations[i].challenge_end {
            return Err(Error::ChallengeWindowExpired);
        }
        let ghost s0 = *self;
        self.attestations[i].challenger = Some(challenger);
        proof {
            s0.lemma_held_updated(*self, i as int, self.attestations@[i as int]);
        }
        assert(self.attestations@ =~= old(self).attestations@.update(
            attestation_id as int,
            Attestation { challenger: Some(challenger), ..old(self).attestation(attestation_id) },
        ));
        Ok(())
    }

    /// Sets the status of a stored pending attestation.
    fn set_status(&mut self, id: u64, status: AttestationStatus)
        requires
            old(self).wf(),
            old(self).has_attestation(id),
            old(self).attestation(id).status == AttestationStatus::Pending,
        ensures
            final(self).wf(),
            old(self).evolves_to(*final(self)),
            final(self).attestations@ == old(self).attestations@.update(
                id as int,
                Attestation { status, ..old(self).attestation(id) },
            ),
            final(self).nodes == old(self).nodes,
            final(self).capabilities == old(self).capabilities,
    {
        let len = self.attestations.len();
        assert(id < len);
        let i = id as usize;
        self.attestations[i].status = status;
        assert(self.attestations@ =~= old(self).attestations@.update(
            id as int,
            Attestation { status, ..old(self).attestation(id) },
        ));
    }

    /// The error `confirm_attestation` fails with, if any.
    pub open spec fn confirm_error(self, origin: Origin, id: u64, now: BlockNumber) -> Option<
        Error,
    > {
        let a = self.attestation(id);
        if origin != Origin::Root && origin != Origin::Signed(self.config.admin) {
            Some(Error::BadOrigin)
        } else if !self.has_attestation(id) {
            Some(Error::AttestationNotFound)
        } else if a.status != AttestationStatus::Pending {
            Some(Error::InvalidStatus)
        } else if a.challenger is Some {
            Some(Error::AlreadyChallenged)
        } else if now <= a.challenge_end {
            Some(Error::ChallengeWindowNotExpired)
        } else {
            None
        }
    }

    /// Confirms an unchallenged attestation after its window: the deposit is
    /// released, then the settlement ledger is asked to pay out for it. That
    /// payment is best-effort: its failure does not undo the confirmation.
    /// The payment is made by the attester to itself, for the amount of the
    /// deposit, so that it leaves a receipt without moving funds. Returns the
    /// identifier of that payment, or `None` when the settlement ledger
    /// refused it.
    pub fn confirm_attestation(
        &mut self,
        ledger: &mut Ledger,
        settlement: &mut SettlementLedger,
        origin: Origin,
        attestation_id: u64,
        now: BlockNumber,
    ) -> (r: Result<Option<u64>, Error>)
        requires
            old(self).wf(),
            old(ledger).wf(),
            old(settlement).wf(),
        ensures
            final(self).wf(),
            final(ledger).wf(),
            final(settlement).wf(),
            old(self).evolves_to(*final(self)),
            old(settlement).evolves_to(*final(settlement)),
            old(self).accounting_kept(*final(self), *old(ledger), *final(ledger)),
            old(self).has_attestation(attestation_id) && old(self).attestation(
                attestation_id,
            ).challenger is Some ==> r is Err,
            match old(self).confirm_error(origin, attestation_id, now) {
                Some(e) => r == Err::<Option<u64>, Error>(e) && *final(self) == *old(self)
                    && *final(ledger) == *old(ledger) && *final(settlement) == *old(settlement),
                None => {
                    let a = old(self).attestation(attestation_id);
                    let released = min_nat(a.deposit as nat, old(ledger).reserved_of(a.attester));
                    &&& r == Ok::<Option<u64>, Error>(
                        if old(settlement).next_intent_id < u64::MAX && old(ledger).free_of(a.attester)
                            + released >= a.deposit {
                            Some(old(settlement).next_intent_id)
                        } else {
                            None
                        },
                    )
                    &&& final(self).attestations@ == old(self).attestations@.update(
                        attestation_id as int,
                        Attestation { status: AttestationStatus::Confirmed, ..a },
                    )
                    &&& final(ledger).free_of(a.attester) == old(ledger).free_of(a.attester)
                        + released
                    &&& final(ledger).reserved_of(a.attester) == old(ledger).reserved_of(a.attester)
                        - released
                    &&& old(ledger).others_unchanged(*final(ledger), a.attester, a.attester)
                    &&& (old(settlement).next_intent_id < u64::MAX && old(ledger).free_of(
                        a.attester,
                    ) + released >= a.deposit) ==> final(settlement).has_receipt(
                        old(settlement).next_intent_id,
                    ) && final(settlement).receipts@[old(settlement).next_intent_id].miner
                        == a.attester
                },
            },
    {
        if origin != Origin::Root && origin != Origin::Signed(self.config.admin) {
            return Err(Error::BadOrigin);
        }
        if attestation_id >= self.attestations.len() as u64 {
            return Err(Error::AttestationNotFound);
        }
        let i = attestation_id as usize;
        if self.attestations[i].status != AttestationStatus::Pending {
            return Err(Error::InvalidStatus);
        }
        if self.attestations[i].challenger.is_some() {
            return Err(Error::AlreadyChallenged);
        }
        if now <= self.attestations[i].challenge_end {
            return Err(Error::ChallengeWindowNotExpired);
        }
        let attester = self.attestations[i].attester;
        let deposit = self.attestations[i].deposit;
        let ghost s0 = *self;
        let ghost l0 = *ledger;
        self.set_status(attestation_id, AttestationStatus::Confirmed);
        proof {
            s0.lemma_held_updated(*self, i as int, self.attestations@[i as int]);
            assert(self.held_by(attester) + held_for(s0.attestations@[i as int], attester)
                == s0.held_by(attester) + held_for(self.attestations@[i as int], attester));
            assert(held_for(s0.attestations@[i as int], attester) == deposit);
            assert(held_for(self.attestations@[i as int], attester) == 0);
            assert(s0.held_by(attester) >= deposit);
        }
        let _ = ledger.unreserve(attester, deposit);
        let paid = settlement.settle_for_attestation(
            ledger,
            attester,
            attester,
            deposit,
            attestation_id,
            now,
        );
        proof {
            assert forall|a: AccountId|
                l0.reserved_of(a) >= #[trigger] s0.held_by(a) implies ledger.reserved_of(a) as int
                    - self.held_by(a) == l0.reserved_of(a) as int - s0.held_by(a) by {
                if a != attester {
                    assert(ledger.account(a) == l0.account(a));
                }
            }
        }
        match paid {
            Ok(id) => Ok(Some(id)),
            Err(_) => Ok(None),
        }
    }

    /// Root decides a challenged attestation. A guilty attester loses
    /// `slash_percent` of the deposit and gets the rest back; otherwise the
    /// whole deposit is released.
    pub fn resolve_challenge(
        &mut self,
        ledger: &mut Ledger,
        origin: Origin,
        attestation_id: u64,
        attester_is_guilty: bool,
    ) -> (r: Result<(), Error>)
        requires
            old(self).wf(),
            old(ledger).wf(),
        ensures
            final(self).wf(),
            final(ledger).wf(),
            old(self).evolves_to(*final(self)),
            r == (if origin != Origin::Root {
                Err(Error::BadOrigin)
            } else if !old(self).has_attestation(attestation_id) {
                Err(Error::AttestationNotFound)
            } else if old(self).attestation(attestation_id).status != AttestationStatus::Pending {
                Err(Error::InvalidStatus)
            } else if old(self).attestation(attestation_id).challenger is None {
                Err(Error::InvalidStatus)
            } else {
                Ok(())
            }),
            r is Err ==> *final(self) == *old(self) && *final(ledger) == *old(ledger),
            old(self).accounting_kept(*final(self), *old(ledger), *final(ledger)),
            r is Ok ==> {
                let a = old(self).attestation(attestation_id);
                let slash = pct_of(a.deposit, old(self).config.slash_percent);
                let slashed = min_nat(slash, old(ledger).reserved_of(a.attester));
                let released = min_nat(
                    (a.deposit - slash) as nat,
                    (old(ledger).reserved_of(a.attester) - slashed) as nat,
                );
                &&& final(self).attestations@ == old(self).attestations@.update(
                    attestation_id as int,
                    Attestation {
                        status: if attester_is_guilty {
                            AttestationStatus::Slashed
                        } else {
                            AttestationStatus::Defended
                        },
                        ..a
                    },
                )
                &&& attester_is_guilty ==> final(ledger).reserved_of(a.attester) == old(
                    ledger,
                ).reserved_of(a.attester) - slashed - released
                &&& attester_is_guilty ==> final(ledger).free_of(a.attester) == old(ledger).free_of(
                    a.attester,
                ) + released
                &&& !attester_is_guilty ==> final(ledger).free_of(a.attester) == old(
                    ledger,
                ).free_of(a.attester) + min_nat(
                    a.deposit as nat,
                    old(ledger).reserved_of(a.attester),
                )
                &&& !attester_is_guilty ==> final(ledger).reserved_of(a.attester) == old(
                    ledger,
                ).reserved_of(a.attester) - min_nat(
                    a.deposit as nat,
                    old(ledger).reserved_of(a.attester),
                )
                &&& old(ledger).others_unchanged(*final(ledger), a.attester, a.attester)
            },
    {
        if origin != Origin::Root {
            return Err(Error::BadOrigin);
        }
        if attestation_id >= self.attestations.len() as u64 {
            return Err(Error::AttestationNotFound);
        }
        let i = attestation_id as usize;
        if self.attestations[i].status != AttestationStatus::Pending {
            return Err(Error::InvalidStatus);
        }
        if self.attestations[i].challenger.is_none() {
            return Err(Error::InvalidStatus);
        }
        let attester = self.attestations[i].attester;
        let deposit = self.attestations[i].deposit;
        let ghost s0 = *self;
        let ghost l0 = *ledger;
        if attester_is_guilty {
            let slash = percent_of(deposit, self.config.slash_percent);
            let _ = ledger.slash_reserved(attester, slash);
            let _ = ledger.unreserve(attester, deposit - slash);
            self.set_status(attestation_id, AttestationStatus::Slashed);
        } else {
            let _ = ledger.unreserve(attester, deposit);
            self.set_status(attestation_id, AttestationStatus::Defended);
        }
        proof {
            s0.lemma_held_updated(*self, i as int, self.attestations@[i as int]);
            assert(self.held_by(attester) + held_for(s0.attestations@[i as int], attester)
                == s0.held_by(attester) + held_for(self.attestations@[i as int], attester));
            assert(held_for(s0.attestations@[i as int], attester) == deposit);
            assert(held_for(self.attestations@[i as int], attester) == 0);
            assert(s0.held_by(attester) >= deposit);
            assert forall|a: AccountId|
                l0.reserved_of(a) >= #[trigger] s0.held_by(a) implies ledger.reserved_of(a) as int
                    - self.held_by(a) == l0.reserved_of(a) as int - s0.held_by(a) by {
                if a != attester {
                    assert(ledger.account(a) == l0.account(a));
                }
            }
        }
        Ok(())
    }

    /// The index of `who`'s capability, if it declared one.
    fn capability_index(&self, who: AccountId) -> (r: Option<usize>)
        ensures
            match r {
                Some(i) => i < self.capabilities@.len() && self.capabilities@[i as int].owner == who,
                None => forall|i: int|
                    0 <= i < self.capabilities@.len() ==> #[trigger] self.capabilities@[i].owner
                        != who,
            },
    {
        let mut i: usize = 0;
        while i < self.capabilities.len()
            invariant
                i <= self.capabilities@.len(),
                forall|j: int| 0 <= j < i ==> #[trigger] self.capabilities@[j].owner != who,
            decreases self.capabilities@.len() - i,
        {
            if self.capabilities[i].owner == who {
                return Some(i);
            }
            i = i + 1;
        }
        None
    }

    pub open spec fn has_capability(self, who: AccountId) -> bool {
        exists|i: int| 0 <= i < self.capabilities@.len() && #[trigger] self.capabilities@[i].owner == who
    }

    /// The capability `who` declared; meaningful when it has one.
    pub open spec fn capability(self, who: AccountId) -> AgentCapability {
        let i = choose|i: int| 0 <= i < self.capabilities@.len() && #[trigger] self.capabilities@[i].owner == who;
        self.capabilities@[i]
    }

    pub fn agent_capability(&self, who: AccountId) -> (r: Option<&AgentCapability>)
        requires
            self.wf(),
        ensures
            match r {
                Some(c) => self.has_capability(who) && *c == self.capability(who),
                None => !self.has_capability(who),
            },
    {
        match self.capability_index(who) {
            Some(i) => {
                let ghost k = choose|k: int| 0 <= k < self.capabilities@.len() && #[trigger] self.capabilities@[k].owner == who;
                assert(k == i);
                Some(&self.capabilities[i])
            },
            None => None,
        }
    }

    /// Whether every model identifier fits the length bound.
    fn model_ids_fit(&self, model_ids: &Vec<Vec<u8>>) -> (r: bool)
        ensures
            r == forall|j: int|
                0 <= j < model_ids@.len() ==> #[trigger] model_ids@[j]@.len()
                    <= self.config.max_model_id_len,
    {
        let mut j: usize = 0;
        while j < model_ids.len()
            invariant
                j <= model_ids@.len(),
                forall|k: int| 0 <= k < j ==> #[trigger] model_ids@[k]@.len() <= self.config.max_model_id_len,
            decreases model_ids@.len() - j,
        {
            if model_ids[j].len() > self.config.max_model_id_len as usize {
                return false;
            }
            j = j + 1;
        }
        true
    }

    /// Declares the models a registered node serves, replacing any earlier
    /// declaration: models it no longer lists stop naming it as a provider.
    pub fn update_capability(
        &mut self,
        who: AccountId,
        model_ids: Vec<Vec<u8>>,
        max_concurrent: u32,
        price_per_token: Balance,
        region: Vec<u8>,
        now: BlockNumber,
    ) -> (r: Result<(), Error>)
        requires
            old(self).wf(),
        ensures
            final(self).wf(),
            old(self).evolves_to(*final(self)),
            r == (if !old(self).has_node(who) {
                Err(Error::NodeNotRegistered)
            } else if exists|j: int|
                0 <= j < model_ids@.len() && #[trigger] model_ids@[j]@.len() > old(
                    self,
                ).config.max_model_id_len {
                Err(Error::InvalidModelId)
            } else if model_ids@.len() > old(self).config.max_models_per_agent {
                Err(Error::TooManyModels)
            } else if region@.len() > MAX_REGION_LEN {
                Err(Error::InvalidRegion)
            } else {
                Ok(())
            }),
            r is Err ==> *final(self) == *old(self),
            r is Ok ==> final(self).has_capability(who) && final(self).capability(who) == (
            AgentCapability {
                owner: who,
                model_ids,
                max_concurrent,
                price_per_token,
                region,
                updated_at: now,
            }),
            r is Ok ==> forall|a: AccountId| #[trigger]
                final(self).has_capability(a) <==> old(self).has_capability(a) || a == who,
            r is Ok ==> forall|a: AccountId|
                a != who && old(self).has_capability(a) ==> #[trigger] final(self).capability(a)
                    == old(self).capability(a),
            r is Ok ==> final(self).attestations == old(self).attestations,
            r is Ok ==> final(self).nodes == old(self).nodes,
    {
        if !self.nodes.contains_key(&who) {
            return Err(Error::NodeNotRegistered);
        }
        if !self.model_ids_fit(&model_ids) {
            return Err(Error::InvalidModelId);
        }
        if model_ids.len() > self.config.max_models_per_agent as usize {
            return Err(Error::TooManyModels);
        }
        if region.len() > MAX_REGION_LEN {
            return Err(Error::InvalidRegion);
        }
        let cap = AgentCapability {
            owner: who,
            model_ids,
            max_concurrent,
            price_per_token,
            region,
            updated_at: now,
        };
        let ghost c = cap;
        match self.capability_index(who) {
            Some(i) => {
                self.capabilities[i] = cap;
                assert(self.capabilities@ == old(self).capabilities@.update(i as int, c));
                assert(self.capabilities@[i as int].owner == who);
            },
            None => {
                self.capabilities.push(cap);
                assert(self.capabilities@[old(self).capabilities@.len() as int].owner == who);
            },
        }
        proof {
            assert forall|a: AccountId| #[trigger]
                self.has_capability(a) <==> old(self).has_capability(a) || a == who by {
                if old(self).has_capability(a) {
                    let k = choose|k: int| 0 <= k < old(self).capabilities@.len() && #[trigger] old(self).capabilities@[k].owner == a;
                    if a != who {
                        assert(self.capabilities@[k].owner == a);
                    }
                }
                if self.has_capability(a) && a != who {
                    let k = choose|k: int| 0 <= k < self.capabilities@.len() && #[trigger] self.capabilities@[k].owner == a;
                    assert(old(self).capabilities@[k].owner == a);
                }
            }
            assert forall|a: AccountId|
                a != who && old(self).has_capability(a) implies #[trigger] self.capability(a)
                    == old(self).capability(a) by {
                let k = choose|k: int| 0 <= k < old(self).capabilities@.len() && #[trigger] old(self).capabilities@[k].owner == a;
                assert(self.capabilities@[k].owner == a);
                let k2 = choose|k2: int| 0 <= k2 < self.capabilities@.len() && #[trigger] self.capabilities@[k2].owner == a;
                assert(k2 == k);
                let k3 = choose|k3: int| 0 <= k3 < old(self).capabilities@.len() && #[trigger] old(self).capabilities@[k3].owner == a;
                assert(k3 == k);
            }
            let kw = choose|k: int| 0 <= k < self.capabilities@.len() && #[trigger] self.capabilities@[k].owner == who;
            assert(self.capabilities@[kw] == c);
        }
        Ok(())
    }

    /// Whether a capability lists a byte string equal to `model`.
    fn lists_model(cap: &AgentCapability, model: &Vec<u8>) -> (r: bool)
        ensures
            r == exists|j: int| 0 <= j < cap.model_ids@.len() && #[trigger] cap.model_ids@[j]@ == model@,
    {
        let mut j: usize = 0;
        while j < cap.model_ids.len()
            invariant
                j <= cap.model_ids@.len(),
                forall|k: int| 0 <= k < j ==> #[trigger] cap.model_ids@[k]@ != model@,
            decreases cap.model_ids@.len() - j,
        {
            if bytes_eq(&cap.model_ids[j], model) {
                return true;
            }
            j = j + 1;
        }
        false
    }

    /// Whether `a` is offered for `model`: it serves the model and its node
    /// is active.
    pub open spec fn provides(self, a: AccountId, model: Seq<u8>) -> bool {
        self.serves(a, model) && self.has_node(a) && self.node(a).is_active
    }

    /// The active nodes that serve `model`, in order of first declaration.
    pub fn get_providers_for_model(&self, model_id: &Vec<u8>) -> (r: Vec<AccountId>)
        requires
            self.wf(),
        ensures
            forall|a: AccountId| #[trigger] r@.contains(a) <==> self.provides(a, model_id@),
    {
        let mut out: Vec<AccountId> = Vec::new();
        let mut i: usize = 0;
        while i < self.capabilities.len()
            invariant
                i <= self.capabilities@.len(),
                forall|a: AccountId| #[trigger]
                    out@.contains(a) <==> (exists|k: int, j: int|
                        0 <= k < i && self.capabilities@[k].owner == a && 0 <= j
                            < self.capabilities@[k].model_ids@.len()
                            && #[trigger] self.capabilities@[k].model_ids@[j]@ == model_id@)
                        && self.has_node(a) && self.node(a).is_active,
            decreases self.capabilities@.len() - i,
        {
            let owner = self.capabilities[i].owner;
            let listed = Self::lists_model(&self.capabilities[i], model_id);
            let active = match self.nodes.get(&owner) {
                Some(n) => n.is_active,
                None => false,
            };
            let ghost old_out = out@;
            if listed && active {
                out.push(owner);
            }
            proof {
                assert forall|a: AccountId| #[trigger]
                    out@.contains(a) <==> (exists|k: int, j: int|
                        0 <= k < i + 1 && self.capabilities@[k].owner == a && 0 <= j
                            < self.capabilities@[k].model_ids@.len()
                            && #[trigger] self.capabilities@[k].model_ids@[j]@ == model_id@)
                        && self.has_node(a) && self.node(a).is_active by {
                    if listed && active {
                        crate::settlement::lemma_push_contains(old_out, owner, a);
                    }
                    if (exists|k: int, j: int|
                        0 <= k < i + 1 && self.capabilities@[k].owner == a && 0 <= j
                            < self.capabilities@[k].model_ids@.len()
                            && #[trigger] self.capabilities@[k].model_ids@[j]@ == model_id@) {
                        let (k, j) = choose|k: int, j: int|
                            0 <= k < i + 1 && self.capabilities@[k].owner == a && 0 <= j
                                < self.capabilities@[k].model_ids@.len()
                                && #[trigger] self.capabilities@[k].model_ids@[j]@ == model_id@;
                        if k == i {
                            assert(listed);
                        }
                    }
                    if a == owner && listed {
                        let j = choose|j: int| 0 <= j < self.capabilities@[i as int].model_ids@.len() && #[trigger] self.capabilities@[i as int].model_ids@[j]@ == model_id@;
                        assert(self.capabilities@[i as int].model_ids@[j]@ == model_id@);
                    }
                }
            }
            i = i + 1;
        }
        out
    }
}

} // verus!
