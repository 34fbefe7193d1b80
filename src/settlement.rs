//! Settlement ledger: replay-protected payment intents from a merchant to a
//! miner, co-signed by a facilitator and settled after a delay.
use std::collections::HashMap;
use vstd::prelude::*;

use crate::codec::{blake2_256, blake2_256_of, h256_eq, h256_from_id, hash_of_id, le_bytes, push_le_bytes, H256};
use crate::ledger::{min_nat, AccountId, Balance, BlockNumber, Ledger};

verus! {

broadcast use vstd::std_specs::hash::group_hash_axioms;

/// Most intents tracked at once for expiry.
pub const MAX_PENDING_INTENTS: usize = 10_000;

/// Length of the digest that opens a valid facilitator signature.
pub const SIGNATURE_DIGEST_LEN: usize = 32;

#[derive(Clone, Copy, Debug, PartialEq, Eq, Structural)]
pub enum PaymentIntentStatus {
    Pending,
    Verified,
    Settled,
    Failed,
}

#[derive(Clone, Debug, PartialEq, Eq)]
pub struct PaymentIntent {
    pub intent_id: u64,
    pub merchant: AccountId,
    pub miner: AccountId,
    pub amount: Balance,
    pub nonce: u64,
    pub replay_fingerprint: H256,
    pub facilitator_signature: Vec<u8>,
    pub status: PaymentIntentStatus,
    pub created_at: BlockNumber,
    pub verified_at: Option<BlockNumber>,
    pub settled_at: Option<BlockNumber>,
    pub expires_at: BlockNumber,
}

#[derive(Clone, Copy, Debug, PartialEq, Eq)]
pub struct SettlementReceipt {
    pub intent_id: u64,
    pub merchant: AccountId,
    pub miner: AccountId,
    pub amount: Balance,
    pub settled_at: u64,
    pub tx_hash: H256,
}

#[derive(Clone, Copy, Debug, PartialEq, Eq, Structural)]
pub struct Config {
    /// The one account that co-signs intents and drives their verification.
    pub facilitator: AccountId,
    pub max_signature_len: u32,
    /// Blocks between verification and the earliest settlement.
    pub settlement_delay: BlockNumber,
    /// Blocks an intent lives after its creation.
    pub payment_intent_ttl: BlockNumber,
}

#[derive(Clone, Copy, Debug, PartialEq, Eq, Structural)]
pub enum Error {
    InvalidNonce,
    ReplayFingerprintUsed,
    InvalidFacilitatorSignature,
    PaymentIntentNotFound,
    InvalidPaymentIntentStatus,
    InsufficientBalance,
    SettlementDelayNotMet,
    NotAuthorized,
    ArithmeticOverflow,
    PaymentIntentExpired,
    /// The list of intents tracked for expiry is full.
    TooManyPendingIntents,
}

pub open spec fn sat_add(a: u64, b: u64) -> u64 {
    if a + b > u64::MAX {
        u64::MAX
    } else {
        (a + b) as u64
    }
}

/// The bytes the facilitator signs for an intent.
pub open spec fn signing_message(
    merchant: AccountId,
    miner: AccountId,
    amount: Balance,
    nonce: u64,
    fingerprint: Seq<u8>,
    facilitator: AccountId,
) -> Seq<u8> {
    le_bytes(merchant as nat, 8) + le_bytes(miner as nat, 8) + le_bytes(amount as nat, 16)
        + le_bytes(nonce as nat, 8) + fingerprint + le_bytes(facilitator as nat, 8)
}

/// A signature is valid when its first 32 bytes are the expected digest.
pub open spec fn signature_opens_with(expected: Seq<u8>, signature: Seq<u8>) -> bool {
    signature.len() >= SIGNATURE_DIGEST_LEN && signature.subrange(0, SIGNATURE_DIGEST_LEN as int)
        == expected
}

/// Whether `signature` begins with the digest `expected`.
pub fn signature_matches(expected: &H256, signature: &Vec<u8>) -> (r: bool)
    ensures
        r == signature_opens_with(expected@, signature@),
{
    if signature.len() < SIGNATURE_DIGEST_LEN {
        return false;
    }
    let mut i: usize = 0;
    while i < SIGNATURE_DIGEST_LEN
        invariant
            i <= SIGNATURE_DIGEST_LEN,
            signature@.len() >= SIGNATURE_DIGEST_LEN,
            expected@.len() == SIGNATURE_DIGEST_LEN,
            forall|j: int| 0 <= j < i ==> signature@[j] == expected@[j],
        decreases SIGNATURE_DIGEST_LEN - i,
    {
        if signature[i] != expected[i] {
            assert(signature@.subrange(0, SIGNATURE_DIGEST_LEN as int)[i as int] != expected@[i as int]);
            return false;
        }
        i = i + 1;
    }
    assert(signature@.subrange(0, SIGNATURE_DIGEST_LEN as int) =~= expected@);
    true
}

pub proof fn lemma_push_contains<T>(s: Seq<T>, v: T, x: T)
    ensures
        s.push(v).contains(x) <==> s.contains(x) || x == v,
{
    if s.push(v).contains(x) {
        let j = choose|j: int| 0 <= j < s.push(v).len() && s.push(v)[j] == x;
        if j < s.len() {
            assert(s[j] == x);
        }
    }
    if s.contains(x) {
        let j = choose|j: int| 0 <= j < s.len() && s[j] == x;
        assert(s.push(v)[j] == x);
    }
    if x == v {
        assert(s.push(v)[s.len() as int] == x);
    }
}

/// Removes every occurrence of `id` from `ids`, keeping the order of the rest.
pub(crate) fn remove_id(ids: &mut Vec<u64>, id: u64)
    ensures
        forall|x: u64| #[trigger] final(ids)@.contains(x) <==> old(ids)@.contains(x) && x != id,
        final(ids)@.len() <= old(ids)@.len(),
{
    let mut kept: Vec<u64> = Vec::new();
    let mut i: usize = 0;
    while i < ids.len()
        invariant
            i <= ids@.len(),
            kept@.len() <= i,
            forall|x: u64| #[trigger]
                kept@.contains(x) <==> ids@.subrange(0, i as int).contains(x) && x != id,
        decreases ids@.len() - i,
    {
        let ghost pre = ids@.subrange(0, i as int);
        let ghost old_kept = kept@;
        assert(ids@.subrange(0, i as int + 1) =~= pre.push(ids@[i as int]));
        let v = ids[i];
        if v != id {
            kept.push(v);
        }
        i = i + 1;
        assert forall|x: u64| #[trigger]
            kept@.contains(x) <==> ids@.subrange(0, i as int).contains(x) && x != id by {
            lemma_push_contains(pre, v, x);
            lemma_push_contains(old_kept, v, x);
        }
    }
    assert(ids@.subrange(0, ids@.len() as int) =~= ids@);
    *ids = kept;
}

/// The identifiers of `ids` that are not in `drop`, in their order.
fn ids_not_in(ids: &Vec<u64>, drop: &Vec<u64>) -> (kept: Vec<u64>)
    ensures
        forall|x: u64| #[trigger] kept@.contains(x) <==> ids@.contains(x) && !drop@.contains(x),
{
    let mut kept: Vec<u64> = Vec::new();
    let mut j: usize = 0;
    while j < ids.len()
        invariant
            j <= ids@.len(),
            forall|x: u64| #[trigger]
                kept@.contains(x) <==> ids@.subrange(0, j as int).contains(x) && !drop@.contains(x),
        decreases ids@.len() - j,
    {
        let id = ids[j];
        let ghost pre = ids@.subrange(0, j as int);
        let ghost old_kept = kept@;
        assert(ids@.subrange(0, j as int + 1) =~= pre.push(id));
        let mut hit = false;
        let mut k: usize = 0;
        while k < drop.len()
            invariant
                k <= drop@.len(),
                hit <==> drop@.subrange(0, k as int).contains(id),
            decreases drop@.len() - k,
        {
            proof {
                lemma_push_contains(drop@.subrange(0, k as int), drop@[k as int], id);
                assert(drop@.subrange(0, k as int + 1) =~= drop@.subrange(0, k as int).push(
                    drop@[k as int],
                ));
            }
            if drop[k] == id {
                hit = true;
            }
            k = k + 1;
        }
        assert(drop@.subrange(0, k as int) =~= drop@);
        if !hit {
            kept.push(id);
        }
        j = j + 1;
        assert forall|x: u64| #[trigger]
            kept@.contains(x) <==> ids@.subrange(0, j as int).contains(x) && !drop@.contains(x) by {
            lemma_push_contains(pre, id, x);
            lemma_push_contains(old_kept, id, x);
        }
    }
    assert(ids@.subrange(0, j as int) =~= ids@);
    kept
}

pub struct Pallet {
    pub config: Config,
    pub next_intent_id: u64,
    pub intents: HashMap<u64, PaymentIntent>,
    pub receipts: HashMap<u64, SettlementReceipt>,
    pub used_nonces: Vec<(AccountId, u64)>,
    pub used_fingerprints: Vec<H256>,
    pub pending_intent_ids: Vec<u64>,
}

/// What entry `id` of an intent map keeps reserved from account `a`: the
/// amount of an open (pending or verified) intent of which `a` is the
/// merchant.
pub open spec fn held_at(m: Map<u64, PaymentIntent>, id: u64, a: AccountId) -> nat {
    if m.contains_key(id) && m[id].merchant == a && (m[id].status == PaymentIntentStatus::Pending
        || m[id].status == PaymentIntentStatus::Verified) {
        m[id].amount as nat
    } else {
        0
    }
}

/// What the intents with identifiers below `n` keep reserved from `a`.
pub open spec fn held_upto(m: Map<u64, PaymentIntent>, a: AccountId, n: nat) -> nat
    decreases n,
{
    if n == 0 {
        0
    } else {
        held_upto(m, a, (n - 1) as nat) + held_at(m, (n - 1) as u64, a)
    }
}

proof fn lemma_held_change(
    m1: Map<u64, PaymentIntent>,
    m2: Map<u64, PaymentIntent>,
    k: u64,
    a: AccountId,
    n: nat,
)
    requires
        n <= u64::MAX,
        forall|id: u64| id != k ==> #[trigger] held_at(m1, id, a) == held_at(m2, id, a),
    ensures
        k < n ==> held_upto(m2, a, n) + held_at(m1, k, a) == held_upto(m1, a, n) + held_at(m2, k, a),
        k >= n ==> held_upto(m2, a, n) == held_upto(m1, a, n),
        k < n ==> held_upto(m1, a, n) >= held_at(m1, k, a),
    decreases n,
{
    if n > 0 {
        lemma_held_change(m1, m2, k, a, (n - 1) as nat);
        let last = (n - 1) as u64;
        if last != k {
            assert(held_at(m1, last, a) == held_at(m2, last, a));
        }
    }
}

/// The transitions an intent's status may take.
pub open spec fn intent_step_ok(from: PaymentIntentStatus, to: PaymentIntentStatus) -> bool {
    from == to || (from == PaymentIntentStatus::Pending && to == PaymentIntentStatus::Verified) || (
    from == PaymentIntentStatus::Verified && to == PaymentIntentStatus::Settled) || (from
        == PaymentIntentStatus::Pending && to == PaymentIntentStatus::Failed) || (from
        == PaymentIntentStatus::Verified && to == PaymentIntentStatus::Failed)
}

impl Pallet {
    pub open spec fn nonce_used(self, merchant: AccountId, nonce: u64) -> bool {
        self.used_nonces@.contains((merchant, nonce))
    }

    pub open spec fn fingerprint_used(self, fingerprint: Seq<u8>) -> bool {
        exists|i: int| 0 <= i < self.used_fingerprints@.len() && #[trigger] self.used_fingerprints@[i]@ == fingerprint
    }

    pub open spec fn intent(self, id: u64) -> PaymentIntent {
        self.intents@[id]
    }

    pub open spec fn has_intent(self, id: u64) -> bool {
        self.intents@.contains_key(id)
    }

    pub open spec fn has_receipt(self, id: u64) -> bool {
        self.receipts@.contains_key(id)
    }

    /// The amounts this ledger keeps reserved from `a`: those of `a`'s open
    /// intents.
    pub open spec fn held_by(self, a: AccountId) -> nat {
        held_upto(self.intents@, a, self.next_intent_id as nat)
    }

    /// The ledger's part of the reservation accounting: for every account
    /// whose reserved balance covers what this ledger holds from it, the
    /// reserved balance moves exactly as the held amounts do.
    pub open spec fn accounting_kept(self, new: Pallet, ledger: Ledger, new_ledger: Ledger) -> bool {
        forall|a: AccountId|
            ledger.reserved_of(a) >= #[trigger] self.held_by(a) ==> new_ledger.reserved_of(a) as int
                - new.held_by(a) == ledger.reserved_of(a) as int - self.held_by(a)
    }

    /// Replacing intent `k` (below the counter) changes what is held by what
    /// it held before and after.
    proof fn lemma_held_replaced(self, new: Pallet, k: u64)
        requires
            new.next_intent_id == self.next_intent_id,
            k < self.next_intent_id,
            new.intents@ == self.intents@.insert(k, new.intents@[k]),
        ensures
            forall|a: AccountId| #[trigger] new.held_by(a) + held_at(self.intents@, k, a)
                == self.held_by(a) + held_at(new.intents@, k, a),
            forall|a: AccountId| #[trigger] self.held_by(a) >= held_at(self.intents@, k, a),
    {
        assert forall|a: AccountId| #[trigger] new.held_by(a) + held_at(self.intents@, k, a)
            == self.held_by(a) + held_at(new.intents@, k, a) && self.held_by(a) >= held_at(self.intents@, k, a) by {
            assert forall|id: u64| id != k implies #[trigger] held_at(self.intents@, id, a) == held_at(new.intents@, id, a) by {
                assert(new.intents@.contains_key(id) == self.intents@.contains_key(id));
                if self.intents@.contains_key(id) {
                    assert(new.intents@[id] == self.intents@[id]);
                }
            }
            lemma_held_change(self.intents@, new.intents@, k, a, self.next_intent_id as nat);
        }
        assert forall|a: AccountId| #[trigger] self.held_by(a) >= held_at(self.intents@, k, a) by {
            assert(new.held_by(a) + held_at(self.intents@, k, a) == self.held_by(a) + held_at(new.intents@, k, a)
                && self.held_by(a) >= held_at(self.intents@, k, a));
        }
    }

    /// Storing a new intent under the counter, which then moves on, adds
    /// what that intent holds.
    proof fn lemma_held_appended(self, new: Pallet)
        requires
            self.wf(),
            self.next_intent_id < u64::MAX,
            new.next_intent_id == self.next_intent_id + 1,
            new.intents@ == self.intents@.insert(self.next_intent_id, new.intents@[self.next_intent_id])
                || new.intents@ == self.intents@,
        ensures
            forall|a: AccountId| #[trigger] new.held_by(a) == self.held_by(a) + held_at(new.intents@, self.next_intent_id, a),
    {
        let k = self.next_intent_id;
        assert forall|a: AccountId| #[trigger] new.held_by(a) == self.held_by(a) + held_at(new.intents@, k, a) by {
            assert forall|id: u64| id != k implies #[trigger] held_at(self.intents@, id, a) == held_at(new.intents@, id, a) by {
                assert(new.intents@.contains_key(id) == self.intents@.contains_key(id));
                if self.intents@.contains_key(id) {
                    assert(new.intents@[id] == self.intents@[id]);
                }
            }
            lemma_held_change(self.intents@, new.intents@, k, a, k as nat);
            if self.intents@.contains_key(k) {
                assert(self.has_intent(k));
            }
            assert(held_at(self.intents@, k, a) == 0);
        }
    }

    /// Identifiers below the counter are the only ones in use; each intent is
    /// stored under its own identifier; an intent has a receipt exactly when
    /// it is settled.
    pub open spec fn wf(self) -> bool {
        &&& forall|id: u64| #[trigger] self.has_intent(id) ==> id < self.next_intent_id
        &&& forall|id: u64| #[trigger] self.has_receipt(id) ==> id < self.next_intent_id
        &&& forall|id: u64| #[trigger]
            self.has_intent(id) ==> self.intent(id).intent_id == id && (self.has_receipt(id)
                <==> self.intent(id).status == PaymentIntentStatus::Settled)
    }

    /// What every action keeps: the counter never goes back, no intent or
    /// receipt disappears, each intent's status moves along the machine, a
    /// receipt never changes, and used nonces and fingerprints stay used.
    pub open spec fn evolves_to(self, new: Pallet) -> bool {
        &&& new.config == self.config
        &&& self.next_intent_id <= new.next_intent_id
        &&& forall|id: u64| #[trigger]
            self.has_intent(id) ==> new.has_intent(id) && intent_step_ok(
                self.intent(id).status,
                new.intent(id).status,
            )
        &&& forall|id: u64| #[trigger]
            self.has_receipt(id) ==> new.has_receipt(id) && new.receipts@[id] == self.receipts@[id]
        &&& forall|m: AccountId, n: u64| #[trigger]
            self.nonce_used(m, n) ==> new.nonce_used(m, n)
        &&& forall|fp: Seq<u8>| #[trigger] self.fingerprint_used(fp) ==> new.fingerprint_used(fp)
    }

    pub fn new(config: Config) -> (r: Pallet)
        ensures
            r.wf(),
            r.config == config,
            r.next_intent_id == 0,
            forall|id: u64| !r.has_intent(id) && !r.has_receipt(id),
            forall|m: AccountId, n: u64| !r.nonce_used(m, n),
            forall|fp: Seq<u8>| !r.fingerprint_used(fp),
    {
        Pallet {
            config,
            next_intent_id: 0,
            intents: HashMap::new(),
            receipts: HashMap::new(),
            used_nonces: Vec::new(),
            used_fingerprints: Vec::new(),
            pending_intent_ids: Vec::new(),
        }
    }

    pub fn is_nonce_used(&self, account: AccountId, nonce: u64) -> (r: bool)
        ensures
            r == self.nonce_used(account, nonce),
    {
        let mut i: usize = 0;
        while i < self.used_nonces.len()
            invariant
                i <= self.used_nonces@.len(),
                forall|j: int| 0 <= j < i ==> self.used_nonces@[j] != (account, nonce),
            decreases self.used_nonces@.len() - i,
        {
            let (m, n) = self.used_nonces[i];
            if m == account && n == nonce {
                assert(self.used_nonces@[i as int] == (account, nonce));
                return true;
            }
            i = i + 1;
        }
        false
    }

    pub fn is_replay_fingerprint_used(&self, fingerprint: &H256) -> (r: bool)
        ensures
            r == self.fingerprint_used(fingerprint@),
    {
        let mut i: usize = 0;
        while i < self.used_fingerprints.len()
            invariant
                i <= self.used_fingerprints@.len(),
                forall|j: int| 0 <= j < i ==> self.used_fingerprints@[j]@ != fingerprint@,
            decreases self.used_fingerprints@.len() - i,
        {
            if h256_eq(&self.used_fingerprints[i], fingerprint) {
                return true;
            }
            i = i + 1;
        }
        false
    }

    pub fn get_payment_intent(&self, intent_id: u64) -> (r: Option<&PaymentIntent>)
        ensures
            match r {
                Some(i) => self.has_intent(intent_id) && *i == self.intent(intent_id),
                None => !self.has_intent(intent_id),
            },
    {
        self.intents.get(&intent_id)
    }

    pub fn get_settlement_receipt(&self, intent_id: u64) -> (r: Option<SettlementReceipt>)
        ensures
            match r {
                Some(rc) => self.has_receipt(intent_id) && rc == self.receipts@[intent_id],
                None => !self.has_receipt(intent_id),
            },
    {
        match self.receipts.get(&intent_id) {
            Some(rc) => Some(*rc),
            None => None,
        }
    }

    /// The message the facilitator signs for these intent parameters.
    pub fn build_signing_message(
        &self,
        merchant: AccountId,
        miner: AccountId,
        amount: Balance,
        nonce: u64,
        replay_fingerprint: &H256,
    ) -> (r: Vec<u8>)
        ensures
            r@ == signing_message(
                merchant,
                miner,
                amount,
                nonce,
                replay_fingerprint@,
                self.config.facilitator,
            ),
    {
        let mut message: Vec<u8> = Vec::new();
        push_le_bytes(&mut message, merchant as u128, 8);
        push_le_bytes(&mut message, miner as u128, 8);
        push_le_bytes(&mut message, amount, 16);
        push_le_bytes(&mut message, nonce as u128, 8);
        let mut i: usize = 0;
        let ghost start = message@;
        while i < 32
            invariant
                i <= 32,
                replay_fingerprint@.len() == 32,
                message@ == start + replay_fingerprint@.subrange(0, i as int),
            decreases 32 - i,
        {
            message.push(replay_fingerprint[i]);
            i = i + 1;
            assert(message@ =~= start + replay_fingerprint@.subrange(0, i as int));
        }
        assert(replay_fingerprint@.subrange(0, 32) =~= replay_fingerprint@);
        push_le_bytes(&mut message, self.config.facilitator as u128, 8);
        message
    }

    /// Checks a facilitator signature: its first 32 bytes must be the BLAKE2b
    /// digest of the signing message.
    pub fn verify_facilitator_signature(
        &self,
        merchant: AccountId,
        miner: AccountId,
        amount: Balance,
        nonce: u64,
        replay_fingerprint: &H256,
        signature: &Vec<u8>,
    ) -> (r: bool)
        ensures
            r == signature_opens_with(
                blake2_256_of(
                    signing_message(
                        merchant,
                        miner,
                        amount,
                        nonce,
                        replay_fingerprint@,
                        self.config.facilitator,
                    ),
                ),
                signature@,
            ),
    {
        let message = self.build_signing_message(merchant, miner, amount, nonce, replay_fingerprint);
        let expected = blake2_256(&message);
        signature_matches(&expected, signature)
    }

    /// The error `submit_payment_intent` fails with on these inputs, if any,
    /// in the order the checks are made.
    pub open spec fn submit_error(
        self,
        ledger: Ledger,
        merchant: AccountId,
        miner: AccountId,
        amount: Balance,
        nonce: u64,
        fingerprint: Seq<u8>,
        signature: Seq<u8>,
    ) -> Option<Error> {
        if self.nonce_used(merchant, nonce) {
            Some(Error::InvalidNonce)
        } else if self.fingerprint_used(fingerprint) {
            Some(Error::ReplayFingerprintUsed)
        } else if signature.len() > self.config.max_signature_len {
            Some(Error::ArithmeticOverflow)
        } else if !signature_opens_with(
            blake2_256_of(
                signing_message(merchant, miner, amount, nonce, fingerprint, self.config.facilitator),
            ),
            signature,
        ) {
            Some(Error::InvalidFacilitatorSignature)
        } else if ledger.free_of(merchant) < amount {
            Some(Error::InsufficientBalance)
        } else if self.next_intent_id == u64::MAX {
            Some(Error::ArithmeticOverflow)
        } else if self.pending_intent_ids@.len() >= MAX_PENDING_INTENTS {
            Some(Error::TooManyPendingIntents)
        } else {
            None
        }
    }

    proof fn lemma_marks_pushed(self, new: Pallet, m: AccountId, n: u64, fp: H256)
        requires
            new.used_nonces@ == self.used_nonces@.push((m, n)),
            new.used_fingerprints@ == self.used_fingerprints@.push(fp),
        ensures
            forall|a: AccountId, b: u64| #[trigger] self.nonce_used(a, b) ==> new.nonce_used(a, b),
            forall|f: Seq<u8>| #[trigger] self.fingerprint_used(f) ==> new.fingerprint_used(f),
            new.nonce_used(m, n),
            new.fingerprint_used(fp@),
    {
        assert forall|a: AccountId, b: u64| #[trigger] self.nonce_used(a, b) implies new.nonce_used(
            a,
            b,
        ) by {
            lemma_push_contains(self.used_nonces@, (m, n), (a, b));
        }
        assert forall|f: Seq<u8>| #[trigger] self.fingerprint_used(f) implies new.fingerprint_used(
            f,
        ) by {
            let i = choose|i: int|
                0 <= i < self.used_fingerprints@.len() && #[trigger] self.used_fingerprints@[i]@
                    == f;
            assert(new.used_fingerprints@[i] == self.used_fingerprints@[i]);
        }
        lemma_push_contains(self.used_nonces@, (m, n), (m, n));
        let last = self.used_fingerprints@.len() as int;
        assert(new.used_fingerprints@[last]@ == fp@);
    }

    /// What `submit_payment_intent` does: it fails as `submit_error` says,
    /// changing nothing, or records a pending intent under the next
    /// identifier, marks its nonce and fingerprint used and reserves its
    /// amount from the merchant.
    pub open spec fn submit_post(
        self,
        new: Pallet,
        ledger: Ledger,
        new_ledger: Ledger,
        merchant: AccountId,
        miner: AccountId,
        amount: Balance,
        nonce: u64,
        replay_fingerprint: H256,
        facilitator_signature: Vec<u8>,
        now: BlockNumber,
        r: Result<u64, Error>,
    ) -> bool {
        match self.submit_error(
            ledger,
            merchant,
            miner,
            amount,
            nonce,
            replay_fingerprint@,
            facilitator_signature@,
        ) {
            Some(e) => r == Err::<u64, Error>(e) && new == self
                && new_ledger == ledger,
            None => {
                let id = self.next_intent_id;
                &&& r == Ok::<u64, Error>(id)
                &&& new.next_intent_id == id + 1
                &&& new.intents@ == self.intents@.insert(
                    id,
                    PaymentIntent {
                        intent_id: id,
                        merchant,
                        miner,
                        amount,
                        nonce,
                        replay_fingerprint,
                        facilitator_signature,
                        status: PaymentIntentStatus::Pending,
                        created_at: now,
                        verified_at: None,
                        settled_at: None,
                        expires_at: sat_add(now, self.config.payment_intent_ttl),
                    },
                )
                &&& new.receipts@ == self.receipts@
                &&& new.pending_intent_ids@ == self.pending_intent_ids@.push(id)
                &&& new.nonce_used(merchant, nonce)
                &&& new.fingerprint_used(replay_fingerprint@)
                &&& new_ledger.free_of(merchant) == ledger.free_of(merchant) - amount
                &&& new_ledger.reserved_of(merchant) == ledger.reserved_of(merchant)
                    + amount
                &&& ledger.others_unchanged(new_ledger, merchant, merchant)
            },
        }
    }

    /// Records a payment intent from the caller (the merchant) to `miner`,
    /// reserving `amount` from the merchant until the intent settles or fails.
    pub fn submit_payment_intent(
        &mut self,
        ledger: &mut Ledger,
        merchant: AccountId,
        miner: AccountId,
        amount: Balance,
        nonce: u64,
        replay_fingerprint: H256,
        facilitator_signature: Vec<u8>,
        now: BlockNumber,
    ) -> (r: Result<u64, Error>)
        requires
            old(self).wf(),
            old(ledger).wf(),
        ensures
            final(self).wf(),
            final(ledger).wf(),
            old(self).evolves_to(*final(self)),
            old(self).accounting_kept(*final(self), *old(ledger), *final(ledger)),
            old(self).submit_post(
                *final(self),
                *old(ledger),
                *final(ledger),
                merchant,
                miner,
                amount,
                nonce,
                replay_fingerprint,
                facilitator_signature,
                now,
                r,
            ),
    {
        if self.is_nonce_used(merchant, nonce) {
            return Err(Error::InvalidNonce);
        }
        if self.is_replay_fingerprint_used(&replay_fingerprint) {
            return Err(Error::ReplayFingerprintUsed);
        }
        if facilitator_signature.len() > self.config.max_signature_len as usize {
            return Err(Error::ArithmeticOverflow);
        }
        if !self.verify_facilitator_signature(
            merchant,
            miner,
            amount,
            nonce,
            &replay_fingerprint,
            &facilitator_signature,
        ) {
            return Err(Error::InvalidFacilitatorSignature);
        }
        if ledger.free_balance(merchant) < amount {
            return Err(Error::InsufficientBalance);
        }
        if self.next_intent_id == u64::MAX {
            return Err(Error::ArithmeticOverflow);
        }
        if self.pending_intent_ids.len() >= MAX_PENDING_INTENTS {
            return Err(Error::TooManyPendingIntents);
        }
        let _ = ledger.reserve(merchant, amount);
        let ghost old_self = *self;
        let intent_id = self.next_intent_id;
        self.next_intent_id = intent_id + 1;
        self.used_nonces.push((merchant, nonce));
        self.used_fingerprints.push(replay_fingerprint);
        self.pending_intent_ids.push(intent_id);
        let expires_at = now.saturating_add(self.config.payment_intent_ttl);
        self.intents.insert(
            intent_id,
            PaymentIntent {
                intent_id,
                merchant,
                miner,
                amount,
                nonce,
                replay_fingerprint,
                facilitator_signature,
                status: PaymentIntentStatus::Pending,
                created_at: now,
                verified_at: None,
                settled_at: None,
                expires_at,
            },
        );
        proof {
            old_self.lemma_marks_pushed(*self, merchant, nonce, replay_fingerprint);
            assert(!old_self.has_receipt(intent_id));
            assert(!old_self.has_intent(intent_id));
            assert forall|k: u64| #[trigger] self.has_intent(k) implies k < self.next_intent_id
                && self.intent(k).intent_id == k && (self.has_receipt(k) <==> self.intent(k).status
                == PaymentIntentStatus::Settled) by {
                if k != intent_id {
                    assert(old_self.has_intent(k));
                }
            }
            assert forall|k: u64| #[trigger] self.has_receipt(k) implies k < self.next_intent_id by {
                assert(old_self.has_receipt(k));
            }
            old_self.lemma_held_appended(*self);
            assert forall|a: AccountId|
                old(ledger).reserved_of(a) >= #[trigger] old(self).held_by(a) implies ledger.reserved_of(a) as int
                    - self.held_by(a) == old(ledger).reserved_of(a) as int - old(self).held_by(a) by {
                if a != merchant {
                    assert(ledger.account(a) == old(ledger).account(a));
                }
            }
        }
        Ok(intent_id)
    }

    /// Replacing one stored intent, along a step of the machine and with its
    /// receipt present exactly when it is settled, keeps the ledger
    /// well-formed and is an evolution of it.
    proof fn lemma_intent_replaced(self, new: Pallet, id: u64)
        requires
            self.wf(),
            self.has_intent(id),
            new.config == self.config,
            new.next_intent_id == self.next_intent_id,
            new.used_nonces == self.used_nonces,
            new.used_fingerprints == self.used_fingerprints,
            new.intents@ == self.intents@.insert(id, new.intent(id)),
            new.intent(id).intent_id == id,
            intent_step_ok(self.intent(id).status, new.intent(id).status),
            forall|k: u64|
                k != id ==> (#[trigger] new.has_receipt(k) == self.has_receipt(k) && (
                self.has_receipt(k) ==> new.receipts@[k] == self.receipts@[k])),
            self.has_receipt(id) ==> new.receipts@[id] == self.receipts@[id],
            new.has_receipt(id) <==> new.intent(id).status == PaymentIntentStatus::Settled,
        ensures
            new.wf(),
            self.evolves_to(new),
    {
        assert(new.has_intent(id));
        assert forall|k: u64| #[trigger] new.has_intent(k) implies k < new.next_intent_id && new.intent(k).intent_id == k && (
        new.has_receipt(k) <==> new.intent(k).status == PaymentIntentStatus::Settled) by {
            if k != id {
                assert(self.has_intent(k));
            }
        }
        assert forall|k: u64| #[trigger] new.has_receipt(k) implies k < new.next_intent_id by {
            if k != id {
                assert(self.has_receipt(k));
            }
        }
        assert forall|k: u64| #[trigger] self.has_receipt(k) implies new.has_receipt(k)
            && new.receipts@[k] == self.receipts@[k] by {
            if k == id {
                assert(self.has_intent(id));
                assert(self.intent(id).status == PaymentIntentStatus::Settled);
                assert(new.intent(id).status == PaymentIntentStatus::Settled);
            } else {
                assert(new.has_receipt(k) == self.has_receipt(k));
            }
        }
    }

    /// Two ledgers that hold the same intents, receipts and counter are
    /// equally well-formed.
    proof fn lemma_same_records(self, new: Pallet)
        requires
            self.wf(),
            new.intents == self.intents,
            new.receipts == self.receipts,
            new.next_intent_id == self.next_intent_id,
        ensures
            new.wf(),
            forall|id: u64| #[trigger] new.has_intent(id) == self.has_intent(id),
    {
        assert forall|k: u64| #[trigger] new.has_intent(k) implies k < new.next_intent_id
            && new.intent(k).intent_id == k && (new.has_receipt(k) <==> new.intent(k).status
            == PaymentIntentStatus::Settled) by {
            assert(self.has_intent(k));
        }
        assert forall|k: u64| #[trigger] new.has_receipt(k) implies k < new.next_intent_id by {
            assert(self.has_receipt(k));
        }
    }

    /// Moves the stored intent `id` out of the map, to be put back.
    fn take_intent(&mut self, id: u64) -> (r: PaymentIntent)
        requires
            old(self).has_intent(id),
        ensures
            r == old(self).intent(id),
            final(self).intents@ == old(self).intents@.remove(id),
            final(self).config == old(self).config,
            final(self).next_intent_id == old(self).next_intent_id,
            final(self).receipts == old(self).receipts,
            final(self).used_nonces == old(self).used_nonces,
            final(self).used_fingerprints == old(self).used_fingerprints,
            final(self).pending_intent_ids == old(self).pending_intent_ids,
    {
        self.intents.remove(&id).unwrap()
    }

    /// The facilitator marks a pending, unexpired intent as verified.
    pub fn verify_settlement(&mut self, caller: AccountId, intent_id: u64, now: BlockNumber) -> (r:
        Result<(), Error>)
        requires
            old(self).wf(),
        ensures
            final(self).wf(),
            old(self).evolves_to(*final(self)),
            forall|a: AccountId| #[trigger] final(self).held_by(a) == old(self).held_by(a),
            r == (if caller != old(self).config.facilitator {
                Err(Error::NotAuthorized)
            } else if !old(self).has_intent(intent_id) {
                Err(Error::PaymentIntentNotFound)
            } else if old(self).intent(intent_id).status != PaymentIntentStatus::Pending {
                Err(Error::InvalidPaymentIntentStatus)
            } else if now >= old(self).intent(intent_id).expires_at {
                Err(Error::PaymentIntentExpired)
            } else {
                Ok(())
            }),
            r is Err ==> *final(self) == *old(self),
            r is Ok ==> final(self).intents@ == old(self).intents@.insert(
                intent_id,
                PaymentIntent {
                    status: PaymentIntentStatus::Verified,
                    verified_at: Some(now),
                    ..old(self).intent(intent_id)
                },
            ),
            r is Ok ==> final(self).receipts == old(self).receipts,
            r is Ok ==> !final(self).pending_intent_ids@.contains(intent_id),
    {
        if caller != self.config.facilitator {
            return Err(Error::NotAuthorized);
        }
        let (status, expires_at) = match self.intents.get(&intent_id) {
            Some(i) => (i.status, i.expires_at),
            None => return Err(Error::PaymentIntentNotFound),
        };
        if status != PaymentIntentStatus::Pending {
            return Err(Error::InvalidPaymentIntentStatus);
        }
        if now >= expires_at {
            return Err(Error::PaymentIntentExpired);
        }
        let ghost old_self = *self;
        let mut intent = self.take_intent(intent_id);
        intent.status = PaymentIntentStatus::Verified;
        intent.verified_at = Some(now);
        self.intents.insert(intent_id, intent);
        remove_id(&mut self.pending_intent_ids, intent_id);
        proof {
            assert(old_self.has_intent(intent_id));
            assert(self.intents@ =~= old_self.intents@.insert(intent_id, self.intent(intent_id)));
            old_self.lemma_intent_replaced(*self, intent_id);
            old_self.lemma_held_replaced(*self, intent_id);
        }
        Ok(())
    }

    /// The error `finalize_settlement` fails with, if any.
    pub open spec fn finalize_error(self, caller: AccountId, id: u64, now: BlockNumber) -> Option<
        Error,
    > {
        let i = self.intent(id);
        if !self.has_intent(id) {
            Some(Error::PaymentIntentNotFound)
        } else if i.status != PaymentIntentStatus::Verified {
            Some(Error::InvalidPaymentIntentStatus)
        } else if now >= i.expires_at {
            Some(Error::PaymentIntentExpired)
        } else if caller != i.merchant && caller != i.miner && caller != self.config.facilitator {
            Some(Error::NotAuthorized)
        } else if i.verified_at is None {
            Some(Error::InvalidPaymentIntentStatus)
        } else if now < sat_add(i.verified_at.unwrap(), self.config.settlement_delay) {
            Some(Error::SettlementDelayNotMet)
        } else {
            None
        }
    }

    /// Settles a verified intent once the settlement delay has passed: the
    /// amount moves from the merchant's reserved balance to the miner's free
    /// balance and a receipt is written.
    pub fn finalize_settlement(
        &mut self,
        ledger: &mut Ledger,
        caller: AccountId,
        intent_id: u64,
        now: BlockNumber,
    ) -> (r: Result<(), Error>)
        requires
            old(self).wf(),
            old(ledger).wf(),
        ensures
            final(self).wf(),
            final(ledger).wf(),
            old(self).evolves_to(*final(self)),
            (r is Err || old(self).intent(intent_id).merchant == old(self).intent(intent_id).miner
                || old(ledger).total_of(old(self).intent(intent_id).miner) + old(self).intent(intent_id).amount
                <= u128::MAX) ==> old(self).accounting_kept(*final(self), *old(ledger), *final(ledger)),
            match old(self).finalize_error(caller, intent_id, now) {
                Some(e) => r == Err::<(), Error>(e) && *final(self) == *old(self)
                    && *final(ledger) == *old(ledger),
                None => {
                    let i = old(self).intent(intent_id);
                    &&& r is Ok
                    &&& final(self).intents@ == old(self).intents@.insert(
                        intent_id,
                        PaymentIntent {
                            status: PaymentIntentStatus::Settled,
                            settled_at: Some(now),
                            ..i
                        },
                    )
                    &&& final(self).receipts@ == old(self).receipts@.insert(
                        intent_id,
                        SettlementReceipt {
                            intent_id,
                            merchant: i.merchant,
                            miner: i.miner,
                            amount: i.amount,
                            settled_at: now,
                            tx_hash: final(self).receipts@[intent_id].tx_hash,
                        },
                    )
                    &&& final(self).receipts@[intent_id].tx_hash@ == hash_of_id(intent_id)
                    &&& i.merchant != i.miner ==> final(ledger).reserved_of(i.merchant)
                        == old(ledger).reserved_of(i.merchant) - min_nat(
                        min_nat(i.amount as nat, old(ledger).reserved_of(i.merchant)),
                        (u128::MAX - old(ledger).total_of(i.miner)) as nat,
                    )
                    &&& i.merchant != i.miner ==> final(ledger).free_of(i.miner)
                        == old(ledger).free_of(i.miner) + min_nat(
                        min_nat(i.amount as nat, old(ledger).reserved_of(i.merchant)),
                        (u128::MAX - old(ledger).total_of(i.miner)) as nat,
                    )
                    &&& old(ledger).others_unchanged(*final(ledger), i.merchant, i.miner)
                },
            },
    {
        let (status, expires_at, merchant, miner, amount, verified_at) = match self.intents.get(
            &intent_id,
        ) {
            Some(i) => (i.status, i.expires_at, i.merchant, i.miner, i.amount, i.verified_at),
            None => return Err(Error::PaymentIntentNotFound),
        };
        if status != PaymentIntentStatus::Verified {
            return Err(Error::InvalidPaymentIntentStatus);
        }
        if now >= expires_at {
            return Err(Error::PaymentIntentExpired);
        }
        if caller != merchant && caller != miner && caller != self.config.facilitator {
            return Err(Error::NotAuthorized);
        }
        let verified_at = match verified_at {
            Some(v) => v,
            None => return Err(Error::InvalidPaymentIntentStatus),
        };
        if now < verified_at.saturating_add(self.config.settlement_delay) {
            return Err(Error::SettlementDelayNotMet);
        }
        let _ = ledger.repatriate_reserved(merchant, miner, amount);
        let ghost old_self = *self;
        let mut intent = self.take_intent(intent_id);
        intent.status = PaymentIntentStatus::Settled;
        intent.settled_at = Some(now);
        self.intents.insert(intent_id, intent);
        let receipt = SettlementReceipt {
            intent_id,
            merchant,
            miner,
            amount,
            settled_at: now,
            tx_hash: h256_from_id(intent_id),
        };
        self.receipts.insert(intent_id, receipt);
        proof {
            assert(old_self.has_intent(intent_id));
            assert(self.intents@ =~= old_self.intents@.insert(intent_id, self.intent(intent_id)));
            old_self.lemma_intent_replaced(*self, intent_id);
            old_self.lemma_held_replaced(*self, intent_id);
            assert(held_at(old_self.intents@, intent_id, merchant) == amount);
            assert(held_at(self.intents@, intent_id, merchant) == 0);
            assert forall|a: AccountId|
                #![trigger old(self).held_by(a)]
                (merchant == miner || old(ledger).total_of(miner) + amount <= u128::MAX)
                    && old(ledger).reserved_of(a) >= old(self).held_by(a) implies ledger.reserved_of(a) as int
                    - self.held_by(a) == old(ledger).reserved_of(a) as int - old(self).held_by(a) by {
                assert(self.held_by(a) + held_at(old_self.intents@, intent_id, a) == old_self.held_by(a)
                    + held_at(self.intents@, intent_id, a));
                if a != merchant {
                    assert(held_at(old_self.intents@, intent_id, a) == 0);
                }
            }
        }
        Ok(())
    }

    /// What `fail_payment_intent` does: only the facilitator may fail a
    /// pending or verified intent; its amount returns to the merchant.
    pub open spec fn fail_post(
        self,
        new: Pallet,
        ledger: Ledger,
        new_ledger: Ledger,
        caller: AccountId,
        intent_id: u64,
        r: Result<(), Error>,
    ) -> bool {
        &&& r == (if caller != self.config.facilitator {
            Err(Error::NotAuthorized)
        } else if !self.has_intent(intent_id) {
            Err(Error::PaymentIntentNotFound)
        } else if self.intent(intent_id).status != PaymentIntentStatus::Pending
            && self.intent(intent_id).status != PaymentIntentStatus::Verified {
            Err(Error::InvalidPaymentIntentStatus)
        } else {
            Ok(())
        })
        &&& r is Err ==> new == self && new_ledger == ledger
        &&& r is Ok ==> {
            let i = self.intent(intent_id);
            &&& new.intents@ == self.intents@.insert(
                intent_id,
                PaymentIntent { status: PaymentIntentStatus::Failed, ..i },
            )
            &&& new.receipts == self.receipts
            &&& new.used_nonces == self.used_nonces
            &&& new.used_fingerprints == self.used_fingerprints
            &&& !new.pending_intent_ids@.contains(intent_id)
            &&& new_ledger.free_of(i.merchant) == ledger.free_of(i.merchant) + min_nat(
                i.amount as nat,
                ledger.reserved_of(i.merchant),
            )
            &&& new_ledger.reserved_of(i.merchant) == ledger.reserved_of(i.merchant)
                - min_nat(i.amount as nat, ledger.reserved_of(i.merchant))
            &&& ledger.others_unchanged(new_ledger, i.merchant, i.merchant)
        }
    }

    /// The facilitator fails a pending or verified intent; the amount returns
    /// to the merchant's free balance.
    pub fn fail_payment_intent(
        &mut self,
        ledger: &mut Ledger,
        caller: AccountId,
        intent_id: u64,
    ) -> (r: Result<(), Error>)
        requires
            old(self).wf(),
            old(ledger).wf(),
        ensures
            final(self).wf(),
            final(ledger).wf(),
            old(self).evolves_to(*final(self)),
            old(self).accounting_kept(*final(self), *old(ledger), *final(ledger)),
            old(self).fail_post(*final(self), *old(ledger), *final(ledger), caller, intent_id, r),
    {
        if caller != self.config.facilitator {
            return Err(Error::NotAuthorized);
        }
        let (status, merchant, amount) = match self.intents.get(&intent_id) {
            Some(i) => (i.status, i.merchant, i.amount),
            None => return Err(Error::PaymentIntentNotFound),
        };
        if status != PaymentIntentStatus::Pending && status != PaymentIntentStatus::Verified {
            return Err(Error::InvalidPaymentIntentStatus);
        }
        let _ = ledger.unreserve(merchant, amount);
        let ghost old_self = *self;
        let mut intent = self.take_intent(intent_id);
        intent.status = PaymentIntentStatus::Failed;
        self.intents.insert(intent_id, intent);
        remove_id(&mut self.pending_intent_ids, intent_id);
        proof {
            assert(old_self.has_intent(intent_id));
            assert(self.intents@ =~= old_self.intents@.insert(intent_id, self.intent(intent_id)));
            old_self.lemma_intent_replaced(*self, intent_id);
            old_self.lemma_held_replaced(*self, intent_id);
            assert(held_at(old_self.intents@, intent_id, merchant) == amount);
            assert(held_at(self.intents@, intent_id, merchant) == 0);
            assert forall|a: AccountId|
                old(ledger).reserved_of(a) >= #[trigger] old(self).held_by(a) implies ledger.reserved_of(a) as int
                    - self.held_by(a) == old(ledger).reserved_of(a) as int - old(self).held_by(a) by {
                assert(self.held_by(a) + held_at(old_self.intents@, intent_id, a) == old_self.held_by(a)
                    + held_at(self.intents@, intent_id, a));
                if a != merchant {
                    assert(held_at(old_self.intents@, intent_id, a) == 0);
                    assert(ledger.account(a) == old(ledger).account(a));
                }
            }
        }
        Ok(())
    }

    /// Whether intent `id` is still pending at block `now` past its expiry.
    pub open spec fn expires_now(self, id: u64, now: BlockNumber) -> bool {
        self.has_intent(id) && self.intent(id).status == PaymentIntentStatus::Pending && now
            >= self.intent(id).expires_at
    }

    /// Whether the block-tick at `now` fails intent `id`: it is tracked as
    /// pending and has expired.
    pub open spec fn expired_by_tick(self, id: u64, now: BlockNumber) -> bool {
        self.pending_intent_ids@.contains(id) && self.expires_now(id, now)
    }

    /// Block-tick: every tracked intent that is still pending at `now` past
    /// its expiry fails, its amount returns to the merchant, and it leaves the
    /// pending list. Returns the identifiers of the intents that expired.
    pub fn on_initialize(&mut self, ledger: &mut Ledger, now: BlockNumber) -> (expired: Vec<u64>)
        requires
            old(self).wf(),
            old(ledger).wf(),
        ensures
            final(self).wf(),
            final(ledger).wf(),
            old(self).evolves_to(*final(self)),
            old(self).accounting_kept(*final(self), *old(ledger), *final(ledger)),
            forall|id: u64| #[trigger] final(self).has_intent(id) == old(self).has_intent(id),
            forall|id: u64| #[trigger]
                old(self).has_intent(id) ==> final(self).intent(id) == (if old(
                    self,
                ).expired_by_tick(id, now) {
                    PaymentIntent { status: PaymentIntentStatus::Failed, ..old(self).intent(id) }
                } else {
                    old(self).intent(id)
                }),
            forall|id: u64| #[trigger]
                expired@.contains(id) <==> old(self).expired_by_tick(id, now),
            forall|id: u64| #[trigger]
                final(self).pending_intent_ids@.contains(id) <==> old(
                    self,
                ).pending_intent_ids@.contains(id) && !old(self).expired_by_tick(id, now),
            final(self).receipts == old(self).receipts,
            forall|a: AccountId| #[trigger]
                final(ledger).total_of(a) == old(ledger).total_of(a),
            forall|a: AccountId| #[trigger]
                final(ledger).reserved_of(a) <= old(ledger).reserved_of(a),
    {
        let ghost orig = *self;
        let ghost orig_ledger = *ledger;
        let mut expired: Vec<u64> = Vec::new();
        let mut i: usize = 0;
        while i < self.pending_intent_ids.len()
            invariant
                i <= self.pending_intent_ids@.len(),
                self.pending_intent_ids == orig.pending_intent_ids,
                self.config == orig.config,
                self.next_intent_id == orig.next_intent_id,
                self.receipts == orig.receipts,
                self.used_nonces == orig.used_nonces,
                self.used_fingerprints == orig.used_fingerprints,
                orig.wf(),
                self.wf(),
                ledger.wf(),
                forall|id: u64| #[trigger] self.has_intent(id) == orig.has_intent(id),
                forall|id: u64| #[trigger]
                    orig.has_intent(id) ==> self.intent(id) == (if orig.expires_now(id, now)
                        && orig.pending_intent_ids@.subrange(0, i as int).contains(id) {
                        PaymentIntent { status: PaymentIntentStatus::Failed, ..orig.intent(id) }
                    } else {
                        orig.intent(id)
                    }),
                forall|id: u64| #[trigger]
                    expired@.contains(id) <==> orig.expires_now(id, now)
                        && orig.pending_intent_ids@.subrange(0, i as int).contains(id),
                forall|a: AccountId| #[trigger]
                    ledger.total_of(a) == orig_ledger.total_of(a) && ledger.reserved_of(a)
                        <= orig_ledger.reserved_of(a),
                forall|a: AccountId|
                    orig_ledger.reserved_of(a) >= #[trigger] orig.held_by(a) ==> ledger.reserved_of(a) as int
                        - self.held_by(a) == orig_ledger.reserved_of(a) as int - orig.held_by(a),
            decreases self.pending_intent_ids@.len() - i,
        {
            let id = self.pending_intent_ids[i];
            let ghost pre = orig.pending_intent_ids@.subrange(0, i as int);
            assert(orig.pending_intent_ids@.subrange(0, i as int + 1) =~= pre.push(id));
            proof {
                assert forall|x: u64| #[trigger]
                    orig.pending_intent_ids@.subrange(0, i as int + 1).contains(x) <==> pre.contains(x)
                        || x == id by {
                    lemma_push_contains(pre, id, x);
                }
            }
            let found = match self.intents.get(&id) {
                Some(intent) => Some((intent.status, intent.expires_at, intent.merchant, intent.amount)),
                None => None,
            };
            let do_expire: bool = match found {
                Some((status, expires_at, _, _)) => status == PaymentIntentStatus::Pending && now
                    >= expires_at,
                None => false,
            };
            let ghost before = *self;
            let ghost old_expired = expired@;
            if do_expire {
                let (_, _, merchant, amount) = found.unwrap();
                let ghost lb = *ledger;
                let _ = ledger.unreserve(merchant, amount);
                assert forall|a: AccountId| #[trigger]
                    ledger.total_of(a) == orig_ledger.total_of(a) && ledger.reserved_of(a)
                        <= orig_ledger.reserved_of(a) by {
                    assert(lb.total_of(a) == orig_ledger.total_of(a));
                    if a != merchant {
                        assert(ledger.account(a) == lb.account(a));
                    }
                }
                let mut intent = self.take_intent(id);
                intent.status = PaymentIntentStatus::Failed;
                self.intents.insert(id, intent);
                expired.push(id);
                proof {
                    assert(before.has_intent(id));
                    assert(self.intents@ =~= before.intents@.insert(id, self.intent(id)));
                    before.lemma_intent_replaced(*self, id);
                    before.lemma_held_replaced(*self, id);
                    assert(held_at(before.intents@, id, merchant) == amount);
                    assert(held_at(self.intents@, id, merchant) == 0);
                    assert(before.held_by(merchant) >= amount);
                    assert forall|a: AccountId|
                        orig_ledger.reserved_of(a) >= #[trigger] orig.held_by(a) implies ledger.reserved_of(a) as int
                            - self.held_by(a) == orig_ledger.reserved_of(a) as int - orig.held_by(a) by {
                        assert(self.held_by(a) + held_at(before.intents@, id, a) == before.held_by(a)
                            + held_at(self.intents@, id, a));
                        assert(lb.reserved_of(a) as int - before.held_by(a) == orig_ledger.reserved_of(a) as int
                            - orig.held_by(a));
                        if a != merchant {
                            assert(held_at(before.intents@, id, a) == 0);
                            assert(ledger.account(a) == lb.account(a));
                        }
                    }
                }
            }
            proof {
                if found is Some {
                    assert(before.has_intent(id));
                }
                assert forall|x: u64| #[trigger] self.has_intent(x) == orig.has_intent(x) by {
                    assert(before.has_intent(x) == orig.has_intent(x));
                }
                assert forall|x: u64| #[trigger] expired@.contains(x) <==> orig.expires_now(x, now)
                    && pre.push(id).contains(x) by {
                    lemma_push_contains(pre, id, x);
                    lemma_push_contains(old_expired, id, x);
                    if x == id && orig.has_intent(id) {
                        assert(before.has_intent(id));
                    }
                }
                assert forall|x: u64| #[trigger] orig.has_intent(x) implies self.intent(x) == (
                if orig.expires_now(x, now) && pre.push(id).contains(x) {
                    PaymentIntent { status: PaymentIntentStatus::Failed, ..orig.intent(x) }
                } else {
                    orig.intent(x)
                }) by {
                    lemma_push_contains(pre, id, x);
                    assert(before.has_intent(x));
                    if x != id {
                        assert(self.intent(x) == before.intent(x));
                    }
                }
            }
            i = i + 1;
        }
        assert(orig.pending_intent_ids@.subrange(0, i as int) =~= orig.pending_intent_ids@);
        let kept = ids_not_in(&self.pending_intent_ids, &expired);
        let ghost mid = *self;
        self.pending_intent_ids = kept;
        proof {
            assert(orig_ledger == *old(ledger));
            assert forall|a: AccountId| #[trigger] ledger.reserved_of(a) <= old(ledger).reserved_of(a) by {
                assert(ledger.total_of(a) == orig_ledger.total_of(a));
            }
            assert forall|a: AccountId|
                orig_ledger.reserved_of(a) >= #[trigger] orig.held_by(a) implies ledger.reserved_of(a) as int
                    - self.held_by(a) == orig_ledger.reserved_of(a) as int - orig.held_by(a) by {
                assert(mid.held_by(a) == self.held_by(a));
            }
            mid.lemma_same_records(*self);
            assert forall|id: u64| #[trigger] orig.has_intent(id) implies self.has_intent(id)
                && intent_step_ok(orig.intent(id).status, self.intent(id).status) by {
                assert(mid.has_intent(id));
            }
            assert forall|k: u64| #[trigger] orig.has_receipt(k) implies self.has_receipt(k)
                && self.receipts@[k] == orig.receipts@[k] by {}
            assert forall|m: AccountId, n: u64| #[trigger] orig.nonce_used(m, n) implies self.nonce_used(m, n) by {}
            assert forall|f: Seq<u8>| #[trigger] orig.fingerprint_used(f) implies self.fingerprint_used(f) by {
                let i = choose|i: int|
                    0 <= i < orig.used_fingerprints@.len() && #[trigger] orig.used_fingerprints@[i]@
                        == f;
                assert(self.used_fingerprints@[i] == orig.used_fingerprints@[i]);
            }
        }
        expired
    }

    /// Pays `amount` from `merchant` to `miner` at once, with a receipt under
    /// a fresh identifier. Used once an attestation's challenge window has
    /// passed, so no settlement delay applies. On failure nothing changes.
    pub fn settle_for_attestation(
        &mut self,
        ledger: &mut Ledger,
        merchant: AccountId,
        miner: AccountId,
        amount: Balance,
        attestation_id: u64,
        now: BlockNumber,
    ) -> (r: Result<u64, Error>)
        requires
            old(self).wf(),
            old(ledger).wf(),
        ensures
            final(self).wf(),
            final(ledger).wf(),
            old(self).evolves_to(*final(self)),
            (r is Err || merchant == miner || old(ledger).total_of(miner) + amount <= u128::MAX)
                ==> old(self).accounting_kept(*final(self), *old(ledger), *final(ledger)),
            r == (if old(self).next_intent_id == u64::MAX {
                Err(Error::ArithmeticOverflow)
            } else if old(ledger).free_of(merchant) < amount {
                Err(Error::InsufficientBalance)
            } else {
                Ok(old(self).next_intent_id)
            }),
            r is Err ==> *final(self) == *old(self) && *final(ledger) == *old(ledger),
            r is Ok ==> {
                let id = old(self).next_intent_id;
                &&& final(self).next_intent_id == id + 1
                &&& final(self).intents == old(self).intents
                &&& final(self).has_receipt(id)
                &&& final(self).receipts@ == old(self).receipts@.insert(
                    id,
                    SettlementReceipt {
                        intent_id: id,
                        merchant,
                        miner,
                        amount,
                        settled_at: now,
                        tx_hash: final(self).receipts@[id].tx_hash,
                    },
                )
                &&& final(self).receipts@[id].tx_hash@ == hash_of_id(id)
                &&& merchant != miner ==> final(ledger).free_of(merchant) == old(ledger).free_of(
                    merchant,
                ) - amount
                &&& merchant != miner ==> final(ledger).reserved_of(merchant) == old(
                    ledger,
                ).reserved_of(merchant) + amount - min_nat(
                    amount as nat,
                    (u128::MAX - old(ledger).total_of(miner)) as nat,
                )
                &&& merchant != miner ==> final(ledger).free_of(miner) == old(ledger).free_of(miner)
                    + min_nat(amount as nat, (u128::MAX - old(ledger).total_of(miner)) as nat)
                &&& merchant == miner ==> final(ledger).account(merchant) == old(ledger).account(
                    merchant,
                )
                &&& old(ledger).others_unchanged(*final(ledger), merchant, miner)
            },
    {
        if self.next_intent_id == u64::MAX {
            return Err(Error::ArithmeticOverflow);
        }
        if ledger.free_balance(merchant) < amount {
            return Err(Error::InsufficientBalance);
        }
        let _ = ledger.reserve(merchant, amount);
        let _ = ledger.repatriate_reserved(merchant, miner, amount);
        let ghost old_self = *self;
        let intent_id = self.next_intent_id;
        self.next_intent_id = intent_id + 1;
        let receipt = SettlementReceipt {
            intent_id,
            merchant,
            miner,
            amount,
            settled_at: now,
            tx_hash: h256_from_id(intent_id),
        };
        self.receipts.insert(intent_id, receipt);
        proof {
            assert(!old_self.has_intent(intent_id));
            assert forall|k: u64| #[trigger] self.has_receipt(k) implies k < self.next_intent_id by {
                if k != intent_id {
                    assert(old_self.has_receipt(k));
                }
            }
            assert forall|k: u64| #[trigger] self.has_intent(k) implies k < self.next_intent_id
                && self.intent(k).intent_id == k && (self.has_receipt(k) <==> self.intent(k).status
                == PaymentIntentStatus::Settled) by {
                assert(old_self.has_intent(k));
            }
            assert forall|k: u64| #[trigger] old_self.has_receipt(k) implies self.has_receipt(k)
                && self.receipts@[k] == old_self.receipts@[k] by {
                assert(k != intent_id);
            }
            old_self.lemma_held_appended(*self);
            assert forall|a: AccountId|
                #![trigger old(self).held_by(a)]
                (merchant == miner || old(ledger).total_of(miner) + amount <= u128::MAX)
                    && old(ledger).reserved_of(a) >= old(self).held_by(a) implies ledger.reserved_of(a) as int
                    - self.held_by(a) == old(ledger).reserved_of(a) as int - old(self).held_by(a) by {
                assert(held_at(self.intents@, intent_id, a) == 0);
                if a != merchant && a != miner {
                    assert(ledger.account(a) == old(ledger).account(a));
                }
            }
            assert forall|k: u64| #[trigger] old_self.has_intent(k) implies self.has_intent(k)
                && intent_step_ok(old_self.intent(k).status, self.intent(k).status) by {}
            assert forall|m: AccountId, n: u64| #[trigger] old_self.nonce_used(m, n) implies self.nonce_used(m, n) by {}
            assert forall|f: Seq<u8>| #[trigger] old_self.fingerprint_used(f) implies self.fingerprint_used(f) by {
                let i = choose|i: int|
                    0 <= i < old_self.used_fingerprints@.len() && #[trigger] old_self.used_fingerprints@[i]@
                        == f;
                assert(self.used_fingerprints@[i] == old_self.used_fingerprints@[i]);
            }
        }
        Ok(intent_id)
    }
}

/// A payment intent submitted and then failed by the facilitator gives the
/// merchant back exactly the free balance it had before the submission.
pub proof fn lemma_submit_then_fail_restores_free_balance(
    s0: Pallet,
    s1: Pallet,
    s2: Pallet,
    l0: Ledger,
    l1: Ledger,
    l2: Ledger,
    merchant: AccountId,
    miner: AccountId,
    amount: Balance,
    nonce: u64,
    replay_fingerprint: H256,
    facilitator_signature: Vec<u8>,
    now: BlockNumber,
    id: u64,
    caller: AccountId,
    r2: Result<(), Error>,
)
    requires
        s0.wf(),
        l0.wf(),
        s0.submit_post(
            s1,
            l0,
            l1,
            merchant,
            miner,
            amount,
            nonce,
            replay_fingerprint,
            facilitator_signature,
            now,
            Ok(id),
        ),
        s1.fail_post(s2, l1, l2, caller, id, r2),
        r2 is Ok,
    ensures
        l2.free_of(merchant) == l0.free_of(merchant),
        l2.reserved_of(merchant) == l0.reserved_of(merchant),
{
    assert(s1.intents@.contains_key(id));
    assert(s1.intent(id).merchant == merchant && s1.intent(id).amount == amount);
}

/// The next intent identifier is used by no intent and no receipt, and every
/// intent is stored under its own identifier: no identifier is given twice.
pub proof fn lemma_next_intent_id_unused(s: Pallet, id: u64)
    requires
        s.wf(),
    ensures
        !s.has_intent(s.next_intent_id),
        !s.has_receipt(s.next_intent_id),
        s.has_intent(id) ==> s.intent(id).intent_id == id && id < s.next_intent_id,
{
    if s.has_intent(s.next_intent_id) {
        assert(s.next_intent_id < s.next_intent_id);
    }
    if s.has_receipt(s.next_intent_id) {
        assert(s.next_intent_id < s.next_intent_id);
    }
}

/// A stored intent has a receipt exactly when it is settled.
pub proof fn lemma_receipt_iff_settled(s: Pallet, id: u64)
    requires
        s.wf(),
        s.has_intent(id),
    ensures
        s.has_receipt(id) <==> s.intent(id).status == PaymentIntentStatus::Settled,
{
}

} // verus!
