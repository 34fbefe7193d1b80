use dbc_compute::codec::h256_from_id;
use dbc_compute::ledger::Ledger;
use dbc_compute::settlement::{signature_matches, PaymentIntentStatus, Config as SettlementConfig, Error as SettlementError, Pallet as SettlementLedger};

const FACILITATOR: u64 = 100;

struct Env {
    ledger: Ledger,
    x402: SettlementLedger,
    now: u64,
}

fn new_test_ext() -> Env {
    let mut ledger = Ledger::new();
    for a in [1u64, 2, 3, 100] {
        ledger.set_free_balance(a, 1_000_000_000_000);
    }
    let x402 = SettlementLedger::new(SettlementConfig {
        facilitator: FACILITATOR,
        max_signature_len: 256,
        settlement_delay: 10,
        payment_intent_ttl: 100,
    });
    Env { ledger, x402, now: 1 }
}

fn h256(v: u64) -> [u8; 32] {
    let mut h = [0u8; 32];
    h[24..].copy_from_slice(&v.to_be_bytes());
    h
}

/// The facilitator's signature: the BLAKE2b-256 digest of the encoded
/// parameters and the facilitator's account.
fn make_facilitator_sig(merchant: u64, miner: u64, amount: u128, nonce: u64, fingerprint: [u8; 32]) -> Vec<u8> {
    let mut message = Vec::new();
    message.extend_from_slice(&merchant.to_le_bytes());
    message.extend_from_slice(&miner.to_le_bytes());
    message.extend_from_slice(&amount.to_le_bytes());
    message.extend_from_slice(&nonce.to_le_bytes());
    message.extend_from_slice(&fingerprint);
    message.extend_from_slice(&FACILITATOR.to_le_bytes());
    sp_crypto_hashing::blake2_256(&message).to_vec()
}

impl Env {
    fn submit(&mut self, merchant: u64, miner: u64, amount: u128, nonce: u64, fp: [u8; 32], sig: Vec<u8>) -> Result<u64, SettlementError> {
        self.x402.submit_payment_intent(&mut self.ledger, merchant, miner, amount, nonce, fp, sig, self.now)
    }
    fn verify(&mut self, who: u64, id: u64) -> Result<(), SettlementError> {
        self.x402.verify_settlement(who, id, self.now)
    }
    fn finalize(&mut self, who: u64, id: u64) -> Result<(), SettlementError> {
        self.x402.finalize_settlement(&mut self.ledger, who, id, self.now)
    }
    fn fail(&mut self, who: u64, id: u64) -> Result<(), SettlementError> {
        self.x402.fail_payment_intent(&mut self.ledger, who, id)
    }
}

fn create_default_payment_intent(env: &mut Env) -> u64 {
    let sig = make_facilitator_sig(1, 3, 1_000_000, 1, h256(12345));
    assert_eq!(env.submit(1, 3, 1_000_000, 1, h256(12345), sig), Ok(0));
    0
}

#[test]
fn submit_payment_intent_works() {
    let mut env = new_test_ext();
    let intent_id = create_default_payment_intent(&mut env);
    let intent = env.x402.get_payment_intent(intent_id).expect("intent exists");
    assert_eq!(intent.merchant, 1);
    assert_eq!(intent.miner, 3);
    assert_eq!(intent.amount, 1_000_000);
    assert_eq!(intent.nonce, 1);
    assert_eq!(intent.replay_fingerprint, h256(12345));
    assert!(matches!(intent.status, PaymentIntentStatus::Pending));
    assert_eq!(intent.expires_at, 101);
    assert_eq!(env.x402.next_intent_id, 1);
    assert_eq!(env.ledger.reserved_balance(1), 1_000_000);
    assert_eq!(env.ledger.free_balance(1), 999_999_000_000);
    assert!(env.x402.is_nonce_used(1, 1));
    assert!(env.x402.is_replay_fingerprint_used(&h256(12345)));
    assert!(!env.x402.is_nonce_used(1, 2));
    assert!(!env.x402.is_replay_fingerprint_used(&h256(12346)));
}

#[test]
fn submit_payment_intent_fails_with_duplicate_nonce() {
    let mut env = new_test_ext();
    create_default_payment_intent(&mut env);
    let sig2 = make_facilitator_sig(1, 3, 500_000, 1, h256(67890));
    assert_eq!(env.submit(1, 3, 500_000, 1, h256(67890), sig2), Err(SettlementError::InvalidNonce));
}

#[test]
fn submit_payment_intent_fails_with_duplicate_replay_fingerprint() {
    let mut env = new_test_ext();
    create_default_payment_intent(&mut env);
    let sig2 = make_facilitator_sig(2, 4, 500_000, 1, h256(12345));
    assert_eq!(
        env.submit(2, 4, 500_000, 1, h256(12345), sig2),
        Err(SettlementError::ReplayFingerprintUsed)
    );
}

#[test]
fn submit_payment_intent_fails_with_insufficient_balance() {
    let mut env = new_test_ext();
    let current_balance = env.ledger.free_balance(1);
    let sig = make_facilitator_sig(1, 3, current_balance + 1, 1, h256(12345));
    assert_eq!(
        env.submit(1, 3, current_balance + 1, 1, h256(12345), sig),
        Err(SettlementError::InsufficientBalance)
    );
    assert!(!env.x402.is_nonce_used(1, 1));
}

#[test]
fn submit_payment_intent_fails_with_invalid_signature() {
    let mut env = new_test_ext();
    assert_eq!(
        env.submit(1, 3, 1_000_000, 1, h256(12345), b"invalid_short".to_vec()),
        Err(SettlementError::InvalidFacilitatorSignature)
    );
}

#[test]
fn signature_of_31_bytes_or_wrong_digest_is_rejected() {
    let mut env = new_test_ext();
    let good = make_facilitator_sig(1, 3, 500, 1, h256(7));
    assert_eq!(
        env.submit(1, 3, 500, 1, h256(7), good[..31].to_vec()),
        Err(SettlementError::InvalidFacilitatorSignature)
    );
    let mut wrong = good.clone();
    wrong[0] ^= 1;
    assert_eq!(env.submit(1, 3, 500, 1, h256(7), wrong), Err(SettlementError::InvalidFacilitatorSignature));
    // A signature signed for another amount does not open this one.
    let other = make_facilitator_sig(1, 3, 501, 1, h256(7));
    assert_eq!(env.submit(1, 3, 500, 1, h256(7), other), Err(SettlementError::InvalidFacilitatorSignature));
    // Trailing bytes after the digest are allowed.
    let mut longer = good.clone();
    longer.extend_from_slice(&[9u8; 8]);
    assert_eq!(env.submit(1, 3, 500, 1, h256(7), longer), Ok(0));
    // Longer than the configured bound.
    let mut too_long = make_facilitator_sig(1, 3, 500, 2, h256(8));
    too_long.extend_from_slice(&[0u8; 300]);
    assert_eq!(env.submit(1, 3, 500, 2, h256(8), too_long), Err(SettlementError::ArithmeticOverflow));
}

#[test]
fn signature_matches_checks_the_first_32_bytes() {
    let expected = h256(99);
    assert!(signature_matches(&expected, &expected.to_vec()));
    assert!(!signature_matches(&expected, &expected[..31].to_vec()));
    assert!(!signature_matches(&expected, &h256(98).to_vec()));
}

#[test]
fn verify_settlement_works() {
    let mut env = new_test_ext();
    let intent_id = create_default_payment_intent(&mut env);
    assert_eq!(env.verify(1, intent_id), Err(SettlementError::NotAuthorized));
    assert_eq!(env.verify(100, intent_id), Ok(()));
    let intent = env.x402.get_payment_intent(intent_id).expect("intent exists");
    assert!(matches!(intent.status, PaymentIntentStatus::Verified));
    assert_eq!(intent.verified_at, Some(1));
    assert!(env.x402.pending_intent_ids.is_empty());
}

#[test]
fn verify_settlement_fails_for_wrong_status() {
    let mut env = new_test_ext();
    let intent_id = create_default_payment_intent(&mut env);
    assert_eq!(env.verify(100, intent_id), Ok(()));
    assert_eq!(env.verify(100, intent_id), Err(SettlementError::InvalidPaymentIntentStatus));
}

#[test]
fn finalize_settlement_works() {
    let mut env = new_test_ext();
    let intent_id = create_default_payment_intent(&mut env);
    assert_eq!(env.verify(100, intent_id), Ok(()));
    env.now = 15;
    let miner_balance_before = env.ledger.free_balance(3);
    assert_eq!(env.finalize(1, intent_id), Ok(()));
    let intent = env.x402.get_payment_intent(intent_id).expect("intent exists");
    assert!(matches!(intent.status, PaymentIntentStatus::Settled));
    assert_eq!(intent.settled_at, Some(15));
    assert_eq!(env.ledger.reserved_balance(1), 0);
    assert_eq!(env.ledger.free_balance(1), 999_999_000_000);
    assert_eq!(env.ledger.free_balance(3), miner_balance_before + 1_000_000);
    let receipt = env.x402.get_settlement_receipt(intent_id).expect("receipt exists");
    assert_eq!(receipt.merchant, 1);
    assert_eq!(receipt.miner, 3);
    assert_eq!(receipt.amount, 1_000_000);
    assert_eq!(receipt.settled_at, 15);
    assert_eq!(receipt.tx_hash, h256(intent_id));
}

#[test]
fn finalize_settlement_fails_before_delay() {
    let mut env = new_test_ext();
    let intent_id = create_default_payment_intent(&mut env);
    assert_eq!(env.verify(100, intent_id), Ok(()));
    assert_eq!(env.finalize(1, intent_id), Err(SettlementError::SettlementDelayNotMet));
    env.now = 10;
    assert_eq!(env.finalize(1, intent_id), Err(SettlementError::SettlementDelayNotMet));
    env.now = 11;
    assert_eq!(env.finalize(2, intent_id), Err(SettlementError::NotAuthorized));
    assert_eq!(env.finalize(1, intent_id), Ok(()));
}

#[test]
fn finalize_settlement_by_miner_works() {
    let mut env = new_test_ext();
    let intent_id = create_default_payment_intent(&mut env);
    assert_eq!(env.verify(100, intent_id), Ok(()));
    env.now = 15;
    assert_eq!(env.finalize(3, intent_id), Ok(()));
    let intent = env.x402.get_payment_intent(intent_id).expect("intent exists");
    assert!(matches!(intent.status, PaymentIntentStatus::Settled));
}

#[test]
fn finalize_settlement_by_facilitator_works() {
    let mut env = new_test_ext();
    let intent_id = create_default_payment_intent(&mut env);
    assert_eq!(env.verify(100, intent_id), Ok(()));
    env.now = 15;
    assert_eq!(env.finalize(100, intent_id), Ok(()));
    let intent = env.x402.get_payment_intent(intent_id).expect("intent exists");
    assert!(matches!(intent.status, PaymentIntentStatus::Settled));
}

#[test]
fn finalize_after_expiry_is_rejected() {
    let mut env = new_test_ext();
    let intent_id = create_default_payment_intent(&mut env);
    assert_eq!(env.verify(100, intent_id), Ok(()));
    env.now = 101;
    assert_eq!(env.finalize(1, intent_id), Err(SettlementError::PaymentIntentExpired));
    assert_eq!(env.finalize(1, 5), Err(SettlementError::PaymentIntentNotFound));
}

#[test]
fn fail_payment_intent_works() {
    let mut env = new_test_ext();
    let intent_id = create_default_payment_intent(&mut env);
    assert_eq!(env.fail(1, intent_id), Err(SettlementError::NotAuthorized));
    assert_eq!(env.fail(100, intent_id), Ok(()));
    let intent = env.x402.get_payment_intent(intent_id).expect("intent exists");
    assert!(matches!(intent.status, PaymentIntentStatus::Failed));
    assert_eq!(env.ledger.reserved_balance(1), 0);
    assert_eq!(env.ledger.free_balance(1), 1_000_000_000_000);
}

#[test]
fn fail_verified_payment_intent_works() {
    let mut env = new_test_ext();
    let intent_id = create_default_payment_intent(&mut env);
    assert_eq!(env.verify(100, intent_id), Ok(()));
    assert_eq!(env.fail(100, intent_id), Ok(()));
    let intent = env.x402.get_payment_intent(intent_id).expect("intent exists");
    assert!(matches!(intent.status, PaymentIntentStatus::Failed));
}

#[test]
fn fail_settled_payment_intent_fails() {
    let mut env = new_test_ext();
    let intent_id = create_default_payment_intent(&mut env);
    assert_eq!(env.verify(100, intent_id), Ok(()));
    env.now = 15;
    assert_eq!(env.finalize(1, intent_id), Ok(()));
    assert_eq!(env.fail(100, intent_id), Err(SettlementError::InvalidPaymentIntentStatus));
}

#[test]
fn payment_intent_expires_on_initialize() {
    let mut env = new_test_ext();
    let intent_id = create_default_payment_intent(&mut env);
    assert_eq!(env.x402.on_initialize(&mut env.ledger, 100), Vec::<u64>::new());
    assert_eq!(env.x402.on_initialize(&mut env.ledger, 102), vec![intent_id]);
    let intent = env.x402.get_payment_intent(intent_id).expect("intent exists");
    assert!(matches!(intent.status, PaymentIntentStatus::Failed));
    assert_eq!(env.ledger.reserved_balance(1), 0);
    assert_eq!(env.ledger.free_balance(1), 1_000_000_000_000);
    assert!(env.x402.pending_intent_ids.is_empty());
    // The nonce and fingerprint stay used after expiry.
    assert!(env.x402.is_nonce_used(1, 1));
    assert!(env.x402.is_replay_fingerprint_used(&h256(12345)));
}

#[test]
fn expiry_leaves_verified_intents_alone() {
    let mut env = new_test_ext();
    let id0 = create_default_payment_intent(&mut env);
    let sig = make_facilitator_sig(2, 3, 10, 1, h256(1));
    assert_eq!(env.submit(2, 3, 10, 1, h256(1), sig), Ok(1));
    assert_eq!(env.verify(100, id0), Ok(()));
    assert_eq!(env.x402.on_initialize(&mut env.ledger, 101), vec![1]);
    assert!(matches!(env.x402.get_payment_intent(id0).unwrap().status, PaymentIntentStatus::Verified));
    assert!(matches!(env.x402.get_payment_intent(1).unwrap().status, PaymentIntentStatus::Failed));
    assert_eq!(env.ledger.reserved_balance(1), 1_000_000);
}

#[test]
fn submit_then_fail_restores_free_balance() {
    let mut env = new_test_ext();
    let before = env.ledger.free_balance(2);
    let sig = make_facilitator_sig(2, 3, 12_345, 9, h256(77));
    assert_eq!(env.submit(2, 3, 12_345, 9, h256(77), sig), Ok(0));
    assert_eq!(env.ledger.free_balance(2), before - 12_345);
    assert_eq!(env.fail(100, 0), Ok(()));
    assert_eq!(env.ledger.free_balance(2), before);
}

#[test]
fn settle_for_attestation_pays_at_once_with_a_receipt() {
    let mut env = new_test_ext();
    let miner_before = env.ledger.free_balance(3);
    assert_eq!(env.x402.settle_for_attestation(&mut env.ledger, 1, 3, 500, 7, 4), Ok(0));
    assert_eq!(env.ledger.free_balance(3), miner_before + 500);
    assert_eq!(env.ledger.reserved_balance(1), 0);
    let receipt = env.x402.get_settlement_receipt(0).expect("receipt exists");
    assert_eq!(receipt.miner, 3);
    assert_eq!(receipt.settled_at, 4);
    assert_eq!(receipt.tx_hash, h256_from_id(0));
    assert!(env.x402.get_payment_intent(0).is_none());
    assert_eq!(
        env.x402.settle_for_attestation(&mut env.ledger, 7, 3, 1, 8, 4),
        Err(SettlementError::InsufficientBalance)
    );
    assert_eq!(env.x402.next_intent_id, 1);
}

#[test]
fn intent_hash_is_big_endian_low_bytes() {
    assert_eq!(h256_from_id(0x0102_0304_0506_0708)[24..], [1, 2, 3, 4, 5, 6, 7, 8]);
    assert_eq!(h256_from_id(12345), h256(12345));
}

#[test]
fn a_full_pending_list_refuses_new_intents() {
    let mut env = new_test_ext();
    for n in 0..10_000u64 {
        let fp = h256(1_000_000 + n);
        let sig = make_facilitator_sig(2, 3, 1, n, fp);
        assert_eq!(env.submit(2, 3, 1, n, fp, sig), Ok(n));
        assert_eq!(env.x402.pending_intent_ids.last(), Some(&n));
    }
    let fp = h256(42);
    let sig = make_facilitator_sig(2, 3, 1, 10_000, fp);
    assert_eq!(env.submit(2, 3, 1, 10_000, fp, sig), Err(SettlementError::TooManyPendingIntents));
    assert_eq!(env.ledger.reserved_balance(2), 10_000);
    assert!(!env.x402.is_nonce_used(2, 10_000));
    // Verifying one intent frees a place.
    assert_eq!(env.verify(100, 0), Ok(()));
    let sig = make_facilitator_sig(2, 3, 1, 10_000, fp);
    assert_eq!(env.submit(2, 3, 1, 10_000, fp, sig), Ok(10_000));
}

#[test]
fn failing_an_intent_keeps_its_nonce_and_fingerprint_used() {
    let mut env = new_test_ext();
    let id = create_default_payment_intent(&mut env);
    assert_eq!(env.fail(100, id), Ok(()));
    let sig = make_facilitator_sig(1, 3, 1_000_000, 1, h256(12345));
    assert_eq!(env.submit(1, 3, 1_000_000, 1, h256(12345), sig), Err(SettlementError::InvalidNonce));
    assert!(env.x402.is_replay_fingerprint_used(&h256(12345)));
}
