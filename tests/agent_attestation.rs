use dbc_compute::attestation::{Config as AttestationConfig, Error as AttestationError, Pallet as AttestationLedger, AttestationStatus, Origin};
use dbc_compute::ledger::Ledger;
use dbc_compute::settlement::{Config as SettlementConfig, Pallet as SettlementLedger};

struct Env {
    ledger: Ledger,
    att: AttestationLedger,
    x402: SettlementLedger,
    now: u64,
}

fn new_test_ext() -> Env {
    let mut ledger = Ledger::new();
    for a in [1u64, 2, 3, 4] {
        ledger.set_free_balance(a, 1_000_000_000_000);
    }
    let att = AttestationLedger::new(AttestationConfig {
        attestation_deposit: 1_000,
        challenge_window: 50,
        slash_percent: 50,
        heartbeat_interval: 100,
        max_model_id_len: 256,
        max_gpu_uuid_len: 128,
        max_models_per_agent: 10,
        admin: 3,
    });
    let x402 = SettlementLedger::new(SettlementConfig {
        facilitator: 100,
        max_signature_len: 256,
        settlement_delay: 10,
        payment_intent_ttl: 100,
    });
    Env { ledger, att, x402, now: 1 }
}

fn gpu_uuid() -> Vec<u8> {
    b"GPU-12345678-abcd-efgh-ijkl-1234567890ab".to_vec()
}

fn model_id() -> Vec<u8> {
    b"gpt-5.3-codex".to_vec()
}

fn model_id_2() -> Vec<u8> {
    b"deepseek-r1".to_vec()
}

fn h256(v: u64) -> [u8; 32] {
    let mut h = [0u8; 32];
    h[24..].copy_from_slice(&v.to_be_bytes());
    h
}

impl Env {
    fn register(&mut self, who: u64) {
        assert_eq!(self.att.register_node(who, gpu_uuid(), 120, self.now), Ok(()));
    }
    fn attest(&mut self, who: u64) -> Result<u64, AttestationError> {
        self.att.submit_attestation(&mut self.ledger, who, 1, h256(42), model_id(), 1000, 500, self.now)
    }
    fn confirm(&mut self, origin: Origin, id: u64) -> Result<(), AttestationError> {
        self.att.confirm_attestation(&mut self.ledger, &mut self.x402, origin, id, self.now).map(|_| ())
    }
}

#[test]
fn register_node_works() {
    let mut env = new_test_ext();
    env.register(1);
    let node = env.att.node_of(1).unwrap();
    assert_eq!(node.tflops, 120);
    assert!(node.is_active);
    assert_eq!(node.last_heartbeat, 1);
}

#[test]
fn register_node_duplicate_fails() {
    let mut env = new_test_ext();
    env.register(1);
    assert_eq!(env.att.register_node(1, gpu_uuid(), 120, 1), Err(AttestationError::NodeAlreadyRegistered));
}

#[test]
fn heartbeat_works() {
    let mut env = new_test_ext();
    env.register(1);
    assert_eq!(env.att.heartbeat(1, 102), Ok(()));
    let node = env.att.node_of(1).unwrap();
    assert_eq!(node.last_heartbeat, 102);
}

#[test]
fn heartbeat_too_early_fails() {
    let mut env = new_test_ext();
    env.register(1);
    assert_eq!(env.att.heartbeat(1, 51), Err(AttestationError::HeartbeatTooEarly));
    assert_eq!(env.att.heartbeat(1, 100), Err(AttestationError::HeartbeatTooEarly));
    assert_eq!(env.att.heartbeat(1, 101), Ok(()));
    assert_eq!(env.att.heartbeat(2, 500), Err(AttestationError::NodeNotRegistered));
}

#[test]
fn submit_attestation_works() {
    let mut env = new_test_ext();
    env.register(1);
    assert_eq!(env.attest(1), Ok(0));
    let att = env.att.attestation_of(0).unwrap();
    assert_eq!(att.task_id, 1);
    assert_eq!(att.result_hash, h256(42));
    assert_eq!(att.input_tokens, 1000);
    assert_eq!(att.output_tokens, 500);
    assert!(matches!(att.status, AttestationStatus::Pending));
    assert_eq!(att.challenge_end, 51);
    assert_eq!(env.ledger.reserved_balance(1), 1_000);
}

#[test]
fn submit_attestation_unregistered_fails() {
    let mut env = new_test_ext();
    assert_eq!(
        env.att.submit_attestation(&mut env.ledger, 1, 1, [0u8; 32], model_id(), 100, 50, 1),
        Err(AttestationError::NodeNotRegistered)
    );
}

#[test]
fn challenge_attestation_works() {
    let mut env = new_test_ext();
    env.register(1);
    assert_eq!(env.attest(1), Ok(0));
    assert_eq!(env.att.challenge_attestation(2, 0, 25), Ok(()));
    let att = env.att.attestation_of(0).unwrap();
    assert_eq!(att.challenger, Some(2));
    assert_eq!(env.att.challenge_attestation(3, 0, 26), Err(AttestationError::AlreadyChallenged));
}

#[test]
fn challenge_after_window_fails() {
    let mut env = new_test_ext();
    env.register(1);
    assert_eq!(env.attest(1), Ok(0));
    assert_eq!(env.att.challenge_attestation(2, 0, 52), Err(AttestationError::ChallengeWindowExpired));
}

#[test]
fn challenge_on_window_end_is_accepted() {
    let mut env = new_test_ext();
    env.register(1);
    assert_eq!(env.attest(1), Ok(0));
    assert_eq!(env.attest(1), Ok(1));
    assert_eq!(env.att.challenge_attestation(2, 0, 51), Ok(()));
    assert_eq!(env.att.challenge_attestation(2, 1, 52), Err(AttestationError::ChallengeWindowExpired));
}

#[test]
fn confirm_attestation_works() {
    let mut env = new_test_ext();
    env.register(1);
    assert_eq!(env.attest(1), Ok(0));
    assert_eq!(env.ledger.reserved_balance(1), 1_000);
    env.now = 52;
    assert_eq!(env.confirm(Origin::Signed(3), 0), Ok(()));
    let att = env.att.attestation_of(0).unwrap();
    assert!(matches!(att.status, AttestationStatus::Confirmed));
    assert_eq!(env.ledger.reserved_balance(1), 0);
    let receipt = env.x402.get_settlement_receipt(0).expect("receipt exists");
    assert_eq!(receipt.miner, 1);
    assert_eq!(env.ledger.free_balance(1), 1_000_000_000_000);
}

#[test]
fn confirm_on_window_end_is_rejected_then_accepted() {
    let mut env = new_test_ext();
    env.register(1);
    assert_eq!(env.attest(1), Ok(0));
    env.now = 51;
    assert_eq!(env.confirm(Origin::Root, 0), Err(AttestationError::ChallengeWindowNotExpired));
    env.now = 52;
    assert_eq!(env.confirm(Origin::Signed(2), 0), Err(AttestationError::BadOrigin));
    assert_eq!(env.confirm(Origin::Root, 0), Ok(()));
    assert_eq!(env.confirm(Origin::Root, 0), Err(AttestationError::InvalidStatus));
}

#[test]
fn confirmation_reports_the_settlement_it_made() {
    let mut env = new_test_ext();
    env.register(1);
    assert_eq!(env.attest(1), Ok(0));
    assert_eq!(env.attest(1), Ok(1));
    env.now = 52;
    assert_eq!(env.att.confirm_attestation(&mut env.ledger, &mut env.x402, Origin::Root, 0, 52), Ok(Some(0)));
    assert_eq!(env.att.confirm_attestation(&mut env.ledger, &mut env.x402, Origin::Root, 1, 52), Ok(Some(1)));
    assert_eq!(env.x402.next_intent_id, 2);
}

#[test]
fn challenged_attestation_cannot_be_confirmed() {
    let mut env = new_test_ext();
    env.register(1);
    assert_eq!(env.attest(1), Ok(0));
    assert_eq!(env.att.challenge_attestation(2, 0, 10), Ok(()));
    env.now = 60;
    assert_eq!(env.confirm(Origin::Root, 0), Err(AttestationError::AlreadyChallenged));
    assert!(env.x402.get_settlement_receipt(0).is_none());
}

#[test]
fn resolve_challenge_slash_works() {
    let mut env = new_test_ext();
    env.register(1);
    assert_eq!(env.attest(1), Ok(0));
    assert_eq!(env.att.challenge_attestation(2, 0, 1), Ok(()));
    let balance_before = env.ledger.free_balance(1);
    assert_eq!(env.att.resolve_challenge(&mut env.ledger, Origin::Root, 0, true), Ok(()));
    let att = env.att.attestation_of(0).unwrap();
    assert!(matches!(att.status, AttestationStatus::Slashed));
    let balance_after = env.ledger.free_balance(1);
    assert_eq!(balance_after, balance_before + 500);
    assert_eq!(env.ledger.reserved_balance(1), 0);
}

#[test]
fn resolve_challenge_defend_works() {
    let mut env = new_test_ext();
    env.register(1);
    assert_eq!(env.attest(1), Ok(0));
    assert_eq!(env.att.challenge_attestation(2, 0, 1), Ok(()));
    let balance_before = env.ledger.free_balance(1);
    assert_eq!(env.att.resolve_challenge(&mut env.ledger, Origin::Root, 0, false), Ok(()));
    let att = env.att.attestation_of(0).unwrap();
    assert!(matches!(att.status, AttestationStatus::Defended));
    let balance_after = env.ledger.free_balance(1);
    assert_eq!(balance_after - balance_before, 1_000);
}

#[test]
fn resolve_needs_root_and_a_challenge() {
    let mut env = new_test_ext();
    env.register(1);
    assert_eq!(env.attest(1), Ok(0));
    assert_eq!(
        env.att.resolve_challenge(&mut env.ledger, Origin::Root, 0, true),
        Err(AttestationError::InvalidStatus)
    );
    assert_eq!(env.att.challenge_attestation(2, 0, 1), Ok(()));
    assert_eq!(
        env.att.resolve_challenge(&mut env.ledger, Origin::Signed(3), 0, true),
        Err(AttestationError::BadOrigin)
    );
    assert_eq!(
        env.att.resolve_challenge(&mut env.ledger, Origin::Root, 9, true),
        Err(AttestationError::AttestationNotFound)
    );
}

#[test]
fn update_capability_works() {
    let mut env = new_test_ext();
    env.register(1);
    assert_eq!(env.att.update_capability(1, vec![model_id(), model_id_2()], 8, 10, b"us-west".to_vec(), 1), Ok(()));
    let cap = env.att.agent_capability(1).expect("capability should exist");
    assert_eq!(cap.owner, 1);
    assert_eq!(cap.model_ids.len(), 2);
    assert_eq!(cap.max_concurrent, 8);
    assert_eq!(cap.price_per_token, 10);
    let providers = env.att.get_providers_for_model(&model_id());
    assert_eq!(providers, vec![1]);
    assert_eq!(env.att.update_capability(1, vec![model_id_2()], 4, 20, b"eu".to_vec(), 2), Ok(()));
    let old_providers = env.att.get_providers_for_model(&model_id());
    assert!(old_providers.is_empty());
    assert_eq!(env.att.get_providers_for_model(&model_id_2()), vec![1]);
}

#[test]
fn update_capability_rejects_bad_input() {
    let mut env = new_test_ext();
    assert_eq!(
        env.att.update_capability(1, vec![model_id()], 1, 1, b"eu".to_vec(), 1),
        Err(AttestationError::NodeNotRegistered)
    );
    env.register(1);
    assert_eq!(
        env.att.update_capability(1, vec![vec![7u8; 257]], 1, 1, b"eu".to_vec(), 1),
        Err(AttestationError::InvalidModelId)
    );
    assert_eq!(
        env.att.update_capability(1, vec![model_id(); 11], 1, 1, b"eu".to_vec(), 1),
        Err(AttestationError::TooManyModels)
    );
    assert_eq!(
        env.att.update_capability(1, vec![model_id()], 1, 1, vec![b'x'; 17], 1),
        Err(AttestationError::InvalidRegion)
    );
    assert!(env.att.agent_capability(1).is_none());
}
