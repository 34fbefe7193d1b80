use dbc_compute::attestation::{Config as AttestationConfig, Pallet as AttestationLedger, AttestationStatus, Origin};
use dbc_compute::billing::{Config as BillingConfig, Pallet as TaskBilling, TaskOrderStatus};
use dbc_compute::ledger::Ledger;
use dbc_compute::query::{Dbc3Storage, X402Settlement};
use dbc_compute::scheduler::{Pallet as Scheduler, Config as SchedulerConfig, TaskDimensions, TaskPriority, TaskStatus};
use dbc_compute::settlement::{PaymentIntentStatus, Config as SettlementConfig, Pallet as SettlementLedger};

const CHALLENGE_WINDOW: u64 = 50;
const PAYMENT_INTENT_TTL: u64 = 100;
const SETTLEMENT_DELAY: u64 = 10;
const FACILITATOR: u64 = 100;

struct Runtime {
    ledger: Ledger,
    sched: Scheduler,
    att: AttestationLedger,
    x402: SettlementLedger,
    billing: TaskBilling,
    now: u64,
}

fn new_test_ext() -> Runtime {
    let mut ledger = Ledger::new();
    for a in [1u64, 2, 3, 4, 99, 100] {
        ledger.set_free_balance(a, 1_000_000_000_000);
    }
    Runtime {
        ledger,
        sched: Scheduler::new(SchedulerConfig {
            pool_deposit: 1_000,
            task_deposit: 100,
            failure_slash: 50,
            task_timeout: 50,
            max_gpu_model_len: 64,
            min_pool_stake: 0,
            stake_slash_percent: 0,
            max_tasks_per_pool: 16,
            initial_reputation: 80,
        }),
        att: AttestationLedger::new(AttestationConfig {
            attestation_deposit: 1_000,
            challenge_window: CHALLENGE_WINDOW,
            slash_percent: 50,
            heartbeat_interval: 100,
            max_model_id_len: 256,
            max_gpu_uuid_len: 128,
            max_models_per_agent: 10,
            admin: 3,
        }),
        x402: SettlementLedger::new(SettlementConfig {
            facilitator: FACILITATOR,
            max_signature_len: 256,
            settlement_delay: SETTLEMENT_DELAY,
            payment_intent_ttl: PAYMENT_INTENT_TTL,
        }),
        billing: TaskBilling::new(BillingConfig {
            treasury: 99,
            burn_percentage: 15,
            miner_payout_percentage: 85,
            task_mode_reward_percentage: 70,
            era_duration: 100,
            max_model_id_len: 256,
            max_policy_cid_len: 1024,
            order_timeout: 100,
        }),
        now: 1,
    }
}

impl Runtime {
    fn run_to_block(&mut self, n: u64) {
        while self.now < n {
            self.now += 1;
            self.sched.on_initialize(&mut self.ledger, self.now);
            self.x402.on_initialize(&mut self.ledger, self.now);
        }
    }
}

fn h256(v: u64) -> [u8; 32] {
    let mut h = [0u8; 32];
    h[24..].copy_from_slice(&v.to_be_bytes());
    h
}

fn facilitator_sig(merchant: u64, miner: u64, amount: u128, nonce: u64, fp: [u8; 32]) -> Vec<u8> {
    let mut message = Vec::new();
    message.extend_from_slice(&merchant.to_le_bytes());
    message.extend_from_slice(&miner.to_le_bytes());
    message.extend_from_slice(&amount.to_le_bytes());
    message.extend_from_slice(&nonce.to_le_bytes());
    message.extend_from_slice(&fp);
    message.extend_from_slice(&FACILITATOR.to_le_bytes());
    sp_crypto_hashing::blake2_256(&message).to_vec()
}

#[test]
fn full_pipeline_task_to_settlement() {
    let mut rt = new_test_ext();
    let admin = 3u64;
    let customer = 1u64;
    let miner = 2u64;
    assert!(rt.sched.register_pool(&mut rt.ledger, miner, b"NVIDIA-A100".to_vec(), 80, false, 100, 10).is_ok());
    let pool = rt.sched.pools(0).unwrap();
    assert_eq!(pool.owner, miner);
    assert!(rt.att.register_node(miner, b"GPU-UUID-001".to_vec(), 312, rt.now).is_ok());
    assert!(rt
        .billing
        .create_task_definition(admin, b"llama-70b".to_vec(), b"v1.0".to_vec(), 5, 15, 4096, b"QmPolicyCid123".to_vec())
        .is_ok());
    let task_def = rt.billing.task_definition_of(0).unwrap();
    assert_eq!(task_def.admin, admin);
    assert!(task_def.is_active);
    let convert = |v: u64| (v as u128).checked_mul(10);
    assert!(rt
        .billing
        .create_task_order(&mut rt.ledger, customer, 0, miner, 500, 1000, rt.now, Some(2_000_000), &convert)
        .is_ok());
    let order = rt.billing.task_order_of(0).unwrap();
    assert_eq!(order.customer, customer);
    assert_eq!(order.miner, miner);
    assert!(matches!(order.status, TaskOrderStatus::InProgress));
    let dimensions = TaskDimensions { m: 100, n: 100, k: 10 };
    assert!(rt.sched.submit_task(&mut rt.ledger, customer, dimensions, TaskPriority::Normal, None, rt.now).is_ok());
    let compute_task = rt.sched.tasks(0).unwrap();
    assert_eq!(compute_task.pool_id, 0);
    assert!(matches!(compute_task.status, TaskStatus::Computing));
    let proof_hash = [1u8; 32];
    assert!(rt.sched.submit_proof(&mut rt.ledger, &mut rt.att, miner, 0, proof_hash, true, rt.now).is_ok());
    let completed_task = rt.sched.tasks(0).unwrap();
    assert!(matches!(completed_task.status, TaskStatus::Completed));
    assert_eq!(completed_task.verification_result, Some(true));
    assert_eq!(rt.sched.rewards(0), Some(10));
    let attestation = rt.att.attestation_of(0).unwrap();
    assert_eq!(attestation.attester, miner);
    assert_eq!(attestation.task_id, 0);
    assert!(matches!(attestation.status, AttestationStatus::Pending));
    rt.run_to_block(1 + CHALLENGE_WINDOW + 1);
    assert!(rt.att.confirm_attestation(&mut rt.ledger, &mut rt.x402, Origin::Signed(admin), 0, rt.now).is_ok());
    let confirmed_att = rt.att.attestation_of(0).unwrap();
    assert!(matches!(confirmed_att.status, AttestationStatus::Confirmed));
    let receipt = rt.x402.get_settlement_receipt(0);
    assert!(receipt.is_some(), "Settlement receipt should exist from cross-pallet call");
    let receipt = receipt.unwrap();
    assert_eq!(receipt.miner, miner);
    let before = rt.ledger.free_balance(miner);
    assert!(rt.sched.claim_reward(&mut rt.ledger, miner, 0).is_ok());
    assert_eq!(rt.ledger.free_balance(miner), before + 10);
    assert_eq!(rt.sched.rewards(0), None);
    assert!(rt.billing.mark_order_completed(miner, 0, [2u8; 32]).is_ok());
    assert!(rt.billing.settle_task_order(&mut rt.ledger, customer, 0, None).is_ok());
    let settled_order = rt.billing.task_order_of(0).unwrap();
    assert!(matches!(settled_order.status, TaskOrderStatus::Settled));
    assert_eq!(settled_order.dbc_burned + settled_order.miner_payout, settled_order.total_dbc_charged);
}

#[test]
fn pool_registration_and_task_assignment() {
    let mut rt = new_test_ext();
    let pool_owner = 2u64;
    let task_user = 1u64;
    assert!(rt.sched.register_pool(&mut rt.ledger, pool_owner, b"RTX-4090".to_vec(), 24, false, 100, 5).is_ok());
    assert!(rt.att.register_node(pool_owner, b"GPU-RTX4090-UUID".to_vec(), 200, rt.now).is_ok());
    assert!(rt.sched.pools(0).is_some());
    assert_eq!(rt.sched.pool_by_owner(pool_owner), Some(0));
    let dims = TaskDimensions { m: 50, n: 50, k: 10 };
    assert!(rt.sched.submit_task(&mut rt.ledger, task_user, dims, TaskPriority::High, None, rt.now).is_ok());
    let task = rt.sched.tasks(0).unwrap();
    assert_eq!(task.pool_id, 0);
    assert_eq!(task.user, task_user);
    assert!(matches!(task.status, TaskStatus::Computing));
    assert_eq!(rt.sched.active_task_count(0), 1);
    assert!(rt.sched.submit_proof(&mut rt.ledger, &mut rt.att, pool_owner, 0, [42u8; 32], true, rt.now).is_ok());
    let completed = rt.sched.tasks(0).unwrap();
    assert!(matches!(completed.status, TaskStatus::Completed));
    assert!(rt.sched.rewards(0).is_some());
    let att = rt.att.attestation_of(0);
    assert!(att.is_some(), "Attestation should have been created via OnTaskCompleted");
    let balance_before = rt.ledger.free_balance(pool_owner);
    assert!(rt.sched.claim_reward(&mut rt.ledger, pool_owner, 0).is_ok());
    let balance_after = rt.ledger.free_balance(pool_owner);
    assert!(balance_after > balance_before, "Pool owner should have received reward");
    assert!(rt.sched.rewards(0).is_none());
    assert_eq!(rt.sched.active_task_count(0), 0);
    let rep = rt.sched.miner_reputation(pool_owner);
    assert_eq!(rep.total_tasks, 1);
    assert_eq!(rep.successful_tasks, 1);
}

#[test]
fn attestation_challenge_flow() {
    let mut rt = new_test_ext();
    let attester = 2u64;
    let challenger = 3u64;
    assert!(rt.att.register_node(attester, b"GPU-UUID-ATTEST".to_vec(), 250, rt.now).is_ok());
    let node = rt.att.node_of(attester).unwrap();
    assert!(node.is_active);
    assert_eq!(node.tflops, 250);
    assert!(rt
        .att
        .submit_attestation(&mut rt.ledger, attester, 42, [0xAB; 32], b"gpt-4-turbo".to_vec(), 1000, 2000, rt.now)
        .is_ok());
    let att = rt.att.attestation_of(0).unwrap();
    assert_eq!(att.attester, attester);
    assert_eq!(att.task_id, 42);
    assert!(matches!(att.status, AttestationStatus::Pending));
    assert_eq!(att.challenge_end, 1 + CHALLENGE_WINDOW);
    assert!(rt.att.challenge_attestation(challenger, 0, rt.now).is_ok());
    assert_eq!(rt.att.attestation_of(0).unwrap().challenger, Some(challenger));
    let attester_reserved_before = rt.ledger.reserved_balance(attester);
    assert!(rt.att.resolve_challenge(&mut rt.ledger, Origin::Root, 0, true).is_ok());
    assert!(matches!(rt.att.attestation_of(0).unwrap().status, AttestationStatus::Slashed));
    let attester_reserved_after = rt.ledger.reserved_balance(attester);
    assert!(attester_reserved_after < attester_reserved_before, "Attester should have been slashed");
    assert!(rt
        .att
        .submit_attestation(&mut rt.ledger, attester, 43, [0xCD; 32], b"llama-70b".to_vec(), 500, 800, rt.now)
        .is_ok());
    assert!(rt.att.challenge_attestation(challenger, 1, rt.now).is_ok());
    let reserved_before_defend = rt.ledger.reserved_balance(attester);
    assert!(rt.att.resolve_challenge(&mut rt.ledger, Origin::Root, 1, false).is_ok());
    assert!(matches!(rt.att.attestation_of(1).unwrap().status, AttestationStatus::Defended));
    let reserved_after_defend = rt.ledger.reserved_balance(attester);
    assert!(reserved_after_defend < reserved_before_defend, "Deposit should have been unreserved after defense");
}

#[test]
fn pool_staking_integration() {
    let mut rt = new_test_ext();
    let pool_owner = 2u64;
    let staker = 1u64;
    let staker2 = 3u64;
    assert!(rt.sched.register_pool(&mut rt.ledger, pool_owner, b"A100".to_vec(), 80, false, 100, 10).is_ok());
    let stake_amount: u128 = 5_000;
    assert!(rt.sched.stake_to_pool(&mut rt.ledger, staker, 0, stake_amount).is_ok());
    assert_eq!(rt.sched.pool_stakes(0, staker), stake_amount);
    assert_eq!(rt.sched.total_pool_stake(0), stake_amount);
    assert!(rt.sched.stake_to_pool(&mut rt.ledger, staker2, 0, 3_000).is_ok());
    assert_eq!(rt.sched.total_pool_stake(0), 8_000);
    assert!(rt.sched.unstake_from_pool(&mut rt.ledger, staker, 0, 2_000).is_ok());
    assert_eq!(rt.sched.pool_stakes(0, staker), 3_000);
    assert_eq!(rt.sched.total_pool_stake(0), 6_000);
    assert!(rt.sched.unstake_from_pool(&mut rt.ledger, staker, 0, 10_000).is_err());
}

#[test]
fn agent_capability_registry() {
    let mut rt = new_test_ext();
    let agent = 2u64;
    assert!(rt.att.register_node(agent, b"GPU-CAP-TEST".to_vec(), 400, rt.now).is_ok());
    let models = vec![b"llama-70b".to_vec(), b"gpt-4-turbo".to_vec(), b"mixtral-8x7b".to_vec()];
    assert!(rt.att.update_capability(agent, models, 4, 100, b"us-east".to_vec(), rt.now).is_ok());
    let cap = rt.att.agent_capability(agent).unwrap();
    assert_eq!(cap.model_ids.len(), 3);
    assert_eq!(cap.max_concurrent, 4);
    assert!(rt.att.get_providers_for_model(&b"llama-70b".to_vec()).contains(&agent));
    assert!(rt.att.update_capability(agent, vec![b"mistral-large".to_vec()], 8, 200, b"eu-west".to_vec(), rt.now).is_ok());
    assert!(!rt.att.get_providers_for_model(&b"llama-70b".to_vec()).contains(&agent));
    assert!(rt.att.get_providers_for_model(&b"mistral-large".to_vec()).contains(&agent));
    assert!(rt.att.update_capability(4, vec![b"test".to_vec()], 1, 10, b"us".to_vec(), rt.now).is_err());
}

#[test]
fn payment_intent_expiry() {
    let mut rt = new_test_ext();
    let merchant = 1u64;
    let miner = 2u64;
    let amount: u128 = 500;
    let nonce = 1u64;
    let fp = h256(42);
    let sig = facilitator_sig(merchant, miner, amount, nonce, fp);
    let balance_before = rt.ledger.free_balance(merchant);
    assert!(rt.x402.submit_payment_intent(&mut rt.ledger, merchant, miner, amount, nonce, fp, sig, rt.now).is_ok());
    assert_eq!(rt.ledger.reserved_balance(merchant), amount);
    let intent = rt.x402.get_payment_intent(0).unwrap();
    assert_eq!(intent.expires_at, 1 + PAYMENT_INTENT_TTL);
    rt.run_to_block(1 + PAYMENT_INTENT_TTL - 1);
    assert!(matches!(rt.x402.get_payment_intent(0).unwrap().status, PaymentIntentStatus::Pending));
    rt.run_to_block(1 + PAYMENT_INTENT_TTL + 1);
    assert!(matches!(rt.x402.get_payment_intent(0).unwrap().status, PaymentIntentStatus::Failed));
    assert_eq!(rt.ledger.reserved_balance(merchant), 0);
    assert_eq!(rt.ledger.free_balance(merchant), balance_before);
}

#[test]
fn x402_full_settlement_with_signature() {
    let mut rt = new_test_ext();
    let merchant = 1u64;
    let miner = 2u64;
    let amount: u128 = 1_000;
    let fp = h256(99);
    let sig = facilitator_sig(merchant, miner, amount, 1, fp);
    assert!(rt.x402.submit_payment_intent(&mut rt.ledger, merchant, miner, amount, 1, fp, sig, rt.now).is_ok());
    assert!(rt.x402.verify_settlement(FACILITATOR, 0, rt.now).is_ok());
    assert!(matches!(rt.x402.get_payment_intent(0).unwrap().status, PaymentIntentStatus::Verified));
    rt.run_to_block(1 + SETTLEMENT_DELAY + 1);
    let miner_balance_before = rt.ledger.free_balance(miner);
    assert!(rt.x402.finalize_settlement(&mut rt.ledger, merchant, 0, rt.now).is_ok());
    assert!(matches!(rt.x402.get_payment_intent(0).unwrap().status, PaymentIntentStatus::Settled));
    assert!(rt.ledger.free_balance(miner) > miner_balance_before);
    let bad_sig: Vec<u8> = vec![0u8; 32];
    assert!(rt.x402.submit_payment_intent(&mut rt.ledger, merchant, miner, amount, 2, h256(100), bad_sig, rt.now).is_err());
}

#[test]
fn dispute_after_success_releases_escrow_and_slashes() {
    let mut rt = new_test_ext();
    assert!(rt.sched.register_pool(&mut rt.ledger, 2, b"P1".to_vec(), 80, false, 100, 10).is_ok());
    assert!(rt.att.register_node(2, b"N".to_vec(), 1, rt.now).is_ok());
    let user_free = rt.ledger.free_balance(1);
    assert!(rt.sched.submit_task(&mut rt.ledger, 1, TaskDimensions { m: 100, n: 100, k: 10 }, TaskPriority::Normal, None, rt.now).is_ok());
    assert!(rt.sched.submit_proof(&mut rt.ledger, &mut rt.att, 2, 0, [1u8; 32], true, rt.now).is_ok());
    assert!(rt.sched.dispute_verification(&mut rt.ledger, 1, 0).is_ok());
    assert!(matches!(rt.sched.tasks(0).unwrap().status, TaskStatus::Failed));
    assert_eq!(rt.ledger.free_balance(1), user_free);
    assert_eq!(rt.sched.pools(0).unwrap().deposit_held, 950);
    assert_eq!(rt.sched.pools(0).unwrap().reputation, 79);
}

#[test]
fn storage_views_read_the_ledgers() {
    let mut rt = new_test_ext();
    assert!(rt.sched.register_pool(&mut rt.ledger, 2, b"P1".to_vec(), 80, false, 100, 10).is_ok());
    assert!(rt.sched.register_pool(&mut rt.ledger, 3, b"P2".to_vec(), 80, false, 100, 10).is_ok());
    assert!(rt.sched.deregister_pool(&mut rt.ledger, 2, 0).is_ok());
    assert!(rt.att.register_node(2, b"N".to_vec(), 1, rt.now).is_ok());
    assert!(rt.att.submit_attestation(&mut rt.ledger, 2, 1, [1u8; 32], vec![], 0, 0, rt.now).is_ok());
    assert!(rt.att.submit_attestation(&mut rt.ledger, 2, 2, [1u8; 32], vec![], 0, 0, rt.now).is_ok());
    assert!(rt.att.challenge_attestation(3, 1, rt.now).is_ok());
    assert!(rt.att.resolve_challenge(&mut rt.ledger, Origin::Root, 1, false).is_ok());
    let sig = facilitator_sig(1, 2, 5, 1, h256(5));
    assert!(rt.x402.submit_payment_intent(&mut rt.ledger, 1, 2, 5, 1, h256(5), sig, rt.now).is_ok());
    let storage = Dbc3Storage::new(&rt.sched, &rt.att, &rt.x402, &rt.billing);
    assert_eq!(storage.get_active_pools(), vec![1]);
    assert!(storage.get_compute_pool(0).is_none());
    assert_eq!(storage.get_pool_reputation(1), Some(80));
    assert_eq!(storage.get_pool_reputation(0), None);
    assert_eq!(storage.get_pending_attestation_count(), 1);
    assert_eq!(storage.get_current_era(250), 2);
    assert!(storage.get_node_registration(2).is_some());
    assert!(storage.get_payment_intent(0).is_some());
    assert!(storage.get_settlement_receipt(0).is_none());
    assert_eq!(storage.get_era_task_stats(0).completed_orders, 0);
    let view = X402Settlement::new(&rt.x402);
    assert_eq!(view.get_next_intent_id(), 1);
    assert_eq!(view.get_pending_intents_count(), 1);
    assert!(view.is_nonce_used(1, 1));
    assert!(!view.is_nonce_used(1, 2));
}
