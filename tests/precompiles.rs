use dbc_compute::attestation::{Config as AttestationConfig, Pallet as AttestationLedger};
use dbc_compute::attestation_precompile::{self as att_pc, AttestationPrecompile};
use dbc_compute::abi::PrecompileError;
use dbc_compute::compute_pool_precompile::{self as pool_pc, ComputePoolPrecompile};
use dbc_compute::ledger::Ledger;
use dbc_compute::scheduler::{Pallet as Scheduler, Config as SchedulerConfig, TaskDimensions, TaskPriority};
use dbc_compute::settlement::{Config as SettlementConfig, Pallet as SettlementLedger};
use dbc_compute::x402_settlement_precompile::{self as x402_pc, X402SettlementPrecompile};

fn word(v: u128) -> Vec<u8> {
    let mut w = vec![0u8; 16];
    w.extend_from_slice(&v.to_be_bytes());
    w
}

fn call(selector: u32, arg: u64) -> Vec<u8> {
    let mut input = selector.to_be_bytes().to_vec();
    input.extend(word(arg as u128));
    input
}

fn scheduler() -> (Ledger, Scheduler) {
    let mut ledger = Ledger::new();
    ledger.set_free_balance(1, 1_000_000);
    ledger.set_free_balance(2, 1_000_000);
    let mut s = Scheduler::new(SchedulerConfig {
        pool_deposit: 1_000,
        task_deposit: 100,
        failure_slash: 50,
        task_timeout: 5,
        max_gpu_model_len: 64,
        min_pool_stake: 0,
        stake_slash_percent: 0,
        max_tasks_per_pool: 16,
        initial_reputation: 80,
    });
    assert_eq!(s.register_pool(&mut ledger, 1, b"A".to_vec(), 24, false, 100, 7), Ok(0));
    assert_eq!(
        s.submit_task(&mut ledger, 2, TaskDimensions { m: 2, n: 2, k: 2 }, TaskPriority::Low, None, 1),
        Ok(0)
    );
    (ledger, s)
}

#[test]
fn selectors_are_the_signature_hashes() {
    assert_eq!(pool_pc::Selector::QueryPool.to_u32(), 0xcdf92c62);
    assert_eq!(pool_pc::Selector::QueryTask.to_u32(), 0x96c9449a);
    assert_eq!(x402_pc::Selector::QueryPaymentIntent.to_u32(), 0x456c1ba6);
    assert_eq!(x402_pc::Selector::QuerySettlementReceipt.to_u32(), 0x619496af);
    assert_eq!(pool_pc::Selector::from_u32(0x96c9449a), Some(pool_pc::Selector::QueryTask));
    assert_eq!(pool_pc::Selector::from_u32(0), None);
}

#[test]
fn query_pool_and_task_answer_words() {
    let (_ledger, s) = scheduler();
    let out = ComputePoolPrecompile::execute(&s, &call(0xcdf92c62, 0)).unwrap();
    assert_eq!(out, [word(1), word(24), word(0)].concat());
    let out = ComputePoolPrecompile::execute(&s, &call(0xcdf92c62, 5)).unwrap();
    assert_eq!(out, [word(0), word(0), word(0)].concat());
    let out = ComputePoolPrecompile::execute(&s, &call(0x96c9449a, 0)).unwrap();
    assert_eq!(out, [word(1), word(0), word(2)].concat());
    let out = ComputePoolPrecompile::execute(&s, &call(0x96c9449a, 3)).unwrap();
    assert_eq!(out, [word(0), word(0), word(255)].concat());
}

#[test]
fn malformed_calls_are_rejected() {
    let (_ledger, s) = scheduler();
    assert_eq!(ComputePoolPrecompile::execute(&s, &vec![0xcd, 0xf9]), Err(PrecompileError::InvalidInput));
    assert_eq!(ComputePoolPrecompile::execute(&s, &call(0x12345678, 0)), Err(PrecompileError::InvalidSelector));
    let mut short = call(0xcdf92c62, 0);
    short.truncate(20);
    assert_eq!(ComputePoolPrecompile::execute(&s, &short), Err(PrecompileError::DecodeFailed));
    let mut huge = 0xcdf92c62u32.to_be_bytes().to_vec();
    huge.extend(vec![1u8; 32]);
    assert_eq!(ComputePoolPrecompile::execute(&s, &huge), Err(PrecompileError::DecodeFailed));
}

#[test]
fn settlement_precompile_reports_intents_and_receipts() {
    let mut ledger = Ledger::new();
    ledger.set_free_balance(1, 1_000);
    let mut x402 = SettlementLedger::new(SettlementConfig {
        facilitator: 100,
        max_signature_len: 256,
        settlement_delay: 10,
        payment_intent_ttl: 100,
    });
    assert_eq!(x402.settle_for_attestation(&mut ledger, 1, 2, 10, 0, 1), Ok(0));
    assert_eq!(
        X402SettlementPrecompile::execute(&x402, &call(0x619496af, 0)).unwrap(),
        word(1)
    );
    assert_eq!(
        X402SettlementPrecompile::execute(&x402, &call(0x456c1ba6, 0)).unwrap(),
        [word(0), word(0)].concat()
    );
    assert_eq!(
        X402SettlementPrecompile::execute(&x402, &call(0x619496af, 1)).unwrap(),
        word(0)
    );
}

#[test]
fn attestation_precompile_queries_nodes_and_beats() {
    let mut att = AttestationLedger::new(AttestationConfig {
        attestation_deposit: 1_000,
        challenge_window: 50,
        slash_percent: 50,
        heartbeat_interval: 100,
        max_model_id_len: 256,
        max_gpu_uuid_len: 128,
        max_models_per_agent: 10,
        admin: 3,
    });
    assert_eq!(att.register_node(7, b"GPU".to_vec(), 312, 1), Ok(()));
    // The runtime maps an address to the account in its last byte.
    let to_account = |a: Vec<u8>| a[19] as u64;
    assert_eq!(att_pc::Selector::QueryNode.to_u32(), 0xbac30981);
    assert_eq!(att_pc::Selector::Heartbeat.to_u32(), 0x3defb962);
    let mut query = 0xbac30981u32.to_be_bytes().to_vec();
    query.extend(vec![0u8; 12]);
    let mut address = vec![0xaau8; 19];
    address.push(7);
    query.extend(address);
    assert_eq!(
        AttestationPrecompile::execute(&mut att, 1, &query, 1, &to_account).unwrap(),
        [word(1), word(312)].concat()
    );
    query[35] = 8;
    assert_eq!(
        AttestationPrecompile::execute(&mut att, 1, &query, 1, &to_account).unwrap(),
        [word(0), word(0)].concat()
    );
    query.truncate(30);
    assert_eq!(AttestationPrecompile::execute(&mut att, 1, &query, 1, &to_account), Err(PrecompileError::DecodeFailed));
    let beat = 0x3defb962u32.to_be_bytes().to_vec();
    assert_eq!(AttestationPrecompile::execute(&mut att, 7, &beat, 50, &to_account), Err(PrecompileError::CallFailed));
    assert_eq!(AttestationPrecompile::execute(&mut att, 7, &beat, 101, &to_account).unwrap(), word(1));
    assert_eq!(att.node_of(7).unwrap().last_heartbeat, 101);
}
