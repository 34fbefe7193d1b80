use dbc_compute::attestation::{Config as AttestationConfig, Pallet as AttestationLedger, AttestationStatus};
use dbc_compute::ledger::Ledger;
use dbc_compute::scheduler::{calculate_pool_score, calculate_reward, PoolStatus, Pallet as Scheduler, Config as SchedulerConfig, Error as SchedulerError, TaskDimensions, TaskPriority, TaskStatus};

struct Env {
    ledger: Ledger,
    sched: Scheduler,
    att: AttestationLedger,
    now: u64,
}

fn config() -> SchedulerConfig {
    SchedulerConfig {
        pool_deposit: 1_000,
        task_deposit: 100,
        failure_slash: 50,
        task_timeout: 5,
        max_gpu_model_len: 64,
        min_pool_stake: 0,
        stake_slash_percent: 0,
        max_tasks_per_pool: 16,
        initial_reputation: 80,
    }
}

fn new_test_ext() -> Env {
    let mut ledger = Ledger::new();
    for a in [1u64, 2, 3, 4, 5, 99] {
        ledger.set_free_balance(a, 1_000_000);
    }
    let att = AttestationLedger::new(AttestationConfig {
        attestation_deposit: 1_000,
        challenge_window: 50,
        slash_percent: 50,
        heartbeat_interval: 100,
        max_model_id_len: 256,
        max_gpu_uuid_len: 128,
        max_models_per_agent: 10,
        admin: 3,
    });
    Env { ledger, sched: Scheduler::new(config()), att, now: 1 }
}

fn gpu_model() -> Vec<u8> {
    b"RTX-4090".to_vec()
}

fn dims() -> TaskDimensions {
    TaskDimensions { m: 8, n: 8, k: 8 }
}

impl Env {
    fn register(&mut self, who: u64, mem: u32, nvlink: bool, eff: u32, price: u128) -> Result<u64, SchedulerError> {
        self.sched.register_pool(&mut self.ledger, who, gpu_model(), mem, nvlink, eff, price)
    }
    fn submit(&mut self, who: u64, d: TaskDimensions, pref: Option<u64>) -> Result<u64, SchedulerError> {
        self.sched.submit_task(&mut self.ledger, who, d, TaskPriority::Normal, pref, self.now)
    }
    fn prove(&mut self, who: u64, task: u64, hash: [u8; 32], ok: bool) -> Result<(), SchedulerError> {
        self.sched.submit_proof(&mut self.ledger, &mut self.att, who, task, hash, ok, self.now).map(|_| ())
    }
}

#[test]
fn mock_runtime_should_bootstrap() {
    let env = new_test_ext();
    assert_eq!(env.now, 1);
}

#[test]
fn register_pool_works() {
    let mut env = new_test_ext();
    assert_eq!(env.register(1, 24, true, 130, 100), Ok(0));
    let pool = env.sched.pools(0).unwrap();
    assert_eq!(pool.owner, 1);
    assert_eq!(pool.gpu_memory, 24);
    assert!(pool.has_nvlink);
    assert_eq!(pool.reputation, 80);
    assert_eq!(pool.status, PoolStatus::Active);
    assert_eq!(env.ledger.reserved_balance(1), 1_000);
}

#[test]
fn register_pool_duplicate_fails() {
    let mut env = new_test_ext();
    assert_eq!(env.register(1, 24, true, 130, 100), Ok(0));
    assert_eq!(env.register(1, 24, true, 130, 100), Err(SchedulerError::PoolAlreadyExists));
}

#[test]
fn register_pool_zero_memory_fails() {
    let mut env = new_test_ext();
    assert_eq!(env.register(1, 0, false, 100, 100), Err(SchedulerError::InvalidDimensions));
}

#[test]
fn register_pool_zero_price_fails() {
    let mut env = new_test_ext();
    assert_eq!(env.register(1, 24, false, 100, 0), Err(SchedulerError::InsufficientBalance));
}

#[test]
fn register_pool_rejects_nvlink_efficiency_outside_band() {
    let mut env = new_test_ext();
    assert_eq!(env.register(1, 24, false, 120, 10), Err(SchedulerError::InvalidNvlinkEfficiency));
    assert_eq!(env.register(1, 24, true, 100, 10), Err(SchedulerError::InvalidNvlinkEfficiency));
    assert_eq!(env.register(1, 24, true, 151, 10), Err(SchedulerError::InvalidNvlinkEfficiency));
    assert_eq!(env.register(1, 24, true, 119, 10), Err(SchedulerError::InvalidNvlinkEfficiency));
    assert_eq!(env.register(1, 24, true, 150, 10), Ok(0));
    assert_eq!(env.register(2, 24, true, 120, 10), Ok(1));
}

#[test]
fn submit_task_works() {
    let mut env = new_test_ext();
    assert_eq!(env.register(1, 24, true, 130, 100), Ok(0));
    assert_eq!(env.submit(2, dims(), None), Ok(0));
    let task = env.sched.tasks(0).unwrap();
    assert_eq!(task.user, 2);
    assert_eq!(task.pool_id, 0);
    assert_eq!(task.status, TaskStatus::Computing);
    // 8·8·8 is below one complexity unit; NVLink at 130% scales the price.
    assert_eq!(task.reward_amount, Some(130));
    assert_eq!(env.ledger.reserved_balance(2), 230);
    assert_eq!(env.sched.active_task_count(0), 1);
}

#[test]
fn submit_task_no_pool_fails() {
    let mut env = new_test_ext();
    assert_eq!(env.submit(2, dims(), None), Err(SchedulerError::NoAvailablePool));
}

#[test]
fn submit_task_invalid_dimensions_fails() {
    let mut env = new_test_ext();
    assert_eq!(env.register(1, 24, true, 130, 100), Ok(0));
    assert_eq!(
        env.submit(2, TaskDimensions { m: 0, n: 64, k: 64 }, None),
        Err(SchedulerError::InvalidDimensions)
    );
}

#[test]
fn deregister_pool_works() {
    let mut env = new_test_ext();
    assert_eq!(env.register(1, 24, false, 100, 100), Ok(0));
    assert_eq!(env.sched.deregister_pool(&mut env.ledger, 1, 0), Ok(()));
    match env.sched.pools(0) {
        Some(pool) => assert_eq!(pool.status, PoolStatus::Deregistered),
        None => {}
    }
    assert_eq!(env.ledger.reserved_balance(1), 0);
}

#[test]
fn deregister_pool_not_owner_fails() {
    let mut env = new_test_ext();
    assert_eq!(env.register(1, 24, false, 100, 100), Ok(0));
    assert_eq!(env.sched.deregister_pool(&mut env.ledger, 2, 0), Err(SchedulerError::NotPoolOwner));
}

#[test]
fn submit_proof_works() {
    let mut env = new_test_ext();
    assert_eq!(env.register(1, 24, true, 130, 100), Ok(0));
    assert_eq!(env.submit(2, dims(), None), Ok(0));
    assert_eq!(env.prove(1, 0, [42u8; 32], true), Ok(()));
    let task = env.sched.tasks(0).unwrap();
    assert_eq!(task.status, TaskStatus::Completed);
    assert_eq!(task.proof_hash, Some([42u8; 32]));
    assert_eq!(task.verification_result, Some(true));
    assert_eq!(env.sched.rewards(0), Some(130));
}

#[test]
fn verify_proof_works() {
    let mut env = new_test_ext();
    assert_eq!(env.register(1, 24, true, 130, 100), Ok(0));
    assert_eq!(env.submit(2, dims(), None), Ok(0));
    assert_eq!(env.prove(1, 0, [42u8; 32], true), Ok(()));
    let task = env.sched.tasks(0).unwrap();
    assert_eq!(task.status, TaskStatus::Completed);
    assert_eq!(task.verification_result, Some(true));
    let pool = env.sched.pools(0).unwrap();
    assert_eq!(pool.reputation, 81);
    assert_eq!(pool.completed_tasks, 1);
    assert_eq!(pool.success_rate, 100);
}

#[test]
fn verify_proof_reject_works() {
    let mut env = new_test_ext();
    assert_eq!(env.register(1, 24, true, 130, 100), Ok(0));
    assert_eq!(env.submit(2, dims(), None), Ok(0));
    assert_eq!(env.prove(1, 0, [42u8; 32], false), Ok(()));
    let task = env.sched.tasks(0).unwrap();
    assert_eq!(task.status, TaskStatus::Failed);
    assert_eq!(task.verification_result, Some(false));
    // The escrow went back to the user and the pool lost part of its deposit.
    assert_eq!(env.ledger.reserved_balance(2), 0);
    assert_eq!(env.sched.pools(0).unwrap().deposit_held, 950);
    assert_eq!(env.ledger.reserved_balance(1), 950);
    assert_eq!(env.sched.pools(0).unwrap().reputation, 78);
    assert_eq!(env.sched.pools(0).unwrap().success_rate, 0);
}

#[test]
fn self_verification_fails() {
    let mut env = new_test_ext();
    assert_eq!(env.register(1, 24, true, 130, 100), Ok(0));
    assert_eq!(env.submit(2, dims(), None), Ok(0));
    assert_eq!(env.prove(1, 0, [42u8; 32], true), Ok(()));
    // Only the task's user may dispute the verdict, not the pool owner.
    assert_eq!(
        env.sched.dispute_verification(&mut env.ledger, 1, 0),
        Err(SchedulerError::NotTaskUser)
    );
    let task = env.sched.tasks(0).unwrap();
    assert_eq!(task.status, TaskStatus::Completed);
}

#[test]
fn auto_verify_on_timeout() {
    let mut env = new_test_ext();
    assert_eq!(env.register(1, 24, true, 130, 100), Ok(0));
    assert_eq!(env.submit(2, dims(), None), Ok(0));
    // Submitted at block 1 with a timeout of 5: block 6 is still in time.
    assert_eq!(env.sched.on_initialize(&mut env.ledger, 6), Vec::<u64>::new());
    assert_eq!(env.sched.tasks(0).unwrap().status, TaskStatus::Computing);
    assert_eq!(env.sched.on_initialize(&mut env.ledger, 7), vec![0]);
    let task = env.sched.tasks(0).unwrap();
    assert_eq!(task.status, TaskStatus::Failed);
    assert_eq!(task.verification_result, Some(false));
    assert_eq!(env.ledger.reserved_balance(2), 0);
    assert_eq!(env.sched.active_task_count(0), 0);
    env.now = 7;
    assert_eq!(env.prove(1, 0, [42u8; 32], true), Err(SchedulerError::InvalidTaskState));
}

#[test]
fn staking_works() {
    let mut env = new_test_ext();
    assert_eq!(env.register(1, 24, true, 130, 100), Ok(0));
    assert_eq!(env.sched.stake_to_pool(&mut env.ledger, 2, 0, 5_000), Ok(()));
    assert_eq!(env.sched.pool_stakes(0, 2), 5_000);
    assert_eq!(env.sched.total_pool_stake(0), 5_000);
    assert_eq!(env.sched.unstake_from_pool(&mut env.ledger, 2, 0, 3_000), Ok(()));
    assert_eq!(env.sched.pool_stakes(0, 2), 2_000);
    assert_eq!(env.sched.total_pool_stake(0), 2_000);
    assert_eq!(
        env.sched.unstake_from_pool(&mut env.ledger, 2, 0, 2_001),
        Err(SchedulerError::StakeNotFound)
    );
    assert_eq!(env.sched.stake_to_pool(&mut env.ledger, 2, 7, 1), Err(SchedulerError::PoolNotFound));
}

#[test]
fn stake_then_unstake_restores_state() {
    let mut env = new_test_ext();
    assert_eq!(env.register(1, 24, false, 100, 100), Ok(0));
    let free = env.ledger.free_balance(3);
    let reserved = env.ledger.reserved_balance(3);
    assert_eq!(env.sched.stake_to_pool(&mut env.ledger, 3, 0, 777), Ok(()));
    assert_eq!(env.ledger.reserved_balance(3), reserved + 777);
    assert_eq!(env.sched.unstake_from_pool(&mut env.ledger, 3, 0, 777), Ok(()));
    assert_eq!(env.ledger.free_balance(3), free);
    assert_eq!(env.ledger.reserved_balance(3), reserved);
    assert_eq!(env.sched.pool_stakes(0, 3), 0);
    assert_eq!(env.sched.total_pool_stake(0), 0);
}

#[test]
fn reward_with_unit_dimensions_is_the_price() {
    assert_eq!(calculate_reward(TaskDimensions { m: 1, n: 1, k: 1 }, 10, false, 100), Some(10));
    assert_eq!(calculate_reward(TaskDimensions { m: 100, n: 100, k: 10 }, 10, false, 100), Some(10));
    assert_eq!(calculate_reward(TaskDimensions { m: 1000, n: 1000, k: 3 }, 10, false, 100), Some(30));
    assert_eq!(calculate_reward(TaskDimensions { m: 1000, n: 1000, k: 3 }, 10, true, 150), Some(45));
    assert_eq!(calculate_reward(TaskDimensions { m: 1000, n: 1000, k: 3 }, u128::MAX, false, 100), None);
}

#[test]
fn pool_score_weights_and_equal_prices() {
    // min == max: the price component is a full 100.
    let s = calculate_pool_score(80, 100, 10, false, 100, 10, 10);
    assert_eq!(s.price_score, 2_000);
    assert_eq!(s.reputation_score, 3_200);
    assert_eq!(s.success_rate_score, 3_000);
    assert_eq!(s.nvlink_score, 0);
    assert_eq!(s.final_score, 8_200);
    // The most expensive candidate gets no price component.
    let s = calculate_pool_score(100, 100, 20, true, 150, 10, 20);
    assert_eq!(s.price_score, 0);
    assert_eq!(s.nvlink_score, 1_000);
    assert_eq!(s.final_score, 8_000);
    // Halfway between the extremes.
    let s = calculate_pool_score(0, 0, 15, true, 120, 10, 20);
    assert_eq!(s.price_score, 1_000);
    assert_eq!(s.nvlink_score, 800);
}

#[test]
fn selection_prefers_the_cheaper_pool_and_first_on_ties() {
    let mut env = new_test_ext();
    assert_eq!(env.register(1, 24, false, 100, 20), Ok(0));
    assert_eq!(env.register(2, 24, false, 100, 10), Ok(1));
    assert_eq!(env.register(3, 24, false, 100, 10), Ok(2));
    assert_eq!(env.sched.select_best_pool_for_task(8).map(|(w, _)| w), Some(1));
    // A pool without enough memory is no candidate.
    assert_eq!(env.sched.select_best_pool_for_task(25), None);
    assert_eq!(env.submit(4, dims(), None), Ok(0));
    assert_eq!(env.sched.tasks(0).unwrap().pool_id, 1);
    assert_eq!(env.sched.pools(1).unwrap().score.final_score, 3_200 + 3_000 + 2_000);
}

#[test]
fn pool_at_task_cap_refuses_more_tasks() {
    let mut env = new_test_ext();
    assert_eq!(env.register(1, 24, false, 100, 1), Ok(0));
    for i in 0..16u64 {
        assert_eq!(env.submit(2, dims(), Some(0)), Ok(i));
    }
    assert_eq!(env.sched.active_task_count(0), 16);
    assert_eq!(env.submit(2, dims(), Some(0)), Err(SchedulerError::TooManyActiveTasks));
    assert_eq!(env.submit(2, dims(), None), Err(SchedulerError::NoAvailablePool));
}

#[test]
fn submit_proof_rejects_zero_hash_stranger_and_late_proof() {
    let mut env = new_test_ext();
    assert_eq!(env.register(1, 24, false, 100, 100), Ok(0));
    assert_eq!(env.submit(2, dims(), None), Ok(0));
    assert_eq!(env.prove(1, 0, [0u8; 32], true), Err(SchedulerError::InvalidProof));
    assert_eq!(env.prove(2, 0, [1u8; 32], true), Err(SchedulerError::NotAssignedPoolOwner));
    assert_eq!(env.prove(1, 9, [1u8; 32], true), Err(SchedulerError::TaskNotFound));
    env.now = 7;
    assert_eq!(env.prove(1, 0, [1u8; 32], true), Err(SchedulerError::TaskExpired));
    env.now = 6;
    assert_eq!(env.prove(1, 0, [1u8; 32], true), Ok(()));
}

#[test]
fn proof_reports_the_attestation_it_opened() {
    let mut env = new_test_ext();
    assert_eq!(env.register(1, 24, false, 100, 100), Ok(0));
    assert_eq!(env.submit(2, dims(), None), Ok(0));
    assert_eq!(env.submit(2, dims(), None), Ok(1));
    assert_eq!(env.submit(2, dims(), None), Ok(2));
    assert_eq!(env.sched.submit_proof(&mut env.ledger, &mut env.att, 1, 0, [5u8; 32], true, 1), Ok(Some(0)));
    assert_eq!(env.sched.submit_proof(&mut env.ledger, &mut env.att, 1, 1, [5u8; 32], false, 1), Ok(None));
    // The owner cannot cover another attestation deposit: the verdict stands
    // without an attestation.
    let free = env.ledger.free_balance(1);
    env.ledger.set_free_balance(1, 999);
    assert_eq!(env.sched.submit_proof(&mut env.ledger, &mut env.att, 1, 2, [6u8; 32], true, 1), Ok(None));
    assert_eq!(env.sched.tasks(2).unwrap().status, TaskStatus::Completed);
    assert!(env.att.attestation_of(1).is_none());
    assert!(free > 999);
}

#[test]
fn successful_proof_opens_an_attestation() {
    let mut env = new_test_ext();
    assert_eq!(env.register(1, 24, false, 100, 100), Ok(0));
    assert_eq!(env.submit(2, dims(), None), Ok(0));
    assert_eq!(env.prove(1, 0, [5u8; 32], true), Ok(()));
    let a = env.att.attestation_of(0).unwrap();
    assert_eq!(a.attester, 1);
    assert_eq!(a.task_id, 0);
    assert_eq!(a.result_hash, [5u8; 32]);
    assert_eq!(a.status, AttestationStatus::Pending);
    assert_eq!(env.ledger.reserved_balance(1), 2_000);
}

#[test]
fn claim_reward_pays_the_owner_once() {
    let mut env = new_test_ext();
    assert_eq!(env.register(1, 24, false, 100, 100), Ok(0));
    assert_eq!(env.submit(2, dims(), None), Ok(0));
    assert_eq!(env.sched.claim_reward(&mut env.ledger, 1, 0), Err(SchedulerError::InvalidTaskState));
    assert_eq!(env.prove(1, 0, [5u8; 32], true), Ok(()));
    let owner_free = env.ledger.free_balance(1);
    let user_free = env.ledger.free_balance(2);
    assert_eq!(env.sched.claim_reward(&mut env.ledger, 2, 0), Err(SchedulerError::NotAssignedPoolOwner));
    assert_eq!(env.sched.claim_reward(&mut env.ledger, 1, 0), Ok(()));
    assert_eq!(env.ledger.free_balance(1), owner_free + 100);
    assert_eq!(env.ledger.free_balance(2), user_free + 100);
    assert_eq!(env.ledger.reserved_balance(2), 0);
    assert_eq!(env.sched.rewards(0), None);
    assert_eq!(env.sched.claim_reward(&mut env.ledger, 1, 0), Err(SchedulerError::RewardNotAvailable));
}

#[test]
fn dispute_flips_a_verified_task_and_slashes() {
    let mut env = new_test_ext();
    assert_eq!(env.register(1, 24, false, 100, 100), Ok(0));
    assert_eq!(env.submit(2, dims(), None), Ok(0));
    assert_eq!(env.prove(1, 0, [5u8; 32], true), Ok(()));
    let rep = env.sched.pools(0).unwrap().reputation;
    assert_eq!(env.sched.dispute_verification(&mut env.ledger, 2, 0), Ok(()));
    let task = env.sched.tasks(0).unwrap();
    assert_eq!(task.status, TaskStatus::Failed);
    assert_eq!(task.verification_result, Some(false));
    assert_eq!(env.ledger.reserved_balance(2), 0);
    assert_eq!(env.sched.pools(0).unwrap().deposit_held, 950);
    assert_eq!(env.sched.pools(0).unwrap().reputation, rep - 2);
    assert_eq!(env.sched.rewards(0), None);
    // A second dispute is refused and changes nothing.
    let user_free = env.ledger.free_balance(2);
    assert_eq!(
        env.sched.dispute_verification(&mut env.ledger, 2, 0),
        Err(SchedulerError::DisputeNotAllowed)
    );
    assert_eq!(env.sched.tasks(0).unwrap().status, TaskStatus::Failed);
    assert_eq!(env.sched.tasks(0).unwrap().verification_result, Some(false));
    assert_eq!(env.sched.rewards(0), None);
    assert_eq!(env.ledger.free_balance(2), user_free);
    assert_eq!(env.sched.pools(0).unwrap().deposit_held, 950);
}

#[test]
fn dispute_of_a_failed_verdict_reinstates_the_reward_once() {
    let mut env = new_test_ext();
    assert_eq!(env.register(1, 24, false, 100, 100), Ok(0));
    assert_eq!(env.submit(2, dims(), None), Ok(0));
    assert_eq!(env.prove(1, 0, [5u8; 32], false), Ok(()));
    assert_eq!(env.sched.pools(0).unwrap().reputation, 78);
    assert_eq!(env.sched.dispute_verification(&mut env.ledger, 2, 0), Ok(()));
    assert_eq!(env.sched.tasks(0).unwrap().status, TaskStatus::Completed);
    assert_eq!(env.sched.tasks(0).unwrap().verification_result, Some(true));
    assert_eq!(env.sched.rewards(0), Some(100));
    assert_eq!(env.sched.pools(0).unwrap().reputation, 79);
    assert_eq!(
        env.sched.dispute_verification(&mut env.ledger, 2, 0),
        Err(SchedulerError::DisputeNotAllowed)
    );
    assert_eq!(env.sched.tasks(0).unwrap().status, TaskStatus::Completed);
}

#[test]
fn price_component_is_exact_at_the_extremes() {
    // The most expensive of a full-range spread gets nothing.
    let s = calculate_pool_score(0, 0, u128::MAX, false, 100, 0, u128::MAX);
    assert_eq!(s.price_score, 0);
    // The cheapest gets everything.
    let s = calculate_pool_score(0, 0, 0, false, 100, 0, u128::MAX);
    assert_eq!(s.price_score, 2_000);
    // Just under half way: 100 − floor(100·(2^127 − 1)/(2^128 − 1)) = 51.
    let s = calculate_pool_score(0, 0, (1u128 << 127) - 1, false, 100, 0, u128::MAX);
    assert_eq!(s.price_score, 51 * 20);
    let s = calculate_pool_score(0, 0, u128::MAX / 3 * 2, false, 100, 0, u128::MAX);
    assert_eq!(s.price_score, 34 * 20);
}

#[test]
fn dispute_of_running_task_is_not_allowed() {
    let mut env = new_test_ext();
    assert_eq!(env.register(1, 24, false, 100, 100), Ok(0));
    assert_eq!(env.submit(2, dims(), None), Ok(0));
    assert_eq!(
        env.sched.dispute_verification(&mut env.ledger, 2, 0),
        Err(SchedulerError::DisputeNotAllowed)
    );
    assert_eq!(env.sched.deregister_pool(&mut env.ledger, 1, 0), Err(SchedulerError::ActiveTasksExist));
}

#[test]
fn schedule_compute_picks_best_plain_score() {
    let mut env = new_test_ext();
    assert_eq!(env.sched.schedule_compute(9, (1, 1, 1), 1), Err(SchedulerError::NoAvailablePool));
    assert_eq!(env.register(1, 24, false, 100, 40), Ok(0));
    assert_eq!(env.register(2, 24, false, 100, 30), Ok(1));
    assert_eq!(env.sched.schedule_compute(9, (4, 4, 4), 1), Ok((0, 1, 40)));
    assert!(!env.sched.is_task_completed(0));
    assert_eq!(env.sched.tasks(0).unwrap().status, TaskStatus::Computing);
    assert_eq!(env.sched.active_task_count(0), 1);
}

#[test]
fn stake_total_that_would_overflow_is_refused() {
    let mut env = new_test_ext();
    assert_eq!(env.register(1, 24, false, 100, 100), Ok(0));
    env.ledger.set_free_balance(3, u128::MAX);
    assert_eq!(env.sched.stake_to_pool(&mut env.ledger, 3, 0, u128::MAX), Ok(()));
    assert_eq!(env.sched.stake_to_pool(&mut env.ledger, 4, 0, 1), Err(SchedulerError::ArithmeticOverflow));
    assert_eq!(env.ledger.reserved_balance(4), 0);
    assert_eq!(env.sched.pool_stakes(0, 4), 0);
    assert_eq!(env.sched.total_pool_stake(0), u128::MAX);
    assert_eq!(env.sched.unstake_from_pool(&mut env.ledger, 3, 0, u128::MAX), Ok(()));
    assert_eq!(env.sched.total_pool_stake(0), 0);
    assert_eq!(env.sched.stake_to_pool(&mut env.ledger, 4, 0, 1), Ok(()));
    assert_eq!(env.sched.pool_stakes(0, 4), 1);
    assert_eq!(env.sched.pool_stakes(0, 3), 0);
}
