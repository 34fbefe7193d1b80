//! EVM entry point that reads the compute scheduler: `queryPool(uint64)` and
//! `queryTask(uint64)`.
use vstd::prelude::*;

use crate::abi::{bool_word, push_bool_word, push_uint_word, read_selector, read_u64_arg, selector_of, u64_arg_of, uint_word, PrecompileError};
use crate::scheduler::{Pallet as Scheduler, TaskStatus};

verus! {

/// Selector of `queryPool(uint64)`.
pub const QUERY_POOL_SELECTOR: u32 = 0xcdf9_2c62;

/// Selector of `queryTask(uint64)`.
pub const QUERY_TASK_SELECTOR: u32 = 0x96c9_449a;

/// Status code reported for a task that does not exist.
pub const NO_TASK_STATUS: u8 = 255;

/// The functions the precompile offers.
#[derive(Clone, Copy, Debug, PartialEq, Eq, Structural)]
pub enum Selector {
    QueryPool,
    QueryTask,
}

pub open spec fn selector_spec(v: u32) -> Option<Selector> {
    if v == QUERY_POOL_SELECTOR {
        Some(Selector::QueryPool)
    } else if v == QUERY_TASK_SELECTOR {
        Some(Selector::QueryTask)
    } else {
        None
    }
}

impl Selector {
    pub fn from_u32(v: u32) -> (r: Option<Selector>)
        ensures
            r == selector_spec(v),
    {
        if v == QUERY_POOL_SELECTOR {
            Some(Selector::QueryPool)
        } else if v == QUERY_TASK_SELECTOR {
            Some(Selector::QueryTask)
        } else {
            None
        }
    }

    pub fn to_u32(self) -> (r: u32)
        ensures
            selector_spec(r) == Some(self),
    {
        match self {
            Selector::QueryPool => QUERY_POOL_SELECTOR,
            Selector::QueryTask => QUERY_TASK_SELECTOR,
        }
    }
}

/// The code a task status is reported with: its position in the lifecycle.
pub open spec fn status_code(s: TaskStatus) -> u8 {
    match s {
        TaskStatus::Pending => 0,
        TaskStatus::Assigned => 1,
        TaskStatus::Computing => 2,
        TaskStatus::ProofSubmitted => 3,
        TaskStatus::Verifying => 4,
        TaskStatus::Completed => 5,
        TaskStatus::Failed => 6,
    }
}

fn task_status_code(s: TaskStatus) -> (r: u8)
    ensures
        r == status_code(s),
{
    match s {
        TaskStatus::Pending => 0,
        TaskStatus::Assigned => 1,
        TaskStatus::Computing => 2,
        TaskStatus::ProofSubmitted => 3,
        TaskStatus::Verifying => 4,
        TaskStatus::Completed => 5,
        TaskStatus::Failed => 6,
    }
}

pub struct ComputePoolPrecompile;

impl ComputePoolPrecompile {
    /// The words `queryPool` answers for pool `id`: whether it exists, its
    /// GPU memory and its total of finished tasks (zeros when absent).
    pub open spec fn pool_answer(s: Scheduler, id: u64) -> Seq<u8> {
        if s.has_pool(id) {
            bool_word(true) + uint_word(s.pool(id).gpu_memory as nat) + uint_word(
                s.pool(id).total_tasks as nat,
            )
        } else {
            bool_word(false) + uint_word(0) + uint_word(0)
        }
    }

    /// The words `queryTask` answers for task `id`: whether it exists, its
    /// pool and its status code (255 when absent).
    pub open spec fn task_answer(s: Scheduler, id: u64) -> Seq<u8> {
        if s.has_task(id) {
            bool_word(true) + uint_word(s.task(id).pool_id as nat) + uint_word(
                status_code(s.task(id).status) as nat,
            )
        } else {
            bool_word(false) + uint_word(0) + uint_word(NO_TASK_STATUS as nat)
        }
    }

    /// Answers one call to the precompile.
    pub fn execute(scheduler: &Scheduler, input: &Vec<u8>) -> (r: Result<Vec<u8>, PrecompileError>)
        ensures
            match selector_of(input@) {
                None => r == Err::<Vec<u8>, PrecompileError>(PrecompileError::InvalidInput),
                Some(v) => match selector_spec(v) {
                    None => r == Err::<Vec<u8>, PrecompileError>(PrecompileError::InvalidSelector),
                    Some(sel) => match u64_arg_of(input@) {
                        None => r == Err::<Vec<u8>, PrecompileError>(PrecompileError::DecodeFailed),
                        Some(id) => r is Ok && r->Ok_0@ == (if sel == Selector::QueryPool {
                            Self::pool_answer(*scheduler, id)
                        } else {
                            Self::task_answer(*scheduler, id)
                        }),
                    },
                },
            },
    {
        let v = match read_selector(input) {
            Some(v) => v,
            None => return Err(PrecompileError::InvalidInput),
        };
        let sel = match Selector::from_u32(v) {
            Some(s) => s,
            None => return Err(PrecompileError::InvalidSelector),
        };
        let id = match read_u64_arg(input) {
            Some(id) => id,
            None => return Err(PrecompileError::DecodeFailed),
        };
        let mut out: Vec<u8> = Vec::new();
        match sel {
            Selector::QueryPool => match scheduler.pools(id) {
                Some(p) => {
                    push_bool_word(&mut out, true);
                    push_uint_word(&mut out, p.gpu_memory as u128);
                    push_uint_word(&mut out, p.total_tasks as u128);
                },
                None => {
                    push_bool_word(&mut out, false);
                    push_uint_word(&mut out, 0);
                    push_uint_word(&mut out, 0);
                },
            },
            Selector::QueryTask => match scheduler.tasks(id) {
                Some(t) => {
                    push_bool_word(&mut out, true);
                    push_uint_word(&mut out, t.pool_id as u128);
                    push_uint_word(&mut out, task_status_code(t.status) as u128);
                },
                None => {
                    push_bool_word(&mut out, false);
                    push_uint_word(&mut out, 0);
                    push_uint_word(&mut out, NO_TASK_STATUS as u128);
                },
            },
        }
        assert(out@ =~= (if sel == Selector::QueryPool {
            Self::pool_answer(*scheduler, id)
        } else {
            Self::task_answer(*scheduler, id)
        }));
        Ok(out)
    }
}

} // verus!
