//! EVM entry point to the attestation ledger: `queryNode(address)` reads a
//! node's registration, `heartbeat()` records the caller's heartbeat.
use vstd::prelude::*;

use crate::abi::{
    address_arg_of, bool_word, push_bool_word, push_uint_word, read_address_arg, read_selector,
    selector_of, uint_word, PrecompileError,
};
use crate::attestation::Pallet as AttestationLedger;
use crate::ledger::{AccountId, BlockNumber};

verus! {

/// Selector of `queryNode(address)`.
pub const QUERY_NODE_SELECTOR: u32 = 0xbac3_0981;

/// Selector of `heartbeat()`.
pub const HEARTBEAT_SELECTOR: u32 = 0x3def_b962;

/// The functions the precompile offers.
#[derive(Clone, Copy, Debug, PartialEq, Eq, Structural)]
pub enum Selector {
    QueryNode,
    Heartbeat,
}

pub open spec fn selector_spec(v: u32) -> Option<Selector> {
    if v == QUERY_NODE_SELECTOR {
        Some(Selector::QueryNode)
    } else if v == HEARTBEAT_SELECTOR {
        Some(Selector::Heartbeat)
    } else {
        None
    }
}

impl Selector {
    pub fn from_u32(v: u32) -> (r: Option<Selector>)
        ensures
            r == selector_spec(v),
    {
        if v == QUERY_NODE_SELECTOR {
            Some(Selector::QueryNode)
        } else if v == HEARTBEAT_SELECTOR {
            Some(Selector::Heartbeat)
        } else {
            None
        }
    }

    pub fn to_u32(self) -> (r: u32)
        ensures
            selector_spec(r) == Some(self),
    {
        match self {
            Selector::QueryNode => QUERY_NODE_SELECTOR,
            Selector::Heartbeat => HEARTBEAT_SELECTOR,
        }
    }
}

pub struct AttestationPrecompile;

impl AttestationPrecompile {
    /// The words `queryNode` answers for account `who`: whether it has a
    /// registered node, and the node's TFLOPS (0 when absent).
    pub open spec fn node_answer(att: AttestationLedger, who: AccountId) -> Seq<u8> {
        if att.has_node(who) {
            bool_word(true) + uint_word(att.node(who).tflops as nat)
        } else {
            bool_word(false) + uint_word(0)
        }
    }

    /// Answers one call from `caller`. `address_to_account` is the runtime's
    /// mapping from an EVM address to the account it stands for.
    pub fn execute<F: Fn(Vec<u8>) -> AccountId>(
        att: &mut AttestationLedger,
        caller: AccountId,
        input: &Vec<u8>,
        now: BlockNumber,
        address_to_account: &F,
    ) -> (r: Result<Vec<u8>, PrecompileError>)
        requires
            old(att).wf(),
            forall|v: Vec<u8>| #[trigger] call_requires(*address_to_account, (v,)),
        ensures
            final(att).wf(),
            match selector_of(input@) {
                None => r == Err::<Vec<u8>, PrecompileError>(PrecompileError::InvalidInput)
                    && *final(att) == *old(att),
                Some(v) => match selector_spec(v) {
                    None => r == Err::<Vec<u8>, PrecompileError>(PrecompileError::InvalidSelector)
                        && *final(att) == *old(att),
                    Some(Selector::QueryNode) => *final(att) == *old(att) && match address_arg_of(input@) {
                        None => r == Err::<Vec<u8>, PrecompileError>(PrecompileError::DecodeFailed),
                        Some(addr) => exists|v: Vec<u8>, who: AccountId|
                            v@ == addr && call_ensures(*address_to_account, (v,), who) && r is Ok
                                && #[trigger] r->Ok_0@ == Self::node_answer(*old(att), who),
                    },
                    Some(Selector::Heartbeat) => {
                        let ok = old(att).has_node(caller) && (now as nat) >= old(att).node(caller).last_heartbeat as nat
                            + old(att).config.heartbeat_interval as nat;
                        &&& ok ==> r is Ok && r->Ok_0@ == bool_word(true)
                            && final(att).node(caller).last_heartbeat == now
                        &&& !ok ==> r == Err::<Vec<u8>, PrecompileError>(PrecompileError::CallFailed)
                            && *final(att) == *old(att)
                    },
                },
            },
    {
        let v = match read_selector(input) {
            Some(v) => v,
            None => return Err(PrecompileError::InvalidInput),
        };
        let sel = match Selector::from_u32(v) {
            Some(s) => s,
            None => return Err(PrecompileError::InvalidSelector),
        };
        let mut out: Vec<u8> = Vec::new();
        match sel {
            Selector::QueryNode => {
                let addr = match read_address_arg(input) {
                    Some(a) => a,
                    None => return Err(PrecompileError::DecodeFailed),
                };
                let who = address_to_account(addr);
                match att.node_of(who) {
                    Some(n) => {
                        push_bool_word(&mut out, true);
                        push_uint_word(&mut out, n.tflops as u128);
                    },
                    None => {
                        push_bool_word(&mut out, false);
                        push_uint_word(&mut out, 0);
                    },
                }
                assert(out@ =~= Self::node_answer(*att, who));
                Ok(out)
            },
            Selector::Heartbeat => {
                match att.heartbeat(caller, now) {
                    Ok(()) => {
                        push_bool_word(&mut out, true);
                        assert(att.nodes@.contains_key(caller));
                        Ok(out)
                    },
                    Err(_) => Err(PrecompileError::CallFailed),
                }
            },
        }
    }
}

} // verus!
