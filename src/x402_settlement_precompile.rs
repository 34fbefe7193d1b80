//! EVM entry point that reads the settlement ledger:
//! `queryPaymentIntent(uint64)` and `querySettlementReceipt(uint64)`.
use vstd::prelude::*;

use crate::abi::{bool_word, push_bool_word, read_selector, read_u64_arg, selector_of, u64_arg_of, PrecompileError};
use crate::settlement::{PaymentIntentStatus, Pallet as SettlementLedger};

verus! {

/// Selector of `queryPaymentIntent(uint64)`.
pub const QUERY_PAYMENT_INTENT_SELECTOR: u32 = 0x456c_1ba6;

/// Selector of `querySettlementReceipt(uint64)`.
pub const QUERY_SETTLEMENT_RECEIPT_SELECTOR: u32 = 0x6194_96af;

/// The functions the precompile offers.
#[derive(Clone, Copy, Debug, PartialEq, Eq, Structural)]
pub enum Selector {
    QueryPaymentIntent,
    QuerySettlementReceipt,
}

pub open spec fn selector_spec(v: u32) -> Option<Selector> {
    if v == QUERY_PAYMENT_INTENT_SELECTOR {
        Some(Selector::QueryPaymentIntent)
    } else if v == QUERY_SETTLEMENT_RECEIPT_SELECTOR {
        Some(Selector::QuerySettlementReceipt)
    } else {
        None
    }
}

impl Selector {
    pub fn from_u32(v: u32) -> (r: Option<Selector>)
        ensures
            r == selector_spec(v),
    {
        if v == QUERY_PAYMENT_INTENT_SELECTOR {
            Some(Selector::QueryPaymentIntent)
        } else if v == QUERY_SETTLEMENT_RECEIPT_SELECTOR {
            Some(Selector::QuerySettlementReceipt)
        } else {
            None
        }
    }

    pub fn to_u32(self) -> (r: u32)
        ensures
            selector_spec(r) == Some(self),
    {
        match self {
            Selector::QueryPaymentIntent => QUERY_PAYMENT_INTENT_SELECTOR,
            Selector::QuerySettlementReceipt => QUERY_SETTLEMENT_RECEIPT_SELECTOR,
        }
    }
}

pub struct X402SettlementPrecompile;

impl X402SettlementPrecompile {
    /// `queryPaymentIntent` answers whether the intent exists and whether it
    /// is settled; `querySettlementReceipt` whether a receipt exists.
    pub open spec fn answer(s: SettlementLedger, sel: Selector, id: u64) -> Seq<u8> {
        match sel {
            Selector::QueryPaymentIntent => bool_word(s.has_intent(id)) + bool_word(
                s.has_intent(id) && s.intent(id).status == PaymentIntentStatus::Settled,
            ),
            Selector::QuerySettlementReceipt => bool_word(s.has_receipt(id)),
        }
    }

    /// Answers one call to the precompile.
    pub fn execute(settlement: &SettlementLedger, input: &Vec<u8>) -> (r: Result<Vec<u8>, PrecompileError>)
        ensures
            match selector_of(input@) {
                None => r == Err::<Vec<u8>, PrecompileError>(PrecompileError::InvalidInput),
                Some(v) => match selector_spec(v) {
                    None => r == Err::<Vec<u8>, PrecompileError>(PrecompileError::InvalidSelector),
                    Some(sel) => match u64_arg_of(input@) {
                        None => r == Err::<Vec<u8>, PrecompileError>(PrecompileError::DecodeFailed),
                        Some(id) => r is Ok && r->Ok_0@ == Self::answer(*settlement, sel, id),
                    },
                },
            },
    {
        let v = match read_selector(input) {
            Some(v) => v,
            None => return Err(PrecompileError::InvalidInput),
        };
        let sel = match Selector::from_u32(v) {
            Some(s) => s,
            None => return Err(PrecompileError::InvalidSelector),
        };
        let id = match read_u64_arg(input) {
            Some(id) => id,
            None => return Err(PrecompileError::DecodeFailed),
        };
        let mut out: Vec<u8> = Vec::new();
        match sel {
            Selector::QueryPaymentIntent => {
                let (exists, settled) = match settlement.get_payment_intent(id) {
                    Some(p) => (true, p.status == PaymentIntentStatus::Settled),
                    None => (false, false),
                };
                push_bool_word(&mut out, exists);
                push_bool_word(&mut out, settled);
            },
            Selector::QuerySettlementReceipt => {
                let exists = settlement.get_settlement_receipt(id).is_some();
                push_bool_word(&mut out, exists);
            },
        }
        assert(out@ =~= Self::answer(*settlement, sel, id));
        Ok(out)
    }
}

} // verus!
