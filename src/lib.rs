//! On-chain coordination core of a GPU-compute marketplace: a reservation
//! ledger, a compute-pool scheduler, an attestation ledger, a settlement
//! ledger for payment intents and a task billing ledger.
pub mod abi;
pub mod attestation;
pub mod attestation_precompile;
pub mod billing;
pub mod codec;
pub mod compute_pool_precompile;
pub mod ledger;
pub mod query;
pub mod scheduler;
pub mod settlement;
pub mod x402_settlement_precompile;

pub use ledger::{AccountBalance, AccountId, Balance, BlockNumber, Ledger};
