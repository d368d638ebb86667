//! Authorized anonymous voting: the checks that a vote circuit makes on its
//! inputs, the bookkeeping of the election registry that records proven
//! votes, and the helpers that voters and auditors use around them.

pub mod order;
pub mod identity_map;
pub mod crypto;
pub mod types;
pub mod circuit;
pub mod encoding;
pub mod receipts;
pub mod state;
pub mod prover;
pub mod dashboard;
pub mod cli;
pub mod audit;
