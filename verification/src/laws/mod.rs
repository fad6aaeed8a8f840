//! What holds of the contract as a whole: of every call, of every ledger that
//! calls lead to, and of calls taken together.

pub mod controls;
pub mod history;
pub mod locality;
pub mod money;
pub mod outcomes;
pub mod reach;
pub mod reasons;
pub mod soundness;
pub mod subscription;
