//! Invoices that several recipients are paid from: a creator defines an invoice
//! with recipients and amounts, payers contribute, and once it is fully paid the
//! funds are routed to the recipients. If the deadline passes first, payers are
//! refunded.
//!
//! The entry points are those of [`SplitContract`]. They work on a [`Ledger`]: what
//! the contract sees of the ledger it runs on, and the effects that it asks for.
//! [`model`] states what each of them does, and [`laws`] what follows for all of
//! them together.

pub mod arith;
pub mod completion;
pub mod contract;
pub mod creation;
pub mod error;
pub mod laws;
pub mod ledger;
pub mod model;
pub mod routing;
pub mod table;
pub mod types;

pub use arith::{checked_mul_div, checked_sum};
pub use completion::completion_payload;
pub use contract::SplitContract;
pub use error::Error;
pub use ledger::{get_audit_log, Ledger, LedgerView, Storage, StorageView};
pub use table::{Duplicate, Key, Table};
pub use types::{
    Action, Address, AuditEntry, CompletionProof, Effect, EffectView, Event, EventView, Id256,
    Invoice, InvoiceStatus, InvoiceView, Payment, PlanKey, SubscriptionParams,
    SubscriptionParamsView, Terms, TermsView, Transfer,
};
