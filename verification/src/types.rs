//! The data of the contract: addresses, invoices and what hangs off them, and
//! the mathematical views in which contracts speak of them.

use vstd::prelude::*;

use crate::table::{Duplicate, Key};

verus! {

/// A 256-bit identifier, as its upper and its lower half.
#[derive(Clone, Copy, Debug, PartialEq, Eq, Structural)]
pub struct Id256 {
    pub hi: u128,
    pub lo: u128,
}

/// An address on the ledger: an account, by its public key, or a contract, by
/// its hash.
#[derive(Clone, Copy, Debug, PartialEq, Eq, Structural)]
pub enum Address {
    Account(Id256),
    Contract(Id256),
}

impl Key for Address {
    fn same(&self, other: &Self) -> (r: bool) {
        *self == *other
    }
}

/// A payer and an invoice: what an installment plan belongs to.
#[derive(Clone, Copy, Debug, PartialEq, Eq, Structural)]
pub struct PlanKey {
    pub payer: Address,
    pub invoice_id: u64,
}

impl Key for PlanKey {
    fn same(&self, other: &Self) -> (r: bool) {
        *self == *other
    }
}

/// Where an invoice stands. Every invoice starts out pending and leaves that
/// status at most once.
#[derive(Clone, Copy, Debug, PartialEq, Eq, Structural)]
pub enum InvoiceStatus {
    Pending,
    Released,
    Refunded,
    Cancelled,
}

/// One payment towards an invoice.
#[derive(Clone, Copy, Debug, PartialEq, Eq, Structural)]
pub struct Payment {
    pub payer: Address,
    pub amount: i128,
}

/// What was done to an invoice.
#[derive(Clone, Copy, Debug, PartialEq, Eq, Structural)]
pub enum Action {
    Pay,
    Release,
    Refund,
    Cancel,
    Extend,
}

impl Action {
    /// The symbol under which an action is recorded on the ledger.
    pub open spec fn symbol_text(self) -> Seq<char> {
        match self {
            Action::Pay => "pay"@,
            Action::Release => "release"@,
            Action::Refund => "refund"@,
            Action::Cancel => "cancel"@,
            Action::Extend => "extend"@,
        }
    }

    /// The symbol under which an action is recorded on the ledger.
    pub fn symbol(&self) -> (text: &'static str)
        ensures
            text@ == self.symbol_text(),
    {
        match self {
            Action::Pay => "pay",
            Action::Release => "release",
            Action::Refund => "refund",
            Action::Cancel => "cancel",
            Action::Extend => "extend",
        }
    }
}

/// An entry of an invoice's audit log.
#[derive(Clone, Copy, Debug, PartialEq, Eq, Structural)]
pub struct AuditEntry {
    pub action: Action,
    pub actor: Address,
    pub timestamp: u64,
}

/// An invoice: who is owed how much and in which token, and what has been paid.
/// `recipients`, `amounts` and `tokens` run in parallel.
#[derive(Debug)]
pub struct Invoice {
    pub creator: Address,
    pub recipients: Vec<Address>,
    pub amounts: Vec<i128>,
    pub tokens: Vec<Address>,
    pub deadline: u64,
    pub funded: i128,
    pub status: InvoiceStatus,
    pub payments: Vec<Payment>,
    pub frozen: bool,
    pub recurring: bool,
    /// The time between the invoice's creation and its first deadline.
    pub original_duration: u64,
}

/// The mathematical content of an [`Invoice`].
#[verifier::ext_equal]
pub struct InvoiceView {
    pub creator: Address,
    pub recipients: Seq<Address>,
    pub amounts: Seq<i128>,
    pub tokens: Seq<Address>,
    pub deadline: u64,
    pub funded: i128,
    pub status: InvoiceStatus,
    pub payments: Seq<Payment>,
    pub frozen: bool,
    pub recurring: bool,
    pub original_duration: u64,
}

impl View for Invoice {
    type V = InvoiceView;

    open spec fn view(&self) -> InvoiceView {
        InvoiceView {
            creator: self.creator,
            recipients: self.recipients@,
            amounts: self.amounts@,
            tokens: self.tokens@,
            deadline: self.deadline,
            funded: self.funded,
            status: self.status,
            payments: self.payments@,
            frozen: self.frozen,
            recurring: self.recurring,
            original_duration: self.original_duration,
        }
    }
}

impl Duplicate for Invoice {
    fn duplicate(&self) -> (r: Self) {
        Invoice {
            creator: self.creator,
            recipients: self.recipients.duplicate(),
            amounts: self.amounts.duplicate(),
            tokens: self.tokens.duplicate(),
            deadline: self.deadline,
            funded: self.funded,
            status: self.status,
            payments: self.payments.duplicate(),
            frozen: self.frozen,
            recurring: self.recurring,
            original_duration: self.original_duration,
        }
    }
}

/// What an invoice is made from.
#[derive(Debug)]
pub struct Terms {
    pub creator: Address,
    pub recipients: Vec<Address>,
    pub amounts: Vec<i128>,
    pub tokens: Vec<Address>,
    pub deadline: u64,
    pub recurring: bool,
}

/// The mathematical content of [`Terms`].
#[verifier::ext_equal]
pub struct TermsView {
    pub creator: Address,
    pub recipients: Seq<Address>,
    pub amounts: Seq<i128>,
    pub tokens: Seq<Address>,
    pub deadline: u64,
    pub recurring: bool,
}

impl View for Terms {
    type V = TermsView;

    open spec fn view(&self) -> TermsView {
        TermsView {
            creator: self.creator,
            recipients: self.recipients@,
            amounts: self.amounts@,
            tokens: self.tokens@,
            deadline: self.deadline,
            recurring: self.recurring,
        }
    }
}

/// What the invoices of a subscription are made from, and how many of them are
/// still to be made.
#[derive(Debug)]
pub struct SubscriptionParams {
    pub creator: Address,
    pub recipients: Vec<Address>,
    pub amounts: Vec<i128>,
    pub tokens: Vec<Address>,
    pub remaining: u32,
}

/// The mathematical content of [`SubscriptionParams`].
#[verifier::ext_equal]
pub struct SubscriptionParamsView {
    pub creator: Address,
    pub recipients: Seq<Address>,
    pub amounts: Seq<i128>,
    pub tokens: Seq<Address>,
    pub remaining: u32,
}

impl View for SubscriptionParams {
    type V = SubscriptionParamsView;

    open spec fn view(&self) -> SubscriptionParamsView {
        SubscriptionParamsView {
            creator: self.creator,
            recipients: self.recipients@,
            amounts: self.amounts@,
            tokens: self.tokens@,
            remaining: self.remaining,
        }
    }
}

impl Duplicate for SubscriptionParams {
    fn duplicate(&self) -> (r: Self) {
        SubscriptionParams {
            creator: self.creator,
            recipients: self.recipients.duplicate(),
            amounts: self.amounts.duplicate(),
            tokens: self.tokens.duplicate(),
            remaining: self.remaining,
        }
    }
}

/// Evidence that an invoice has been released or refunded.
#[derive(Clone, Copy, Debug)]
pub struct CompletionProof {
    pub id: u64,
    pub status: InvoiceStatus,
    pub funded: i128,
    pub timestamp: u64,
    pub hash: [u8; 32],
}

/// An event that the contract publishes.
#[derive(Debug)]
pub enum Event {
    InvoiceCreated { id: u64, creator: Address, total: i128 },
    PaymentReceived { id: u64, payer: Address, amount: i128 },
    InvoiceReleased { id: u64, recipients: Vec<Address> },
    InvoiceRefunded { id: u64 },
}

/// The mathematical content of an [`Event`].
#[verifier::ext_equal]
pub enum EventView {
    InvoiceCreated { id: u64, creator: Address, total: i128 },
    PaymentReceived { id: u64, payer: Address, amount: i128 },
    InvoiceReleased { id: u64, recipients: Seq<Address> },
    InvoiceRefunded { id: u64 },
}

impl View for Event {
    type V = EventView;

    open spec fn view(&self) -> EventView {
        match self {
            Event::InvoiceCreated { id, creator, total } => EventView::InvoiceCreated {
                id: *id,
                creator: *creator,
                total: *total,
            },
            Event::PaymentReceived { id, payer, amount } => EventView::PaymentReceived {
                id: *id,
                payer: *payer,
                amount: *amount,
            },
            Event::InvoiceReleased { id, recipients } => EventView::InvoiceReleased {
                id: *id,
                recipients: recipients@,
            },
            Event::InvoiceRefunded { id } => EventView::InvoiceRefunded { id: *id },
        }
    }
}

impl Duplicate for Event {
    fn duplicate(&self) -> (r: Self) {
        match self {
            Event::InvoiceCreated { id, creator, total } => Event::InvoiceCreated {
                id: *id,
                creator: *creator,
                total: *total,
            },
            Event::PaymentReceived { id, payer, amount } => Event::PaymentReceived {
                id: *id,
                payer: *payer,
                amount: *amount,
            },
            Event::InvoiceReleased { id, recipients } => Event::InvoiceReleased {
                id: *id,
                recipients: recipients.duplicate(),
            },
            Event::InvoiceRefunded { id } => Event::InvoiceRefunded { id: *id },
        }
    }
}

/// A movement of `amount` units of `token`.
#[derive(Clone, Copy, Debug, PartialEq, Eq, Structural)]
pub struct Transfer {
    pub token: Address,
    pub from: Address,
    pub to: Address,
    pub amount: i128,
}

/// Something that the contract has the host do for it.
#[derive(Debug)]
pub enum Effect {
    Transfer(Transfer),
    Publish(Event),
}

/// The mathematical content of an [`Effect`].
#[verifier::ext_equal]
pub enum EffectView {
    Transfer(Transfer),
    Publish(EventView),
}

impl View for Effect {
    type V = EffectView;

    open spec fn view(&self) -> EffectView {
        match self {
            Effect::Transfer(transfer) => EffectView::Transfer(*transfer),
            Effect::Publish(event) => EffectView::Publish(event@),
        }
    }
}

impl Duplicate for Effect {
    fn duplicate(&self) -> (r: Self) {
        match self {
            Effect::Transfer(transfer) => Effect::Transfer(*transfer),
            Effect::Publish(event) => Effect::Publish(event.duplicate()),
        }
    }
}

} // verus!
