//! What each call of the contract does, as a function of the ledger: when the
//! call is refused and why, and which ledger it leaves behind when it is not.

use vstd::prelude::*;

use crate::arith;
use crate::error::Error;
use crate::ledger::{LedgerView, StorageView};
use crate::types::{
    Action, Address, EffectView, EventView, InvoiceStatus, InvoiceView, Payment, PlanKey,
    SubscriptionParamsView, TermsView, Transfer,
};

verus! {

/// The time between two invoices of a subscription: thirty days, in seconds.
pub const MONTH: u64 = 2_592_000;

/// The number of basis points in the whole.
pub const BPS_SCALE: u32 = 10_000;

/// Transfers as the effects that they are asked for by.
pub open spec fn as_effects(transfers: Seq<Transfer>) -> Seq<EffectView> {
    Seq::new(transfers.len(), |i: int| EffectView::Transfer(transfers[i]))
}

impl InvoiceView {
    /// What all recipients together are owed.
    pub open spec fn total(self) -> int {
        arith::sum(self.amounts)
    }

    /// The invoice after a payment towards it.
    pub open spec fn with_payment(self, payer: Address, amount: i128) -> InvoiceView {
        InvoiceView {
            funded: (self.funded + amount) as i128,
            payments: self.payments.push(Payment { payer, amount }),
            ..self
        }
    }

    pub open spec fn with_status(self, status: InvoiceStatus) -> InvoiceView {
        InvoiceView { status, ..self }
    }

    pub open spec fn with_deadline(self, deadline: u64) -> InvoiceView {
        InvoiceView { deadline, ..self }
    }

    pub open spec fn with_frozen(self, frozen: bool) -> InvoiceView {
        InvoiceView { frozen, ..self }
    }
}

impl SubscriptionParamsView {
    /// What is left of the subscription once its next invoice has been made.
    pub open spec fn rest(self) -> SubscriptionParamsView {
        SubscriptionParamsView { remaining: (self.remaining - 1) as u32, ..self }
    }
}

/// What a recipient who is owed `amount` of `total` receives once `fee` has been
/// taken off: the same part of what is left, rounded towards zero.
pub open spec fn share(amount: int, total: int, fee: int) -> int {
    if total > 0 {
        arith::quotient(amount * (total - fee), total)
    } else {
        amount
    }
}

// ---------------------------------------------------------------------------
// Creating invoices
// ---------------------------------------------------------------------------
impl LedgerView {
    /// Why an invoice with these terms is not made, if it is not.
    pub open spec fn creation_refusal(self, terms: TermsView) -> Option<Error> {
        if terms.recipients.len() != terms.amounts.len() {
            Some(Error::AmountsLengthMismatch)
        } else if terms.recipients.len() != terms.tokens.len() {
            Some(Error::TokensLengthMismatch)
        } else if terms.recipients.len() == 0 {
            Some(Error::NoRecipients)
        } else if terms.deadline <= self.timestamp {
            Some(Error::DeadlineNotInFuture)
        } else if exists|i: int| 0 <= i < terms.amounts.len() && terms.amounts[i] <= 0 {
            Some(Error::AmountNotPositive)
        } else if self.storage.last_id() == u64::MAX || !arith::sum_fits(terms.amounts) {
            Some(Error::Overflow)
        } else {
            None
        }
    }

    /// The id that the next invoice gets.
    pub open spec fn next_id(self) -> u64 {
        (self.storage.last_id() + 1) as u64
    }

    /// A new invoice with these terms.
    pub open spec fn new_invoice(self, terms: TermsView) -> InvoiceView {
        InvoiceView {
            creator: terms.creator,
            recipients: terms.recipients,
            amounts: terms.amounts,
            tokens: terms.tokens,
            deadline: terms.deadline,
            funded: 0,
            status: InvoiceStatus::Pending,
            payments: Seq::empty(),
            frozen: false,
            recurring: terms.recurring,
            original_duration: (terms.deadline - self.timestamp) as u64,
        }
    }

    /// The ledger after an invoice with these terms has been made.
    pub open spec fn after_creation(self, terms: TermsView) -> LedgerView {
        let id = self.next_id();
        LedgerView {
            storage: StorageView {
                counter: Some(id),
                invoices: self.storage.invoices.insert(id, self.new_invoice(terms)),
                creators: self.storage.creators.insert(
                    terms.creator,
                    self.storage.ids_of(terms.creator).push(id),
                ),
                ..self.storage
            },
            ..self
        }.with_effect(
            EffectView::Publish(
                EventView::InvoiceCreated {
                    id,
                    creator: terms.creator,
                    total: arith::sum(terms.amounts) as i128,
                },
            ),
        )
    }

    /// Every one of `tokens` may be used.
    pub open spec fn permits(self, tokens: Seq<Address>) -> bool {
        match self.storage.whitelist {
            Some(whitelist) => forall|i: int|
                0 <= i < tokens.len() ==> whitelist.contains(#[trigger] tokens[i]),
            None => true,
        }
    }

    /// Why `create_invoice` refuses these terms, if it does.
    pub open spec fn create_refusal(self, terms: TermsView) -> Option<Error> {
        if !self.authorizes(terms.creator) {
            Some(Error::Unauthorized)
        } else if !self.permits(terms.tokens) {
            Some(Error::TokenNotWhitelisted)
        } else {
            self.creation_refusal(terms)
        }
    }

    /// The terms of an invoice of a subscription.
    pub open spec fn subscription_terms(self, params: SubscriptionParamsView) -> TermsView {
        TermsView {
            creator: params.creator,
            recipients: params.recipients,
            amounts: params.amounts,
            tokens: params.tokens,
            deadline: (self.timestamp + MONTH) as u64,
            recurring: false,
        }
    }

    /// Why `create_subscription` refuses, if it does. What remains of a
    /// subscription that is yet to be made is all of its months.
    pub open spec fn subscribe_refusal(self, params: SubscriptionParamsView) -> Option<Error> {
        if !self.authorizes(params.creator) {
            Some(Error::Unauthorized)
        } else if !self.permits(params.tokens) {
            Some(Error::TokenNotWhitelisted)
        } else if params.recipients.len() != params.amounts.len() {
            Some(Error::AmountsLengthMismatch)
        } else if params.recipients.len() != params.tokens.len() {
            Some(Error::TokensLengthMismatch)
        } else if params.recipients.len() == 0 {
            Some(Error::NoRecipients)
        } else if !(1 <= params.remaining <= 12) {
            Some(Error::MonthsOutOfRange)
        } else if exists|i: int| 0 <= i < params.amounts.len() && params.amounts[i] <= 0 {
            Some(Error::AmountNotPositive)
        } else if self.timestamp + MONTH > u64::MAX {
            Some(Error::Overflow)
        } else {
            self.creation_refusal(self.subscription_terms(params))
        }
    }

    /// The ledger after the invoice `id` of a subscription has been made: what is
    /// left of the subscription is kept for the invoice that follows, if one does.
    pub open spec fn with_rest(self, id: u64, params: SubscriptionParamsView) -> LedgerView {
        if params.remaining > 1 {
            LedgerView {
                storage: StorageView {
                    subscriptions: self.storage.subscriptions.insert(id, params.rest()),
                    ..self.storage
                },
                ..self
            }
        } else {
            self
        }
    }

    /// The ledger after a subscription has been made: its first invoice is there,
    /// and the rest is kept if it is to run on.
    pub open spec fn after_subscribe(self, params: SubscriptionParamsView) -> LedgerView {
        self.after_creation(self.subscription_terms(params)).with_rest(self.next_id(), params)
    }
}

// ---------------------------------------------------------------------------
// Releasing
// ---------------------------------------------------------------------------
impl LedgerView {
    /// The protocol fee in basis points; zero where none is set.
    pub open spec fn fee_bps(self) -> u32 {
        match self.storage.fee_bps {
            Some(bps) => bps,
            None => 0,
        }
    }

    /// A fee is due on releases.
    pub open spec fn charges_fee(self) -> bool {
        self.fee_bps() > 0 && self.storage.treasury is Some
    }

    /// The fee on a release of `total`.
    pub open spec fn fee(self, total: int) -> int {
        if self.charges_fee() {
            arith::quotient(total * self.fee_bps(), BPS_SCALE as int)
        } else {
            0
        }
    }

    /// The transfer of the fee to the treasury, where there is a fee to pay.
    pub open spec fn fee_transfers(self, invoice: InvoiceView) -> Seq<Transfer> {
        if self.fee(invoice.total()) > 0 {
            seq![
                Transfer {
                    token: invoice.tokens[0],
                    from: self.contract,
                    to: self.storage.treasury->Some_0,
                    amount: self.fee(invoice.total()) as i128,
                },
            ]
        } else {
            Seq::empty()
        }
    }

    /// The transfers to the recipients, each in the recipient's token.
    pub open spec fn payouts(self, invoice: InvoiceView) -> Seq<Transfer> {
        let total = invoice.total();
        Seq::new(
            invoice.recipients.len(),
            |i: int|
                Transfer {
                    token: invoice.tokens[i],
                    from: self.contract,
                    to: invoice.recipients[i],
                    amount: share(invoice.amounts[i] as int, total, self.fee(total)) as i128,
                },
        )
    }

    /// All transfers of a release, the fee first.
    pub open spec fn release_transfers(self, invoice: InvoiceView) -> Seq<Transfer> {
        self.fee_transfers(invoice) + self.payouts(invoice)
    }

    /// Why the share of recipient `i` cannot be worked out, if it cannot.
    pub open spec fn share_refusal(self, invoice: InvoiceView, i: int) -> Option<Error> {
        let total = invoice.total();
        if i >= invoice.amounts.len() || i >= invoice.tokens.len() {
            Some(Error::MissingShare)
        } else if total > 0 && !arith::fits(invoice.amounts[i] * (total - self.fee(total))) {
            Some(Error::Overflow)
        } else {
            None
        }
    }

    /// Why the shares of the first `n` recipients cannot be worked out, by the
    /// first of them for whom this is so.
    pub open spec fn shares_refusal(self, invoice: InvoiceView, n: nat) -> Option<Error>
        decreases n,
    {
        if n == 0 {
            None
        } else {
            match self.shares_refusal(invoice, (n - 1) as nat) {
                Some(e) => Some(e),
                None => self.share_refusal(invoice, n - 1),
            }
        }
    }

    /// Another invoice follows when this one is released.
    pub open spec fn has_successor(self, id: u64, invoice: InvoiceView) -> bool {
        self.storage.subscriptions.contains_key(id) || invoice.recurring
    }

    /// The deadline of the invoice that follows.
    pub open spec fn successor_deadline(self, id: u64, invoice: InvoiceView) -> int {
        if self.storage.subscriptions.contains_key(id) {
            self.timestamp + MONTH
        } else {
            self.timestamp + invoice.original_duration
        }
    }

    /// The terms of the invoice that follows: those of the subscription, or those
    /// of the recurring invoice itself.
    pub open spec fn successor_terms(self, id: u64, invoice: InvoiceView) -> TermsView {
        if self.storage.subscriptions.contains_key(id) {
            self.subscription_terms(self.storage.subscriptions[id])
        } else {
            TermsView {
                creator: invoice.creator,
                recipients: invoice.recipients,
                amounts: invoice.amounts,
                tokens: invoice.tokens,
                deadline: self.successor_deadline(id, invoice) as u64,
                recurring: true,
            }
        }
    }

    /// Why the invoice that follows cannot be made, if it cannot.
    pub open spec fn successor_refusal(self, id: u64, invoice: InvoiceView) -> Option<Error> {
        if !self.has_successor(id, invoice) {
            None
        } else if self.successor_deadline(id, invoice) > u64::MAX {
            Some(Error::Overflow)
        } else {
            self.creation_refusal(self.successor_terms(id, invoice))
        }
    }

    /// Why the funds of `invoice`, stored under `id`, cannot be routed to its
    /// recipients, if they cannot.
    pub open spec fn release_refusal(self, id: u64, invoice: InvoiceView) -> Option<Error> {
        let total = invoice.total();
        if !arith::sum_fits(invoice.amounts) {
            Some(Error::Overflow)
        } else if self.charges_fee() && !arith::fits(total * self.fee_bps()) {
            Some(Error::Overflow)
        } else if self.fee(total) > 0 && invoice.tokens.len() == 0 {
            Some(Error::NoToken)
        } else if !arith::fits(total - self.fee(total)) {
            Some(Error::Overflow)
        } else if self.shares_refusal(invoice, invoice.recipients.len()) is Some {
            self.shares_refusal(invoice, invoice.recipients.len())
        } else {
            self.successor_refusal(id, invoice)
        }
    }

    /// The ledger after `transfers` have been asked for.
    pub open spec fn with_transfers(self, transfers: Seq<Transfer>) -> LedgerView {
        LedgerView { effects: self.effects + as_effects(transfers), ..self }
    }

    /// The ledger after what is kept for the invoice after `id` is dropped.
    pub open spec fn without_subscription(self, id: u64) -> LedgerView {
        LedgerView {
            storage: StorageView {
                subscriptions: self.storage.subscriptions.remove(id),
                ..self.storage
            },
            ..self
        }
    }

    /// The ledger after the funds of `invoice` have been routed, before the
    /// invoice that follows is made.
    pub open spec fn after_payout(
        self,
        id: u64,
        invoice: InvoiceView,
        actor: Address,
    ) -> LedgerView {
        self.with_transfers(self.release_transfers(invoice)).with_invoice(
            id,
            invoice.with_status(InvoiceStatus::Released),
        ).with_audit_entry(id, Action::Release, actor).with_effect(
            EffectView::Publish(
                EventView::InvoiceReleased { id, recipients: invoice.recipients },
            ),
        )
    }

    /// The ledger after `invoice`, stored under `id`, has been released. Where it
    /// belongs to a subscription that runs on, the invoice that follows takes over
    /// what is left of the subscription.
    pub open spec fn after_routing(
        self,
        id: u64,
        invoice: InvoiceView,
        actor: Address,
    ) -> LedgerView {
        let routed = self.after_payout(id, invoice, actor);
        if self.has_successor(id, invoice) {
            let made = routed.after_creation(
                self.successor_terms(id, invoice),
            ).without_subscription(id);
            if self.storage.subscriptions.contains_key(id) {
                made.with_rest(self.next_id(), self.storage.subscriptions[id])
            } else {
                made
            }
        } else {
            routed
        }
    }

    /// Why `release` refuses, if it does.
    pub open spec fn release_call_refusal(self, id: u64) -> Option<Error> {
        let invoice = self.storage.invoices[id];
        if !self.storage.invoices.contains_key(id) {
            Some(Error::InvoiceNotFound)
        } else if invoice.frozen {
            Some(Error::InvoiceFrozen)
        } else if invoice.status != InvoiceStatus::Pending {
            Some(Error::NotPending)
        } else if !arith::sum_fits(invoice.amounts) {
            Some(Error::Overflow)
        } else if invoice.funded < invoice.total() {
            Some(Error::NotFullyFunded)
        } else {
            self.release_refusal(id, invoice)
        }
    }

    /// The ledger after `release`.
    pub open spec fn after_release_call(self, id: u64) -> LedgerView {
        self.after_routing(id, self.storage.invoices[id], self.contract)
    }
}

// ---------------------------------------------------------------------------
// Paying
// ---------------------------------------------------------------------------
impl LedgerView {
    /// Why a payment of `amount` by `payer` towards `id` is refused, if it is.
    pub open spec fn pay_refusal(self, payer: Address, id: u64, amount: i128) -> Option<Error> {
        let invoice = self.storage.invoices[id];
        if !self.authorizes(payer) {
            Some(Error::Unauthorized)
        } else if !self.storage.invoices.contains_key(id) {
            Some(Error::InvoiceNotFound)
        } else if invoice.frozen {
            Some(Error::InvoiceFrozen)
        } else if invoice.status != InvoiceStatus::Pending {
            Some(Error::NotPending)
        } else if self.timestamp > invoice.deadline {
            Some(Error::DeadlinePassed)
        } else if amount <= 0 {
            Some(Error::PaymentNotPositive)
        } else if !arith::sum_fits(invoice.amounts) || !arith::fits(
            invoice.total() - invoice.funded,
        ) {
            Some(Error::Overflow)
        } else if amount > invoice.total() - invoice.funded {
            Some(Error::PaymentExceedsRemaining)
        } else if invoice.tokens.len() == 0 {
            Some(Error::NoToken)
        } else if invoice.funded + amount >= invoice.total() {
            self.release_refusal(id, invoice.with_payment(payer, amount))
        } else {
            None
        }
    }

    /// The ledger after a payment has been taken, before any release.
    pub open spec fn after_deposit(self, payer: Address, id: u64, amount: i128) -> LedgerView {
        let invoice = self.storage.invoices[id];
        self.with_effect(
            EffectView::Transfer(
                Transfer { token: invoice.tokens[0], from: payer, to: self.contract, amount },
            ),
        ).with_invoice(id, invoice.with_payment(payer, amount)).with_audit_entry(
            id,
            Action::Pay,
            payer,
        ).with_effect(EffectView::Publish(EventView::PaymentReceived { id, payer, amount }))
    }

    /// The ledger after a payment: a payment that completes the invoice releases
    /// it, in the name of its creator.
    pub open spec fn after_pay(self, payer: Address, id: u64, amount: i128) -> LedgerView {
        let invoice = self.storage.invoices[id];
        let deposited = self.after_deposit(payer, id, amount);
        if invoice.funded + amount >= invoice.total() {
            deposited.after_routing(id, invoice.with_payment(payer, amount), invoice.creator)
        } else {
            deposited
        }
    }

    /// Why the payments, made one after the other, are refused, by the first of
    /// them that is.
    pub open spec fn payments_refusal(
        self,
        payer: Address,
        payments: Seq<(u64, i128)>,
    ) -> Option<Error>
        decreases payments.len(),
    {
        if payments.len() == 0 {
            None
        } else {
            let earlier = payments.drop_last();
            match self.payments_refusal(payer, earlier) {
                Some(e) => Some(e),
                None => self.after_payments(payer, earlier).pay_refusal(
                    payer,
                    payments.last().0,
                    payments.last().1,
                ),
            }
        }
    }

    /// The ledger after the payments, made one after the other.
    pub open spec fn after_payments(
        self,
        payer: Address,
        payments: Seq<(u64, i128)>,
    ) -> LedgerView
        decreases payments.len(),
    {
        if payments.len() == 0 {
            self
        } else {
            self.after_payments(payer, payments.drop_last()).after_pay(
                payer,
                payments.last().0,
                payments.last().1,
            )
        }
    }

    /// Why a batch of payments is refused, if it is.
    pub open spec fn batch_refusal(
        self,
        payer: Address,
        payments: Seq<(u64, i128)>,
    ) -> Option<Error> {
        if !self.authorizes(payer) {
            Some(Error::Unauthorized)
        } else {
            self.payments_refusal(payer, payments)
        }
    }
}

// ---------------------------------------------------------------------------
// Refunding, cancelling, extending
// ---------------------------------------------------------------------------
impl LedgerView {
    /// Why `refund` refuses, if it does.
    pub open spec fn refund_refusal(self, id: u64) -> Option<Error> {
        let invoice = self.storage.invoices[id];
        if !self.storage.invoices.contains_key(id) {
            Some(Error::InvoiceNotFound)
        } else if invoice.status != InvoiceStatus::Pending {
            Some(Error::NotPending)
        } else if self.timestamp <= invoice.deadline {
            Some(Error::DeadlineNotPassed)
        } else if !arith::sum_fits(invoice.amounts) {
            Some(Error::Overflow)
        } else if invoice.funded >= invoice.total() {
            Some(Error::FullyFunded)
        } else if invoice.tokens.len() == 0 {
            Some(Error::NoToken)
        } else {
            None
        }
    }

    /// The transfers that give every payment back, in the order of the payments.
    pub open spec fn refunds(self, invoice: InvoiceView) -> Seq<Transfer> {
        Seq::new(
            invoice.payments.len(),
            |i: int|
                Transfer {
                    token: invoice.tokens[0],
                    from: self.contract,
                    to: invoice.payments[i].payer,
                    amount: invoice.payments[i].amount,
                },
        )
    }

    /// The ledger after `refund`.
    pub open spec fn after_refund(self, id: u64) -> LedgerView {
        let invoice = self.storage.invoices[id];
        self.with_transfers(self.refunds(invoice)).with_invoice(
            id,
            invoice.with_status(InvoiceStatus::Refunded),
        ).with_audit_entry(id, Action::Refund, self.contract).with_effect(
            EffectView::Publish(EventView::InvoiceRefunded { id }),
        )
    }

    /// Why `cancel_invoice` refuses, if it does.
    pub open spec fn cancel_refusal(self, caller: Address, id: u64) -> Option<Error> {
        let invoice = self.storage.invoices[id];
        if !self.authorizes(caller) {
            Some(Error::Unauthorized)
        } else if !self.storage.invoices.contains_key(id) {
            Some(Error::InvoiceNotFound)
        } else if invoice.status != InvoiceStatus::Pending {
            Some(Error::NotPending)
        } else if invoice.creator != caller {
            Some(Error::NotCreatorCancelling)
        } else if invoice.funded != 0 {
            Some(Error::HasPayments)
        } else {
            None
        }
    }

    /// The ledger after `cancel_invoice`.
    pub open spec fn after_cancel(self, caller: Address, id: u64) -> LedgerView {
        self.with_invoice(
            id,
            self.storage.invoices[id].with_status(InvoiceStatus::Cancelled),
        ).with_audit_entry(id, Action::Cancel, caller)
    }

    /// Why `extend_deadline` refuses, if it does.
    pub open spec fn extend_refusal(
        self,
        caller: Address,
        id: u64,
        new_deadline: u64,
    ) -> Option<Error> {
        let invoice = self.storage.invoices[id];
        if !self.authorizes(caller) {
            Some(Error::Unauthorized)
        } else if !self.storage.invoices.contains_key(id) {
            Some(Error::InvoiceNotFound)
        } else if invoice.status != InvoiceStatus::Pending {
            Some(Error::NotPending)
        } else if invoice.creator != caller {
            Some(Error::NotCreatorExtending)
        } else if new_deadline <= self.timestamp {
            Some(Error::NewDeadlineNotInFuture)
        } else {
            None
        }
    }

    /// The ledger after `extend_deadline`.
    pub open spec fn after_extend(
        self,
        caller: Address,
        id: u64,
        new_deadline: u64,
    ) -> LedgerView {
        self.with_invoice(
            id,
            self.storage.invoices[id].with_deadline(new_deadline),
        ).with_audit_entry(id, Action::Extend, caller)
    }
}

// ---------------------------------------------------------------------------
// Administration
// ---------------------------------------------------------------------------
impl LedgerView {
    /// Why `initialize` refuses, if it does.
    pub open spec fn initialize_refusal(self, admin: Address, fee_bps: u32) -> Option<Error> {
        if !self.authorizes(admin) {
            Some(Error::Unauthorized)
        } else if fee_bps > BPS_SCALE {
            Some(Error::FeeTooHigh)
        } else {
            None
        }
    }

    /// The ledger after `initialize`.
    pub open spec fn after_initialize(
        self,
        admin: Address,
        treasury: Address,
        fee_bps: u32,
    ) -> LedgerView {
        LedgerView {
            storage: StorageView {
                admin: Some(admin),
                treasury: Some(treasury),
                fee_bps: Some(fee_bps),
                ..self.storage
            },
            ..self
        }
    }

    /// Why a call that is the admin's to make is refused, if it is.
    pub open spec fn admin_refusal(self) -> Option<Error> {
        match self.storage.admin {
            None => Some(Error::NotInitialized),
            Some(admin) => if self.authorizes(admin) {
                None
            } else {
                Some(Error::Unauthorized)
            },
        }
    }

    /// Why freezing or unfreezing `id` is refused, if it is.
    pub open spec fn freeze_refusal(self, id: u64) -> Option<Error> {
        if self.admin_refusal() is Some {
            self.admin_refusal()
        } else if !self.storage.invoices.contains_key(id) {
            Some(Error::InvoiceNotFound)
        } else {
            None
        }
    }

    /// The ledger after `id` has been frozen or unfrozen.
    pub open spec fn after_freeze(self, id: u64, frozen: bool) -> LedgerView {
        self.with_invoice(id, self.storage.invoices[id].with_frozen(frozen))
    }

    /// The ledger after the admin has been set.
    pub open spec fn after_init_admin(self, admin: Address) -> LedgerView {
        LedgerView { storage: StorageView { admin: Some(admin), ..self.storage }, ..self }
    }

    /// The ledger after `token` has been put on the whitelist, which is in force
    /// from then on.
    pub open spec fn after_whitelist(self, token: Address) -> LedgerView {
        let whitelist = match self.storage.whitelist {
            Some(tokens) => tokens.insert(token),
            None => Set::empty().insert(token),
        };
        LedgerView { storage: StorageView { whitelist: Some(whitelist), ..self.storage }, ..self }
    }

    /// The ledger after `token` has been taken off the whitelist, where there is
    /// one.
    pub open spec fn after_remove_token(self, token: Address) -> LedgerView {
        let whitelist = match self.storage.whitelist {
            Some(tokens) => Some(tokens.remove(token)),
            None => None,
        };
        LedgerView { storage: StorageView { whitelist, ..self.storage }, ..self }
    }

    /// The ledger after `payer` has registered a plan for an invoice.
    pub open spec fn after_plan(
        self,
        payer: Address,
        invoice_id: u64,
        schedule: Seq<(u64, i128)>,
    ) -> LedgerView {
        LedgerView {
            storage: StorageView {
                plans: self.storage.plans.insert(PlanKey { payer, invoice_id }, schedule),
                ..self.storage
            },
            ..self
        }
    }
}

} // verus!
