//! The contract: invoices that several recipients are paid from.
//!
//! A creator makes an invoice out to recipients and amounts. Payers contribute;
//! the payment that completes an invoice routes its funds to the recipients. If
//! the deadline passes first, payers are refunded.

use vstd::prelude::*;

use crate::arith;
use crate::creation::{all_positive, check_terms, insert_invoice, keep_rest, permits};
use crate::error::Error;
use crate::ledger::{
    append_audit_entry, get_audit_log, ids_of, load_invoice, save_invoice, Ledger, LedgerView,
};
use crate::model::{BPS_SCALE, MONTH};
use crate::routing::{emit_transfers, plan_release, route, ReleasePlan};
use crate::table::Duplicate;
use crate::types::{
    Action, Address, AuditEntry, Effect, Event, Invoice, InvoiceStatus, InvoiceView, Payment,
    PlanKey, SubscriptionParams, SubscriptionParamsView, Terms, TermsView, Transfer,
};

verus! {

/// The entry points of the contract.
///
/// Each takes the ledger that the call runs on. A call that succeeds leaves its
/// changes there; a call that is refused leaves the ledger as it was.
pub struct SplitContract;

// ---------------------------------------------------------------------------
// Creating invoices
// ---------------------------------------------------------------------------
impl SplitContract {
    /// Creates a new invoice and returns its id, which is one above the last.
    ///
    /// `creator` owns the invoice and must authorise. `amounts` and `tokens` give,
    /// for each of `recipients`, what is owed and in which token; after `deadline`
    /// refunds become available.
    pub fn create_invoice(
        ledger: &mut Ledger,
        creator: Address,
        recipients: Vec<Address>,
        amounts: Vec<i128>,
        tokens: Vec<Address>,
        deadline: u64,
    ) -> (r: Result<u64, Error>)
        ensures
            ({
                let terms = TermsView {
                    creator,
                    recipients: recipients@,
                    amounts: amounts@,
                    tokens: tokens@,
                    deadline,
                    recurring: false,
                };
                match old(ledger)@.create_refusal(terms) {
                    Some(e) => r == Err::<u64, Error>(e) && final(ledger)@ == old(ledger)@,
                    None => r == Ok::<u64, Error>(old(ledger)@.next_id()) && final(ledger)@ == old(
                        ledger,
                    )@.after_creation(terms),
                }
            }),
    {
        Self::create_invoice_recurring(
            ledger,
            creator,
            recipients,
            amounts,
            tokens,
            deadline,
            false,
        )
    }

    /// Creates a new invoice which, if `recurring`, is followed on its release by
    /// another with the same terms and the same time to pay.
    pub fn create_invoice_recurring(
        ledger: &mut Ledger,
        creator: Address,
        recipients: Vec<Address>,
        amounts: Vec<i128>,
        tokens: Vec<Address>,
        deadline: u64,
        recurring: bool,
    ) -> (r: Result<u64, Error>)
        ensures
            ({
                let terms = TermsView {
                    creator,
                    recipients: recipients@,
                    amounts: amounts@,
                    tokens: tokens@,
                    deadline,
                    recurring,
                };
                match old(ledger)@.create_refusal(terms) {
                    Some(e) => r == Err::<u64, Error>(e) && final(ledger)@ == old(ledger)@,
                    None => r == Ok::<u64, Error>(old(ledger)@.next_id()) && final(ledger)@ == old(
                        ledger,
                    )@.after_creation(terms),
                }
            }),
    {
        if let Err(e) = ledger.require_auth(&creator) {
            return Err(e);
        }
        if !permits(ledger, &tokens) {
            return Err(Error::TokenNotWhitelisted);
        }
        Self::_create_invoice(
            ledger,
            Terms { creator, recipients, amounts, tokens, deadline, recurring },
        )
    }

    /// Creates an invoice without asking who does so.
    fn _create_invoice(ledger: &mut Ledger, terms: Terms) -> (r: Result<u64, Error>)
        ensures
            match old(ledger)@.creation_refusal(terms@) {
                Some(e) => r == Err::<u64, Error>(e) && final(ledger)@ == old(ledger)@,
                None => r == Ok::<u64, Error>(old(ledger)@.next_id()) && final(ledger)@ == old(
                    ledger,
                )@.after_creation(terms@),
            },
    {
        match check_terms(ledger, &terms) {
            Ok(total) => Ok(insert_invoice(ledger, terms, total)),
            Err(e) => Err(e),
        }
    }

    /// Creates a subscription: a chain of invoices for recurring monthly billing,
    /// one for each of `months`. The first is made at once, and each of the others
    /// when the one before it is released; each is due thirty days after it is made.
    /// `creator` must authorise. Returns the id of the first invoice.
    pub fn create_subscription(
        ledger: &mut Ledger,
        creator: Address,
        recipients: Vec<Address>,
        amounts: Vec<i128>,
        tokens: Vec<Address>,
        months: u32,
    ) -> (r: Result<u64, Error>)
        ensures
            ({
                let params = SubscriptionParamsView {
                    creator,
                    recipients: recipients@,
                    amounts: amounts@,
                    tokens: tokens@,
                    remaining: months,
                };
                match old(ledger)@.subscribe_refusal(params) {
                    Some(e) => r == Err::<u64, Error>(e) && final(ledger)@ == old(ledger)@,
                    None => r == Ok::<u64, Error>(old(ledger)@.next_id()) && final(ledger)@ == old(
                        ledger,
                    )@.after_subscribe(params),
                }
            }),
    {
        if let Err(e) = ledger.require_auth(&creator) {
            return Err(e);
        }
        if !permits(ledger, &tokens) {
            return Err(Error::TokenNotWhitelisted);
        }
        if recipients.len() != amounts.len() {
            return Err(Error::AmountsLengthMismatch);
        }
        if recipients.len() != tokens.len() {
            return Err(Error::TokensLengthMismatch);
        }
        if recipients.len() == 0 {
            return Err(Error::NoRecipients);
        }
        if !(months > 0 && months <= 12) {
            return Err(Error::MonthsOutOfRange);
        }
        if !all_positive(&amounts) {
            return Err(Error::AmountNotPositive);
        }
        let deadline = match ledger.timestamp.checked_add(MONTH) {
            Some(deadline) => deadline,
            None => {
                return Err(Error::Overflow);
            },
        };
        let params = SubscriptionParams {
            creator,
            recipients: recipients.duplicate(),
            amounts: amounts.duplicate(),
            tokens: tokens.duplicate(),
            remaining: months,
        };
        match Self::_create_invoice(
            ledger,
            Terms { creator, recipients, amounts, tokens, deadline, recurring: false },
        ) {
            Ok(id) => {
                keep_rest(ledger, id, params);
                Ok(id)
            },
            Err(e) => Err(e),
        }
    }

    /// The ids of all invoices of `creator`, oldest first.
    pub fn get_invoices_by_creator(ledger: &Ledger, creator: Address) -> (ids: Vec<u64>)
        ensures
            ids@ == ledger@.storage.ids_of(creator),
    {
        ids_of(ledger, creator)
    }
}

// ---------------------------------------------------------------------------
// Paying and releasing
// ---------------------------------------------------------------------------
/// A plan for a release still holds once a payment has been taken: it rests on
/// nothing that the payment changes.
proof fn lemma_plan_outlasts_deposit(
    plan: ReleasePlan,
    before: LedgerView,
    after: LedgerView,
    id: u64,
    invoice: InvoiceView,
)
    requires
        plan.fulfils(before, id, invoice),
        after.timestamp == before.timestamp,
        after.contract == before.contract,
        after.storage.counter == before.storage.counter,
        after.storage.treasury == before.storage.treasury,
        after.storage.fee_bps == before.storage.fee_bps,
        after.storage.subscriptions == before.storage.subscriptions,
    ensures
        plan.fulfils(after, id, invoice),
{
    assert(after.fee_transfers(invoice) =~= before.fee_transfers(invoice));
    assert(after.payouts(invoice) =~= before.payouts(invoice));
}

impl SplitContract {
    /// Pays `amount` towards an invoice, in the invoice's first token. `payer`
    /// must authorise. The payment that completes the invoice releases it.
    pub fn pay(ledger: &mut Ledger, payer: Address, invoice_id: u64, amount: i128) -> (r: Result<
        (),
        Error,
    >)
        ensures
            match old(ledger)@.pay_refusal(payer, invoice_id, amount) {
                Some(e) => r == Err::<(), Error>(e) && final(ledger)@ == old(ledger)@,
                None => r is Ok && final(ledger)@ == old(ledger)@.after_pay(
                    payer,
                    invoice_id,
                    amount,
                ),
            },
    {
        if let Err(e) = ledger.require_auth(&payer) {
            return Err(e);
        }
        let mut invoice = match load_invoice(ledger, invoice_id) {
            Ok(invoice) => invoice,
            Err(e) => {
                return Err(e);
            },
        };
        if invoice.frozen {
            return Err(Error::InvoiceFrozen);
        }
        if invoice.status != InvoiceStatus::Pending {
            return Err(Error::NotPending);
        }
        if ledger.timestamp > invoice.deadline {
            return Err(Error::DeadlinePassed);
        }
        if amount <= 0 {
            return Err(Error::PaymentNotPositive);
        }
        let total = match arith::checked_sum(&invoice.amounts) {
            Some(total) => total,
            None => {
                return Err(Error::Overflow);
            },
        };
        let remaining = match total.checked_sub(invoice.funded) {
            Some(remaining) => remaining,
            None => {
                return Err(Error::Overflow);
            },
        };
        if amount > remaining {
            return Err(Error::PaymentExceedsRemaining);
        }
        // Payments are taken in the first token; a release pays out in each
        // recipient's own.
        if invoice.tokens.len() == 0 {
            return Err(Error::NoToken);
        }
        let token = invoice.tokens[0];
        let creator = invoice.creator;
        let ghost loaded = invoice@;
        invoice.payments.push(Payment { payer, amount });
        invoice.funded = invoice.funded + amount;
        assert(invoice@ =~= loaded.with_payment(payer, amount));

        let plan = if invoice.funded >= total {
            match plan_release(ledger, invoice_id, &invoice) {
                Ok(plan) => Some(plan),
                Err(e) => {
                    return Err(e);
                },
            }
        } else {
            None
        };

        let contract = ledger.contract;
        ledger.emit(Effect::Transfer(Transfer { token, from: payer, to: contract, amount }));
        append_audit_entry(ledger, invoice_id, Action::Pay, payer);
        ledger.emit(Effect::Publish(Event::PaymentReceived { id: invoice_id, payer, amount }));
        match plan {
            Some(plan) => {
                let ghost taken = ledger@;
                let ghost paid = invoice@;
                let ghost deposited = old(ledger)@.after_deposit(payer, invoice_id, amount);
                proof {
                    lemma_plan_outlasts_deposit(plan, old(ledger)@, taken, invoice_id, paid);
                }
                route(ledger, invoice_id, invoice, creator, plan);
                proof {
                    lemma_routing_overwrites(taken, deposited, invoice_id, paid, creator);
                }
            },
            None => {
                save_invoice(ledger, invoice_id, invoice);
            },
        }
        Ok(())
    }

    /// Makes several payments in the name of `payer`, who must authorise: all of
    /// them, or none if one is refused.
    pub fn batch_pay(ledger: &mut Ledger, payer: Address, payments: Vec<(u64, i128)>) -> (r: Result<
        (),
        Error,
    >)
        ensures
            match old(ledger)@.batch_refusal(payer, payments@) {
                Some(e) => r == Err::<(), Error>(e) && final(ledger)@ == old(ledger)@,
                None => r is Ok && final(ledger)@ == old(ledger)@.after_payments(payer, payments@),
            },
    {
        if let Err(e) = ledger.require_auth(&payer) {
            return Err(e);
        }
        let snapshot = ledger.duplicate();
        let ghost before = ledger@;
        assert(payments@.take(0) =~= Seq::empty());
        let mut i: usize = 0;
        while i < payments.len()
            invariant
                i <= payments@.len(),
                snapshot@ == before,
                before.payments_refusal(payer, payments@.take(i as int)) is None,
                ledger@ == before.after_payments(payer, payments@.take(i as int)),
                before == old(ledger)@,
                before.authorizes(payer),
            decreases payments@.len() - i,
        {
            let (invoice_id, amount) = payments[i];
            assert(payments@.take(i + 1).drop_last() =~= payments@.take(i as int));
            if let Err(e) = Self::pay(ledger, payer, invoice_id, amount) {
                proof {
                    lemma_first_refused_payment(before, payer, payments@, (i + 1) as nat);
                }
                *ledger = snapshot;
                return Err(e);
            }
            i += 1;
        }
        assert(payments@.take(i as int) =~= payments@);
        Ok(())
    }

    /// Releases the funds of an invoice that is fully paid.
    pub fn release(ledger: &mut Ledger, invoice_id: u64) -> (r: Result<(), Error>)
        ensures
            match old(ledger)@.release_call_refusal(invoice_id) {
                Some(e) => r == Err::<(), Error>(e) && final(ledger)@ == old(ledger)@,
                None => r is Ok && final(ledger)@ == old(ledger)@.after_release_call(invoice_id),
            },
    {
        let caller = ledger.contract;
        let invoice = match load_invoice(ledger, invoice_id) {
            Ok(invoice) => invoice,
            Err(e) => {
                return Err(e);
            },
        };
        if invoice.frozen {
            return Err(Error::InvoiceFrozen);
        }
        if invoice.status != InvoiceStatus::Pending {
            return Err(Error::NotPending);
        }
        match arith::checked_sum(&invoice.amounts) {
            Some(total) => {
                if invoice.funded < total {
                    return Err(Error::NotFullyFunded);
                }
            },
            None => {
                return Err(Error::Overflow);
            },
        }
        Self::_release(ledger, invoice_id, invoice, caller)
    }

    /// Routes the funds of `invoice` to its recipients, the fee taken off first,
    /// marks it released, and makes the invoice that follows, if any.
    fn _release(ledger: &mut Ledger, invoice_id: u64, invoice: Invoice, actor: Address) -> (r:
        Result<(), Error>)
        ensures
            match old(ledger)@.release_refusal(invoice_id, invoice@) {
                Some(e) => r == Err::<(), Error>(e) && final(ledger)@ == old(ledger)@,
                None => r is Ok && final(ledger)@ == old(ledger)@.after_routing(
                    invoice_id,
                    invoice@,
                    actor,
                ),
            },
    {
        match plan_release(ledger, invoice_id, &invoice) {
            Ok(plan) => {
                route(ledger, invoice_id, invoice, actor, plan);
                Ok(())
            },
            Err(e) => Err(e),
        }
    }

    /// Gives all payments back if the deadline has passed and the invoice is not
    /// fully funded.
    pub fn refund(ledger: &mut Ledger, invoice_id: u64) -> (r: Result<(), Error>)
        ensures
            match old(ledger)@.refund_refusal(invoice_id) {
                Some(e) => r == Err::<(), Error>(e) && final(ledger)@ == old(ledger)@,
                None => r is Ok && final(ledger)@ == old(ledger)@.after_refund(invoice_id),
            },
    {
        let mut invoice = match load_invoice(ledger, invoice_id) {
            Ok(invoice) => invoice,
            Err(e) => {
                return Err(e);
            },
        };
        if invoice.status != InvoiceStatus::Pending {
            return Err(Error::NotPending);
        }
        if ledger.timestamp <= invoice.deadline {
            return Err(Error::DeadlineNotPassed);
        }
        match arith::checked_sum(&invoice.amounts) {
            Some(total) => {
                if invoice.funded >= total {
                    return Err(Error::FullyFunded);
                }
            },
            None => {
                return Err(Error::Overflow);
            },
        }
        if invoice.tokens.len() == 0 {
            return Err(Error::NoToken);
        }
        let contract = ledger.contract;
        let transfers = refund_transfers(&invoice, contract);
        assert(transfers@ =~= ledger@.refunds(invoice@));
        emit_transfers(ledger, &transfers);
        let ghost pending = invoice@;
        invoice.status = InvoiceStatus::Refunded;
        assert(invoice@ =~= pending.with_status(InvoiceStatus::Refunded));
        save_invoice(ledger, invoice_id, invoice);
        append_audit_entry(ledger, invoice_id, Action::Refund, contract);
        ledger.emit(Effect::Publish(Event::InvoiceRefunded { id: invoice_id }));
        Ok(())
    }

    /// Cancels an invoice that nothing has been paid towards. `caller` must
    /// authorise and be the creator.
    pub fn cancel_invoice(ledger: &mut Ledger, caller: Address, invoice_id: u64) -> (r: Result<
        (),
        Error,
    >)
        ensures
            match old(ledger)@.cancel_refusal(caller, invoice_id) {
                Some(e) => r == Err::<(), Error>(e) && final(ledger)@ == old(ledger)@,
                None => r is Ok && final(ledger)@ == old(ledger)@.after_cancel(caller, invoice_id),
            },
    {
        if let Err(e) = ledger.require_auth(&caller) {
            return Err(e);
        }
        let mut invoice = match load_invoice(ledger, invoice_id) {
            Ok(invoice) => invoice,
            Err(e) => {
                return Err(e);
            },
        };
        if invoice.status != InvoiceStatus::Pending {
            return Err(Error::NotPending);
        }
        if invoice.creator != caller {
            return Err(Error::NotCreatorCancelling);
        }
        if invoice.funded != 0 {
            return Err(Error::HasPayments);
        }
        let ghost pending = invoice@;
        invoice.status = InvoiceStatus::Cancelled;
        assert(invoice@ =~= pending.with_status(InvoiceStatus::Cancelled));
        save_invoice(ledger, invoice_id, invoice);
        append_audit_entry(ledger, invoice_id, Action::Cancel, caller);
        Ok(())
    }

    /// Gives an invoice a new deadline. `caller` must authorise and be the
    /// creator.
    pub fn extend_deadline(
        ledger: &mut Ledger,
        caller: Address,
        invoice_id: u64,
        new_deadline: u64,
    ) -> (r: Result<(), Error>)
        ensures
            match old(ledger)@.extend_refusal(caller, invoice_id, new_deadline) {
                Some(e) => r == Err::<(), Error>(e) && final(ledger)@ == old(ledger)@,
                None => r is Ok && final(ledger)@ == old(ledger)@.after_extend(
                    caller,
                    invoice_id,
                    new_deadline,
                ),
            },
    {
        if let Err(e) = ledger.require_auth(&caller) {
            return Err(e);
        }
        let mut invoice = match load_invoice(ledger, invoice_id) {
            Ok(invoice) => invoice,
            Err(e) => {
                return Err(e);
            },
        };
        if invoice.status != InvoiceStatus::Pending {
            return Err(Error::NotPending);
        }
        if invoice.creator != caller {
            return Err(Error::NotCreatorExtending);
        }
        if new_deadline <= ledger.timestamp {
            return Err(Error::NewDeadlineNotInFuture);
        }
        let ghost pending = invoice@;
        invoice.deadline = new_deadline;
        assert(invoice@ =~= pending.with_deadline(new_deadline));
        save_invoice(ledger, invoice_id, invoice);
        append_audit_entry(ledger, invoice_id, Action::Extend, caller);
        Ok(())
    }
}

/// The transfers that give every payment back.
fn refund_transfers(invoice: &Invoice, contract: Address) -> (transfers: Vec<Transfer>)
    requires
        invoice@.tokens.len() > 0,
    ensures
        transfers@.len() == invoice@.payments.len(),
        forall|i: int|
            0 <= i < transfers@.len() ==> #[trigger] transfers@[i] == (Transfer {
                token: invoice@.tokens[0],
                from: contract,
                to: invoice@.payments[i].payer,
                amount: invoice@.payments[i].amount,
            }),
{
    let token = invoice.tokens[0];
    let mut transfers: Vec<Transfer> = Vec::new();
    let mut i: usize = 0;
    while i < invoice.payments.len()
        invariant
            i <= invoice@.payments.len(),
            token == invoice@.tokens[0],
            transfers@.len() == i,
            forall|j: int|
                0 <= j < i ==> #[trigger] transfers@[j] == (Transfer {
                    token: invoice@.tokens[0],
                    from: contract,
                    to: invoice@.payments[j].payer,
                    amount: invoice@.payments[j].amount,
                }),
        decreases invoice@.payments.len() - i,
    {
        let payment = invoice.payments[i];
        transfers.push(
            Transfer { token, from: contract, to: payment.payer, amount: payment.amount },
        );
        i += 1;
    }
    transfers
}

/// Once a payment of a batch is refused, the payments after it do not change the
/// reason.
proof fn lemma_first_refused_payment(
    ledger: LedgerView,
    payer: Address,
    payments: Seq<(u64, i128)>,
    n: nat,
)
    requires
        n <= payments.len(),
        ledger.payments_refusal(payer, payments.take(n as int)) is Some,
    ensures
        ledger.payments_refusal(payer, payments) == ledger.payments_refusal(
            payer,
            payments.take(n as int),
        ),
    decreases payments.len() - n,
{
    if n == payments.len() {
        assert(payments.take(n as int) =~= payments);
    } else {
        assert(payments.take(n as int + 1).drop_last() =~= payments.take(n as int));
        lemma_first_refused_payment(ledger, payer, payments, n + 1);
    }
}

/// Routing stores the invoice anew, so whether the payment had been stored
/// before does not show.
proof fn lemma_routing_overwrites(
    unsaved: LedgerView,
    saved: LedgerView,
    id: u64,
    invoice: InvoiceView,
    actor: Address,
)
    requires
        saved == unsaved.with_invoice(id, invoice),
    ensures
        saved.after_routing(id, invoice, actor) == unsaved.after_routing(id, invoice, actor),
{
    assert(saved.fee_transfers(invoice) =~= unsaved.fee_transfers(invoice));
    assert(saved.payouts(invoice) =~= unsaved.payouts(invoice));
    assert(saved.after_payout(id, invoice, actor) =~= unsaved.after_payout(id, invoice, actor));
}

// ---------------------------------------------------------------------------
// Administration and reading
// ---------------------------------------------------------------------------
impl SplitContract {
    /// Sets the admin, who must authorise, the treasury, and the protocol fee in
    /// basis points. A fee of zero means that none is taken.
    pub fn initialize(ledger: &mut Ledger, admin: Address, treasury: Address, fee_bps: u32) -> (r:
        Result<(), Error>)
        ensures
            match old(ledger)@.initialize_refusal(admin, fee_bps) {
                Some(e) => r == Err::<(), Error>(e) && final(ledger)@ == old(ledger)@,
                None => r is Ok && final(ledger)@ == old(ledger)@.after_initialize(
                    admin,
                    treasury,
                    fee_bps,
                ),
            },
    {
        if let Err(e) = ledger.require_auth(&admin) {
            return Err(e);
        }
        if fee_bps > BPS_SCALE {
            return Err(Error::FeeTooHigh);
        }
        ledger.storage.admin = Some(admin);
        ledger.storage.treasury = Some(treasury);
        ledger.storage.fee_bps = Some(fee_bps);
        Ok(())
    }

    /// Refuses unless the admin has authorised the call.
    fn require_admin(ledger: &Ledger) -> (r: Result<(), Error>)
        ensures
            match ledger@.admin_refusal() {
                Some(e) => r == Err::<(), Error>(e),
                None => r is Ok,
            },
    {
        match ledger.storage.admin {
            Some(admin) => ledger.require_auth(&admin),
            None => Err(Error::NotInitialized),
        }
    }

    /// Freezes an invoice: it can then be neither paid nor released. The admin
    /// must authorise.
    pub fn freeze_invoice(ledger: &mut Ledger, invoice_id: u64) -> (r: Result<(), Error>)
        ensures
            match old(ledger)@.freeze_refusal(invoice_id) {
                Some(e) => r == Err::<(), Error>(e) && final(ledger)@ == old(ledger)@,
                None => r is Ok && final(ledger)@ == old(ledger)@.after_freeze(invoice_id, true),
            },
    {
        Self::set_frozen(ledger, invoice_id, true)
    }

    /// Unfreezes an invoice. The admin must authorise.
    pub fn unfreeze_invoice(ledger: &mut Ledger, invoice_id: u64) -> (r: Result<(), Error>)
        ensures
            match old(ledger)@.freeze_refusal(invoice_id) {
                Some(e) => r == Err::<(), Error>(e) && final(ledger)@ == old(ledger)@,
                None => r is Ok && final(ledger)@ == old(ledger)@.after_freeze(invoice_id, false),
            },
    {
        Self::set_frozen(ledger, invoice_id, false)
    }

    /// Freezes or unfreezes an invoice.
    fn set_frozen(ledger: &mut Ledger, invoice_id: u64, frozen: bool) -> (r: Result<(), Error>)
        ensures
            match old(ledger)@.freeze_refusal(invoice_id) {
                Some(e) => r == Err::<(), Error>(e) && final(ledger)@ == old(ledger)@,
                None => r is Ok && final(ledger)@ == old(ledger)@.after_freeze(invoice_id, frozen),
            },
    {
        if let Err(e) = Self::require_admin(ledger) {
            return Err(e);
        }
        let mut invoice = match load_invoice(ledger, invoice_id) {
            Ok(invoice) => invoice,
            Err(e) => {
                return Err(e);
            },
        };
        let ghost loaded = invoice@;
        invoice.frozen = frozen;
        assert(invoice@ =~= loaded.with_frozen(frozen));
        save_invoice(ledger, invoice_id, invoice);
        Ok(())
    }

    /// Sets the admin, who must authorise.
    pub fn init_admin(ledger: &mut Ledger, admin: Address) -> (r: Result<(), Error>)
        ensures
            if old(ledger)@.authorizes(admin) {
                r is Ok && final(ledger)@ == old(ledger)@.after_init_admin(admin)
            } else {
                r == Err::<(), Error>(Error::Unauthorized) && final(ledger)@ == old(ledger)@
            },
    {
        if let Err(e) = ledger.require_auth(&admin) {
            return Err(e);
        }
        ledger.storage.admin = Some(admin);
        Ok(())
    }

    /// Puts `token` on the whitelist. From the first such call on, invoices can be
    /// created in whitelisted tokens only. The admin must authorise.
    pub fn whitelist_token(ledger: &mut Ledger, token: Address) -> (r: Result<(), Error>)
        ensures
            match old(ledger)@.admin_refusal() {
                Some(e) => r == Err::<(), Error>(e) && final(ledger)@ == old(ledger)@,
                None => r is Ok && final(ledger)@ == old(ledger)@.after_whitelist(token),
            },
    {
        if let Err(e) = Self::require_admin(ledger) {
            return Err(e);
        }
        let mut tokens: Vec<Address> = match &ledger.storage.whitelist {
            Some(tokens) => tokens.duplicate(),
            None => Vec::new(),
        };
        let ghost before = tokens@;
        tokens.push(token);
        proof {
            assert(before.push(token).to_set() =~= before.to_set().insert(token)) by {
                broadcast use vstd::seq_lib::group_seq_properties;

            }
            if old(ledger)@.storage.whitelist is None {
                assert(before.to_set() =~= Set::empty());
            }
        }
        ledger.storage.whitelist = Some(tokens);
        Ok(())
    }

    /// Takes `token` off the whitelist. The admin must authorise.
    pub fn remove_token(ledger: &mut Ledger, token: Address) -> (r: Result<(), Error>)
        ensures
            match old(ledger)@.admin_refusal() {
                Some(e) => r == Err::<(), Error>(e) && final(ledger)@ == old(ledger)@,
                None => r is Ok && final(ledger)@ == old(ledger)@.after_remove_token(token),
            },
    {
        if let Err(e) = Self::require_admin(ledger) {
            return Err(e);
        }
        let kept = match &ledger.storage.whitelist {
            Some(tokens) => Some(without(tokens, &token)),
            None => None,
        };
        ledger.storage.whitelist = kept;
        Ok(())
    }

    /// Records when `payer`, who must authorise, means to pay how much towards an
    /// invoice, in place of an earlier plan. Payments are not bound by it.
    pub fn register_installment_plan(
        ledger: &mut Ledger,
        payer: Address,
        invoice_id: u64,
        schedule: Vec<(u64, i128)>,
    ) -> (r: Result<(), Error>)
        ensures
            if old(ledger)@.authorizes(payer) {
                r is Ok && final(ledger)@ == old(ledger)@.after_plan(payer, invoice_id, schedule@)
            } else {
                r == Err::<(), Error>(Error::Unauthorized) && final(ledger)@ == old(ledger)@
            },
    {
        if let Err(e) = ledger.require_auth(&payer) {
            return Err(e);
        }
        ledger.storage.plans.set(PlanKey { payer, invoice_id }, schedule);
        Ok(())
    }

    /// The installment plan of `payer` for an invoice; empty where none is
    /// registered.
    pub fn get_installment_plan(ledger: &Ledger, payer: Address, invoice_id: u64) -> (schedule: Vec<
        (u64, i128),
    >)
        ensures
            schedule@ == ledger@.storage.plan_of(payer, invoice_id),
    {
        match ledger.storage.plans.get(&PlanKey { payer, invoice_id }) {
            Some(schedule) => schedule.duplicate(),
            None => Vec::new(),
        }
    }

    /// The invoice with this id.
    pub fn get_invoice(ledger: &Ledger, invoice_id: u64) -> (r: Result<Invoice, Error>)
        ensures
            match r {
                Ok(invoice) => ledger@.storage.invoices.contains_key(invoice_id) && invoice@
                    == ledger@.storage.invoices[invoice_id],
                Err(e) => !ledger@.storage.invoices.contains_key(invoice_id) && e
                    == Error::InvoiceNotFound,
            },
    {
        load_invoice(ledger, invoice_id)
    }

    /// The audit log of an invoice, oldest entry first.
    pub fn get_audit_log(ledger: &Ledger, invoice_id: u64) -> (log: Vec<AuditEntry>)
        ensures
            log@ == ledger@.storage.log_of(invoice_id),
    {
        get_audit_log(ledger, invoice_id)
    }
}

/// The addresses other than `address`.
fn without(addresses: &Vec<Address>, address: &Address) -> (kept: Vec<Address>)
    ensures
        kept@.to_set() == addresses@.to_set().remove(*address),
{
    let mut kept: Vec<Address> = Vec::new();
    let mut i: usize = 0;
    while i < addresses.len()
        invariant
            i <= addresses@.len(),
            forall|j: int|
                0 <= j < kept@.len() ==> #[trigger] kept@[j] != *address && addresses@.contains(
                    kept@[j],
                ),
            forall|j: int|
                0 <= j < i && addresses@[j] != *address ==> kept@.contains(
                    #[trigger] addresses@[j],
                ),
        decreases addresses@.len() - i,
    {
        if addresses[i] != *address {
            let ghost earlier = kept@;
            kept.push(addresses[i]);
            assert(kept@.last() == addresses@[i as int]);
            assert forall|j: int| 0 <= j < i && addresses@[j] != *address implies kept@.contains(
                #[trigger] addresses@[j],
            ) by {
                let k = choose|k: int| 0 <= k < earlier.len() && earlier[k] == addresses@[j];
                assert(kept@[k] == addresses@[j]);
            }
        }
        i += 1;
    }
    assert(kept@.to_set() =~= addresses@.to_set().remove(*address));
    kept
}

} // verus!
