//! Soundness: what every ledger that the contract has written is like.

use vstd::prelude::*;

use crate::arith;
use crate::error::Error;
use crate::ledger::{LedgerView, StorageView};
use crate::model::BPS_SCALE;
use crate::types::{
    Action, Address, AuditEntry, InvoiceStatus, InvoiceView, Payment, SubscriptionParamsView,
    TermsView,
};

verus! {

/// A call that may change the ledger.
pub enum Call {
    Initialize { admin: Address, treasury: Address, fee_bps: u32 },
    Create { terms: TermsView },
    Subscribe { params: SubscriptionParamsView },
    Pay { payer: Address, id: u64, amount: i128 },
    BatchPay { payer: Address, payments: Seq<(u64, i128)> },
    Release { id: u64 },
    Refund { id: u64 },
    Cancel { caller: Address, id: u64 },
    Extend { caller: Address, id: u64, new_deadline: u64 },
    Freeze { id: u64 },
    Unfreeze { id: u64 },
    InitAdmin { admin: Address },
    WhitelistToken { token: Address },
    RemoveToken { token: Address },
    RegisterPlan { payer: Address, id: u64, schedule: Seq<(u64, i128)> },
}

/// Refused, for want of the authorisation of `address`, if it is.
pub open spec fn auth_refusal(ledger: LedgerView, address: Address) -> Option<Error> {
    if ledger.authorizes(address) {
        None
    } else {
        Some(Error::Unauthorized)
    }
}

impl LedgerView {
    /// Why `call` is refused, if it is.
    pub open spec fn refusal(self, call: Call) -> Option<Error> {
        match call {
            Call::Initialize { admin, treasury, fee_bps } => self.initialize_refusal(
                admin,
                fee_bps,
            ),
            Call::Create { terms } => self.create_refusal(terms),
            Call::Subscribe { params } => self.subscribe_refusal(params),
            Call::Pay { payer, id, amount } => self.pay_refusal(payer, id, amount),
            Call::BatchPay { payer, payments } => self.batch_refusal(payer, payments),
            Call::Release { id } => self.release_call_refusal(id),
            Call::Refund { id } => self.refund_refusal(id),
            Call::Cancel { caller, id } => self.cancel_refusal(caller, id),
            Call::Extend { caller, id, new_deadline } => self.extend_refusal(
                caller,
                id,
                new_deadline,
            ),
            Call::Freeze { id } => self.freeze_refusal(id),
            Call::Unfreeze { id } => self.freeze_refusal(id),
            Call::InitAdmin { admin } => auth_refusal(self, admin),
            Call::WhitelistToken { token } => self.admin_refusal(),
            Call::RemoveToken { token } => self.admin_refusal(),
            Call::RegisterPlan { payer, id, schedule } => auth_refusal(self, payer),
        }
    }

    /// The ledger after `call`, if it is not refused.
    pub open spec fn after(self, call: Call) -> LedgerView {
        match call {
            Call::Initialize { admin, treasury, fee_bps } => self.after_initialize(
                admin,
                treasury,
                fee_bps,
            ),
            Call::Create { terms } => self.after_creation(terms),
            Call::Subscribe { params } => self.after_subscribe(params),
            Call::Pay { payer, id, amount } => self.after_pay(payer, id, amount),
            Call::BatchPay { payer, payments } => self.after_payments(payer, payments),
            Call::Release { id } => self.after_release_call(id),
            Call::Refund { id } => self.after_refund(id),
            Call::Cancel { caller, id } => self.after_cancel(caller, id),
            Call::Extend { caller, id, new_deadline } => self.after_extend(
                caller,
                id,
                new_deadline,
            ),
            Call::Freeze { id } => self.after_freeze(id, true),
            Call::Unfreeze { id } => self.after_freeze(id, false),
            Call::InitAdmin { admin } => self.after_init_admin(admin),
            Call::WhitelistToken { token } => self.after_whitelist(token),
            Call::RemoveToken { token } => self.after_remove_token(token),
            Call::RegisterPlan { payer, id, schedule } => self.after_plan(payer, id, schedule),
        }
    }
}

/// What payments come to.
pub open spec fn paid(payments: Seq<Payment>) -> int
    decreases payments.len(),
{
    if payments.len() == 0 {
        0
    } else {
        paid(payments.drop_last()) + payments.last().amount
    }
}

/// Who made payments, in order.
pub open spec fn payers(payments: Seq<Payment>) -> Seq<Address> {
    Seq::new(payments.len(), |i: int| payments[i].payer)
}

/// Who made the payments that a log records, in order.
pub open spec fn logged_payers(log: Seq<AuditEntry>) -> Seq<Address>
    decreases log.len(),
{
    if log.len() == 0 {
        Seq::empty()
    } else if log.last().action == Action::Pay {
        logged_payers(log.drop_last()).push(log.last().actor)
    } else {
        logged_payers(log.drop_last())
    }
}

/// The action by which an invoice comes to a status other than pending.
pub open spec fn closing_action(status: InvoiceStatus) -> Action {
    match status {
        InvoiceStatus::Released => Action::Release,
        InvoiceStatus::Refunded => Action::Refund,
        _ => Action::Cancel,
    }
}

/// The action leaves an invoice pending.
pub open spec fn keeps_pending(action: Action) -> bool {
    action == Action::Pay || action == Action::Extend
}

impl InvoiceView {
    /// The terms of the invoice are such as an invoice is made from.
    pub open spec fn terms_sound(self) -> bool {
        &&& self.recipients.len() == self.amounts.len()
        &&& self.recipients.len() == self.tokens.len()
        &&& self.recipients.len() > 0
        &&& forall|i: int| 0 <= i < self.amounts.len() ==> #[trigger] self.amounts[i] > 0
        &&& arith::sum_fits(self.amounts)
        &&& self.original_duration > 0
    }

    /// What has been paid adds up, and fits the status: all of the total once
    /// released, less while pending or after a refund, nothing after a
    /// cancellation.
    pub open spec fn funds_sound(self) -> bool {
        &&& forall|i: int| 0 <= i < self.payments.len() ==> #[trigger] self.payments[i].amount > 0
        &&& self.funded == paid(self.payments)
        &&& match self.status {
            InvoiceStatus::Pending => self.funded < self.total(),
            InvoiceStatus::Released => self.funded == self.total(),
            InvoiceStatus::Refunded => self.funded < self.total(),
            InvoiceStatus::Cancelled => self.payments.len() == 0,
        }
    }

    /// `log` is an audit log that this invoice can have: it names the payers in
    /// order, and an entry that closes the invoice is there, once and last, just
    /// when the invoice is not pending.
    pub open spec fn fits_log(self, log: Seq<AuditEntry>) -> bool {
        &&& logged_payers(log) == payers(self.payments)
        &&& if self.status == InvoiceStatus::Pending {
            forall|i: int| 0 <= i < log.len() ==> keeps_pending((#[trigger] log[i]).action)
        } else {
            &&& log.len() > 0
            &&& log.last().action == closing_action(self.status)
            &&& forall|i: int| 0 <= i < log.len() - 1 ==> keeps_pending((#[trigger] log[i]).action)
        }
    }

    /// The invoice can be the one that is due while `params` are kept for the
    /// next: it has the same terms, it has not been released, and there is a next.
    pub open spec fn fits_subscription(self, params: SubscriptionParamsView) -> bool {
        &&& self.creator == params.creator
        &&& self.recipients == params.recipients
        &&& self.amounts == params.amounts
        &&& self.tokens == params.tokens
        &&& !self.recurring
        &&& self.status != InvoiceStatus::Released
        &&& params.remaining >= 1
    }
}

impl StorageView {
    /// What is stored for `id` fits together.
    pub open spec fn entry_sound(self, id: u64) -> bool {
        let invoice = self.invoices[id];
        &&& invoice.terms_sound()
        &&& invoice.funds_sound()
        &&& invoice.fits_log(self.log_of(id))
        &&& self.subscriptions.contains_key(id) ==> invoice.fits_subscription(
            self.subscriptions[id],
        )
    }

    /// The invoices are those with ids from one to the last.
    pub open spec fn ids_sound(self) -> bool {
        &&& forall|id: u64| #[trigger]
            self.invoices.contains_key(id) <==> 1 <= id <= self.last_id()
        &&& forall|id: u64| #[trigger]
            self.subscriptions.contains_key(id) ==> self.invoices.contains_key(id)
        &&& forall|id: u64| #[trigger]
            self.logs.contains_key(id) ==> self.invoices.contains_key(id)
    }

    /// The index lists, for each creator, exactly the ids of their invoices, in
    /// ascending order.
    pub open spec fn index_sound(self) -> bool {
        &&& forall|creator: Address, i: int|
            0 <= i < self.ids_of(creator).len() ==> self.invoices.contains_key(
                #[trigger] self.ids_of(creator)[i],
            ) && self.invoices[self.ids_of(creator)[i]].creator == creator
        &&& forall|creator: Address, i: int, j: int|
            0 <= i < j < self.ids_of(creator).len() ==> #[trigger] self.ids_of(creator)[i]
                < #[trigger] self.ids_of(creator)[j]
        &&& forall|id: u64| #[trigger]
            self.invoices.contains_key(id) ==> self.ids_of(self.invoices[id].creator).contains(id)
    }

    /// The storage is one that the contract's calls lead to.
    pub open spec fn sound(self) -> bool {
        &&& self.ids_sound()
        &&& self.index_sound()
        &&& forall|id: u64| #[trigger] self.invoices.contains_key(id) ==> self.entry_sound(id)
        &&& match self.fee_bps {
            Some(bps) => bps <= BPS_SCALE,
            None => true,
        }
    }
}

// ---------------------------------------------------------------------------
// Steps towards the preservation of soundness
// ---------------------------------------------------------------------------
/// Amounts above zero, of which there is at least one, come to more than zero.
pub(crate) proof fn lemma_sum_positive(amounts: Seq<i128>)
    requires
        forall|i: int| 0 <= i < amounts.len() ==> #[trigger] amounts[i] > 0,
    ensures
        arith::sum(amounts) >= amounts.len(),
    decreases amounts.len(),
{
    if amounts.len() > 0 {
        let earlier = amounts.drop_last();
        assert forall|i: int| 0 <= i < earlier.len() implies #[trigger] earlier[i] > 0 by {
            assert(earlier[i] == amounts[i]);
        }
        lemma_sum_positive(earlier);
        assert(amounts[amounts.len() - 1] > 0);
    }
}

/// Payments above zero come to at least as much as there are of them.
pub(crate) proof fn lemma_paid_positive(payments: Seq<Payment>)
    requires
        forall|i: int| 0 <= i < payments.len() ==> #[trigger] payments[i].amount > 0,
    ensures
        paid(payments) >= payments.len(),
    decreases payments.len(),
{
    if payments.len() > 0 {
        let earlier = payments.drop_last();
        assert forall|i: int| 0 <= i < earlier.len() implies #[trigger] earlier[i].amount > 0 by {
            assert(earlier[i] == payments[i]);
        }
        lemma_paid_positive(earlier);
        assert(payments[payments.len() - 1].amount > 0);
    }
}

/// Storage stays sound when what is stored for one invoice changes in a sound
/// way.
proof fn lemma_entry_replaced(s: StorageView, t: StorageView, id: u64)
    requires
        s.sound(),
        s.invoices.contains_key(id),
        t.invoices == s.invoices.insert(id, t.invoices[id]),
        t.invoices[id].creator == s.invoices[id].creator,
        t.logs == s.logs || t.logs == s.logs.insert(id, t.logs[id]),
        t.subscriptions == s.subscriptions || t.subscriptions == s.subscriptions.remove(id),
        t.counter == s.counter,
        t.creators == s.creators,
        t.fee_bps == s.fee_bps,
        t.entry_sound(id),
    ensures
        t.sound(),
{
    assert forall|other: u64| #[trigger] t.invoices.contains_key(other) implies t.entry_sound(
        other,
    ) by {
        assert(s.invoices.contains_key(other));
        if other != id {
            assert(s.entry_sound(other));
            assert(t.log_of(other) == s.log_of(other));
        }
    }
    assert forall|other: u64| #[trigger]
        t.invoices.contains_key(other) <==> 1 <= other <= t.last_id() by {
        assert(s.invoices.contains_key(other) <==> 1 <= other <= s.last_id());
    }
    assert forall|other: u64| #[trigger] t.subscriptions.contains_key(other) implies
        t.invoices.contains_key(other) by {
        assert(s.subscriptions.contains_key(other));
    }
    assert forall|other: u64| #[trigger] t.logs.contains_key(other) implies
        t.invoices.contains_key(other) by {
        if other != id {
            assert(s.logs.contains_key(other));
        }
    }
    assert forall|creator: Address| #[trigger] t.ids_of(creator) == s.ids_of(creator) by {}
    assert forall|creator: Address, i: int|
        0 <= i < t.ids_of(creator).len() implies t.invoices.contains_key(
        #[trigger] t.ids_of(creator)[i],
    ) && t.invoices[t.ids_of(creator)[i]].creator == creator by {
        assert(s.invoices.contains_key(s.ids_of(creator)[i]));
    }
    assert forall|other: u64| #[trigger] t.invoices.contains_key(other) implies t.ids_of(
        t.invoices[other].creator,
    ).contains(other) by {
        assert(s.invoices.contains_key(other));
    }
}

/// Storage stays sound when an invoice is made.
pub(crate) proof fn lemma_creation_keeps_soundness(ledger: LedgerView, terms: TermsView)
    requires
        ledger.storage.sound(),
        ledger.creation_refusal(terms) is None,
    ensures
        ledger.after_creation(terms).storage.sound(),
{
    let s = ledger.storage;
    let t = ledger.after_creation(terms).storage;
    let id = ledger.next_id();
    let invoice = ledger.new_invoice(terms);
    assert(!s.invoices.contains_key(id));
    assert(!s.logs.contains_key(id));
    assert(!s.subscriptions.contains_key(id));
    assert(t.entry_sound(id)) by {
        assert forall|i: int| 0 <= i < terms.amounts.len() implies #[trigger] terms.amounts[i]
            > 0 by {}
        lemma_sum_positive(terms.amounts);
        assert(t.log_of(id) == Seq::<AuditEntry>::empty());
        assert(logged_payers(t.log_of(id)) =~= payers(invoice.payments));
    }
    assert forall|other: u64| #[trigger] t.invoices.contains_key(other) implies t.entry_sound(
        other,
    ) by {
        if other != id {
            assert(s.invoices.contains_key(other));
            assert(s.entry_sound(other));
            assert(t.log_of(other) == s.log_of(other));
        }
    }
    assert forall|other: u64| #[trigger]
        t.invoices.contains_key(other) <==> 1 <= other <= t.last_id() by {
        assert(s.invoices.contains_key(other) <==> 1 <= other <= s.last_id());
    }
    assert forall|other: u64| #[trigger] t.subscriptions.contains_key(other) implies
        t.invoices.contains_key(other) by {
        assert(s.subscriptions.contains_key(other));
    }
    assert forall|other: u64| #[trigger] t.logs.contains_key(other) implies
        t.invoices.contains_key(other) by {
        assert(s.logs.contains_key(other));
    }
    let before = s.ids_of(terms.creator);
    assert(t.ids_of(terms.creator) == before.push(id));
    assert forall|creator: Address| creator != terms.creator implies #[trigger] t.ids_of(creator)
        == s.ids_of(creator) by {}
    assert forall|creator: Address, i: int|
        0 <= i < t.ids_of(creator).len() implies t.invoices.contains_key(
        #[trigger] t.ids_of(creator)[i],
    ) && t.invoices[t.ids_of(creator)[i]].creator == creator by {
        if i < s.ids_of(creator).len() {
            assert(s.invoices.contains_key(s.ids_of(creator)[i]));
            assert(s.ids_of(creator)[i] != id);
        }
    }
    assert forall|creator: Address, i: int, j: int|
        0 <= i < j < t.ids_of(creator).len() implies #[trigger] t.ids_of(creator)[i]
        < #[trigger] t.ids_of(creator)[j] by {
        assert(s.invoices.contains_key(s.ids_of(creator)[i]));
    }
    assert forall|other: u64| #[trigger] t.invoices.contains_key(other) implies t.ids_of(
        t.invoices[other].creator,
    ).contains(other) by {
        if other == id {
            assert(t.ids_of(terms.creator).last() == id);
        } else {
            assert(s.invoices.contains_key(other));
            let creator = s.invoices[other].creator;
            let i = choose|i: int| 0 <= i < s.ids_of(creator).len() && s.ids_of(creator)[i]
                == other;
            assert(t.ids_of(creator)[i] == other);
        }
    }
}

/// A log that fits a pending invoice fits the invoice after the next action on
/// it, once the action has been recorded.
proof fn lemma_log_extended(
    before: InvoiceView,
    after: InvoiceView,
    log: Seq<AuditEntry>,
    entry: AuditEntry,
)
    requires
        before.status == InvoiceStatus::Pending,
        before.fits_log(log),
        if entry.action == Action::Pay {
            after.payments.len() > 0 && after.payments.drop_last() == before.payments
                && after.payments.last().payer == entry.actor
        } else {
            after.payments == before.payments
        },
        if after.status == InvoiceStatus::Pending {
            keeps_pending(entry.action)
        } else {
            entry.action == closing_action(after.status)
        },
    ensures
        after.fits_log(log.push(entry)),
{
    let longer = log.push(entry);
    assert(longer.drop_last() =~= log);
    assert(logged_payers(longer) =~= payers(after.payments)) by {
        if entry.action == Action::Pay {
            assert(payers(after.payments) =~= payers(before.payments).push(entry.actor));
        }
    }
    assert forall|i: int| 0 <= i < log.len() implies keeps_pending(
        (#[trigger] longer[i]).action,
    ) by {
        assert(longer[i] == log[i]);
    }
}

/// Storage stays sound when what is left of a subscription is kept for a pending
/// invoice with its terms.
proof fn lemma_rest_keeps_soundness(ledger: LedgerView, id: u64, params: SubscriptionParamsView)
    requires
        ledger.storage.sound(),
        ledger.storage.invoices.contains_key(id),
        params.remaining > 1 ==> ledger.storage.invoices[id].fits_subscription(params.rest()),
    ensures
        ledger.with_rest(id, params).storage.sound(),
{
    let s = ledger.storage;
    let t = ledger.with_rest(id, params).storage;
    assert forall|other: u64| #[trigger] t.invoices.contains_key(other) implies t.entry_sound(
        other,
    ) by {
        assert(s.entry_sound(other));
        assert(t.log_of(other) == s.log_of(other));
    }
    assert forall|creator: Address| #[trigger] t.ids_of(creator) == s.ids_of(creator) by {}
    assert(t.index_sound()) by {
        assert(s.index_sound());
        assert forall|creator: Address, i: int|
            0 <= i < t.ids_of(creator).len() implies t.invoices.contains_key(
            #[trigger] t.ids_of(creator)[i],
        ) && t.invoices[t.ids_of(creator)[i]].creator == creator by {
            assert(s.invoices.contains_key(s.ids_of(creator)[i]));
        }
    }
    assert(t.ids_sound()) by {
        assert(s.ids_sound());
    }
}

/// Storage stays sound when the invoice after a released one is made.
proof fn lemma_routing_keeps_soundness(
    ledger: LedgerView,
    id: u64,
    invoice: InvoiceView,
    actor: Address,
)
    requires
        ledger.after_payout(id, invoice, actor).without_subscription(id).storage.sound(),
        ledger.release_refusal(id, invoice) is None,
    ensures
        ledger.after_routing(id, invoice, actor).storage.sound(),
{
    let routed = ledger.after_payout(id, invoice, actor);
    let dropped = routed.without_subscription(id);
    if ledger.has_successor(id, invoice) {
        let next = ledger.successor_terms(id, invoice);
        assert(dropped.creation_refusal(next) == ledger.creation_refusal(next));
        lemma_creation_keeps_soundness(dropped, next);
        let made = routed.after_creation(next).without_subscription(id);
        assert(made.storage =~= dropped.after_creation(next).storage);
        if ledger.storage.subscriptions.contains_key(id) {
            lemma_rest_keeps_soundness(made, ledger.next_id(), ledger.storage.subscriptions[id]);
        }
    } else {
        assert(dropped.storage =~= routed.storage);
    }
}

/// Storage stays sound when a payment is made.
pub(crate) proof fn lemma_pay_keeps_soundness(
    ledger: LedgerView,
    payer: Address,
    id: u64,
    amount: i128,
)
    requires
        ledger.storage.sound(),
        ledger.pay_refusal(payer, id, amount) is None,
    ensures
        ledger.after_pay(payer, id, amount).storage.sound(),
{
    let s = ledger.storage;
    let invoice = s.invoices[id];
    assert(s.entry_sound(id));
    let paid_in = invoice.with_payment(payer, amount);
    let log = s.log_of(id);
    let entry = AuditEntry { action: Action::Pay, actor: payer, timestamp: ledger.timestamp };
    assert(paid_in.payments.drop_last() =~= invoice.payments);
    assert forall|i: int|
        0 <= i < paid_in.payments.len() implies #[trigger] paid_in.payments[i].amount > 0 by {
        if i < invoice.payments.len() {
            assert(paid_in.payments[i] == invoice.payments[i]);
        }
    }
    assert(paid_in.funded == invoice.funded + amount && paid_in.funded == paid(
        paid_in.payments,
    )) by {
        arith::lemma_sum_fits(invoice.amounts);
        lemma_paid_positive(invoice.payments);
    }
    lemma_log_extended(invoice, paid_in, log, entry);
    let deposited = ledger.after_deposit(payer, id, amount);
    assert(deposited.storage.log_of(id) == log.push(entry));
    if invoice.funded + amount >= invoice.total() {
        let actor = invoice.creator;
        let released = paid_in.with_status(InvoiceStatus::Released);
        let closing = AuditEntry { action: Action::Release, actor, timestamp: ledger.timestamp };
        lemma_log_extended(paid_in, released, log.push(entry), closing);
        let dropped = deposited.after_payout(id, paid_in, actor).without_subscription(id).storage;
        assert(dropped.log_of(id) == log.push(entry).push(closing));
        assert(dropped.invoices =~= s.invoices.insert(id, released));
        assert(dropped.logs =~= s.logs.insert(id, dropped.logs[id]));
        lemma_entry_replaced(s, dropped, id);
        assert(deposited.release_refusal(id, paid_in) == ledger.release_refusal(id, paid_in)) by {
            lemma_release_refusal_reads(ledger, deposited, id, paid_in);
        }
        lemma_routing_keeps_soundness(deposited, id, paid_in, actor);
    } else {
        lemma_entry_replaced(s, deposited.storage, id);
    }
}

/// Whether a release is refused rests on the time, the last id, the fee, and the
/// terms kept for the next invoice, and on nothing else that is stored.
pub(crate) proof fn lemma_release_refusal_reads(
    before: LedgerView,
    after: LedgerView,
    id: u64,
    invoice: InvoiceView,
)
    requires
        after.timestamp == before.timestamp,
        after.storage.counter == before.storage.counter,
        after.storage.treasury == before.storage.treasury,
        after.storage.fee_bps == before.storage.fee_bps,
        after.storage.subscriptions.contains_key(id) == before.storage.subscriptions.contains_key(
            id,
        ),
        before.storage.subscriptions.contains_key(id) ==> after.storage.subscriptions[id]
            == before.storage.subscriptions[id],
    ensures
        after.release_refusal(id, invoice) == before.release_refusal(id, invoice),
{
    lemma_shares_refusal_reads(before, after, invoice, invoice.recipients.len());
}

proof fn lemma_shares_refusal_reads(
    before: LedgerView,
    after: LedgerView,
    invoice: InvoiceView,
    n: nat,
)
    requires
        after.storage.treasury == before.storage.treasury,
        after.storage.fee_bps == before.storage.fee_bps,
    ensures
        after.shares_refusal(invoice, n) == before.shares_refusal(invoice, n),
    decreases n,
{
    if n > 0 {
        lemma_shares_refusal_reads(before, after, invoice, (n - 1) as nat);
    }
}

/// Storage stays sound when payments are made one after the other.
proof fn lemma_payments_keep_soundness(
    ledger: LedgerView,
    payer: Address,
    payments: Seq<(u64, i128)>,
)
    requires
        ledger.storage.sound(),
        ledger.payments_refusal(payer, payments) is None,
    ensures
        ledger.after_payments(payer, payments).storage.sound(),
    decreases payments.len(),
{
    if payments.len() > 0 {
        let earlier = payments.drop_last();
        lemma_payments_keep_soundness(ledger, payer, earlier);
        lemma_pay_keeps_soundness(
            ledger.after_payments(payer, earlier),
            payer,
            payments.last().0,
            payments.last().1,
        );
    }
}

/// Storage stays sound when `release` succeeds.
proof fn lemma_release_keeps_soundness(ledger: LedgerView, id: u64)
    requires
        ledger.storage.sound(),
        ledger.release_call_refusal(id) is None,
    ensures
        ledger.after_release_call(id).storage.sound(),
{
    assert(ledger.storage.entry_sound(id));
}

/// Storage stays sound when a pending invoice is closed without a release, or is
/// given a new deadline.
proof fn lemma_action_keeps_soundness(
    ledger: LedgerView,
    after: LedgerView,
    id: u64,
    action: Action,
    actor: Address,
)
    requires
        ledger.storage.sound(),
        ledger.storage.invoices.contains_key(id),
        ledger.storage.invoices[id].status == InvoiceStatus::Pending,
        after.storage == ledger.with_invoice(id, after.storage.invoices[id]).with_audit_entry(
            id,
            action,
            actor,
        ).storage,
        ({
            let before = ledger.storage.invoices[id];
            let changed = after.storage.invoices[id];
            ||| action == Action::Extend && changed == before.with_deadline(changed.deadline)
            ||| action == Action::Refund && changed == before.with_status(InvoiceStatus::Refunded)
            ||| action == Action::Cancel && before.funded == 0 && changed == before.with_status(
                InvoiceStatus::Cancelled,
            )
        }),
    ensures
        after.storage.sound(),
{
    let s = ledger.storage;
    let before = s.invoices[id];
    let changed = after.storage.invoices[id];
    assert(s.entry_sound(id));
    let entry = AuditEntry { action, actor, timestamp: ledger.timestamp };
    lemma_log_extended(before, changed, s.log_of(id), entry);
    assert(after.storage.log_of(id) == s.log_of(id).push(entry));
    lemma_paid_positive(before.payments);
    lemma_entry_replaced(s, after.storage, id);
}

// ---------------------------------------------------------------------------
// The laws
// ---------------------------------------------------------------------------
/// A ledger on which nothing has been stored is sound.
pub proof fn law_empty_storage_is_sound()
    ensures
        StorageView::empty().sound(),
{
}

/// Every call that is not refused leads from a sound ledger to a sound ledger.
/// So all ledgers that calls lead to, starting with the empty one, are sound,
/// whatever happens to the time in between.
pub proof fn law_calls_keep_soundness(ledger: LedgerView, call: Call)
    requires
        ledger.storage.sound(),
        ledger.refusal(call) is None,
    ensures
        ledger.after(call).storage.sound(),
{
    let s = ledger.storage;
    match call {
        Call::Create { terms } => {
            lemma_creation_keeps_soundness(ledger, terms);
        },
        Call::Subscribe { params } => {
            let terms = ledger.subscription_terms(params);
            lemma_creation_keeps_soundness(ledger, terms);
            lemma_rest_keeps_soundness(ledger.after_creation(terms), ledger.next_id(), params);
        },
        Call::Pay { payer, id, amount } => {
            lemma_pay_keeps_soundness(ledger, payer, id, amount);
        },
        Call::BatchPay { payer, payments } => {
            lemma_payments_keep_soundness(ledger, payer, payments);
        },
        Call::Release { id } => {
            lemma_release_keeps_soundness(ledger, id);
        },
        Call::Refund { id } => {
            lemma_action_keeps_soundness(
                ledger,
                ledger.after(call),
                id,
                Action::Refund,
                ledger.contract,
            );
        },
        Call::Cancel { caller, id } => {
            lemma_action_keeps_soundness(ledger, ledger.after(call), id, Action::Cancel, caller);
        },
        Call::Extend { caller, id, new_deadline } => {
            lemma_action_keeps_soundness(ledger, ledger.after(call), id, Action::Extend, caller);
        },
        Call::Freeze { id } => {
            assert(s.entry_sound(id));
            assert(ledger.after(call).storage.log_of(id) == s.log_of(id));
            lemma_entry_replaced(s, ledger.after(call).storage, id);
        },
        Call::Unfreeze { id } => {
            assert(s.entry_sound(id));
            assert(ledger.after(call).storage.log_of(id) == s.log_of(id));
            lemma_entry_replaced(s, ledger.after(call).storage, id);
        },
        _ => {
            lemma_settings_keep_soundness(s, ledger.after(call).storage);
        },
    }
}

/// Storage stays sound when only settings and plans change.
proof fn lemma_settings_keep_soundness(s: StorageView, t: StorageView)
    requires
        s.sound(),
        t.counter == s.counter,
        t.invoices == s.invoices,
        t.logs == s.logs,
        t.subscriptions == s.subscriptions,
        t.creators == s.creators,
        t.fee_bps matches Some(bps) ==> bps <= BPS_SCALE,
    ensures
        t.sound(),
{
    assert forall|id: u64| #[trigger] t.invoices.contains_key(id) implies t.entry_sound(id) by {
        assert(s.entry_sound(id));
        assert(t.log_of(id) == s.log_of(id));
    }
    assert forall|creator: Address| #[trigger] t.ids_of(creator) == s.ids_of(creator) by {}
    assert(t.index_sound()) by {
        assert(s.index_sound());
        assert forall|creator: Address, i: int|
            0 <= i < t.ids_of(creator).len() implies t.invoices.contains_key(
            #[trigger] t.ids_of(creator)[i],
        ) && t.invoices[t.ids_of(creator)[i]].creator == creator by {
            assert(s.invoices.contains_key(s.ids_of(creator)[i]));
        }
    }
}

/// On a sound ledger `release` is always refused: the payment that completes an
/// invoice has released it already.
pub proof fn law_completed_invoices_are_released(ledger: LedgerView, id: u64)
    requires
        ledger.storage.sound(),
    ensures
        ledger.release_call_refusal(id) is Some,
{
    if ledger.storage.invoices.contains_key(id) {
        assert(ledger.storage.entry_sound(id));
    }
}

} // verus!
