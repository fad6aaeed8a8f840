//! What calls leave alone: the past of an invoice, and the other invoices.

use vstd::prelude::*;

use crate::arith;
use crate::laws::soundness::{self, Call};
use crate::ledger::{LedgerView, StorageView};
use crate::model::MONTH;
use crate::types::{Action, Address, AuditEntry, InvoiceStatus, InvoiceView, TermsView};

verus! {

impl InvoiceView {
    /// This invoice is what `earlier` may have become: the terms are the same,
    /// payments have only been added, and if `earlier` was closed, nothing but the
    /// freeze has changed.
    pub open spec fn continues(self, earlier: InvoiceView) -> bool {
        &&& self.creator == earlier.creator
        &&& self.recipients == earlier.recipients
        &&& self.amounts == earlier.amounts
        &&& self.tokens == earlier.tokens
        &&& self.recurring == earlier.recurring
        &&& self.original_duration == earlier.original_duration
        &&& earlier.payments.is_prefix_of(self.payments)
        &&& earlier.status != InvoiceStatus::Pending ==> self == earlier.with_frozen(self.frozen)
    }
}

impl StorageView {
    /// This storage is what `earlier` may have become: no invoice is gone, each
    /// continues its past, audit logs have only been added to, and new invoices
    /// have ids above the old ones.
    pub open spec fn continues(self, earlier: StorageView) -> bool {
        &&& earlier.last_id() <= self.last_id()
        &&& forall|id: u64| #[trigger]
            earlier.invoices.contains_key(id) ==> {
                &&& self.invoices.contains_key(id)
                &&& self.invoices[id].continues(earlier.invoices[id])
                &&& earlier.log_of(id).is_prefix_of(self.log_of(id))
            }
        &&& forall|id: u64| #[trigger]
            self.invoices.contains_key(id) && !earlier.invoices.contains_key(id) ==> id
                > earlier.last_id()
    }
}

/// The invoice that a call is about, if it is about one.
pub open spec fn subject(call: Call) -> Option<u64> {
    match call {
        Call::Pay { id, .. } => Some(id),
        Call::Release { id } => Some(id),
        Call::Refund { id } => Some(id),
        Call::Cancel { id, .. } => Some(id),
        Call::Extend { id, .. } => Some(id),
        Call::Freeze { id } => Some(id),
        Call::Unfreeze { id } => Some(id),
        _ => None,
    }
}

/// What routing leaves behind: the invoice released and the release recorded, the
/// other invoices as they were, and at most one more.
proof fn lemma_routing_effect(ledger: LedgerView, id: u64, invoice: InvoiceView, actor: Address)
    requires
        ledger.storage.ids_sound(),
        ledger.storage.invoices.contains_key(id),
        ledger.release_refusal(id, invoice) is None,
    ensures
        ({
            let s = ledger.storage;
            let t = ledger.after_routing(id, invoice, actor).storage;
            let entry = AuditEntry {
                action: Action::Release,
                actor,
                timestamp: ledger.timestamp,
            };
            &&& t.invoices.contains_key(id)
            &&& t.invoices[id] == invoice.with_status(InvoiceStatus::Released)
            &&& t.log_of(id) == s.log_of(id).push(entry)
            &&& t.last_id() == s.last_id() + if ledger.has_successor(id, invoice) {
                1int
            } else {
                0
            }
            &&& forall|other: u64| #[trigger]
                s.invoices.contains_key(other) && other != id ==> t.invoices.contains_key(other)
                    && t.invoices[other] == s.invoices[other] && t.log_of(other) == s.log_of(other)
            &&& forall|other: u64| #[trigger]
                t.invoices.contains_key(other) && !s.invoices.contains_key(other) ==> other
                    == ledger.next_id()
        }),
{
    let s = ledger.storage;
    let routed = ledger.after_payout(id, invoice, actor).storage;
    let t = ledger.after_routing(id, invoice, actor).storage;
    assert(!s.invoices.contains_key(ledger.next_id()) || s.last_id() == u64::MAX);
    assert forall|other: u64| other != id implies #[trigger] t.log_of(other) == s.log_of(other) by {
        assert(routed.log_of(other) == s.log_of(other));
    }
}

/// What a payment leaves behind: the payment added, the invoice released if that
/// completes it, the other invoices as they were.
proof fn lemma_pay_effect(ledger: LedgerView, payer: Address, id: u64, amount: i128)
    requires
        ledger.storage.sound(),
        ledger.pay_refusal(payer, id, amount) is None,
    ensures
        ({
            let s = ledger.storage;
            let t = ledger.after_pay(payer, id, amount).storage;
            let invoice = s.invoices[id];
            &&& t.invoices.contains_key(id)
            &&& t.invoices[id] == invoice.with_payment(payer, amount).with_status(
                if invoice.funded + amount >= invoice.total() {
                    InvoiceStatus::Released
                } else {
                    InvoiceStatus::Pending
                },
            )
            &&& s.log_of(id).is_prefix_of(t.log_of(id))
            &&& s.last_id() <= t.last_id()
            &&& forall|other: u64| #[trigger]
                s.invoices.contains_key(other) && other != id ==> t.invoices.contains_key(other)
                    && t.invoices[other] == s.invoices[other] && t.log_of(other) == s.log_of(other)
            &&& forall|other: u64| #[trigger]
                t.invoices.contains_key(other) && !s.invoices.contains_key(other) ==> other
                    > s.last_id()
        }),
{
    let s = ledger.storage;
    let invoice = s.invoices[id];
    let paid_in = invoice.with_payment(payer, amount);
    let deposited = ledger.after_deposit(payer, id, amount);
    assert forall|other: u64| other != id implies #[trigger] deposited.storage.log_of(other)
        == s.log_of(other) by {}
    if invoice.funded + amount >= invoice.total() {
        soundness::lemma_release_refusal_reads(ledger, deposited, id, paid_in);
        assert forall|other: u64| #[trigger] deposited.storage.invoices.contains_key(other)
            <==> s.invoices.contains_key(other) by {}
        assert forall|other: u64| #[trigger] deposited.storage.logs.contains_key(other) implies
            deposited.storage.invoices.contains_key(other) by {
            if other != id {
                assert(s.logs.contains_key(other));
            }
        }
        lemma_routing_effect(deposited, id, paid_in, invoice.creator);
        let t = ledger.after_pay(payer, id, amount).storage;
        assert forall|other: u64| #[trigger]
            t.invoices.contains_key(other) && !s.invoices.contains_key(other) implies other
            > s.last_id() by {
            assert(!deposited.storage.invoices.contains_key(other));
        }
        assert forall|other: u64| #[trigger]
            s.invoices.contains_key(other) && other != id implies t.invoices.contains_key(other)
            && t.invoices[other] == s.invoices[other] && t.log_of(other) == s.log_of(other) by {
            assert(deposited.storage.invoices.contains_key(other));
        }
    }
}

/// What has been is kept over any number of calls if it is kept over each.
pub proof fn law_history_carries_over(first: StorageView, second: StorageView, third: StorageView)
    requires
        second.continues(first),
        third.continues(second),
    ensures
        third.continues(first),
{
    assert forall|id: u64| #[trigger] first.invoices.contains_key(id) implies {
        &&& third.invoices.contains_key(id)
        &&& third.invoices[id].continues(first.invoices[id])
        &&& first.log_of(id).is_prefix_of(third.log_of(id))
    } by {
        assert(second.invoices.contains_key(id));
        assert(second.invoices[id].continues(first.invoices[id]));
        assert(third.invoices[id].continues(second.invoices[id]));
        if first.invoices[id].status != InvoiceStatus::Pending {
            assert(third.invoices[id] =~= first.invoices[id].with_frozen(
                third.invoices[id].frozen,
            ));
        }
    }
    assert forall|id: u64| #[trigger]
        third.invoices.contains_key(id) && !first.invoices.contains_key(id) implies id
        > first.last_id() by {
        assert(second.invoices.contains_key(id) || id > second.last_id());
    }
}

proof fn lemma_payments_keep_history(
    ledger: LedgerView,
    payer: Address,
    payments: Seq<(u64, i128)>,
)
    requires
        ledger.storage.sound(),
        ledger.authorizes(payer),
        ledger.payments_refusal(payer, payments) is None,
    ensures
        ledger.after_payments(payer, payments).storage.continues(ledger.storage),
    decreases payments.len(),
{
    if payments.len() > 0 {
        let earlier = payments.drop_last();
        let between = ledger.after_payments(payer, earlier);
        lemma_payments_keep_history(ledger, payer, earlier);
        soundness::law_calls_keep_soundness(
            ledger,
            Call::BatchPay { payer, payments: earlier },
        );
        let (id, amount) = payments.last();
        lemma_pay_effect(between, payer, id, amount);
        law_history_carries_over(
            ledger.storage,
            between.storage,
            between.after_pay(payer, id, amount).storage,
        );
    }
}

/// No call undoes the past: invoices are never lost, their terms never change,
/// payments and audit entries are only added, ids only ascend, and an invoice that
/// has been released, refunded or cancelled stays as it is but for the freeze.
pub proof fn law_calls_keep_history(ledger: LedgerView, call: Call)
    requires
        ledger.storage.sound(),
        ledger.refusal(call) is None,
    ensures
        ledger.after(call).storage.continues(ledger.storage),
{
    let s = ledger.storage;
    let t = ledger.after(call).storage;
    match call {
        Call::Pay { payer, id, amount } => {
            lemma_pay_effect(ledger, payer, id, amount);
        },
        Call::BatchPay { payer, payments } => {
            lemma_payments_keep_history(ledger, payer, payments);
        },
        Call::Release { id } => {
            lemma_routing_effect(ledger, id, s.invoices[id], ledger.contract);
        },
        _ => {
            assert forall|id: u64| #[trigger] s.invoices.contains_key(id) implies {
                &&& t.invoices.contains_key(id)
                &&& t.invoices[id].continues(s.invoices[id])
                &&& s.log_of(id).is_prefix_of(t.log_of(id))
            } by {
                if call is Freeze || call is Unfreeze {
                    assert(t.invoices[id] =~= s.invoices[id].with_frozen(t.invoices[id].frozen));
                }
            }
        },
    }
}

proof fn lemma_payments_keep_the_freeze(
    ledger: LedgerView,
    payer: Address,
    payments: Seq<(u64, i128)>,
    id: u64,
)
    requires
        ledger.storage.sound(),
        ledger.authorizes(payer),
        ledger.payments_refusal(payer, payments) is None,
        ledger.storage.invoices.contains_key(id),
    ensures
        ({
            let t = ledger.after_payments(payer, payments).storage;
            t.invoices.contains_key(id) && t.invoices[id].frozen
                == ledger.storage.invoices[id].frozen
        }),
    decreases payments.len(),
{
    if payments.len() > 0 {
        let earlier = payments.drop_last();
        lemma_payments_keep_the_freeze(ledger, payer, earlier, id);
        soundness::law_calls_keep_soundness(
            ledger,
            Call::BatchPay { payer, payments: earlier },
        );
        lemma_pay_effect(
            ledger.after_payments(payer, earlier),
            payer,
            payments.last().0,
            payments.last().1,
        );
    }
}

/// Only freezing an invoice freezes it, and only unfreezing it ends the freeze.
pub proof fn law_calls_keep_the_freeze(ledger: LedgerView, call: Call, id: u64)
    requires
        ledger.storage.sound(),
        ledger.refusal(call) is None,
        ledger.storage.invoices.contains_key(id),
    ensures
        ledger.after(call).storage.invoices.contains_key(id),
        ledger.after(call).storage.invoices[id].frozen == match call {
            Call::Freeze { id: subject } if subject == id => true,
            Call::Unfreeze { id: subject } if subject == id => false,
            _ => ledger.storage.invoices[id].frozen,
        },
{
    match call {
        Call::Pay { payer, id: paid, amount } => {
            lemma_pay_effect(ledger, payer, paid, amount);
        },
        Call::BatchPay { payer, payments } => {
            lemma_payments_keep_the_freeze(ledger, payer, payments, id);
        },
        Call::Release { id: released } => {
            soundness::law_completed_invoices_are_released(ledger, released);
        },
        _ => {
            assert(id <= ledger.storage.last_id());
        },
    }
}

/// A call about one invoice leaves every other invoice and its audit log alone.
pub proof fn law_other_invoices_are_untouched(ledger: LedgerView, call: Call, other: u64)
    requires
        ledger.storage.sound(),
        ledger.refusal(call) is None,
        subject(call) matches Some(id) && id != other,
        ledger.storage.invoices.contains_key(other),
    ensures
        ledger.after(call).storage.invoices.contains_key(other),
        ledger.after(call).storage.invoices[other] == ledger.storage.invoices[other],
        ledger.after(call).storage.log_of(other) == ledger.storage.log_of(other),
{
    match call {
        Call::Pay { payer, id, amount } => {
            lemma_pay_effect(ledger, payer, id, amount);
        },
        Call::Release { id } => {
            lemma_routing_effect(ledger, id, ledger.storage.invoices[id], ledger.contract);
        },
        _ => {},
    }
}

/// Once an invoice has been released, refunded or cancelled, it can no longer be
/// paid, released, refunded, cancelled or given a new deadline.
pub proof fn law_closed_invoices_refuse(ledger: LedgerView, id: u64)
    requires
        ledger.storage.invoices.contains_key(id),
        ledger.storage.invoices[id].status != InvoiceStatus::Pending,
    ensures
        forall|payer: Address, amount: i128| ledger.pay_refusal(payer, id, amount) is Some,
        ledger.release_call_refusal(id) is Some,
        ledger.refund_refusal(id) is Some,
        forall|caller: Address| ledger.cancel_refusal(caller, id) is Some,
        forall|caller: Address, new_deadline: u64|
            ledger.extend_refusal(caller, id, new_deadline) is Some,
{
}

/// A payment that leaves something owed leaves the invoice pending; one that pays
/// all that is owed releases it. Either way it is counted and recorded.
pub proof fn law_payment_is_counted(ledger: LedgerView, payer: Address, id: u64, amount: i128)
    requires
        ledger.storage.sound(),
        ledger.pay_refusal(payer, id, amount) is None,
    ensures
        ({
            let before = ledger.storage.invoices[id];
            let after = ledger.after_pay(payer, id, amount).storage.invoices[id];
            &&& after.funded == before.funded + amount
            &&& after.payments.drop_last() == before.payments
            &&& after.payments.last().payer == payer
            &&& after.payments.last().amount == amount
            &&& after.status == InvoiceStatus::Released <==> after.funded == after.total()
            &&& after.status == InvoiceStatus::Pending <==> after.funded < after.total()
        }),
{
    let before = ledger.storage.invoices[id];
    let after = ledger.after_pay(payer, id, amount).storage.invoices[id];
    lemma_pay_effect(ledger, payer, id, amount);
    assert(ledger.storage.entry_sound(id));
    arith::lemma_sum_fits(before.amounts);
    soundness::lemma_paid_positive(before.payments);
    assert(after.payments.drop_last() =~= before.payments);
}

/// A release makes exactly the invoice that is to follow: where the released
/// invoice belongs to a subscription that runs on, one with the terms kept for it,
/// due in thirty days, which takes over what is then left of the subscription; where
/// it recurs, one with its own terms and its original time to pay; otherwise none.
pub proof fn law_release_makes_the_next_invoice(
    ledger: LedgerView,
    payer: Address,
    id: u64,
    amount: i128,
)
    requires
        ledger.storage.sound(),
        ledger.pay_refusal(payer, id, amount) is None,
        ledger.storage.invoices[id].funded + amount == ledger.storage.invoices[id].total(),
    ensures
        ({
            let s = ledger.storage;
            let t = ledger.after_pay(payer, id, amount).storage;
            let released = s.invoices[id];
            let next = t.invoices[ledger.next_id()];
            let follows = s.subscriptions.contains_key(id) || released.recurring;
            &&& t.last_id() == s.last_id() + if follows {
                1int
            } else {
                0
            }
            &&& !t.subscriptions.contains_key(id)
            &&& follows ==> {
                &&& t.invoices.contains_key(ledger.next_id())
                &&& t.subscriptions.contains_key(ledger.next_id()) <==> (
                s.subscriptions.contains_key(id) && s.subscriptions[id].remaining > 1)
                &&& t.subscriptions.contains_key(ledger.next_id())
                    ==> t.subscriptions[ledger.next_id()] == s.subscriptions[id].rest()
                &&& next.status == InvoiceStatus::Pending
                &&& next.funded == 0
                &&& next.creator == released.creator
                &&& next.recipients == released.recipients
                &&& next.amounts == released.amounts
                &&& next.tokens == released.tokens
                &&& next.recurring == released.recurring
                &&& next.deadline == ledger.timestamp + if released.recurring {
                    released.original_duration
                } else {
                    MONTH
                }
            }
        }),
{
    let s = ledger.storage;
    let invoice = s.invoices[id];
    assert(s.entry_sound(id));
    let paid_in = invoice.with_payment(payer, amount);
    let deposited = ledger.after_deposit(payer, id, amount);
    soundness::lemma_release_refusal_reads(ledger, deposited, id, paid_in);
    if ledger.has_successor(id, invoice) {
        assert(!s.invoices.contains_key(ledger.next_id()));
        assert(!s.subscriptions.contains_key(ledger.next_id()));
    }
}

/// At no time can an invoice be both paid and refunded.
pub proof fn law_paying_and_refunding_exclude_each_other(
    ledger: LedgerView,
    payer: Address,
    id: u64,
    amount: i128,
)
    ensures
        ledger.pay_refusal(payer, id, amount) is Some || ledger.refund_refusal(id) is Some,
{
}

/// An invoice whose deadline has passed while it was pending can be refunded, by
/// anyone and whether or not it is frozen.
pub proof fn law_overdue_invoices_can_be_refunded(ledger: LedgerView, id: u64)
    requires
        ledger.storage.sound(),
        ledger.storage.invoices.contains_key(id),
        ledger.storage.invoices[id].status == InvoiceStatus::Pending,
        ledger.timestamp > ledger.storage.invoices[id].deadline,
    ensures
        ledger.refund_refusal(id) is None,
{
    assert(ledger.storage.entry_sound(id));
}

/// An invoice that can be refunded has not been paid in full.
pub proof fn law_only_incomplete_invoices_are_refunded(ledger: LedgerView, id: u64)
    requires
        ledger.refund_refusal(id) is None,
    ensures
        ledger.storage.invoices[id].funded < ledger.storage.invoices[id].total(),
{
}

/// A new invoice gets an id that no invoice has had, is found under it, is
/// pending, and nothing has been paid towards it; it is the last that the index
/// lists for its creator.
pub proof fn law_new_invoices_are_fresh(ledger: LedgerView, terms: TermsView)
    requires
        ledger.storage.sound(),
        ledger.creation_refusal(terms) is None,
    ensures
        ({
            let id = ledger.next_id();
            let t = ledger.after_creation(terms).storage;
            &&& !ledger.storage.invoices.contains_key(id)
            &&& id == ledger.storage.last_id() + 1
            &&& t.invoices.contains_key(id)
            &&& t.invoices[id].status == InvoiceStatus::Pending
            &&& t.invoices[id].funded == 0
            &&& t.log_of(id).len() == 0
            &&& t.ids_of(terms.creator) == ledger.storage.ids_of(terms.creator).push(id)
        }),
{
}

/// Calls are made only by those who may make them: payers pay for themselves,
/// creators create, cancel and extend their own invoices, the admin freezes,
/// unfreezes and keeps the whitelist.
pub proof fn law_calls_are_authorized(ledger: LedgerView, call: Call)
    requires
        ledger.refusal(call) is None,
    ensures
        match call {
            Call::Initialize { admin, .. } => ledger.authorizes(admin),
            Call::Create { terms } => ledger.authorizes(terms.creator),
            Call::Subscribe { params, .. } => ledger.authorizes(params.creator),
            Call::Pay { payer, .. } => ledger.authorizes(payer),
            Call::BatchPay { payer, .. } => ledger.authorizes(payer),
            Call::Release { .. } => true,
            Call::Refund { .. } => true,
            Call::Cancel { id, .. } => ledger.authorizes(ledger.storage.invoices[id].creator),
            Call::Extend { id, .. } => ledger.authorizes(ledger.storage.invoices[id].creator),
            Call::InitAdmin { admin } => ledger.authorizes(admin),
            Call::RegisterPlan { payer, .. } => ledger.authorizes(payer),
            Call::Freeze { .. } | Call::Unfreeze { .. } | Call::WhitelistToken {
                ..
            } | Call::RemoveToken { .. } => ledger.storage.admin matches Some(admin)
                && ledger.authorizes(admin),
        },
{
}

} // verus!
