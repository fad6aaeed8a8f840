//! What calls read: a call does on part of the storage what it does on all of it.

use vstd::prelude::*;

use crate::laws::history;
use crate::laws::soundness::{self, Call};
use crate::ledger::{LedgerView, StorageView};
use crate::types::{
    Action, Address, EffectView, InvoiceStatus, InvoiceView, PlanKey, TermsView, Transfer,
};

verus! {

/// A choice of entries: those of some invoices, creators and plans.
#[verifier::ext_equal]
pub struct Part {
    pub ids: Set<u64>,
    pub creators: Set<Address>,
    pub plans: Set<PlanKey>,
}

impl LedgerView {
    /// The ledger with only the chosen entries in its storage, besides the
    /// settings.
    pub open spec fn part(self, part: Part) -> LedgerView {
        LedgerView {
            storage: StorageView {
                invoices: self.storage.invoices.restrict(part.ids),
                logs: self.storage.logs.restrict(part.ids),
                subscriptions: self.storage.subscriptions.restrict(part.ids),
                creators: self.storage.creators.restrict(part.creators),
                plans: self.storage.plans.restrict(part.plans),
                ..self.storage
            },
            ..self
        }
    }
}

/// The choice, and with it the invoices that have been made in between.
pub open spec fn with_new(part: Part, before: LedgerView, after: LedgerView) -> Part {
    Part {
        ids: part.ids.union(
            Set::new(|id: u64| before.storage.last_id() < id <= after.storage.last_id()),
        ),
        ..part
    }
}

/// The choice has the entries of the creators of `id` and of the invoice that may
/// follow it.
pub open spec fn has_creators(ledger: LedgerView, part: Part, id: u64) -> bool {
    &&& part.creators.contains(ledger.storage.invoices[id].creator)
    &&& ledger.storage.subscriptions.contains_key(id) ==> part.creators.contains(
        ledger.storage.subscriptions[id].creator,
    )
}

/// The choice has the entries that a call reads and writes.
pub open spec fn suffices(ledger: LedgerView, part: Part, call: Call) -> bool {
    match call {
        Call::Create { terms } => part.creators.contains(terms.creator),
        Call::Subscribe { params, .. } => part.creators.contains(params.creator),
        Call::Pay { id, .. } => part.ids.contains(id) && has_creators(ledger, part, id),
        Call::Release { id } => part.ids.contains(id) && has_creators(ledger, part, id),
        Call::Refund { id } => part.ids.contains(id),
        Call::Cancel { id, .. } => part.ids.contains(id),
        Call::Extend { id, .. } => part.ids.contains(id),
        Call::Freeze { id } => part.ids.contains(id),
        Call::Unfreeze { id } => part.ids.contains(id),
        Call::RegisterPlan { payer, id, .. } => part.plans.contains(
            PlanKey { payer, invoice_id: id },
        ),
        Call::BatchPay { payer, payments } => forall|n: int|
            0 <= n < payments.len() ==> part.ids.contains(payments[n].0) && has_creators(
                #[trigger] ledger.after_payments(payer, payments.take(n)),
                part,
                payments[n].0,
            ),
        _ => true,
    }
}

proof fn lemma_creation_is_local(ledger: LedgerView, part: Part, terms: TermsView)
    requires
        ledger.storage.ids_sound(),
        ledger.creation_refusal(terms) is None,
        part.creators.contains(terms.creator),
    ensures
        ledger.part(part).creation_refusal(terms) is None,
        ledger.part(part).after_creation(terms) == ledger.after_creation(terms).part(
            with_new(part, ledger, ledger.after_creation(terms)),
        ),
{
    let id = ledger.next_id();
    let grown = with_new(part, ledger, ledger.after_creation(terms));
    let a = ledger.part(part).after_creation(terms);
    let b = ledger.after_creation(terms).part(grown);
    assert(!ledger.storage.invoices.contains_key(id));
    assert(!ledger.storage.logs.contains_key(id));
    assert(!ledger.storage.subscriptions.contains_key(id));
    assert(a.storage.invoices =~= b.storage.invoices);
    assert(a.storage.logs =~= b.storage.logs);
    assert(a.storage.subscriptions =~= b.storage.subscriptions);
    assert(a.storage.creators =~= b.storage.creators);
}

/// Storing an invoice and recording an action on it is local to the invoice.
proof fn lemma_action_is_local(ledger: LedgerView, part: Part, id: u64, invoice: InvoiceView)
    requires
        part.ids.contains(id),
    ensures
        ledger.part(part).with_invoice(id, invoice) == ledger.with_invoice(id, invoice).part(part),
        forall|action: Action, actor: Address| #[trigger]
            ledger.part(part).with_audit_entry(id, action, actor) == ledger.with_audit_entry(
                id,
                action,
                actor,
            ).part(part),
{
    assert(ledger.part(part).with_invoice(id, invoice).storage.invoices =~= ledger.with_invoice(
        id,
        invoice,
    ).part(part).storage.invoices);
    assert(ledger.part(part).storage.log_of(id) == ledger.storage.log_of(id));
    assert forall|action: Action, actor: Address| #[trigger]
        ledger.part(part).with_audit_entry(id, action, actor) == ledger.with_audit_entry(
            id,
            action,
            actor,
        ).part(part) by {
        assert(ledger.part(part).with_audit_entry(id, action, actor).storage.logs
            =~= ledger.with_audit_entry(id, action, actor).part(part).storage.logs);
    }
}

proof fn lemma_routing_is_local(
    ledger: LedgerView,
    part: Part,
    id: u64,
    invoice: InvoiceView,
    actor: Address,
)
    requires
        ledger.storage.ids_sound(),
        ledger.storage.invoices.contains_key(id),
        part.ids.contains(id),
        has_creators(ledger, part, id),
        invoice.creator == ledger.storage.invoices[id].creator,
    ensures
        ledger.part(part).release_refusal(id, invoice) == ledger.release_refusal(id, invoice),
        ledger.release_refusal(id, invoice) is None ==> ledger.part(part).after_routing(
            id,
            invoice,
            actor,
        ) == ledger.after_routing(id, invoice, actor).part(
            with_new(part, ledger, ledger.after_routing(id, invoice, actor)),
        ),
{
    let p = ledger.part(part);
    soundness::lemma_release_refusal_reads(ledger, p, id, invoice);
    if ledger.release_refusal(id, invoice) is None {
        assert(p.fee_transfers(invoice) =~= ledger.fee_transfers(invoice));
        assert(p.payouts(invoice) =~= ledger.payouts(invoice));
        let released = invoice.with_status(InvoiceStatus::Released);
        let moved = ledger.with_transfers(ledger.release_transfers(invoice));
        lemma_action_is_local(moved, part, id, released);
        lemma_action_is_local(moved.with_invoice(id, released), part, id, released);
        let routed = ledger.after_payout(id, invoice, actor);
        assert(p.with_transfers(p.release_transfers(invoice)) == moved.part(part));
        assert(p.after_payout(id, invoice, actor) == routed.part(part));
        if ledger.has_successor(id, invoice) {
            let next = ledger.successor_terms(id, invoice);
            assert(p.successor_terms(id, invoice) == next);
            assert(routed.creation_refusal(next) == ledger.creation_refusal(next));
            assert forall|other: u64| #[trigger]
                routed.storage.invoices.contains_key(other) <==> 1 <= other
                    <= routed.storage.last_id() by {
                assert(ledger.storage.invoices.contains_key(other) <==> 1 <= other
                    <= ledger.storage.last_id());
            }
            assert forall|other: u64| #[trigger]
                routed.storage.logs.contains_key(
                    other,
                ) implies routed.storage.invoices.contains_key(other) by {
                if other != id {
                    assert(ledger.storage.logs.contains_key(other));
                }
            }
            lemma_creation_is_local(routed, part, next);
            let made = routed.after_creation(next);
            let grown = with_new(part, ledger, made);
            assert(made.part(grown).without_subscription(id).storage.subscriptions
                =~= made.without_subscription(id).part(grown).storage.subscriptions);
            if ledger.storage.subscriptions.contains_key(id) {
                let params = ledger.storage.subscriptions[id];
                let dropped = made.without_subscription(id);
                let next_id = ledger.next_id();
                assert(dropped.part(grown).with_rest(next_id, params).storage.subscriptions
                    =~= dropped.with_rest(next_id, params).part(grown).storage.subscriptions);
            }
        }
    }
}

proof fn lemma_pay_is_local(
    ledger: LedgerView,
    part: Part,
    payer: Address,
    id: u64,
    amount: i128,
)
    requires
        ledger.storage.sound(),
        part.ids.contains(id),
        has_creators(ledger, part, id),
    ensures
        ledger.part(part).pay_refusal(payer, id, amount) == ledger.pay_refusal(payer, id, amount),
        ledger.pay_refusal(payer, id, amount) is None ==> ledger.part(part).after_pay(
            payer,
            id,
            amount,
        ) == ledger.after_pay(payer, id, amount).part(
            with_new(part, ledger, ledger.after_pay(payer, id, amount)),
        ),
{
    let p = ledger.part(part);
    if ledger.storage.invoices.contains_key(id) {
        let invoice = ledger.storage.invoices[id];
        let paid_in = invoice.with_payment(payer, amount);
        assert(p.storage.invoices[id] == invoice);
        soundness::lemma_release_refusal_reads(ledger, p, id, paid_in);
        if ledger.pay_refusal(payer, id, amount) is None {
            let deposited = ledger.after_deposit(payer, id, amount);
            let taken = ledger.with_effect(
                EffectView::Transfer(
                    Transfer {
                        token: invoice.tokens[0],
                        from: payer,
                        to: ledger.contract,
                        amount,
                    },
                ),
            );
            lemma_action_is_local(taken, part, id, paid_in);
            lemma_action_is_local(taken.with_invoice(id, paid_in), part, id, paid_in);
            assert(p.after_deposit(payer, id, amount) == deposited.part(part));
            if invoice.funded + amount >= invoice.total() {
                assert forall|other: u64| #[trigger]
                    deposited.storage.logs.contains_key(
                        other,
                    ) implies deposited.storage.invoices.contains_key(other) by {
                    if other != id {
                        assert(ledger.storage.logs.contains_key(other));
                    }
                }
                assert forall|other: u64| #[trigger]
                    deposited.storage.invoices.contains_key(other) <==> 1 <= other
                        <= deposited.storage.last_id() by {
                    assert(ledger.storage.invoices.contains_key(other) <==> 1 <= other
                        <= ledger.storage.last_id());
                }
                soundness::lemma_release_refusal_reads(ledger, deposited, id, paid_in);
                lemma_routing_is_local(deposited, part, id, paid_in, invoice.creator);
            }
        }
    }
}

/// Nothing new since: the choice is as it was.
proof fn lemma_nothing_new(part: Part, before: LedgerView, after: LedgerView)
    requires
        after.storage.last_id() == before.storage.last_id(),
    ensures
        with_new(part, before, after) == part,
{
    assert(with_new(part, before, after).ids =~= part.ids);
}

proof fn lemma_payments_are_local(
    ledger: LedgerView,
    part: Part,
    payer: Address,
    payments: Seq<(u64, i128)>,
)
    requires
        ledger.storage.sound(),
        ledger.authorizes(payer),
        suffices(ledger, part, Call::BatchPay { payer, payments }),
    ensures
        ledger.part(part).payments_refusal(payer, payments) == ledger.payments_refusal(
            payer,
            payments,
        ),
        ledger.payments_refusal(payer, payments) is None ==> ledger.part(part).after_payments(
            payer,
            payments,
        ) == ledger.after_payments(payer, payments).part(
            with_new(part, ledger, ledger.after_payments(payer, payments)),
        ),
    decreases payments.len(),
{
    if payments.len() == 0 {
        lemma_nothing_new(part, ledger, ledger);
    } else {
        let earlier = payments.drop_last();
        let m = payments.len() - 1;
        let (id, amount) = payments[m];
        assert forall|n: int| 0 <= n < earlier.len() implies part.ids.contains(earlier[n].0)
            && has_creators(
            #[trigger] ledger.after_payments(payer, earlier.take(n)),
            part,
            earlier[n].0,
        ) by {
            assert(earlier.take(n) =~= payments.take(n));
            assert(has_creators(
                ledger.after_payments(payer, payments.take(n)),
                part,
                payments[n].0,
            ));
        }
        lemma_payments_are_local(ledger, part, payer, earlier);
        if ledger.payments_refusal(payer, earlier) is None {
            let between = ledger.after_payments(payer, earlier);
            assert(payments.take(m) =~= earlier);
            assert(has_creators(ledger.after_payments(payer, payments.take(m)), part, id));
            let call = Call::BatchPay { payer, payments: earlier };
            soundness::law_calls_keep_soundness(ledger, call);
            history::law_calls_keep_history(ledger, call);
            let grown = with_new(part, ledger, between);
            lemma_pay_is_local(between, grown, payer, id, amount);
            if between.pay_refusal(payer, id, amount) is None {
                let after = between.after_pay(payer, id, amount);
                soundness::lemma_pay_keeps_soundness(between, payer, id, amount);
                history::law_calls_keep_history(between, Call::Pay { payer, id, amount });
                assert(with_new(grown, between, after) =~= with_new(part, ledger, after));
            }
        }
    }
}

/// A call is accepted, refused and carried out on a part of the storage that has
/// the entries it reads and writes just as on all of it.
pub proof fn law_calls_are_local(ledger: LedgerView, part: Part, call: Call)
    requires
        ledger.storage.sound(),
        suffices(ledger, part, call),
    ensures
        ledger.part(part).refusal(call) == ledger.refusal(call),
        ledger.refusal(call) is None ==> ledger.part(part).after(call) == ledger.after(call).part(
            with_new(part, ledger, ledger.after(call)),
        ),
{
    let p = ledger.part(part);
    let s = ledger.storage;
    if ledger.after(call).storage.last_id() == s.last_id() {
        lemma_nothing_new(part, ledger, ledger.after(call));
    }
    match call {
        Call::Create { terms } => {
            assert(p.creation_refusal(terms) == ledger.creation_refusal(terms));
            if ledger.refusal(call) is None {
                lemma_creation_is_local(ledger, part, terms);
            }
        },
        Call::Subscribe { params } => {
            let terms = ledger.subscription_terms(params);
            assert(p.creation_refusal(terms) == ledger.creation_refusal(terms));
            if ledger.refusal(call) is None {
                lemma_creation_is_local(ledger, part, terms);
                let grown = with_new(part, ledger, ledger.after(call));
                assert(p.after(call).storage.subscriptions =~= ledger.after(call).part(
                    grown,
                ).storage.subscriptions);
            }
        },
        Call::Pay { payer, id, amount } => {
            lemma_pay_is_local(ledger, part, payer, id, amount);
        },
        Call::BatchPay { payer, payments } => {
            if ledger.authorizes(payer) {
                lemma_payments_are_local(ledger, part, payer, payments);
            }
        },
        Call::Release { id } => {
            soundness::law_completed_invoices_are_released(ledger, id);
            if s.invoices.contains_key(id) {
                lemma_routing_is_local(ledger, part, id, s.invoices[id], ledger.contract);
            }
        },
        Call::Refund { id } => {
            if ledger.refusal(call) is None {
                let invoice = s.invoices[id];
                let refunded = invoice.with_status(InvoiceStatus::Refunded);
                let moved = ledger.with_transfers(ledger.refunds(invoice));
                assert(p.refunds(invoice) =~= ledger.refunds(invoice));
                assert(p.with_transfers(p.refunds(invoice)) == moved.part(part));
                lemma_action_is_local(moved, part, id, refunded);
                lemma_action_is_local(moved.with_invoice(id, refunded), part, id, refunded);
            }
        },
        Call::Cancel { caller, id } => {
            let changed = s.invoices[id].with_status(InvoiceStatus::Cancelled);
            lemma_action_is_local(ledger, part, id, changed);
            lemma_action_is_local(ledger.with_invoice(id, changed), part, id, changed);
        },
        Call::Extend { caller, id, new_deadline } => {
            let changed = s.invoices[id].with_deadline(new_deadline);
            lemma_action_is_local(ledger, part, id, changed);
            lemma_action_is_local(ledger.with_invoice(id, changed), part, id, changed);
        },
        Call::Freeze { id } => {
            lemma_action_is_local(ledger, part, id, s.invoices[id].with_frozen(true));
        },
        Call::Unfreeze { id } => {
            lemma_action_is_local(ledger, part, id, s.invoices[id].with_frozen(false));
        },
        Call::RegisterPlan { payer, id, schedule } => {
            assert(p.after(call).storage.plans =~= ledger.after(call).part(part).storage.plans);
        },
        _ => {},
    }
}

} // verus!
