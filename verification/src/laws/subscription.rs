//! Subscriptions: one invoice for each month, whatever else is called in between.

use vstd::prelude::*;

use crate::laws::history;
use crate::laws::reach::Step;
use crate::laws::soundness::{self, Call};
use crate::ledger::{LedgerView, StorageView};
use crate::types::{Address, InvoiceStatus, InvoiceView, SubscriptionParamsView};

verus! {

impl InvoiceView {
    /// The invoice is made out as the subscription says.
    pub open spec fn is_billed_by(self, params: SubscriptionParamsView) -> bool {
        &&& self.creator == params.creator
        &&& self.recipients == params.recipients
        &&& self.amounts == params.amounts
        &&& self.tokens == params.tokens
        &&& !self.recurring
    }
}

impl StorageView {
    /// `chain` is what a subscription over `params.remaining` months can have come to
    /// so far: no more invoices than months, made out as the subscription says, with
    /// ascending ids, all but the last of them released. Once the last is released
    /// too, there are as many as months; until then, what is kept for the invoice
    /// after it is the number of months that are left, if any are.
    pub open spec fn bills(self, params: SubscriptionParamsView, chain: Seq<u64>) -> bool {
        let last = chain.last();
        &&& 1 <= chain.len() <= params.remaining
        &&& forall|i: int|
            0 <= i < chain.len() ==> self.invoices.contains_key(#[trigger] chain[i])
                && self.invoices[chain[i]].is_billed_by(params)
        &&& forall|i: int, j: int|
            0 <= i < j < chain.len() ==> #[trigger] chain[i] < #[trigger] chain[j]
        &&& forall|i: int|
            0 <= i < chain.len() - 1 ==> self.invoices[#[trigger] chain[i]].status
                == InvoiceStatus::Released
        &&& if self.invoices[last].status == InvoiceStatus::Released {
            chain.len() == params.remaining
        } else {
            &&& self.subscriptions.contains_key(last) <==> chain.len() < params.remaining
            &&& self.subscriptions.contains_key(last) ==> self.subscriptions[last].remaining
                == params.remaining - chain.len()
        }
    }
}

/// The invoices of a subscription, which were those of `chain`, once storage has gone
/// from `before` to `after`: one more, if the last of them has been released and
/// another invoice has been made with that.
pub open spec fn grown(before: StorageView, after: StorageView, chain: Seq<u64>) -> Seq<u64> {
    let last = chain.last();
    if before.invoices[last].status != InvoiceStatus::Released && after.invoices[last].status
        == InvoiceStatus::Released && before.last_id() < after.last_id() {
        chain.push(after.last_id())
    } else {
        chain
    }
}

/// The invoices of a subscription after payments, made one after the other.
pub open spec fn grown_by_payments(
    ledger: LedgerView,
    payer: Address,
    payments: Seq<(u64, i128)>,
    chain: Seq<u64>,
) -> Seq<u64>
    decreases payments.len(),
{
    if payments.len() == 0 {
        chain
    } else {
        let earlier = payments.drop_last();
        grown(
            ledger.after_payments(payer, earlier).storage,
            ledger.after_payments(payer, payments).storage,
            grown_by_payments(ledger, payer, earlier, chain),
        )
    }
}

/// The invoices of a subscription after `call`.
pub open spec fn grown_by(ledger: LedgerView, call: Call, chain: Seq<u64>) -> Seq<u64> {
    match call {
        Call::BatchPay { payer, payments } => grown_by_payments(ledger, payer, payments, chain),
        _ => grown(ledger.storage, ledger.after(call).storage, chain),
    }
}

/// The invoices of a subscription after `steps`, one after the other.
pub open spec fn grown_over(ledger: LedgerView, steps: Seq<Step>, chain: Seq<u64>) -> Seq<u64>
    decreases steps.len(),
{
    if steps.len() == 0 {
        chain
    } else {
        let earlier = grown_over(ledger, steps.drop_last(), chain);
        let found = ledger.after_steps(steps.drop_last()).at(steps.last());
        if found.refusal(steps.last().call) is None {
            grown_by(found, steps.last().call, earlier)
        } else {
            earlier
        }
    }
}

/// What a call that keeps history leaves of a chain but for its end: the invoices
/// are there, made out as they were, and those that were released still are.
proof fn lemma_chain_is_kept(
    s: StorageView,
    t: StorageView,
    params: SubscriptionParamsView,
    chain: Seq<u64>,
)
    requires
        s.bills(params, chain),
        t.continues(s),
    ensures
        forall|i: int|
            0 <= i < chain.len() ==> t.invoices.contains_key(#[trigger] chain[i])
                && t.invoices[chain[i]].is_billed_by(params),
        forall|i: int|
            0 <= i < chain.len() - 1 ==> t.invoices[#[trigger] chain[i]].status
                == InvoiceStatus::Released,
        s.invoices.contains_key(chain.last()),
        s.invoices[chain.last()].status == InvoiceStatus::Released
            ==> t.invoices[chain.last()].status == InvoiceStatus::Released,
{
    assert forall|i: int| 0 <= i < chain.len() implies t.invoices.contains_key(
        #[trigger] chain[i],
    ) && t.invoices[chain[i]].is_billed_by(params) && (s.invoices[chain[i]].status
        == InvoiceStatus::Released ==> t.invoices[chain[i]].status
        == InvoiceStatus::Released) by {
        assert(s.invoices.contains_key(chain[i]));
        assert(t.invoices[chain[i]].continues(s.invoices[chain[i]]));
    }
    assert(chain.last() == chain[chain.len() - 1]);
}

/// The payment that completes the latest invoice of a subscription makes the
/// invoice of the next month, as long as there is one; the last of them makes none.
pub proof fn law_each_release_bills_the_next_month(
    ledger: LedgerView,
    params: SubscriptionParamsView,
    chain: Seq<u64>,
    payer: Address,
    amount: i128,
)
    requires
        ledger.storage.sound(),
        ledger.storage.bills(params, chain),
        ledger.pay_refusal(payer, chain.last(), amount) is None,
        ledger.storage.invoices[chain.last()].funded + amount
            == ledger.storage.invoices[chain.last()].total(),
    ensures
        ({
            let s = ledger.storage;
            let t = ledger.after_pay(payer, chain.last(), amount).storage;
            if chain.len() < params.remaining {
                &&& t.last_id() == s.last_id() + 1
                &&& t.invoices[t.last_id()].status == InvoiceStatus::Pending
                &&& grown(s, t, chain) == chain.push(t.last_id())
                &&& t.bills(params, chain.push(t.last_id()))
            } else {
                &&& t.last_id() == s.last_id()
                &&& grown(s, t, chain) == chain
                &&& t.bills(params, chain)
            }
        }),
{
    let s = ledger.storage;
    let last = chain.last();
    let t = ledger.after_pay(payer, last, amount).storage;
    assert(last == chain[chain.len() - 1]);
    history::law_calls_keep_history(ledger, Call::Pay { payer, id: last, amount });
    history::law_payment_is_counted(ledger, payer, last, amount);
    history::law_release_makes_the_next_invoice(ledger, payer, last, amount);
    lemma_chain_is_kept(s, t, params, chain);
    assert(t.invoices[last].status == InvoiceStatus::Released);
    if chain.len() < params.remaining {
        let next = t.last_id();
        let longer = chain.push(next);
        assert(next == ledger.next_id());
        assert forall|i: int| 0 <= i < longer.len() implies t.invoices.contains_key(
            #[trigger] longer[i],
        ) && t.invoices[longer[i]].is_billed_by(params) by {
            if i < chain.len() {
                assert(longer[i] == chain[i]);
            }
        }
        assert forall|i: int, j: int| 0 <= i < j < longer.len() implies #[trigger] longer[i]
            < #[trigger] longer[j] by {
            assert(longer[i] == chain[i]);
            assert(s.invoices.contains_key(chain[i]));
        }
        assert forall|i: int| 0 <= i < longer.len() - 1 implies t.invoices[
        #[trigger] longer[i]].status == InvoiceStatus::Released by {
            assert(longer[i] == chain[i]);
        }
    }
}

/// A payment takes a chain on.
proof fn lemma_pay_keeps_bills(
    ledger: LedgerView,
    params: SubscriptionParamsView,
    chain: Seq<u64>,
    payer: Address,
    id: u64,
    amount: i128,
)
    requires
        ledger.storage.sound(),
        ledger.storage.bills(params, chain),
        ledger.pay_refusal(payer, id, amount) is None,
    ensures
        ({
            let t = ledger.after_pay(payer, id, amount).storage;
            t.bills(params, grown(ledger.storage, t, chain))
        }),
{
    let s = ledger.storage;
    let t = ledger.after_pay(payer, id, amount).storage;
    let last = chain.last();
    let call = Call::Pay { payer, id, amount };
    assert(last == chain[chain.len() - 1]);
    assert(s.invoices.contains_key(last));
    history::law_calls_keep_history(ledger, call);
    history::law_payment_is_counted(ledger, payer, id, amount);
    lemma_chain_is_kept(s, t, params, chain);
    if id != last {
        history::law_other_invoices_are_untouched(ledger, call, last);
    } else if s.invoices[id].funded + amount >= s.invoices[id].total() {
        law_each_release_bills_the_next_month(ledger, params, chain, payer, amount);
    }
}

proof fn lemma_payments_keep_bills(
    ledger: LedgerView,
    params: SubscriptionParamsView,
    chain: Seq<u64>,
    payer: Address,
    payments: Seq<(u64, i128)>,
)
    requires
        ledger.storage.sound(),
        ledger.storage.bills(params, chain),
        ledger.authorizes(payer),
        ledger.payments_refusal(payer, payments) is None,
    ensures
        ledger.after_payments(payer, payments).storage.bills(
            params,
            grown_by_payments(ledger, payer, payments, chain),
        ),
    decreases payments.len(),
{
    if payments.len() > 0 {
        let earlier = payments.drop_last();
        lemma_payments_keep_bills(ledger, params, chain, payer, earlier);
        soundness::law_calls_keep_soundness(
            ledger,
            Call::BatchPay { payer, payments: earlier },
        );
        lemma_pay_keeps_bills(
            ledger.after_payments(payer, earlier),
            params,
            grown_by_payments(ledger, payer, earlier, chain),
            payer,
            payments.last().0,
            payments.last().1,
        );
    }
}

/// Any call takes a chain on.
proof fn lemma_calls_keep_bills(
    ledger: LedgerView,
    params: SubscriptionParamsView,
    chain: Seq<u64>,
    call: Call,
)
    requires
        ledger.storage.sound(),
        ledger.storage.bills(params, chain),
        ledger.refusal(call) is None,
    ensures
        ledger.after(call).storage.bills(params, grown_by(ledger, call, chain)),
{
    let s = ledger.storage;
    let t = ledger.after(call).storage;
    let last = chain.last();
    match call {
        Call::Pay { payer, id, amount } => {
            lemma_pay_keeps_bills(ledger, params, chain, payer, id, amount);
        },
        Call::BatchPay { payer, payments } => {
            lemma_payments_keep_bills(ledger, params, chain, payer, payments);
        },
        Call::Release { id } => {
            soundness::law_completed_invoices_are_released(ledger, id);
        },
        _ => {
            history::law_calls_keep_history(ledger, call);
            lemma_chain_is_kept(s, t, params, chain);
            assert(last <= s.last_id());
            assert(t.invoices[last].status == InvoiceStatus::Released ==> s.invoices[last].status
                == InvoiceStatus::Released);
            assert(t.subscriptions.contains_key(last) == s.subscriptions.contains_key(last));
        },
    }
}

/// A subscription over n months comes to exactly n invoices. The first is made with
/// it, each of the others when the one before is released, and the release of the
/// n-th makes none. So it is whatever calls follow, by whomever and whenever: there
/// are never more than n, all but the latest have been released, and once the latest
/// has been too, there are n.
pub proof fn law_subscriptions_bill_every_month(
    ledger: LedgerView,
    params: SubscriptionParamsView,
    steps: Seq<Step>,
)
    requires
        ledger.storage.sound(),
        ledger.subscribe_refusal(params) is None,
    ensures
        ({
            let start = ledger.after_subscribe(params);
            start.after_steps(steps).storage.bills(
                params,
                grown_over(start, steps, seq![ledger.next_id()]),
            )
        }),
{
    let start = ledger.after_subscribe(params);
    let first = ledger.next_id();
    soundness::law_calls_keep_soundness(ledger, Call::Subscribe { params });
    assert(!ledger.storage.invoices.contains_key(first));
    assert(!ledger.storage.subscriptions.contains_key(first));
    assert(start.storage.bills(params, seq![first]));
    lemma_steps_keep_bills(start, params, seq![first], steps);
}

proof fn lemma_steps_keep_bills(
    ledger: LedgerView,
    params: SubscriptionParamsView,
    chain: Seq<u64>,
    steps: Seq<Step>,
)
    requires
        ledger.storage.sound(),
        ledger.storage.bills(params, chain),
    ensures
        ledger.after_steps(steps).storage.sound(),
        ledger.after_steps(steps).storage.bills(params, grown_over(ledger, steps, chain)),
    decreases steps.len(),
{
    if steps.len() > 0 {
        let earlier = steps.drop_last();
        let step = steps.last();
        lemma_steps_keep_bills(ledger, params, chain, earlier);
        let found = ledger.after_steps(earlier).at(step);
        if found.refusal(step.call) is None {
            soundness::law_calls_keep_soundness(found, step.call);
            lemma_calls_keep_bills(found, params, grown_over(ledger, earlier, chain), step.call);
        }
    }
}

} // verus!
