//! What calls leave behind, entry by entry: what is stored, what is paid to whom, and
//! what is told.

use vstd::prelude::*;

use crate::arith;
use crate::laws::money;
use crate::laws::soundness;
use crate::ledger::{LedgerView, StorageView};
use crate::types::{
    Action, Address, AuditEntry, EffectView, EventView, InvoiceStatus, InvoiceView, Payment,
    PlanKey, SubscriptionParamsView, TermsView, Transfer,
};

verus! {

// ---------------------------------------------------------------------------
// Sums, fees and shares
// ---------------------------------------------------------------------------
/// A sum starts at nothing and grows by each amount that is added to the list. Amounts
/// can be added up as long as no sum on the way is one that an `i128` cannot hold.
pub proof fn law_sums_add_up(amounts: Seq<i128>, amount: i128)
    ensures
        arith::sum(Seq::empty()) == 0,
        arith::sum(amounts.push(amount)) == arith::sum(amounts) + amount,
        arith::sum_fits(Seq::empty()),
        arith::sum_fits(amounts.push(amount)) <==> (arith::sum_fits(amounts) && i128::MIN
            <= arith::sum(amounts) + amount <= i128::MAX),
{
    let longer = amounts.push(amount);
    let n = amounts.len() as int;
    assert(longer.drop_last() =~= amounts);
    assert(longer.take(n + 1) =~= longer);
    assert(arith::fits(arith::sum(longer.take(n + 1))) <==> arith::fits(
        arith::sum(amounts) + amount,
    ));
    assert forall|m: int| 0 <= m <= n implies #[trigger] longer.take(m) == amounts.take(m) by {
        assert(longer.take(m) =~= amounts.take(m));
    }
    if arith::sum_fits(longer) {
        assert forall|m: int| 0 <= m <= n implies arith::fits(
            #[trigger] arith::sum(amounts.take(m)),
        ) by {
            assert(arith::fits(arith::sum(longer.take(m))));
        }
    }
    if arith::sum_fits(amounts) && arith::fits(arith::sum(amounts) + amount) {
        assert forall|m: int| 0 <= m <= longer.len() implies arith::fits(
            #[trigger] arith::sum(longer.take(m)),
        ) by {
            if m <= n {
                assert(arith::fits(arith::sum(amounts.take(m))));
            }
        }
    }
}

/// Positive amounts can be added up just when their sum is one that an `i128` holds.
pub proof fn law_positive_sums_fit(amounts: Seq<i128>)
    requires
        forall|i: int| 0 <= i < amounts.len() ==> #[trigger] amounts[i] > 0,
    ensures
        arith::sum_fits(amounts) <==> arith::sum(amounts) <= i128::MAX,
    decreases amounts.len(),
{
    assert(amounts.take(amounts.len() as int) =~= amounts);
    if arith::sum(amounts) <= i128::MAX {
        assert forall|n: int| 0 <= n <= amounts.len() implies arith::fits(
            #[trigger] arith::sum(amounts.take(n)),
        ) by {
            lemma_part_of_sum(amounts, n);
        }
    }
}

proof fn lemma_part_of_sum(amounts: Seq<i128>, n: int)
    requires
        0 <= n <= amounts.len(),
        forall|i: int| 0 <= i < amounts.len() ==> #[trigger] amounts[i] > 0,
    ensures
        0 <= arith::sum(amounts.take(n)) <= arith::sum(amounts),
    decreases amounts.len(),
{
    if n == amounts.len() {
        assert(amounts.take(n) =~= amounts);
        soundness::lemma_sum_positive(amounts);
    } else {
        let earlier = amounts.drop_last();
        assert forall|i: int| 0 <= i < earlier.len() implies #[trigger] earlier[i] > 0 by {
            assert(earlier[i] == amounts[i]);
        }
        lemma_part_of_sum(earlier, n);
        assert(earlier.take(n) =~= amounts.take(n));
        assert(amounts[amounts.len() - 1] > 0);
    }
}

/// A quotient is rounded towards zero.
pub proof fn law_quotients_round_towards_zero(a: int, b: int)
    requires
        b > 0,
    ensures
        a >= 0 ==> arith::quotient(a, b) * b <= a < (arith::quotient(a, b) + 1) * b,
        arith::quotient(-a, b) == -arith::quotient(a, b),
{
    if a >= 0 {
        lemma_rounded_down(a, b);
    }
    assert(0int / b == 0) by (nonlinear_arith)
        requires
            b > 0,
    ;
}

proof fn lemma_rounded_down(a: int, b: int)
    requires
        a >= 0,
        b > 0,
    ensures
        (a / b) * b <= a < (a / b + 1) * b,
        0 <= a / b,
{
    let q = a / b;
    vstd::arithmetic::div_mod::lemma_fundamental_div_mod(a, b);
    vstd::arithmetic::div_mod::lemma_mod_bound(a, b);
    assert(q * b <= a < (q + 1) * b && 0 <= q) by (nonlinear_arith)
        requires
            a == b * q + a % b,
            0 <= a % b < b,
            a >= 0,
    ;
}

/// A fee is due just where a rate above zero and a treasury are set. It is the rate's
/// part of the total, in basis points and rounded down; otherwise it is nothing.
pub proof fn law_fee_is_its_part_of_the_total(ledger: LedgerView, total: int)
    requires
        total > 0,
    ensures
        ledger.charges_fee() <==> (ledger.storage.fee_bps is Some
            && ledger.storage.fee_bps->Some_0 > 0 && ledger.storage.treasury is Some),
        ledger.fee_bps() == match ledger.storage.fee_bps {
            Some(bps) => bps,
            None => 0,
        },
        if ledger.charges_fee() {
            ledger.fee(total) * 10_000 <= total * ledger.storage.fee_bps->Some_0 < (ledger.fee(
                total,
            ) + 1) * 10_000
        } else {
            ledger.fee(total) == 0
        },
{
    let bps = ledger.fee_bps() as int;
    assert(total * bps >= 0) by (nonlinear_arith)
        requires
            total > 0,
            bps >= 0,
    ;
}

/// `amount` is the part of `left` that `owed` is of `total`, rounded down.
pub open spec fn is_share(amount: int, owed: int, total: int, left: int) -> bool {
    amount * total <= owed * left < (amount + 1) * total
}

/// `transfers` route the funds of `invoice`: first the fee to the treasury, in the
/// first token, if there is a fee to pay; then one transfer to each recipient, in
/// order and in the recipient's own token, of their share of what is left. All come
/// from the contract.
pub open spec fn is_payout(
    transfers: Seq<Transfer>,
    ledger: LedgerView,
    invoice: InvoiceView,
) -> bool {
    let total = arith::sum(invoice.amounts);
    let fee = ledger.fee(total);
    let first: int = if fee > 0 {
        1
    } else {
        0
    };
    &&& transfers.len() == first + invoice.recipients.len()
    &&& fee > 0 ==> {
        &&& transfers[0].token == invoice.tokens[0]
        &&& transfers[0].from == ledger.contract
        &&& ledger.storage.treasury == Some(transfers[0].to)
        &&& transfers[0].amount == fee
    }
    &&& forall|i: int|
        #![trigger invoice.recipients[i]]
        0 <= i < invoice.recipients.len() ==> {
            &&& transfers[first + i].token == invoice.tokens[i]
            &&& transfers[first + i].from == ledger.contract
            &&& transfers[first + i].to == invoice.recipients[i]
            &&& is_share(
                transfers[first + i].amount as int,
                invoice.amounts[i] as int,
                total,
                total - fee,
            )
        }
}

/// Whatever the fee, a release pays the fee to the treasury and every recipient their
/// share, each in their own token, and nobody else.
pub proof fn law_release_pays_every_recipient(ledger: LedgerView, invoice: InvoiceView)
    requires
        invoice.terms_sound(),
        ledger.fee_bps() <= 10_000,
    ensures
        is_payout(ledger.release_transfers(invoice), ledger, invoice),
{
    let total = invoice.total();
    let fee = ledger.fee(total);
    let fees = ledger.fee_transfers(invoice);
    let payouts = ledger.payouts(invoice);
    let transfers = ledger.release_transfers(invoice);
    money::law_release_passes_on_the_total(ledger, invoice);
    arith::lemma_sum_fits(invoice.amounts);
    soundness::lemma_sum_positive(invoice.amounts);
    if fee > 0 {
        assert(transfers[0] == fees[0]);
    }
    assert forall|i: int|
        #![trigger invoice.recipients[i]]
        0 <= i < invoice.recipients.len() implies {
        let transfer = transfers[fees.len() + i];
        &&& transfer.token == invoice.tokens[i]
        &&& transfer.from == ledger.contract
        &&& transfer.to == invoice.recipients[i]
        &&& is_share(transfer.amount as int, invoice.amounts[i] as int, total, total - fee)
    } by {
        assert(transfers[fees.len() + i] == payouts[i]);
        assert(invoice.amounts[i] > 0);
        money::lemma_share_bounds(invoice.amounts[i] as int, total, fee);
    }
}

// ---------------------------------------------------------------------------
// Reading what is stored
// ---------------------------------------------------------------------------
/// What is read is what is stored; where nothing is stored, nothing is read.
pub proof fn law_entries_are_read_as_stored(
    storage: StorageView,
    id: u64,
    creator: Address,
    payer: Address,
)
    ensures
        storage.last_id() == match storage.counter {
            Some(last) => last,
            None => 0,
        },
        storage.logs.contains_key(id) ==> storage.log_of(id) == storage.logs[id],
        !storage.logs.contains_key(id) ==> storage.log_of(id).len() == 0,
        storage.creators.contains_key(creator) ==> storage.ids_of(creator)
            == storage.creators[creator],
        !storage.creators.contains_key(creator) ==> storage.ids_of(creator).len() == 0,
        ({
            let key = PlanKey { payer, invoice_id: id };
            if storage.plans.contains_key(key) {
                storage.plan_of(payer, id) == storage.plans[key]
            } else {
                storage.plan_of(payer, id).len() == 0
            }
        }),
{
}

// ---------------------------------------------------------------------------
// Creating
// ---------------------------------------------------------------------------
/// `invoice` has just been made out by `terms` at time `now`: it is pending and not
/// frozen, and nothing has been paid towards it.
pub open spec fn is_new(invoice: InvoiceView, terms: TermsView, now: u64) -> bool {
    &&& invoice.creator == terms.creator
    &&& invoice.recipients == terms.recipients
    &&& invoice.amounts == terms.amounts
    &&& invoice.tokens == terms.tokens
    &&& invoice.deadline == terms.deadline
    &&& invoice.recurring == terms.recurring
    &&& invoice.status == InvoiceStatus::Pending
    &&& invoice.payments.len() == 0
    &&& invoice.funded == 0
    &&& !invoice.frozen
    &&& invoice.original_duration == terms.deadline - now
}

/// From `before` to `after` one invoice has been made: under the next id, made out by
/// `terms`, listed last for its creator, and told of with its total. Of the rest of
/// what is stored, only what is kept for subscriptions may differ.
pub open spec fn is_made(before: LedgerView, after: LedgerView, terms: TermsView) -> bool {
    let s = before.storage;
    let t = after.storage;
    let id = t.last_id();
    &&& id == s.last_id() + 1
    &&& t.counter == Some(id)
    &&& t.invoices == s.invoices.insert(id, t.invoices[id])
    &&& is_new(t.invoices[id], terms, before.timestamp)
    &&& t.creators == s.creators.insert(terms.creator, s.ids_of(terms.creator).push(id))
    &&& t == (StorageView {
        counter: t.counter,
        invoices: t.invoices,
        creators: t.creators,
        subscriptions: t.subscriptions,
        ..s
    })
    &&& after.effects.len() == before.effects.len() + 1
    &&& after.effects.drop_last() == before.effects
    &&& after.effects.last() matches EffectView::Publish(
        EventView::InvoiceCreated { id: told, creator, total },
    ) && told == id && creator == terms.creator && total == arith::sum(terms.amounts)
    &&& after == (LedgerView { storage: t, effects: after.effects, ..before })
}

/// An invoice is made out as it was asked for, and nothing else changes.
pub proof fn law_invoices_are_made_out_as_asked(ledger: LedgerView, terms: TermsView)
    requires
        ledger.create_refusal(terms) is None,
    ensures
        is_made(ledger, ledger.after_creation(terms), terms),
        ledger.after_creation(terms).storage.subscriptions == ledger.storage.subscriptions,
{
    lemma_creation_makes(ledger, terms);
}

proof fn lemma_creation_makes(ledger: LedgerView, terms: TermsView)
    requires
        ledger.creation_refusal(terms) is None,
    ensures
        is_made(ledger, ledger.after_creation(terms), terms),
        ledger.after_creation(terms).storage.subscriptions == ledger.storage.subscriptions,
{
    arith::lemma_sum_fits(terms.amounts);
    assert(ledger.after_creation(terms).effects.drop_last() =~= ledger.effects);
}

/// A subscription starts with one invoice, due in thirty days whatever the number of
/// months, and with one month less to come.
pub proof fn law_subscriptions_start_with_one_month(
    ledger: LedgerView,
    params: SubscriptionParamsView,
)
    requires
        ledger.subscribe_refusal(params) is None,
    ensures
        ({
            let s = ledger.storage;
            let after = ledger.after_subscribe(params);
            let t = after.storage;
            let terms = TermsView {
                creator: params.creator,
                recipients: params.recipients,
                amounts: params.amounts,
                tokens: params.tokens,
                deadline: t.invoices[t.last_id()].deadline,
                recurring: false,
            };
            &&& is_made(ledger, after, terms)
            &&& terms.deadline == ledger.timestamp + 30 * 24 * 60 * 60
            &&& if params.remaining == 1 {
                t.subscriptions == s.subscriptions
            } else {
                let rest = t.subscriptions[t.last_id()];
                &&& t.subscriptions == s.subscriptions.insert(t.last_id(), rest)
                &&& rest.remaining == params.remaining - 1
                &&& rest == (SubscriptionParamsView { remaining: rest.remaining, ..params })
            }
        }),
{
    let terms = ledger.subscription_terms(params);
    lemma_creation_makes(ledger, terms);
}

// ---------------------------------------------------------------------------
// Paying and releasing
// ---------------------------------------------------------------------------
/// From `before` to `after` the action of `actor` on `id` has been recorded, and the
/// other audit logs are as they were.
pub open spec fn is_logged(
    before: LedgerView,
    after: LedgerView,
    id: u64,
    action: Action,
    actor: Address,
) -> bool {
    let entry = AuditEntry { action, actor, timestamp: before.timestamp };
    after.storage.logs == before.storage.logs.insert(id, before.storage.log_of(id).push(entry))
}

/// From `before` to `after` a payment has been taken: moved from the payer to the
/// contract in the invoice's first token, added to the invoice, recorded and told of.
/// Nothing else has changed.
pub open spec fn is_paid(
    before: LedgerView,
    after: LedgerView,
    payer: Address,
    id: u64,
    amount: i128,
) -> bool {
    let s = before.storage;
    let t = after.storage;
    let n = before.effects.len() as int;
    &&& t.invoices == s.invoices.insert(id, t.invoices[id])
    &&& t.invoices[id].funded == s.invoices[id].funded + amount
    &&& t.invoices[id].payments == s.invoices[id].payments.push(Payment { payer, amount })
    &&& t.invoices[id] == (InvoiceView {
        funded: t.invoices[id].funded,
        payments: t.invoices[id].payments,
        ..s.invoices[id]
    })
    &&& is_logged(before, after, id, Action::Pay, payer)
    &&& t == (StorageView { invoices: t.invoices, logs: t.logs, ..s })
    &&& after.effects.len() == n + 2
    &&& after.effects.take(n) == before.effects
    &&& after.effects[n] == EffectView::Transfer(
        Transfer { token: s.invoices[id].tokens[0], from: payer, to: before.contract, amount },
    )
    &&& after.effects[n + 1] == EffectView::Publish(
        EventView::PaymentReceived { id, payer, amount },
    )
    &&& after == (LedgerView { storage: t, effects: after.effects, ..before })
}

/// From `before` to `after` the funds of `invoice`, stored under `id`, have been
/// routed: the payout has been asked for, the invoice is released, and that has been
/// recorded and told of. Nothing else has changed.
pub open spec fn is_routed(
    before: LedgerView,
    after: LedgerView,
    id: u64,
    invoice: InvoiceView,
    actor: Address,
) -> bool {
    let s = before.storage;
    let t = after.storage;
    let n = before.effects.len() as int;
    let transfers = before.release_transfers(invoice);
    &&& t.invoices == s.invoices.insert(
        id,
        InvoiceView { status: InvoiceStatus::Released, ..invoice },
    )
    &&& is_logged(before, after, id, Action::Release, actor)
    &&& t == (StorageView { invoices: t.invoices, logs: t.logs, ..s })
    &&& is_payout(transfers, before, invoice)
    &&& after.effects.len() == n + transfers.len() + 1
    &&& after.effects.take(n) == before.effects
    &&& forall|i: int|
        0 <= i < transfers.len() ==> after.effects[n + i] == EffectView::Transfer(
            #[trigger] transfers[i],
        )
    &&& after.effects.last() == EffectView::Publish(
        EventView::InvoiceReleased { id, recipients: invoice.recipients },
    )
    &&& after == (LedgerView { storage: t, effects: after.effects, ..before })
}

/// From `routed` to `after` the invoice that follows `invoice` has been made: where
/// a subscription is kept under `id`, one with its terms, due in thirty days, and the
/// subscription has one month less to come; where the invoice recurs, one with its
/// terms and its first time to pay; otherwise none.
pub open spec fn is_succeeded(
    routed: LedgerView,
    after: LedgerView,
    id: u64,
    invoice: InvoiceView,
) -> bool {
    let s = routed.storage;
    let t = after.storage;
    let next = t.last_id();
    if s.subscriptions.contains_key(id) {
        let params = s.subscriptions[id];
        let rest = t.subscriptions[next];
        &&& is_made(
            routed,
            after,
            TermsView {
                creator: params.creator,
                recipients: params.recipients,
                amounts: params.amounts,
                tokens: params.tokens,
                deadline: t.invoices[next].deadline,
                recurring: false,
            },
        )
        &&& t.invoices[next].deadline == routed.timestamp + 30 * 24 * 60 * 60
        &&& if params.remaining > 1 {
            &&& t.subscriptions == s.subscriptions.remove(id).insert(next, rest)
            &&& rest.remaining == params.remaining - 1
            &&& rest == (SubscriptionParamsView { remaining: rest.remaining, ..params })
        } else {
            t.subscriptions == s.subscriptions.remove(id)
        }
    } else if invoice.recurring {
        &&& is_made(
            routed,
            after,
            TermsView {
                creator: invoice.creator,
                recipients: invoice.recipients,
                amounts: invoice.amounts,
                tokens: invoice.tokens,
                deadline: t.invoices[next].deadline,
                recurring: true,
            },
        )
        &&& t.invoices[next].deadline == routed.timestamp + invoice.original_duration
        &&& t.subscriptions == s.subscriptions
    } else {
        after == routed
    }
}

proof fn lemma_routing_outcome(ledger: LedgerView, id: u64, invoice: InvoiceView, actor: Address)
    requires
        invoice.terms_sound(),
        ledger.fee_bps() <= 10_000,
        ledger.release_refusal(id, invoice) is None,
    ensures
        is_routed(ledger, ledger.after_payout(id, invoice, actor), id, invoice, actor),
        is_succeeded(
            ledger.after_payout(id, invoice, actor),
            ledger.after_routing(id, invoice, actor),
            id,
            invoice,
        ),
{
    let routed = ledger.after_payout(id, invoice, actor);
    let after = ledger.after_routing(id, invoice, actor);
    let transfers = ledger.release_transfers(invoice);
    law_release_pays_every_recipient(ledger, invoice);
    assert(routed.effects.take(ledger.effects.len() as int) =~= ledger.effects);
    if ledger.has_successor(id, invoice) {
        let next = ledger.successor_terms(id, invoice);
        assert(routed.creation_refusal(next) == ledger.creation_refusal(next));
        lemma_creation_makes(routed, next);
        if !ledger.storage.subscriptions.contains_key(id) {
            assert(after.storage.subscriptions =~= routed.storage.subscriptions);
        }
    }
}

/// A payment is taken, added to the invoice, recorded and told of. If something is
/// still owed, that is all; if nothing is, the funds are routed in the creator's name,
/// and the invoice that is to follow is made.
pub proof fn law_payments_are_taken_and_routed(
    ledger: LedgerView,
    payer: Address,
    id: u64,
    amount: i128,
)
    requires
        ledger.storage.sound(),
        ledger.pay_refusal(payer, id, amount) is None,
    ensures
        ({
            let invoice = ledger.storage.invoices[id];
            let taken = ledger.after_deposit(payer, id, amount);
            let paid = taken.storage.invoices[id];
            let routed = taken.after_payout(id, paid, invoice.creator);
            let after = ledger.after_pay(payer, id, amount);
            &&& is_paid(ledger, taken, payer, id, amount)
            &&& if invoice.funded + amount < arith::sum(invoice.amounts) {
                after == taken
            } else {
                &&& invoice.funded + amount == arith::sum(invoice.amounts)
                &&& is_routed(taken, routed, id, paid, invoice.creator)
                &&& is_succeeded(routed, after, id, paid)
            }
        }),
{
    let invoice = ledger.storage.invoices[id];
    let taken = ledger.after_deposit(payer, id, amount);
    let paid = taken.storage.invoices[id];
    assert(ledger.storage.entry_sound(id));
    arith::lemma_sum_fits(invoice.amounts);
    soundness::lemma_paid_positive(invoice.payments);
    assert(taken.effects.take(ledger.effects.len() as int) =~= ledger.effects);
    if invoice.funded + amount >= invoice.total() {
        soundness::lemma_release_refusal_reads(ledger, taken, id, paid);
        lemma_routing_outcome(taken, id, paid, invoice.creator);
    }
}

/// A release routes the funds of the invoice, in the contract's name, and makes the
/// invoice that is to follow.
pub proof fn law_releases_route_the_funds(ledger: LedgerView, id: u64)
    requires
        ledger.storage.invoices[id].terms_sound(),
        ledger.fee_bps() <= 10_000,
        ledger.release_call_refusal(id) is None,
    ensures
        ({
            let invoice = ledger.storage.invoices[id];
            let routed = ledger.after_payout(id, invoice, ledger.contract);
            &&& is_routed(ledger, routed, id, invoice, ledger.contract)
            &&& is_succeeded(routed, ledger.after_release_call(id), id, invoice)
        }),
{
    lemma_routing_outcome(ledger, id, ledger.storage.invoices[id], ledger.contract);
}

/// A batch of one payment is that payment, accepted and refused as it is.
pub proof fn law_single_batches_are_payments(
    ledger: LedgerView,
    payer: Address,
    id: u64,
    amount: i128,
)
    ensures
        ledger.batch_refusal(payer, seq![(id, amount)]) == ledger.pay_refusal(payer, id, amount),
        ledger.after_payments(payer, seq![(id, amount)]) == ledger.after_pay(payer, id, amount),
{
    let payments = seq![(id, amount)];
    assert(payments.drop_last() =~= Seq::empty());
    reveal_with_fuel(LedgerView::payments_refusal, 2);
    reveal_with_fuel(LedgerView::after_payments, 2);
}

/// A batch that starts with payments that are refused is refused for the same reason,
/// whatever payments come after them; and no batch is accepted without the payer's
/// authorisation.
pub proof fn law_refused_payments_refuse_the_batch(
    ledger: LedgerView,
    payer: Address,
    first: Seq<(u64, i128)>,
    second: Seq<(u64, i128)>,
)
    ensures
        ledger.batch_refusal(payer, first) is Some ==> ledger.batch_refusal(payer, first + second)
            == ledger.batch_refusal(payer, first),
        ledger.authorized.contains(payer) ==> ledger.batch_refusal(payer, first)
            == ledger.payments_refusal(payer, first),
        !ledger.authorized.contains(payer) ==> ledger.batch_refusal(payer, first) == Some(
            crate::error::Error::Unauthorized,
        ),
    decreases second.len(),
{
    if second.len() == 0 {
        assert(first + second =~= first);
    } else {
        assert((first + second).drop_last() =~= first + second.drop_last());
        law_refused_payments_refuse_the_batch(ledger, payer, first, second.drop_last());
    }
}

// ---------------------------------------------------------------------------
// Refunding, cancelling, extending
// ---------------------------------------------------------------------------
/// A refund gives every payment back: one transfer for each, in the order of the
/// payments, of what was paid, in the invoice's first token, from the contract to the
/// one who paid. After them it is told of. The invoice is refunded, and that is
/// recorded in the contract's name; nothing else changes.
pub proof fn law_refunds_give_every_payment_back(ledger: LedgerView, id: u64)
    requires
        ledger.refund_refusal(id) is None,
    ensures
        ({
            let s = ledger.storage;
            let after = ledger.after_refund(id);
            let t = after.storage;
            let invoice = s.invoices[id];
            let n = ledger.effects.len() as int;
            &&& after.effects.len() == n + invoice.payments.len() + 1
            &&& after.effects.take(n) == ledger.effects
            &&& forall|i: int|
                0 <= i < invoice.payments.len() ==> after.effects[n + i] == EffectView::Transfer(
                    Transfer {
                        token: invoice.tokens[0],
                        from: ledger.contract,
                        to: (#[trigger] invoice.payments[i]).payer,
                        amount: invoice.payments[i].amount,
                    },
                )
            &&& after.effects.last() == EffectView::Publish(EventView::InvoiceRefunded { id })
            &&& t.invoices == s.invoices.insert(
                id,
                InvoiceView { status: InvoiceStatus::Refunded, ..invoice },
            )
            &&& is_logged(ledger, after, id, Action::Refund, ledger.contract)
            &&& t == (StorageView { invoices: t.invoices, logs: t.logs, ..s })
            &&& after == (LedgerView { storage: t, effects: after.effects, ..ledger })
        }),
{
    let after = ledger.after_refund(id);
    assert(after.effects.take(ledger.effects.len() as int) =~= ledger.effects);
}

/// A cancellation marks the invoice as cancelled and records that in the caller's
/// name. Nothing else changes, and nothing is paid or told.
pub proof fn law_cancellations_only_cancel(ledger: LedgerView, caller: Address, id: u64)
    requires
        ledger.cancel_refusal(caller, id) is None,
    ensures
        ({
            let s = ledger.storage;
            let after = ledger.after_cancel(caller, id);
            let t = after.storage;
            &&& t.invoices == s.invoices.insert(
                id,
                InvoiceView { status: InvoiceStatus::Cancelled, ..s.invoices[id] },
            )
            &&& is_logged(ledger, after, id, Action::Cancel, caller)
            &&& t == (StorageView { invoices: t.invoices, logs: t.logs, ..s })
            &&& after == (LedgerView { storage: t, ..ledger })
        }),
{
}

/// An extension gives the invoice the new deadline and records that in the caller's
/// name. Nothing else changes, and nothing is paid or told.
pub proof fn law_extensions_only_move_the_deadline(
    ledger: LedgerView,
    caller: Address,
    id: u64,
    new_deadline: u64,
)
    requires
        ledger.extend_refusal(caller, id, new_deadline) is None,
    ensures
        ({
            let s = ledger.storage;
            let after = ledger.after_extend(caller, id, new_deadline);
            let t = after.storage;
            &&& t.invoices == s.invoices.insert(
                id,
                InvoiceView { deadline: new_deadline, ..s.invoices[id] },
            )
            &&& is_logged(ledger, after, id, Action::Extend, caller)
            &&& t == (StorageView { invoices: t.invoices, logs: t.logs, ..s })
            &&& after == (LedgerView { storage: t, ..ledger })
        }),
{
}

// ---------------------------------------------------------------------------
// Administration
// ---------------------------------------------------------------------------
/// Freezing and unfreezing an invoice change whether it is frozen, and nothing else.
pub proof fn law_freezing_only_freezes(ledger: LedgerView, id: u64, frozen: bool)
    requires
        ledger.freeze_refusal(id) is None,
    ensures
        ({
            let s = ledger.storage;
            let after = ledger.after_freeze(id, frozen);
            &&& after.storage.invoices == s.invoices.insert(
                id,
                InvoiceView { frozen, ..s.invoices[id] },
            )
            &&& after.storage == (StorageView { invoices: after.storage.invoices, ..s })
            &&& after == (LedgerView { storage: after.storage, ..ledger })
        }),
{
}

/// The admin, the treasury and the fee are those that were set last, and setting them
/// changes nothing else.
pub proof fn law_settings_are_as_set(
    ledger: LedgerView,
    admin: Address,
    treasury: Address,
    fee_bps: u32,
)
    ensures
        ledger.after_initialize(admin, treasury, fee_bps) == (LedgerView {
            storage: StorageView {
                admin: Some(admin),
                treasury: Some(treasury),
                fee_bps: Some(fee_bps),
                ..ledger.storage
            },
            ..ledger
        }),
        ledger.after_init_admin(admin) == (LedgerView {
            storage: StorageView { admin: Some(admin), ..ledger.storage },
            ..ledger
        }),
{
}

/// Putting a token on the whitelist and taking it off change whether that token is on
/// it, and nothing else. Where there is no whitelist, putting a token on starts one,
/// and taking a token off starts none.
pub proof fn law_whitelist_changes_by_one_token(
    ledger: LedgerView,
    token: Address,
    other: Address,
)
    ensures
        ({
            let s = ledger.storage;
            let added = ledger.after_whitelist(token);
            let removed = ledger.after_remove_token(token);
            let was = s.whitelist is Some && s.whitelist->Some_0.contains(other);
            &&& added.storage.whitelist is Some
            &&& added.storage.whitelist->Some_0.contains(other) <==> (was || other == token)
            &&& added == (LedgerView {
                storage: StorageView { whitelist: added.storage.whitelist, ..s },
                ..ledger
            })
            &&& removed.storage.whitelist is Some <==> s.whitelist is Some
            &&& removed.storage.whitelist is Some ==> (
            removed.storage.whitelist->Some_0.contains(other) <==> (was && other != token))
            &&& removed == (LedgerView {
                storage: StorageView { whitelist: removed.storage.whitelist, ..s },
                ..ledger
            })
        }),
{
}

/// Registering a plan changes the plan of that payer for that invoice, and nothing
/// else.
pub proof fn law_plans_are_kept_apart(
    ledger: LedgerView,
    payer: Address,
    id: u64,
    schedule: Seq<(u64, i128)>,
    other_payer: Address,
    other_id: u64,
)
    ensures
        ({
            let after = ledger.after_plan(payer, id, schedule);
            &&& after.storage.plan_of(other_payer, other_id) == if other_payer == payer && other_id
                == id {
                schedule
            } else {
                ledger.storage.plan_of(other_payer, other_id)
            }
            &&& after == (LedgerView {
                storage: StorageView { plans: after.storage.plans, ..ledger.storage },
                ..ledger
            })
        }),
{
}

} // verus!
