//! Where money goes: releases, refunds, and what the contract holds for payers.

use vstd::prelude::*;

use crate::arith;
use crate::laws::soundness::{self, Call};
use crate::ledger::{LedgerView, StorageView};
use crate::model::{self, BPS_SCALE};
use crate::types::{
    Address, EffectView, EventView, InvoiceStatus, InvoiceView, TermsView, Transfer,
};

verus! {

/// What transfers come to, whatever their tokens.
pub open spec fn transferred(transfers: Seq<Transfer>) -> int
    decreases transfers.len(),
{
    if transfers.len() == 0 {
        0
    } else {
        transferred(transfers.drop_last()) + transfers.last().amount
    }
}

proof fn lemma_transferred_concat(a: Seq<Transfer>, b: Seq<Transfer>)
    ensures
        transferred(a + b) == transferred(a) + transferred(b),
    decreases b.len(),
{
    if b.len() == 0 {
        assert(a + b =~= a);
    } else {
        assert((a + b).drop_last() =~= a + b.drop_last());
        lemma_transferred_concat(a, b.drop_last());
    }
}

/// The fee lies between nothing and the total.
proof fn lemma_fee_bounds(ledger: LedgerView, total: int)
    requires
        total > 0,
        ledger.fee_bps() <= BPS_SCALE,
    ensures
        0 <= ledger.fee(total) <= total,
{
    if ledger.charges_fee() {
        let bps = ledger.fee_bps() as int;
        assert(0 <= total * bps <= total * 10_000) by (nonlinear_arith)
            requires
                0 <= bps <= 10_000,
                total > 0,
        ;
        assert(ledger.fee(total) == (total * bps) / 10_000);
    }
}

/// Rounding down, once.
pub(crate) proof fn lemma_share_bounds(amount: int, total: int, fee: int)
    requires
        0 < amount,
        0 < total,
        0 <= fee <= total,
    ensures
        0 <= model::share(amount, total, fee) <= amount,
        model::share(amount, total, fee) * total <= amount * (total - fee),
        amount * (total - fee) < (model::share(amount, total, fee) + 1) * total,
{
    let left = total - fee;
    let product = amount * left;
    assert(0 <= product <= amount * total) by (nonlinear_arith)
        requires
            product == amount * left,
            0 <= left <= total,
            amount > 0,
    ;
    let q = product / total;
    assert(product == total * q + product % total && 0 <= product % total < total) by {
        vstd::arithmetic::div_mod::lemma_fundamental_div_mod(product, total);
        vstd::arithmetic::div_mod::lemma_mod_bound(product, total);
    }
    assert(q * total <= product < (q + 1) * total) by (nonlinear_arith)
        requires
            product == total * q + product % total,
            0 <= product % total < total,
    ;
    assert(0 <= q <= amount) by (nonlinear_arith)
        requires
            q * total <= product < (q + 1) * total,
            0 <= product <= amount * total,
            total > 0,
    ;
}

/// The payouts of the first `n` recipients, against their part of what is left
/// after the fee.
proof fn lemma_payouts_prefix(ledger: LedgerView, invoice: InvoiceView, n: nat)
    requires
        n <= invoice.recipients.len(),
        invoice.terms_sound(),
        ledger.fee_bps() <= BPS_SCALE,
    ensures
        ({
            let total = invoice.total();
            let left = total - ledger.fee(total);
            let out = transferred(ledger.payouts(invoice).take(n as int));
            let owed = arith::sum(invoice.amounts.take(n as int));
            out * total <= owed * left && owed * left <= out * total + n * (total - 1)
        }),
    decreases n,
{
    let total = invoice.total();
    let fee = ledger.fee(total);
    let left = total - fee;
    let payouts = ledger.payouts(invoice);
    soundness::lemma_sum_positive(invoice.amounts);
    lemma_fee_bounds(ledger, total);
    if n > 0 {
        let m = (n - 1) as nat;
        lemma_payouts_prefix(ledger, invoice, m);
        assert(payouts.take(n as int).drop_last() =~= payouts.take(m as int));
        assert(invoice.amounts.take(n as int).drop_last() =~= invoice.amounts.take(m as int));
        let amount = invoice.amounts[m as int] as int;
        let s = model::share(amount, total, fee);
        lemma_share_bounds(amount, total, fee);
        assert(payouts[m as int].amount == s);
        let out = transferred(payouts.take(m as int));
        let owed = arith::sum(invoice.amounts.take(m as int));
        assert((out + s) * total <= (owed + amount) * left && (owed + amount) * left <= (out + s)
            * total + n * (total - 1)) by (nonlinear_arith)
            requires
                out * total <= owed * left,
                owed * left <= out * total + m * (total - 1),
                s * total <= amount * left,
                amount * left < (s + 1) * total,
                n == m + 1,
        ;
    }
}

/// A release passes on no more than was paid in, and less than one unit per
/// recipient short of it: the fee and the payouts together come to at most the
/// total, and to more than the total less the number of recipients. No recipient
/// receives more than they are owed.
pub proof fn law_release_passes_on_the_total(ledger: LedgerView, invoice: InvoiceView)
    requires
        invoice.terms_sound(),
        ledger.fee_bps() <= BPS_SCALE,
    ensures
        0 <= ledger.fee(invoice.total()) <= invoice.total(),
        transferred(ledger.release_transfers(invoice)) <= invoice.total(),
        invoice.total() - transferred(ledger.release_transfers(invoice))
            < invoice.recipients.len(),
        forall|i: int|
            0 <= i < invoice.recipients.len() ==> 0 <= (
            #[trigger] ledger.payouts(invoice)[i]).amount <= invoice.amounts[i],
{
    let total = invoice.total();
    let fee = ledger.fee(total);
    let left = total - fee;
    let n = invoice.recipients.len();
    let payouts = ledger.payouts(invoice);
    arith::lemma_sum_fits(invoice.amounts);
    soundness::lemma_sum_positive(invoice.amounts);
    lemma_fee_bounds(ledger, total);
    lemma_payouts_prefix(ledger, invoice, n);
    assert(payouts.take(n as int) =~= payouts);
    assert(invoice.amounts.take(n as int) =~= invoice.amounts);
    let out = transferred(payouts);
    assert(out <= left && left - out < n) by (nonlinear_arith)
        requires
            out * total <= total * left,
            total * left <= out * total + n * (total - 1),
            total > 0,
            n > 0,
    ;
    let fees = ledger.fee_transfers(invoice);
    lemma_transferred_concat(fees, payouts);
    assert(transferred(fees) == fee) by {
        reveal_with_fuel(transferred, 2);
        if fee > 0 {
            assert(fees.drop_last() =~= Seq::empty());
        }
    }
    assert forall|i: int| 0 <= i < n implies 0 <= (#[trigger] payouts[i]).amount
        <= invoice.amounts[i] by {
        lemma_share_bounds(invoice.amounts[i] as int, total, fee);
    }
}

/// Where no fee is taken, every recipient receives exactly what they are owed, in
/// their token, and nothing else is transferred.
pub proof fn law_without_fee_recipients_get_what_they_are_owed(
    ledger: LedgerView,
    invoice: InvoiceView,
)
    requires
        invoice.terms_sound(),
        ledger.fee(invoice.total()) == 0,
    ensures
        ledger.release_transfers(invoice) == Seq::new(
            invoice.recipients.len(),
            |i: int|
                Transfer {
                    token: invoice.tokens[i],
                    from: ledger.contract,
                    to: invoice.recipients[i],
                    amount: invoice.amounts[i],
                },
        ),
{
    let total = invoice.total();
    soundness::lemma_sum_positive(invoice.amounts);
    assert forall|i: int| 0 <= i < invoice.recipients.len() implies (
    #[trigger] ledger.payouts(invoice)[i]).amount == invoice.amounts[i] by {
        let amount = invoice.amounts[i] as int;
        assert(amount > 0);
        assert(amount * total >= 0) by (nonlinear_arith)
            requires
                amount > 0,
                total > 0,
        ;
        assert((amount * total) / total == amount) by {
            vstd::arithmetic::div_mod::lemma_div_multiples_vanish(amount, total);
            vstd::arithmetic::mul::lemma_mul_is_commutative(amount, total);
        }
    }
    assert(ledger.fee_transfers(invoice) =~= Seq::empty());
    assert(ledger.release_transfers(invoice) =~= ledger.payouts(invoice));
}

/// No fee is taken where the fee is set to zero, or where no treasury is set.
pub proof fn law_fee_can_be_disabled(ledger: LedgerView, total: int)
    requires
        ledger.fee_bps() == 0 || ledger.storage.treasury is None,
    ensures
        ledger.fee(total) == 0,
{
}

/// The payment that completes an invoice has the invoice's funds routed in the same
/// call: the payment is taken, then the fee and every recipient's share go out, in
/// the order of the recipients.
pub proof fn law_completing_payment_routes_the_funds(
    ledger: LedgerView,
    payer: Address,
    id: u64,
    amount: i128,
)
    requires
        ledger.pay_refusal(payer, id, amount) is None,
        ledger.storage.invoices[id].funded + amount == ledger.storage.invoices[id].total(),
    ensures
        ({
            let invoice = ledger.storage.invoices[id];
            let taken = seq![
                EffectView::Transfer(
                    Transfer {
                        token: invoice.tokens[0],
                        from: payer,
                        to: ledger.contract,
                        amount,
                    },
                ),
                EffectView::Publish(EventView::PaymentReceived { id, payer, amount }),
            ];
            let released = seq![
                EffectView::Publish(
                    EventView::InvoiceReleased { id, recipients: invoice.recipients },
                ),
            ];
            (ledger.effects + taken + model::as_effects(ledger.release_transfers(invoice))
                + released).is_prefix_of(ledger.after_pay(payer, id, amount).effects)
        }),
{
    let invoice = ledger.storage.invoices[id];
    let deposited = ledger.after_deposit(payer, id, amount);
    let paid_in = invoice.with_payment(payer, amount);
    assert(deposited.fee_transfers(paid_in) =~= ledger.fee_transfers(invoice));
    assert(deposited.payouts(paid_in) =~= ledger.payouts(invoice));
    let taken = seq![
        EffectView::Transfer(
            Transfer { token: invoice.tokens[0], from: payer, to: ledger.contract, amount },
        ),
        EffectView::Publish(EventView::PaymentReceived { id, payer, amount }),
    ];
    assert(deposited.effects =~= ledger.effects + taken);
    let released = seq![
        EffectView::Publish(EventView::InvoiceReleased { id, recipients: invoice.recipients }),
    ];
    let routed = deposited.after_payout(id, paid_in, invoice.creator);
    assert(routed.effects =~= ledger.effects + taken + model::as_effects(
        ledger.release_transfers(invoice),
    ) + released);
    assert(routed.effects.is_prefix_of(ledger.after_pay(payer, id, amount).effects));
}

/// A refund gives every payer back what they paid, payment by payment and in the
/// token that payments are made in; all of it together is what was paid in.
pub proof fn law_refund_returns_every_payment(ledger: LedgerView, invoice: InvoiceView)
    requires
        invoice.funds_sound(),
    ensures
        ledger.refunds(invoice).len() == invoice.payments.len(),
        forall|i: int|
            0 <= i < invoice.payments.len() ==> #[trigger] ledger.refunds(invoice)[i] == (
            Transfer {
                token: invoice.tokens[0],
                from: ledger.contract,
                to: invoice.payments[i].payer,
                amount: invoice.payments[i].amount,
            }),
        transferred(ledger.refunds(invoice)) == invoice.funded,
{
    lemma_refunds_prefix(ledger, invoice, invoice.payments.len());
    assert(invoice.payments.take(invoice.payments.len() as int) =~= invoice.payments);
    assert(ledger.refunds(invoice).take(invoice.payments.len() as int) =~= ledger.refunds(
        invoice,
    ));
}

proof fn lemma_refunds_prefix(ledger: LedgerView, invoice: InvoiceView, n: nat)
    requires
        n <= invoice.payments.len(),
    ensures
        transferred(ledger.refunds(invoice).take(n as int)) == soundness::paid(
            invoice.payments.take(n as int),
        ),
    decreases n,
{
    if n > 0 {
        lemma_refunds_prefix(ledger, invoice, (n - 1) as nat);
        assert(ledger.refunds(invoice).take(n as int).drop_last() =~= ledger.refunds(invoice).take(
            n - 1,
        ));
        assert(invoice.payments.take(n as int).drop_last() =~= invoice.payments.take(n - 1));
    }
}

// ---------------------------------------------------------------------------
// What the contract holds for payers
// ---------------------------------------------------------------------------
/// What an invoice has the contract hold of `token`: what was paid towards it, in
/// its first token, while it is pending.
pub open spec fn held_for(invoice: InvoiceView, token: Address) -> int {
    if invoice.status == InvoiceStatus::Pending && invoice.tokens.len() > 0 && invoice.tokens[0]
        == token {
        invoice.funded as int
    } else {
        0
    }
}

/// What the invoices with ids up to `n` have the contract hold of `token`.
pub open spec fn held_up_to(storage: StorageView, token: Address, n: nat) -> int
    decreases n,
{
    if n == 0 {
        0
    } else {
        held_up_to(storage, token, (n - 1) as nat) + held_for(storage.invoices[n as u64], token)
    }
}

/// What the contract holds of `token` for payers.
pub open spec fn held(storage: StorageView, token: Address) -> int {
    held_up_to(storage, token, storage.last_id() as nat)
}

/// What a transfer adds to the contract's balance in `token`.
pub open spec fn balance_change(transfer: Transfer, contract: Address, token: Address) -> int {
    if transfer.token != token || transfer.from == transfer.to {
        0
    } else if transfer.to == contract {
        transfer.amount as int
    } else if transfer.from == contract {
        -transfer.amount
    } else {
        0
    }
}

/// What effects add to the contract's balance in `token`.
pub open spec fn balance_effect(
    effects: Seq<EffectView>,
    contract: Address,
    token: Address,
) -> int
    decreases effects.len(),
{
    if effects.len() == 0 {
        0
    } else {
        balance_effect(effects.drop_last(), contract, token) + match effects.last() {
            EffectView::Transfer(transfer) => balance_change(transfer, contract, token),
            EffectView::Publish(_) => 0,
        }
    }
}

/// Recipients who are paid in `token` are paid from what was paid in `token`.
pub open spec fn pays_from_own(invoice: InvoiceView, token: Address) -> bool {
    forall|i: int|
        0 <= i < invoice.tokens.len() && #[trigger] invoice.tokens[i] == token
            ==> invoice.tokens[0] == token
}

/// A payment of `token` does not come from the contract itself, and one that
/// releases the invoice has it pay `token` from its own funds.
pub open spec fn payment_stays_apart(
    ledger: LedgerView,
    payer: Address,
    id: u64,
    amount: i128,
    token: Address,
) -> bool {
    let invoice = ledger.storage.invoices[id];
    &&& invoice.tokens[0] == token ==> payer != ledger.contract
    &&& invoice.funded + amount >= invoice.total() ==> pays_from_own(invoice, token)
}

/// The payments that a call makes, if any, keep the funds of invoices apart.
pub open spec fn keeps_accounts_apart(ledger: LedgerView, call: Call, token: Address) -> bool {
    match call {
        Call::Pay { payer, id, amount } => payment_stays_apart(ledger, payer, id, amount, token),
        Call::BatchPay { payer, payments } => forall|n: int|
            0 <= n < payments.len() ==> payment_stays_apart(
                #[trigger] ledger.after_payments(payer, payments.take(n)),
                payer,
                payments[n].0,
                payments[n].1,
                token,
            ),
        _ => true,
    }
}

proof fn lemma_balance_push(
    effects: Seq<EffectView>,
    effect: EffectView,
    contract: Address,
    token: Address,
)
    ensures
        balance_effect(effects.push(effect), contract, token) == balance_effect(
            effects,
            contract,
            token,
        ) + match effect {
            EffectView::Transfer(transfer) => balance_change(transfer, contract, token),
            EffectView::Publish(_) => 0,
        },
{
    assert(effects.push(effect).drop_last() =~= effects);
}

/// Transfers out of the contract, none of them negative, lower its balance by no
/// more than what they come to; and not at all if they are in another token.
proof fn lemma_balance_after_payouts(
    effects: Seq<EffectView>,
    transfers: Seq<Transfer>,
    contract: Address,
    token: Address,
    in_token: bool,
)
    requires
        forall|i: int|
            0 <= i < transfers.len() ==> (#[trigger] transfers[i]).amount >= 0
                && transfers[i].from == contract,
        !in_token ==> forall|i: int|
            0 <= i < transfers.len() ==> (#[trigger] transfers[i]).token != token,
    ensures
        balance_effect(effects + model::as_effects(transfers), contract, token) >= balance_effect(
            effects,
            contract,
            token,
        ) - if in_token {
            transferred(transfers)
        } else {
            0
        },
    decreases transfers.len(),
{
    let all = effects + model::as_effects(transfers);
    if transfers.len() == 0 {
        assert(all =~= effects);
    } else {
        let earlier = transfers.drop_last();
        assert forall|i: int| 0 <= i < earlier.len() implies (#[trigger] earlier[i]).amount >= 0
            && earlier[i].from == contract && (!in_token ==> earlier[i].token != token) by {
            assert(earlier[i] == transfers[i]);
        }
        lemma_balance_after_payouts(effects, earlier, contract, token, in_token);
        let last = transfers[transfers.len() - 1];
        assert(all =~= (effects + model::as_effects(earlier)).push(EffectView::Transfer(last)));
        lemma_balance_push(
            effects + model::as_effects(earlier),
            EffectView::Transfer(last),
            contract,
            token,
        );
    }
}

/// Storing one invoice anew changes what is held by that invoice's part.
proof fn lemma_held_after_update(
    s: StorageView,
    t: StorageView,
    id: u64,
    token: Address,
    n: nat,
)
    requires
        forall|other: u64|
            1 <= other <= n && other != id ==> #[trigger] t.invoices[other] == s.invoices[other],
        n <= u64::MAX,
        1 <= id,
    ensures
        held_up_to(t, token, n) == held_up_to(s, token, n) + if id <= n {
            held_for(t.invoices[id], token) - held_for(s.invoices[id], token)
        } else {
            0
        },
    decreases n,
{
    if n > 0 {
        lemma_held_after_update(s, t, id, token, (n - 1) as nat);
        let last = n as u64;
        if last != id {
            assert(t.invoices[last] == s.invoices[last]);
        }
    }
}

/// A new invoice has the contract hold nothing more.
proof fn lemma_held_after_creation(ledger: LedgerView, terms: TermsView, token: Address)
    requires
        ledger.creation_refusal(terms) is None,
    ensures
        held(ledger.after_creation(terms).storage, token) == held(ledger.storage, token),
        balance_effect(
            ledger.after_creation(terms).effects,
            ledger.contract,
            token,
        ) == balance_effect(ledger.effects, ledger.contract, token),
{
    let s = ledger.storage;
    let t = ledger.after_creation(terms).storage;
    let id = ledger.next_id();
    lemma_held_after_update(s, t, id, token, s.last_id() as nat);
    lemma_balance_push(
        ledger.effects,
        ledger.after_creation(terms).effects.last(),
        ledger.contract,
        token,
    );
    assert(held_for(ledger.new_invoice(terms), token) == 0);
}

/// What the contract holds, and what it has, after a payment.
proof fn lemma_pay_keeps_cover(
    ledger: LedgerView,
    payer: Address,
    id: u64,
    amount: i128,
    token: Address,
)
    requires
        ledger.storage.sound(),
        ledger.pay_refusal(payer, id, amount) is None,
        payment_stays_apart(ledger, payer, id, amount, token),
    ensures
        ({
            let after = ledger.after_pay(payer, id, amount);
            balance_effect(after.effects, ledger.contract, token) - balance_effect(
                ledger.effects,
                ledger.contract,
                token,
            ) >= held(after.storage, token) - held(ledger.storage, token)
        }),
{
    let s = ledger.storage;
    let contract = ledger.contract;
    let invoice = s.invoices[id];
    let deposited = ledger.after_deposit(payer, id, amount);
    let paid_in = invoice.with_payment(payer, amount);
    assert(s.entry_sound(id));
    arith::lemma_sum_fits(invoice.amounts);
    soundness::lemma_paid_positive(invoice.payments);
    assert(paid_in.funded == invoice.funded + amount);
    let deposit = EffectView::Transfer(
        Transfer { token: invoice.tokens[0], from: payer, to: contract, amount },
    );
    lemma_balance_push(ledger.effects, deposit, contract, token);
    lemma_balance_push(
        ledger.effects.push(deposit),
        deposited.effects.last(),
        contract,
        token,
    );
    assert(deposited.effects == ledger.effects.push(deposit).push(deposited.effects.last()));
    let own = invoice.tokens[0] == token;
    assert(balance_effect(deposited.effects, contract, token) == balance_effect(
        ledger.effects,
        contract,
        token,
    ) + if own {
        amount as int
    } else {
        0
    });
    if invoice.funded + amount >= invoice.total() {
        let routed = deposited.after_payout(id, paid_in, invoice.creator);
        let transfers = deposited.release_transfers(paid_in);
        law_release_passes_on_the_total(deposited, paid_in);
        assert forall|i: int| 0 <= i < transfers.len() implies (#[trigger] transfers[i]).amount
            >= 0 && transfers[i].from == contract && (!own ==> transfers[i].token != token) by {
            let fees = deposited.fee_transfers(paid_in);
            if i >= fees.len() {
                assert(transfers[i] == deposited.payouts(paid_in)[i - fees.len()]);
            } else {
                assert(transfers[i] == fees[i]);
            }
        }
        lemma_balance_after_payouts(deposited.effects, transfers, contract, token, own);
        lemma_balance_push(
            deposited.with_transfers(transfers).effects,
            routed.effects.last(),
            contract,
            token,
        );
        assert(routed.effects == deposited.with_transfers(transfers).effects.push(
            routed.effects.last(),
        ));
        lemma_held_after_update(s, routed.storage, id, token, s.last_id() as nat);
        assert(deposited.release_refusal(id, paid_in) is None) by {
            soundness::lemma_release_refusal_reads(ledger, deposited, id, paid_in);
        }
        if deposited.has_successor(id, paid_in) {
            let next = deposited.successor_terms(id, paid_in);
            assert(routed.creation_refusal(next) == deposited.creation_refusal(next));
            lemma_held_after_creation(routed, next, token);
            let made = routed.after_creation(next);
            lemma_held_after_update(
                made.storage,
                deposited.after_routing(id, paid_in, invoice.creator).storage,
                id,
                token,
                made.storage.last_id() as nat,
            );
        }
    } else {
        lemma_held_after_update(s, deposited.storage, id, token, s.last_id() as nat);
    }
}

proof fn lemma_payments_keep_cover(
    ledger: LedgerView,
    payer: Address,
    payments: Seq<(u64, i128)>,
    token: Address,
)
    requires
        ledger.storage.sound(),
        ledger.authorizes(payer),
        ledger.payments_refusal(payer, payments) is None,
        keeps_accounts_apart(ledger, Call::BatchPay { payer, payments }, token),
    ensures
        ({
            let after = ledger.after_payments(payer, payments);
            balance_effect(after.effects, ledger.contract, token) - balance_effect(
                ledger.effects,
                ledger.contract,
                token,
            ) >= held(after.storage, token) - held(ledger.storage, token)
        }),
        ledger.after_payments(payer, payments).contract == ledger.contract,
    decreases payments.len(),
{
    if payments.len() > 0 {
        let earlier = payments.drop_last();
        let m = payments.len() - 1;
        assert forall|n: int| 0 <= n < earlier.len() implies payment_stays_apart(
            #[trigger] ledger.after_payments(payer, earlier.take(n)),
            payer,
            earlier[n].0,
            earlier[n].1,
            token,
        ) by {
            assert(earlier.take(n) =~= payments.take(n));
            assert(payment_stays_apart(
                ledger.after_payments(payer, payments.take(n)),
                payer,
                payments[n].0,
                payments[n].1,
                token,
            ));
        }
        lemma_payments_keep_cover(ledger, payer, earlier, token);
        assert(payments.take(m) =~= earlier);
        assert(payment_stays_apart(
            ledger.after_payments(payer, payments.take(m)),
            payer,
            payments[m].0,
            payments[m].1,
            token,
        ));
        soundness::law_calls_keep_soundness(
            ledger,
            Call::BatchPay { payer, payments: earlier },
        );
        lemma_pay_keeps_cover(
            ledger.after_payments(payer, earlier),
            payer,
            payments[m].0,
            payments[m].1,
            token,
        );
    }
}

/// What a call adds to the contract's balance covers what it adds to what the
/// contract holds for payers, in every token. So a balance that covers what is held
/// goes on to do so.
pub proof fn law_balance_covers_what_is_held(ledger: LedgerView, call: Call, token: Address)
    requires
        ledger.storage.sound(),
        ledger.refusal(call) is None,
        keeps_accounts_apart(ledger, call, token),
    ensures
        ({
            let after = ledger.after(call);
            balance_effect(after.effects, ledger.contract, token) - balance_effect(
                ledger.effects,
                ledger.contract,
                token,
            ) >= held(after.storage, token) - held(ledger.storage, token)
        }),
{
    let s = ledger.storage;
    let t = ledger.after(call).storage;
    let n = s.last_id() as nat;
    match call {
        Call::Pay { payer, id, amount } => {
            lemma_pay_keeps_cover(ledger, payer, id, amount, token);
        },
        Call::BatchPay { payer, payments } => {
            lemma_payments_keep_cover(ledger, payer, payments, token);
        },
        Call::Create { terms } => {
            lemma_held_after_creation(ledger, terms, token);
        },
        Call::Subscribe { params } => {
            let terms = ledger.subscription_terms(params);
            lemma_held_after_creation(ledger, terms, token);
            let made = ledger.after_creation(terms).storage;
            lemma_held_after_update(made, t, 1, token, made.last_id() as nat);
        },
        Call::Release { id } => {
            soundness::law_completed_invoices_are_released(ledger, id);
        },
        Call::Refund { id } => {
            let invoice = s.invoices[id];
            let transfers = ledger.refunds(invoice);
            assert(s.entry_sound(id));
            law_refund_returns_every_payment(ledger, invoice);
            lemma_balance_after_payouts(
                ledger.effects,
                transfers,
                ledger.contract,
                token,
                invoice.tokens[0] == token,
            );
            lemma_balance_push(
                ledger.with_transfers(transfers).effects,
                ledger.after(call).effects.last(),
                ledger.contract,
                token,
            );
            assert(ledger.after(call).effects == ledger.with_transfers(transfers).effects.push(
                ledger.after(call).effects.last(),
            ));
            lemma_held_after_update(s, t, id, token, n);
        },
        Call::Cancel { caller, id } => {
            assert(s.invoices.contains_key(id));
            lemma_held_after_update(s, t, id, token, n);
        },
        Call::Extend { caller, id, new_deadline } => {
            assert(s.invoices.contains_key(id));
            lemma_held_after_update(s, t, id, token, n);
        },
        Call::Freeze { id } => {
            assert(s.invoices.contains_key(id));
            lemma_held_after_update(s, t, id, token, n);
        },
        Call::Unfreeze { id } => {
            assert(s.invoices.contains_key(id));
            lemma_held_after_update(s, t, id, token, n);
        },
        _ => {
            lemma_held_after_update(s, t, 1, token, n);
        },
    }
}

/// What the contract holds in a token is enough for each pending invoice that is
/// paid in it.
pub proof fn law_what_is_held_covers_each_invoice(storage: StorageView, id: u64, token: Address)
    requires
        storage.sound(),
        storage.invoices.contains_key(id),
    ensures
        held(storage, token) >= held_for(storage.invoices[id], token),
{
    lemma_held_covers(storage, id, token, storage.last_id() as nat);
}

proof fn lemma_held_covers(storage: StorageView, id: u64, token: Address, n: nat)
    requires
        storage.sound(),
        1 <= id,
        n <= storage.last_id(),
    ensures
        held_up_to(storage, token, n) >= 0,
        id <= n ==> held_up_to(storage, token, n) >= held_for(storage.invoices[id], token),
    decreases n,
{
    if n > 0 {
        lemma_held_covers(storage, id, token, (n - 1) as nat);
        let last = n as u64;
        assert(storage.invoices.contains_key(last));
        assert(storage.entry_sound(last));
        soundness::lemma_paid_positive(storage.invoices[last].payments);
    }
}

} // verus!
