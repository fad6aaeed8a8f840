//! Freezes, whitelists, installment plans, batches, and proofs of completion.

use vstd::prelude::*;

use crate::arith;
use crate::completion;
use crate::error::Error;
use crate::laws::money;
use crate::laws::soundness::{self, Call};
use crate::ledger::LedgerView;
use crate::model;
use crate::types::{Address, InvoiceStatus, InvoiceView, TermsView};

verus! {

/// A frozen invoice can be neither paid nor released.
pub proof fn law_freeze_blocks_pay_and_release(
    ledger: LedgerView,
    payer: Address,
    id: u64,
    amount: i128,
)
    requires
        ledger.storage.invoices.contains_key(id),
        ledger.storage.invoices[id].frozen,
    ensures
        ledger.authorizes(payer) ==> ledger.pay_refusal(payer, id, amount) == Some(
            Error::InvoiceFrozen,
        ),
        ledger.pay_refusal(payer, id, amount) is Some,
        ledger.release_call_refusal(id) == Some(Error::InvoiceFrozen),
{
}

/// Freezing does not stand in the way of a refund.
pub proof fn law_freeze_does_not_block_refund(ledger: LedgerView, id: u64, frozen: bool)
    requires
        ledger.storage.invoices.contains_key(id),
    ensures
        ledger.after_freeze(id, frozen).refund_refusal(id) == ledger.refund_refusal(id),
{
}

/// Freezing does not stand in the way of a cancellation or of a new deadline.
pub proof fn law_freeze_does_not_block_cancelling_or_extending(
    ledger: LedgerView,
    id: u64,
    frozen: bool,
    caller: Address,
    new_deadline: u64,
)
    requires
        ledger.storage.invoices.contains_key(id),
    ensures
        ledger.after_freeze(id, frozen).cancel_refusal(caller, id) == ledger.cancel_refusal(
            caller,
            id,
        ),
        ledger.after_freeze(id, frozen).extend_refusal(caller, id, new_deadline)
            == ledger.extend_refusal(caller, id, new_deadline),
{
}

/// Unfreezing an invoice undoes freezing it: the ledger is as it was.
pub proof fn law_unfreeze_undoes_freeze(ledger: LedgerView, id: u64)
    requires
        ledger.storage.invoices.contains_key(id),
        !ledger.storage.invoices[id].frozen,
    ensures
        ledger.after_freeze(id, true).after_freeze(id, false) == ledger,
{
    let invoice = ledger.storage.invoices[id];
    assert(invoice.with_frozen(true).with_frozen(false) == invoice);
    let back = ledger.after_freeze(id, true).after_freeze(id, false);
    assert(back.storage.invoices =~= ledger.storage.invoices);
}

/// Invoices cannot be created in a token that has been taken off the whitelist.
pub proof fn law_removed_token_is_refused(ledger: LedgerView, token: Address, terms: TermsView)
    requires
        ledger.storage.whitelist is Some,
        ledger.authorizes(terms.creator),
        terms.tokens.contains(token),
    ensures
        ledger.after_remove_token(token).create_refusal(terms) == Some(
            Error::TokenNotWhitelisted,
        ),
{
    let i = choose|i: int| 0 <= i < terms.tokens.len() && terms.tokens[i] == token;
    assert(!ledger.after_remove_token(token).permits(terms.tokens));
}

/// Once a token has been whitelisted, invoices can be created in that token and in
/// those that were on the whitelist before, and in no others.
pub proof fn law_whitelist_admits_its_tokens_only(
    ledger: LedgerView,
    token: Address,
    tokens: Seq<Address>,
)
    ensures
        ledger.after_whitelist(token).permits(tokens) <==> forall|i: int|
            0 <= i < tokens.len() ==> #[trigger] tokens[i] == token
                || ledger.storage.whitelist is Some
                && ledger.storage.whitelist->Some_0.contains(tokens[i]),
{
    let whitelist = ledger.after_whitelist(token).storage.whitelist->Some_0;
    assert forall|t: Address| #[trigger]
        whitelist.contains(t) <==> t == token || ledger.storage.whitelist is Some
            && ledger.storage.whitelist->Some_0.contains(t) by {}
}

/// The plan that was registered last is the one that is found.
pub proof fn law_latest_plan_counts(
    ledger: LedgerView,
    payer: Address,
    id: u64,
    earlier: Seq<(u64, i128)>,
    later: Seq<(u64, i128)>,
)
    ensures
        ledger.after_plan(payer, id, earlier).after_plan(payer, id, later).storage.plan_of(
            payer,
            id,
        ) == later,
{
}

/// Plans do not bind payments: with a plan registered, the same payments are
/// accepted and refused, and they do the same.
pub proof fn law_plans_do_not_bind_payments(
    ledger: LedgerView,
    planner: Address,
    planned: u64,
    schedule: Seq<(u64, i128)>,
    payer: Address,
    id: u64,
    amount: i128,
)
    ensures
        ledger.after_plan(planner, planned, schedule).pay_refusal(payer, id, amount)
            == ledger.pay_refusal(payer, id, amount),
        ledger.after_plan(planner, planned, schedule).after_pay(payer, id, amount)
            == ledger.after_pay(payer, id, amount).after_plan(planner, planned, schedule),
{
    let with_plan = ledger.after_plan(planner, planned, schedule);
    let invoice = ledger.storage.invoices[id];
    let paid_in = invoice.with_payment(payer, amount);
    soundness::lemma_release_refusal_reads(ledger, with_plan, id, paid_in);
    let a = with_plan.after_deposit(payer, id, amount);
    let b = ledger.after_deposit(payer, id, amount);
    assert(a.fee_transfers(paid_in) =~= b.fee_transfers(paid_in));
    assert(a.payouts(paid_in) =~= b.payouts(paid_in));
    assert(a.after_payout(id, paid_in, invoice.creator) == b.after_payout(
        id,
        paid_in,
        invoice.creator,
    ).after_plan(planner, planned, schedule));
}

/// A batch without payments changes nothing and is not refused to a payer who has
/// authorised it.
pub proof fn law_empty_batch_changes_nothing(ledger: LedgerView, payer: Address)
    requires
        ledger.authorizes(payer),
    ensures
        ledger.batch_refusal(payer, Seq::empty()) is None,
        ledger.after_payments(payer, Seq::empty()) == ledger,
{
}

/// A batch is its payments made in turn: two batches one after the other are one.
pub proof fn law_batches_join(
    ledger: LedgerView,
    payer: Address,
    first: Seq<(u64, i128)>,
    second: Seq<(u64, i128)>,
)
    requires
        ledger.payments_refusal(payer, first) is None,
    ensures
        ledger.payments_refusal(payer, first + second) == ledger.after_payments(
            payer,
            first,
        ).payments_refusal(payer, second),
        ledger.after_payments(payer, first + second) == ledger.after_payments(
            payer,
            first,
        ).after_payments(payer, second),
    decreases second.len(),
{
    let all = first + second;
    if second.len() == 0 {
        assert(all =~= first);
    } else {
        assert(all.drop_last() =~= first + second.drop_last());
        law_batches_join(ledger, payer, first, second.drop_last());
    }
}

/// On a sound ledger no call fails for want of a token, or of a recipient's amount
/// or token.
pub proof fn law_sound_invoices_lack_nothing(ledger: LedgerView, call: Call)
    requires
        ledger.storage.sound(),
    ensures
        ledger.refusal(call) != Some(Error::NoToken),
        ledger.refusal(call) != Some(Error::MissingShare),
{
    match call {
        Call::Pay { payer, id, amount } => {
            lemma_payment_lacks_nothing(ledger, payer, id, amount);
        },
        Call::BatchPay { payer, payments } => {
            lemma_payments_lack_nothing(ledger, payer, payments);
        },
        Call::Release { id } => {
            if ledger.storage.invoices.contains_key(id) {
                assert(ledger.storage.entry_sound(id));
            }
        },
        Call::Refund { id } => {
            if ledger.storage.invoices.contains_key(id) {
                assert(ledger.storage.entry_sound(id));
            }
        },
        _ => {},
    }
}

proof fn lemma_payment_lacks_nothing(ledger: LedgerView, payer: Address, id: u64, amount: i128)
    requires
        ledger.storage.sound(),
    ensures
        ledger.pay_refusal(payer, id, amount) != Some(Error::NoToken),
        ledger.pay_refusal(payer, id, amount) != Some(Error::MissingShare),
{
    if ledger.storage.invoices.contains_key(id) {
        assert(ledger.storage.entry_sound(id));
        let paid_in = ledger.storage.invoices[id].with_payment(payer, amount);
        lemma_shares_present(ledger, paid_in, paid_in.recipients.len());
    }
}

proof fn lemma_payments_lack_nothing(
    ledger: LedgerView,
    payer: Address,
    payments: Seq<(u64, i128)>,
)
    requires
        ledger.storage.sound(),
    ensures
        ledger.payments_refusal(payer, payments) != Some(Error::NoToken),
        ledger.payments_refusal(payer, payments) != Some(Error::MissingShare),
        ledger.payments_refusal(payer, payments) is None ==> ledger.after_payments(
            payer,
            payments,
        ).storage.sound(),
    decreases payments.len(),
{
    if payments.len() > 0 {
        let earlier = payments.drop_last();
        lemma_payments_lack_nothing(ledger, payer, earlier);
        if ledger.payments_refusal(payer, earlier) is None {
            let between = ledger.after_payments(payer, earlier);
            let (id, amount) = payments.last();
            lemma_payment_lacks_nothing(between, payer, id, amount);
            if between.pay_refusal(payer, id, amount) is None {
                soundness::lemma_pay_keeps_soundness(between, payer, id, amount);
            }
        }
    }
}

pub(crate) proof fn lemma_shares_present(ledger: LedgerView, invoice: InvoiceView, n: nat)
    requires
        invoice.terms_sound(),
        n <= invoice.recipients.len(),
    ensures
        ledger.shares_refusal(invoice, n) is None || ledger.shares_refusal(invoice, n) == Some(
            Error::Overflow,
        ),
    decreases n,
{
    if n > 0 {
        lemma_shares_present(ledger, invoice, (n - 1) as nat);
    }
}

/// The fee on a release of `invoice` and the share of each recipient can be worked
/// out without a product that is out of range.
pub open spec fn shares_fit(ledger: LedgerView, invoice: InvoiceView) -> bool {
    let total = invoice.total();
    &&& ledger.charges_fee() ==> arith::fits(total * ledger.fee_bps())
    &&& forall|i: int|
        0 <= i < invoice.amounts.len() ==> arith::fits(
            #[trigger] invoice.amounts[i] * (total - ledger.fee(total)),
        )
}

/// If another invoice is to follow `invoice`, stored under `id`, there is an id left
/// for it, and its deadline is a time that can be told.
pub open spec fn successor_fits(ledger: LedgerView, id: u64, invoice: InvoiceView) -> bool {
    ledger.has_successor(id, invoice) ==> {
        &&& ledger.storage.last_id() < u64::MAX
        &&& ledger.successor_deadline(id, invoice) <= u64::MAX
    }
}

/// Funds do not get stuck: at any time up to its deadline, and unless it is frozen,
/// an invoice is released by the payment of what is still owed. The payment is
/// refused just when a number is out of range: one that the fee and the shares are
/// worked out from, or the id or deadline of the invoice that is to follow.
pub proof fn law_completing_payment_is_accepted(ledger: LedgerView, payer: Address, id: u64)
    requires
        ledger.storage.sound(),
        ledger.authorizes(payer),
        ledger.storage.invoices.contains_key(id),
        ({
            let invoice = ledger.storage.invoices[id];
            &&& invoice.status == InvoiceStatus::Pending
            &&& !invoice.frozen
            &&& ledger.timestamp <= invoice.deadline
        }),
    ensures
        ({
            let invoice = ledger.storage.invoices[id];
            ledger.pay_refusal(payer, id, (invoice.total() - invoice.funded) as i128) is None <==> (
            shares_fit(ledger, invoice) && successor_fits(ledger, id, invoice))
        }),
{
    let invoice = ledger.storage.invoices[id];
    let total = invoice.total();
    assert(ledger.storage.entry_sound(id));
    soundness::lemma_paid_positive(invoice.payments);
    arith::lemma_sum_fits(invoice.amounts);
    soundness::lemma_sum_positive(invoice.amounts);
    let amount = (total - invoice.funded) as i128;
    let paid_in = invoice.with_payment(payer, amount);
    money::law_release_passes_on_the_total(ledger, paid_in);
    lemma_shares_refused_one_by_one(ledger, paid_in, paid_in.recipients.len());
    if shares_fit(ledger, invoice) {
        assert forall|i: int| 0 <= i < paid_in.recipients.len() implies (
        #[trigger] ledger.share_refusal(paid_in, i)) is None by {
            assert(arith::fits(invoice.amounts[i] * (total - ledger.fee(total))));
        }
    } else if !(ledger.charges_fee() && !arith::fits(total * ledger.fee_bps())) {
        let i = choose|i: int|
            0 <= i < invoice.amounts.len() && !arith::fits(
                #[trigger] invoice.amounts[i] * (total - ledger.fee(total)),
            );
        assert(ledger.share_refusal(paid_in, i) is Some);
    }
}

/// Whatever the fee, the fee and the shares of an invoice can be worked out if its
/// total in basis points and the product of its total with each amount are in range.
pub proof fn law_ordinary_shares_fit(ledger: LedgerView, invoice: InvoiceView)
    requires
        invoice.terms_sound(),
        ledger.fee_bps() <= model::BPS_SCALE,
        arith::fits(invoice.total() * model::BPS_SCALE),
        forall|i: int|
            0 <= i < invoice.amounts.len() ==> arith::fits(
                #[trigger] invoice.amounts[i] * invoice.total(),
            ),
    ensures
        shares_fit(ledger, invoice),
{
    let total = invoice.total();
    let fee = ledger.fee(total);
    let bps = ledger.fee_bps() as int;
    soundness::lemma_sum_positive(invoice.amounts);
    money::law_release_passes_on_the_total(ledger, invoice);
    assert(0 <= total * bps <= total * 10_000) by (nonlinear_arith)
        requires
            0 <= bps <= 10_000,
            total > 0,
    ;
    assert forall|i: int| 0 <= i < invoice.amounts.len() implies arith::fits(
        #[trigger] invoice.amounts[i] * (total - fee),
    ) by {
        let amount = invoice.amounts[i] as int;
        assert(amount > 0);
        assert(arith::fits(invoice.amounts[i] * invoice.total()));
        assert(0 <= amount * (total - fee) <= amount * total) by (nonlinear_arith)
            requires
                0 < amount,
                0 <= fee <= total,
        ;
    }
}

/// Shares are refused where the share of one of the recipients is.
pub(crate) proof fn lemma_shares_refused_one_by_one(ledger: LedgerView, invoice: InvoiceView, n: nat)
    ensures
        ledger.shares_refusal(invoice, n) is None <==> forall|i: int|
            0 <= i < n ==> (#[trigger] ledger.share_refusal(invoice, i)) is None,
    decreases n,
{
    if n > 0 {
        lemma_shares_refused_one_by_one(ledger, invoice, (n - 1) as nat);
        assert(ledger.shares_refusal(invoice, n) is None ==> ledger.share_refusal(
            invoice,
            n - 1,
        ) is None);
    }
}

/// The payload that a proof of completion is taken over tells apart what was paid,
/// the deadline, the status, and the number of recipients up to multiples of 256;
/// and it depends on nothing else.
pub proof fn law_payload_pins_the_outcome(a: InvoiceView, b: InvoiceView)
    ensures
        completion::payload(a) == completion::payload(b) <==> (a.funded == b.funded && a.deadline
            == b.deadline && a.status == b.status && a.recipients.len() % 256
            == b.recipients.len() % 256),
        completion::payload(a).len() == 32,
{
    let pa = completion::payload(a);
    let pb = completion::payload(b);
    completion::lemma_le_bytes_len(completion::bits_of(a.funded), 16);
    completion::lemma_le_bytes_len(completion::bits_of(b.funded), 16);
    completion::lemma_le_bytes_len(a.deadline as nat, 8);
    completion::lemma_le_bytes_len(b.deadline as nat, 8);
    if pa == pb {
        assert(completion::le_bytes(completion::bits_of(a.funded), 16) =~= pa.take(16));
        assert(completion::le_bytes(completion::bits_of(b.funded), 16) =~= pb.take(16));
        assert(completion::le_bytes(a.deadline as nat, 8) =~= pa.subrange(16, 24));
        assert(completion::le_bytes(b.deadline as nat, 8) =~= pb.subrange(16, 24));
        assert(vstd::arithmetic::power::pow(256, 16)
            == 0x1_0000_0000_0000_0000_0000_0000_0000_0000) by {
            reveal_with_fuel(vstd::arithmetic::power::pow, 17);
        }
        assert(vstd::arithmetic::power::pow(256, 8) == 0x1_0000_0000_0000_0000) by {
            reveal_with_fuel(vstd::arithmetic::power::pow, 9);
        }
        lemma_le_bytes_injective(
            completion::bits_of(a.funded),
            completion::bits_of(b.funded),
            16,
        );
        lemma_le_bytes_injective(a.deadline as nat, b.deadline as nat, 8);
        assert(pa[24] == completion::status_byte(a.status));
        assert(pb[24] == completion::status_byte(b.status));
        assert(pa[25] == (a.recipients.len() % 256) as u8);
        assert(pb[25] == (b.recipients.len() % 256) as u8);
    }
}

/// Numbers below `256^n` are told apart by their `n` lowest bytes.
proof fn lemma_le_bytes_injective(x: nat, y: nat, n: nat)
    requires
        completion::le_bytes(x, n) == completion::le_bytes(y, n),
        x < vstd::arithmetic::power::pow(256, n),
        y < vstd::arithmetic::power::pow(256, n),
    ensures
        x == y,
    decreases n,
{
    reveal(vstd::arithmetic::power::pow);
    if n > 0 {
        let m = (n - 1) as nat;
        let bx = completion::le_bytes(x, n);
        let by_ = completion::le_bytes(y, n);
        assert(bx[0] == (x % 256) as u8);
        assert(by_[0] == (y % 256) as u8);
        assert(bx.skip(1) =~= completion::le_bytes(x / 256, m));
        assert(by_.skip(1) =~= completion::le_bytes(y / 256, m));
        lemma_le_bytes_injective(x / 256, y / 256, m);
    }
}

} // verus!
