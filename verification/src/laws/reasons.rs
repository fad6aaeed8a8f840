//! Which calls are accepted, and for which reason the others are refused.

use vstd::prelude::*;

use crate::arith;
use crate::completion;
use crate::error::Error;
use crate::laws::controls;
use crate::laws::money;
use crate::laws::outcomes;
use crate::laws::soundness;
use crate::ledger::{LedgerView, StorageView};
use crate::types::{
    Action, Address, InvoiceStatus, InvoiceView, SubscriptionParamsView, TermsView,
};

verus! {

/// Every one of `amounts` is above zero.
pub open spec fn are_positive(amounts: Seq<i128>) -> bool {
    forall|i: int| 0 <= i < amounts.len() ==> #[trigger] amounts[i] > 0
}

/// No whitelist is in force, or every one of `tokens` is on it.
pub open spec fn are_listed(storage: StorageView, tokens: Seq<Address>) -> bool {
    storage.whitelist matches Some(whitelist) ==> forall|i: int|
        0 <= i < tokens.len() ==> whitelist.contains(#[trigger] tokens[i])
}

/// There is an id for one more invoice, and its total is in range.
pub open spec fn has_room(storage: StorageView, amounts: Seq<i128>) -> bool {
    storage.last_id() < u64::MAX && arith::sum(amounts) <= i128::MAX
}

/// An invoice can be created by someone who has authorised it, in tokens that are not
/// ruled out, for one or more recipients with as many amounts above zero and as many
/// tokens, up to a time in the future. Otherwise the first of these that is missing is
/// the reason.
pub proof fn law_who_may_create(ledger: LedgerView, terms: TermsView)
    ensures
        ({
            let r = ledger.create_refusal(terms);
            let a = ledger.authorized.contains(terms.creator);
            let b = a && are_listed(ledger.storage, terms.tokens);
            let c = b && terms.amounts.len() == terms.recipients.len();
            let d = c && terms.tokens.len() == terms.recipients.len();
            let e = d && terms.recipients.len() > 0;
            let f = e && terms.deadline > ledger.timestamp;
            let g = f && are_positive(terms.amounts);
            let h = g && has_room(ledger.storage, terms.amounts);
            &&& !a <==> r == Some(Error::Unauthorized)
            &&& a && !b <==> r == Some(Error::TokenNotWhitelisted)
            &&& b && !c <==> r == Some(Error::AmountsLengthMismatch)
            &&& c && !d <==> r == Some(Error::TokensLengthMismatch)
            &&& d && !e <==> r == Some(Error::NoRecipients)
            &&& e && !f <==> r == Some(Error::DeadlineNotInFuture)
            &&& f && !g <==> r == Some(Error::AmountNotPositive)
            &&& g && !h <==> r == Some(Error::Overflow)
            &&& h <==> r is None
        }),
{
    if are_positive(terms.amounts) {
        outcomes::law_positive_sums_fit(terms.amounts);
    }
}

/// A subscription can be made on the same conditions, over one month to twelve, as
/// long as the time in thirty days can be told.
pub proof fn law_who_may_subscribe(ledger: LedgerView, params: SubscriptionParamsView)
    ensures
        ({
            let r = ledger.subscribe_refusal(params);
            let a = ledger.authorized.contains(params.creator);
            let b = a && are_listed(ledger.storage, params.tokens);
            let c = b && params.amounts.len() == params.recipients.len();
            let d = c && params.tokens.len() == params.recipients.len();
            let e = d && params.recipients.len() > 0;
            let f = e && 1 <= params.remaining <= 12;
            let g = f && are_positive(params.amounts);
            let h = g && ledger.timestamp + 30 * 24 * 60 * 60 <= u64::MAX && has_room(
                ledger.storage,
                params.amounts,
            );
            &&& !a <==> r == Some(Error::Unauthorized)
            &&& a && !b <==> r == Some(Error::TokenNotWhitelisted)
            &&& b && !c <==> r == Some(Error::AmountsLengthMismatch)
            &&& c && !d <==> r == Some(Error::TokensLengthMismatch)
            &&& d && !e <==> r == Some(Error::NoRecipients)
            &&& e && !f <==> r == Some(Error::MonthsOutOfRange)
            &&& f && !g <==> r == Some(Error::AmountNotPositive)
            &&& g && !h <==> r == Some(Error::Overflow)
            &&& h <==> r is None
        }),
{
    if are_positive(params.amounts) {
        outcomes::law_positive_sums_fit(params.amounts);
    }
}

/// The funds of `invoice`, stored under `id`, can be worked out and passed on, and
/// there is room for the invoice that is to follow, if one is.
pub open spec fn can_be_routed(ledger: LedgerView, id: u64, invoice: InvoiceView) -> bool {
    let s = ledger.storage;
    let total = arith::sum(invoice.amounts);
    let left = total - ledger.fee(total);
    &&& s.treasury is Some && s.fee_bps is Some ==> total * s.fee_bps->Some_0 <= i128::MAX
    &&& forall|i: int|
        0 <= i < invoice.amounts.len() ==> #[trigger] invoice.amounts[i] * left <= i128::MAX
    &&& s.subscriptions.contains_key(id) ==> s.last_id() < u64::MAX && ledger.timestamp + 30 * 24
        * 60 * 60 <= u64::MAX
    &&& !s.subscriptions.contains_key(id) && invoice.recurring ==> s.last_id() < u64::MAX
        && ledger.timestamp + invoice.original_duration <= u64::MAX
}

proof fn lemma_routing_fits(ledger: LedgerView, id: u64, invoice: InvoiceView)
    requires
        invoice.terms_sound(),
        ledger.fee_bps() <= 10_000,
        ledger.storage.subscriptions.contains_key(id) ==> invoice.fits_subscription(
            ledger.storage.subscriptions[id],
        ) || invoice.with_status(InvoiceStatus::Pending).fits_subscription(
            ledger.storage.subscriptions[id],
        ),
    ensures
        can_be_routed(ledger, id, invoice) ==> ledger.release_refusal(id, invoice) is None,
        !can_be_routed(ledger, id, invoice) ==> ledger.release_refusal(id, invoice) == Some(
            Error::Overflow,
        ),
{
    let total = invoice.total();
    let n = invoice.recipients.len();
    let fee = ledger.fee(total);
    let left = total - fee;
    money::law_release_passes_on_the_total(ledger, invoice);
    arith::lemma_sum_fits(invoice.amounts);
    soundness::lemma_sum_positive(invoice.amounts);
    outcomes::law_fee_is_its_part_of_the_total(ledger, total);
    let bps = ledger.fee_bps() as int;
    assert(0 <= total * bps) by (nonlinear_arith)
        requires
            0 <= bps,
            total > 0,
    ;
    assert(total * 0 == 0) by (nonlinear_arith);
    assert(controls::shares_fit(ledger, invoice) <==> {
        &&& ledger.charges_fee() ==> total * bps <= i128::MAX
        &&& forall|i: int|
            0 <= i < invoice.amounts.len() ==> #[trigger] invoice.amounts[i] * left <= i128::MAX
    }) by {
        assert forall|i: int| 0 <= i < invoice.amounts.len() implies #[trigger] invoice.amounts[i]
            * left >= 0 by {
            let amount = invoice.amounts[i] as int;
            assert(amount > 0);
            assert(amount * left >= 0) by (nonlinear_arith)
                requires
                    amount > 0,
                    left >= 0,
            ;
        }
    }
    controls::lemma_shares_refused_one_by_one(ledger, invoice, n);
    controls::lemma_shares_present(ledger, invoice, n);
    if controls::shares_fit(ledger, invoice) {
        assert forall|i: int| 0 <= i < n implies (#[trigger] ledger.share_refusal(
            invoice,
            i,
        )) is None by {
            assert(arith::fits(invoice.amounts[i] * (total - ledger.fee(total))));
        }
    } else if !(ledger.charges_fee() && !arith::fits(total * ledger.fee_bps())) {
        let i = choose|i: int|
            0 <= i < invoice.amounts.len() && !arith::fits(
                #[trigger] invoice.amounts[i] * (total - ledger.fee(total)),
            );
        assert(ledger.share_refusal(invoice, i) is Some);
    }
}

/// A payment is accepted from a payer who has authorised it, towards an invoice that is
/// there, not frozen, pending and not overdue, if it is above zero and no more than
/// what is still owed; one that pays all that is owed must leave an invoice whose funds
/// can be routed. Otherwise the first of these that is missing is the reason.
pub proof fn law_who_may_pay(ledger: LedgerView, payer: Address, id: u64, amount: i128)
    requires
        ledger.storage.sound(),
    ensures
        ({
            let r = ledger.pay_refusal(payer, id, amount);
            let invoice = ledger.storage.invoices[id];
            let owed = arith::sum(invoice.amounts) - invoice.funded;
            let a = ledger.authorized.contains(payer);
            let b = a && ledger.storage.invoices.contains_key(id);
            let c = b && !invoice.frozen;
            let d = c && invoice.status == InvoiceStatus::Pending;
            let e = d && ledger.timestamp <= invoice.deadline;
            let f = e && amount > 0;
            let g = f && amount <= owed;
            let h = g && (amount == owed ==> can_be_routed(ledger, id, invoice));
            &&& !a <==> r == Some(Error::Unauthorized)
            &&& a && !b <==> r == Some(Error::InvoiceNotFound)
            &&& b && !c <==> r == Some(Error::InvoiceFrozen)
            &&& c && !d <==> r == Some(Error::NotPending)
            &&& d && !e <==> r == Some(Error::DeadlinePassed)
            &&& e && !f <==> r == Some(Error::PaymentNotPositive)
            &&& f && !g <==> r == Some(Error::PaymentExceedsRemaining)
            &&& g && !h <==> r == Some(Error::Overflow)
            &&& h <==> r is None
        }),
{
    let invoice = ledger.storage.invoices[id];
    if ledger.storage.invoices.contains_key(id) {
        assert(ledger.storage.entry_sound(id));
        arith::lemma_sum_fits(invoice.amounts);
        soundness::lemma_paid_positive(invoice.payments);
        if invoice.status == InvoiceStatus::Pending {
            let paid_in = invoice.with_payment(payer, amount);
            lemma_routing_fits(ledger, id, paid_in);
            assert(can_be_routed(ledger, id, paid_in) == can_be_routed(ledger, id, invoice));
        }
    }
}

/// Whatever is stored, nothing is paid without the payer's authorisation, towards an
/// invoice that is not there, frozen, closed or overdue, or in amounts of zero or less;
/// and the first of these is the reason.
pub proof fn law_what_cannot_be_paid(ledger: LedgerView, payer: Address, id: u64, amount: i128)
    ensures
        ({
            let r = ledger.pay_refusal(payer, id, amount);
            let invoice = ledger.storage.invoices[id];
            let a = ledger.authorized.contains(payer);
            let b = a && ledger.storage.invoices.contains_key(id);
            let c = b && !invoice.frozen;
            let d = c && invoice.status == InvoiceStatus::Pending;
            let e = d && ledger.timestamp <= invoice.deadline;
            let f = e && amount > 0;
            &&& !a ==> r == Some(Error::Unauthorized)
            &&& a && !b ==> r == Some(Error::InvoiceNotFound)
            &&& b && !c ==> r == Some(Error::InvoiceFrozen)
            &&& c && !d ==> r == Some(Error::NotPending)
            &&& d && !e ==> r == Some(Error::DeadlinePassed)
            &&& e && !f ==> r == Some(Error::PaymentNotPositive)
            &&& f && !arith::sum_fits(invoice.amounts) ==> r == Some(Error::Overflow)
            &&& r is None ==> f && invoice.tokens.len() > 0 && amount <= arith::sum(invoice.amounts)
                - invoice.funded
        }),
{
}

/// Whatever is stored, nothing is released that is not there, is frozen, closed, or not
/// fully paid; and the first of these is the reason.
pub proof fn law_what_cannot_be_released(ledger: LedgerView, id: u64)
    ensures
        ({
            let r = ledger.release_call_refusal(id);
            let invoice = ledger.storage.invoices[id];
            let a = ledger.storage.invoices.contains_key(id);
            let b = a && !invoice.frozen;
            let c = b && invoice.status == InvoiceStatus::Pending;
            let d = c && arith::sum_fits(invoice.amounts);
            let e = d && invoice.funded >= arith::sum(invoice.amounts);
            &&& !a ==> r == Some(Error::InvoiceNotFound)
            &&& a && !b ==> r == Some(Error::InvoiceFrozen)
            &&& b && !c ==> r == Some(Error::NotPending)
            &&& c && !d ==> r == Some(Error::Overflow)
            &&& d && !e ==> r == Some(Error::NotFullyFunded)
            &&& r is None ==> e
        }),
{
}

/// An invoice can be released if it is there, not frozen, pending and fully paid, and
/// its funds can be routed. Otherwise the first of these that is missing is the reason.
pub proof fn law_what_can_be_released(ledger: LedgerView, id: u64)
    requires
        ledger.storage.invoices.contains_key(id) ==> ledger.storage.invoices[id].terms_sound(),
        ledger.fee_bps() <= 10_000,
        ledger.storage.subscriptions.contains_key(id)
            ==> ledger.storage.invoices[id].fits_subscription(ledger.storage.subscriptions[id]),
    ensures
        ({
            let r = ledger.release_call_refusal(id);
            let invoice = ledger.storage.invoices[id];
            let a = ledger.storage.invoices.contains_key(id);
            let b = a && !invoice.frozen;
            let c = b && invoice.status == InvoiceStatus::Pending;
            let d = c && invoice.funded >= arith::sum(invoice.amounts);
            let e = d && can_be_routed(ledger, id, invoice);
            &&& !a <==> r == Some(Error::InvoiceNotFound)
            &&& a && !b <==> r == Some(Error::InvoiceFrozen)
            &&& b && !c <==> r == Some(Error::NotPending)
            &&& c && !d <==> r == Some(Error::NotFullyFunded)
            &&& d && !e <==> r == Some(Error::Overflow)
            &&& e <==> r is None
        }),
{
    if ledger.storage.invoices.contains_key(id) {
        lemma_routing_fits(ledger, id, ledger.storage.invoices[id]);
    }
}

/// An invoice can be refunded, by anyone, if it is there, pending, overdue and not fully
/// paid. Otherwise the first of these that is missing is the reason; besides them there
/// are only totals that are out of range and invoices without a token, which no call
/// leads to.
pub proof fn law_what_can_be_refunded(ledger: LedgerView, id: u64)
    ensures
        ({
            let r = ledger.refund_refusal(id);
            let invoice = ledger.storage.invoices[id];
            let a = ledger.storage.invoices.contains_key(id);
            let b = a && invoice.status == InvoiceStatus::Pending;
            let c = b && ledger.timestamp > invoice.deadline;
            let d = c && arith::sum_fits(invoice.amounts);
            let e = d && invoice.funded < arith::sum(invoice.amounts);
            let f = e && invoice.tokens.len() > 0;
            &&& !a <==> r == Some(Error::InvoiceNotFound)
            &&& a && !b <==> r == Some(Error::NotPending)
            &&& b && !c <==> r == Some(Error::DeadlineNotPassed)
            &&& c && !d <==> r == Some(Error::Overflow)
            &&& d && !e <==> r == Some(Error::FullyFunded)
            &&& e && !f <==> r == Some(Error::NoToken)
            &&& f <==> r is None
        }),
{
}

/// An invoice can be cancelled by its creator, who has authorised it, while it is
/// pending and nothing has been paid towards it. Otherwise the first of these that is
/// missing is the reason.
pub proof fn law_who_may_cancel(ledger: LedgerView, caller: Address, id: u64)
    ensures
        ({
            let r = ledger.cancel_refusal(caller, id);
            let invoice = ledger.storage.invoices[id];
            let a = ledger.authorized.contains(caller);
            let b = a && ledger.storage.invoices.contains_key(id);
            let c = b && invoice.status == InvoiceStatus::Pending;
            let d = c && caller == invoice.creator;
            let e = d && invoice.funded == 0;
            &&& !a <==> r == Some(Error::Unauthorized)
            &&& a && !b <==> r == Some(Error::InvoiceNotFound)
            &&& b && !c <==> r == Some(Error::NotPending)
            &&& c && !d <==> r == Some(Error::NotCreatorCancelling)
            &&& d && !e <==> r == Some(Error::HasPayments)
            &&& e <==> r is None
        }),
{
}

/// An invoice can be given a new deadline by its creator, who has authorised it, while
/// it is pending, if the new deadline is in the future. Otherwise the first of these
/// that is missing is the reason.
pub proof fn law_who_may_extend(ledger: LedgerView, caller: Address, id: u64, new_deadline: u64)
    ensures
        ({
            let r = ledger.extend_refusal(caller, id, new_deadline);
            let invoice = ledger.storage.invoices[id];
            let a = ledger.authorized.contains(caller);
            let b = a && ledger.storage.invoices.contains_key(id);
            let c = b && invoice.status == InvoiceStatus::Pending;
            let d = c && caller == invoice.creator;
            let e = d && new_deadline > ledger.timestamp;
            &&& !a <==> r == Some(Error::Unauthorized)
            &&& a && !b <==> r == Some(Error::InvoiceNotFound)
            &&& b && !c <==> r == Some(Error::NotPending)
            &&& c && !d <==> r == Some(Error::NotCreatorExtending)
            &&& d && !e <==> r == Some(Error::NewDeadlineNotInFuture)
            &&& e <==> r is None
        }),
{
}

/// What is the admin's to do is done with the authorisation of the admin that has been
/// set; an invoice that is to be frozen or unfrozen must be there as well. A fee can be
/// set up to the whole, by an admin who has authorised it.
pub proof fn law_what_the_admin_may_do(ledger: LedgerView, admin: Address, fee_bps: u32, id: u64)
    ensures
        ({
            let r = ledger.admin_refusal();
            let set = ledger.storage.admin is Some;
            let may = set && ledger.authorized.contains(ledger.storage.admin->Some_0);
            &&& !set <==> r == Some(Error::NotInitialized)
            &&& set && !may <==> r == Some(Error::Unauthorized)
            &&& may <==> r is None
            &&& !may ==> ledger.freeze_refusal(id) == r
            &&& may && !ledger.storage.invoices.contains_key(id) ==> ledger.freeze_refusal(id)
                == Some(Error::InvoiceNotFound)
            &&& may && ledger.storage.invoices.contains_key(id) ==> ledger.freeze_refusal(
                id,
            ) is None
        }),
        ({
            let r = ledger.initialize_refusal(admin, fee_bps);
            let a = ledger.authorized.contains(admin);
            &&& !a <==> r == Some(Error::Unauthorized)
            &&& a && fee_bps > 10_000 <==> r == Some(Error::FeeTooHigh)
            &&& a && fee_bps <= 10_000 <==> r is None
        }),
        ledger.authorizes(admin) <==> ledger.authorized.contains(admin),
{
}

/// A proof of completion is given for an invoice that is there and has been released or
/// refunded.
pub proof fn law_what_can_be_proved_complete(ledger: LedgerView, id: u64)
    ensures
        ({
            let r = ledger.completion_refusal(id);
            let status = ledger.storage.invoices[id].status;
            let a = ledger.storage.invoices.contains_key(id);
            let b = a && status != InvoiceStatus::Pending && status != InvoiceStatus::Cancelled;
            &&& !a <==> r == Some(Error::InvoiceNotFound)
            &&& a && !b <==> r == Some(Error::NotFinalized)
            &&& b <==> r is None
        }),
{
}

/// What `bytes` say, the lowest first.
pub open spec fn number_of(bytes: Seq<u8>) -> int
    decreases bytes.len(),
{
    if bytes.len() == 0 {
        0
    } else {
        bytes[0] + 256 * number_of(bytes.skip(1))
    }
}

proof fn lemma_le_bytes_say(value: nat, n: nat)
    requires
        value < vstd::arithmetic::power::pow(256, n),
    ensures
        number_of(completion::le_bytes(value, n)) == value,
    decreases n,
{
    reveal(vstd::arithmetic::power::pow);
    if n > 0 {
        let m = (n - 1) as nat;
        let bytes = completion::le_bytes(value, n);
        lemma_le_bytes_say(value / 256, m);
        assert(bytes.skip(1) =~= completion::le_bytes(value / 256, m));
        assert(bytes[0] == (value % 256) as u8);
    }
}

/// What a proof of completion is taken over says, lowest bytes first: in sixteen bytes
/// what was paid, in two's complement; in eight the deadline; in one the status, in one
/// the number of recipients up to multiples of 256; and nothing in the six that are
/// left.
pub proof fn law_payload_says_the_outcome(invoice: InvoiceView)
    ensures
        ({
            let payload = completion::payload(invoice);
            let paid = number_of(payload.subrange(0, 16));
            &&& payload.len() == 32
            &&& invoice.funded >= 0 ==> paid == invoice.funded
            &&& invoice.funded < 0 ==> paid == invoice.funded
                + 0x1_0000_0000_0000_0000_0000_0000_0000_0000
            &&& number_of(payload.subrange(16, 24)) == invoice.deadline
            &&& payload[24] == match invoice.status {
                InvoiceStatus::Pending => 0u8,
                InvoiceStatus::Released => 1u8,
                InvoiceStatus::Refunded => 2u8,
                InvoiceStatus::Cancelled => 3u8,
            }
            &&& payload[25] == invoice.recipients.len() % 256
            &&& forall|i: int| 26 <= i < 32 ==> payload[i] == 0
        }),
{
    let payload = completion::payload(invoice);
    let bits = completion::bits_of(invoice.funded);
    completion::lemma_le_bytes_len(bits, 16);
    completion::lemma_le_bytes_len(invoice.deadline as nat, 8);
    assert(payload.subrange(0, 16) =~= completion::le_bytes(bits, 16));
    assert(payload.subrange(16, 24) =~= completion::le_bytes(invoice.deadline as nat, 8));
    assert(vstd::arithmetic::power::pow(256, 16)
        == 0x1_0000_0000_0000_0000_0000_0000_0000_0000) by {
        reveal_with_fuel(vstd::arithmetic::power::pow, 17);
    }
    assert(vstd::arithmetic::power::pow(256, 8) == 0x1_0000_0000_0000_0000) by {
        reveal_with_fuel(vstd::arithmetic::power::pow, 9);
    }
    lemma_le_bytes_say(bits, 16);
    lemma_le_bytes_say(invoice.deadline as nat, 8);
}

/// An action is recorded under its own name.
pub proof fn law_actions_go_by_their_names(action: Action)
    ensures
        action.symbol_text() == match action {
            Action::Pay => seq!['p', 'a', 'y'],
            Action::Release => seq!['r', 'e', 'l', 'e', 'a', 's', 'e'],
            Action::Refund => seq!['r', 'e', 'f', 'u', 'n', 'd'],
            Action::Cancel => seq!['c', 'a', 'n', 'c', 'e', 'l'],
            Action::Extend => seq!['e', 'x', 't', 'e', 'n', 'd'],
        },
{
    reveal_strlit("pay");
    reveal_strlit("release");
    reveal_strlit("refund");
    reveal_strlit("cancel");
    reveal_strlit("extend");
}

} // verus!
