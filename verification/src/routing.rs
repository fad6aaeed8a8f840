//! Routing the funds of an invoice to its recipients. A release is planned in
//! full before anything is changed, so that one that is refused changes nothing.

use vstd::prelude::*;

use crate::arith;
use crate::creation::{check_terms, insert_invoice, keep_rest};
use crate::error::Error;
use crate::ledger::{append_audit_entry, save_invoice, Ledger, LedgerView};
use crate::model::{self, BPS_SCALE, MONTH};
use crate::table::Duplicate;
use crate::types::{
    Action, Address, Effect, Event, Invoice, InvoiceStatus, InvoiceView, Terms, Transfer,
};

verus! {

/// What a release will do: the transfers, and the invoice that follows together
/// with the sum of its amounts.
pub(crate) struct ReleasePlan {
    pub(crate) transfers: Vec<Transfer>,
    pub(crate) next: Option<(Terms, i128)>,
}

impl ReleasePlan {
    /// This is the plan for releasing `invoice`, stored under `id`, on `ledger`.
    pub(crate) open spec fn fulfils(
        self,
        ledger: LedgerView,
        id: u64,
        invoice: InvoiceView,
    ) -> bool {
        &&& self.transfers@ == ledger.release_transfers(invoice)
        &&& match self.next {
            Some((terms, total)) => {
                &&& ledger.has_successor(id, invoice)
                &&& terms@ == ledger.successor_terms(id, invoice)
                &&& total == arith::sum(terms@.amounts)
                &&& ledger.creation_refusal(terms@) is None
            },
            None => !ledger.has_successor(id, invoice),
        }
    }
}

/// The fee on a release of `total`, unless working it out overflows.
fn checked_fee(ledger: &Ledger, total: i128) -> (r: Option<i128>)
    ensures
        r is Some <==> !(ledger@.charges_fee() && !arith::fits(total * ledger@.fee_bps())),
        r matches Some(fee) ==> fee == ledger@.fee(total as int),
{
    let fee_bps: u32 = match ledger.storage.fee_bps {
        Some(bps) => bps,
        None => 0,
    };
    if fee_bps > 0 && ledger.storage.treasury.is_some() {
        arith::checked_mul_div(total, fee_bps as i128, BPS_SCALE as i128)
    } else {
        Some(0)
    }
}

/// What a recipient who is owed `amount` of `total` receives of the `post_fee`
/// that is left, unless working it out overflows.
fn checked_share(amount: i128, total: i128, post_fee: i128) -> (r: Option<i128>)
    ensures
        r is Some <==> !(total > 0 && !arith::fits(amount * post_fee)),
        r matches Some(s) ==> s == model::share(amount as int, total as int, total - post_fee),
{
    if total > 0 {
        arith::checked_mul_div(amount, post_fee, total)
    } else {
        Some(amount)
    }
}

/// The transfers of a release of `total`, or why they cannot be worked out.
fn plan_transfers(ledger: &Ledger, invoice: &Invoice, total: i128) -> (r: Result<
    Vec<Transfer>,
    Error,
>)
    requires
        total == invoice@.total(),
    ensures
        ({
            let fee = ledger@.fee(total as int);
            let shares = ledger@.shares_refusal(invoice@, invoice@.recipients.len());
            if ledger@.charges_fee() && !arith::fits(total * ledger@.fee_bps()) {
                r == Err::<Vec<Transfer>, Error>(Error::Overflow)
            } else if fee > 0 && invoice@.tokens.len() == 0 {
                r == Err::<Vec<Transfer>, Error>(Error::NoToken)
            } else if !arith::fits(total - fee) {
                r == Err::<Vec<Transfer>, Error>(Error::Overflow)
            } else if shares is Some {
                r == Err::<Vec<Transfer>, Error>(shares->Some_0)
            } else {
                r matches Ok(transfers) && transfers@ == ledger@.release_transfers(invoice@)
            }
        }),
{
    let fee = match checked_fee(ledger, total) {
        Some(fee) => fee,
        None => {
            return Err(Error::Overflow);
        },
    };
    let mut transfers: Vec<Transfer> = Vec::new();
    if fee > 0 {
        if let Some(treasury) = ledger.storage.treasury {
            if invoice.tokens.len() == 0 {
                return Err(Error::NoToken);
            }
            transfers.push(
                Transfer {
                    token: invoice.tokens[0],
                    from: ledger.contract,
                    to: treasury,
                    amount: fee,
                },
            );
        }
    }
    assert(transfers@ =~= ledger@.fee_transfers(invoice@));
    let post_fee = match total.checked_sub(fee) {
        Some(post_fee) => post_fee,
        None => {
            return Err(Error::Overflow);
        },
    };
    let ghost fees = transfers@;
    let ghost payouts = ledger@.payouts(invoice@);
    assert(payouts.take(0) =~= Seq::empty());
    assert(fees + payouts.take(0) =~= fees);
    let mut i: usize = 0;
    while i < invoice.recipients.len()
        invariant
            i <= invoice@.recipients.len(),
            total == invoice@.total(),
            fee == ledger@.fee(total as int),
            post_fee == total - fee,
            ledger@.charges_fee() ==> arith::fits(total * ledger@.fee_bps()),
            fee > 0 ==> invoice@.tokens.len() > 0,
            payouts == ledger@.payouts(invoice@),
            transfers@ == fees + payouts.take(i as int),
            ledger@.shares_refusal(invoice@, i as nat) is None,
        decreases invoice@.recipients.len() - i,
    {
        assert(ledger@.shares_refusal(invoice@, (i + 1) as nat) == ledger@.share_refusal(
            invoice@,
            i as int,
        ));
        if i >= invoice.amounts.len() || i >= invoice.tokens.len() {
            proof {
                lemma_first_refusal(ledger@, invoice@, (i + 1) as nat, invoice@.recipients.len());
            }
            return Err(Error::MissingShare);
        }
        match checked_share(invoice.amounts[i], total, post_fee) {
            Some(amount) => {
                transfers.push(
                    Transfer {
                        token: invoice.tokens[i],
                        from: ledger.contract,
                        to: invoice.recipients[i],
                        amount,
                    },
                );
                assert(payouts.take(i + 1) =~= payouts.take(i as int).push(payouts[i as int]));
                assert(transfers@ =~= fees + payouts.take(i + 1));
            },
            None => {
                proof {
                    lemma_first_refusal(
                        ledger@,
                        invoice@,
                        (i + 1) as nat,
                        invoice@.recipients.len(),
                    );
                }
                return Err(Error::Overflow);
            },
        }
        i += 1;
    }
    assert(payouts.take(i as int) =~= payouts);
    Ok(transfers)
}

/// Once the share of one recipient cannot be worked out, the recipients after it
/// do not change the reason.
proof fn lemma_first_refusal(ledger: LedgerView, invoice: InvoiceView, n: nat, m: nat)
    requires
        n <= m,
        ledger.shares_refusal(invoice, n) is Some,
    ensures
        ledger.shares_refusal(invoice, m) == ledger.shares_refusal(invoice, n),
    decreases m,
{
    if n < m {
        lemma_first_refusal(ledger, invoice, n, (m - 1) as nat);
    }
}

/// The terms of the invoice that follows when `invoice` is released.
fn plan_successor(ledger: &Ledger, id: u64, invoice: &Invoice) -> (r: Result<
    Option<(Terms, i128)>,
    Error,
>)
    ensures
        match ledger@.successor_refusal(id, invoice@) {
            Some(e) => r == Err::<Option<(Terms, i128)>, Error>(e),
            None => match r {
                Ok(Some((terms, total))) => {
                    &&& ledger@.has_successor(id, invoice@)
                    &&& terms@ == ledger@.successor_terms(id, invoice@)
                    &&& total == arith::sum(terms@.amounts)
                    &&& ledger@.creation_refusal(terms@) is None
                },
                Ok(None) => !ledger@.has_successor(id, invoice@),
                Err(_) => false,
            },
        },
{
    let terms = match ledger.storage.subscriptions.get(&id) {
        Some(params) => {
            let deadline = match ledger.timestamp.checked_add(MONTH) {
                Some(deadline) => deadline,
                None => {
                    return Err(Error::Overflow);
                },
            };
            Terms {
                creator: params.creator,
                recipients: params.recipients.duplicate(),
                amounts: params.amounts.duplicate(),
                tokens: params.tokens.duplicate(),
                deadline,
                recurring: false,
            }
        },
        None => {
            if !invoice.recurring {
                return Ok(None);
            }
            let deadline = match ledger.timestamp.checked_add(invoice.original_duration) {
                Some(deadline) => deadline,
                None => {
                    return Err(Error::Overflow);
                },
            };
            Terms {
                creator: invoice.creator,
                recipients: invoice.recipients.duplicate(),
                amounts: invoice.amounts.duplicate(),
                tokens: invoice.tokens.duplicate(),
                deadline,
                recurring: true,
            }
        },
    };
    assert(terms@ =~= ledger@.successor_terms(id, invoice@));
    match check_terms(ledger, &terms) {
        Ok(total) => Ok(Some((terms, total))),
        Err(e) => Err(e),
    }
}

/// The plan for releasing `invoice`, stored under `id`, or why it cannot be
/// released.
pub(crate) fn plan_release(ledger: &Ledger, id: u64, invoice: &Invoice) -> (r: Result<
    ReleasePlan,
    Error,
>)
    ensures
        match ledger@.release_refusal(id, invoice@) {
            Some(e) => r == Err::<ReleasePlan, Error>(e),
            None => r matches Ok(plan) && plan.fulfils(ledger@, id, invoice@),
        },
{
    let total = match arith::checked_sum(&invoice.amounts) {
        Some(total) => total,
        None => {
            return Err(Error::Overflow);
        },
    };
    let transfers = match plan_transfers(ledger, invoice, total) {
        Ok(transfers) => transfers,
        Err(e) => {
            return Err(e);
        },
    };
    match plan_successor(ledger, id, invoice) {
        Ok(next) => Ok(ReleasePlan { transfers, next }),
        Err(e) => Err(e),
    }
}

/// Asks the host for `transfers`, in order.
pub(crate) fn emit_transfers(ledger: &mut Ledger, transfers: &Vec<Transfer>)
    ensures
        final(ledger)@ == old(ledger)@.with_transfers(transfers@),
{
    let mut i: usize = 0;
    let ghost before = ledger@;
    let ghost effects = model::as_effects(transfers@);
    assert(before.effects + effects.take(0) =~= before.effects);
    while i < transfers.len()
        invariant
            i <= transfers@.len(),
            effects == model::as_effects(transfers@),
            ledger@ == (LedgerView {
                effects: before.effects + effects.take(i as int),
                ..before
            }),
        decreases transfers@.len() - i,
    {
        ledger.emit(Effect::Transfer(transfers[i]));
        assert(before.effects + effects.take(i + 1) =~= (before.effects + effects.take(
            i as int,
        )).push(effects[i as int]));
        i += 1;
    }
    assert(effects.take(i as int) =~= effects);
}

/// Releases `invoice`, stored under `id`, by a plan made for it.
pub(crate) fn route(
    ledger: &mut Ledger,
    id: u64,
    invoice: Invoice,
    actor: Address,
    plan: ReleasePlan,
)
    requires
        plan.fulfils(old(ledger)@, id, invoice@),
    ensures
        final(ledger)@ == old(ledger)@.after_routing(id, invoice@, actor),
{
    let mut invoice = invoice;
    let ghost pending = invoice@;
    let recipients = invoice.recipients.duplicate();
    emit_transfers(ledger, &plan.transfers);
    invoice.status = InvoiceStatus::Released;
    assert(invoice@ =~= pending.with_status(InvoiceStatus::Released));
    save_invoice(ledger, id, invoice);
    append_audit_entry(ledger, id, Action::Release, actor);
    ledger.emit(Effect::Publish(Event::InvoiceReleased { id, recipients }));
    let ghost routed = ledger@;
    assert(routed == old(ledger)@.after_payout(id, pending, actor));
    if let Some((terms, total)) = plan.next {
        assert(routed.creation_refusal(terms@) == old(ledger)@.creation_refusal(terms@));
        let params = match ledger.storage.subscriptions.get(&id) {
            Some(params) => Some(params.duplicate()),
            None => None,
        };
        let next_id = insert_invoice(ledger, terms, total);
        ledger.storage.subscriptions.remove(&id);
        if let Some(params) = params {
            keep_rest(ledger, next_id, params);
        }
    }
}

} // verus!
