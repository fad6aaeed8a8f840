//! Making invoices: what may be made, and what making it changes.

use vstd::prelude::*;

use crate::arith;
use crate::error::Error;
use crate::ledger::{contains, ids_of, save_invoice, Ledger};
use crate::types::{Address, Effect, Event, Invoice, InvoiceStatus, SubscriptionParams, Terms};

verus! {

/// The sum of the amounts of an invoice that may be made, or why it may not be.
pub(crate) fn check_terms(ledger: &Ledger, terms: &Terms) -> (r: Result<i128, Error>)
    ensures
        match ledger@.creation_refusal(terms@) {
            Some(e) => r == Err::<i128, Error>(e),
            None => r matches Ok(total) && total == arith::sum(terms@.amounts),
        },
{
    if terms.recipients.len() != terms.amounts.len() {
        return Err(Error::AmountsLengthMismatch);
    }
    if terms.recipients.len() != terms.tokens.len() {
        return Err(Error::TokensLengthMismatch);
    }
    if terms.recipients.len() == 0 {
        return Err(Error::NoRecipients);
    }
    if terms.deadline <= ledger.timestamp {
        return Err(Error::DeadlineNotInFuture);
    }
    if !all_positive(&terms.amounts) {
        return Err(Error::AmountNotPositive);
    }
    if ledger.storage.last_id() == u64::MAX {
        return Err(Error::Overflow);
    }
    match arith::checked_sum(&terms.amounts) {
        Some(total) => Ok(total),
        None => Err(Error::Overflow),
    }
}

/// Whether every amount is above zero.
pub(crate) fn all_positive(amounts: &Vec<i128>) -> (r: bool)
    ensures
        r == !(exists|i: int| 0 <= i < amounts@.len() && amounts@[i] <= 0),
{
    let mut i: usize = 0;
    while i < amounts.len()
        invariant
            i <= amounts@.len(),
            forall|j: int| 0 <= j < i ==> amounts@[j] > 0,
        decreases amounts@.len() - i,
    {
        if amounts[i] <= 0 {
            return false;
        }
        i += 1;
    }
    true
}

/// Makes an invoice whose terms have been checked and whose amounts add up to
/// `total`.
pub(crate) fn insert_invoice(ledger: &mut Ledger, terms: Terms, total: i128) -> (id: u64)
    requires
        old(ledger)@.creation_refusal(terms@) is None,
        total == arith::sum(terms@.amounts),
    ensures
        id == old(ledger)@.next_id(),
        final(ledger)@ == old(ledger)@.after_creation(terms@),
{
    let id: u64 = ledger.storage.last_id() + 1;
    ledger.storage.counter = Some(id);
    let creator = terms.creator;
    let invoice = Invoice {
        creator,
        recipients: terms.recipients,
        amounts: terms.amounts,
        tokens: terms.tokens,
        deadline: terms.deadline,
        funded: 0,
        status: InvoiceStatus::Pending,
        payments: Vec::new(),
        frozen: false,
        recurring: terms.recurring,
        original_duration: terms.deadline - ledger.timestamp,
    };
    save_invoice(ledger, id, invoice);
    ledger.emit(Effect::Publish(Event::InvoiceCreated { id, creator, total }));

    let mut ids = ids_of(ledger, creator);
    ids.push(id);
    ledger.storage.creators.set(creator, ids);
    id
}

/// Keeps what is left of a subscription once its invoice `id` has been made.
pub(crate) fn keep_rest(ledger: &mut Ledger, id: u64, params: SubscriptionParams)
    ensures
        final(ledger)@ == old(ledger)@.with_rest(id, params@),
{
    if params.remaining > 1 {
        let mut rest = params;
        rest.remaining = rest.remaining - 1;
        assert(rest@ =~= params@.rest());
        ledger.storage.subscriptions.set(id, rest);
    }
}

/// Whether every one of `tokens` may be used.
pub(crate) fn permits(ledger: &Ledger, tokens: &Vec<Address>) -> (r: bool)
    ensures
        r == ledger@.permits(tokens@),
{
    match &ledger.storage.whitelist {
        Some(whitelist) => {
            let mut i: usize = 0;
            while i < tokens.len()
                invariant
                    i <= tokens@.len(),
                    ledger.storage.whitelist == Some(*whitelist),
                    forall|j: int|
                        0 <= j < i ==> whitelist@.to_set().contains(#[trigger] tokens@[j]),
                decreases tokens@.len() - i,
            {
                if !contains(whitelist, &tokens[i]) {
                    assert(!whitelist@.to_set().contains(tokens@[i as int]));
                    return false;
                }
                i += 1;
            }
            true
        },
        None => true,
    }
}

} // verus!
