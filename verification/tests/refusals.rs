use stellar_split::{
    checked_mul_div, checked_sum, Address, Duplicate, Error, Id256, Invoice, InvoiceStatus, Ledger,
    SplitContract, Table,
};

fn account(n: u128) -> Address {
    Address::Account(Id256 { hi: 0, lo: n })
}

fn token() -> Address {
    Address::Contract(Id256 { hi: 1, lo: 1 })
}

/// A ledger at time 1000 on which accounts 1 to 9 authorise everything.
fn ledger() -> Ledger {
    let mut ledger = Ledger::new(1_000, Address::Contract(Id256 { hi: 0, lo: 0 }));
    let mut n: u128 = 1;
    while n < 10 {
        ledger.authorized.push(account(n));
        n += 1;
    }
    ledger
}

fn create(
    ledger: &mut Ledger,
    creator: Address,
    recipients: Vec<Address>,
    amounts: Vec<i128>,
    tokens: Vec<Address>,
    deadline: u64,
) -> Result<u64, Error> {
    SplitContract::create_invoice(ledger, creator, recipients, amounts, tokens, deadline)
}

/// A ledger with one invoice of 100, due at 2000.
fn with_invoice() -> Ledger {
    let mut l = ledger();
    assert_eq!(create(&mut l, account(1), vec![account(2)], vec![100], vec![token()], 2_000), Ok(1));
    l
}

#[test]
fn creation_refusals() {
    let mut l = ledger();
    let (c, r, t) = (account(1), account(2), token());
    assert_eq!(create(&mut l, account(77), vec![r], vec![1], vec![t], 2_000), Err(Error::Unauthorized));
    assert_eq!(create(&mut l, c, vec![r], vec![1, 2], vec![t], 2_000), Err(Error::AmountsLengthMismatch));
    assert_eq!(create(&mut l, c, vec![r], vec![1], vec![t, t], 2_000), Err(Error::TokensLengthMismatch));
    assert_eq!(create(&mut l, c, vec![], vec![], vec![], 2_000), Err(Error::NoRecipients));
    assert_eq!(create(&mut l, c, vec![r], vec![1], vec![t], 1_000), Err(Error::DeadlineNotInFuture));
    assert_eq!(create(&mut l, c, vec![r, r], vec![1, 0], vec![t, t], 2_000), Err(Error::AmountNotPositive));
    assert_eq!(create(&mut l, c, vec![r], vec![-1], vec![t], 2_000), Err(Error::AmountNotPositive));
    assert_eq!(
        create(&mut l, c, vec![r, r], vec![i128::MAX, 1], vec![t, t], 2_000),
        Err(Error::Overflow)
    );
    assert_eq!(l.storage.last_id(), 0);
    assert_eq!(l.effects.len(), 0);
    l.storage.counter = Some(u64::MAX);
    assert_eq!(create(&mut l, c, vec![r], vec![1], vec![t], 2_000), Err(Error::Overflow));
}

#[test]
fn earliest_deadline_is_accepted() {
    let mut l = ledger();
    assert_eq!(create(&mut l, account(1), vec![account(2)], vec![1], vec![token()], 1_001), Ok(1));
}

#[test]
fn subscription_refusals() {
    let mut l = ledger();
    let (c, r, t) = (account(1), account(2), token());
    let mut subscribe = |creator, recipients: Vec<Address>, amounts, tokens, months| {
        SplitContract::create_subscription(&mut l, creator, recipients, amounts, tokens, months)
    };
    assert_eq!(subscribe(account(77), vec![r], vec![1], vec![t], 2), Err(Error::Unauthorized));
    assert_eq!(subscribe(c, vec![r], vec![], vec![t], 2), Err(Error::AmountsLengthMismatch));
    assert_eq!(subscribe(c, vec![r], vec![1], vec![], 2), Err(Error::TokensLengthMismatch));
    assert_eq!(subscribe(c, vec![], vec![], vec![], 2), Err(Error::NoRecipients));
    assert_eq!(subscribe(c, vec![r], vec![1], vec![t], 0), Err(Error::MonthsOutOfRange));
    assert_eq!(subscribe(c, vec![r], vec![1], vec![t], 13), Err(Error::MonthsOutOfRange));
    assert_eq!(subscribe(c, vec![r], vec![0], vec![t], 12), Err(Error::AmountNotPositive));
    assert_eq!(subscribe(c, vec![r], vec![1], vec![t], 12), Ok(1));
    l.timestamp = u64::MAX - 5;
    assert_eq!(
        SplitContract::create_subscription(&mut l, c, vec![r], vec![1], vec![t], 12),
        Err(Error::Overflow)
    );
}

#[test]
fn payment_refusals() {
    let mut l = with_invoice();
    let p = account(3);
    assert_eq!(SplitContract::pay(&mut l, account(77), 1, 10), Err(Error::Unauthorized));
    assert_eq!(SplitContract::pay(&mut l, p, 2, 10), Err(Error::InvoiceNotFound));
    assert_eq!(SplitContract::pay(&mut l, p, 1, 0), Err(Error::PaymentNotPositive));
    assert_eq!(SplitContract::pay(&mut l, p, 1, 101), Err(Error::PaymentExceedsRemaining));
    l.timestamp = 2_001;
    assert_eq!(SplitContract::pay(&mut l, p, 1, 10), Err(Error::DeadlinePassed));
    l.timestamp = 2_000;
    assert_eq!(SplitContract::pay(&mut l, p, 1, 60), Ok(()));
    assert_eq!(SplitContract::pay(&mut l, p, 1, 41), Err(Error::PaymentExceedsRemaining));
    assert_eq!(SplitContract::pay(&mut l, p, 1, 40), Ok(()));
    assert_eq!(SplitContract::pay(&mut l, p, 1, 1), Err(Error::NotPending));
}

#[test]
fn closed_invoices_refuse_everything() {
    let mut l = with_invoice();
    assert_eq!(SplitContract::release(&mut l, 1), Err(Error::NotFullyFunded));
    assert_eq!(SplitContract::pay(&mut l, account(3), 1, 100), Ok(()));
    l.timestamp = 5_000;
    assert_eq!(SplitContract::release(&mut l, 1), Err(Error::NotPending));
    assert_eq!(SplitContract::refund(&mut l, 1), Err(Error::NotPending));
    assert_eq!(SplitContract::cancel_invoice(&mut l, account(1), 1), Err(Error::NotPending));
    assert_eq!(SplitContract::extend_deadline(&mut l, account(1), 1, 9_000), Err(Error::NotPending));
    assert_eq!(SplitContract::get_invoice(&l, 1).unwrap().status, InvoiceStatus::Released);
}

#[test]
fn cancellation_and_extension_refusals() {
    let mut l = with_invoice();
    let (creator, other) = (account(1), account(2));
    assert_eq!(SplitContract::cancel_invoice(&mut l, account(77), 1), Err(Error::Unauthorized));
    assert_eq!(SplitContract::cancel_invoice(&mut l, creator, 5), Err(Error::InvoiceNotFound));
    assert_eq!(SplitContract::cancel_invoice(&mut l, other, 1), Err(Error::NotCreatorCancelling));
    assert_eq!(SplitContract::extend_deadline(&mut l, account(77), 1, 3_000), Err(Error::Unauthorized));
    assert_eq!(SplitContract::extend_deadline(&mut l, creator, 5, 3_000), Err(Error::InvoiceNotFound));
    assert_eq!(SplitContract::extend_deadline(&mut l, other, 1, 3_000), Err(Error::NotCreatorExtending));
    assert_eq!(
        SplitContract::extend_deadline(&mut l, creator, 1, 1_000),
        Err(Error::NewDeadlineNotInFuture)
    );
    assert_eq!(SplitContract::pay(&mut l, account(3), 1, 1), Ok(()));
    assert_eq!(SplitContract::cancel_invoice(&mut l, creator, 1), Err(Error::HasPayments));
    // A deadline can be moved closer, and after it has passed.
    assert_eq!(SplitContract::extend_deadline(&mut l, creator, 1, 1_500), Ok(()));
    l.timestamp = 1_600;
    assert_eq!(SplitContract::extend_deadline(&mut l, creator, 1, 1_700), Ok(()));
    assert_eq!(SplitContract::pay(&mut l, account(3), 1, 1), Ok(()));
}

#[test]
fn admin_refusals() {
    let mut l = with_invoice();
    let (admin, stranger) = (account(4), account(77));
    assert_eq!(SplitContract::initialize(&mut l, stranger, admin, 1), Err(Error::Unauthorized));
    assert_eq!(SplitContract::initialize(&mut l, admin, admin, 10_001), Err(Error::FeeTooHigh));
    assert_eq!(SplitContract::unfreeze_invoice(&mut l, 1), Err(Error::NotInitialized));
    assert_eq!(SplitContract::whitelist_token(&mut l, token()), Err(Error::NotInitialized));
    assert_eq!(SplitContract::remove_token(&mut l, token()), Err(Error::NotInitialized));
    assert_eq!(SplitContract::init_admin(&mut l, stranger), Err(Error::Unauthorized));
    assert_eq!(SplitContract::init_admin(&mut l, admin), Ok(()));
    assert_eq!(SplitContract::freeze_invoice(&mut l, 9), Err(Error::InvoiceNotFound));
    l.authorized = vec![account(1)];
    assert_eq!(SplitContract::freeze_invoice(&mut l, 1), Err(Error::Unauthorized));
    assert_eq!(SplitContract::unfreeze_invoice(&mut l, 1), Err(Error::Unauthorized));
    assert_eq!(SplitContract::whitelist_token(&mut l, token()), Err(Error::Unauthorized));
    assert_eq!(SplitContract::remove_token(&mut l, token()), Err(Error::Unauthorized));
    assert_eq!(
        SplitContract::register_installment_plan(&mut l, admin, 1, vec![]),
        Err(Error::Unauthorized)
    );
    assert_eq!(SplitContract::batch_pay(&mut l, admin, vec![]), Err(Error::Unauthorized));
    assert_eq!(SplitContract::get_installment_plan(&l, admin, 1).len(), 0);
}

#[test]
fn whitelist_covers_every_token() {
    let mut l = ledger();
    let (c, r) = (account(1), account(2));
    let (a, b) = (token(), Address::Contract(Id256 { hi: 1, lo: 2 }));
    SplitContract::init_admin(&mut l, account(4)).unwrap();
    SplitContract::remove_token(&mut l, a).unwrap();
    assert_eq!(create(&mut l, c, vec![r, r], vec![1, 1], vec![a, b], 2_000), Ok(1));
    SplitContract::whitelist_token(&mut l, a).unwrap();
    assert_eq!(
        create(&mut l, c, vec![r, r], vec![1, 1], vec![a, b], 2_000),
        Err(Error::TokenNotWhitelisted)
    );
    assert_eq!(
        SplitContract::create_subscription(&mut l, c, vec![r], vec![1], vec![b], 2),
        Err(Error::TokenNotWhitelisted)
    );
    SplitContract::whitelist_token(&mut l, b).unwrap();
    SplitContract::whitelist_token(&mut l, b).unwrap();
    assert_eq!(create(&mut l, c, vec![r, r], vec![1, 1], vec![a, b], 2_000), Ok(2));
    SplitContract::remove_token(&mut l, b).unwrap();
    assert_eq!(create(&mut l, c, vec![r], vec![1], vec![b], 2_000), Err(Error::TokenNotWhitelisted));
    assert_eq!(create(&mut l, c, vec![r], vec![1], vec![a], 2_000), Ok(3));
}

#[test]
fn totals_beyond_the_range_are_refused() {
    let mut l = ledger();
    let (c, r, t) = (account(1), account(2), token());
    let big = i128::MAX / 2;
    assert_eq!(create(&mut l, c, vec![r, r], vec![big, big], vec![t, t], 2_000), Ok(1));
    assert_eq!(SplitContract::pay(&mut l, account(3), 1, 1), Ok(()));
    // The shares of such a total cannot be worked out, and the ledger stays as it is.
    let effects = l.effects.len();
    assert_eq!(SplitContract::pay(&mut l, account(3), 1, 2 * big - 1), Err(Error::Overflow));
    assert_eq!(SplitContract::get_invoice(&l, 1).unwrap().funded, 1);
    assert_eq!(l.effects.len(), effects);
    SplitContract::initialize(&mut l, account(4), account(5), 1).unwrap();
    assert_eq!(create(&mut l, c, vec![r], vec![i128::MAX], vec![t], 2_000), Ok(2));
    assert_eq!(SplitContract::pay(&mut l, account(3), 2, i128::MAX), Err(Error::Overflow));
}

/// An invoice that no call of the contract would have made.
fn odd_invoice(recipients: Vec<Address>, amounts: Vec<i128>, tokens: Vec<Address>, funded: i128) -> Invoice {
    Invoice {
        creator: account(1),
        recipients,
        amounts,
        tokens,
        deadline: 2_000,
        funded,
        status: InvoiceStatus::Pending,
        payments: vec![],
        frozen: false,
        recurring: false,
        original_duration: 1,
    }
}

#[test]
fn odd_invoices_are_refused_or_released() {
    let mut l = ledger();
    let (r, t) = (account(2), token());
    l.storage.invoices.set(1, odd_invoice(vec![r], vec![5], vec![], 0));
    assert_eq!(SplitContract::pay(&mut l, account(3), 1, 5), Err(Error::NoToken));
    l.timestamp = 3_000;
    assert_eq!(SplitContract::refund(&mut l, 1), Err(Error::NoToken));
    l.timestamp = 1_000;
    l.storage.invoices.set(2, odd_invoice(vec![r, r], vec![5], vec![t], 5));
    assert_eq!(SplitContract::release(&mut l, 2), Err(Error::MissingShare));
    l.storage.invoices.set(3, odd_invoice(vec![], vec![], vec![], 0));
    assert_eq!(SplitContract::release(&mut l, 3), Ok(()));
    l.storage.invoices.set(4, odd_invoice(vec![r], vec![5], vec![t], 5));
    assert_eq!(SplitContract::release(&mut l, 4), Ok(()));
    assert_eq!(SplitContract::get_audit_log(&l, 4)[0].actor, l.contract);
    l.storage.invoices.set(5, odd_invoice(vec![r], vec![i128::MIN, -1], vec![t], 5));
    assert_eq!(SplitContract::release(&mut l, 5), Err(Error::Overflow));
    assert_eq!(SplitContract::release(&mut l, 9), Err(Error::InvoiceNotFound));
}

#[test]
fn refund_refusals() {
    let mut l = with_invoice();
    let (r, t) = (account(2), token());
    assert_eq!(SplitContract::refund(&mut l, 7), Err(Error::InvoiceNotFound));
    assert_eq!(SplitContract::refund(&mut l, 1), Err(Error::DeadlineNotPassed));
    l.storage.invoices.set(2, odd_invoice(vec![r], vec![5], vec![t], 5));
    l.storage.invoices.set(3, odd_invoice(vec![r], vec![5], vec![], 6));
    l.storage.invoices.set(4, odd_invoice(vec![r], vec![i128::MAX, 1], vec![t], 0));
    l.storage.invoices.set(5, odd_invoice(vec![r], vec![5], vec![t], 4));
    assert_eq!(SplitContract::refund(&mut l, 2), Err(Error::DeadlineNotPassed));
    l.timestamp = 2_001;
    let effects = l.effects.len();
    assert_eq!(SplitContract::refund(&mut l, 2), Err(Error::FullyFunded));
    assert_eq!(SplitContract::refund(&mut l, 3), Err(Error::FullyFunded));
    assert_eq!(SplitContract::refund(&mut l, 4), Err(Error::Overflow));
    assert_eq!(l.effects.len(), effects);
    assert_eq!(SplitContract::get_invoice(&l, 2).unwrap().status, InvoiceStatus::Pending);
    assert_eq!(SplitContract::refund(&mut l, 5), Ok(()));
    assert_eq!(SplitContract::refund(&mut l, 1), Ok(()));
}

#[test]
fn unknown_invoices_are_not_found() {
    let l = ledger();
    assert!(matches!(SplitContract::get_invoice(&l, 1), Err(Error::InvoiceNotFound)));
    assert_eq!(SplitContract::get_audit_log(&l, 1).len(), 0);
}

#[test]
fn arithmetic_rounds_towards_zero() {
    assert_eq!(checked_sum(&vec![]), Some(0));
    assert_eq!(checked_sum(&vec![5, -7, 10]), Some(8));
    assert_eq!(checked_sum(&vec![i128::MAX, 1, -1]), None);
    assert_eq!(checked_mul_div(7, 3, 2), Some(10));
    assert_eq!(checked_mul_div(-7, 3, 2), Some(-10));
    assert_eq!(checked_mul_div(i128::MAX, 2, 4), None);
}

#[test]
fn tables_keep_one_value_per_key() {
    let mut table: Table<u64, Vec<u64>> = Table::new();
    assert!(table.get(&1).is_none());
    table.set(1, vec![10]);
    table.set(2, vec![20]);
    table.set(1, vec![11]);
    assert_eq!(table.get(&1), Some(&vec![11]));
    let copy = table.duplicate();
    table.remove(&1);
    table.remove(&7);
    assert!(table.get(&1).is_none());
    assert_eq!(table.get(&2), Some(&vec![20]));
    assert_eq!(copy.get(&1), Some(&vec![11]));
}

#[test]
fn messages() {
    assert_eq!(Error::Unauthorized.message(), "authorization is missing");
    assert_eq!(Error::FeeTooHigh.message(), "fee_bps must be <= 10000");
    assert_eq!(Error::AmountsLengthMismatch.message(), "recipients and amounts length mismatch");
    assert_eq!(Error::TokensLengthMismatch.message(), "recipients and tokens length mismatch");
    assert_eq!(Error::NoRecipients.message(), "must have at least one recipient");
    assert_eq!(Error::DeadlineNotInFuture.message(), "deadline must be in the future");
    assert_eq!(Error::AmountNotPositive.message(), "amounts must be positive");
    assert_eq!(Error::MonthsOutOfRange.message(), "months must be between 1 and 12");
    assert_eq!(Error::InvoiceNotFound.message(), "invoice not found");
    assert_eq!(Error::PaymentNotPositive.message(), "payment amount must be positive");
    assert_eq!(Error::NoToken.message(), "no token");
    assert_eq!(Error::NotFullyFunded.message(), "invoice not fully funded");
    assert_eq!(Error::FullyFunded.message(), "invoice is fully funded");
    assert_eq!(Error::NotCreatorCancelling.message(), "only creator can cancel");
    assert_eq!(Error::HasPayments.message(), "cannot cancel invoice with payments");
    assert_eq!(Error::NotCreatorExtending.message(), "only creator can extend deadline");
    assert_eq!(Error::NewDeadlineNotInFuture.message(), "new deadline must be in the future");
    assert_eq!(Error::NotFinalized.message(), "invoice not finalized");
    assert_eq!(Error::MissingShare.message(), "recipient without amount or token");
    assert_eq!(Error::Overflow.message(), "arithmetic overflow");
}
