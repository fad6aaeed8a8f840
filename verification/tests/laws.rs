use stellar_split::{
    completion_payload, Address, Duplicate, Effect, Id256, InvoiceStatus, Ledger, SplitContract,
};

fn account(n: u128) -> Address {
    Address::Account(Id256 { hi: 0, lo: n })
}

fn token() -> Address {
    Address::Contract(Id256 { hi: 1, lo: 1 })
}

/// A ledger at time 1000 on which accounts 1 to 9 authorise everything, with two
/// invoices: of 100 for account 2, and of 30 and 70 for accounts 2 and 4.
fn ledger() -> Ledger {
    let mut l = Ledger::new(1_000, Address::Contract(Id256 { hi: 0, lo: 0 }));
    l.authorized = (1..10).map(account).collect();
    let (c, t) = (account(1), token());
    SplitContract::create_invoice(&mut l, c, vec![account(2)], vec![100], vec![t], 2_000).unwrap();
    SplitContract::create_invoice(
        &mut l,
        c,
        vec![account(2), account(4)],
        vec![30, 70],
        vec![t, t],
        3_000,
    )
    .unwrap();
    l
}

/// What the contract has taken in of the token, less what it has paid out.
fn balance(l: &Ledger) -> i128 {
    let mut sum = 0;
    for effect in &l.effects {
        if let Effect::Transfer(t) = effect {
            if t.token == token() && t.to == l.contract {
                sum += t.amount;
            }
            if t.token == token() && t.from == l.contract {
                sum -= t.amount;
            }
        }
    }
    sum
}

/// What has been paid towards pending invoices.
fn held(l: &Ledger) -> i128 {
    (1..=l.storage.last_id())
        .map(|id| SplitContract::get_invoice(l, id).unwrap())
        .filter(|i| i.status == InvoiceStatus::Pending)
        .map(|i| i.funded)
        .sum()
}

#[test]
fn what_is_taken_in_covers_what_is_held() {
    let mut l = ledger();
    SplitContract::initialize(&mut l, account(5), account(6), 777).unwrap();
    SplitContract::pay(&mut l, account(3), 1, 40).unwrap();
    assert_eq!((balance(&l), held(&l)), (40, 40));
    SplitContract::pay(&mut l, account(7), 2, 99).unwrap();
    assert_eq!((balance(&l), held(&l)), (139, 139));
    SplitContract::pay(&mut l, account(3), 2, 1).unwrap();
    // 7 of 100 go to the treasury; 27 of 27.9 and 65 of 65.1 to the recipients.
    assert_eq!((balance(&l), held(&l)), (41, 40));
    l.timestamp = 5_000;
    SplitContract::refund(&mut l, 1).unwrap();
    assert_eq!((balance(&l), held(&l)), (1, 0));
}

#[test]
fn calls_work_on_part_of_the_storage() {
    let mut whole = ledger();
    let mut part = Ledger::new(1_000, whole.contract);
    part.authorized = whole.authorized.duplicate();
    part.storage.counter = whole.storage.counter;
    part.storage.invoices.set(2, whole.storage.invoices.get(&2).unwrap().duplicate());
    let ids = SplitContract::get_invoices_by_creator(&whole, account(1));
    part.storage.creators.set(account(1), ids);

    SplitContract::pay(&mut whole, account(3), 2, 100).unwrap();
    SplitContract::pay(&mut part, account(3), 2, 100).unwrap();
    let a = SplitContract::get_invoice(&whole, 2).unwrap();
    let b = SplitContract::get_invoice(&part, 2).unwrap();
    assert_eq!(format!("{:?}", a), format!("{:?}", b));
    assert_eq!(SplitContract::get_audit_log(&whole, 2), SplitContract::get_audit_log(&part, 2));
    assert_eq!(
        format!("{:?}", whole.effects[2..].iter().collect::<Vec<_>>()),
        format!("{:?}", part.effects.iter().collect::<Vec<_>>())
    );
}

#[test]
fn batches_are_payments_in_turn() {
    let mut one = ledger();
    let mut two = ledger();
    let mut three = ledger();
    let p = account(3);
    SplitContract::batch_pay(&mut one, p, vec![(1, 10), (2, 20), (1, 90)]).unwrap();
    SplitContract::batch_pay(&mut two, p, vec![(1, 10)]).unwrap();
    SplitContract::batch_pay(&mut two, p, vec![(2, 20), (1, 90)]).unwrap();
    SplitContract::pay(&mut three, p, 1, 10).unwrap();
    SplitContract::pay(&mut three, p, 2, 20).unwrap();
    SplitContract::pay(&mut three, p, 1, 90).unwrap();
    for l in [&two, &three] {
        for id in [1, 2] {
            let a = SplitContract::get_invoice(&one, id).unwrap();
            let b = SplitContract::get_invoice(l, id).unwrap();
            assert_eq!(format!("{:?}", a), format!("{:?}", b));
            assert_eq!(SplitContract::get_audit_log(&one, id), SplitContract::get_audit_log(l, id));
        }
        assert_eq!(format!("{:?}", one.effects), format!("{:?}", l.effects));
    }
}

#[test]
fn subscriptions_come_to_their_months() {
    for months in 1..=12 {
        let mut l = ledger();
        let (c, r, p) = (account(1), account(2), account(3));
        let first =
            SplitContract::create_subscription(&mut l, c, vec![r], vec![10], vec![token()], months)
                .unwrap();
        assert_eq!(first, 3);
        let mut chain = vec![first];
        let mut paid = 0;
        while paid < chain.len() {
            let id = chain[paid];
            // Other invoices come in between, and do not belong to the subscription.
            SplitContract::create_invoice(&mut l, c, vec![r], vec![1], vec![token()], 2_000)
                .unwrap();
            SplitContract::pay(&mut l, p, id, 4).unwrap();
            let before = l.storage.last_id();
            SplitContract::pay(&mut l, p, id, 6).unwrap();
            assert_eq!(SplitContract::get_invoice(&l, id).unwrap().status, InvoiceStatus::Released);
            paid += 1;
            if l.storage.last_id() > before {
                chain.push(l.storage.last_id());
                let next = l.storage.subscriptions.get(&l.storage.last_id());
                assert_eq!(
                    next.map(|params| params.remaining),
                    Some(months - chain.len() as u32).filter(|n| *n > 0)
                );
            }
            assert!(l.storage.subscriptions.get(&id).is_none());
        }
        assert_eq!(chain.len(), months as usize);
    }
}

#[test]
fn a_batch_can_pay_for_months_ahead() {
    let mut l = ledger();
    let (c, r, p) = (account(1), account(2), account(3));
    SplitContract::create_subscription(&mut l, c, vec![r], vec![10], vec![token()], 3).unwrap();
    SplitContract::batch_pay(&mut l, p, vec![(3, 10), (4, 10), (5, 10)]).unwrap();
    assert_eq!(l.storage.last_id(), 5);
    assert_eq!(SplitContract::get_invoice(&l, 5).unwrap().status, InvoiceStatus::Released);
}

#[test]
fn closed_invoices_stay_closed() {
    let mut l = ledger();
    SplitContract::init_admin(&mut l, account(5)).unwrap();
    SplitContract::pay(&mut l, account(3), 1, 100).unwrap();
    let before = format!("{:?}", SplitContract::get_invoice(&l, 1).unwrap());
    SplitContract::pay(&mut l, account(3), 2, 50).unwrap();
    l.timestamp = 9_000;
    SplitContract::refund(&mut l, 2).unwrap();
    assert!(SplitContract::refund(&mut l, 1).is_err());
    SplitContract::freeze_invoice(&mut l, 1).unwrap();
    SplitContract::unfreeze_invoice(&mut l, 1).unwrap();
    assert_eq!(format!("{:?}", SplitContract::get_invoice(&l, 1).unwrap()), before);
    assert_eq!(SplitContract::get_audit_log(&l, 1).len(), 2);
}

#[test]
fn freezes_last_until_unfrozen() {
    let mut l = ledger();
    let (c, p) = (account(1), account(3));
    SplitContract::init_admin(&mut l, account(5)).unwrap();
    SplitContract::freeze_invoice(&mut l, 1).unwrap();
    SplitContract::freeze_invoice(&mut l, 2).unwrap();
    SplitContract::unfreeze_invoice(&mut l, 2).unwrap();
    SplitContract::pay(&mut l, p, 2, 100).unwrap();
    SplitContract::init_admin(&mut l, account(6)).unwrap();
    SplitContract::initialize(&mut l, account(6), account(7), 10).unwrap();
    SplitContract::extend_deadline(&mut l, c, 1, 8_000).unwrap();
    assert!(SplitContract::get_invoice(&l, 1).unwrap().frozen);
    assert!(!SplitContract::get_invoice(&l, 2).unwrap().frozen);
    assert_eq!(SplitContract::pay(&mut l, p, 1, 1).unwrap_err().message(), "invoice is frozen");
    SplitContract::cancel_invoice(&mut l, c, 1).unwrap();
    let cancelled = SplitContract::get_invoice(&l, 1).unwrap();
    assert_eq!(cancelled.status, InvoiceStatus::Cancelled);
    assert!(cancelled.frozen);
}

#[test]
fn completing_payments_are_accepted_while_products_fit() {
    let (c, r, p) = (account(1), account(2), account(3));
    // The square of the first total is the largest that is in range.
    let root: i128 = 13_043_817_825_332_782_212;
    assert!(root > i64::MAX as i128);
    for (total, accepted) in [(root, true), (root + 1, false)] {
        let mut l = ledger();
        SplitContract::create_invoice(&mut l, c, vec![r], vec![total], vec![token()], 2_000).unwrap();
        assert_eq!(SplitContract::pay(&mut l, p, 3, total).is_ok(), accepted);
        // With a fee, the products are smaller.
        let mut l = ledger();
        SplitContract::initialize(&mut l, account(5), account(6), 1).unwrap();
        SplitContract::create_invoice(&mut l, c, vec![r], vec![total], vec![token()], 2_000).unwrap();
        assert!(SplitContract::pay(&mut l, p, 3, total).is_ok());
    }
}

#[test]
fn audit_log_names_the_payers() {
    let mut l = ledger();
    SplitContract::pay(&mut l, account(3), 1, 10).unwrap();
    SplitContract::extend_deadline(&mut l, account(1), 1, 4_000).unwrap();
    l.timestamp = 1_500;
    SplitContract::pay(&mut l, account(8), 1, 20).unwrap();
    let log = SplitContract::get_audit_log(&l, 1);
    let symbols: Vec<&str> = log.iter().map(|e| e.action.symbol()).collect();
    assert_eq!(symbols, ["pay", "extend", "pay"]);
    let actors: Vec<Address> = log.iter().map(|e| e.actor).collect();
    assert_eq!(actors, [account(3), account(1), account(8)]);
    let times: Vec<u64> = log.iter().map(|e| e.timestamp).collect();
    assert_eq!(times, [1_000, 1_000, 1_500]);
}

#[test]
fn payloads_tell_outcomes_apart() {
    let l = ledger();
    let base = SplitContract::get_invoice(&l, 1).unwrap();
    let payload = completion_payload(&base);
    let mut other = base.duplicate();
    other.creator = account(9);
    other.frozen = true;
    assert_eq!(completion_payload(&other), payload);
    other.funded = 1;
    assert_ne!(completion_payload(&other), payload);
    other.funded = base.funded;
    other.deadline += 1;
    assert_ne!(completion_payload(&other), payload);
    other.deadline = base.deadline;
    other.status = InvoiceStatus::Cancelled;
    assert_ne!(completion_payload(&other), payload);
    other.status = base.status;
    other.recipients.push(account(3));
    assert_ne!(completion_payload(&other), payload);
}
