use stellar_split::{
    Action, Address, Effect, Event, Id256, InvoiceStatus, Ledger, SplitContract, Transfer,
};

/// A contract, a token, and the balances of everyone in that token.
struct World {
    ledger: Ledger,
    token: Address,
    balances: Vec<(Address, i128)>,
    settled: usize,
    next: u128,
}

fn contract_address(n: u128) -> Address {
    Address::Contract(Id256 { hi: 7, lo: n })
}

/// A ledger at the start of time, with the contract and one token on it.
fn setup() -> World {
    World {
        ledger: Ledger::new(0, contract_address(1)),
        token: contract_address(2),
        balances: Vec::new(),
        settled: 0,
        next: 100,
    }
}

impl World {
    /// A new account that authorises whatever it is asked to.
    fn generate(&mut self) -> Address {
        self.next += 1;
        let address = Address::Account(Id256 { hi: 0, lo: self.next });
        self.ledger.authorized.push(address);
        address
    }

    fn balance(&self, owner: Address) -> i128 {
        self.balances.iter().filter(|(a, _)| *a == owner).map(|(_, b)| *b).sum()
    }

    fn mint(&mut self, owner: Address, amount: i128) {
        self.balances.push((owner, amount));
    }

    /// Carries out the transfers that the contract has asked for since the last
    /// time.
    fn settle(&mut self) {
        while self.settled < self.ledger.effects.len() {
            if let Effect::Transfer(Transfer { token, from, to, amount }) =
                self.ledger.effects[self.settled]
            {
                if token == self.token {
                    assert!(self.balance(from) >= amount, "insufficient balance");
                    self.balances.push((from, -amount));
                    self.balances.push((to, amount));
                }
            }
            self.settled += 1;
        }
    }

    fn create(&mut self, creator: Address, recipients: &[Address], amounts: &[i128], deadline: u64) -> u64 {
        let tokens = vec![self.token; recipients.len()];
        SplitContract::create_invoice(
            &mut self.ledger,
            creator,
            recipients.to_vec(),
            amounts.to_vec(),
            tokens,
            deadline,
        )
        .unwrap_or_else(|e| panic!("{}", e.message()))
    }

    fn pay(&mut self, payer: Address, id: u64, amount: i128) {
        SplitContract::pay(&mut self.ledger, payer, id, amount)
            .unwrap_or_else(|e| panic!("{}", e.message()));
        self.settle();
    }

    fn batch_pay(&mut self, payer: Address, payments: &[(u64, i128)]) {
        SplitContract::batch_pay(&mut self.ledger, payer, payments.to_vec())
            .unwrap_or_else(|e| panic!("{}", e.message()));
        self.settle();
    }

    fn status(&self, id: u64) -> InvoiceStatus {
        SplitContract::get_invoice(&self.ledger, id).unwrap().status
    }
}

#[test]
fn test_create_invoice() {
    let mut w = setup();
    let creator = w.generate();
    let recipient = w.generate();

    w.ledger.timestamp = 1_000;

    let id = w.create(creator, &[recipient], &[100], 2_000);
    assert_eq!(id, 1);

    let invoice = SplitContract::get_invoice(&w.ledger, id).unwrap();
    assert_eq!(invoice.status, InvoiceStatus::Pending);
    assert_eq!(invoice.funded, 0);
}

#[test]
fn test_pay_and_auto_release() {
    let mut w = setup();
    let creator = w.generate();
    let payer = w.generate();
    let recipient = w.generate();
    w.mint(payer, 500);
    w.ledger.timestamp = 1_000;

    let id = w.create(creator, &[recipient], &[200], 9_999);
    w.pay(payer, id, 200);

    assert_eq!(w.status(id), InvoiceStatus::Released);
    assert_eq!(w.balance(recipient), 200);
    assert_eq!(w.balance(payer), 300);
    assert_eq!(w.balance(w.ledger.contract), 0);
}

#[test]
fn test_partial_pay_then_release() {
    let mut w = setup();
    let creator = w.generate();
    let payer1 = w.generate();
    let payer2 = w.generate();
    let recipient = w.generate();
    w.mint(payer1, 150);
    w.mint(payer2, 150);
    w.ledger.timestamp = 1_000;

    let id = w.create(creator, &[recipient], &[300], 9_999);

    w.pay(payer1, id, 150);
    assert_eq!(w.status(id), InvoiceStatus::Pending);

    w.pay(payer2, id, 150);
    assert_eq!(w.status(id), InvoiceStatus::Released);
    assert_eq!(w.balance(recipient), 300);
}

#[test]
fn test_refund_after_deadline() {
    let mut w = setup();
    let creator = w.generate();
    let payer = w.generate();
    let recipient = w.generate();
    w.mint(payer, 100);
    w.ledger.timestamp = 1_000;

    let id = w.create(creator, &[recipient], &[500], 2_000);
    w.pay(payer, id, 100);

    w.ledger.timestamp = 3_000;
    SplitContract::refund(&mut w.ledger, id).unwrap();
    w.settle();

    assert_eq!(w.status(id), InvoiceStatus::Refunded);
    assert_eq!(w.balance(payer), 100);
}

#[test]
#[should_panic(expected = "invoice deadline has passed")]
fn test_pay_after_deadline_panics() {
    let mut w = setup();
    let creator = w.generate();
    let payer = w.generate();
    let recipient = w.generate();
    w.mint(payer, 100);
    w.ledger.timestamp = 1_000;

    let id = w.create(creator, &[recipient], &[100], 2_000);

    w.ledger.timestamp = 3_000;
    w.pay(payer, id, 100);
}

#[test]
#[should_panic(expected = "payment exceeds remaining balance")]
fn test_overpayment_panics() {
    let mut w = setup();
    let creator = w.generate();
    let payer = w.generate();
    let recipient = w.generate();
    w.mint(payer, 1_000);
    w.ledger.timestamp = 1_000;

    let id = w.create(creator, &[recipient], &[100], 9_999);
    w.pay(payer, id, 200);
}

#[test]
fn test_multi_recipient_release() {
    let mut w = setup();
    let creator = w.generate();
    let payer = w.generate();
    let r1 = w.generate();
    let r2 = w.generate();
    let r3 = w.generate();
    w.mint(payer, 600);
    w.ledger.timestamp = 1_000;

    let id = w.create(creator, &[r1, r2, r3], &[100, 200, 300], 9_999);
    w.pay(payer, id, 600);

    assert_eq!(w.balance(r1), 100);
    assert_eq!(w.balance(r2), 200);
    assert_eq!(w.balance(r3), 300);
}

#[test]
fn test_audit_log() {
    let mut w = setup();
    let creator = w.generate();
    let payer = w.generate();
    let recipient = w.generate();
    w.mint(payer, 500);
    w.ledger.timestamp = 1_000;

    let id = w.create(creator, &[recipient], &[200], 9_999);
    w.pay(payer, id, 200);

    assert_eq!(w.status(id), InvoiceStatus::Released);

    let log = SplitContract::get_audit_log(&w.ledger, id);
    assert_eq!(log.len(), 2);
    assert_eq!(log[0].action.symbol(), "pay");
    assert_eq!(log[1].action.symbol(), "release");
    assert_eq!(log[0].actor, payer);
    assert_eq!(log[1].actor, creator);
    assert_eq!(log[0].timestamp, 1_000);
    assert_eq!(stellar_split::get_audit_log(&w.ledger, id).len(), 2);
}

#[test]
fn test_audit_log_with_cancel() {
    let mut w = setup();
    let creator = w.generate();
    let recipient = w.generate();
    w.ledger.timestamp = 1_000;

    let id = w.create(creator, &[recipient], &[100], 9_999);
    SplitContract::cancel_invoice(&mut w.ledger, creator, id).unwrap();

    let log = SplitContract::get_audit_log(&w.ledger, id);
    assert_eq!(log.len(), 1);
    assert_eq!(log[0].action.symbol(), "cancel");
    assert_eq!(log[0].actor, creator);
}

#[test]
fn test_audit_log_with_extend() {
    let mut w = setup();
    let creator = w.generate();
    let recipient = w.generate();
    w.ledger.timestamp = 1_000;

    let id = w.create(creator, &[recipient], &[100], 2_000);
    SplitContract::extend_deadline(&mut w.ledger, creator, id, 9_999).unwrap();

    let log = SplitContract::get_audit_log(&w.ledger, id);
    assert_eq!(log.len(), 1);
    assert_eq!(log[0].action.symbol(), "extend");
    assert_eq!(log[0].actor, creator);
    assert_eq!(SplitContract::get_invoice(&w.ledger, id).unwrap().deadline, 9_999);
}

#[test]
fn test_create_subscription() {
    let mut w = setup();
    let creator = w.generate();
    let payer = w.generate();
    let recipient = w.generate();
    w.mint(payer, 500);
    w.ledger.timestamp = 1_000;

    let token = w.token;
    let id = SplitContract::create_subscription(
        &mut w.ledger,
        creator,
        vec![recipient],
        vec![200],
        vec![token],
        3,
    )
    .unwrap();
    assert_eq!(id, 1);

    w.pay(payer, id, 200);
    assert_eq!(w.status(id), InvoiceStatus::Released);

    let second = SplitContract::get_invoice(&w.ledger, 2).unwrap();
    assert_eq!(second.status, InvoiceStatus::Pending);
    assert_eq!(second.deadline, 1_000 + 30 * 24 * 60 * 60);
    assert_eq!(w.balance(recipient), 200);
}

#[test]
fn test_register_and_get_installment_plan() {
    let mut w = setup();
    let creator = w.generate();
    let payer = w.generate();
    let recipient = w.generate();
    w.ledger.timestamp = 1_000;

    let id = w.create(creator, &[recipient], &[300], 9_999);
    let schedule = vec![(2_000, 100), (5_000, 100), (8_000, 100)];
    SplitContract::register_installment_plan(&mut w.ledger, payer, id, schedule).unwrap();

    let retrieved = SplitContract::get_installment_plan(&w.ledger, payer, id);
    assert_eq!(retrieved.len(), 3);
    assert_eq!(retrieved[0], (2_000, 100));
    assert_eq!(retrieved[2], (8_000, 100));
}

#[test]
fn test_installment_plan_can_be_updated() {
    let mut w = setup();
    let creator = w.generate();
    let payer = w.generate();
    let recipient = w.generate();
    w.ledger.timestamp = 1_000;

    let id = w.create(creator, &[recipient], &[200], 9_999);
    SplitContract::register_installment_plan(&mut w.ledger, payer, id, vec![(3_000, 200)]).unwrap();
    SplitContract::register_installment_plan(
        &mut w.ledger,
        payer,
        id,
        vec![(3_000, 100), (6_000, 100)],
    )
    .unwrap();

    let retrieved = SplitContract::get_installment_plan(&w.ledger, payer, id);
    assert_eq!(retrieved.len(), 2);
}

#[test]
fn test_pay_unaffected_by_installment_plan() {
    let mut w = setup();
    let creator = w.generate();
    let payer = w.generate();
    let recipient = w.generate();
    w.mint(payer, 200);
    w.ledger.timestamp = 1_000;

    let id = w.create(creator, &[recipient], &[200], 9_999);
    SplitContract::register_installment_plan(&mut w.ledger, payer, id, vec![(5_000, 200)]).unwrap();

    w.pay(payer, id, 200);
    assert_eq!(w.status(id), InvoiceStatus::Released);
    assert_eq!(w.balance(recipient), 200);
}

#[test]
fn test_whitelisted_token_creates_invoice() {
    let mut w = setup();
    let admin = w.generate();
    let creator = w.generate();
    let recipient = w.generate();
    let token = w.token;

    SplitContract::init_admin(&mut w.ledger, admin).unwrap();
    SplitContract::whitelist_token(&mut w.ledger, token).unwrap();

    w.ledger.timestamp = 1_000;
    let id = w.create(creator, &[recipient], &[100], 9_999);
    assert_eq!(id, 1);
}

#[test]
#[should_panic(expected = "token not whitelisted")]
fn test_non_whitelisted_token_panics() {
    let mut w = setup();
    let admin = w.generate();
    let creator = w.generate();
    let recipient = w.generate();
    let other_token = contract_address(3);

    SplitContract::init_admin(&mut w.ledger, admin).unwrap();
    SplitContract::whitelist_token(&mut w.ledger, other_token).unwrap();

    w.ledger.timestamp = 1_000;
    w.create(creator, &[recipient], &[100], 9_999);
}

#[test]
#[should_panic(expected = "token not whitelisted")]
fn test_remove_token_from_whitelist() {
    let mut w = setup();
    let admin = w.generate();
    let creator = w.generate();
    let recipient = w.generate();
    let token = w.token;

    SplitContract::init_admin(&mut w.ledger, admin).unwrap();
    SplitContract::whitelist_token(&mut w.ledger, token).unwrap();
    SplitContract::remove_token(&mut w.ledger, token).unwrap();

    w.ledger.timestamp = 1_000;
    w.create(creator, &[recipient], &[100], 9_999);
}

#[test]
fn test_recurring_invoice_creates_next_on_release() {
    let mut w = setup();
    let creator = w.generate();
    let payer = w.generate();
    let recipient = w.generate();
    w.mint(payer, 400);
    w.ledger.timestamp = 1_000;

    let token = w.token;
    let id = SplitContract::create_invoice_recurring(
        &mut w.ledger,
        creator,
        vec![recipient],
        vec![200],
        vec![token],
        9_999,
        true,
    )
    .unwrap();
    assert_eq!(id, 1);

    w.pay(payer, id, 200);
    assert_eq!(w.status(id), InvoiceStatus::Released);

    let second = SplitContract::get_invoice(&w.ledger, 2).unwrap();
    assert_eq!(second.status, InvoiceStatus::Pending);
    assert_eq!(second.deadline, 1_000 + 8_999);
    assert_eq!(second.recurring, true);
    assert_eq!(w.balance(recipient), 200);
}

#[test]
fn test_non_recurring_invoice_no_auto_create() {
    let mut w = setup();
    let creator = w.generate();
    let payer = w.generate();
    let recipient = w.generate();
    w.mint(payer, 200);
    w.ledger.timestamp = 1_000;

    let id = w.create(creator, &[recipient], &[200], 9_999);
    w.pay(payer, id, 200);

    let first = SplitContract::get_invoice(&w.ledger, id).unwrap();
    assert_eq!(first.status, InvoiceStatus::Released);
    assert_eq!(first.recurring, false);
    assert_eq!(w.ledger.storage.last_id(), 1);
}

#[test]
fn test_batch_pay_three_invoices() {
    let mut w = setup();
    let creator = w.generate();
    let payer = w.generate();
    let r1 = w.generate();
    let r2 = w.generate();
    let r3 = w.generate();
    w.mint(payer, 600);
    w.ledger.timestamp = 1_000;

    let id1 = w.create(creator, &[r1], &[100], 9_999);
    let id2 = w.create(creator, &[r2], &[200], 9_999);
    let id3 = w.create(creator, &[r3], &[300], 9_999);

    w.batch_pay(payer, &[(id1, 100), (id2, 200), (id3, 300)]);

    assert_eq!(w.status(id1), InvoiceStatus::Released);
    assert_eq!(w.status(id2), InvoiceStatus::Released);
    assert_eq!(w.status(id3), InvoiceStatus::Released);
    assert_eq!(w.balance(r1), 100);
    assert_eq!(w.balance(r2), 200);
    assert_eq!(w.balance(r3), 300);
}

#[test]
fn test_batch_pay_empty_is_noop() {
    let mut w = setup();
    let payer = w.generate();
    w.batch_pay(payer, &[]);
    assert_eq!(w.ledger.effects.len(), 0);
    assert_eq!(w.ledger.storage.last_id(), 0);
}

#[test]
#[should_panic(expected = "invoice is not pending")]
fn test_batch_pay_reverts_on_invalid_payment() {
    let mut w = setup();
    let creator = w.generate();
    let payer = w.generate();
    let recipient = w.generate();
    w.mint(payer, 500);
    w.ledger.timestamp = 1_000;

    let id1 = w.create(creator, &[recipient], &[100], 9_999);
    w.pay(payer, id1, 100);
    let id2 = w.create(creator, &[recipient], &[100], 9_999);

    w.batch_pay(payer, &[(id2, 100), (id1, 100)]);
}

#[test]
fn refused_batch_leaves_no_trace() {
    let mut w = setup();
    let creator = w.generate();
    let payer = w.generate();
    let recipient = w.generate();
    w.mint(payer, 500);
    w.ledger.timestamp = 1_000;

    let id1 = w.create(creator, &[recipient], &[100], 9_999);
    w.pay(payer, id1, 100);
    let id2 = w.create(creator, &[recipient], &[100], 9_999);
    let effects = w.ledger.effects.len();

    let refused =
        SplitContract::batch_pay(&mut w.ledger, payer, vec![(id2, 60), (id2, 40), (id1, 100)]);
    assert_eq!(refused.unwrap_err().message(), "invoice is not pending");
    assert_eq!(w.status(id2), InvoiceStatus::Pending);
    assert_eq!(SplitContract::get_invoice(&w.ledger, id2).unwrap().funded, 0);
    assert_eq!(SplitContract::get_audit_log(&w.ledger, id2).len(), 0);
    assert_eq!(w.ledger.effects.len(), effects);
}

#[test]
fn effects_come_in_order() {
    let mut w = setup();
    let admin = w.generate();
    let treasury = w.generate();
    let creator = w.generate();
    let payer = w.generate();
    let r1 = w.generate();
    let r2 = w.generate();
    let contract = w.ledger.contract;
    let token = w.token;
    w.ledger.timestamp = 1_000;
    SplitContract::initialize(&mut w.ledger, admin, treasury, 250).unwrap();

    let id = w.create(creator, &[r1, r2], &[333, 668], 9_999);
    w.mint(payer, 1_001);
    w.pay(payer, id, 1_001);

    // 2.5% of 1001 is 25.025; what is left is 976.
    let expected = [
        Transfer { token, from: payer, to: contract, amount: 1_001 },
        Transfer { token, from: contract, to: treasury, amount: 25 },
        Transfer { token, from: contract, to: r1, amount: 324 },
        Transfer { token, from: contract, to: r2, amount: 651 },
    ];
    let transfers: Vec<Transfer> = w
        .ledger
        .effects
        .iter()
        .filter_map(|e| match e {
            Effect::Transfer(t) => Some(*t),
            Effect::Publish(_) => None,
        })
        .collect();
    assert_eq!(transfers, expected);
    // One unit is lost to rounding and stays with the contract.
    assert_eq!(w.balance(contract), 1);

    assert!(matches!(
        &w.ledger.effects[0],
        Effect::Publish(Event::InvoiceCreated { id: 1, creator: c, total: 1_001 }) if *c == creator
    ));
    assert!(matches!(&w.ledger.effects[1], Effect::Transfer(_)));
    assert!(matches!(
        &w.ledger.effects[2],
        Effect::Publish(Event::PaymentReceived { id: 1, payer: p, amount: 1_001 }) if *p == payer
    ));
    assert!(matches!(
        &w.ledger.effects[6],
        Effect::Publish(Event::InvoiceReleased { id: 1, recipients }) if *recipients == vec![r1, r2]
    ));
    assert_eq!(w.ledger.effects.len(), 7);
}

#[test]
fn fee_needs_a_rate_and_a_treasury() {
    let mut w = setup();
    let admin = w.generate();
    let treasury = w.generate();
    let creator = w.generate();
    let payer = w.generate();
    let recipient = w.generate();
    w.mint(payer, 3_000);
    w.ledger.timestamp = 1_000;

    let id = w.create(creator, &[recipient], &[1_000], 9_999);
    SplitContract::initialize(&mut w.ledger, admin, treasury, 0).unwrap();
    w.pay(payer, id, 1_000);
    assert_eq!(w.balance(recipient), 1_000);

    let id = w.create(creator, &[recipient], &[1_000], 9_999);
    w.ledger.storage.fee_bps = Some(100);
    w.ledger.storage.treasury = None;
    w.pay(payer, id, 1_000);
    assert_eq!(w.balance(recipient), 2_000);

    let id = w.create(creator, &[recipient], &[1_000], 9_999);
    SplitContract::initialize(&mut w.ledger, admin, treasury, 10_000).unwrap();
    w.pay(payer, id, 1_000);
    assert_eq!(w.balance(recipient), 2_000);
    assert_eq!(w.balance(treasury), 1_000);
}

#[test]
fn recipients_are_paid_in_their_own_tokens() {
    let mut w = setup();
    let creator = w.generate();
    let payer = w.generate();
    let r1 = w.generate();
    let r2 = w.generate();
    let contract = w.ledger.contract;
    let (a, b) = (w.token, contract_address(9));
    w.ledger.timestamp = 1_000;
    SplitContract::create_invoice(&mut w.ledger, creator, vec![r1, r2], vec![10, 20], vec![a, b], 9_999)
        .unwrap();
    SplitContract::pay(&mut w.ledger, payer, 1, 30).unwrap();
    let transfers: Vec<Transfer> = w
        .ledger
        .effects
        .iter()
        .filter_map(|e| match e {
            Effect::Transfer(t) => Some(*t),
            Effect::Publish(_) => None,
        })
        .collect();
    assert_eq!(
        transfers,
        [
            Transfer { token: a, from: payer, to: contract, amount: 30 },
            Transfer { token: a, from: contract, to: r1, amount: 10 },
            Transfer { token: b, from: contract, to: r2, amount: 20 },
        ]
    );
}

#[test]
fn refund_pays_back_each_payment() {
    let mut w = setup();
    let creator = w.generate();
    let p1 = w.generate();
    let p2 = w.generate();
    let recipient = w.generate();
    w.mint(p1, 100);
    w.mint(p2, 50);
    w.ledger.timestamp = 1_000;
    let id = w.create(creator, &[recipient], &[500], 2_000);
    w.pay(p1, id, 30);
    w.pay(p2, id, 50);
    w.pay(p1, id, 70);
    assert_eq!(w.balance(w.ledger.contract), 150);

    // The deadline itself is still in time for payments, and too early for refunds.
    w.ledger.timestamp = 2_000;
    assert_eq!(
        SplitContract::refund(&mut w.ledger, id).unwrap_err().message(),
        "deadline has not passed"
    );
    w.ledger.timestamp = 2_001;
    SplitContract::refund(&mut w.ledger, id).unwrap();
    w.settle();
    assert_eq!(w.balance(p1), 100);
    assert_eq!(w.balance(p2), 50);
    assert_eq!(w.balance(w.ledger.contract), 0);
    let log = SplitContract::get_audit_log(&w.ledger, id);
    assert_eq!(log.len(), 4);
    assert_eq!(log[3].action, Action::Refund);
    assert_eq!(log[3].actor, w.ledger.contract);
    assert!(matches!(
        w.ledger.effects.last(),
        Some(Effect::Publish(Event::InvoiceRefunded { id: 1 }))
    ));
}

#[test]
fn freeze_blocks_until_unfrozen() {
    let mut w = setup();
    let admin = w.generate();
    let creator = w.generate();
    let payer = w.generate();
    let recipient = w.generate();
    w.mint(payer, 100);
    w.ledger.timestamp = 1_000;
    let id = w.create(creator, &[recipient], &[100], 2_000);
    assert_eq!(
        SplitContract::freeze_invoice(&mut w.ledger, id).unwrap_err().message(),
        "contract not initialized"
    );
    SplitContract::initialize(&mut w.ledger, admin, admin, 0).unwrap();
    SplitContract::freeze_invoice(&mut w.ledger, id).unwrap();
    assert_eq!(
        SplitContract::pay(&mut w.ledger, payer, id, 100).unwrap_err().message(),
        "invoice is frozen"
    );
    assert_eq!(
        SplitContract::release(&mut w.ledger, id).unwrap_err().message(),
        "invoice is frozen"
    );
    SplitContract::unfreeze_invoice(&mut w.ledger, id).unwrap();
    assert!(!SplitContract::get_invoice(&w.ledger, id).unwrap().frozen);
    w.pay(payer, id, 100);
    assert_eq!(w.status(id), InvoiceStatus::Released);
}

#[test]
fn frozen_invoice_can_be_refunded() {
    let mut w = setup();
    let admin = w.generate();
    let creator = w.generate();
    let payer = w.generate();
    let recipient = w.generate();
    w.mint(payer, 100);
    w.ledger.timestamp = 1_000;
    let id = w.create(creator, &[recipient], &[100], 2_000);
    w.pay(payer, id, 40);
    SplitContract::init_admin(&mut w.ledger, admin).unwrap();
    SplitContract::freeze_invoice(&mut w.ledger, id).unwrap();
    w.ledger.timestamp = 5_000;
    SplitContract::refund(&mut w.ledger, id).unwrap();
    w.settle();
    assert_eq!(w.balance(payer), 100);
}

#[test]
fn creator_index_lists_ids_in_order() {
    let mut w = setup();
    let a = w.generate();
    let b = w.generate();
    let r = w.generate();
    w.ledger.timestamp = 1_000;
    assert_eq!(w.create(a, &[r], &[1], 2_000), 1);
    assert_eq!(w.create(b, &[r], &[1], 2_000), 2);
    assert_eq!(w.create(a, &[r], &[1], 2_000), 3);
    assert_eq!(SplitContract::get_invoices_by_creator(&w.ledger, a), vec![1, 3]);
    assert_eq!(SplitContract::get_invoices_by_creator(&w.ledger, b), vec![2]);
    assert_eq!(SplitContract::get_invoices_by_creator(&w.ledger, r).len(), 0);
}

#[test]
fn subscription_of_one_month_ends_there() {
    let mut w = setup();
    let creator = w.generate();
    let payer = w.generate();
    let r = w.generate();
    w.mint(payer, 10);
    let token = w.token;
    SplitContract::create_subscription(&mut w.ledger, creator, vec![r], vec![10], vec![token], 1)
        .unwrap();
    w.pay(payer, 1, 10);
    assert_eq!(w.ledger.storage.last_id(), 1);
}

#[test]
fn subscription_bills_every_month() {
    let mut w = setup();
    let creator = w.generate();
    let payer = w.generate();
    let r = w.generate();
    w.mint(payer, 30);
    let token = w.token;
    SplitContract::create_subscription(&mut w.ledger, creator, vec![r], vec![10], vec![token], 3)
        .unwrap();
    w.ledger.timestamp = 500;
    w.pay(payer, 1, 10);
    assert_eq!(w.ledger.storage.last_id(), 2);
    let next = SplitContract::get_invoice(&w.ledger, 2).unwrap();
    assert_eq!(next.deadline, 500 + 2_592_000);
    assert_eq!(next.creator, creator);
    assert_eq!(next.recipients, vec![r]);
    assert_eq!(next.amounts, vec![10]);
    assert_eq!(next.tokens, vec![token]);
    w.ledger.timestamp = 800;
    w.pay(payer, 2, 10);
    assert_eq!(w.ledger.storage.last_id(), 3);
    let third = SplitContract::get_invoice(&w.ledger, 3).unwrap();
    assert_eq!(third.status, InvoiceStatus::Pending);
    assert_eq!(third.deadline, 800 + 2_592_000);
    assert_eq!(third.amounts, vec![10]);
    w.pay(payer, 3, 10);
    assert_eq!(w.status(3), InvoiceStatus::Released);
    assert_eq!(w.ledger.storage.last_id(), 3);
    assert_eq!(SplitContract::get_invoices_by_creator(&w.ledger, creator), vec![1, 2, 3]);
    assert_eq!(w.balance(r), 30);
}

#[test]
fn subscription_stops_where_an_invoice_is_not_released() {
    let mut w = setup();
    let creator = w.generate();
    let payer = w.generate();
    let r = w.generate();
    w.mint(payer, 15);
    let token = w.token;
    SplitContract::create_subscription(&mut w.ledger, creator, vec![r], vec![10], vec![token], 12)
        .unwrap();
    w.pay(payer, 1, 10);
    w.pay(payer, 2, 5);
    w.ledger.timestamp = 2_592_001;
    SplitContract::refund(&mut w.ledger, 2).unwrap();
    w.settle();
    assert_eq!(w.ledger.storage.last_id(), 2);
    assert_eq!(w.balance(payer), 5);
}

#[test]
fn recurring_invoices_recur() {
    let mut w = setup();
    let creator = w.generate();
    let payer = w.generate();
    let r = w.generate();
    w.mint(payer, 30);
    let token = w.token;
    SplitContract::create_invoice_recurring(
        &mut w.ledger, creator, vec![r], vec![10], vec![token], 100, true,
    )
    .unwrap();
    SplitContract::extend_deadline(&mut w.ledger, creator, 1, 700).unwrap();
    w.ledger.timestamp = 600;
    w.pay(payer, 1, 10);
    assert_eq!(SplitContract::get_invoice(&w.ledger, 2).unwrap().deadline, 700);
    w.ledger.timestamp = 650;
    w.pay(payer, 2, 10);
    let third = SplitContract::get_invoice(&w.ledger, 3).unwrap();
    assert_eq!(third.deadline, 750);
    assert!(third.recurring);
}
