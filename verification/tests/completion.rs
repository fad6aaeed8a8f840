use soroban_sdk::Env;
use stellar_split::{completion_payload, Address, Error, Id256, InvoiceStatus, Ledger, SplitContract};

fn account(n: u128) -> Address {
    Address::Account(Id256 { hi: 0, lo: n })
}

/// A ledger at time 1000 with one invoice for one recipient.
fn ledger(amount: i128, deadline: u64) -> Ledger {
    let mut ledger = Ledger::new(1_000, Address::Contract(Id256 { hi: 0, lo: 0 }));
    ledger.authorized = vec![account(1), account(3)];
    let token = Address::Contract(Id256 { hi: 0, lo: 9 });
    SplitContract::create_invoice(
        &mut ledger,
        account(1),
        vec![account(2)],
        vec![amount],
        vec![token],
        deadline,
    )
    .unwrap();
    ledger
}

#[test]
fn proof_of_a_release() {
    let host = Env::default();
    let mut l = ledger(200, 9_999);
    SplitContract::pay(&mut l, account(3), 1, 200).unwrap();
    l.timestamp = 4_000;
    let proof = SplitContract::get_completion_proof(&host, &l, 1).unwrap();
    assert_eq!(proof.id, 1);
    assert_eq!(proof.status, InvoiceStatus::Released);
    assert_eq!(proof.funded, 200);
    assert_eq!(proof.timestamp, 4_000);
    assert_eq!(
        proof.hash,
        [
            78, 134, 108, 231, 148, 242, 183, 198, 190, 125, 201, 160, 20, 98, 180, 25, 246, 186,
            123, 63, 90, 34, 20, 255, 151, 142, 198, 20, 36, 36, 198, 24
        ]
    );
    // The digest does not depend on the host or on when it is asked for.
    l.timestamp = 5_000;
    let again = SplitContract::get_completion_proof(&Env::default(), &l, 1).unwrap();
    assert_eq!(again.hash, proof.hash);
    assert_eq!(again.timestamp, 5_000);
}

#[test]
fn proof_of_a_refund() {
    let host = Env::default();
    let mut l = ledger(500, 2_000);
    SplitContract::pay(&mut l, account(3), 1, 100).unwrap();
    l.timestamp = 3_000;
    SplitContract::refund(&mut l, 1).unwrap();
    let proof = SplitContract::get_completion_proof(&host, &l, 1).unwrap();
    assert_eq!(proof.status, InvoiceStatus::Refunded);
    assert_eq!(proof.funded, 100);
    assert_eq!(
        proof.hash,
        [
            75, 1, 32, 201, 204, 148, 193, 63, 226, 43, 158, 55, 176, 242, 37, 54, 77, 224, 65,
            186, 72, 3, 229, 207, 115, 166, 131, 54, 167, 130, 249, 173
        ]
    );
}

#[test]
fn no_proof_before_the_end() {
    let host = Env::default();
    let mut l = ledger(500, 2_000);
    assert!(matches!(
        SplitContract::get_completion_proof(&host, &l, 1),
        Err(Error::NotFinalized)
    ));
    assert!(matches!(
        SplitContract::get_completion_proof(&host, &l, 2),
        Err(Error::InvoiceNotFound)
    ));
    SplitContract::cancel_invoice(&mut l, account(1), 1).unwrap();
    assert!(matches!(
        SplitContract::get_completion_proof(&host, &l, 1),
        Err(Error::NotFinalized)
    ));
    assert!(matches!(
        SplitContract::completion_proof(&l, 1, [0; 32]),
        Err(Error::NotFinalized)
    ));
}

#[test]
fn proof_carries_the_digest_it_is_given() {
    let mut l = ledger(5, 2_000);
    SplitContract::pay(&mut l, account(3), 1, 5).unwrap();
    let proof = SplitContract::completion_proof(&l, 1, [7; 32]).unwrap();
    assert_eq!(proof.hash, [7; 32]);
    assert_eq!(proof.funded, 5);
}

#[test]
fn payload_layout() {
    let l = ledger(500, 0x0102_0304_0506_0708);
    let mut invoice = SplitContract::get_invoice(&l, 1).unwrap();
    invoice.funded = 0x1122_3344_5566_7788;
    invoice.status = InvoiceStatus::Refunded;
    invoice.recipients = vec![account(2); 258];
    let raw = completion_payload(&invoice);
    assert_eq!(
        raw,
        [
            0x88, 0x77, 0x66, 0x55, 0x44, 0x33, 0x22, 0x11, 0, 0, 0, 0, 0, 0, 0, 0, 8, 7, 6, 5, 4,
            3, 2, 1, 2, 2, 0, 0, 0, 0, 0, 0
        ]
    );
    let mut values = vec![0i128, -1, -2, i128::MIN, i128::MAX, 255, -256];
    while let Some(funded) = values.pop() {
        invoice.funded = funded;
        assert_eq!(completion_payload(&invoice)[..16], funded.to_le_bytes());
    }
}
