use payment_hub::decimal::EDs;
use payment_hub::error::{Error, ValidationReason};
use payment_hub::hashing::{calc_shop_subaccount, make_invoice_memo};
use payment_hub::ids::{AccountData, PrincipalData};
use payment_hub::invoices::{InvoiceStatus, InvoicesState, DEFAULT_TTL};
use payment_hub::txn::TransferTxn;

fn principal(bytes: &[u8]) -> PrincipalData {
    PrincipalData::new(bytes.to_vec())
}

fn usd(mag: u64) -> EDs {
    EDs::from_u64(mag, 8)
}

fn new_state() -> InvoicesState {
    let mut s = InvoicesState::new();
    s.init_id_seed(&[7u8; 32]);
    s
}

/// A transfer paying `qty` token units (8 decimals) for the given invoice.
fn paying_txn(
    invoice_id: &[u8; 32],
    shop_id: u64,
    hub: &PrincipalData,
    qty: u64,
) -> TransferTxn {
    TransferTxn {
        from: AccountData { owner: principal(&[9, 9]), subaccount: None },
        to: AccountData {
            owner: principal(&hub.bytes),
            subaccount: Some(calc_shop_subaccount(shop_id)),
        },
        qty: EDs::from_u64(qty, 8),
        token_id: principal(&[4, 4]),
        memo: make_invoice_memo(invoice_id),
    }
}

#[test]
fn create_places_invoice_in_created_state_with_default_ttl() {
    let mut s = new_state();
    let id = s
        .create_checked(usd(10_0000_0000), 1, 1000, 500, principal(&[1]))
        .unwrap();
    let inv = s.get_invoice(&id).unwrap();
    match inv.status {
        InvoiceStatus::Created { ttl } => assert_eq!(ttl, DEFAULT_TTL),
        _ => panic!("fresh invoice must be in Created state"),
    }
    assert_eq!(inv.exchange_rates_timestamp, 500);
    assert_eq!(inv.shop_id, 1);
}

#[test]
fn create_never_reissues_an_id() {
    let mut s = new_state();
    let a = s
        .create_checked(usd(1), 1, 1000, 500, principal(&[1]))
        .unwrap();
    let b = s
        .create_checked(usd(1), 1, 1000, 500, principal(&[1]))
        .unwrap();
    let c = s
        .create_checked(usd(1), 1, 2000, 500, principal(&[1]))
        .unwrap();
    assert_ne!(a, b);
    assert_ne!(a, c);
    assert_ne!(b, c);
}

#[test]
fn second_verification_attempt_observes_invalid_state() {
    let mut s = new_state();
    let creator = principal(&[1]);
    let id = s.create_checked(usd(1), 1, 1000, 500, creator).unwrap();
    let first = s.lock_for_verification(&id, &principal(&[1]));
    assert!(first.is_ok());
    let second = s.lock_for_verification(&id, &principal(&[1]));
    assert_eq!(second.unwrap_err(), Error::InvalidState);
}

#[test]
fn lock_checks_the_caller() {
    let mut s = new_state();
    let id = s
        .create_checked(usd(1), 1, 1000, 500, principal(&[1]))
        .unwrap();
    let r = s.lock_for_verification(&id, &principal(&[2]));
    assert_eq!(r.unwrap_err(), Error::AccessDenied);
    let missing = [0u8; 32];
    let r = s.lock_for_verification(&missing, &principal(&[1]));
    assert_eq!(r.unwrap_err(), Error::NotFound);
}

#[test]
fn restore_returns_the_invoice_to_created() {
    let mut s = new_state();
    let id = s
        .create_checked(usd(1), 1, 1000, 500, principal(&[1]))
        .unwrap();
    let (_ts, ttl) = s.lock_for_verification(&id, &principal(&[1])).unwrap();
    s.restore_invoice(&id, ttl).unwrap();
    match s.get_invoice(&id).unwrap().status {
        InvoiceStatus::Created { ttl: t } => assert_eq!(t, ttl),
        _ => panic!("restored invoice must be Created again"),
    }
    // Restoring an unlocked invoice is an error.
    assert_eq!(s.restore_invoice(&id, ttl).unwrap_err(), Error::InvalidState);
}

#[test]
fn wrong_subaccount_is_rejected_regardless_of_amount() {
    let mut s = new_state();
    let hub = principal(&[42]);
    let id = s
        .create_checked(usd(10_0000_0000), 1, 1000, 500, principal(&[1]))
        .unwrap();
    s.lock_for_verification(&id, &principal(&[1])).unwrap();
    // A huge amount, but routed to another shop's subaccount.
    let mut txn = paying_txn(&id, 1, &hub, 1_000_000_0000_0000);
    txn.to.subaccount = Some(calc_shop_subaccount(2));
    let rate = usd(2_0000_0000);
    let r = s.verify_payment(&id, txn, rate, &hub, 2000);
    assert_eq!(
        r.unwrap_err(),
        Error::ValidationFailed(ValidationReason::SubaccountMismatch)
    );
}

#[test]
fn wrong_recipient_is_flagged_as_funds_at_risk() {
    let mut s = new_state();
    let hub = principal(&[42]);
    let id = s
        .create_checked(usd(10_0000_0000), 1, 1000, 500, principal(&[1]))
        .unwrap();
    s.lock_for_verification(&id, &principal(&[1])).unwrap();
    let mut txn = paying_txn(&id, 1, &hub, 10_0000_0000);
    txn.to.owner = principal(&[43]);
    let r = s.verify_payment(&id, txn, usd(2_0000_0000), &hub, 2000);
    assert_eq!(r.unwrap_err(), Error::FundsAtRisk);
}

#[test]
fn wrong_memo_is_rejected() {
    let mut s = new_state();
    let hub = principal(&[42]);
    let id = s
        .create_checked(usd(10_0000_0000), 1, 1000, 500, principal(&[1]))
        .unwrap();
    s.lock_for_verification(&id, &principal(&[1])).unwrap();
    let mut txn = paying_txn(&id, 1, &hub, 10_0000_0000);
    txn.memo = [5u8; 32];
    let r = s.verify_payment(&id, txn, usd(2_0000_0000), &hub, 2000);
    assert_eq!(
        r.unwrap_err(),
        Error::ValidationFailed(ValidationReason::MemoMismatch)
    );
}

#[test]
fn one_percent_tolerance_boundary() {
    // $10.00 at $2.00/unit: owed 5 units, minimum accepted 4.95 units.
    // Exactly 99% of the expected value passes; 98.9% fails.
    let hub = principal(&[42]);
    let rate = usd(2_0000_0000);

    let mut s = new_state();
    let id = s
        .create_checked(usd(10_0000_0000), 1, 1000, 500, principal(&[1]))
        .unwrap();
    s.lock_for_verification(&id, &principal(&[1])).unwrap();
    let txn = paying_txn(&id, 1, &hub, 4_9500_0000);
    let r = s.verify_payment(&id, txn, rate.clone(), &hub, 2000);
    assert!(r.is_ok());

    let mut s = new_state();
    let id = s
        .create_checked(usd(10_0000_0000), 1, 1000, 500, principal(&[1]))
        .unwrap();
    s.lock_for_verification(&id, &principal(&[1])).unwrap();
    // 98.9% of the expected USD value: 4.945 units.
    let txn = paying_txn(&id, 1, &hub, 4_9450_0000);
    let r = s.verify_payment(&id, txn, rate, &hub, 2000);
    assert_eq!(
        r.unwrap_err(),
        Error::ValidationFailed(ValidationReason::InsufficientAmount)
    );
}

#[test]
fn settlement_moves_the_invoice_to_paid_and_out_of_the_active_index() {
    let mut s = new_state();
    let hub = principal(&[42]);
    let id = s
        .create_checked(usd(10_0000_0000), 1, 1000, 500, principal(&[1]))
        .unwrap();
    s.lock_for_verification(&id, &principal(&[1])).unwrap();
    let txn = paying_txn(&id, 1, &hub, 5_0000_0000);
    let (inv, index_empty) = s
        .verify_payment(&id, txn, usd(2_0000_0000), &hub, 2000)
        .unwrap();
    match inv.status {
        InvoiceStatus::Paid { timestamp, .. } => assert_eq!(timestamp, 2000),
        _ => panic!("settled invoice must be Paid"),
    }
    assert!(index_empty);
    assert!(!s.has_active_reference(500));
}

#[test]
fn sweep_decrements_then_discards() {
    // With the default ttl of one: the first sweep decrements to the floor,
    // the second removes the invoice entirely.
    let mut s = new_state();
    let id = s
        .create_checked(usd(1), 1, 1000, 500, principal(&[1]))
        .unwrap();
    s.sweep_expired();
    match s.get_invoice(&id).unwrap().status {
        InvoiceStatus::Created { ttl } => assert_eq!(ttl, 0),
        _ => panic!("swept invoice must still be Created"),
    }
    s.sweep_expired();
    assert!(s.get_invoice(&id).is_none());
    assert!(!s.has_active_reference(500));
}

#[test]
fn sweep_leaves_locked_invoices_alone() {
    let mut s = new_state();
    let id = s
        .create_checked(usd(1), 1, 1000, 500, principal(&[1]))
        .unwrap();
    s.lock_for_verification(&id, &principal(&[1])).unwrap();
    s.sweep_expired();
    s.sweep_expired();
    match s.get_invoice(&id).unwrap().status {
        InvoiceStatus::VerifyPayment => {},
        _ => panic!("a locked invoice must survive the sweep untouched"),
    }
}

#[test]
fn archive_batch_round_trip_restores_the_state() {
    let mut s = new_state();
    let hub = principal(&[42]);
    let mut paid_ids = Vec::new();
    for k in 0..3u64 {
        let id = s
            .create_checked(usd(10_0000_0000), 1, 1000 + k, 500, principal(&[1]))
            .unwrap();
        s.lock_for_verification(&id, &principal(&[1])).unwrap();
        let txn = paying_txn(&id, 1, &hub, 5_0000_0000);
        s.verify_payment(&id, txn, usd(2_0000_0000), &hub, 2000).unwrap();
        paid_ids.push(id);
    }
    let batch = s.prepare_archive_batch(2);
    assert_eq!(batch.len(), 2);
    for id in batch.iter().map(|i| i.id).collect::<Vec<_>>() {
        assert!(s.get_invoice(&id).is_none());
    }
    assert!(s.reapply_archive_batch_checked(batch));
    for id in &paid_ids {
        let inv = s.get_invoice(id).unwrap();
        match inv.status {
            InvoiceStatus::Paid { .. } => {},
            _ => panic!("reapplied invoice must still be Paid"),
        }
    }
    // A second prepare can pop everything again.
    let batch = s.prepare_archive_batch(10);
    assert_eq!(batch.len(), 3);
}
