use payment_hub::decimal::EDs;
use payment_hub::error::Error;
use payment_hub::hashing::{calc_shop_subaccount, make_invoice_memo};
use payment_hub::ids::{AccountData, PrincipalData, Ticker};
use payment_hub::invoices::InvoiceStatus;
use payment_hub::state::{ExternalRate, State};
use payment_hub::tokens::Token;
use payment_hub::txn::TransferTxn;

fn principal(bytes: &[u8]) -> PrincipalData {
    PrincipalData::new(bytes.to_vec())
}

fn ticker(name: &str) -> Ticker {
    Ticker::new(name.as_bytes().to_vec())
}

fn usd(mag: u64) -> EDs {
    EDs::from_u64(mag, 8)
}

/// A hub with one supported token (ticker X, 8 decimals), one shop whose
/// invoices `creator` may create, and one rate snapshot at `t` valuing X at
/// $2.00.
fn hub_with_shop_and_rate(t: u64, creator: &PrincipalData) -> (State, u64) {
    let mut s = State::new();
    s.supported_tokens.add_token(Token {
        id: principal(&[4, 4]),
        ticker: ticker("X"),
        xrc_ticker: ticker("X"),
        fee: EDs::from_u64(10_000, 8),
        logo_src: String::new(),
    });
    let shop_id = s.shops.create_shop(
        vec![principal(&creator.bytes)],
        String::from("shop"),
        String::from(""),
        String::from(""),
        None,
        principal(&[8]),
    );
    s.update_exchange_rates(
        vec![ExternalRate { ticker: ticker("X"), rate: 2_0000_0000, decimals: 8 }],
        t,
    );
    s.invoices.init_id_seed(&[3u8; 32]);
    (s, shop_id)
}

#[test]
fn create_invoice_requires_authorization() {
    let creator = principal(&[1]);
    let (mut s, shop_id) = hub_with_shop_and_rate(100, &creator);
    let denied = s.create_invoice(usd(10_0000_0000), shop_id, 1000, principal(&[2]));
    assert_eq!(denied.unwrap_err(), Error::AccessDenied);
    let ok = s.create_invoice(usd(10_0000_0000), shop_id, 1000, principal(&[1]));
    assert!(ok.is_ok());
}

#[test]
fn end_to_end_settlement_at_the_locked_rate() {
    // $10.00 at $2.00/unit and 8 decimals: the smallest accepted transfer
    // is 4.95 units of X.
    let creator = principal(&[1]);
    let hub_id = principal(&[42]);
    let (mut s, shop_id) = hub_with_shop_and_rate(100, &creator);
    let invoice_id = s
        .create_invoice(usd(10_0000_0000), shop_id, 1000, principal(&[1]))
        .unwrap();
    let (locked_ts, ttl, decimals) = s
        .begin_verification(&invoice_id, &principal(&[4, 4]), &creator)
        .unwrap();
    assert_eq!(locked_ts, 100);
    assert_eq!(decimals, 8);
    let txn = TransferTxn {
        from: AccountData { owner: principal(&[9]), subaccount: None },
        to: AccountData {
            owner: principal(&[42]),
            subaccount: Some(calc_shop_subaccount(shop_id)),
        },
        qty: EDs::from_u64(4_9500_0000, 8),
        token_id: principal(&[4, 4]),
        memo: make_invoice_memo(&invoice_id),
    };
    let settled = s.settle_payment(&invoice_id, txn, &hub_id, 2000, ttl).unwrap();
    match settled.status {
        InvoiceStatus::Paid { timestamp, qty, .. } => {
            assert_eq!(timestamp, 2000);
            assert_eq!(qty.magnitude_u64(), Some(4_9500_0000));
        },
        _ => panic!("the invoice must have settled"),
    }
    // The shop earned the invoice's USD amount.
    let shop = s.shops.get_shop(shop_id).unwrap();
    assert_eq!(shop.total_earned_usd.magnitude_u64(), Some(10_0000_0000));
}

#[test]
fn failed_settlement_restores_the_invoice() {
    let creator = principal(&[1]);
    let hub_id = principal(&[42]);
    let (mut s, shop_id) = hub_with_shop_and_rate(100, &creator);
    let invoice_id = s
        .create_invoice(usd(10_0000_0000), shop_id, 1000, principal(&[1]))
        .unwrap();
    let (_ts, ttl, _d) = s
        .begin_verification(&invoice_id, &principal(&[4, 4]), &creator)
        .unwrap();
    // One unit short of the minimum.
    let txn = TransferTxn {
        from: AccountData { owner: principal(&[9]), subaccount: None },
        to: AccountData {
            owner: principal(&[42]),
            subaccount: Some(calc_shop_subaccount(shop_id)),
        },
        qty: EDs::from_u64(4_9450_0000, 8),
        token_id: principal(&[4, 4]),
        memo: make_invoice_memo(&invoice_id),
    };
    let r = s.settle_payment(&invoice_id, txn, &hub_id, 2000, ttl);
    assert!(r.is_err());
    match s.invoices.get_invoice(&invoice_id).unwrap().status {
        InvoiceStatus::Created { ttl: t } => assert_eq!(t, ttl),
        _ => panic!("a failed settlement must restore the invoice"),
    }
}

#[test]
fn purge_drops_the_snapshot_once_its_last_invoice_expires() {
    let creator = principal(&[1]);
    let (mut s, shop_id) = hub_with_shop_and_rate(100, &creator);
    let _invoice_id = s
        .create_invoice(usd(10_0000_0000), shop_id, 1000, principal(&[1]))
        .unwrap();
    // A newer snapshot becomes current; the old one stays: the invoice
    // still references it.
    s.update_exchange_rates(
        vec![ExternalRate { ticker: ticker("X"), rate: 3_0000_0000, decimals: 8 }],
        200,
    );
    assert!(s.exchange_rates.get_exchange_rate(100, &ticker("X")).is_some());
    // Two purges: ttl one goes to zero, then the invoice expires; the next
    // cleanup pass drops the now-unreferenced snapshot.
    s.purge_expired_invoices();
    assert!(s.exchange_rates.get_exchange_rate(100, &ticker("X")).is_some());
    s.purge_expired_invoices();
    assert!(s.exchange_rates.get_exchange_rate(100, &ticker("X")).is_none());
    // The current snapshot is never evicted.
    assert!(s.exchange_rates.get_exchange_rate(200, &ticker("X")).is_some());
}

#[test]
fn update_exchange_rates_filters_and_rescales() {
    let creator = principal(&[1]);
    let (mut s, _shop_id) = hub_with_shop_and_rate(100, &creator);
    // One supported ticker at 4 decimals, one unsupported ticker.
    s.update_exchange_rates(
        vec![
            ExternalRate { ticker: ticker("X"), rate: 15_000, decimals: 4 },
            ExternalRate { ticker: ticker("Y"), rate: 999, decimals: 4 },
        ],
        300,
    );
    let rate = s.exchange_rates.get_exchange_rate(300, &ticker("X")).unwrap();
    assert_eq!(rate.magnitude_u64(), Some(1_5000_0000));
    assert!(s.exchange_rates.get_exchange_rate(300, &ticker("Y")).is_none());
    assert_eq!(s.exchange_rates.last_updated_at, 300);
}

#[test]
fn rates_lookup_takes_the_most_recent_at_or_before() {
    let creator = principal(&[1]);
    let (mut s, shop_id) = hub_with_shop_and_rate(100, &creator);
    // Keep the old snapshot alive with an invoice, then move current on.
    let _id = s
        .create_invoice(usd(1), shop_id, 1000, principal(&[1]))
        .unwrap();
    s.update_exchange_rates(
        vec![ExternalRate { ticker: ticker("X"), rate: 3_0000_0000, decimals: 8 }],
        200,
    );
    assert_eq!(s.get_rates_at(Some(150)).unwrap().timestamp, 100);
    assert_eq!(s.get_rates_at(Some(250)).unwrap().timestamp, 200);
    assert!(s.get_rates_at(Some(50)).is_none());
    assert_eq!(s.get_rates_at(None).unwrap().timestamp, 200);
}

#[test]
fn unknown_token_leaves_the_invoice_unlocked() {
    let creator = principal(&[1]);
    let (mut s, shop_id) = hub_with_shop_and_rate(100, &creator);
    let invoice_id = s
        .create_invoice(usd(1), shop_id, 1000, principal(&[1]))
        .unwrap();
    let r = s.begin_verification(&invoice_id, &principal(&[7, 7]), &creator);
    assert_eq!(r.unwrap_err(), Error::NotFound);
    match s.invoices.get_invoice(&invoice_id).unwrap().status {
        InvoiceStatus::Created { .. } => {},
        _ => panic!("the invoice must not stay locked for an unknown token"),
    }
}
