use payment_hub::decimal::EDs;
use payment_hub::exchange_rates::ExchangeRatesState;
use payment_hub::hashing::{calc_shop_subaccount, derive_invoice_id, make_invoice_memo};
use payment_hub::history::{only_parent, ArchivedInvoice, ArchivedInvoiceV0001, HistoryState};
use payment_hub::ids::{PrincipalData, Ticker};
use payment_hub::tokens::{SupportedTokensState, Token};
use payment_hub::withdrawal::{classify_block_fetch, compute_withdrawal_split,
    meets_withdrawal_minimum, BlockFetchStep};
use sha2::Digest;

fn ticker(name: &str) -> Ticker {
    Ticker::new(name.as_bytes().to_vec())
}

fn token(id: &[u8], tk: &str) -> Token {
    Token {
        id: PrincipalData::new(id.to_vec()),
        ticker: ticker(tk),
        xrc_ticker: ticker(tk),
        fee: EDs::from_u64(10_000, 8),
        logo_src: String::new(),
    }
}

#[test]
fn shop_subaccount_is_the_domain_separated_digest() {
    // The derivation must match SHA-256 over the documented domain tag and
    // the little-endian shop id.
    let mut bytes = b"msq-shop-id-subaccount".to_vec();
    bytes.extend_from_slice(&7u64.to_le_bytes());
    let expected: [u8; 32] = sha2::Sha256::digest(&bytes).into();
    assert_eq!(calc_shop_subaccount(7), expected);
}

#[test]
fn invoice_memo_is_the_domain_separated_digest() {
    let id = [5u8; 32];
    let mut bytes = b"msq-memo_generation".to_vec();
    bytes.extend_from_slice(&id);
    let expected: [u8; 32] = sha2::Sha256::digest(&bytes).into();
    assert_eq!(make_invoice_memo(&id), expected);
}

#[test]
fn invoice_id_feeds_the_generator_forward() {
    let gen = [1u8; 32];
    let mut bytes = gen.to_vec();
    bytes.extend_from_slice(b"msq-id-generation");
    bytes.extend_from_slice(&42u64.to_le_bytes());
    let expected: [u8; 32] = sha2::Sha256::digest(&bytes).into();
    assert_eq!(derive_invoice_id(&gen, 42), expected);
    assert_ne!(derive_invoice_id(&gen, 42), gen);
}

#[test]
fn token_registry_is_a_bidirectional_index() {
    let mut s = SupportedTokensState::new();
    s.add_token(token(&[1], "AAA"));
    s.add_token(token(&[2], "BBB"));
    assert!(s.contains_id(&PrincipalData::new(vec![1])));
    assert!(s.contains_ticker(&ticker("BBB")));
    let t = s.get_by_id(&PrincipalData::new(vec![2])).unwrap();
    assert_eq!(t.ticker.bytes, b"BBB".to_vec());
    let tk = s.ticker_by_token_id(&PrincipalData::new(vec![1])).unwrap();
    assert_eq!(tk.bytes, b"AAA".to_vec());
    s.remove_token(&ticker("AAA"));
    assert!(!s.contains_id(&PrincipalData::new(vec![1])));
    assert!(s.contains_id(&PrincipalData::new(vec![2])));
    assert_eq!(s.get().len(), 1);
}

#[test]
fn snapshots_are_keyed_and_current_is_protected() {
    let mut s = ExchangeRatesState::new();
    s.insert_rate(100, ticker("X"), EDs::from_u64(5, 8));
    s.insert_rate(200, ticker("X"), EDs::from_u64(6, 8));
    s.last_updated_at = 200;
    // Replacing a ticker's rate rebinds it.
    s.insert_rate(200, ticker("X"), EDs::from_u64(7, 8));
    assert_eq!(
        s.get_exchange_rate(200, &ticker("X")).unwrap().magnitude_u64(),
        Some(7)
    );
    // delete_outdated never evicts the current snapshot.
    s.delete_outdated(200);
    assert!(s.get_exchange_rate(200, &ticker("X")).is_some());
    s.delete_outdated(100);
    assert!(s.get_exchange_rate(100, &ticker("X")).is_none());
}

#[test]
fn withdrawal_split_with_both_parties() {
    // 1000 units: 970 to the owner, 24 to the platform (80% of 30), 6 to
    // the referrer; the parts always cover the whole amount.
    let qty = EDs::from_u64(1_000, 8);
    let (w, f, r) = compute_withdrawal_split(&qty, true, true);
    assert_eq!(w.magnitude_u64(), Some(970));
    assert_eq!(f.magnitude_u64(), Some(24));
    assert_eq!(r.magnitude_u64(), Some(6));
}

#[test]
fn withdrawal_split_with_one_or_no_party() {
    let qty = EDs::from_u64(1_000, 8);
    let (w, f, r) = compute_withdrawal_split(&qty, true, false);
    assert_eq!((w.magnitude_u64(), f.magnitude_u64(), r.magnitude_u64()),
        (Some(970), Some(30), Some(0)));
    let (w, f, r) = compute_withdrawal_split(&qty, false, true);
    assert_eq!((w.magnitude_u64(), f.magnitude_u64(), r.magnitude_u64()),
        (Some(970), Some(0), Some(30)));
    let (w, f, r) = compute_withdrawal_split(&qty, false, false);
    assert_eq!((w.magnitude_u64(), f.magnitude_u64(), r.magnitude_u64()),
        (Some(1_000), Some(0), Some(0)));
}

#[test]
fn withdrawal_minimum_is_six_fees() {
    let fee = EDs::from_u64(10, 8);
    assert!(meets_withdrawal_minimum(&EDs::from_u64(60, 8), &fee));
    assert!(!meets_withdrawal_minimum(&EDs::from_u64(59, 8), &fee));
}

#[test]
fn block_fetch_classification() {
    let five = num_bigint::BigUint::from(5u64);
    let six = num_bigint::BigUint::from(6u64);
    assert_eq!(classify_block_fetch(None, &five, true), BlockFetchStep::FollowArchive);
    assert_eq!(classify_block_fetch(None, &five, false), BlockFetchStep::NoArchive);
    assert_eq!(classify_block_fetch(Some(&five), &five, false), BlockFetchStep::Found);
    assert_eq!(classify_block_fetch(Some(&six), &five, true), BlockFetchStep::WrongId);
}

#[test]
fn history_log_appends_and_indexes() {
    let mut h = HistoryState::new();
    h.push_batch(vec![
        ArchivedInvoice::V0001(ArchivedInvoiceV0001 {}),
        ArchivedInvoice::V0001(ArchivedInvoiceV0001 {}),
    ]);
    assert!(h.get_invoice(0).is_some());
    assert!(h.get_invoice(1).is_some());
    assert!(h.get_invoice(2).is_none());
    assert!(only_parent(&PrincipalData::new(vec![1]), &PrincipalData::new(vec![1])));
    assert!(!only_parent(&PrincipalData::new(vec![1]), &PrincipalData::new(vec![2])));
}
