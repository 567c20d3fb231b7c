use payment_hub::icrc3::{icrc3_block_to_transfer_txn, Icrc3Value, TxnParseError};
use payment_hub::ids::PrincipalData;

fn text(s: &str) -> Icrc3Value {
    Icrc3Value::Text(s.as_bytes().to_vec())
}

fn blob(b: &[u8]) -> Icrc3Value {
    Icrc3Value::Blob(b.to_vec())
}

fn entry(k: &str, v: Icrc3Value) -> (Vec<u8>, Icrc3Value) {
    (k.as_bytes().to_vec(), v)
}

fn account(owner: &[u8], sub: &[u8; 32]) -> Icrc3Value {
    Icrc3Value::Array(vec![blob(owner), blob(sub)])
}

fn transfer_block(amount: u64) -> Icrc3Value {
    let tx = Icrc3Value::Record(vec![
        entry("op", text("xfer")),
        entry("amt", Icrc3Value::Nat(num_bigint::BigUint::from(amount))),
        entry("to", account(&[42], &[7u8; 32])),
        entry("from", account(&[9], &[1u8; 32])),
        entry("memo", blob(&[3u8; 32])),
    ]);
    Icrc3Value::Record(vec![entry("btype", text("1xfer")), entry("tx", tx)])
}

#[test]
fn reads_a_well_formed_transfer_block() {
    let block = transfer_block(12_345);
    let txn = icrc3_block_to_transfer_txn(&block, &PrincipalData::new(vec![4, 4]), 8).unwrap();
    assert_eq!(txn.qty.magnitude_u64(), Some(12_345));
    assert_eq!(txn.qty.decimals, 8);
    assert_eq!(txn.to.owner.bytes, vec![42]);
    assert_eq!(txn.to.subaccount, Some([7u8; 32]));
    assert_eq!(txn.from.owner.bytes, vec![9]);
    assert_eq!(txn.from.subaccount, Some([1u8; 32]));
    assert_eq!(txn.memo, [3u8; 32]);
    assert_eq!(txn.token_id.bytes, vec![4, 4]);
}

#[test]
fn sender_subaccount_may_be_absent() {
    let tx = Icrc3Value::Record(vec![
        entry("op", text("xfer")),
        entry("amt", Icrc3Value::Nat(num_bigint::BigUint::from(5u64))),
        entry("to", account(&[42], &[7u8; 32])),
        entry("from", Icrc3Value::Array(vec![blob(&[9])])),
        entry("memo", blob(&[3u8; 32])),
    ]);
    let block = Icrc3Value::Record(vec![entry("tx", tx), entry("btype", text("1xfer"))]);
    let txn = icrc3_block_to_transfer_txn(&block, &PrincipalData::new(vec![4]), 8).unwrap();
    assert_eq!(txn.from.subaccount, None);
}

#[test]
fn non_map_blocks_are_rejected() {
    let r = icrc3_block_to_transfer_txn(&text("nope"), &PrincipalData::new(vec![4]), 8);
    assert_eq!(r.unwrap_err(), TxnParseError::InvalidBlockFormat);
}

#[test]
fn missing_tx_field_is_rejected() {
    let block = Icrc3Value::Record(vec![entry("btype", text("1xfer"))]);
    let r = icrc3_block_to_transfer_txn(&block, &PrincipalData::new(vec![4]), 8);
    assert_eq!(r.unwrap_err(), TxnParseError::NoTxField);
}

#[test]
fn non_transfer_operations_are_rejected() {
    let tx = Icrc3Value::Record(vec![entry("op", text("burn"))]);
    let block = Icrc3Value::Record(vec![entry("tx", tx)]);
    let r = icrc3_block_to_transfer_txn(&block, &PrincipalData::new(vec![4]), 8);
    assert_eq!(r.unwrap_err(), TxnParseError::InvalidTxnType);
}

#[test]
fn malformed_amount_and_memo_are_rejected() {
    let tx = Icrc3Value::Record(vec![
        entry("op", text("xfer")),
        entry("amt", text("12")),
    ]);
    let block = Icrc3Value::Record(vec![entry("tx", tx)]);
    let r = icrc3_block_to_transfer_txn(&block, &PrincipalData::new(vec![4]), 8);
    assert_eq!(r.unwrap_err(), TxnParseError::InvalidAmountField);

    let tx = Icrc3Value::Record(vec![
        entry("op", text("xfer")),
        entry("amt", Icrc3Value::Nat(num_bigint::BigUint::from(5u64))),
        entry("to", account(&[42], &[7u8; 32])),
        entry("from", account(&[9], &[1u8; 32])),
        entry("memo", blob(&[3u8; 31])),
    ]);
    let block = Icrc3Value::Record(vec![entry("btype", text("1xfer")), entry("tx", tx)]);
    let r = icrc3_block_to_transfer_txn(&block, &PrincipalData::new(vec![4]), 8);
    assert_eq!(r.unwrap_err(), TxnParseError::InvalidMemoField);
}

#[test]
fn oversized_subaccounts_and_principals_are_rejected() {
    // An undersized recipient subaccount is a typed error: the data is
    // untrusted and must never cause a panic.
    let tx = Icrc3Value::Record(vec![
        entry("op", text("xfer")),
        entry("amt", Icrc3Value::Nat(num_bigint::BigUint::from(5u64))),
        entry("to", Icrc3Value::Array(vec![blob(&[42]), blob(&[7u8; 31])])),
    ]);
    let block = Icrc3Value::Record(vec![entry("tx", tx)]);
    let r = icrc3_block_to_transfer_txn(&block, &PrincipalData::new(vec![4]), 8);
    assert_eq!(r.unwrap_err(), TxnParseError::InvalidToSubaccount);

    let tx = Icrc3Value::Record(vec![
        entry("op", text("xfer")),
        entry("amt", Icrc3Value::Nat(num_bigint::BigUint::from(5u64))),
        entry("to", account(&[1u8; 30].as_slice(), &[7u8; 32])),
    ]);
    let block = Icrc3Value::Record(vec![entry("tx", tx)]);
    let r = icrc3_block_to_transfer_txn(&block, &PrincipalData::new(vec![4]), 8);
    assert_eq!(r.unwrap_err(), TxnParseError::InvalidToOwner);
}
