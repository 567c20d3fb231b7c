//! Reading a transfer record out of an ICRC-3 ledger block.
//!
//! A block is an untrusted recursive value (blobs, texts, naturals, arrays
//! and maps).  A transfer block is a map with an optional `btype` of
//! `1xfer`, and a `tx` map whose `op` is `xfer`, holding the amount, the
//! two accounts and the memo.  Every malformed field is reported as a typed
//! error; no input can make the reader fail in any other way.

use vstd::prelude::*;

use crate::bignat::big_value;
use crate::decimal::{DecimalView, EDs, MAX_DECIMALS};
use crate::ids::{bytes_eq, copy_bytes, AccountData, AccountView, PrincipalData};
use crate::txn::{TransferTxn, TransferTxnView};

verus! {

/// An ICRC-3 value: the self-describing representation ledgers use for
/// blocks.  `Other` stands for the value kinds the transfer-block grammar
/// never reads (signed integers).
pub enum Icrc3Value {
    Blob(Vec<u8>),
    Text(Vec<u8>),
    Nat(num_bigint::BigUint),
    Array(Vec<Icrc3Value>),
    Record(Vec<(Vec<u8>, Icrc3Value)>),
    Other,
}

/// Why a block could not be read as a transfer.
#[derive(Clone, Copy, PartialEq, Eq, Structural, Debug)]
pub enum TxnParseError {
    /// The block is not a map.
    InvalidBlockFormat,
    /// The block has no `tx` field.
    NoTxField,
    /// The `tx` field is not a map.
    InvalidTxFormat,
    /// Neither the `tx` op nor the block type marks a transfer.
    InvalidTxnType,
    /// The transaction has no `amt` field.
    NoAmountField,
    /// The `amt` field is not a natural number.
    InvalidAmountField,
    /// The transaction has no `to` field.
    NoToField,
    /// The `to` field is not an array.
    InvalidToField,
    /// The recipient array has no principal.
    NoToOwner,
    /// The recipient array has no subaccount.
    NoToSubaccount,
    /// The recipient principal is not a blob of at most 29 bytes.
    InvalidToOwner,
    /// The recipient subaccount is not a 32-byte blob.
    InvalidToSubaccount,
    /// The transaction has no `from` field.
    NoFromField,
    /// The `from` field is not an array.
    InvalidFromField,
    /// The sender array has no principal.
    NoFromOwner,
    /// The sender principal is not a blob of at most 29 bytes.
    InvalidFromOwner,
    /// The sender subaccount is present but not a 32-byte blob.
    InvalidFromSubaccount,
    /// The transaction has no `memo` field.
    NoMemoField,
    /// The memo is not a 32-byte blob.
    InvalidMemoField,
}

/// The longest byte string `Principal::from_slice` accepts.
pub const MAX_PRINCIPAL_LEN: usize = 29;

/// ASCII `btype`.
pub open spec fn key_btype() -> Seq<u8> {
    seq![98u8, 116, 121, 112, 101]
}

/// ASCII `tx`.
pub open spec fn key_tx() -> Seq<u8> {
    seq![116u8, 120]
}

/// ASCII `op`.
pub open spec fn key_op() -> Seq<u8> {
    seq![111u8, 112]
}

/// ASCII `amt`.
pub open spec fn key_amt() -> Seq<u8> {
    seq![97u8, 109, 116]
}

/// ASCII `to`.
pub open spec fn key_to() -> Seq<u8> {
    seq![116u8, 111]
}

/// ASCII `from`.
pub open spec fn key_from() -> Seq<u8> {
    seq![102u8, 114, 111, 109]
}

/// ASCII `memo`.
pub open spec fn key_memo() -> Seq<u8> {
    seq![109u8, 101, 109, 111]
}

/// ASCII `1xfer`.
pub open spec fn lit_1xfer() -> Seq<u8> {
    seq![49u8, 120, 102, 101, 114]
}

/// ASCII `xfer`.
pub open spec fn lit_xfer() -> Seq<u8> {
    seq![120u8, 102, 101, 114]
}

/// The first map entry under `key`, if any.
pub open spec fn field_get(fields: Seq<(Vec<u8>, Icrc3Value)>, key: Seq<u8>) -> Option<Icrc3Value>
    decreases fields.len(),
{
    if fields.len() == 0 {
        None
    } else if fields[0].0@ == key {
        Some(fields[0].1)
    } else {
        field_get(fields.drop_first(), key)
    }
}

/// Whether the value is a text equal to `lit`.
pub open spec fn is_text(v: Option<Icrc3Value>, lit: Seq<u8>) -> bool {
    match v {
        Some(Icrc3Value::Text(s)) => s@ == lit,
        _ => false,
    }
}

/// The recipient account of a transfer: a two-element array of the owner
/// principal blob and the 32-byte subaccount blob.
pub open spec fn spec_parse_to(v: Icrc3Value) -> Result<AccountView, TxnParseError> {
    match v {
        Icrc3Value::Array(items) => if items@.len() == 0 {
            Err(TxnParseError::NoToOwner)
        } else if items@.len() == 1 {
            Err(TxnParseError::NoToSubaccount)
        } else {
            match items@[0] {
                Icrc3Value::Blob(owner) => if owner@.len() > MAX_PRINCIPAL_LEN as nat {
                    Err(TxnParseError::InvalidToOwner)
                } else {
                    match items@[1] {
                        Icrc3Value::Blob(sub) => if sub@.len() == 32 {
                            Ok(AccountView { owner: owner@, subaccount: Some(sub@) })
                        } else {
                            Err(TxnParseError::InvalidToSubaccount)
                        },
                        _ => Err(TxnParseError::InvalidToSubaccount),
                    }
                },
                _ => Err(TxnParseError::InvalidToOwner),
            }
        },
        _ => Err(TxnParseError::InvalidToField),
    }
}

/// The sender account of a transfer: the owner principal blob, optionally
/// followed by a 32-byte subaccount blob.
pub open spec fn spec_parse_from(v: Icrc3Value) -> Result<AccountView, TxnParseError> {
    match v {
        Icrc3Value::Array(items) => if items@.len() == 0 {
            Err(TxnParseError::NoFromOwner)
        } else {
            let sub: Result<Option<Seq<u8>>, TxnParseError> = if items@.len() == 1 {
                Ok(None)
            } else {
                match items@[1] {
                    Icrc3Value::Blob(s) => if s@.len() == 32 {
                        Ok(Some(s@))
                    } else {
                        Err(TxnParseError::InvalidFromSubaccount)
                    },
                    _ => Err(TxnParseError::InvalidFromSubaccount),
                }
            };
            match sub {
                Err(e) => Err(e),
                Ok(sub) => match items@[0] {
                    Icrc3Value::Blob(owner) => if owner@.len() > MAX_PRINCIPAL_LEN as nat {
                        Err(TxnParseError::InvalidFromOwner)
                    } else {
                        Ok(AccountView { owner: owner@, subaccount: sub })
                    },
                    _ => Err(TxnParseError::InvalidFromOwner),
                },
            }
        },
        _ => Err(TxnParseError::InvalidFromField),
    }
}

/// The transfer record a block denotes, or the first reason it is not one.
pub open spec fn spec_parse_block(
    block: Icrc3Value,
    token_id: Seq<u8>,
    token_decimals: u8,
) -> Result<TransferTxnView, TxnParseError> {
    match block {
        Icrc3Value::Record(block_fields) => {
            let btype_is_1xfer = is_text(field_get(block_fields@, key_btype()), lit_1xfer());
            match field_get(block_fields@, key_tx()) {
                None => Err(TxnParseError::NoTxField),
                Some(tx) => match tx {
                    Icrc3Value::Record(tx_fields) => {
                        let op_is_xfer = is_text(field_get(tx_fields@, key_op()), lit_xfer());
                        if !(op_is_xfer || btype_is_1xfer) {
                            Err(TxnParseError::InvalidTxnType)
                        } else {
                            match field_get(tx_fields@, key_amt()) {
                                None => Err(TxnParseError::NoAmountField),
                                Some(Icrc3Value::Nat(amount)) => {
                                    match field_get(tx_fields@, key_to()) {
                                        None => Err(TxnParseError::NoToField),
                                        Some(tov) => match spec_parse_to(tov) {
                                            Err(e) => Err(e),
                                            Ok(to) => match field_get(tx_fields@, key_from()) {
                                                None => Err(TxnParseError::NoFromField),
                                                Some(fromv) => match spec_parse_from(fromv) {
                                                    Err(e) => Err(e),
                                                    Ok(from) => match field_get(
                                                        tx_fields@,
                                                        key_memo(),
                                                    ) {
                                                        None => Err(TxnParseError::NoMemoField),
                                                        Some(Icrc3Value::Blob(m)) => if m@.len()
                                                            == 32 {
                                                            Ok(
                                                                TransferTxnView {
                                                                    from,
                                                                    to,
                                                                    qty: DecimalView {
                                                                        mag: big_value(amount),
                                                                        scale: token_decimals as nat,
                                                                    },
                                                                    token_id,
                                                                    memo: m@,
                                                                },
                                                            )
                                                        } else {
                                                            Err(TxnParseError::InvalidMemoField)
                                                        },
                                                        Some(_) => Err(
                                                            TxnParseError::InvalidMemoField,
                                                        ),
                                                    },
                                                },
                                            },
                                        },
                                    }
                                },
                                Some(_) => Err(TxnParseError::InvalidAmountField),
                            }
                        }
                    },
                    _ => Err(TxnParseError::InvalidTxFormat),
                },
            }
        },
        _ => Err(TxnParseError::InvalidBlockFormat),
    }
}

/// The first map entry under `key`, if any.
fn field_get_ref<'a>(fields: &'a Vec<(Vec<u8>, Icrc3Value)>, key: &[u8]) -> (r: Option<
    &'a Icrc3Value,
>)
    ensures
        match r {
            Some(v) => field_get(fields@, key@) == Some(*v),
            None => field_get(fields@, key@) is None,
        },
{
    let n = fields.len();
    proof {
        assert(fields@.skip(0) =~= fields@);
    }
    for i in 0..n
        invariant
            n == fields@.len(),
            field_get(fields@, key@) == field_get(fields@.skip(i as int), key@),
    {
        proof {
            assert(fields@.skip(i as int)[0] == fields@[i as int]);
        }
        if bytes_eq(fields[i].0.as_slice(), key) {
            return Some(&fields[i].1);
        }
        proof {
            assert(fields@.skip(i as int).drop_first() =~= fields@.skip(i + 1));
        }
    }
    proof {
        assert(fields@.skip(n as int).len() == 0);
    }
    None
}

/// Copies a 32-byte vector into an array.
fn bytes_to_array32(src: &Vec<u8>) -> (r: [u8; 32])
    requires
        src@.len() == 32,
    ensures
        r@ == src@,
{
    let mut r = [0u8; 32];
    for i in 0..32usize
        invariant
            src@.len() == 32,
            forall|j: int| 0 <= j < i ==> r@[j] == src@[j],
    {
        r[i] = src[i];
    }
    proof {
        assert(r@ =~= src@);
    }
    r
}

/// Reads the recipient account out of a `to` value.
fn parse_to(v: &Icrc3Value) -> (r: Result<AccountData, TxnParseError>)
    ensures
        match r {
            Ok(a) => spec_parse_to(*v) == Ok::<AccountView, TxnParseError>(a@),
            Err(e) => spec_parse_to(*v) == Err::<AccountView, TxnParseError>(e),
        },
{
    match v {
        Icrc3Value::Array(items) => {
            if items.len() == 0 {
                return Err(TxnParseError::NoToOwner);
            }
            if items.len() == 1 {
                return Err(TxnParseError::NoToSubaccount);
            }
            let owner = match &items[0] {
                Icrc3Value::Blob(b) => {
                    if b.len() > MAX_PRINCIPAL_LEN {
                        return Err(TxnParseError::InvalidToOwner);
                    }
                    copy_bytes(b)
                },
                _ => {
                    return Err(TxnParseError::InvalidToOwner);
                },
            };
            match &items[1] {
                Icrc3Value::Blob(s) => {
                    if s.len() == 32 {
                        Ok(
                            AccountData {
                                owner: PrincipalData::new(owner),
                                subaccount: Some(bytes_to_array32(s)),
                            },
                        )
                    } else {
                        Err(TxnParseError::InvalidToSubaccount)
                    }
                },
                _ => Err(TxnParseError::InvalidToSubaccount),
            }
        },
        _ => Err(TxnParseError::InvalidToField),
    }
}

/// Reads the sender account out of a `from` value.
fn parse_from(v: &Icrc3Value) -> (r: Result<AccountData, TxnParseError>)
    ensures
        match r {
            Ok(a) => spec_parse_from(*v) == Ok::<AccountView, TxnParseError>(a@),
            Err(e) => spec_parse_from(*v) == Err::<AccountView, TxnParseError>(e),
        },
{
    match v {
        Icrc3Value::Array(items) => {
            if items.len() == 0 {
                return Err(TxnParseError::NoFromOwner);
            }
            let sub: Option<[u8; 32]> = if items.len() == 1 {
                None
            } else {
                match &items[1] {
                    Icrc3Value::Blob(s) => {
                        if s.len() == 32 {
                            Some(bytes_to_array32(s))
                        } else {
                            return Err(TxnParseError::InvalidFromSubaccount);
                        }
                    },
                    _ => {
                        return Err(TxnParseError::InvalidFromSubaccount);
                    },
                }
            };
            match &items[0] {
                Icrc3Value::Blob(b) => {
                    if b.len() > MAX_PRINCIPAL_LEN {
                        return Err(TxnParseError::InvalidFromOwner);
                    }
                    Ok(AccountData { owner: PrincipalData::new(copy_bytes(b)), subaccount: sub })
                },
                _ => Err(TxnParseError::InvalidFromOwner),
            }
        },
        _ => Err(TxnParseError::InvalidFromField),
    }
}

/// Reads a transfer record out of an ICRC-3 block, for a known token and its
/// decimal count.  The result is exactly what `spec_parse_block` denotes: a
/// validated transfer or the first malformed field, and never a panic, the
/// data being untrusted.
pub fn icrc3_block_to_transfer_txn(
    block: &Icrc3Value,
    token_id: &PrincipalData,
    token_decimals: u8,
) -> (r: Result<TransferTxn, TxnParseError>)
    requires
        token_decimals <= MAX_DECIMALS,
    ensures
        match r {
            Ok(t) => spec_parse_block(*block, token_id@, token_decimals) == Ok::<
                TransferTxnView,
                TxnParseError,
            >(t@) && t.wf(),
            Err(e) => spec_parse_block(*block, token_id@, token_decimals) == Err::<
                TransferTxnView,
                TxnParseError,
            >(e),
        },
{
    let block_fields = match block {
        Icrc3Value::Record(f) => f,
        _ => {
            return Err(TxnParseError::InvalidBlockFormat);
        },
    };
    let btype_key: Vec<u8> = vec![98u8, 116, 121, 112, 101];
    let tx_key: Vec<u8> = vec![116u8, 120];
    let op_key: Vec<u8> = vec![111u8, 112];
    let amt_key: Vec<u8> = vec![97u8, 109, 116];
    let to_key: Vec<u8> = vec![116u8, 111];
    let from_key: Vec<u8> = vec![102u8, 114, 111, 109];
    let memo_key: Vec<u8> = vec![109u8, 101, 109, 111];
    let lit1: Vec<u8> = vec![49u8, 120, 102, 101, 114];
    let lit2: Vec<u8> = vec![120u8, 102, 101, 114];
    proof {
        assert(btype_key@ =~= key_btype());
        assert(tx_key@ =~= key_tx());
        assert(op_key@ =~= key_op());
        assert(amt_key@ =~= key_amt());
        assert(to_key@ =~= key_to());
        assert(from_key@ =~= key_from());
        assert(memo_key@ =~= key_memo());
        assert(lit1@ =~= lit_1xfer());
        assert(lit2@ =~= lit_xfer());
    }
    let btype_is_1xfer = match field_get_ref(block_fields, btype_key.as_slice()) {
        Some(Icrc3Value::Text(s)) => bytes_eq(s.as_slice(), lit1.as_slice()),
        _ => false,
    };
    proof {
        assert(btype_is_1xfer == is_text(field_get(block_fields@, key_btype()), lit_1xfer()));
    }
    let tx = match field_get_ref(block_fields, tx_key.as_slice()) {
        Some(v) => v,
        None => {
            return Err(TxnParseError::NoTxField);
        },
    };
    let tx_fields = match tx {
        Icrc3Value::Record(f) => f,
        _ => {
            return Err(TxnParseError::InvalidTxFormat);
        },
    };
    let op_is_xfer = match field_get_ref(tx_fields, op_key.as_slice()) {
        Some(Icrc3Value::Text(s)) => bytes_eq(s.as_slice(), lit2.as_slice()),
        _ => false,
    };
    proof {
        assert(op_is_xfer == is_text(field_get(tx_fields@, key_op()), lit_xfer()));
    }
    if !(op_is_xfer || btype_is_1xfer) {
        return Err(TxnParseError::InvalidTxnType);
    }
    let amount = match field_get_ref(tx_fields, amt_key.as_slice()) {
        None => {
            return Err(TxnParseError::NoAmountField);
        },
        Some(Icrc3Value::Nat(a)) => a.clone(),
        Some(_) => {
            return Err(TxnParseError::InvalidAmountField);
        },
    };
    let to = match field_get_ref(tx_fields, to_key.as_slice()) {
        None => {
            return Err(TxnParseError::NoToField);
        },
        Some(v) => match parse_to(v) {
            Ok(a) => a,
            Err(e) => {
                return Err(e);
            },
        },
    };
    let from = match field_get_ref(tx_fields, from_key.as_slice()) {
        None => {
            return Err(TxnParseError::NoFromField);
        },
        Some(v) => match parse_from(v) {
            Ok(a) => a,
            Err(e) => {
                return Err(e);
            },
        },
    };
    let memo = match field_get_ref(tx_fields, memo_key.as_slice()) {
        None => {
            return Err(TxnParseError::NoMemoField);
        },
        Some(Icrc3Value::Blob(m)) => {
            if m.len() == 32 {
                bytes_to_array32(m)
            } else {
                return Err(TxnParseError::InvalidMemoField);
            }
        },
        Some(_) => {
            return Err(TxnParseError::InvalidMemoField);
        },
    };
    Ok(
        TransferTxn {
            from,
            to,
            qty: EDs { val: amount, decimals: token_decimals },
            token_id: token_id.duplicate(),
            memo,
        },
    )
}

} // verus!
