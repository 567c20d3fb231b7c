//! Plain identity types shared across the hub: timestamps, shop ids, invoice
//! ids, principals, ledger accounts and token tickers, together with the byte
//! comparisons the verification logic relies on.

use vstd::prelude::*;

verus! {

pub type Timestamp = u64;

pub type ShopId = u64;

/// A 32-byte invoice identifier derived by hashing.
pub type InvoiceId = [u8; 32];

/// Compares two byte slices for equality.
pub fn bytes_eq(a: &[u8], b: &[u8]) -> (r: bool)
    ensures
        r == (a@ == b@),
{
    if a.len() != b.len() {
        return false;
    }
    let n = a.len();
    for i in 0..n
        invariant
            n == a@.len(),
            n == b@.len(),
            forall|j: int| 0 <= j < i ==> a@[j] == b@[j],
    {
        if a[i] != b[i] {
            return false;
        }
    }
    proof {
        assert(a@ =~= b@);
    }
    true
}

/// Compares two 32-byte identifiers for equality.
pub fn bytes32_eq(a: &[u8; 32], b: &[u8; 32]) -> (r: bool)
    ensures
        r == (a@ == b@),
{
    bytes_eq(a.as_slice(), b.as_slice())
}

/// Copies a byte vector element by element.
pub fn copy_bytes(src: &Vec<u8>) -> (r: Vec<u8>)
    ensures
        r@ == src@,
{
    let mut r: Vec<u8> = Vec::new();
    let n = src.len();
    for i in 0..n
        invariant
            n == src@.len(),
            r@ == src@.subrange(0, i as int),
    {
        r.push(src[i]);
        proof {
            assert(src@.subrange(0, i as int).push(src@[i as int]) =~= src@.subrange(
                0,
                i + 1 as int,
            ));
        }
    }
    proof {
        assert(src@.subrange(0, n as int) =~= src@);
    }
    r
}

/// A caller or canister identity: an opaque byte string.
#[derive(Debug)]
pub struct PrincipalData {
    pub bytes: Vec<u8>,
}

impl View for PrincipalData {
    type V = Seq<u8>;

    open spec fn view(&self) -> Seq<u8> {
        self.bytes@
    }
}

impl PrincipalData {
    pub fn new(bytes: Vec<u8>) -> (r: PrincipalData)
        ensures
            r@ == bytes@,
    {
        PrincipalData { bytes }
    }

    /// Equality of the underlying byte strings.
    pub fn eq_principal(&self, other: &PrincipalData) -> (r: bool)
        ensures
            r == (self@ == other@),
    {
        bytes_eq(self.bytes.as_slice(), other.bytes.as_slice())
    }

    /// A copy holding the same bytes.
    pub fn duplicate(&self) -> (r: PrincipalData)
        ensures
            r@ == self@,
    {
        PrincipalData { bytes: copy_bytes(&self.bytes) }
    }
}

/// The mathematical content of a ledger account: an owner principal and an
/// optional 32-byte subaccount.
pub ghost struct AccountView {
    pub owner: Seq<u8>,
    pub subaccount: Option<Seq<u8>>,
}

/// A ledger account: an owner principal plus an optional 32-byte subaccount.
#[derive(Debug)]
pub struct AccountData {
    pub owner: PrincipalData,
    pub subaccount: Option<[u8; 32]>,
}

impl View for AccountData {
    type V = AccountView;

    open spec fn view(&self) -> AccountView {
        AccountView {
            owner: self.owner@,
            subaccount: match self.subaccount {
                Some(s) => Some(s@),
                None => None,
            },
        }
    }
}

/// A token ticker symbol, held as its byte string.
#[derive(Debug)]
pub struct Ticker {
    pub bytes: Vec<u8>,
}

impl View for Ticker {
    type V = Seq<u8>;

    open spec fn view(&self) -> Seq<u8> {
        self.bytes@
    }
}

impl Ticker {
    pub fn new(bytes: Vec<u8>) -> (r: Ticker)
        ensures
            r@ == bytes@,
    {
        Ticker { bytes }
    }

    /// Equality of the underlying byte strings.
    pub fn eq_ticker(&self, other: &Ticker) -> (r: bool)
        ensures
            r == (self@ == other@),
    {
        bytes_eq(self.bytes.as_slice(), other.bytes.as_slice())
    }

    /// A copy holding the same bytes.
    pub fn duplicate(&self) -> (r: Ticker)
        ensures
            r@ == self@,
    {
        Ticker { bytes: copy_bytes(&self.bytes) }
    }
}

} // verus!
