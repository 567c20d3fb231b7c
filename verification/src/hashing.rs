//! Deterministic identifiers derived by hashing: invoice ids, per-invoice
//! memos and per-shop subaccounts.  Each derivation prefixes a fixed
//! domain-separation tag so that the three families of values can never
//! collide with one another.
//!
//! The hash itself is SHA-256, provided by the `sha2` crate behind a trusted
//! wrapper.

use vstd::prelude::*;

verus! {

/// The SHA-256 digest of a byte sequence.  The digest is a function of the
/// input alone, identical in every process and on every machine.
pub uninterp spec fn sha256_of(input: Seq<u8>) -> Seq<u8>;

/// Relies on `sha2::Sha256` via `Digest::digest`: the digest depends on the
/// input bytes alone and is exactly 32 bytes long.
#[verifier::external_body]
pub(crate) fn sha256(input: &Vec<u8>) -> (r: [u8; 32])
    ensures
        r@ == sha256_of(input@),
{
    let digest = <sha2::Sha256 as sha2::Digest>::digest(input.as_slice());
    digest.into()
}

/// The domain tag mixed into invoice-id generation (ASCII
/// `msq-id-generation`).
pub open spec fn id_generation_domain() -> Seq<u8> {
    seq![109u8, 115, 113, 45, 105, 100, 45, 103, 101, 110, 101, 114, 97, 116, 105, 111, 110]
}

/// The domain tag mixed into invoice memos (ASCII `msq-memo_generation`).
pub open spec fn memo_generation_domain() -> Seq<u8> {
    seq![109u8, 115, 113, 45, 109, 101, 109, 111, 95, 103, 101, 110, 101, 114, 97, 116, 105, 111, 110]
}

/// The domain tag mixed into shop subaccounts (ASCII
/// `msq-shop-id-subaccount`).
pub open spec fn shop_subaccount_domain() -> Seq<u8> {
    seq![109u8, 115, 113, 45, 115, 104, 111, 112, 45, 105, 100, 45, 115, 117, 98, 97, 99, 99, 111, 117, 110, 116]
}

/// Appends every byte of `src` to `dst`.
pub fn append_bytes(dst: &mut Vec<u8>, src: &[u8])
    ensures
        final(dst)@ == old(dst)@ + src@,
{
    let n = src.len();
    let ghost start = dst@;
    for i in 0..n
        invariant
            n == src@.len(),
            dst@ == start + src@.subrange(0, i as int),
    {
        dst.push(src[i]);
        proof {
            assert(start + src@.subrange(0, i as int) + seq![src@[i as int]] =~= start
                + src@.subrange(0, i + 1 as int));
        }
    }
    proof {
        assert(src@.subrange(0, n as int) =~= src@);
    }
}

/// Appends every byte of a 32-byte array to `dst`.
pub fn append_bytes32(dst: &mut Vec<u8>, src: &[u8; 32])
    ensures
        final(dst)@ == old(dst)@ + src@,
{
    let ghost start = dst@;
    for i in 0..32usize
        invariant
            dst@ == start + src@.subrange(0, i as int),
    {
        dst.push(src[i]);
        proof {
            assert(start + src@.subrange(0, i as int) + seq![src@[i as int]] =~= start
                + src@.subrange(0, i + 1 as int));
        }
    }
    proof {
        assert(src@.subrange(0, 32) =~= src@);
    }
}

/// The id derived from the generator state and a creation timestamp:
/// `sha256(generator || id-domain || timestamp-le-bytes)`.
pub open spec fn invoice_id_of(generator: Seq<u8>, timestamp: u64) -> Seq<u8> {
    sha256_of(generator + id_generation_domain() + vstd::bytes::spec_u64_to_le_bytes(timestamp))
}

/// The memo binding a transfer to one invoice:
/// `sha256(memo-domain || invoice-id)`.
pub open spec fn invoice_memo_of(id: Seq<u8>) -> Seq<u8> {
    sha256_of(memo_generation_domain() + id)
}

/// The subaccount routing funds to one shop:
/// `sha256(subaccount-domain || shop-id-le-bytes)`.
pub open spec fn shop_subaccount_of(shop_id: u64) -> Seq<u8> {
    sha256_of(shop_subaccount_domain() + vstd::bytes::spec_u64_to_le_bytes(shop_id))
}

fn id_generation_domain_vec() -> (r: Vec<u8>)
    ensures
        r@ == id_generation_domain(),
{
    let r: Vec<u8> = vec![109u8, 115, 113, 45, 105, 100, 45, 103, 101, 110, 101, 114, 97, 116, 105, 111, 110];
    proof {
        assert(r@ =~= id_generation_domain());
    }
    r
}

fn memo_generation_domain_vec() -> (r: Vec<u8>)
    ensures
        r@ == memo_generation_domain(),
{
    let r: Vec<u8> = vec![109u8, 115, 113, 45, 109, 101, 109, 111, 95, 103, 101, 110, 101, 114, 97, 116, 105, 111, 110];
    proof {
        assert(r@ =~= memo_generation_domain());
    }
    r
}

fn shop_subaccount_domain_vec() -> (r: Vec<u8>)
    ensures
        r@ == shop_subaccount_domain(),
{
    let r: Vec<u8> = vec![109u8, 115, 113, 45, 115, 104, 111, 112, 45, 105, 100, 45, 115, 117, 98, 97, 99, 99, 111, 117, 110, 116];
    proof {
        assert(r@ =~= shop_subaccount_domain());
    }
    r
}

/// Derives a fresh invoice id from the generator state and the creation time.
pub fn derive_invoice_id(generator: &[u8; 32], timestamp: u64) -> (r: [u8; 32])
    ensures
        r@ == invoice_id_of(generator@, timestamp),
{
    let mut buf: Vec<u8> = Vec::new();
    append_bytes32(&mut buf, generator);
    let domain = id_generation_domain_vec();
    append_bytes(&mut buf, domain.as_slice());
    let ts = vstd::bytes::u64_to_le_bytes(timestamp);
    append_bytes(&mut buf, ts.as_slice());
    proof {
        assert(buf@ =~= generator@ + id_generation_domain()
            + vstd::bytes::spec_u64_to_le_bytes(timestamp));
    }
    sha256(&buf)
}

/// Derives the memo a paying transfer must carry for the invoice `id`.
pub fn make_invoice_memo(id: &[u8; 32]) -> (r: [u8; 32])
    ensures
        r@ == invoice_memo_of(id@),
{
    let mut buf = memo_generation_domain_vec();
    append_bytes32(&mut buf, id);
    sha256(&buf)
}

/// Derives the subaccount a paying transfer must target for the shop.
pub fn calc_shop_subaccount(shop_id: u64) -> (r: [u8; 32])
    ensures
        r@ == shop_subaccount_of(shop_id),
{
    let mut buf = shop_subaccount_domain_vec();
    let idb = vstd::bytes::u64_to_le_bytes(shop_id);
    append_bytes(&mut buf, idb.as_slice());
    sha256(&buf)
}

} // verus!
