//! The arithmetic of a profit withdrawal: the fee split between the shop
//! owner, the platform fee collector and the referrer, and the ledger-block
//! search decisions; the transfers themselves are message calls outside this
//! library.

use vstd::prelude::*;

use crate::bignat::{big_eq, big_value};
use crate::decimal::EDs;

verus! {

/// How a withdrawal of `qty` splits: the owner's payout, the platform fee
/// and the referrer's fee.  With both a fee collector and a referrer, the
/// owner takes 97%, the platform 80% of the remainder and the referrer the
/// rest; with only one of the two, that one takes the whole remainder; with
/// neither, the owner takes everything.  The three parts always sum to
/// `qty` exactly.
pub fn compute_withdrawal_split(qty: &EDs, has_fee_collector: bool, has_referral: bool) -> (r: (
    EDs,
    EDs,
    EDs,
))
    requires
        qty.wf(),
    ensures
        r.0.wf() && r.1.wf() && r.2.wf(),
        r.0@.scale == qty@.scale && r.1@.scale == qty@.scale && r.2@.scale == qty@.scale,
        r.0@.mag + r.1@.mag + r.2@.mag == qty@.mag,
        (has_fee_collector || has_referral) ==> r.0@.mag == qty@.mag * 97 / 100,
        !(has_fee_collector || has_referral) ==> r.0@.mag == qty@.mag && r.1@.mag == 0 && r.2@.mag
            == 0,
        has_fee_collector && has_referral ==> r.1@.mag == (qty@.mag - qty@.mag * 97 / 100) * 80
            / 100,
        has_fee_collector && !has_referral ==> r.1@.mag == qty@.mag - qty@.mag * 97 / 100
            && r.2@.mag == 0,
        !has_fee_collector && has_referral ==> r.1@.mag == 0 && r.2@.mag == qty@.mag - qty@.mag
            * 97 / 100,
{
    if !has_fee_collector && !has_referral {
        let zero1 = EDs { val: crate::bignat::big_from_u64(0), decimals: qty.decimals };
        let zero2 = EDs { val: crate::bignat::big_from_u64(0), decimals: qty.decimals };
        return (qty.clone(), zero1, zero2);
    }
    let withdraw = qty.mul_u64(97).div_u64(100);
    proof {
        lemma_mul_div_le(qty@.mag, 97, 100);
    }
    let remainder = match qty.sub(&withdraw) {
        Ok(v) => v,
        Err(_) => {
            proof {
                assert(false);
            }
            (EDs { val: crate::bignat::big_from_u64(0), decimals: qty.decimals })
        },
    };
    if has_fee_collector && has_referral {
        let fee = remainder.mul_u64(80).div_u64(100);
        proof {
            lemma_mul_div_le(remainder@.mag, 80, 100);
        }
        let referral_fee = match remainder.sub(&fee) {
            Ok(v) => v,
            Err(_) => {
                proof {
                    assert(false);
                }
                (EDs { val: crate::bignat::big_from_u64(0), decimals: qty.decimals })
            },
        };
        (withdraw, fee, referral_fee)
    } else if has_fee_collector {
        let zero = EDs { val: crate::bignat::big_from_u64(0), decimals: qty.decimals };
        (withdraw, remainder, zero)
    } else {
        let zero = EDs { val: crate::bignat::big_from_u64(0), decimals: qty.decimals };
        (withdraw, zero, remainder)
    }
}

/// `(x * a) / b <= x` whenever `a <= b` and `b > 0`.
proof fn lemma_mul_div_le(x: nat, a: nat, b: nat)
    requires
        0 < b,
        a <= b,
    ensures
        x * a / b <= x,
{
    vstd::arithmetic::mul::lemma_mul_inequality(a as int, b as int, x as int);
    vstd::arithmetic::mul::lemma_mul_is_commutative(x as int, a as int);
    vstd::arithmetic::mul::lemma_mul_is_commutative(x as int, b as int);
    vstd::arithmetic::div_mod::lemma_div_is_ordered(x * a as int, x * b as int, b as int);
    vstd::arithmetic::div_mod::lemma_div_multiples_vanish(x as int, b as int);
}

/// Whether a withdrawal of `qty` covers the minimum: six times the token's
/// transfer fee, both at the token's scale.
pub fn meets_withdrawal_minimum(qty: &EDs, system_fee: &EDs) -> (r: bool)
    requires
        qty.wf(),
        system_fee.wf(),
        qty@.scale == system_fee@.scale,
    ensures
        r == (qty@.mag >= system_fee@.mag * 6),
{
    let min_qty = system_fee.mul_u64(6);
    !qty.lt(&min_qty)
}

/// What to do with one ledger response while hunting for a block: follow
/// the archive pointer when the block is missing, give up when there is
/// none, and accept the block only under the requested index.
#[derive(Clone, Copy, PartialEq, Eq, Structural, Debug)]
pub enum BlockFetchStep {
    /// No block came back; ask the archive the response points at.
    FollowArchive,
    /// No block and no archive to follow: the search fails.
    NoArchive,
    /// A block came back under a different index: the ledger misbehaved.
    WrongId,
    /// The requested block was found.
    Found,
}

/// Decides the next step of the block search from one ledger response.
pub fn classify_block_fetch(
    block_id: Option<&num_bigint::BigUint>,
    requested: &num_bigint::BigUint,
    have_archive: bool,
) -> (r: BlockFetchStep)
    ensures
        match block_id {
            None => r == if have_archive {
                BlockFetchStep::FollowArchive
            } else {
                BlockFetchStep::NoArchive
            },
            Some(id) => r == if big_value(*id) == big_value(*requested) {
                BlockFetchStep::Found
            } else {
                BlockFetchStep::WrongId
            },
        },
{
    match block_id {
        None => if have_archive {
            BlockFetchStep::FollowArchive
        } else {
            BlockFetchStep::NoArchive
        },
        Some(id) => if big_eq(id, requested) {
            BlockFetchStep::Found
        } else {
            BlockFetchStep::WrongId
        },
    }
}

} // verus!
