//! Fixed-point decimal values: an arbitrary-precision non-negative magnitude
//! paired with a decimal-place count (the scale, 0 to 31).
//!
//! All binary operations demand equal scales and fail with
//! `DecimalError::IncompatibleScale` otherwise; `to_decimals` is the explicit
//! rescaling primitive, truncating toward zero when narrowing.  Multiplication
//! computes `(a * b) / 10^scale` and division `(a * 10^scale) / b`, both
//! truncating, with the intermediate product taken at full precision.

use vstd::prelude::*;

use crate::bignat::{
    big_add, big_div, big_eq, big_le, big_lt, big_mul, big_pow10, big_sqrt, big_sub, big_to_u64,
    big_value, pow10,
};

verus! {

pub const MAX_DECIMALS: u8 = 31;

/// The standard scale at which USD amounts are held.
pub const USD_DECIMALS: u8 = 8;

#[derive(Clone, Copy, PartialEq, Eq, Structural, Debug)]
pub enum DecimalError {
    /// The requested decimal-place count is above 31.
    InvalidScale,
    /// The two operands carry different decimal-place counts.
    IncompatibleScale,
}

/// The mathematical content of a decimal value: a magnitude counted in units
/// of 10^-scale.
pub ghost struct DecimalView {
    pub mag: nat,
    pub scale: nat,
}

/// Fixed-point decimal with a dynamic decimal-place count.
#[derive(Debug)]
pub struct EDs {
    pub val: num_bigint::BigUint,
    pub decimals: u8,
}

impl View for EDs {
    type V = DecimalView;

    open spec fn view(&self) -> DecimalView {
        DecimalView { mag: big_value(self.val), scale: self.decimals as nat }
    }
}

/// The sum, at the left operand's scale.
pub open spec fn dec_add(a: DecimalView, b: DecimalView) -> DecimalView {
    DecimalView { mag: a.mag + b.mag, scale: a.scale }
}

/// The difference, at the left operand's scale.
pub open spec fn dec_sub(a: DecimalView, b: DecimalView) -> DecimalView {
    DecimalView { mag: (a.mag - b.mag) as nat, scale: a.scale }
}

/// The product rescaled back down: `(a * b) / 10^scale`, truncated.
pub open spec fn dec_mul(a: DecimalView, b: DecimalView) -> DecimalView {
    DecimalView { mag: (a.mag * b.mag) / pow10(a.scale), scale: a.scale }
}

/// The quotient widened first: `(a * 10^scale) / b`, truncated.
pub open spec fn dec_div(a: DecimalView, b: DecimalView) -> DecimalView {
    DecimalView { mag: (a.mag * pow10(a.scale)) / b.mag, scale: a.scale }
}

/// Rescaling to `new_scale` decimal places: widening multiplies by a power of
/// ten, narrowing divides (truncating toward zero).
pub open spec fn dec_rescale(a: DecimalView, new_scale: nat) -> DecimalView {
    if new_scale >= a.scale {
        DecimalView { mag: a.mag * pow10((new_scale - a.scale) as nat), scale: new_scale }
    } else {
        DecimalView { mag: a.mag / pow10((a.scale - new_scale) as nat), scale: new_scale }
    }
}

/// The integer square root, rounded down.
pub open spec fn floor_sqrt(n: nat) -> nat
    decreases n,
{
    if n == 0 {
        0
    } else {
        let p = floor_sqrt((n - 1) as nat);
        if (p + 1) * (p + 1) <= n {
            p + 1
        } else {
            p
        }
    }
}

impl EDs {
    /// The scale stays within the supported range.
    pub open spec fn wf(&self) -> bool {
        self.decimals <= MAX_DECIMALS
    }

    /// Builds a decimal from a magnitude and a decimal-place count; counts
    /// above 31 are rejected.
    pub fn new(val: num_bigint::BigUint, decimals: u8) -> (r: Result<EDs, DecimalError>)
        ensures
            decimals <= MAX_DECIMALS ==> (r matches Ok(d) && d.wf() && d@ == (DecimalView {
                mag: big_value(val),
                scale: decimals as nat,
            })),
            decimals > MAX_DECIMALS ==> (r matches Err(e) && e == DecimalError::InvalidScale),
    {
        if decimals > MAX_DECIMALS {
            Err(DecimalError::InvalidScale)
        } else {
            Ok(EDs { val, decimals })
        }
    }

    /// The sum of two decimals of equal scale.
    pub fn add(&self, rhs: &EDs) -> (r: Result<EDs, DecimalError>)
        requires
            self.wf(),
            rhs.wf(),
        ensures
            self.decimals == rhs.decimals ==> (r matches Ok(d) && d.wf() && d@ == dec_add(
                self@,
                rhs@,
            )),
            self.decimals != rhs.decimals ==> (r matches Err(e) && e
                == DecimalError::IncompatibleScale),
    {
        if self.decimals != rhs.decimals {
            Err(DecimalError::IncompatibleScale)
        } else {
            Ok(EDs { val: big_add(&self.val, &rhs.val), decimals: self.decimals })
        }
    }

    /// The difference of two decimals of equal scale; the right operand must
    /// not exceed the left, since magnitudes are non-negative.
    pub fn sub(&self, rhs: &EDs) -> (r: Result<EDs, DecimalError>)
        requires
            self.wf(),
            rhs.wf(),
            self.decimals == rhs.decimals ==> rhs@.mag <= self@.mag,
        ensures
            self.decimals == rhs.decimals ==> (r matches Ok(d) && d.wf() && d@ == dec_sub(
                self@,
                rhs@,
            )),
            self.decimals != rhs.decimals ==> (r matches Err(e) && e
                == DecimalError::IncompatibleScale),
    {
        if self.decimals != rhs.decimals {
            Err(DecimalError::IncompatibleScale)
        } else {
            Ok(EDs { val: big_sub(&self.val, &rhs.val), decimals: self.decimals })
        }
    }

    /// The product of two decimals of equal scale, truncated to that scale.
    pub fn mul(&self, rhs: &EDs) -> (r: Result<EDs, DecimalError>)
        requires
            self.wf(),
            rhs.wf(),
        ensures
            self.decimals == rhs.decimals ==> (r matches Ok(d) && d.wf() && d@ == dec_mul(
                self@,
                rhs@,
            )),
            self.decimals != rhs.decimals ==> (r matches Err(e) && e
                == DecimalError::IncompatibleScale),
    {
        if self.decimals != rhs.decimals {
            Err(DecimalError::IncompatibleScale)
        } else {
            let base = big_pow10(self.decimals as u32);
            proof {
                crate::bignat::lemma_pow10_pos(self.decimals as nat);
            }
            let wide = big_mul(&self.val, &rhs.val);
            Ok(EDs { val: big_div(&wide, &base), decimals: self.decimals })
        }
    }

    /// The quotient of two decimals of equal scale, truncated to that scale;
    /// the divisor must be non-zero.
    pub fn div(&self, rhs: &EDs) -> (r: Result<EDs, DecimalError>)
        requires
            self.wf(),
            rhs.wf(),
            self.decimals == rhs.decimals ==> rhs@.mag > 0,
        ensures
            self.decimals == rhs.decimals ==> (r matches Ok(d) && d.wf() && d@ == dec_div(
                self@,
                rhs@,
            )),
            self.decimals != rhs.decimals ==> (r matches Err(e) && e
                == DecimalError::IncompatibleScale),
    {
        if self.decimals != rhs.decimals {
            Err(DecimalError::IncompatibleScale)
        } else {
            let base = big_pow10(self.decimals as u32);
            let wide = big_mul(&self.val, &base);
            Ok(EDs { val: big_div(&wide, &rhs.val), decimals: self.decimals })
        }
    }

    /// The magnitude multiplied by a plain integer, at the same scale.
    pub fn mul_u64(&self, rhs: u64) -> (r: EDs)
        requires
            self.wf(),
        ensures
            r.wf(),
            r@ == (DecimalView { mag: self@.mag * rhs as nat, scale: self@.scale }),
    {
        let factor = crate::bignat::big_from_u64(rhs);
        EDs { val: big_mul(&self.val, &factor), decimals: self.decimals }
    }

    /// The magnitude divided by a plain non-zero integer (truncating), at the
    /// same scale.
    pub fn div_u64(&self, rhs: u64) -> (r: EDs)
        requires
            self.wf(),
            rhs > 0,
        ensures
            r.wf(),
            r@ == (DecimalView { mag: self@.mag / rhs as nat, scale: self@.scale }),
    {
        let divisor = crate::bignat::big_from_u64(rhs);
        EDs { val: big_div(&self.val, &divisor), decimals: self.decimals }
    }

    /// Rescales to `new_decimals` decimal places, truncating toward zero when
    /// narrowing; counts above 31 are rejected.
    pub fn to_decimals(&self, new_decimals: u8) -> (r: Result<EDs, DecimalError>)
        requires
            self.wf(),
        ensures
            new_decimals <= MAX_DECIMALS ==> (r matches Ok(d) && d.wf() && d@ == dec_rescale(
                self@,
                new_decimals as nat,
            )),
            new_decimals > MAX_DECIMALS ==> (r matches Err(e) && e == DecimalError::InvalidScale),
    {
        if new_decimals > MAX_DECIMALS {
            Err(DecimalError::InvalidScale)
        } else if new_decimals == self.decimals {
            let copy = self.val.clone();
            proof {
                assert(pow10(0) == 1);
                assert(dec_rescale(self@, new_decimals as nat).mag == self@.mag * 1);
                assert(big_value(copy) == self@.mag);
            }
            Ok(EDs { val: copy, decimals: new_decimals })
        } else if new_decimals > self.decimals {
            let base = big_pow10((new_decimals - self.decimals) as u32);
            Ok(EDs { val: big_mul(&self.val, &base), decimals: new_decimals })
        } else {
            let base = big_pow10((self.decimals - new_decimals) as u32);
            proof {
                crate::bignat::lemma_pow10_pos((self.decimals - new_decimals) as nat);
            }
            Ok(EDs { val: big_div(&self.val, &base), decimals: new_decimals })
        }
    }

    /// The integer square root of the whole part, rescaled back up: an
    /// approximation that drops the fractional part first.
    pub fn sqrt(&self) -> (r: EDs)
        requires
            self.wf(),
        ensures
            r.wf(),
            r@.scale == self@.scale,
            r@.mag == floor_sqrt(self@.mag / pow10(self@.scale)) * pow10(self@.scale),
    {
        let base = big_pow10(self.decimals as u32);
        proof {
            crate::bignat::lemma_pow10_pos(self.decimals as nat);
        }
        let whole = big_div(&self.val, &base);
        let root = big_sqrt(&whole);
        proof {
            lemma_floor_sqrt_unique(big_value(whole), big_value(root));
        }
        EDs { val: big_mul(&root, &base), decimals: self.decimals }
    }

    /// Structural equality: same scale and same magnitude.
    pub fn eq_val(&self, rhs: &EDs) -> (r: bool)
        ensures
            r == (self@ == rhs@),
    {
        self.decimals == rhs.decimals && big_eq(&self.val, &rhs.val)
    }

    /// Magnitude order; meaningful only at equal scales.
    pub fn le(&self, rhs: &EDs) -> (r: bool)
        requires
            self.decimals == rhs.decimals,
        ensures
            r == (self@.mag <= rhs@.mag),
    {
        big_le(&self.val, &rhs.val)
    }

    /// Strict magnitude order; meaningful only at equal scales.
    pub fn lt(&self, rhs: &EDs) -> (r: bool)
        requires
            self.decimals == rhs.decimals,
        ensures
            r == (self@.mag < rhs@.mag),
    {
        big_lt(&self.val, &rhs.val)
    }

    /// The magnitude as a `u64`, when it fits.
    pub fn magnitude_u64(&self) -> (r: Option<u64>)
        ensures
            self@.mag <= u64::MAX ==> r == Some(self@.mag as u64),
            self@.mag > u64::MAX ==> r is None,
    {
        big_to_u64(&self.val)
    }
}

impl EDs {
    /// A decimal holding the plain integer `val` as its magnitude.
    pub fn from_u64(val: u64, decimals: u8) -> (r: EDs)
        requires
            decimals <= MAX_DECIMALS,
        ensures
            r.wf(),
            r@ == (DecimalView { mag: val as nat, scale: decimals as nat }),
    {
        EDs { val: crate::bignat::big_from_u64(val), decimals }
    }

    /// Zero at the given scale.
    pub fn zero(decimals: u8) -> (r: EDs)
        requires
            decimals <= MAX_DECIMALS,
        ensures
            r.wf(),
            r@ == (DecimalView { mag: 0, scale: decimals as nat }),
    {
        EDs { val: crate::bignat::big_from_u64(0), decimals }
    }

    /// One whole unit at the given scale.
    pub fn one(decimals: u8) -> (r: EDs)
        requires
            decimals <= MAX_DECIMALS,
        ensures
            r.wf(),
            r@ == (DecimalView { mag: pow10(decimals as nat), scale: decimals as nat }),
    {
        EDs { val: big_pow10(decimals as u32), decimals }
    }

    /// Two whole units at the given scale.
    pub fn two(decimals: u8) -> (r: EDs)
        requires
            decimals <= MAX_DECIMALS,
        ensures
            r.wf(),
            r@ == (DecimalView { mag: 2 * pow10(decimals as nat), scale: decimals as nat }),
    {
        let r = EDs::one(decimals).mul_u64(2);
        proof {
            assert(pow10(decimals as nat) * 2 == 2 * pow10(decimals as nat));
        }
        r
    }

    /// A whole unit scaled by `num / den`: the common fraction constructors
    /// below all route through this.
    fn fraction(decimals: u8, num: u64, den: u64) -> (r: EDs)
        requires
            decimals <= MAX_DECIMALS,
            den > 0,
        ensures
            r.wf(),
            r@ == (DecimalView {
                mag: pow10(decimals as nat) * num as nat / den as nat,
                scale: decimals as nat,
            }),
    {
        EDs::one(decimals).mul_u64(num).div_u64(den)
    }

    /// One tenth of a unit (truncated at scale zero).
    pub fn f0_1(decimals: u8) -> (r: EDs)
        requires
            decimals <= MAX_DECIMALS,
        ensures
            r.wf(),
            r@ == (DecimalView {
                mag: pow10(decimals as nat) / 10,
                scale: decimals as nat,
            }),
    {
        let r = EDs::fraction(decimals, 1, 10);
        proof {
            assert(pow10(decimals as nat) * 1 == pow10(decimals as nat));
        }
        r
    }

    /// A fifth of a unit.
    pub fn f0_2(decimals: u8) -> (r: EDs)
        requires
            decimals <= MAX_DECIMALS,
        ensures
            r.wf(),
            r@ == (DecimalView { mag: pow10(decimals as nat) / 5, scale: decimals as nat }),
    {
        let r = EDs::fraction(decimals, 1, 5);
        proof {
            assert(pow10(decimals as nat) * 1 == pow10(decimals as nat));
        }
        r
    }

    /// A quarter of a unit.
    pub fn f0_25(decimals: u8) -> (r: EDs)
        requires
            decimals <= MAX_DECIMALS,
        ensures
            r.wf(),
            r@ == (DecimalView { mag: pow10(decimals as nat) / 4, scale: decimals as nat }),
    {
        let r = EDs::fraction(decimals, 1, 4);
        proof {
            assert(pow10(decimals as nat) * 1 == pow10(decimals as nat));
        }
        r
    }

    /// Three tenths of a unit.
    pub fn f0_3(decimals: u8) -> (r: EDs)
        requires
            decimals <= MAX_DECIMALS,
        ensures
            r.wf(),
            r@ == (DecimalView {
                mag: pow10(decimals as nat) * 3 / 10,
                scale: decimals as nat,
            }),
    {
        EDs::fraction(decimals, 3, 10)
    }

    /// A third of a unit (truncated).
    pub fn f0_33(decimals: u8) -> (r: EDs)
        requires
            decimals <= MAX_DECIMALS,
        ensures
            r.wf(),
            r@ == (DecimalView { mag: pow10(decimals as nat) / 3, scale: decimals as nat }),
    {
        let r = EDs::fraction(decimals, 1, 3);
        proof {
            assert(pow10(decimals as nat) * 1 == pow10(decimals as nat));
        }
        r
    }

    /// Two fifths of a unit.
    pub fn f0_4(decimals: u8) -> (r: EDs)
        requires
            decimals <= MAX_DECIMALS,
        ensures
            r.wf(),
            r@ == (DecimalView {
                mag: pow10(decimals as nat) * 2 / 5,
                scale: decimals as nat,
            }),
    {
        EDs::fraction(decimals, 2, 5)
    }

    /// Half a unit.
    pub fn f0_5(decimals: u8) -> (r: EDs)
        requires
            decimals <= MAX_DECIMALS,
        ensures
            r.wf(),
            r@ == (DecimalView { mag: pow10(decimals as nat) / 2, scale: decimals as nat }),
    {
        let r = EDs::fraction(decimals, 1, 2);
        proof {
            assert(pow10(decimals as nat) * 1 == pow10(decimals as nat));
        }
        r
    }

    /// Three fifths of a unit.
    pub fn f0_6(decimals: u8) -> (r: EDs)
        requires
            decimals <= MAX_DECIMALS,
        ensures
            r.wf(),
            r@ == (DecimalView {
                mag: pow10(decimals as nat) * 3 / 5,
                scale: decimals as nat,
            }),
    {
        EDs::fraction(decimals, 3, 5)
    }

    /// Two thirds of a unit (truncated).
    pub fn f0_67(decimals: u8) -> (r: EDs)
        requires
            decimals <= MAX_DECIMALS,
        ensures
            r.wf(),
            r@ == (DecimalView {
                mag: pow10(decimals as nat) * 2 / 3,
                scale: decimals as nat,
            }),
    {
        EDs::fraction(decimals, 2, 3)
    }

    /// Seven tenths of a unit.
    pub fn f0_7(decimals: u8) -> (r: EDs)
        requires
            decimals <= MAX_DECIMALS,
        ensures
            r.wf(),
            r@ == (DecimalView {
                mag: pow10(decimals as nat) * 7 / 10,
                scale: decimals as nat,
            }),
    {
        EDs::fraction(decimals, 7, 10)
    }

    /// Three quarters of a unit.
    pub fn f0_75(decimals: u8) -> (r: EDs)
        requires
            decimals <= MAX_DECIMALS,
        ensures
            r.wf(),
            r@ == (DecimalView {
                mag: pow10(decimals as nat) * 3 / 4,
                scale: decimals as nat,
            }),
    {
        EDs::fraction(decimals, 3, 4)
    }

    /// Four fifths of a unit.
    pub fn f0_8(decimals: u8) -> (r: EDs)
        requires
            decimals <= MAX_DECIMALS,
        ensures
            r.wf(),
            r@ == (DecimalView {
                mag: pow10(decimals as nat) * 4 / 5,
                scale: decimals as nat,
            }),
    {
        EDs::fraction(decimals, 4, 5)
    }

    /// Nine tenths of a unit.
    pub fn f0_9(decimals: u8) -> (r: EDs)
        requires
            decimals <= MAX_DECIMALS,
        ensures
            r.wf(),
            r@ == (DecimalView {
                mag: pow10(decimals as nat) * 9 / 10,
                scale: decimals as nat,
            }),
    {
        EDs::fraction(decimals, 9, 10)
    }
}

impl Clone for EDs {
    /// The clone holds the same magnitude and scale.
    fn clone(&self) -> (r: Self)
        ensures
            r == *self,
    {
        EDs { val: self.val.clone(), decimals: self.decimals }
    }
}

/// `floor_sqrt` is what its name says: its square is at most `n`, and the next
/// square is above `n`.
pub proof fn lemma_floor_sqrt(n: nat)
    ensures
        floor_sqrt(n) * floor_sqrt(n) <= n,
        n < (floor_sqrt(n) + 1) * (floor_sqrt(n) + 1),
    decreases n,
{
    if n > 0 {
        let p = floor_sqrt((n - 1) as nat);
        lemma_floor_sqrt((n - 1) as nat);
        assert(floor_sqrt(n) == if (p + 1) * (p + 1) <= n {
            p + 1
        } else {
            p
        }) by {
            reveal_with_fuel(floor_sqrt, 2);
        }
        if (p + 1) * (p + 1) <= n {
            assert(floor_sqrt(n) == p + 1);
            assert(n - 1 < (p + 1) * (p + 1));
            assert(n <= (p + 1) * (p + 1));
            assert(n == (p + 1) * (p + 1));
            assert((p + 1) * (p + 1) < (p + 2) * (p + 2)) by (nonlinear_arith);
            assert(floor_sqrt(n) * floor_sqrt(n) <= n);
            assert(floor_sqrt(n) + 1 == p + 2);
            assert(n < (p + 2) * (p + 2));
            assert(n < (floor_sqrt(n) + 1) * (floor_sqrt(n) + 1));
        } else {
            assert(floor_sqrt(n) == p);
            assert(p * p <= n - 1);
            assert(floor_sqrt(n) * floor_sqrt(n) <= n);
            assert(n < (p + 1) * (p + 1));
            assert(n < (floor_sqrt(n) + 1) * (floor_sqrt(n) + 1));
        }
    } else {
        assert(n == 0);
        assert(floor_sqrt(n) == 0);
        assert(floor_sqrt(n) * floor_sqrt(n) <= n);
        assert(n < (floor_sqrt(n) + 1) * (floor_sqrt(n) + 1)) by (nonlinear_arith)
            requires
                n == 0,
                floor_sqrt(n) == 0,
        ;
    }
}

/// Law: for decimals of equal scale, adding `b` and then subtracting `b`
/// returns the left operand exactly.
pub proof fn lemma_add_sub_round_trip(a: DecimalView, b: DecimalView)
    requires
        a.scale == b.scale,
    ensures
        dec_sub(dec_add(a, b), b) == a,
{
    assert(dec_sub(dec_add(a, b), b).mag == a.mag);
}

/// Law: for decimals of equal scale with `b` non-zero, multiplying by `b` and
/// then dividing by `b` returns the left operand up to the truncation in the
/// product: exactly `a` minus the truncated part divided (rounded up) by `b`.
/// The result never overshoots, and when `b` is at least one whole unit it is
/// short by at most one unit in the last place.  (For `b` below one unit the
/// truncation in the product can cost more than one unit.)
pub proof fn lemma_mul_div_round_trip(a: DecimalView, b: DecimalView)
    requires
        a.scale == b.scale,
        b.mag > 0,
    ensures
        dec_div(dec_mul(a, b), b).scale == a.scale,
        dec_div(dec_mul(a, b), b).mag == a.mag - ((a.mag * b.mag) % pow10(a.scale) + b.mag - 1) / (
        b.mag as int),
        dec_div(dec_mul(a, b), b).mag <= a.mag,
        b.mag >= pow10(a.scale) ==> a.mag - dec_div(dec_mul(a, b), b).mag <= 1,
{
    let base = pow10(a.scale) as int;
    let am = a.mag as int;
    let bm = b.mag as int;
    let ab = am * bm;
    let m = ab / base;
    let q = (m * base) / bm;
    crate::bignat::lemma_pow10_pos(a.scale);
    assert(dec_mul(a, b).mag == m);
    assert(dec_div(dec_mul(a, b), b).mag == q);

    vstd::arithmetic::div_mod::lemma_fundamental_div_mod(ab, base);
    vstd::arithmetic::mul::lemma_mul_nonnegative(am, bm);
    assert(0 <= ab % base < base);
    assert(m * base == ab - ab % base) by (nonlinear_arith)
        requires
            ab == base * m + ab % base,
    ;
    assert(m * base <= ab);
    vstd::arithmetic::div_mod::lemma_div_is_ordered(m * base, ab, bm);
    vstd::arithmetic::div_mod::lemma_div_multiples_vanish(am, bm);
    vstd::arithmetic::mul::lemma_mul_is_commutative(am, bm);
    assert(ab == bm * am);
    assert(q <= am);

    if b.mag >= pow10(a.scale) {
        let s = ab % base;
        assert(s < bm);
        assert(m * base >= ab - (bm - 1));
        assert(ab - (bm - 1) == (am - 1) * bm + 1) by (nonlinear_arith)
            requires
                ab == am * bm,
        ;
        vstd::arithmetic::div_mod::lemma_div_is_ordered((am - 1) * bm, m * base, bm);
        vstd::arithmetic::div_mod::lemma_div_multiples_vanish(am - 1, bm);
        assert((am - 1) * bm == bm * (am - 1));
        assert(q >= am - 1);
    }
    // The exact form: q == am - ceil(s / bm) where s is the part the product
    // truncated away.
    let s = ab % base;
    let t = (s + bm - 1) / bm;
    vstd::arithmetic::div_mod::lemma_fundamental_div_mod(s + bm - 1, bm);
    assert(bm * t == s + bm - 1 - ((s + bm - 1) % bm));
    assert(bm * t >= s);
    assert(bm * t <= s + bm - 1);
    assert(m * base == ab - s);
    assert(ab - s == (am - t) * bm + (bm * t - s)) by (nonlinear_arith)
        requires
            ab == am * bm,
    ;
    assert(0 <= bm * t - s < bm);
    vstd::arithmetic::div_mod::lemma_fundamental_div_mod_converse(
        ab - s,
        bm,
        am - t,
        bm * t - s,
    );
    assert(q == am - t);
}

/// Law: rescaling a decimal to `n` places and back to its original scale never
/// increases the magnitude; when `n` widens (adds places) the round trip is
/// exact.
pub proof fn lemma_rescale_round_trip(a: DecimalView, n: nat)
    ensures
        dec_rescale(dec_rescale(a, n), a.scale).scale == a.scale,
        dec_rescale(dec_rescale(a, n), a.scale).mag <= a.mag,
        n >= a.scale ==> dec_rescale(dec_rescale(a, n), a.scale) == a,
{
    if n == a.scale {
        assert(pow10(0) == 1);
        let widened = dec_rescale(a, n);
        assert(widened.mag == a.mag * 1);
        assert(dec_rescale(widened, a.scale).mag == widened.mag * 1);
    } else if n > a.scale {
        let p = pow10((n - a.scale) as nat) as int;
        crate::bignat::lemma_pow10_pos((n - a.scale) as nat);
        let widened = dec_rescale(a, n);
        assert(widened.mag == a.mag * pow10((n - a.scale) as nat));
        assert(widened.scale == n);
        assert(dec_rescale(widened, a.scale).mag == widened.mag / pow10((n - a.scale) as nat));
        vstd::arithmetic::div_mod::lemma_div_multiples_vanish(a.mag as int, p);
        vstd::arithmetic::mul::lemma_mul_is_commutative(a.mag as int, p);
        assert(dec_rescale(dec_rescale(a, n), a.scale).mag == a.mag);
    } else {
        let p = pow10((a.scale - n) as nat) as int;
        crate::bignat::lemma_pow10_pos((a.scale - n) as nat);
        let narrowed = dec_rescale(a, n);
        assert(narrowed.mag == a.mag as int / p);
        assert(dec_rescale(narrowed, a.scale).mag == (a.mag as int / p) * p);
        vstd::arithmetic::div_mod::lemma_fundamental_div_mod(a.mag as int, p);
        assert(0 <= a.mag as int % p);
        assert((a.mag as int / p) * p == p * (a.mag as int / p));
        assert((a.mag as int / p) * p <= a.mag);
    }
}

/// Any root satisfying the floor-square-root bounds is `floor_sqrt`.
pub proof fn lemma_floor_sqrt_unique(n: nat, r: nat)
    requires
        r * r <= n,
        n < (r + 1) * (r + 1),
    ensures
        r == floor_sqrt(n),
{
    let f = floor_sqrt(n);
    lemma_floor_sqrt(n);
    if r < f {
        assert((r + 1) * (r + 1) <= f * f) by (nonlinear_arith)
            requires
                r + 1 <= f,
        ;
    }
    if f < r {
        assert((f + 1) * (f + 1) <= r * r) by (nonlinear_arith)
            requires
                f + 1 <= r,
        ;
    }
}

} // verus!
