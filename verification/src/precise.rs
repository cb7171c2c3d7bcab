//! Precision-aware scalar arithmetic.
//!
//! Each operation scales its operands to integers by their decimal-place
//! counts, combines the integer mantissas exactly, and rescales the result
//! to canonical form. Because the mantissas already are integers, the
//! scale-to-integer step of the sum and the truncation step of the product
//! are exact here; only the capacity of the machine word limits the inputs,
//! and the preconditions state exactly that the result is representable.

use vstd::arithmetic::div_mod::lemma_fundamental_div_mod;
use vstd::arithmetic::div_mod::lemma_fundamental_div_mod_converse;
use vstd::prelude::*;

use crate::digits::dec_fits;
use crate::digits::dec_from_scaled;
use crate::digits::lemma_norm_canonical;
use crate::digits::lemma_norm_neg;
use crate::digits::lemma_norm_value;
use crate::digits::max_places;
use crate::digits::norm_spec;
use crate::digits::Dec;
use crate::pow::lemma_pow10_18;
use crate::pow::lemma_pow10_adds;
use crate::pow::lemma_pow10_increases;
use crate::pow::lemma_pow10_pos;
use crate::pow::pow10;
use crate::pow::pow10_i128;

verus! {

/// The decimal zero.
pub open spec fn dec_zero() -> Dec {
    Dec { mantissa: 0, places: 0 }
}

/// The decimal one.
pub open spec fn dec_one() -> Dec {
    Dec { mantissa: 1, places: 0 }
}

/// The common power of ten both operands are aligned to: the larger of the
/// two decimal-place counts.
pub open spec fn hi_places(ap: nat, bp: nat) -> nat {
    if ap >= bp {
        ap
    } else {
        bp
    }
}

/// Both mantissas brought to the common scale and added; this integer sum
/// is exact.
pub open spec fn aligned_sum(a: Dec, b: Dec) -> int {
    let hi = hi_places(a.places as nat, b.places as nat);
    a.mantissa * pow10((hi - a.places) as nat) + b.mantissa * pow10((hi - b.places) as nat)
}

/// The sum as a canonical mantissa/places pair.
pub open spec fn add_full(a: Dec, b: Dec) -> (int, nat) {
    norm_spec(aligned_sum(a, b), hi_places(a.places as nat, b.places as nat))
}

/// The sum is representable: its canonical mantissa fits the machine word.
pub open spec fn add_pre(a: Dec, b: Dec) -> bool {
    dec_fits(add_full(a, b).0)
}

/// The sum as a decimal.
pub open spec fn add_spec(a: Dec, b: Dec) -> Dec {
    Dec { mantissa: add_full(a, b).0 as i64, places: add_full(a, b).1 as u32 }
}

/// Sign negation of a decimal.
pub open spec fn neg_spec(d: Dec) -> Dec {
    Dec { mantissa: (-(d.mantissa as int)) as i64, places: d.places }
}

/// The difference `a - b`, defined as the sum of `a` and `-b`.
pub open spec fn sub_full(a: Dec, b: Dec) -> (int, nat) {
    add_full(a, neg_spec(b))
}

pub open spec fn sub_pre(a: Dec, b: Dec) -> bool {
    add_pre(a, neg_spec(b))
}

pub open spec fn sub_spec(a: Dec, b: Dec) -> Dec {
    add_spec(a, neg_spec(b))
}

/// The product as a canonical mantissa/places pair: mantissas multiply,
/// decimal-place counts add.
pub open spec fn mul_full(a: Dec, b: Dec) -> (int, nat) {
    norm_spec(a.mantissa * b.mantissa, (a.places + b.places) as nat)
}

/// The product is representable: the combined scale stays capped and the
/// canonical mantissa fits the machine word.
pub open spec fn mul_pre(a: Dec, b: Dec) -> bool {
    &&& a.places + b.places <= max_places()
    &&& dec_fits(mul_full(a, b).0)
}

/// The product as a decimal.
pub open spec fn mul_spec(a: Dec, b: Dec) -> Dec {
    Dec { mantissa: mul_full(a, b).0 as i64, places: mul_full(a, b).1 as u32 }
}

/// Negating a mantissa keeps it off the multiples of ten.
proof fn lemma_mod10_neg(m: int)
    ensures
        (m % 10 == 0) <==> ((-m) % 10 == 0),
{
    lemma_fundamental_div_mod(m, 10);
    let q = m / 10;
    let r = m % 10;
    if r == 0 {
        assert(-m == (-q) * 10 + 0) by (nonlinear_arith)
            requires
                m == 10 * q,
        ;
        lemma_fundamental_div_mod_converse(-m, 10, -q, 0);
    } else {
        assert(-m == (-q - 1) * 10 + (10 - r)) by (nonlinear_arith)
            requires
                m == 10 * q + r,
        ;
        lemma_fundamental_div_mod_converse(-m, 10, -q - 1, 10 - r);
    }
}

/// Sign negation, exact and canonical.
pub fn dec_neg(d: Dec) -> (r: Dec)
    requires
        d.wf(),
    ensures
        r == neg_spec(d),
        r.wf(),
        r.mantissa as int == -(d.mantissa as int),
        r.places == d.places,
{
    proof {
        lemma_mod10_neg(d.mantissa as int);
    }
    Dec { mantissa: -d.mantissa, places: d.places }
}

/// Precision-aware addition: align both operands to the larger
/// decimal-place count, add the integer-scaled mantissas exactly, and
/// rescale to canonical form.
pub fn precise_add(a: Dec, b: Dec) -> (r: Dec)
    requires
        a.wf(),
        b.wf(),
        add_pre(a, b),
    ensures
        r == add_spec(a, b),
        (r.mantissa as int, r.places as nat) == add_full(a, b),
        r.wf(),
{
    let hi: u32 = if a.places >= b.places {
        a.places
    } else {
        b.places
    };
    let pa: i128 = pow10_i128(hi - a.places);
    let pb: i128 = pow10_i128(hi - b.places);
    proof {
        lemma_pow10_18();
        lemma_pow10_increases((hi - a.places) as nat, 18);
        lemma_pow10_increases((hi - b.places) as nat, 18);
        assert(-9223372036854775807000000000000000000 <= (a.mantissa as int) * (pa as int)
            <= 9223372036854775807000000000000000000) by (nonlinear_arith)
            requires
                -0x7fff_ffff_ffff_ffff <= a.mantissa as int <= 0x7fff_ffff_ffff_ffff,
                1 <= pa as int <= 1000000000000000000,
        ;
        assert(-9223372036854775807000000000000000000 <= (b.mantissa as int) * (pb as int)
            <= 9223372036854775807000000000000000000) by (nonlinear_arith)
            requires
                -0x7fff_ffff_ffff_ffff <= b.mantissa as int <= 0x7fff_ffff_ffff_ffff,
                1 <= pb as int <= 1000000000000000000,
        ;
    }
    let sa: i128 = (a.mantissa as i128) * pa;
    let sb: i128 = (b.mantissa as i128) * pb;
    let sum: i128 = sa + sb;
    dec_from_scaled(sum, hi)
}

/// Precision-aware subtraction: the sum of `a` and the negation of `b`.
pub fn precise_subtract(a: Dec, b: Dec) -> (r: Dec)
    requires
        a.wf(),
        b.wf(),
        sub_pre(a, b),
    ensures
        r == sub_spec(a, b),
        (r.mantissa as int, r.places as nat) == sub_full(a, b),
        r.wf(),
{
    let nb = dec_neg(b);
    precise_add(a, nb)
}

/// Precision-aware multiplication: the integer mantissas multiply exactly
/// (they need no further truncation), the decimal-place counts add, and
/// the result is rescaled to canonical form.
pub fn precise_multiply(a: Dec, b: Dec) -> (r: Dec)
    requires
        a.wf(),
        b.wf(),
        mul_pre(a, b),
    ensures
        r == mul_spec(a, b),
        (r.mantissa as int, r.places as nat) == mul_full(a, b),
        r.wf(),
{
    proof {
        assert(-(0x7fff_ffff_ffff_ffff * 0x7fff_ffff_ffff_ffff)
            <= (a.mantissa as int) * (b.mantissa as int)
            <= 0x7fff_ffff_ffff_ffff * 0x7fff_ffff_ffff_ffff) by (nonlinear_arith)
            requires
                -0x7fff_ffff_ffff_ffff <= a.mantissa as int <= 0x7fff_ffff_ffff_ffff,
                -0x7fff_ffff_ffff_ffff <= b.mantissa as int <= 0x7fff_ffff_ffff_ffff,
        ;
    }
    let prod: i128 = (a.mantissa as i128) * (b.mantissa as i128);
    dec_from_scaled(prod, a.places + b.places)
}

/// Addition is exact: the canonical sum denotes precisely the rational
/// `a + b`. Written over common scales, with `(rm, rp)` the result pair:
/// `rm / 10^rp == a.mantissa / 10^a.places + b.mantissa / 10^b.places`.
pub proof fn lemma_precise_add_exact(a: Dec, b: Dec)
    requires
        a.wf(),
        b.wf(),
    ensures
        add_full(a, b).0 * pow10((a.places + b.places) as nat) == (a.mantissa * pow10(
            b.places as nat,
        ) + b.mantissa * pow10(a.places as nat)) * pow10(add_full(a, b).1),
{
    let ap = a.places as nat;
    let bp = b.places as nat;
    let hi = hi_places(ap, bp);
    let s = aligned_sum(a, b);
    let n0 = add_full(a, b).0;
    let n1 = add_full(a, b).1;
    lemma_norm_value(s, hi);
    lemma_pow10_pos(hi);
    lemma_pow10_adds((hi - ap) as nat, ap);
    lemma_pow10_adds((hi - bp) as nat, bp);
    lemma_pow10_adds(ap, bp);
    assert(s * pow10((ap + bp) as nat) == (a.mantissa * pow10(bp) + b.mantissa * pow10(ap))
        * pow10(hi)) by (nonlinear_arith)
        requires
            s == a.mantissa * pow10((hi - ap) as nat) + b.mantissa * pow10((hi - bp) as nat),
            pow10((hi - ap) as nat) * pow10(ap) == pow10(hi),
            pow10((hi - bp) as nat) * pow10(bp) == pow10(hi),
            pow10((ap + bp) as nat) == pow10(ap) * pow10(bp),
    ;
    assert(n0 * pow10((ap + bp) as nat) == (a.mantissa * pow10(bp) + b.mantissa * pow10(ap))
        * pow10(n1)) by (nonlinear_arith)
        requires
            n0 * pow10(hi) == s * pow10(n1),
            s * pow10((ap + bp) as nat) == (a.mantissa * pow10(bp) + b.mantissa * pow10(ap))
                * pow10(hi),
            pow10(hi) >= 1,
    ;
}

/// Multiplication is exact: the canonical product denotes precisely the
/// rational `a * b`.
pub proof fn lemma_precise_multiply_exact(a: Dec, b: Dec)
    ensures
        mul_full(a, b).0 * pow10((a.places + b.places) as nat) == (a.mantissa as int
            * b.mantissa as int) * pow10(mul_full(a, b).1),
{
    lemma_norm_value(a.mantissa as int * b.mantissa as int, (a.places + b.places) as nat);
}

/// Precision-aware addition is commutative.
pub proof fn lemma_precise_add_commutes(a: Dec, b: Dec)
    ensures
        add_full(a, b) == add_full(b, a),
        add_spec(a, b) == add_spec(b, a),
{
}

/// Swapping the operands of precision-aware subtraction negates the
/// result.
pub proof fn lemma_precise_subtract_antisymmetric(a: Dec, b: Dec)
    requires
        a.wf(),
        b.wf(),
    ensures
        sub_full(a, b).0 == -sub_full(b, a).0,
        sub_full(a, b).1 == sub_full(b, a).1,
        sub_pre(a, b) ==> sub_spec(a, b) == neg_spec(sub_spec(b, a)),
{
    let ap = a.places as nat;
    let bp = b.places as nat;
    let hi = hi_places(ap, bp);
    let s1 = aligned_sum(a, neg_spec(b));
    let s2 = aligned_sum(b, neg_spec(a));
    let x = pow10((hi - ap) as nat);
    let y = pow10((hi - bp) as nat);
    assert(s1 == -s2) by (nonlinear_arith)
        requires
            s1 == (a.mantissa as int) * x + (-(b.mantissa as int)) * y,
            s2 == (b.mantissa as int) * y + (-(a.mantissa as int)) * x,
    ;
    lemma_norm_neg(s2, hi);
}

/// Multiplying by zero gives the canonical zero, whatever the sign or
/// scale of the other operand; no sign ever leaks onto a zero result.
pub proof fn lemma_precise_multiply_zero(a: Dec)
    requires
        a.wf(),
    ensures
        mul_pre(a, dec_zero()),
        mul_pre(dec_zero(), a),
        mul_spec(a, dec_zero()) == dec_zero(),
        mul_spec(dec_zero(), a) == dec_zero(),
        mul_full(a, dec_zero()) == (0int, 0nat),
        mul_full(dec_zero(), a) == (0int, 0nat),
{
    assert(a.mantissa as int * 0 == 0) by (nonlinear_arith);
    assert(0 * (a.mantissa as int) == 0) by (nonlinear_arith);
    lemma_norm_canonical(0, a.places as nat);
}

/// Zero is the additive identity of precision-aware addition.
pub proof fn lemma_precise_add_zero(a: Dec)
    requires
        a.wf(),
    ensures
        add_pre(a, dec_zero()),
        add_pre(dec_zero(), a),
        add_spec(a, dec_zero()) == a,
        add_spec(dec_zero(), a) == a,
{
    let ap = a.places as nat;
    assert(aligned_sum(a, dec_zero()) == a.mantissa as int) by (nonlinear_arith)
        requires
            aligned_sum(a, dec_zero()) == a.mantissa * pow10(0) + 0 * pow10(ap),
            pow10(0) == 1,
    ;
    assert(aligned_sum(dec_zero(), a) == a.mantissa as int) by (nonlinear_arith)
        requires
            aligned_sum(dec_zero(), a) == 0 * pow10(ap) + a.mantissa * pow10(0),
            pow10(0) == 1,
    ;
}

/// One is the multiplicative identity of precision-aware multiplication.
pub proof fn lemma_precise_multiply_one(a: Dec)
    requires
        a.wf(),
    ensures
        mul_pre(a, dec_one()),
        mul_pre(dec_one(), a),
        mul_spec(a, dec_one()) == a,
        mul_spec(dec_one(), a) == a,
{
    assert(a.mantissa as int * 1 == a.mantissa as int) by (nonlinear_arith);
    assert(1 * (a.mantissa as int) == a.mantissa as int) by (nonlinear_arith);
}

} // verus!
