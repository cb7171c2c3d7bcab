//! The fixed-point decimal scalar and its canonical form.
//!
//! A `Dec` stands for the real number `mantissa / 10^places`. Every value
//! the library hands out is canonical: a whole number carries no decimal
//! places, and a fractional value never ends in a trailing zero digit, so
//! each representable number has exactly one representation and structural
//! equality coincides with numeric equality.

use vstd::arithmetic::div_mod::lemma_fundamental_div_mod;
use vstd::arithmetic::div_mod::lemma_fundamental_div_mod_converse;
use vstd::arithmetic::div_mod::lemma_mod_multiples_basic;
use vstd::prelude::*;

use crate::pow::lemma_pow10_adds;
use crate::pow::lemma_pow10_pos;
use crate::pow::pow10;

verus! {

/// A decimal scalar: the number `mantissa / 10^places`.
#[derive(Clone, Copy, Debug, PartialEq, Eq, Structural)]
pub struct Dec {
    pub mantissa: i64,
    pub places: u32,
}

/// A mantissa the representation can carry: the symmetric `i64` range, so
/// that negation never overflows.
pub open spec fn dec_fits(m: int) -> bool {
    -0x7fff_ffff_ffff_ffff <= m <= 0x7fff_ffff_ffff_ffff
}

/// Scaling exponents are capped so every scale-to-integer step stays well
/// inside the machine word.
pub open spec fn max_places() -> nat {
    18
}

impl Dec {
    /// Well-formed: in range, capped scale, and canonical (no trailing
    /// fractional zero digit; a whole number has zero places).
    pub open spec fn wf(self) -> bool {
        &&& dec_fits(self.mantissa as int)
        &&& self.places <= max_places()
        &&& self.places == 0 || self.mantissa % 10 != 0
    }
}

/// Canonical form of a raw pair: strip trailing zero digits from the
/// mantissa while decimal places remain.
pub open spec fn norm_spec(m: int, p: nat) -> (int, nat)
    decreases p,
{
    if p == 0 || m % 10 != 0 {
        (m, p)
    } else {
        norm_spec(m / 10, (p - 1) as nat)
    }
}

/// Normalization yields a canonical pair; it keeps the sign and never
/// grows the magnitude or the place count.
pub proof fn lemma_norm_canonical(m: int, p: nat)
    ensures
        norm_spec(m, p).1 <= p,
        norm_spec(m, p).1 == 0 || norm_spec(m, p).0 % 10 != 0,
        m == 0 ==> norm_spec(m, p) == (0int, 0nat),
        m > 0 ==> 0 < norm_spec(m, p).0 <= m,
        m < 0 ==> m <= norm_spec(m, p).0 < 0,
    decreases p,
{
    if p == 0 || m % 10 != 0 {
    } else {
        lemma_fundamental_div_mod(m, 10);
        lemma_norm_canonical(m / 10, (p - 1) as nat);
    }
}

/// Normalization commutes with negation.
pub proof fn lemma_norm_neg(m: int, p: nat)
    ensures
        norm_spec(-m, p).0 == -norm_spec(m, p).0,
        norm_spec(-m, p).1 == norm_spec(m, p).1,
    decreases p,
{
    if p == 0 {
    } else {
        lemma_fundamental_div_mod(m, 10);
        let q = m / 10;
        let r = m % 10;
        if r == 0 {
            assert(-m == (-q) * 10 + 0) by (nonlinear_arith)
                requires
                    m == 10 * q,
            ;
            lemma_fundamental_div_mod_converse(-m, 10, -q, 0);
            lemma_norm_neg(q, (p - 1) as nat);
        } else {
            assert(-m == (-q - 1) * 10 + (10 - r)) by (nonlinear_arith)
                requires
                    m == 10 * q + r,
            ;
            lemma_fundamental_div_mod_converse(-m, 10, -q - 1, 10 - r);
        }
    }
}

/// Normalization is value-preserving: the canonical pair denotes the same
/// number `m / 10^p`.
pub proof fn lemma_norm_value(m: int, p: nat)
    ensures
        norm_spec(m, p).0 * pow10(p) == m * pow10(norm_spec(m, p).1),
    decreases p,
{
    if p == 0 || m % 10 != 0 {
    } else {
        lemma_fundamental_div_mod(m, 10);
        let q = m / 10;
        lemma_norm_value(q, (p - 1) as nat);
        let (m2, p2) = norm_spec(q, (p - 1) as nat);
        assert(m2 * pow10(p) == m * pow10(p2)) by (nonlinear_arith)
            requires
                m2 * pow10((p - 1) as nat) == q * pow10(p2),
                m == 10 * q,
                pow10(p) == 10 * pow10((p - 1) as nat),
        ;
    }
}

/// Executable normalization of a magnitude.
fn normalize_mag(mag0: u128, p0: u32) -> (r: (u128, u32))
    ensures
        (r.0 as int, r.1 as nat) == norm_spec(mag0 as int, p0 as nat),
        r.0 <= mag0,
        r.1 <= p0,
{
    let mut mag: u128 = mag0;
    let mut p: u32 = p0;
    while p > 0 && mag % 10 == 0
        invariant
            norm_spec(mag as int, p as nat) == norm_spec(mag0 as int, p0 as nat),
            mag <= mag0,
            p <= p0,
        decreases p,
    {
        mag = mag / 10;
        p = p - 1;
    }
    (mag, p)
}

/// Build the canonical `Dec` denoting `v / 10^p` from an integer-scaled
/// intermediate value.
pub(crate) fn dec_from_scaled(v: i128, p: u32) -> (r: Dec)
    requires
        p <= max_places(),
        -0x7fff_ffff_ffff_ffff_ffff_ffff_ffff_ffff <= v as int,
        dec_fits(norm_spec(v as int, p as nat).0),
    ensures
        (r.mantissa as int, r.places as nat) == norm_spec(v as int, p as nat),
        r.wf(),
{
    proof {
        lemma_norm_canonical(v as int, p as nat);
        lemma_norm_neg(-(v as int), p as nat);
    }
    let neg: bool = v < 0;
    let mag: u128 = if neg {
        (-v) as u128
    } else {
        v as u128
    };
    let nr = normalize_mag(mag, p);
    let m: i64 = if neg {
        -(nr.0 as i64)
    } else {
        nr.0 as i64
    };
    Dec { mantissa: m, places: nr.1 }
}

impl Dec {
    /// The canonical decimal with value `mantissa / 10^places`.
    pub fn new(mantissa: i64, places: u32) -> (r: Dec)
        requires
            places <= max_places(),
            dec_fits(mantissa as int),
        ensures
            (r.mantissa as int, r.places as nat) == norm_spec(mantissa as int, places as nat),
            r.wf(),
    {
        proof {
            lemma_norm_canonical(mantissa as int, places as nat);
        }
        dec_from_scaled(mantissa as i128, places)
    }
}

/// How many digits follow the decimal separator in the canonical base-10
/// form of `d`.
pub fn decimal_places(d: Dec) -> (r: u32)
    ensures
        r == d.places,
{
    d.places
}

/// The ordered half of canonical uniqueness: the place counts in
/// ascending order.
proof fn lemma_canonical_unique_le(a: Dec, b: Dec)
    requires
        a.wf(),
        b.wf(),
        a.places <= b.places,
        a.mantissa * pow10(b.places as nat) == b.mantissa * pow10(a.places as nat),
    ensures
        a == b,
{
    let am = a.mantissa as int;
    let bm = b.mantissa as int;
    let ap = a.places as nat;
    let bp = b.places as nat;
    let k = (bp - ap) as nat;
    lemma_pow10_adds(k, ap);
    lemma_pow10_pos(ap);
    assert(am * pow10(bp) == (am * pow10(k)) * pow10(ap)) by (nonlinear_arith)
        requires
            pow10(bp) == pow10(k) * pow10(ap),
    ;
    assert(am * pow10(k) == bm) by (nonlinear_arith)
        requires
            (am * pow10(k)) * pow10(ap) == bm * pow10(ap),
            pow10(ap) >= 1,
    ;
    if k > 0 {
        let t = am * pow10((k - 1) as nat);
        assert(bm == t * 10) by (nonlinear_arith)
            requires
                t == am * pow10((k - 1) as nat),
                bm == am * pow10(k),
                pow10(k) == 10 * pow10((k - 1) as nat),
        ;
        lemma_mod_multiples_basic(t, 10);
        assert(false);
    }
}

/// Canonical representations are unique: two well-formed decimals that
/// denote the same number are structurally equal, so `==` on `Dec` (and
/// componentwise on complex values) coincides with numeric equality.
pub proof fn lemma_canonical_unique(a: Dec, b: Dec)
    requires
        a.wf(),
        b.wf(),
        a.mantissa * pow10(b.places as nat) == b.mantissa * pow10(a.places as nat),
    ensures
        a == b,
{
    if a.places <= b.places {
        lemma_canonical_unique_le(a, b);
    } else {
        lemma_canonical_unique_le(b, a);
    }
}

/// A whole number has no decimal places: if `10^places` divides the
/// mantissa of a well-formed decimal, its place count is zero.
pub proof fn lemma_whole_number_has_no_places(d: Dec)
    requires
        d.wf(),
        d.mantissa as int % pow10(d.places as nat) == 0,
    ensures
        d.places == 0,
{
    if d.places > 0 {
        let p = d.places as nat;
        let m = d.mantissa as int;
        lemma_pow10_pos(p);
        lemma_fundamental_div_mod(m, pow10(p));
        let q = m / pow10(p);
        assert(m == 10 * (pow10((p - 1) as nat) * q)) by (nonlinear_arith)
            requires
                m == pow10(p) * q + 0,
                pow10(p) == 10 * pow10((p - 1) as nat),
        ;
        let t = pow10((p - 1) as nat) * q;
        lemma_mod_multiples_basic(t, 10);
        assert(t * 10 == 10 * t) by (nonlinear_arith);
        assert(false);
    }
}

} // verus!
