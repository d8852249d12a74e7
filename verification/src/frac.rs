//! Exact non-negative rational numbers, the numeric base of the quantity
//! model: every amount is a fraction of unsigned integers, so scaling is
//! exact multiplication with no drift.

use vstd::prelude::*;

use crate::text::{digit_seq, push_uint, SLASH};

verus! {

/// A non-negative rational number `num / den`.  Well-formed values have a
/// positive denominator; fractions are not kept reduced, so two values may
/// denote the same rational (see [`Fraction::same_value`]).
#[derive(Clone, Copy, Debug, PartialEq, Eq, Structural)]
pub struct Fraction {
    pub num: u64,
    pub den: u64,
}

/// Greatest common divisor, by Euclid's rule.
pub open spec fn gcd(a: nat, b: nat) -> nat
    decreases b,
{
    if b == 0 {
        a
    } else {
        gcd(b, a % b)
    }
}

pub proof fn lemma_gcd_pos(a: nat, b: nat)
    requires
        a > 0 || b > 0,
    ensures
        gcd(a, b) > 0,
    decreases b,
{
    if b > 0 {
        lemma_gcd_pos(b, a % b);
    }
}

/// Euclid's algorithm on machine integers.
pub fn gcd_u128(a: u128, b: u128) -> (r: u128)
    ensures
        r == gcd(a as nat, b as nat),
    decreases b,
{
    if b == 0 {
        a
    } else {
        gcd_u128(b, a % b)
    }
}

impl Fraction {
    /// Well-formed: the denominator is positive.
    pub open spec fn wf(self) -> bool {
        self.den > 0
    }

    /// The two fractions denote the same rational number.
    pub open spec fn same_value(self, other: Fraction) -> bool {
        self.num * other.den == other.num * self.den
    }

    /// The rational value is one.
    pub open spec fn is_one(self) -> bool {
        self.num == self.den
    }

    /// The product of two fractions, componentwise; meaningful only when
    /// both products fit in a machine word (see [`Fraction::can_multiply`]).
    pub open spec fn product(self, other: Fraction) -> Fraction {
        Fraction { num: (self.num * other.num) as u64, den: (self.den * other.den) as u64 }
    }

    /// Both componentwise products fit in a machine word.
    pub open spec fn can_multiply(self, other: Fraction) -> bool {
        self.num * other.num <= u64::MAX && self.den * other.den <= u64::MAX
    }

    /// Exact multiplication.
    pub fn times(self, other: Fraction) -> (r: Fraction)
        requires
            self.wf(),
            other.wf(),
            self.can_multiply(other),
        ensures
            r == self.product(other),
            r.num == self.num * other.num,
            r.den == self.den * other.den,
            r.wf(),
    {
        proof {
            assert(self.den * other.den > 0) by (nonlinear_arith)
                requires
                    self.den > 0,
                    other.den > 0,
            ;
        }
        Fraction { num: self.num * other.num, den: self.den * other.den }
    }

    /// The text of the fraction: a bare integer when the value is whole,
    /// otherwise the reduced fraction `p/q`.
    pub open spec fn render(self) -> Seq<u8> {
        if self.num as nat % self.den as nat == 0 {
            digit_seq(self.num as nat / self.den as nat)
        } else {
            let g = gcd(self.num as nat, self.den as nat);
            digit_seq(self.num as nat / g) + seq![SLASH] + digit_seq(self.den as nat / g)
        }
    }

    /// Appends the text of the fraction to `out`.
    pub fn render_into(self, out: &mut Vec<u8>)
        requires
            self.wf(),
        ensures
            final(out)@ == old(out)@ + self.render(),
    {
        if self.num % self.den == 0 {
            push_uint(out, (self.num / self.den) as u128);
        } else {
            proof {
                lemma_gcd_pos(self.num as nat, self.den as nat);
            }
            let g = gcd_u128(self.num as u128, self.den as u128);
            push_uint(out, (self.num as u128) / g);
            out.push(SLASH);
            push_uint(out, (self.den as u128) / g);
            assert(out@ =~= old(out)@ + self.render());
        }
    }
}

/// Multiplying by a fraction worth one preserves the value.
pub proof fn lemma_product_one(a: Fraction, f: Fraction)
    requires
        a.wf(),
        f.wf(),
        f.is_one(),
        a.can_multiply(f),
    ensures
        a.product(f).same_value(a),
        a.product(f).wf(),
{
    assert((a.num * f.num) * a.den == a.num * (a.den * f.den)) by (nonlinear_arith)
        requires
            f.num == f.den,
    ;
    assert(a.den * f.den > 0) by (nonlinear_arith)
        requires
            a.den > 0,
            f.den > 0,
    ;
}

/// Multiplying by `a` and then by `b` equals multiplying once by `a * b`.
pub proof fn lemma_product_assoc(f: Fraction, a: Fraction, b: Fraction)
    requires
        f.wf(),
        a.wf(),
        b.wf(),
        f.can_multiply(a),
        a.can_multiply(b),
        f.can_multiply(a.product(b)),
    ensures
        f.product(a).product(b) == f.product(a.product(b)),
{
    assert((f.num * a.num) * b.num == f.num * (a.num * b.num)) by (nonlinear_arith);
    assert((f.den * a.den) * b.den == f.den * (a.den * b.den)) by (nonlinear_arith);
}

} // verus!
