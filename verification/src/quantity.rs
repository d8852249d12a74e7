//! The quantity model: a tagged union over no quantity, a bare scalar, and
//! a recognized volume, each scalable by an exact factor.

use vstd::prelude::*;

use crate::frac::{lemma_product_assoc, lemma_product_one, Fraction};
use crate::text::{push_bytes, SPACE};
use crate::volume::{volume_render, Volume};

verus! {

/// The quantity of one ingredient.
#[derive(Clone, Copy, Debug, PartialEq, Eq, Structural)]
pub enum Quantity {
    /// No numeric quantity ("salt to taste").
    NoAmount,
    /// A bare numeric scalar with no recognized unit ("2 eggs").
    Simple(Fraction),
    /// A recognized volume measurement.
    Volume(Volume),
}

impl Quantity {
    /// Well-formed: any payload is a well-formed fraction.
    pub open spec fn wf(self) -> bool {
        match self {
            Quantity::NoAmount => true,
            Quantity::Simple(f) => f.wf(),
            Quantity::Volume(v) => v.wf(),
        }
    }

    /// Scaling by `factor` stays within machine words.
    pub open spec fn can_scale(self, factor: Fraction) -> bool {
        match self {
            Quantity::NoAmount => true,
            Quantity::Simple(f) => f.can_multiply(factor),
            Quantity::Volume(v) => v.quarter_teaspoons.can_multiply(factor),
        }
    }

    /// The scaled quantity: no quantity stays none, a scalar and a volume
    /// are multiplied exactly.
    pub open spec fn scale_spec(self, factor: Fraction) -> Quantity {
        match self {
            Quantity::NoAmount => Quantity::NoAmount,
            Quantity::Simple(f) => Quantity::Simple(f.product(factor)),
            Quantity::Volume(v) => Quantity::Volume(
                Volume { quarter_teaspoons: v.quarter_teaspoons.product(factor) },
            ),
        }
    }

    /// The two quantities have the same shape and denote the same numbers.
    pub open spec fn same_value(self, other: Quantity) -> bool {
        match (self, other) {
            (Quantity::NoAmount, Quantity::NoAmount) => true,
            (Quantity::Simple(a), Quantity::Simple(b)) => a.same_value(b),
            (Quantity::Volume(a), Quantity::Volume(b)) => a.quarter_teaspoons.same_value(
                b.quarter_teaspoons,
            ),
            _ => false,
        }
    }

    /// Scales the quantity, producing a new value; the original is
    /// untouched.
    pub fn scale(&self, factor: Fraction) -> (r: Quantity)
        requires
            self.wf(),
            factor.wf(),
            self.can_scale(factor),
        ensures
            r == self.scale_spec(factor),
            r.wf(),
    {
        match self {
            Quantity::NoAmount => Quantity::NoAmount,
            Quantity::Simple(f) => Quantity::Simple(f.times(factor)),
            Quantity::Volume(v) => Quantity::Volume(v.scale(factor)),
        }
    }

    /// The rendered fragment a quantity contributes to its ingredient
    /// line: nothing, or the number or volume text followed by a space.
    pub open spec fn render_spec(self) -> Seq<u8> {
        match self {
            Quantity::NoAmount => Seq::empty(),
            Quantity::Simple(f) => f.render().push(SPACE),
            Quantity::Volume(v) => volume_render(v.quarter_teaspoons).push(SPACE),
        }
    }

    /// Appends the quantity's rendered fragment to `out`.
    pub fn render_into(&self, out: &mut Vec<u8>)
        requires
            self.wf(),
        ensures
            final(out)@ == old(out)@ + self.render_spec(),
    {
        match self {
            Quantity::NoAmount => {
                assert(out@ =~= old(out)@ + self.render_spec());
            },
            Quantity::Simple(f) => {
                f.render_into(out);
                out.push(SPACE);
                assert(out@ =~= old(out)@ + self.render_spec());
            },
            Quantity::Volume(v) => {
                let t = v.render();
                push_bytes(out, t.as_slice());
                out.push(SPACE);
                assert(out@ =~= old(out)@ + self.render_spec());
            },
        }
    }
}

/// Scaling by a factor worth one preserves the value of every quantity.
pub proof fn lemma_quantity_scale_one(q: Quantity, f: Fraction)
    requires
        q.wf(),
        f.wf(),
        f.is_one(),
        q.can_scale(f),
    ensures
        q.scale_spec(f).same_value(q),
{
    match q {
        Quantity::NoAmount => {},
        Quantity::Simple(a) => {
            lemma_product_one(a, f);
        },
        Quantity::Volume(v) => {
            lemma_product_one(v.quarter_teaspoons, f);
        },
    }
}

/// Scaling by `a` and then by `b` equals scaling once by `a * b`.
pub proof fn lemma_quantity_scale_compose(q: Quantity, a: Fraction, b: Fraction)
    requires
        q.wf(),
        a.wf(),
        b.wf(),
        q.can_scale(a),
        a.can_multiply(b),
        q.can_scale(a.product(b)),
    ensures
        q.scale_spec(a).scale_spec(b) == q.scale_spec(a.product(b)),
{
    match q {
        Quantity::NoAmount => {},
        Quantity::Simple(g) => {
            lemma_product_assoc(g, a, b);
        },
        Quantity::Volume(v) => {
            lemma_product_assoc(v.quarter_teaspoons, a, b);
        },
    }
}

} // verus!
