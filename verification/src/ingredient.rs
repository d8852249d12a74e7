//! One parsed Markdown list line: indentation, a quantity, and the
//! ingredient's name.  The ordered fallback volume, then scalar, then no
//! quantity is the format's disambiguation policy.

use vstd::prelude::*;

use crate::frac::Fraction;
use crate::number::{parse_number, parse_number_spec};
use crate::quantity::Quantity;
use crate::text::{find_byte, first_byte, match_at, DASH, SPACE};
use crate::volume::{volume_parse_spec, Volume};

verus! {

/// The list item marker `"- "`.
pub open spec fn dash_sp() -> Seq<u8> {
    seq![DASH, SPACE]
}

/// The text contains the list item marker `"- "` somewhere.
pub open spec fn has_marker(item: Seq<u8>) -> bool {
    exists|j: int| match_at(item, dash_sp(), j)
}

/// The quantity and name read from the tail of a list line (the part after
/// `"- "`): the first two space-separated tokens as an amount/unit volume
/// when they parse as one; else the first token as a bare scalar when it
/// parses as a number; else no quantity and the whole tail as the name.
pub open spec fn tail_parse_spec(tail: Seq<u8>) -> (Quantity, Seq<u8>) {
    let s1 = first_byte(tail, SPACE);
    if s1 < tail.len() {
        let amount = tail.subrange(0, s1);
        let rest = tail.subrange(s1 + 1, tail.len() as int);
        let s2 = first_byte(rest, SPACE);
        let vol = if s2 < rest.len() {
            volume_parse_spec(amount, rest.subrange(0, s2))
        } else {
            None
        };
        if vol is Some {
            (Quantity::Volume(vol->Some_0), rest.subrange(s2 + 1, rest.len() as int))
        } else {
            match parse_number_spec(amount) {
                Some(f) => (Quantity::Simple(f), rest),
                None => (Quantity::NoAmount, tail),
            }
        }
    } else {
        (Quantity::NoAmount, tail)
    }
}

/// The indentation, quantity and name read from one list item: everything
/// before the first `"- "` is indentation, the rest is the tail.
pub open spec fn ingredient_parse_spec(item: Seq<u8>) -> (Seq<u8>, Quantity, Seq<u8>) {
    let m = crate::text::find_pat(item, dash_sp());
    let indent = item.subrange(0, m);
    let tail = item.subrange(m + 2, item.len() as int);
    let qn = tail_parse_spec(tail);
    (indent, qn.0, qn.1)
}

/// The rendered form of a list line: the indentation, the `"- "` marker,
/// the quantity's fragment, then the name.
pub open spec fn ingredient_render_spec(indent: Seq<u8>, q: Quantity, name: Seq<u8>) -> Seq<u8> {
    indent + dash_sp() + q.render_spec() + name
}

/// One parsed Markdown list line.
#[derive(Debug)]
pub struct Ingredient {
    /// Leading text before the `"- "` marker, reproduced on render.
    pub indent: Vec<u8>,
    /// The parsed quantity.
    pub quantity: Quantity,
    /// The remaining descriptive text.
    pub name: Vec<u8>,
}

impl Ingredient {
    /// Well-formed: the quantity is.
    pub open spec fn wf(self) -> bool {
        self.quantity.wf()
    }

    /// Parses one list item.  The item must contain the `"- "` marker, as
    /// every substring the segmenter produces does.
    pub fn parse(item: &[u8]) -> (r: Ingredient)
        requires
            has_marker(item@),
        ensures
            ({
                let t = ingredient_parse_spec(item@);
                r.indent@ == t.0 && r.quantity == t.1 && r.name@ == t.2
            }),
            r.wf(),
    {
        let mut pat: Vec<u8> = Vec::new();
        pat.push(DASH);
        pat.push(SPACE);
        assert(pat@ =~= dash_sp());
        let m = match crate::text::find_pattern(item, pat.as_slice()) {
            Some(m) => m,
            None => {
                proof {
                    assert(false);
                }
                0
            },
        };
        let n = item.len();
        assert(match_at(item@, dash_sp(), m as int));
        assert(m + 2 <= item@.len());
        let indent = vstd::slice::slice_to_vec(vstd::slice::slice_subrange(item, 0, m));
        let tail = vstd::slice::slice_subrange(item, m + 2, n);
        let s1 = find_byte(tail, SPACE);
        if s1 < tail.len() {
            let amount = vstd::slice::slice_subrange(tail, 0, s1);
            let rest = vstd::slice::slice_subrange(tail, s1 + 1, tail.len());
            let s2 = find_byte(rest, SPACE);
            let vol: Option<Volume> = if s2 < rest.len() {
                Volume::parse(amount, vstd::slice::slice_subrange(rest, 0, s2))
            } else {
                None
            };
            match vol {
                Some(v) => Ingredient {
                    indent,
                    quantity: Quantity::Volume(v),
                    name: vstd::slice::slice_to_vec(
                        vstd::slice::slice_subrange(rest, s2 + 1, rest.len()),
                    ),
                },
                None => match parse_number(amount) {
                    Some(f) => Ingredient {
                        indent,
                        quantity: Quantity::Simple(f),
                        name: vstd::slice::slice_to_vec(rest),
                    },
                    None => Ingredient {
                        indent,
                        quantity: Quantity::NoAmount,
                        name: vstd::slice::slice_to_vec(tail),
                    },
                },
            }
        } else {
            Ingredient { indent, quantity: Quantity::NoAmount, name: vstd::slice::slice_to_vec(tail) }
        }
    }

    /// Appends the rendered line to `out`.
    pub fn render_into(&self, out: &mut Vec<u8>)
        requires
            self.wf(),
        ensures
            final(out)@ == old(out)@ + ingredient_render_spec(self.indent@, self.quantity, self.name@),
    {
        crate::text::push_bytes(out, self.indent.as_slice());
        out.push(DASH);
        out.push(SPACE);
        self.quantity.render_into(out);
        crate::text::push_bytes(out, self.name.as_slice());
        assert(out@ =~= old(out)@ + ingredient_render_spec(self.indent@, self.quantity, self.name@));
    }

    /// Renders the line.
    pub fn render(&self) -> (r: Vec<u8>)
        requires
            self.wf(),
        ensures
            r@ == ingredient_render_spec(self.indent@, self.quantity, self.name@),
    {
        let mut out: Vec<u8> = Vec::new();
        self.render_into(&mut out);
        assert(out@ =~= ingredient_render_spec(self.indent@, self.quantity, self.name@));
        out
    }

    /// Scales the quantity; indentation and name are kept.
    pub fn scale(&self, factor: Fraction) -> (r: Ingredient)
        requires
            self.wf(),
            factor.wf(),
            self.quantity.can_scale(factor),
        ensures
            r.indent@ == self.indent@,
            r.quantity == self.quantity.scale_spec(factor),
            r.name@ == self.name@,
            r.wf(),
    {
        Ingredient {
            indent: crate::text::copy_bytes(&self.indent),
            quantity: self.quantity.scale(factor),
            name: crate::text::copy_bytes(&self.name),
        }
    }
}

/// A list line whose tail yields no quantity renders back to itself: the
/// line is reproduced byte for byte.
pub proof fn lemma_unquantified_round_trip(item: Seq<u8>)
    requires
        has_marker(item),
        ingredient_parse_spec(item).1 == Quantity::NoAmount,
    ensures
        ingredient_render_spec(
            ingredient_parse_spec(item).0,
            ingredient_parse_spec(item).1,
            ingredient_parse_spec(item).2,
        ) == item,
{
    crate::text::lemma_find_pat(item, dash_sp());
    let m = crate::text::find_pat(item, dash_sp());
    let j = choose|j: int| match_at(item, dash_sp(), j);
    assert(m < item.len());
    let indent = item.subrange(0, m);
    let tail = item.subrange(m + 2, item.len() as int);
    let t = ingredient_parse_spec(item);
    assert(t.2 == tail);
    assert(item.subrange(m, m + 2) == dash_sp());
    assert(ingredient_render_spec(t.0, t.1, t.2) =~= item);
}

} // verus!
