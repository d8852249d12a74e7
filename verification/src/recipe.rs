//! The whole-document layer: splitting a recipe into preface, ingredients
//! block and instructions, segmenting the block into list items, and the
//! round-trip rendering and whole-recipe scaling.

use vstd::prelude::*;

use crate::frac::Fraction;
use crate::ingredient::{dash_sp, ingredient_parse_spec, ingredient_render_spec, Ingredient};
use crate::text::{
    find_pat, first_byte, first_non_ws, lemma_find_pat, lemma_first_byte, match_at, DASH, HASH,
    NEWLINE, SPACE,
};

verus! {

/// The header that separates the preface from the ingredients block:
/// `"\n## Ingredients\n\n"`.
pub open spec fn ingredients_header() -> Seq<u8> {
    seq![
        NEWLINE,
        HASH,
        HASH,
        SPACE,
        73u8,
        110,
        103,
        114,
        101,
        100,
        105,
        101,
        110,
        116,
        115,
        NEWLINE,
        NEWLINE,
    ]
}

/// The start of any later section header: `"\n##"`.
pub open spec fn section_marker() -> Seq<u8> {
    seq![NEWLINE, HASH, HASH]
}

/// The index just past the current line: the position of its terminating
/// newline, or the end of the text.
pub open spec fn line_end(s: Seq<u8>, p: int) -> int {
    p + first_byte(s.subrange(p, s.len() as int), NEWLINE)
}

/// The line that starts at `p` begins, after leading blank space, with a
/// dash: it starts a new list item.
pub open spec fn dash_line_at(s: Seq<u8>, p: int) -> bool {
    let t = s.subrange(p, line_end(s, p));
    let w = first_non_ws(t);
    w < t.len() && t[w] == DASH
}

/// The first line start at or after `p` that starts a new list item, or
/// `s.len()` when no later line does.
pub open spec fn next_item_line(s: Seq<u8>, p: int) -> int
    decreases s.len() - p,
    when 0 <= p <= s.len()
    via next_item_line_dec
{
    if dash_line_at(s, p) {
        p
    } else {
        let e = line_end(s, p);
        if e + 1 > s.len() {
            s.len() as int
        } else {
            next_item_line(s, e + 1)
        }
    }
}

#[via_fn]
proof fn next_item_line_dec(s: Seq<u8>, p: int) {
    lemma_first_byte(s.subrange(p, s.len() as int), NEWLINE);
}

pub proof fn lemma_next_item_line_bounds(s: Seq<u8>, p: int)
    requires
        0 <= p <= s.len(),
    ensures
        p <= next_item_line(s, p) <= s.len(),
    decreases s.len() - p,
{
    lemma_first_byte(s.subrange(p, s.len() as int), NEWLINE);
    if !dash_line_at(s, p) {
        let e = line_end(s, p);
        if e + 1 <= s.len() {
            lemma_next_item_line_bounds(s, e + 1);
        }
    }
}

/// The ingredients block, segmented into one substring per list item: each
/// item starts at the first `"- "` of the remaining text and runs to (not
/// including) the next line that begins, after blank space, with a dash;
/// the last item takes all that remains.  Text with no `"- "` yields no
/// items.
pub open spec fn seg_items(src: Seq<u8>) -> Seq<Seq<u8>>
    decreases src.len(),
    via seg_items_dec
{
    let m = find_pat(src, dash_sp());
    if match_at(src, dash_sp(), m) {
        let tail = src.subrange(m + 2, src.len() as int);
        let p = next_item_line(tail, 0);
        if p >= tail.len() {
            seq![src]
        } else {
            seq![src.subrange(0, m + 2 + p)] + seg_items(src.subrange(m + 2 + p, src.len() as int))
        }
    } else {
        Seq::empty()
    }
}

#[via_fn]
proof fn seg_items_dec(src: Seq<u8>) {
    lemma_find_pat(src, dash_sp());
    let m = find_pat(src, dash_sp());
    if match_at(src, dash_sp(), m) {
        lemma_next_item_line_bounds(src.subrange(m + 2, src.len() as int), 0);
    }
}

/// Every item the segmenter produces contains the `"- "` marker.
pub proof fn lemma_seg_items_marker(src: Seq<u8>)
    ensures
        forall|i: int|
            0 <= i < seg_items(src).len() ==> crate::ingredient::has_marker(
                #[trigger] seg_items(src)[i],
            ),
    decreases src.len(),
{
    lemma_find_pat(src, dash_sp());
    let m = find_pat(src, dash_sp());
    if match_at(src, dash_sp(), m) {
        let tail = src.subrange(m + 2, src.len() as int);
        lemma_next_item_line_bounds(tail, 0);
        let p = next_item_line(tail, 0);
        if p >= tail.len() {
            assert forall|i: int| 0 <= i < seg_items(src).len() implies crate::ingredient::has_marker(
                #[trigger] seg_items(src)[i],
            ) by {
                assert(seg_items(src)[i] == src);
                assert(match_at(src, dash_sp(), m));
            }
        } else {
            let first = src.subrange(0, m + 2 + p);
            let rest = src.subrange(m + 2 + p, src.len() as int);
            assert(first.subrange(m, m + 2) =~= src.subrange(m, m + 2));
            assert(match_at(first, dash_sp(), m));
            lemma_seg_items_marker(rest);
            assert forall|i: int| 0 <= i < seg_items(src).len() implies crate::ingredient::has_marker(
                #[trigger] seg_items(src)[i],
            ) by {
                if i == 0 {
                    assert(seg_items(src)[i] == first);
                } else {
                    assert(seg_items(src)[i] == seg_items(rest)[i - 1]);
                }
            }
        }
    }
}

/// Finds `next_item_line(s@, start)` executably.
fn find_item_line(s: &[u8], start: usize) -> (r: usize)
    requires
        start <= s@.len(),
    ensures
        r as int == next_item_line(s@, start as int),
        start <= r <= s@.len(),
{
    let n = s.len();
    let mut p = start;
    loop
        invariant
            n == s@.len(),
            start <= p <= n,
            next_item_line(s@, start as int) == next_item_line(s@, p as int),
        decreases n - p,
    {
        let sub = vstd::slice::slice_subrange(s, p, n);
        let e_rel = crate::text::find_byte(sub, NEWLINE);
        let e = p + e_rel;
        let line = vstd::slice::slice_subrange(s, p, e);
        let w = crate::text::find_non_ws(line);
        if w < line.len() && line[w] == DASH {
            assert(dash_line_at(s@, p as int));
            proof {
                lemma_next_item_line_bounds(s@, p as int);
            }
            return p;
        }
        assert(!dash_line_at(s@, p as int));
        if e >= n {
            return n;
        }
        p = e + 1;
    }
}

/// Segments the ingredients block into one owned substring per list item.
pub fn segment(src: &[u8]) -> (items: Vec<Vec<u8>>)
    ensures
        items@.len() == seg_items(src@).len(),
        forall|i: int| 0 <= i < items@.len() ==> #[trigger] items@[i]@ == seg_items(src@)[i],
{
    let mut pat: Vec<u8> = Vec::new();
    pat.push(DASH);
    pat.push(SPACE);
    assert(pat@ =~= dash_sp());
    let n = src.len();
    let mut base: usize = 0;
    let mut items: Vec<Vec<u8>> = Vec::new();
    proof {
        assert(src@.subrange(0, n as int) =~= src@);
        assert(items@.map_values(|v: Vec<u8>| v@) + seg_items(src@) =~= seg_items(src@));
    }
    loop
        invariant
            n == src@.len(),
            base <= n,
            pat@ == dash_sp(),
            seg_items(src@) =~= items@.map_values(|v: Vec<u8>| v@) + seg_items(
                src@.subrange(base as int, n as int),
            ),
        decreases n - base,
    {
        let rem = vstd::slice::slice_subrange(src, base, n);
        let ghost remv = rem@;
        let ghost mv = items@.map_values(|v: Vec<u8>| v@);
        let m = match crate::text::find_pattern(rem, pat.as_slice()) {
            Some(m) => m,
            None => {
                proof {
                    assert(seg_items(remv) =~= Seq::<Seq<u8>>::empty());
                    assert(seg_items(src@) =~= items@.map_values(|v: Vec<u8>| v@));
                }
                return items;
            },
        };
        assert(match_at(remv, dash_sp(), m as int));
        let tail = vstd::slice::slice_subrange(src, base + m + 2, n);
        assert(tail@ =~= remv.subrange(m + 2, remv.len() as int));
        let p = find_item_line(tail, 0);
        if p == tail.len() {
            let item = vstd::slice::slice_to_vec(rem);
            items.push(item);
            proof {
                assert(seg_items(remv) =~= seq![remv]);
                assert(seg_items(src@.subrange(n as int, n as int)) =~= Seq::<Seq<u8>>::empty());
                assert(items@.map_values(|v: Vec<u8>| v@) =~= mv.push(remv));
                assert(mv.push(remv) + Seq::<Seq<u8>>::empty() =~= mv + seq![remv]);
            }
            base = n;
        } else {
            let cut = base + m + 2 + p;
            let item = vstd::slice::slice_to_vec(vstd::slice::slice_subrange(src, base, cut));
            proof {
                assert(item@ =~= remv.subrange(0, m + 2 + p));
                assert(src@.subrange(cut as int, n as int) =~= remv.subrange(
                    m + 2 + p,
                    remv.len() as int,
                ));
            }
            items.push(item);
            proof {
                assert(items@.map_values(|v: Vec<u8>| v@) =~= mv.push(remv.subrange(0, m + 2 + p)));
                assert(seg_items(remv) =~= seq![remv.subrange(0, m + 2 + p)] + seg_items(
                    remv.subrange(m + 2 + p, remv.len() as int),
                ));
                assert(mv.push(remv.subrange(0, m + 2 + p)) + seg_items(
                    remv.subrange(m + 2 + p, remv.len() as int),
                ) =~= mv + seg_items(remv));
            }
            base = cut;
        }
    }
}

/// The document split: everything through the ingredients header is the
/// preface; the rest up to the next section header is the ingredients
/// block; what follows is the instructions.  Without the header the whole
/// document is the preface — a deliberate lenient fallback, not an error.
pub open spec fn recipe_split_spec(src: Seq<u8>) -> (Seq<u8>, Seq<u8>, Seq<u8>) {
    let h = find_pat(src, ingredients_header());
    if match_at(src, ingredients_header(), h) {
        let cut = h + 17;
        let preface = src.subrange(0, cut);
        let rest = src.subrange(cut, src.len() as int);
        let e = find_pat(rest, section_marker());
        if match_at(rest, section_marker(), e) {
            (preface, rest.subrange(0, e), rest.subrange(e, rest.len() as int))
        } else {
            (preface, rest, Seq::empty())
        }
    } else {
        (src, Seq::empty(), Seq::empty())
    }
}

/// The three sections of the split concatenate back to the whole document:
/// the split loses nothing.
pub proof fn lemma_split_sections_cover(src: Seq<u8>)
    ensures
        recipe_split_spec(src).0 + recipe_split_spec(src).1 + recipe_split_spec(src).2 == src,
{
    let t = recipe_split_spec(src);
    let h = find_pat(src, ingredients_header());
    if match_at(src, ingredients_header(), h) {
        lemma_find_pat(src, ingredients_header());
        assert(t.0 + t.1 + t.2 =~= src);
    } else {
        assert(t.0 + t.1 + t.2 =~= src);
    }
}

/// A whole parsed recipe: the preface, the ordered ingredient list, and
/// the instructions.
#[derive(Debug)]
pub struct Recipe {
    /// Everything through and including the ingredients header and its
    /// blank line.
    pub preface: Vec<u8>,
    /// The parsed list items, in document order.
    pub ingredients: Vec<Ingredient>,
    /// Everything after the ingredients block.
    pub instructions: Vec<u8>,
}

/// The rendered ingredient list: each line's rendering, concatenated in
/// order with nothing inserted between.
pub open spec fn ingredients_render(s: Seq<Ingredient>) -> Seq<u8>
    decreases s.len(),
{
    if s.len() == 0 {
        Seq::empty()
    } else {
        ingredients_render(s.drop_last()) + ingredient_render_spec(
            s.last().indent@,
            s.last().quantity,
            s.last().name@,
        )
    }
}

/// The rendered recipe: preface, ingredient lines, instructions.
pub open spec fn recipe_render_spec(r: Recipe) -> Seq<u8> {
    r.preface@ + ingredients_render(r.ingredients@) + r.instructions@
}

/// The `scaled` recipe is `orig` with every quantity scaled by `f` and the
/// text kept: this is exactly what [`Recipe::scale`] produces.
pub open spec fn recipe_scaled_by(orig: Recipe, scaled: Recipe, f: Fraction) -> bool {
    &&& scaled.preface@ == orig.preface@
    &&& scaled.instructions@ == orig.instructions@
    &&& scaled.ingredients@.len() == orig.ingredients@.len()
    &&& forall|i: int|
        0 <= i < orig.ingredients@.len() ==> {
            let a = orig.ingredients@[i];
            let b = #[trigger] scaled.ingredients@[i];
            b.indent@ == a.indent@ && b.name@ == a.name@ && b.quantity == a.quantity.scale_spec(f)
        }
}

/// The executable `"\n## Ingredients\n\n"` pattern.
fn header_pattern() -> (v: Vec<u8>)
    ensures
        v@ == ingredients_header(),
{
    let mut v: Vec<u8> = Vec::new();
    v.push(NEWLINE);
    v.push(HASH);
    v.push(HASH);
    v.push(SPACE);
    v.push(73);
    v.push(110);
    v.push(103);
    v.push(114);
    v.push(101);
    v.push(100);
    v.push(105);
    v.push(101);
    v.push(110);
    v.push(116);
    v.push(115);
    v.push(NEWLINE);
    v.push(NEWLINE);
    assert(v@ =~= ingredients_header());
    v
}

/// The executable `"\n##"` pattern.
fn marker_pattern() -> (v: Vec<u8>)
    ensures
        v@ == section_marker(),
{
    let mut v: Vec<u8> = Vec::new();
    v.push(NEWLINE);
    v.push(HASH);
    v.push(HASH);
    assert(v@ =~= section_marker());
    v
}

impl Recipe {
    /// Well-formed: every ingredient is.
    pub open spec fn wf(self) -> bool {
        forall|i: int| 0 <= i < self.ingredients@.len() ==> (#[trigger] self.ingredients@[i]).wf()
    }

    /// Every ingredient's quantity can be scaled by `factor` within
    /// machine words.
    pub open spec fn can_scale(self, factor: Fraction) -> bool {
        forall|i: int|
            0 <= i < self.ingredients@.len() ==> (#[trigger] self.ingredients@[i]).quantity.can_scale(
                factor,
            )
    }

    /// Parses a document: splits the sections, segments the ingredients
    /// block, and parses each list item.
    pub fn parse(src: &[u8]) -> (r: Recipe)
        ensures
            ({
                let t = recipe_split_spec(src@);
                &&& r.preface@ == t.0
                &&& r.instructions@ == t.2
                &&& r.ingredients@.len() == seg_items(t.1).len()
                &&& forall|i: int|
                    0 <= i < r.ingredients@.len() ==> {
                        let p = ingredient_parse_spec(seg_items(t.1)[i]);
                        let g = #[trigger] r.ingredients@[i];
                        g.indent@ == p.0 && g.quantity == p.1 && g.name@ == p.2
                    }
            }),
            r.wf(),
    {
        let n = src.len();
        let hp = header_pattern();
        let h = match crate::text::find_pattern(src, hp.as_slice()) {
            Some(h) => h,
            None => {
                let r = Recipe {
                    preface: vstd::slice::slice_to_vec(src),
                    ingredients: Vec::new(),
                    instructions: Vec::new(),
                };
                proof {
                    assert(seg_items(Seq::<u8>::empty()).len() == 0);
                }
                return r;
            },
        };
        assert(match_at(src@, ingredients_header(), h as int));
        let cut = h + 17;
        let preface = vstd::slice::slice_to_vec(vstd::slice::slice_subrange(src, 0, cut));
        let rest = vstd::slice::slice_subrange(src, cut, n);
        let mp = marker_pattern();
        let rn = rest.len();
        let e = match crate::text::find_pattern(rest, mp.as_slice()) {
            Some(e) => e,
            None => rn,
        };
        let block = vstd::slice::slice_subrange(rest, 0, e);
        let instructions = vstd::slice::slice_to_vec(vstd::slice::slice_subrange(rest, e, rn));
        proof {
            if e == rn {
                assert(rest@.subrange(0, e as int) =~= rest@);
                assert(rest@.subrange(e as int, rn as int) =~= Seq::<u8>::empty());
            }
            assert(block@ == recipe_split_spec(src@).1);
            assert(instructions@ == recipe_split_spec(src@).2);
        }
        let items = segment(block);
        proof {
            lemma_seg_items_marker(block@);
        }
        let mut ingredients: Vec<Ingredient> = Vec::new();
        let m = items.len();
        let mut i: usize = 0;
        while i < m
            invariant
                m == items@.len(),
                i <= m,
                items@.len() == seg_items(block@).len(),
                forall|k: int| 0 <= k < m ==> #[trigger] items@[k]@ == seg_items(block@)[k],
                forall|k: int|
                    0 <= k < seg_items(block@).len() ==> crate::ingredient::has_marker(
                        #[trigger] seg_items(block@)[k],
                    ),
                ingredients@.len() == i,
                forall|k: int|
                    0 <= k < i ==> {
                        let p = ingredient_parse_spec(seg_items(block@)[k]);
                        let g = #[trigger] ingredients@[k];
                        g.indent@ == p.0 && g.quantity == p.1 && g.name@ == p.2 && g.wf()
                    },
            decreases m - i,
        {
            let it = &items[i];
            let ing = Ingredient::parse(it.as_slice());
            ingredients.push(ing);
            i = i + 1;
        }
        Recipe { preface, ingredients, instructions }
    }

    /// Renders the recipe: the preface, each ingredient line in order, and
    /// the instructions, concatenated with nothing inserted.
    pub fn render(&self) -> (r: Vec<u8>)
        requires
            self.wf(),
        ensures
            r@ == recipe_render_spec(*self),
    {
        let mut out: Vec<u8> = Vec::new();
        crate::text::push_bytes(&mut out, self.preface.as_slice());
        let m = self.ingredients.len();
        let mut i: usize = 0;
        while i < m
            invariant
                m == self.ingredients@.len(),
                i <= m,
                self.wf(),
                out@ == self.preface@ + ingredients_render(self.ingredients@.subrange(0, i as int)),
            decreases m - i,
        {
            self.ingredients[i].render_into(&mut out);
            proof {
                let sub = self.ingredients@.subrange(0, i + 1 as int);
                assert(sub.drop_last() =~= self.ingredients@.subrange(0, i as int));
                assert(sub.last() == self.ingredients@[i as int]);
                assert(out@ =~= self.preface@ + ingredients_render(sub));
            }
            i = i + 1;
        }
        proof {
            assert(self.ingredients@.subrange(0, m as int) =~= self.ingredients@);
        }
        crate::text::push_bytes(&mut out, self.instructions.as_slice());
        assert(out@ =~= recipe_render_spec(*self));
        out
    }

    /// Scales every ingredient quantity by an exact factor, producing an
    /// independent new recipe; text and order are kept.
    pub fn scale(&self, factor: Fraction) -> (r: Recipe)
        requires
            self.wf(),
            factor.wf(),
            self.can_scale(factor),
        ensures
            recipe_scaled_by(*self, r, factor),
            r.wf(),
    {
        let m = self.ingredients.len();
        let mut ingredients: Vec<Ingredient> = Vec::new();
        let mut i: usize = 0;
        while i < m
            invariant
                m == self.ingredients@.len(),
                i <= m,
                self.wf(),
                factor.wf(),
                self.can_scale(factor),
                ingredients@.len() == i,
                forall|k: int|
                    0 <= k < i ==> {
                        let a = self.ingredients@[k];
                        let b = #[trigger] ingredients@[k];
                        b.indent@ == a.indent@ && b.name@ == a.name@ && b.quantity
                            == a.quantity.scale_spec(factor) && b.wf()
                    },
            decreases m - i,
        {
            let ing = self.ingredients[i].scale(factor);
            ingredients.push(ing);
            i = i + 1;
        }
        Recipe {
            preface: crate::text::copy_bytes(&self.preface),
            ingredients,
            instructions: crate::text::copy_bytes(&self.instructions),
        }
    }

    /// Takes ownership of the recipe unchanged; all text is already owned.
    pub fn into_static(self) -> (r: Recipe)
        ensures
            r == self,
    {
        self
    }
}

/// The concatenation of a sequence of byte strings, in order.
pub open spec fn seqs_concat(items: Seq<Seq<u8>>) -> Seq<u8>
    decreases items.len(),
{
    if items.len() == 0 {
        Seq::empty()
    } else {
        seqs_concat(items.drop_last()) + items.last()
    }
}

/// Ingredients that render to given items render, in order, to the items'
/// concatenation.
proof fn lemma_ingredients_render_concat(ings: Seq<Ingredient>, items: Seq<Seq<u8>>)
    requires
        ings.len() == items.len(),
        forall|i: int|
            0 <= i < ings.len() ==> ingredient_render_spec(
                (#[trigger] ings[i]).indent@,
                ings[i].quantity,
                ings[i].name@,
            ) == items[i],
    ensures
        ingredients_render(ings) == seqs_concat(items),
    decreases ings.len(),
{
    if ings.len() > 0 {
        lemma_ingredients_render_concat(ings.drop_last(), items.drop_last());
    }
}

/// What the segmenter leaves unconsumed: the final remainder that holds
/// no `"- "` marker.  Empty for every block that ends inside a list item.
pub open spec fn seg_rest(src: Seq<u8>) -> Seq<u8>
    decreases src.len(),
    via seg_rest_dec
{
    let m = find_pat(src, dash_sp());
    if match_at(src, dash_sp(), m) {
        let tail = src.subrange(m + 2, src.len() as int);
        let p = next_item_line(tail, 0);
        if p >= tail.len() {
            Seq::empty()
        } else {
            seg_rest(src.subrange(m + 2 + p, src.len() as int))
        }
    } else {
        src
    }
}

#[via_fn]
proof fn seg_rest_dec(src: Seq<u8>) {
    lemma_find_pat(src, dash_sp());
    let m = find_pat(src, dash_sp());
    if match_at(src, dash_sp(), m) {
        lemma_next_item_line_bounds(src.subrange(m + 2, src.len() as int), 0);
    }
}

/// Prepending one string to a sequence of strings prepends it to their
/// concatenation.
proof fn lemma_seqs_concat_prepend(a: Seq<u8>, s: Seq<Seq<u8>>)
    ensures
        seqs_concat(seq![a] + s) == a + seqs_concat(s),
    decreases s.len(),
{
    if s.len() == 0 {
        assert((seq![a] + s) =~= seq![a]);
        assert(seq![a].drop_last() =~= Seq::<Seq<u8>>::empty());
        assert(seqs_concat(Seq::<Seq<u8>>::empty()) == Seq::<u8>::empty());
        assert(seqs_concat(seq![a]) =~= a);
        assert(seqs_concat(seq![a] + s) =~= a + seqs_concat(s));
    } else {
        lemma_seqs_concat_prepend(a, s.drop_last());
        assert((seq![a] + s).drop_last() =~= seq![a] + s.drop_last());
        assert((seq![a] + s).last() == s.last());
        assert(seqs_concat(seq![a] + s) =~= a + seqs_concat(s));
    }
}

/// Segmentation partitions the block: the items and the unconsumed
/// remainder concatenate back to the whole text, in order.
pub proof fn lemma_seg_items_partition(src: Seq<u8>)
    ensures
        seqs_concat(seg_items(src)) + seg_rest(src) == src,
    decreases src.len(),
{
    lemma_find_pat(src, dash_sp());
    let m = find_pat(src, dash_sp());
    if match_at(src, dash_sp(), m) {
        let tail = src.subrange(m + 2, src.len() as int);
        lemma_next_item_line_bounds(tail, 0);
        let p = next_item_line(tail, 0);
        if p >= tail.len() {
            assert(seq![src].drop_last() =~= Seq::<Seq<u8>>::empty());
            assert(seqs_concat(Seq::<Seq<u8>>::empty()) == Seq::<u8>::empty());
            assert(seqs_concat(seq![src]) =~= src);
            assert(seqs_concat(seg_items(src)) + seg_rest(src) =~= src);
        } else {
            let first = src.subrange(0, m + 2 + p);
            let rest = src.subrange(m + 2 + p, src.len() as int);
            lemma_seg_items_partition(rest);
            lemma_seqs_concat_prepend(first, seg_items(rest));
            assert(first + (seqs_concat(seg_items(rest)) + seg_rest(rest)) =~= src);
            assert((first + seqs_concat(seg_items(rest))) + seg_rest(rest) =~= first + (
            seqs_concat(seg_items(rest)) + seg_rest(rest)));
            assert(seqs_concat(seg_items(src)) == first + seqs_concat(seg_items(rest)));
            assert(seg_rest(src) == seg_rest(rest));
        }
    } else {
        assert(seqs_concat(seg_items(src)) + seg_rest(src) =~= src);
    }
}

/// Where the scan stops before the end, it stops on an item-starting
/// line.
proof fn lemma_next_item_line_dash(s: Seq<u8>, q: int)
    requires
        0 <= q <= s.len(),
    ensures
        next_item_line(s, q) < s.len() ==> dash_line_at(s, next_item_line(s, q)),
    decreases s.len() - q,
{
    lemma_first_byte(s.subrange(q, s.len() as int), NEWLINE);
    if !dash_line_at(s, q) {
        let e = line_end(s, q);
        if e + 1 <= s.len() {
            lemma_next_item_line_dash(s, e + 1);
        }
    }
}

/// Every dash that opens a line is followed by a space: every line that
/// looks like a list item really carries the `"- "` marker.  This is the
/// well-formedness of an ingredients block.
pub open spec fn dashes_marked(s: Seq<u8>) -> bool {
    forall|p: int|
        0 <= p <= s.len() && #[trigger] dash_line_at(s, p) ==> {
            let t = s.subrange(p, line_end(s, p));
            let w = first_non_ws(t);
            w + 1 < t.len() && t[w + 1] == SPACE
        }
}

/// On a well-formed block the segmenter consumes everything: nothing is
/// left behind, so the items concatenate back to the block.
pub proof fn lemma_seg_consumes_all(src: Seq<u8>)
    requires
        src.len() == 0 || crate::ingredient::has_marker(src),
        dashes_marked(src),
    ensures
        seg_rest(src) == Seq::<u8>::empty(),
        seqs_concat(seg_items(src)) == src,
    decreases src.len(),
{
    lemma_seg_items_partition(src);
    lemma_find_pat(src, dash_sp());
    let m = find_pat(src, dash_sp());
    if src.len() == 0 {
        assert(!match_at(src, dash_sp(), m));
        assert(seg_rest(src) =~= Seq::<u8>::empty());
    } else {
        let j = choose|j: int| match_at(src, dash_sp(), j);
        assert(m <= j && m < src.len() && match_at(src, dash_sp(), m));
        let tail = src.subrange(m + 2, src.len() as int);
        lemma_next_item_line_bounds(tail, 0);
        let p = next_item_line(tail, 0);
        if p >= tail.len() {
        } else {
            lemma_next_item_line_dash(tail, 0);
            assert(dash_line_at(tail, p));
            let c = m + 2 + p;
            let rest = src.subrange(c, src.len() as int);
            // the line at `p` of the tail is the line at `c` of the block
            assert(tail.subrange(p, tail.len() as int) =~= src.subrange(c, src.len() as int));
            assert(first_byte(tail.subrange(p, tail.len() as int), NEWLINE) == first_byte(
                src.subrange(c, src.len() as int),
                NEWLINE,
            ));
            assert(line_end(tail, p) - p == line_end(src, c) - c);
            crate::text::lemma_first_byte(tail.subrange(p, tail.len() as int), NEWLINE);
            crate::text::lemma_first_byte(src.subrange(c, src.len() as int), NEWLINE);
            let t = tail.subrange(p, line_end(tail, p));
            assert(t =~= tail.subrange(p, tail.len() as int).subrange(0, line_end(tail, p) - p));
            assert(src.subrange(c, line_end(src, c)) =~= src.subrange(c, src.len() as int).subrange(
                0,
                line_end(src, c) - c,
            ));
            assert(t == src.subrange(c, line_end(src, c)));
            assert(dash_line_at(src, c));
            let w = first_non_ws(t);
            crate::text::lemma_first_non_ws(t);
            assert(w + 1 < t.len() && t[w] == DASH && t[w + 1] == SPACE);
            // so the remainder holds the marker at the dash
            crate::text::lemma_first_byte(tail.subrange(p, tail.len() as int), NEWLINE);
            assert(t.len() <= rest.len());
            assert(rest.subrange(w, w + 2) =~= dash_sp());
            assert(match_at(rest, dash_sp(), w));
            assert(crate::ingredient::has_marker(rest));
            // well-formedness is inherited by the remainder
            assert forall|q: int| 0 <= q <= rest.len() && #[trigger] dash_line_at(rest, q) implies {
                let tq = rest.subrange(q, line_end(rest, q));
                let wq = first_non_ws(tq);
                wq + 1 < tq.len() && tq[wq + 1] == SPACE
            } by {
                assert(rest.subrange(q, rest.len() as int) =~= src.subrange(
                    c + q,
                    src.len() as int,
                ));
                assert(first_byte(rest.subrange(q, rest.len() as int), NEWLINE) == first_byte(
                    src.subrange(c + q, src.len() as int),
                    NEWLINE,
                ));
                assert(line_end(rest, q) - q == line_end(src, c + q) - (c + q));
                crate::text::lemma_first_byte(rest.subrange(q, rest.len() as int), NEWLINE);
                crate::text::lemma_first_byte(src.subrange(c + q, src.len() as int), NEWLINE);
                assert(rest.subrange(q, line_end(rest, q)) =~= rest.subrange(
                    q,
                    rest.len() as int,
                ).subrange(0, line_end(rest, q) - q));
                assert(src.subrange(c + q, line_end(src, c + q)) =~= src.subrange(
                    c + q,
                    src.len() as int,
                ).subrange(0, line_end(src, c + q) - (c + q)));
                assert(rest.subrange(q, line_end(rest, q)) == src.subrange(
                    c + q,
                    line_end(src, c + q),
                ));
                assert(dash_line_at(src, c + q));
            }
            lemma_seg_consumes_all(rest);
            assert(seg_rest(src) == seg_rest(rest));
        }
    }
    assert(seqs_concat(seg_items(src)) + Seq::<u8>::empty() =~= seqs_concat(seg_items(src)));
}

/// The round-trip law: a parsed document renders back byte-identical
/// whenever segmentation loses nothing of the ingredients block and every
/// list item renders back to itself (as every item without a quantity
/// does; a quantified item does when its quantity text is in the rendered
/// canonical form).
pub proof fn lemma_recipe_round_trip(src: Seq<u8>, r: Recipe)
    requires
        r.preface@ == recipe_split_spec(src).0,
        r.instructions@ == recipe_split_spec(src).2,
        r.ingredients@.len() == seg_items(recipe_split_spec(src).1).len(),
        forall|i: int|
            0 <= i < r.ingredients@.len() ==> {
                let p = ingredient_parse_spec(seg_items(recipe_split_spec(src).1)[i]);
                let g = #[trigger] r.ingredients@[i];
                g.indent@ == p.0 && g.quantity == p.1 && g.name@ == p.2
            },
        seqs_concat(seg_items(recipe_split_spec(src).1)) == recipe_split_spec(src).1,
        forall|i: int|
            0 <= i < seg_items(recipe_split_spec(src).1).len() ==> {
                let item = #[trigger] seg_items(recipe_split_spec(src).1)[i];
                let p = ingredient_parse_spec(item);
                ingredient_render_spec(p.0, p.1, p.2) == item
            },
    ensures
        recipe_render_spec(r) == src,
{
    lemma_split_sections_cover(src);
    let block = recipe_split_spec(src).1;
    let items = seg_items(block);
    assert forall|i: int| 0 <= i < r.ingredients@.len() implies ingredient_render_spec(
        (#[trigger] r.ingredients@[i]).indent@,
        r.ingredients@[i].quantity,
        r.ingredients@[i].name@,
    ) == items[i] by {
        assert(seg_items(recipe_split_spec(src).1)[i] == items[i]);
    }
    lemma_ingredients_render_concat(r.ingredients@, items);
    assert(recipe_render_spec(r) =~= src);
}

/// A corollary of the round-trip law: a document whose ingredients block
/// is well-formed (every dash line carries a real `"- "` marker) and
/// whose list items all parse to no quantity renders back byte-identical.
pub proof fn lemma_recipe_round_trip_unquantified(src: Seq<u8>, r: Recipe)
    requires
        r.preface@ == recipe_split_spec(src).0,
        r.instructions@ == recipe_split_spec(src).2,
        r.ingredients@.len() == seg_items(recipe_split_spec(src).1).len(),
        forall|i: int|
            0 <= i < r.ingredients@.len() ==> {
                let p = ingredient_parse_spec(seg_items(recipe_split_spec(src).1)[i]);
                let g = #[trigger] r.ingredients@[i];
                g.indent@ == p.0 && g.quantity == p.1 && g.name@ == p.2
            },
        recipe_split_spec(src).1.len() == 0 || crate::ingredient::has_marker(
            recipe_split_spec(src).1,
        ),
        dashes_marked(recipe_split_spec(src).1),
        forall|i: int|
            0 <= i < seg_items(recipe_split_spec(src).1).len() ==> ingredient_parse_spec(
                #[trigger] seg_items(recipe_split_spec(src).1)[i],
            ).1 == crate::quantity::Quantity::NoAmount,
    ensures
        recipe_render_spec(r) == src,
{
    let block = recipe_split_spec(src).1;
    lemma_seg_consumes_all(block);
    lemma_seg_items_marker(block);
    assert forall|i: int| 0 <= i < seg_items(block).len() implies {
        let item = #[trigger] seg_items(block)[i];
        let p = ingredient_parse_spec(item);
        ingredient_render_spec(p.0, p.1, p.2) == item
    } by {
        crate::ingredient::lemma_unquantified_round_trip(seg_items(block)[i]);
    }
    lemma_recipe_round_trip(src, r);
}

/// Scaling a recipe by a factor worth one preserves every quantity's
/// value; the text and the order of ingredients are untouched.
pub proof fn lemma_recipe_scale_one(orig: Recipe, scaled: Recipe, f: Fraction)
    requires
        orig.wf(),
        f.wf(),
        f.is_one(),
        orig.can_scale(f),
        recipe_scaled_by(orig, scaled, f),
    ensures
        scaled.preface@ == orig.preface@,
        scaled.instructions@ == orig.instructions@,
        scaled.ingredients@.len() == orig.ingredients@.len(),
        forall|i: int|
            0 <= i < orig.ingredients@.len() ==> {
                let a = orig.ingredients@[i];
                let b = #[trigger] scaled.ingredients@[i];
                b.indent@ == a.indent@ && b.name@ == a.name@ && b.quantity.same_value(a.quantity)
            },
{
    assert forall|i: int| 0 <= i < orig.ingredients@.len() implies {
        let a = orig.ingredients@[i];
        let b = #[trigger] scaled.ingredients@[i];
        b.indent@ == a.indent@ && b.name@ == a.name@ && b.quantity.same_value(a.quantity)
    } by {
        crate::quantity::lemma_quantity_scale_one(orig.ingredients@[i].quantity, f);
    }
}

/// Scaling a recipe by `a` and then by `b` yields the same recipe as
/// scaling it once by `a * b`.
pub proof fn lemma_recipe_scale_compose(
    orig: Recipe,
    sa: Recipe,
    sab: Recipe,
    sprod: Recipe,
    a: Fraction,
    b: Fraction,
)
    requires
        orig.wf(),
        a.wf(),
        b.wf(),
        a.can_multiply(b),
        orig.can_scale(a),
        orig.can_scale(a.product(b)),
        recipe_scaled_by(orig, sa, a),
        recipe_scaled_by(sa, sab, b),
        recipe_scaled_by(orig, sprod, a.product(b)),
    ensures
        sab.preface@ == sprod.preface@,
        sab.instructions@ == sprod.instructions@,
        sab.ingredients@.len() == sprod.ingredients@.len(),
        forall|i: int|
            0 <= i < sab.ingredients@.len() ==> {
                let x = #[trigger] sab.ingredients@[i];
                let y = sprod.ingredients@[i];
                x.indent@ == y.indent@ && x.name@ == y.name@ && x.quantity == y.quantity
            },
{
    assert forall|i: int| 0 <= i < sab.ingredients@.len() implies {
        let x = #[trigger] sab.ingredients@[i];
        let y = sprod.ingredients@[i];
        x.indent@ == y.indent@ && x.name@ == y.name@ && x.quantity == y.quantity
    } by {
        crate::quantity::lemma_quantity_scale_compose(orig.ingredients@[i].quantity, a, b);
    }
}

} // verus!
