//! The volume engine: recognizes textual amount/unit pairs as exact counts
//! of quarter-teaspoons, scales them, and renders them back as a greedy,
//! largest-unit-first mixed-fraction string.

use vstd::prelude::*;

use crate::frac::{gcd, gcd_u128, lemma_gcd_pos, Fraction};
use crate::number::{parse_number, parse_number_spec};
use crate::text::{digit_seq, push_uint, PLUS, SLASH, SPACE};

verus! {

/// Quarter-teaspoons in one cup.
pub const CUP_QT: u64 = 192;

/// Quarter-teaspoons in three quarters of a cup.
pub const THREE_QUARTER_CUP_QT: u64 = 144;

/// Quarter-teaspoons in two thirds of a cup.
pub const TWO_THIRDS_CUP_QT: u64 = 128;

/// Quarter-teaspoons in half a cup.
pub const HALF_CUP_QT: u64 = 96;

/// Quarter-teaspoons in a third of a cup.
pub const THIRD_CUP_QT: u64 = 64;

/// Quarter-teaspoons in a quarter of a cup.
pub const QUARTER_CUP_QT: u64 = 48;

/// Quarter-teaspoons in one tablespoon.
pub const TABLESPOON_QT: u64 = 12;

/// Quarter-teaspoons in half a tablespoon.
pub const HALF_TABLESPOON_QT: u64 = 6;

/// Quarter-teaspoons in one teaspoon.
pub const TEASPOON_QT: u64 = 4;

/// Quarter-teaspoons in half a teaspoon.
pub const HALF_TEASPOON_QT: u64 = 2;

/// A volume: an exact, non-negative count of quarter-teaspoons, the
/// smallest unit the format recognizes.
#[derive(Clone, Copy, Debug, PartialEq, Eq, Structural)]
pub struct Volume {
    pub quarter_teaspoons: Fraction,
}

/// Lowercases one ASCII letter.
pub open spec fn to_lower(c: u8) -> u8 {
    if 65 <= c && c <= 90 {
        (c + 32) as u8
    } else {
        c
    }
}

/// Lowercases a byte string.
pub open spec fn lower(s: Seq<u8>) -> Seq<u8> {
    Seq::new(s.len(), |i: int| to_lower(s[i]))
}

/// The text names the cup unit ("cup" or "cups", any case).
pub open spec fn is_cup_unit(s: Seq<u8>) -> bool {
    lower(s) == seq![99u8, 117, 112] || lower(s) == seq![99u8, 117, 112, 115]
}

/// The text names the tablespoon unit ("tablespoon", "tablespoons", "tb",
/// "tbs", "tbsp" or "tbsps", any case).
pub open spec fn is_tablespoon_unit(s: Seq<u8>) -> bool {
    ||| lower(s) == seq![116u8, 98]
    ||| lower(s) == seq![116u8, 98, 115]
    ||| lower(s) == seq![116u8, 98, 115, 112]
    ||| lower(s) == seq![116u8, 98, 115, 112, 115]
    ||| lower(s) == seq![116u8, 97, 98, 108, 101, 115, 112, 111, 111, 110]
    ||| lower(s) == seq![116u8, 97, 98, 108, 101, 115, 112, 111, 111, 110, 115]
}

/// The text names the teaspoon unit ("teaspoon", "teaspoons", "tsp" or
/// "tsps", any case).
pub open spec fn is_teaspoon_unit(s: Seq<u8>) -> bool {
    ||| lower(s) == seq![116u8, 115, 112]
    ||| lower(s) == seq![116u8, 115, 112, 115]
    ||| lower(s) == seq![116u8, 101, 97, 115, 112, 111, 111, 110]
    ||| lower(s) == seq![116u8, 101, 97, 115, 112, 111, 111, 110, 115]
}

/// The size of the named unit in quarter-teaspoons, or `None` for an
/// unrecognized unit.
pub open spec fn unit_quarter_teaspoons(s: Seq<u8>) -> Option<u64> {
    if is_cup_unit(s) {
        Some(CUP_QT)
    } else if is_tablespoon_unit(s) {
        Some(TABLESPOON_QT)
    } else if is_teaspoon_unit(s) {
        Some(TEASPOON_QT)
    } else {
        None
    }
}

/// The volume denoted by an amount and a unit: the amount times the unit
/// size.  `None` when the amount is malformed, the unit is unrecognized, or
/// the numerator does not fit a machine word.
pub open spec fn volume_parse_spec(amount: Seq<u8>, unit: Seq<u8>) -> Option<Volume> {
    match parse_number_spec(amount) {
        Some(f) => match unit_quarter_teaspoons(unit) {
            Some(u) => if f.num * u <= u64::MAX {
                Some(Volume { quarter_teaspoons: Fraction { num: (f.num * u) as u64, den: f.den } })
            } else {
                None
            },
            None => None,
        },
        None => None,
    }
}

/// Lowercases one ASCII letter.
fn lower_byte(c: u8) -> (r: u8)
    ensures
        r == to_lower(c),
{
    if 65 <= c && c <= 90 {
        c + 32
    } else {
        c
    }
}

/// Lowercases a byte string.
fn lower_vec(s: &[u8]) -> (r: Vec<u8>)
    ensures
        r@ == lower(s@),
{
    let n = s.len();
    let mut out: Vec<u8> = Vec::new();
    let mut i: usize = 0;
    while i < n
        invariant
            n == s@.len(),
            i <= n,
            out@.len() == i,
            forall|k: int| 0 <= k < i ==> out@[k] == to_lower(s@[k]),
        decreases n - i,
    {
        out.push(lower_byte(s[i]));
        i = i + 1;
    }
    assert(out@ =~= lower(s@));
    out
}

/// Looks the unit text up in the alias table, case-insensitively.
pub fn unit_lookup(unit: &[u8]) -> (r: Option<u64>)
    ensures
        r == unit_quarter_teaspoons(unit@),
{
    let lv = lower_vec(unit);
    let n = lv.len();
    if n == 3 && lv[0] == 99 && lv[1] == 117 && lv[2] == 112 {
        assert(lower(unit@) =~= seq![99u8, 117, 112]);
        Some(CUP_QT)
    } else if n == 4 && lv[0] == 99 && lv[1] == 117 && lv[2] == 112 && lv[3] == 115 {
        assert(lower(unit@) =~= seq![99u8, 117, 112, 115]);
        Some(CUP_QT)
    } else if n == 2 && lv[0] == 116 && lv[1] == 98 {
        assert(lower(unit@) =~= seq![116u8, 98]);
        Some(TABLESPOON_QT)
    } else if n == 3 && lv[0] == 116 && lv[1] == 98 && lv[2] == 115 {
        assert(lower(unit@) =~= seq![116u8, 98, 115]);
        Some(TABLESPOON_QT)
    } else if n == 4 && lv[0] == 116 && lv[1] == 98 && lv[2] == 115 && lv[3] == 112 {
        assert(lower(unit@) =~= seq![116u8, 98, 115, 112]);
        Some(TABLESPOON_QT)
    } else if n == 5 && lv[0] == 116 && lv[1] == 98 && lv[2] == 115 && lv[3] == 112 && lv[4]
        == 115 {
        assert(lower(unit@) =~= seq![116u8, 98, 115, 112, 115]);
        Some(TABLESPOON_QT)
    } else if n == 10 && lv[0] == 116 && lv[1] == 97 && lv[2] == 98 && lv[3] == 108 && lv[4] == 101
        && lv[5] == 115 && lv[6] == 112 && lv[7] == 111 && lv[8] == 111 && lv[9] == 110 {
        assert(lower(unit@) =~= seq![116u8, 97, 98, 108, 101, 115, 112, 111, 111, 110]);
        Some(TABLESPOON_QT)
    } else if n == 11 && lv[0] == 116 && lv[1] == 97 && lv[2] == 98 && lv[3] == 108 && lv[4] == 101
        && lv[5] == 115 && lv[6] == 112 && lv[7] == 111 && lv[8] == 111 && lv[9] == 110 && lv[10]
        == 115 {
        assert(lower(unit@) =~= seq![116u8, 97, 98, 108, 101, 115, 112, 111, 111, 110, 115]);
        Some(TABLESPOON_QT)
    } else if n == 3 && lv[0] == 116 && lv[1] == 115 && lv[2] == 112 {
        assert(lower(unit@) =~= seq![116u8, 115, 112]);
        Some(TEASPOON_QT)
    } else if n == 4 && lv[0] == 116 && lv[1] == 115 && lv[2] == 112 && lv[3] == 115 {
        assert(lower(unit@) =~= seq![116u8, 115, 112, 115]);
        Some(TEASPOON_QT)
    } else if n == 8 && lv[0] == 116 && lv[1] == 101 && lv[2] == 97 && lv[3] == 115 && lv[4] == 112
        && lv[5] == 111 && lv[6] == 111 && lv[7] == 110 {
        assert(lower(unit@) =~= seq![116u8, 101, 97, 115, 112, 111, 111, 110]);
        Some(TEASPOON_QT)
    } else if n == 9 && lv[0] == 116 && lv[1] == 101 && lv[2] == 97 && lv[3] == 115 && lv[4] == 112
        && lv[5] == 111 && lv[6] == 111 && lv[7] == 110 && lv[8] == 115 {
        assert(lower(unit@) =~= seq![116u8, 101, 97, 115, 112, 111, 111, 110, 115]);
        Some(TEASPOON_QT)
    } else {
        None
    }
}

/// Joins a token onto a partial rendering: a `"+ "` separator first when
/// something already stands there.
pub open spec fn join(out: Seq<u8>, tok: Seq<u8>) -> Seq<u8> {
    if out.len() > 0 {
        out + seq![PLUS, SPACE] + tok
    } else {
        out + tok
    }
}

/// The token for a leftover fraction of a teaspoon: the reduced fraction
/// `p/q` of `num / den` teaspoons, followed by a space.
pub open spec fn tsp_frac_tok(num: int, den: int) -> Seq<u8> {
    let g = gcd(num as nat, den as nat);
    digit_seq((num as nat / g) as nat) + seq![SLASH] + digit_seq((den as nat / g) as nat) + seq![
        SPACE,
    ]
}

/// The cup group of a rendering: whole cups, then at most the cup fractions
/// 3/4, 2/3, 1/2, 1/3, 1/4 taken greedily from the remainder, then the unit
/// label, pluralized when more than one cup or a fraction joined an earlier
/// token.  Returns the group text and the remainder in `num/den`
/// quarter-teaspoons.
pub open spec fn cup_part(num: int, den: int) -> (Seq<u8>, int) {
    let cups = num / (CUP_QT * den);
    let r0 = num % (CUP_QT * den);
    let s0: Seq<u8> = if cups > 0 {
        digit_seq(cups as nat).push(SPACE)
    } else {
        Seq::empty()
    };
    let f1 = r0 >= THREE_QUARTER_CUP_QT * den;
    let s1 = if f1 {
        join(s0, seq![51u8, SLASH, 52, SPACE])
    } else {
        s0
    };
    let p1 = f1 && s0.len() > 0;
    let r1 = if f1 {
        r0 - THREE_QUARTER_CUP_QT * den
    } else {
        r0
    };
    let f2 = r1 >= TWO_THIRDS_CUP_QT * den;
    let s2 = if f2 {
        join(s1, seq![50u8, SLASH, 51, SPACE])
    } else {
        s1
    };
    let p2 = p1 || (f2 && s1.len() > 0);
    let r2 = if f2 {
        r1 - TWO_THIRDS_CUP_QT * den
    } else {
        r1
    };
    let f3 = r2 >= HALF_CUP_QT * den;
    let s3 = if f3 {
        join(s2, seq![49u8, SLASH, 50, SPACE])
    } else {
        s2
    };
    let p3 = p2 || (f3 && s2.len() > 0);
    let r3 = if f3 {
        r2 - HALF_CUP_QT * den
    } else {
        r2
    };
    let f4 = r3 >= THIRD_CUP_QT * den;
    let s4 = if f4 {
        join(s3, seq![49u8, SLASH, 51, SPACE])
    } else {
        s3
    };
    let p4 = p3 || (f4 && s3.len() > 0);
    let r4 = if f4 {
        r3 - THIRD_CUP_QT * den
    } else {
        r3
    };
    let f5 = r4 >= QUARTER_CUP_QT * den;
    let s5 = if f5 {
        join(s4, seq![49u8, SLASH, 52, SPACE])
    } else {
        s4
    };
    let p5 = p4 || (f5 && s4.len() > 0);
    let r5 = if f5 {
        r4 - QUARTER_CUP_QT * den
    } else {
        r4
    };
    let txt = if cups > 1 || p5 {
        s5 + seq![99u8, 117, 112, 115]
    } else if s5.len() > 0 {
        s5 + seq![99u8, 117, 112]
    } else {
        s5
    };
    (txt, r5)
}

/// The tablespoon group: whole tablespoons, then a half tablespoon only
/// when the leftover lies in [half a tablespoon, two teaspoons), then the
/// label.  Appends to the text of the earlier groups.
pub open spec fn tbsp_part(out: Seq<u8>, num: int, den: int) -> (Seq<u8>, int) {
    let tb = num / (TABLESPOON_QT * den);
    let r0 = num % (TABLESPOON_QT * den);
    let s0 = if tb > 0 {
        join(out, digit_seq(tb as nat).push(SPACE))
    } else {
        out
    };
    let fh = HALF_TABLESPOON_QT * den <= r0 && r0 < 2 * TEASPOON_QT * den;
    let s1 = if fh {
        join(s0, seq![49u8, SLASH, 50, SPACE])
    } else {
        s0
    };
    let plural = fh && tb > 0;
    let r1 = if fh {
        r0 - HALF_TABLESPOON_QT * den
    } else {
        r0
    };
    let txt = if tb > 1 || plural {
        s1 + seq![116u8, 98, 115, 112, 115]
    } else if tb > 0 || fh {
        s1 + seq![116u8, 98, 115, 112]
    } else {
        s1
    };
    (txt, r1)
}

/// The teaspoon group: whole teaspoons, a half, a quarter, then any
/// still-remaining fraction of a teaspoon as a reduced fraction token.
pub open spec fn tsp_part(out: Seq<u8>, num: int, den: int) -> Seq<u8> {
    let ts = num / (TEASPOON_QT * den);
    let r0 = num % (TEASPOON_QT * den);
    let s0 = if ts > 0 {
        join(out, digit_seq(ts as nat).push(SPACE))
    } else {
        out
    };
    let has0 = ts > 0;
    let fh = r0 >= HALF_TEASPOON_QT * den;
    let s1 = if fh {
        join(s0, seq![49u8, SLASH, 50, SPACE])
    } else {
        s0
    };
    let p1 = fh && has0;
    let has1 = has0 || fh;
    let r1 = if fh {
        r0 - HALF_TEASPOON_QT * den
    } else {
        r0
    };
    let fq = r1 >= den;
    let s2 = if fq {
        join(s1, seq![49u8, SLASH, 52, SPACE])
    } else {
        s1
    };
    let p2 = if fq {
        has1
    } else {
        p1
    };
    let has2 = has1 || fq;
    let r2 = if fq {
        r1 - den
    } else {
        r1
    };
    let fl = r2 > 0;
    let s3 = if fl {
        join(s2, tsp_frac_tok(r2, TEASPOON_QT * den))
    } else {
        s2
    };
    let p3 = if fl {
        has2
    } else {
        p2
    };
    let has3 = has2 || fl;
    if ts > 1 || p3 {
        s3 + seq![116u8, 115, 112, 115]
    } else if has3 {
        s3 + seq![116u8, 115, 112]
    } else {
        s3
    }
}

/// The full rendering of a volume of `f` quarter-teaspoons: the cup,
/// tablespoon and teaspoon groups in order.  A zero volume renders as the
/// empty string.
pub open spec fn volume_render(f: Fraction) -> Seq<u8> {
    let n = f.num as int;
    let d = f.den as int;
    let (ct, cr) = cup_part(n, d);
    let (tt, tr) = tbsp_part(ct, cr, d);
    tsp_part(tt, tr, d)
}

/// Appends `"+ "` (when `out` is non-empty) and the token `a/b` and a
/// space.
fn push_frac_tok(out: &mut Vec<u8>, a: u8, b: u8)
    ensures
        final(out)@ == join(old(out)@, seq![a, SLASH, b, SPACE]),
{
    if out.len() > 0 {
        out.push(PLUS);
        out.push(SPACE);
    }
    out.push(a);
    out.push(SLASH);
    out.push(b);
    out.push(SPACE);
    assert(out@ =~= join(old(out)@, seq![a, SLASH, b, SPACE]));
}

/// Appends `"+ "` (when `out` is non-empty) and the digits of `n` and a
/// space.
fn push_join_num(out: &mut Vec<u8>, n: u128)
    ensures
        final(out)@ == join(old(out)@, digit_seq(n as nat).push(SPACE)),
{
    if out.len() > 0 {
        out.push(PLUS);
        out.push(SPACE);
    }
    push_uint(out, n);
    out.push(SPACE);
    assert(out@ =~= join(old(out)@, digit_seq(n as nat).push(SPACE)));
}

/// The executable cup group; see [`cup_part`].
fn cup_phase(num: u128, den: u128) -> (res: (Vec<u8>, u128))
    requires
        1 <= den <= u64::MAX,
        num <= u64::MAX,
    ensures
        res.0@ == cup_part(num as int, den as int).0,
        res.1 as int == cup_part(num as int, den as int).1,
        res.1 < 192 * den,
{
    let cup: u128 = 192 * den;
    let cups: u128 = num / cup;
    let mut r: u128 = num % cup;
    let mut out: Vec<u8> = Vec::new();
    let mut plural: bool = false;
    if cups > 0 {
        push_uint(&mut out, cups);
        out.push(SPACE);
        assert(out@ =~= digit_seq(cups as nat).push(SPACE));
    }
    if r >= 144 * den {
        if out.len() > 0 {
            plural = true;
        }
        push_frac_tok(&mut out, 51, 52);
        r = r - 144 * den;
    }
    if r >= 128 * den {
        if out.len() > 0 {
            plural = true;
        }
        push_frac_tok(&mut out, 50, 51);
        r = r - 128 * den;
    }
    if r >= 96 * den {
        if out.len() > 0 {
            plural = true;
        }
        push_frac_tok(&mut out, 49, 50);
        r = r - 96 * den;
    }
    if r >= 64 * den {
        if out.len() > 0 {
            plural = true;
        }
        push_frac_tok(&mut out, 49, 51);
        r = r - 64 * den;
    }
    if r >= 48 * den {
        if out.len() > 0 {
            plural = true;
        }
        push_frac_tok(&mut out, 49, 52);
        r = r - 48 * den;
    }
    if cups > 1 || plural {
        out.push(99);
        out.push(117);
        out.push(112);
        out.push(115);
        assert(out@ =~= cup_part(num as int, den as int).0);
    } else if out.len() > 0 {
        out.push(99);
        out.push(117);
        out.push(112);
        assert(out@ =~= cup_part(num as int, den as int).0);
    }
    (out, r)
}

/// The executable tablespoon group; see [`tbsp_part`].
fn tbsp_phase(txt: Vec<u8>, num: u128, den: u128) -> (res: (Vec<u8>, u128))
    requires
        1 <= den <= u64::MAX,
        num < 192 * den,
    ensures
        res.0@ == tbsp_part(txt@, num as int, den as int).0,
        res.1 as int == tbsp_part(txt@, num as int, den as int).1,
        res.1 < 12 * den,
{
    let mut out = txt;
    let tbd: u128 = 12 * den;
    let tb: u128 = num / tbd;
    let mut r: u128 = num % tbd;
    let mut has: bool = false;
    let mut plural: bool = false;
    if tb > 0 {
        has = true;
        push_join_num(&mut out, tb);
    }
    if 6 * den <= r && r < 8 * den {
        plural = has;
        has = true;
        push_frac_tok(&mut out, 49, 50);
        r = r - 6 * den;
    }
    if tb > 1 || plural {
        out.push(116);
        out.push(98);
        out.push(115);
        out.push(112);
        out.push(115);
        assert(out@ =~= tbsp_part(txt@, num as int, den as int).0);
    } else if has {
        out.push(116);
        out.push(98);
        out.push(115);
        out.push(112);
        assert(out@ =~= tbsp_part(txt@, num as int, den as int).0);
    }
    (out, r)
}

/// The executable teaspoon group; see [`tsp_part`].
#[verifier::rlimit(100)]
fn tsp_phase(txt: Vec<u8>, num: u128, den: u128) -> (res: Vec<u8>)
    requires
        1 <= den <= u64::MAX,
        num < 12 * den,
    ensures
        res@ == tsp_part(txt@, num as int, den as int),
{
    let mut out = txt;
    let tsd: u128 = 4 * den;
    let ts: u128 = num / tsd;
    let mut r: u128 = num % tsd;
    let mut has: bool = false;
    let mut plural: bool = false;
    if ts > 0 {
        has = true;
        push_join_num(&mut out, ts);
    }
    if r >= 2 * den {
        plural = has;
        has = true;
        push_frac_tok(&mut out, 49, 50);
        r = r - 2 * den;
    }
    if r >= den {
        plural = has;
        has = true;
        push_frac_tok(&mut out, 49, 52);
        r = r - den;
    }
    if r > 0 {
        plural = has;
        has = true;
        proof {
            lemma_gcd_pos(r as nat, (4 * den) as nat);
        }
        let ghost pre = out@;
        if out.len() > 0 {
            out.push(PLUS);
            out.push(SPACE);
        }
        let g = gcd_u128(r, 4 * den);
        push_uint(&mut out, r / g);
        out.push(SLASH);
        push_uint(&mut out, (4 * den) / g);
        out.push(SPACE);
        assert(out@ =~= join(pre, tsp_frac_tok(r as int, (4 * den) as int)));
    }
    if ts > 1 || plural {
        out.push(116);
        out.push(115);
        out.push(112);
        out.push(115);
        assert(out@ =~= tsp_part(txt@, num as int, den as int));
    } else if has {
        out.push(116);
        out.push(115);
        out.push(112);
        assert(out@ =~= tsp_part(txt@, num as int, den as int));
    }
    out
}

impl Volume {
    /// Well-formed: the count of quarter-teaspoons is a well-formed
    /// fraction.
    pub open spec fn wf(self) -> bool {
        self.quarter_teaspoons.wf()
    }

    /// The exact count of quarter-teaspoons.
    pub fn quarter_teaspoons(&self) -> (r: Fraction)
        ensures
            r == self.quarter_teaspoons,
    {
        self.quarter_teaspoons
    }

    /// Scales the volume by an exact factor, producing a new volume; the
    /// original is untouched.
    pub fn scale(&self, factor: Fraction) -> (r: Volume)
        requires
            self.wf(),
            factor.wf(),
            self.quarter_teaspoons.can_multiply(factor),
        ensures
            r.quarter_teaspoons == self.quarter_teaspoons.product(factor),
            r.wf(),
    {
        Volume { quarter_teaspoons: self.quarter_teaspoons.times(factor) }
    }

    /// Recognizes an amount/unit text pair as a volume.
    pub fn parse(amount: &[u8], unit: &[u8]) -> (r: Option<Volume>)
        ensures
            r == volume_parse_spec(amount@, unit@),
            r is Some ==> r->Some_0.wf(),
    {
        let f = match parse_number(amount) {
            Some(f) => f,
            None => {
                return None;
            },
        };
        let u = match unit_lookup(unit) {
            Some(u) => u,
            None => {
                return None;
            },
        };
        match f.num.checked_mul(u) {
            Some(p) => Some(Volume { quarter_teaspoons: Fraction { num: p, den: f.den } }),
            None => None,
        }
    }

    /// Renders the volume as a human mixed-fraction string, cups first,
    /// then tablespoons, then teaspoons.
    pub fn render(&self) -> (r: Vec<u8>)
        requires
            self.wf(),
        ensures
            r@ == volume_render(self.quarter_teaspoons),
    {
        let num: u128 = self.quarter_teaspoons.num as u128;
        let den: u128 = self.quarter_teaspoons.den as u128;
        let (ct, cr) = cup_phase(num, den);
        let (tt, tr) = tbsp_phase(ct, cr, den);
        tsp_phase(tt, tr, den)
    }
}

/// Every alias of the tablespoon unit yields the same volume for the same
/// amount; likewise inside the cup and teaspoon alias sets.
/// A tablespoon alias is no cup alias: they differ in their first letter.
proof fn lemma_tb_not_cup(s: Seq<u8>)
    requires
        is_tablespoon_unit(s),
    ensures
        !is_cup_unit(s),
{
    assert(lower(s)[0] == 116);
}

/// A teaspoon alias is no cup alias: they differ in their first letter.
proof fn lemma_tsp_not_cup(s: Seq<u8>)
    requires
        is_teaspoon_unit(s),
    ensures
        !is_cup_unit(s),
{
    assert(lower(s)[0] == 116);
}

/// A teaspoon alias is no tablespoon alias: they differ in their second
/// letter.
proof fn lemma_tsp_not_tb(s: Seq<u8>)
    requires
        is_teaspoon_unit(s),
    ensures
        !is_tablespoon_unit(s),
{
    assert(lower(s)[1] == 115 || lower(s)[1] == 101);
}

/// Every alias of the tablespoon unit yields the same volume for the same
/// amount; likewise inside the cup and teaspoon alias sets.
pub proof fn lemma_unit_alias_equivalent(amount: Seq<u8>, u1: Seq<u8>, u2: Seq<u8>)
    requires
        is_tablespoon_unit(u1) && is_tablespoon_unit(u2) || is_cup_unit(u1) && is_cup_unit(u2)
            || is_teaspoon_unit(u1) && is_teaspoon_unit(u2),
    ensures
        volume_parse_spec(amount, u1) == volume_parse_spec(amount, u2),
{
    if is_cup_unit(u1) && is_cup_unit(u2) {
        assert(unit_quarter_teaspoons(u1) == Some(CUP_QT));
        assert(unit_quarter_teaspoons(u2) == Some(CUP_QT));
    } else if is_tablespoon_unit(u1) && is_tablespoon_unit(u2) {
        lemma_tb_not_cup(u1);
        lemma_tb_not_cup(u2);
        assert(unit_quarter_teaspoons(u1) == Some(TABLESPOON_QT));
        assert(unit_quarter_teaspoons(u2) == Some(TABLESPOON_QT));
    } else {
        lemma_tsp_not_cup(u1);
        lemma_tsp_not_cup(u2);
        lemma_tsp_not_tb(u1);
        lemma_tsp_not_tb(u2);
        assert(unit_quarter_teaspoons(u1) == Some(TEASPOON_QT));
        assert(unit_quarter_teaspoons(u2) == Some(TEASPOON_QT));
    }
}

} // verus!
