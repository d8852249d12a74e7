//! The numeric amount grammar: a plain decimal ("2", "1.5", ".5") or an
//! integer fraction ("3/4"), parsed into an exact [`Fraction`].

use vstd::prelude::*;

use crate::frac::Fraction;
use crate::text::{
    all_digits, digits_val, find_byte, first_byte, is_digit, parse_digits, pow10, pow10_u64, DOT,
    SLASH,
};

verus! {

/// The byte may appear in a plain decimal: a digit or the decimal point.
pub open spec fn digit_or_dot(c: u8) -> bool {
    is_digit(c) || c == DOT
}

/// The digits of a decimal with its (first) decimal point removed.
pub open spec fn remove_dot(s: Seq<u8>) -> Seq<u8> {
    let fd = first_byte(s, DOT);
    if fd < s.len() {
        s.subrange(0, fd) + s.subrange(fd + 1, s.len() as int)
    } else {
        s
    }
}

/// The number of digits after the decimal point.
pub open spec fn frac_digits(s: Seq<u8>) -> nat {
    let fd = first_byte(s, DOT);
    if fd < s.len() {
        (s.len() - fd - 1) as nat
    } else {
        0
    }
}

/// The text is a well-formed plain decimal: non-empty, only digits and at
/// most one decimal point, and at least one digit.
pub open spec fn dec_wf(s: Seq<u8>) -> bool {
    &&& s.len() > 0
    &&& forall|i: int| 0 <= i < s.len() ==> digit_or_dot(#[trigger] s[i])
    &&& forall|k: int| first_byte(s, DOT) < k < s.len() ==> s[k] != DOT
    &&& remove_dot(s).len() > 0
}

/// The numeric amount denoted by `s`, as an exact fraction:
/// `"a/b"` (both sides all-digit, `b` non-zero) denotes `a / b`; a plain
/// decimal with `k` digits after the point denotes `digits / 10^k`.
/// `None` on malformed text and on values that do not fit a machine word.
pub open spec fn parse_number_spec(s: Seq<u8>) -> Option<Fraction> {
    let fs = first_byte(s, SLASH);
    if fs < s.len() {
        let a = s.subrange(0, fs);
        let b = s.subrange(fs + 1, s.len() as int);
        if a.len() > 0 && all_digits(a) && b.len() > 0 && all_digits(b) && digits_val(a)
            <= u64::MAX && digits_val(b) <= u64::MAX && digits_val(b) > 0 {
            Some(Fraction { num: digits_val(a) as u64, den: digits_val(b) as u64 })
        } else {
            None
        }
    } else {
        if dec_wf(s) && digits_val(remove_dot(s)) <= u64::MAX && pow10(frac_digits(s))
            <= u64::MAX {
            Some(
                Fraction {
                    num: digits_val(remove_dot(s)) as u64,
                    den: pow10(frac_digits(s)) as u64,
                },
            )
        } else {
            None
        }
    }
}

/// A successfully parsed amount is a well-formed fraction.
pub proof fn lemma_parse_number_wf(s: Seq<u8>)
    requires
        parse_number_spec(s) is Some,
    ensures
        parse_number_spec(s)->Some_0.wf(),
{
    let fs = first_byte(s, SLASH);
    if !(fs < s.len()) {
        crate::text::lemma_pow10_pos(frac_digits(s));
    }
}

/// Parses a numeric amount.
pub fn parse_number(s: &[u8]) -> (r: Option<Fraction>)
    ensures
        r == parse_number_spec(s@),
        r is Some ==> r->Some_0.wf(),
{
    proof {
        if parse_number_spec(s@) is Some {
            lemma_parse_number_wf(s@);
        }
    }
    let n = s.len();
    let fs = find_byte(s, SLASH);
    if fs < n {
        let a = vstd::slice::slice_subrange(s, 0, fs);
        let b = vstd::slice::slice_subrange(s, fs + 1, n);
        proof {
            if all_digits(a@) {
                crate::text::lemma_digits_val_nonneg(a@);
            }
            if all_digits(b@) {
                crate::text::lemma_digits_val_nonneg(b@);
            }
        }
        match (parse_digits(a), parse_digits(b)) {
            (Some(va), Some(vb)) => {
                if vb > 0 {
                    Some(Fraction { num: va, den: vb })
                } else {
                    None
                }
            },
            _ => None,
        }
    } else {
        let fd = find_byte(s, DOT);
        let mut dv: Vec<u8> = Vec::new();
        let mut i: usize = 0;
        while i < n
            invariant
                n == s@.len(),
                i <= n,
                first_byte(s@, SLASH) >= n,
                fd == first_byte(s@, DOT),
                fd <= n,
                fd < n ==> s@[fd as int] == DOT,
                forall|k: int| 0 <= k < fd ==> s@[k] != DOT,
                forall|k: int| 0 <= k < i ==> digit_or_dot(#[trigger] s@[k]),
                forall|k: int| fd < k < i ==> s@[k] != DOT,
                dv@ == (if fd < i {
                    s@.subrange(0, fd as int) + s@.subrange(fd + 1, i as int)
                } else {
                    s@.subrange(0, i as int)
                }),
            decreases n - i,
        {
            let c = s[i];
            if c == DOT {
                if i != fd {
                    // a second decimal point: not a well-formed decimal
                    assert(first_byte(s@, DOT) < i < s@.len() && s@[i as int] == DOT);
                    assert(!dec_wf(s@));
                    return None;
                }
                assert(dv@ =~= (if fd < i + 1 {
                    s@.subrange(0, fd as int) + s@.subrange(fd + 1, (i + 1) as int)
                } else {
                    s@.subrange(0, (i + 1) as int)
                }));
            } else if c >= crate::text::ZERO && c <= crate::text::ZERO + 9 {
                dv.push(c);
                assert(dv@ =~= (if fd < i + 1 {
                    s@.subrange(0, fd as int) + s@.subrange(fd + 1, (i + 1) as int)
                } else {
                    s@.subrange(0, (i + 1) as int)
                }));
            } else {
                assert(!digit_or_dot(s@[i as int]));
                assert(!dec_wf(s@));
                return None;
            }
            i = i + 1;
        }
        assert(dv@ =~= remove_dot(s@));
        proof {
            assert forall|k: int| 0 <= k < dv@.len() implies is_digit(#[trigger] dv@[k]) by {
                if fd < n {
                    if k < fd {
                        assert(dv@[k] == s@[k]);
                        assert(s@[k] != DOT);
                    } else {
                        assert(dv@[k] == s@[k + 1]);
                        assert(s@[k + 1] != DOT);
                    }
                } else {
                    assert(dv@[k] == s@[k]);
                    assert(s@[k] != DOT);
                }
            }
            assert(all_digits(dv@));
        }
        if dv.len() == 0 {
            assert(!dec_wf(s@));
            return None;
        }
        assert(dec_wf(s@));
        let fl: usize = if fd < n {
            n - fd - 1
        } else {
            0
        };
        assert(fl == frac_digits(s@));
        let den = match pow10_u64(fl) {
            Some(d) => d,
            None => {
                return None;
            },
        };
        let num = match parse_digits(dv.as_slice()) {
            Some(v) => v,
            None => {
                return None;
            },
        };
        Some(Fraction { num, den })
    }
}

} // verus!
