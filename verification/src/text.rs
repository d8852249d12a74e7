//! Byte-level text helpers: decimal digits, numeric parsing, substring
//! search.  All text in the library is a sequence of bytes.

use vstd::prelude::*;

verus! {

/// ASCII code of `'0'`.
pub const ZERO: u8 = 48;

/// ASCII code of `' '`.
pub const SPACE: u8 = 32;

/// ASCII code of `'\n'`.
pub const NEWLINE: u8 = 10;

/// ASCII code of `'\t'`.
pub const TAB: u8 = 9;

/// ASCII code of `'-'`.
pub const DASH: u8 = 45;

/// ASCII code of `'#'`.
pub const HASH: u8 = 35;

/// ASCII code of `'.'`.
pub const DOT: u8 = 46;

/// ASCII code of `'/'`.
pub const SLASH: u8 = 47;

/// ASCII code of `'+'`.
pub const PLUS: u8 = 43;

/// The byte is an ASCII decimal digit.
pub open spec fn is_digit(c: u8) -> bool {
    ZERO <= c && c <= ZERO + 9
}

/// The decimal digit string of `n`, most significant digit first.
pub open spec fn digit_seq(n: nat) -> Seq<u8>
    decreases n,
{
    if n < 10 {
        seq![(ZERO + n) as u8]
    } else {
        digit_seq(n / 10).push((ZERO + n % 10) as u8)
    }
}

/// Appends the decimal digit string of `n` to `out`.
pub fn push_uint(out: &mut Vec<u8>, n: u128)
    ensures
        final(out)@ == old(out)@ + digit_seq(n as nat),
    decreases n,
{
    if n < 10 {
        out.push(ZERO + (n as u8));
        assert(out@ =~= old(out)@ + digit_seq(n as nat));
    } else {
        push_uint(out, n / 10);
        out.push(ZERO + ((n % 10) as u8));
        assert(out@ =~= old(out)@ + digit_seq(n as nat));
    }
}

/// ASCII code of `'\r'`.
pub const CR: u8 = 13;

/// Every byte of `s` is a decimal digit.
pub open spec fn all_digits(s: Seq<u8>) -> bool {
    forall|i: int| 0 <= i < s.len() ==> is_digit(#[trigger] s[i])
}

/// The integer denoted by a digit string, most significant digit first.
/// Meaningful only under [`all_digits`].
pub open spec fn digits_val(s: Seq<u8>) -> int
    decreases s.len(),
{
    if s.len() == 0 {
        0
    } else {
        digits_val(s.drop_last()) * 10 + (s.last() - ZERO)
    }
}

pub proof fn lemma_digits_val_nonneg(s: Seq<u8>)
    requires
        all_digits(s),
    ensures
        digits_val(s) >= 0,
    decreases s.len(),
{
    if s.len() > 0 {
        assert(all_digits(s.drop_last()));
        lemma_digits_val_nonneg(s.drop_last());
    }
}

/// A digit string is worth at least any of its prefixes.
pub proof fn lemma_digits_val_prefix(s: Seq<u8>, i: int)
    requires
        all_digits(s),
        0 <= i <= s.len(),
    ensures
        digits_val(s) >= digits_val(s.subrange(0, i)),
    decreases s.len() - i,
{
    if i == s.len() {
        assert(s.subrange(0, i) =~= s);
    } else {
        let a = s.subrange(0, i);
        let b = s.subrange(0, i + 1);
        assert(b.drop_last() =~= a);
        assert(all_digits(a));
        lemma_digits_val_nonneg(a);
        assert(digits_val(b) == digits_val(a) * 10 + (s[i] - ZERO));
        lemma_digits_val_prefix(s, i + 1);
    }
}

/// Parses a non-empty all-digit string into a machine integer; `None` when
/// the text is empty, holds a non-digit, or the value does not fit.
pub fn parse_digits(s: &[u8]) -> (r: Option<u64>)
    ensures
        r is Some <==> s@.len() > 0 && all_digits(s@) && digits_val(s@) <= u64::MAX,
        r is Some ==> r == Some(digits_val(s@) as u64),
{
    let n = s.len();
    if n == 0 {
        return None;
    }
    let mut i: usize = 0;
    while i < n
        invariant
            n == s@.len(),
            i <= n,
            all_digits(s@.subrange(0, i as int)),
        decreases n - i,
    {
        let c = s[i];
        if c < ZERO || c > ZERO + 9 {
            assert(!is_digit(s@[i as int]));
            return None;
        }
        assert(s@.subrange(0, i + 1 as int).drop_last() =~= s@.subrange(0, i as int));
        assert(all_digits(s@.subrange(0, i + 1 as int)));
        i = i + 1;
    }
    assert(s@.subrange(0, n as int) =~= s@);
    let mut acc: u64 = 0;
    let mut j: usize = 0;
    while j < n
        invariant
            n == s@.len(),
            n > 0,
            j <= n,
            all_digits(s@),
            acc == digits_val(s@.subrange(0, j as int)),
        decreases n - j,
    {
        let c = s[j];
        assert(is_digit(s@[j as int]));
        let d: u64 = (c - ZERO) as u64;
        proof {
            assert(s@.subrange(0, j + 1 as int).drop_last() =~= s@.subrange(0, j as int));
            assert(digits_val(s@.subrange(0, j + 1 as int)) == acc * 10 + d);
        }
        if acc > (u64::MAX - d) / 10 {
            proof {
                lemma_digits_val_prefix(s@, j + 1 as int);
            }
            return None;
        }
        acc = acc * 10 + d;
        j = j + 1;
    }
    assert(s@.subrange(0, n as int) =~= s@);
    Some(acc)
}

/// Ten to the `k`.
pub open spec fn pow10(k: nat) -> nat
    decreases k,
{
    if k == 0 {
        1
    } else {
        10 * pow10((k - 1) as nat)
    }
}

pub proof fn lemma_pow10_pos(k: nat)
    ensures
        pow10(k) >= 1,
    decreases k,
{
    if k > 0 {
        lemma_pow10_pos((k - 1) as nat);
    }
}

pub proof fn lemma_pow10_mono(a: nat, b: nat)
    requires
        a <= b,
    ensures
        pow10(a) <= pow10(b),
    decreases b,
{
    if a < b {
        lemma_pow10_mono(a, (b - 1) as nat);
        lemma_pow10_pos((b - 1) as nat);
    }
}

/// Ten to the `k` on machine integers; `None` when it does not fit.
pub fn pow10_u64(k: usize) -> (r: Option<u64>)
    ensures
        r is Some <==> pow10(k as nat) <= u64::MAX,
        r is Some ==> r == Some(pow10(k as nat) as u64),
{
    let mut acc: u64 = 1;
    let mut j: usize = 0;
    while j < k
        invariant
            j <= k,
            acc == pow10(j as nat),
        decreases k - j,
    {
        if acc > u64::MAX / 10 {
            proof {
                lemma_pow10_mono((j + 1) as nat, k as nat);
            }
            return None;
        }
        acc = acc * 10;
        j = j + 1;
    }
    Some(acc)
}

/// The index of the first occurrence of `c` in `s`, or `s.len()` when `c`
/// does not occur.
pub open spec fn first_byte(s: Seq<u8>, c: u8) -> int
    decreases s.len(),
{
    if s.len() == 0 {
        0
    } else if s[0] == c {
        0
    } else {
        1 + first_byte(s.subrange(1, s.len() as int), c)
    }
}

pub proof fn lemma_first_byte(s: Seq<u8>, c: u8)
    ensures
        0 <= first_byte(s, c) <= s.len(),
        first_byte(s, c) < s.len() ==> s[first_byte(s, c)] == c,
        forall|k: int| 0 <= k < first_byte(s, c) ==> s[k] != c,
    decreases s.len(),
{
    if s.len() > 0 && s[0] != c {
        let t = s.subrange(1, s.len() as int);
        lemma_first_byte(t, c);
        assert(forall|k: int| 1 <= k < s.len() ==> s[k] == t[k - 1]);
    }
}

pub proof fn lemma_first_byte_unique(s: Seq<u8>, c: u8, i: int)
    requires
        0 <= i <= s.len(),
        i < s.len() ==> s[i] == c,
        forall|k: int| 0 <= k < i ==> s[k] != c,
        i == s.len() ==> forall|k: int| 0 <= k < s.len() ==> s[k] != c,
    ensures
        i == first_byte(s, c),
{
    lemma_first_byte(s, c);
    let f = first_byte(s, c);
    if f < i {
        assert(s[f] != c);
    } else if i < f {
        assert(s[i] != c);
    }
}

/// Finds the first occurrence of `c` in `s`; returns `s.len()` when absent.
pub fn find_byte(s: &[u8], c: u8) -> (r: usize)
    ensures
        r == first_byte(s@, c),
        r <= s@.len(),
        r < s@.len() ==> s@[r as int] == c,
        forall|k: int| 0 <= k < r ==> s@[k] != c,
{
    let n = s.len();
    let mut i: usize = 0;
    while i < n
        invariant
            n == s@.len(),
            i <= n,
            forall|k: int| 0 <= k < i ==> s@[k] != c,
        decreases n - i,
    {
        if s[i] == c {
            proof {
                lemma_first_byte_unique(s@, c, i as int);
            }
            return i;
        }
        i = i + 1;
    }
    proof {
        lemma_first_byte_unique(s@, c, n as int);
    }
    n
}

/// The pattern `pat` occurs in `s` at position `i`.
pub open spec fn match_at(s: Seq<u8>, pat: Seq<u8>, i: int) -> bool {
    0 <= i && i + pat.len() <= s.len() && s.subrange(i, i + pat.len() as int) == pat
}

/// The index of the first occurrence of `pat` in `s`; `s.len()` when `pat`
/// does not occur (and `pat` is non-empty).
pub open spec fn find_pat(s: Seq<u8>, pat: Seq<u8>) -> int
    decreases s.len(),
{
    if match_at(s, pat, 0) {
        0
    } else if s.len() == 0 {
        0
    } else {
        1 + find_pat(s.subrange(1, s.len() as int), pat)
    }
}

pub proof fn lemma_find_pat(s: Seq<u8>, pat: Seq<u8>)
    requires
        pat.len() > 0,
    ensures
        0 <= find_pat(s, pat) <= s.len(),
        find_pat(s, pat) < s.len() ==> match_at(s, pat, find_pat(s, pat)),
        forall|k: int| 0 <= k < find_pat(s, pat) ==> !match_at(s, pat, k),
    decreases s.len(),
{
    if !match_at(s, pat, 0) && s.len() > 0 {
        let t = s.subrange(1, s.len() as int);
        lemma_find_pat(t, pat);
        assert forall|k: int|
            1 <= k < s.len() && k + pat.len() <= s.len() implies #[trigger] s.subrange(
            k,
            k + pat.len() as int,
        ) == t.subrange(k - 1, k - 1 + pat.len() as int) by {
            assert(s.subrange(k, k + pat.len() as int) =~= t.subrange(
                k - 1,
                k - 1 + pat.len() as int,
            ));
        }
        if find_pat(s, pat) < s.len() {
            assert(match_at(t, pat, find_pat(s, pat) - 1));
        }
        assert forall|k: int| 0 <= k < find_pat(s, pat) implies !match_at(s, pat, k) by {
            if k > 0 && match_at(s, pat, k) {
                assert(match_at(t, pat, k - 1));
            }
        }
    }
}

pub proof fn lemma_find_pat_unique(s: Seq<u8>, pat: Seq<u8>, i: int)
    requires
        pat.len() > 0,
        0 <= i <= s.len(),
        i < s.len() ==> match_at(s, pat, i),
        forall|k: int| 0 <= k < i ==> !match_at(s, pat, k),
        i == s.len() ==> forall|k: int| !match_at(s, pat, k),
    ensures
        i == find_pat(s, pat),
{
    lemma_find_pat(s, pat);
    let f = find_pat(s, pat);
    if f < i {
        assert(!match_at(s, pat, f));
        assert(f < s.len());
    } else if i < f {
        assert(!match_at(s, pat, i));
    }
}

/// Compares `pat` against `s` at position `i`.
pub fn match_at_exec(s: &[u8], pat: &[u8], i: usize) -> (r: bool)
    requires
        i + pat@.len() <= s@.len(),
    ensures
        r <==> match_at(s@, pat@, i as int),
{
    let m = pat.len();
    let n = s.len();
    let mut k: usize = 0;
    while k < m
        invariant
            m == pat@.len(),
            n == s@.len(),
            i + m <= n,
            k <= m,
            forall|j: int| 0 <= j < k ==> s@[i + j] == pat@[j],
        decreases m - k,
    {
        if s[i + k] != pat[k] {
            assert(s@.subrange(i as int, i + m as int)[k as int] != pat@[k as int]);
            return false;
        }
        k = k + 1;
    }
    assert(s@.subrange(i as int, i + m as int) =~= pat@);
    true
}

/// Finds the first occurrence of `pat` in `s`.
pub fn find_pattern(s: &[u8], pat: &[u8]) -> (r: Option<usize>)
    requires
        pat@.len() > 0,
    ensures
        r is Some <==> exists|j: int| match_at(s@, pat@, j),
        r matches Some(i) ==> i as int == find_pat(s@, pat@) && match_at(s@, pat@, i as int),
        r is None ==> find_pat(s@, pat@) == s@.len(),
{
    let n = s.len();
    let m = pat.len();
    if m > n {
        proof {
            lemma_find_pat_unique(s@, pat@, n as int);
        }
        return None;
    }
    let mut i: usize = 0;
    while i <= n - m
        invariant
            n == s@.len(),
            m == pat@.len(),
            0 < m <= n,
            i <= n - m + 1,
            forall|k: int| 0 <= k < i ==> !match_at(s@, pat@, k),
        decreases n - i,
    {
        if match_at_exec(s, pat, i) {
            proof {
                lemma_find_pat_unique(s@, pat@, i as int);
            }
            return Some(i);
        }
        i = i + 1;
    }
    proof {
        lemma_find_pat_unique(s@, pat@, n as int);
    }
    None
}

/// The byte is blank space inside a line.
pub open spec fn is_ws(c: u8) -> bool {
    c == SPACE || c == TAB || c == CR
}

/// The index of the first byte of `s` that is not blank space, or `s.len()`.
pub open spec fn first_non_ws(s: Seq<u8>) -> int
    decreases s.len(),
{
    if s.len() == 0 {
        0
    } else if !is_ws(s[0]) {
        0
    } else {
        1 + first_non_ws(s.subrange(1, s.len() as int))
    }
}

pub proof fn lemma_first_non_ws(s: Seq<u8>)
    ensures
        0 <= first_non_ws(s) <= s.len(),
        first_non_ws(s) < s.len() ==> !is_ws(s[first_non_ws(s)]),
        forall|k: int| 0 <= k < first_non_ws(s) ==> is_ws(s[k]),
    decreases s.len(),
{
    if s.len() > 0 && is_ws(s[0]) {
        let t = s.subrange(1, s.len() as int);
        lemma_first_non_ws(t);
        assert(forall|k: int| 1 <= k < s.len() ==> s[k] == t[k - 1]);
    }
}

pub proof fn lemma_first_non_ws_unique(s: Seq<u8>, i: int)
    requires
        0 <= i <= s.len(),
        i < s.len() ==> !is_ws(s[i]),
        forall|k: int| 0 <= k < i ==> is_ws(s[k]),
        i == s.len() ==> forall|k: int| 0 <= k < s.len() ==> is_ws(s[k]),
    ensures
        i == first_non_ws(s),
{
    lemma_first_non_ws(s);
    let f = first_non_ws(s);
    if f < i {
        assert(is_ws(s[f]));
    } else if i < f {
        assert(is_ws(s[i]));
    }
}

/// Finds the first byte of `s` that is not blank space; `s.len()` when all
/// of `s` is blank.
pub fn find_non_ws(s: &[u8]) -> (r: usize)
    ensures
        r == first_non_ws(s@),
        r <= s@.len(),
        r < s@.len() ==> !is_ws(s@[r as int]),
{
    let n = s.len();
    let mut i: usize = 0;
    while i < n
        invariant
            n == s@.len(),
            i <= n,
            forall|k: int| 0 <= k < i ==> is_ws(s@[k]),
        decreases n - i,
    {
        let c = s[i];
        if !(c == SPACE || c == TAB || c == CR) {
            proof {
                lemma_first_non_ws_unique(s@, i as int);
            }
            return i;
        }
        i = i + 1;
    }
    proof {
        lemma_first_non_ws_unique(s@, n as int);
    }
    n
}

/// An owned copy of a byte string.
pub fn copy_bytes(v: &Vec<u8>) -> (r: Vec<u8>)
    ensures
        r@ == v@,
{
    vstd::slice::slice_to_vec(v.as_slice())
}

/// Appends all of `s` to `out`.
pub fn push_bytes(out: &mut Vec<u8>, s: &[u8])
    ensures
        final(out)@ == old(out)@ + s@,
{
    let n = s.len();
    let mut i: usize = 0;
    while i < n
        invariant
            n == s@.len(),
            i <= n,
            out@ == old(out)@ + s@.subrange(0, i as int),
        decreases n - i,
    {
        out.push(s[i]);
        i = i + 1;
        assert(out@ =~= old(out)@ + s@.subrange(0, i as int));
    }
    assert(out@ =~= old(out)@ + s@);
}

} // verus!
