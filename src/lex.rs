//! Lexical primitives over a character sequence: whitespace, integers,
//! decimals, keys and symbols. Each reader skips whitespace on both sides,
//! as every token of the notation may be padded.
use vstd::prelude::*;

use crate::item::Diagnostic;
use crate::note::{key_of, Decimal, Key};

verus! {

/// A parser's result `r` agrees with what `sp` specifies for its view,
/// where the parser appends its diagnostics to a list that held `d0` before
/// and `d1` after; a parser that fails leaves the list as it was.
pub open spec fn agrees_view<T: View>(
    r: Option<(T, usize)>,
    sp: Option<(T::V, int, Seq<Diagnostic>)>,
    d0: Seq<Diagnostic>,
    d1: Seq<Diagnostic>,
) -> bool {
    match (r, sp) {
        (Some((v, j)), Some((w, k, ds))) => v@ == w && j as int == k && d1 == d0 + ds,
        (None, None) => d1 == d0,
        _ => false,
    }
}

pub proof fn lemma_ws_end(s: Seq<char>, i: int)
    requires
        0 <= i <= s.len(),
    ensures
        i <= ws_end(s, i) <= s.len(),
    decreases s.len() - i,
{
    if i < s.len() && is_ws(s[i]) {
        lemma_ws_end(s, i + 1);
    }
}

/// Unicode's White_Space property, the one `char::is_whitespace` tests.
pub open spec fn is_ws(c: char) -> bool {
    let u = c as u32;
    (9 <= u <= 13) || u == 32 || u == 0x85 || u == 0xa0 || u == 0x1680 || (0x2000 <= u <= 0x200a)
        || u == 0x2028 || u == 0x2029 || u == 0x202f || u == 0x205f || u == 0x3000
}

pub fn is_whitespace(c: char) -> (r: bool)
    ensures
        r == is_ws(c),
{
    let u = c as u32;
    (9 <= u && u <= 13) || u == 32 || u == 0x85 || u == 0xa0 || u == 0x1680 || (0x2000 <= u && u
        <= 0x200a) || u == 0x2028 || u == 0x2029 || u == 0x202f || u == 0x205f || u == 0x3000
}

/// The end of the whitespace run that starts at `i`.
pub open spec fn ws_end(s: Seq<char>, i: int) -> int
    decreases s.len() - i,
{
    if 0 <= i < s.len() && is_ws(s[i]) {
        ws_end(s, i + 1)
    } else {
        i
    }
}

pub fn skip_ws(s: &[char], i: usize) -> (r: usize)
    requires
        i <= s@.len(),
    ensures
        r as int == ws_end(s@, i as int),
        i <= r <= s@.len(),
{
    let mut k = i;
    while k < s.len() && is_whitespace(s[k])
        invariant
            i <= k <= s@.len(),
            ws_end(s@, k as int) == ws_end(s@, i as int),
        decreases s@.len() - k,
    {
        k += 1;
    }
    k
}

pub open spec fn is_digit(c: char) -> bool {
    '0' <= c <= '9'
}

/// The end of the run of decimal digits that starts at `i`.
pub open spec fn digits_end(s: Seq<char>, i: int) -> int
    decreases s.len() - i,
{
    if 0 <= i < s.len() && is_digit(s[i]) {
        digits_end(s, i + 1)
    } else {
        i
    }
}

pub fn skip_digits(s: &[char], i: usize) -> (r: usize)
    requires
        i <= s@.len(),
    ensures
        r as int == digits_end(s@, i as int),
        i <= r <= s@.len(),
        forall|k: int| i <= k < r ==> is_digit(#[trigger] s@[k]),
{
    let mut k = i;
    while k < s.len() && '0' <= s[k] && s[k] <= '9'
        invariant
            i <= k <= s@.len(),
            digits_end(s@, k as int) == digits_end(s@, i as int),
            forall|m: int| i <= m < k ==> is_digit(#[trigger] s@[m]),
        decreases s@.len() - k,
    {
        k += 1;
    }
    k
}

pub open spec fn digit_val(c: char) -> nat {
    ((c as u32) - 48) as nat
}

/// The number that a string of decimal digits denotes.
pub open spec fn dec_value(d: Seq<char>) -> nat
    decreases d.len(),
{
    if d.len() == 0 {
        0
    } else {
        dec_value(d.drop_last()) * 10 + digit_val(d.last())
    }
}

proof fn lemma_dec_value_prefix(d: Seq<char>, n: int)
    requires
        0 <= n <= d.len(),
    ensures
        dec_value(d.take(n)) <= dec_value(d),
    decreases d.len(),
{
    if n < d.len() {
        lemma_dec_value_prefix(d.drop_last(), n);
        assert(d.drop_last().take(n) =~= d.take(n));
        let x = dec_value(d.drop_last());
        assert(x <= x * 10 + digit_val(d.last())) by (nonlinear_arith);
    } else {
        assert(d.take(n) =~= d);
    }
}

/// An unsigned integer that fits in 32 bits, padded.
pub open spec fn sp_int(s: Seq<char>, i: int) -> Option<(u32, int)> {
    let a = ws_end(s, i);
    let b = digits_end(s, a);
    let v = dec_value(s.subrange(a, b));
    if b == a || v > u32::MAX {
        None
    } else {
        Some((v as u32, ws_end(s, b)))
    }
}

pub fn parse_int(s: &[char], i: usize) -> (r: Option<(u32, usize)>)
    requires
        i <= s@.len(),
    ensures
        match r {
            Some((v, j)) => sp_int(s@, i as int) == Some((v, j as int)) && i < j <= s@.len(),
            None => sp_int(s@, i as int) is None,
        },
{
    let a = skip_ws(s, i);
    let b = skip_digits(s, a);
    if b == a {
        return None;
    }
    let mut acc: u64 = 0;
    let mut k = a;
    while k < b
        invariant
            a <= k <= b <= s@.len(),
            a as int == ws_end(s@, i as int),
            b as int == digits_end(s@, a as int),
            acc == dec_value(s@.subrange(a as int, k as int)),
            acc <= u32::MAX,
            forall|m: int| a <= m < b ==> is_digit(#[trigger] s@[m]),
        decreases b - k,
    {
        assert(is_digit(s@[k as int]));
        let d = (s[k] as u32 - 48) as u64;
        acc = acc * 10 + d;
        proof {
            let t = s@.subrange(a as int, k + 1);
            assert(t.drop_last() =~= s@.subrange(a as int, k as int));
            assert(acc == dec_value(t));
        }
        k += 1;
        if acc > u32::MAX as u64 {
            proof {
                let full = s@.subrange(a as int, b as int);
                assert(full.take(k - a) =~= s@.subrange(a as int, k as int));
                lemma_dec_value_prefix(full, k - a);
            }
            return None;
        }
    }
    let j = skip_ws(s, b);
    Some((acc as u32, j))
}

/// A decimal literal, padded, with whitespace allowed around its point. Its
/// value is the text with that whitespace removed.
pub open spec fn sp_float(s: Seq<char>, i: int) -> Option<(Seq<char>, int)> {
    let a = ws_end(s, i);
    let b = digits_end(s, a);
    let c = ws_end(s, b);
    if b == a {
        None
    } else if c < s.len() && s[c] == '.' {
        let d = ws_end(s, c + 1);
        let e = digits_end(s, d);
        Some((s.subrange(a, b) + seq!['.'] + s.subrange(d, e), ws_end(s, e)))
    } else {
        Some((s.subrange(a, b), c))
    }
}

/// Relies on `String: FromIterator<char>`: the string holds the characters in order.
#[verifier::external_body]
pub(crate) fn string_from_chars(v: &[char]) -> (r: String)
    ensures
        r@ == v@,
{
    v.iter().collect()
}

/// Appends `s[from..to]` to `out`.
pub(crate) fn push_range(out: &mut Vec<char>, s: &[char], from: usize, to: usize)
    requires
        from <= to <= s@.len(),
    ensures
        final(out)@ == old(out)@ + s@.subrange(from as int, to as int),
{
    let mut k = from;
    while k < to
        invariant
            from <= k <= to <= s@.len(),
            out@ == old(out)@ + s@.subrange(from as int, k as int),
        decreases to - k,
    {
        out.push(s[k]);
        k += 1;
        assert(out@ =~= old(out)@ + s@.subrange(from as int, k as int));
    }
}

pub fn parse_float(s: &[char], i: usize) -> (r: Option<(Decimal, usize)>)
    requires
        i <= s@.len(),
    ensures
        match r {
            Some((v, j)) => sp_float(s@, i as int) == Some((v@, j as int)) && i < j <= s@.len(),
            None => sp_float(s@, i as int) is None,
        },
{
    let a = skip_ws(s, i);
    let b = skip_digits(s, a);
    if b == a {
        return None;
    }
    let c = skip_ws(s, b);
    let mut text: Vec<char> = Vec::new();
    push_range(&mut text, s, a, b);
    if c < s.len() && s[c] == '.' {
        let d = skip_ws(s, c + 1);
        let e = skip_digits(s, d);
        text.push('.');
        push_range(&mut text, s, d, e);
        let j = skip_ws(s, e);
        let v = Decimal { text: string_from_chars(text.as_slice()) };
        assert(v@ =~= s@.subrange(a as int, b as int) + seq!['.'] + s@.subrange(d as int, e as int));
        Some((v, j))
    } else {
        let v = Decimal { text: string_from_chars(text.as_slice()) };
        assert(v@ =~= s@.subrange(a as int, b as int));
        Some((v, c))
    }
}

/// A button digit, padded.
pub open spec fn sp_key(s: Seq<char>, i: int) -> Option<(Key, int)> {
    let a = ws_end(s, i);
    if a < s.len() && key_of(s[a]) is Some {
        Some((key_of(s[a])->0, ws_end(s, a + 1)))
    } else {
        None
    }
}

pub fn parse_key(s: &[char], i: usize) -> (r: Option<(Key, usize)>)
    requires
        i <= s@.len(),
    ensures
        match r {
            Some((v, j)) => sp_key(s@, i as int) == Some((v, j as int)) && i < j <= s@.len(),
            None => sp_key(s@, i as int) is None,
        },
{
    let a = skip_ws(s, i);
    if a < s.len() && '1' <= s[a] && s[a] <= '8' {
        let k = Key::from(s[a]);
        Some((k, skip_ws(s, a + 1)))
    } else {
        None
    }
}

/// The character `c`, padded.
pub open spec fn sp_sym(s: Seq<char>, i: int, c: char) -> Option<int> {
    let a = ws_end(s, i);
    if a < s.len() && s[a] == c {
        Some(ws_end(s, a + 1))
    } else {
        None
    }
}

pub fn sym(s: &[char], i: usize, c: char) -> (r: Option<usize>)
    requires
        i <= s@.len(),
    ensures
        match r {
            Some(j) => sp_sym(s@, i as int, c) == Some(j as int) && i < j <= s@.len(),
            None => sp_sym(s@, i as int, c) is None,
        },
{
    let a = skip_ws(s, i);
    if a < s.len() && s[a] == c {
        Some(skip_ws(s, a + 1))
    } else {
        None
    }
}

/// The character `c` twice in a row, padded.
pub open spec fn sp_sym2(s: Seq<char>, i: int, c: char) -> Option<int> {
    let a = ws_end(s, i);
    if a + 1 < s.len() && s[a] == c && s[a + 1] == c {
        Some(ws_end(s, a + 2))
    } else {
        None
    }
}

pub fn sym2(s: &[char], i: usize, c: char) -> (r: Option<usize>)
    requires
        i <= s@.len(),
    ensures
        match r {
            Some(j) => sp_sym2(s@, i as int, c) == Some(j as int) && i < j <= s@.len(),
            None => sp_sym2(s@, i as int, c) is None,
        },
{
    let a = skip_ws(s, i);
    if s.len() - a >= 2 && s[a] == c && s[a + 1] == c {
        Some(skip_ws(s, a + 2))
    } else {
        None
    }
}

} // verus!
