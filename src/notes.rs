//! Grammars of single notes and of their parts: sensors, style runs,
//! lengths, waits and slide segments.
use vstd::prelude::*;

use crate::item::{Diagnostic, Item, ItemView, Reason, Span};
use crate::lex::{
    lemma_ws_end, parse_float, parse_int, parse_key, skip_ws, sp_float, sp_int, sp_key,
    sp_sym, sp_sym2, sym, sym2, ws_end, agrees_view,
};
use crate::note::{
    frac_new, frac_of, group_of, key_of, shape_of, Frac, Hold, Key, Len, LenView, Sensor,
    SensorGroup, Shape, Tap, TouchHold, TouchTap, Wait, WaitView,
};
use crate::style::{
    merge, or_all, style_of, to_style, HoldStyle, StyleKind, TapStyle, TouchStyle, HOLD_MASK,
    TAP_MASK, TOUCH_MASK,
};

verus! {

/// A touch sensor, padded: `A`, `B`, `D` or `E` with a button index, or `C`
/// with an optional index of 1 or 2.
pub open spec fn sp_sensor(s: Seq<char>, i: int) -> Option<(Sensor, int)> {
    let a = ws_end(s, i);
    let indexed = if a < s.len() && (s[a] == 'A' || s[a] == 'B' || s[a] == 'D' || s[a] == 'E') {
        sp_key(s, a + 1)
    } else {
        None
    };
    match indexed {
        Some((k, j)) => Some((Sensor { group: group_of(s[a])->0, index: Some(k) }, ws_end(s, j))),
        None => match sp_sym(s, a, 'C') {
            Some(p) => if p < s.len() && (s[p] == '1' || s[p] == '2') {
                Some((Sensor { group: SensorGroup::C, index: key_of(s[p]) }, ws_end(s, p + 1)))
            } else {
                Some((Sensor { group: SensorGroup::C, index: None }, ws_end(s, p)))
            },
            None => None,
        },
    }
}

pub fn parse_sensor(s: &[char], i: usize) -> (r: Option<(Sensor, usize)>)
    requires
        i <= s@.len(),
    ensures
        match r {
            Some((v, j)) => sp_sensor(s@, i as int) == Some((v, j as int)) && i < j <= s@.len(),
            None => sp_sensor(s@, i as int) is None,
        },
{
    let a = skip_ws(s, i);
    let indexed = if a < s.len() && (s[a] == 'A' || s[a] == 'B' || s[a] == 'D' || s[a] == 'E') {
        parse_key(s, a + 1)
    } else {
        None
    };
    match indexed {
        Some((k, j)) => {
            let g = SensorGroup::from(s[a]);
            Some((Sensor { group: g, index: Some(k) }, skip_ws(s, j)))
        },
        None => match sym(s, a, 'C') {
            Some(p) => if p < s.len() && (s[p] == '1' || s[p] == '2') {
                let k = Key::from(s[p]);
                Some((Sensor { group: SensorGroup::C, index: Some(k) }, skip_ws(s, p + 1)))
            } else {
                Some((Sensor { group: SensorGroup::C, index: None }, skip_ws(s, p)))
            },
            None => None,
        },
    }
}

/// The modifier characters that a note kind accepts.
pub open spec fn in_alphabet(kind: StyleKind, c: char) -> bool {
    match kind {
        StyleKind::Tap => c == 'b' || c == 'x' || c == '$',
        StyleKind::Hold => c == 'b' || c == 'x',
        StyleKind::Star => c == 'b' || c == 'x' || c == '@' || c == '?' || c == '!',
        StyleKind::Slide => c == 'b',
        StyleKind::Touch => c == 'f',
    }
}

fn alphabet_has(kind: StyleKind, c: char) -> (r: bool)
    ensures
        r == in_alphabet(kind, c),
{
    match kind {
        StyleKind::Tap => c == 'b' || c == 'x' || c == '$',
        StyleKind::Hold => c == 'b' || c == 'x',
        StyleKind::Star => c == 'b' || c == 'x' || c == '@' || c == '?' || c == '!',
        StyleKind::Slide => c == 'b',
        StyleKind::Touch => c == 'f',
    }
}

/// The characters that belong to the notation's structure; any other
/// character met where a style modifier may stand is read as an invalid
/// modifier.
pub open spec fn reserved(c: char) -> bool {
    ('1' <= c <= '8') || ('A' <= c <= 'E') || c == '-' || c == '<' || c == '>' || c == '^'
        || c == 's' || c == 'z' || c == 'v' || c == 'w' || c == 'p' || c == 'q' || c == 'V'
        || c == '/' || c == ',' || c == '`' || c == '[' || c == ']' || c == '*' || c == 'h'
        || c == '{' || c == '}' || c == '(' || c == ')' || c == ' ' || c == '\t' || c == '\n'
        || c == '\r'
}

fn is_reserved(c: char) -> (r: bool)
    ensures
        r == reserved(c),
{
    ('1' <= c && c <= '8') || ('A' <= c && c <= 'E') || c == '-' || c == '<' || c == '>' || c
        == '^' || c == 's' || c == 'z' || c == 'v' || c == 'w' || c == 'p' || c == 'q' || c == 'V'
        || c == '/' || c == ',' || c == '`' || c == '[' || c == ']' || c == '*' || c == 'h' || c
        == '{' || c == '}' || c == '(' || c == ')' || c == ' ' || c == '\t' || c == '\n' || c
        == '\r'
}

pub open spec fn invalid_style(at: int, c: char, kind: StyleKind) -> Diagnostic {
    Diagnostic {
        span: Span { start: at as usize, end: (at + 1) as usize },
        reason: Reason::InvalidStyle { found: c, kind },
    }
}

/// A run of padded style modifiers of `kind`: the flags of the valid ones,
/// where the run ends, and a diagnostic for each character that is neither
/// a modifier of `kind` nor part of the notation's structure.
pub open spec fn sp_styles(s: Seq<char>, i: int, kind: StyleKind) -> (Seq<u8>, int, Seq<Diagnostic>)
    decreases s.len() - i,
{
    let a = ws_end(s, i);
    if 0 <= i <= s.len() && a < s.len() && (in_alphabet(kind, s[a]) || !reserved(s[a])) {
        let b = ws_end(s, a + 1);
        proof {
            lemma_ws_end(s, i);
            lemma_ws_end(s, a + 1);
        }
        let rest = sp_styles(s, b, kind);
        if in_alphabet(kind, s[a]) {
            (seq![style_of(s[a])->0] + rest.0, rest.1, rest.2)
        } else {
            (rest.0, rest.1, seq![invalid_style(a, s[a], kind)] + rest.2)
        }
    } else {
        (seq![], i, seq![])
    }
}

/// The merged flags of a style run, before the kind's mask.
pub open spec fn style_bits(s: Seq<char>, i: int, kind: StyleKind) -> u8 {
    or_all(sp_styles(s, i, kind).0)
}

/// Reads a style run; returns the OR of its flags and where it ends.
pub fn parse_styles(s: &[char], i: usize, kind: StyleKind, d: &mut Vec<Diagnostic>) -> (r: (u8, usize))
    requires
        i <= s@.len(),
    ensures
        r.0 == style_bits(s@, i as int, kind),
        r.1 as int == sp_styles(s@, i as int, kind).1,
        i <= r.1 <= s@.len(),
        final(d)@ == old(d)@ + sp_styles(s@, i as int, kind).2,
{
    let mut flags: Vec<u8> = Vec::new();
    let mut k = i;
    loop
        invariant
            i <= k <= s@.len(),
            sp_styles(s@, i as int, kind) == (
                flags@ + sp_styles(s@, k as int, kind).0,
                sp_styles(s@, k as int, kind).1,
                d@.subrange(old(d)@.len() as int, d@.len() as int) + sp_styles(s@, k as int, kind).2,
            ),
            d@.len() >= old(d)@.len(),
            d@.subrange(0, old(d)@.len() as int) == old(d)@,
        ensures
            i <= k <= s@.len(),
            sp_styles(s@, i as int, kind) == (
                flags@ + sp_styles(s@, k as int, kind).0,
                sp_styles(s@, k as int, kind).1,
                d@.subrange(old(d)@.len() as int, d@.len() as int) + sp_styles(s@, k as int, kind).2,
            ),
            d@.len() >= old(d)@.len(),
            d@.subrange(0, old(d)@.len() as int) == old(d)@,
            sp_styles(s@, k as int, kind) == (Seq::<u8>::empty(), k as int, Seq::<Diagnostic>::empty()),
        decreases s@.len() - k,
    {
        let a = skip_ws(s, k);
        if a < s.len() && (alphabet_has(kind, s[a]) || !is_reserved(s[a])) {
            let c = s[a];
            let b = skip_ws(s, a + 1);
            let ghost d_before = d@;
            if alphabet_has(kind, c) {
                flags.push(to_style(c));
            } else {
                d.push(Diagnostic {
                    span: Span { start: a, end: a + 1 },
                    reason: Reason::InvalidStyle { found: c, kind },
                });
            }
            proof {
                let rest = sp_styles(s@, b as int, kind);
                assert(sp_styles(s@, k as int, kind).1 == rest.1);
                if in_alphabet(kind, c) {
                    assert(sp_styles(s@, k as int, kind).0 == seq![style_of(c)->0] + rest.0);
                    assert(flags@ + rest.0 =~= flags@.drop_last() + (seq![style_of(c)->0] + rest.0));
                    assert(d@ == d_before);
                } else {
                    assert(sp_styles(s@, k as int, kind).2 == seq![invalid_style(a as int, c, kind)] + rest.2);
                    assert(d@.subrange(old(d)@.len() as int, d@.len() as int) =~= d_before.subrange(old(d)@.len() as int, d_before.len() as int) + seq![invalid_style(a as int, c, kind)]);
                    assert(d@.subrange(0, old(d)@.len() as int) =~= d_before.subrange(0, old(d)@.len() as int));
                }
                assert(sp_styles(s@, i as int, kind).0 =~= flags@ + rest.0);
                assert(sp_styles(s@, i as int, kind).2 =~= d@.subrange(old(d)@.len() as int, d@.len() as int) + rest.2);
            }
            k = b;
        } else {
            assert(sp_styles(s@, k as int, kind) == (Seq::<u8>::empty(), k as int, Seq::<Diagnostic>::empty()));
            break;
        }
    }
    proof {
        assert(d@ =~= old(d)@ + d@.subrange(old(d)@.len() as int, d@.len() as int));
        assert(flags@ + seq![] =~= flags@);
        assert(d@.subrange(old(d)@.len() as int, d@.len() as int) + seq![] =~= d@.subrange(old(d)@.len() as int, d@.len() as int));
    }
    (merge(flags.as_slice()), k)
}


/// A tap: a button and its style run.
pub open spec fn sp_tap(s: Seq<char>, i: int) -> Option<(ItemView, int, Seq<Diagnostic>)> {
    match sp_key(s, i) {
        Some((key, j)) => {
            let st = sp_styles(s, j, StyleKind::Tap);
            let style = TapStyle { bits: or_all(st.0) & TAP_MASK };
            Some((ItemView::Tap(Tap { key, style }), st.1, st.2))
        },
        None => None,
    }
}

pub fn parse_tap(s: &[char], i: usize, d: &mut Vec<Diagnostic>) -> (r: Option<(Item, usize)>)
    requires
        i <= s@.len(),
    ensures
        agrees_view(r, sp_tap(s@, i as int), old(d)@, final(d)@),
        r matches Some((_, j)) ==> i < j <= s@.len(),
{
    match parse_key(s, i) {
        Some((key, j)) => {
            let (bits, e) = parse_styles(s, j, StyleKind::Tap, d);
            let style = TapStyle::from_bits_truncate(bits);
            Some((Item::Tap(Tap { key, style }), e))
        },
        None => None,
    }
}

/// A touch tap: a sensor and its style run.
pub open spec fn sp_touch_tap(s: Seq<char>, i: int) -> Option<(ItemView, int, Seq<Diagnostic>)> {
    match sp_sensor(s, i) {
        Some((sensor, j)) => {
            let st = sp_styles(s, j, StyleKind::Touch);
            let style = TouchStyle { bits: or_all(st.0) & TOUCH_MASK };
            Some((ItemView::TouchTap(TouchTap { sensor, style }), st.1, st.2))
        },
        None => None,
    }
}

pub fn parse_touch_tap(s: &[char], i: usize, d: &mut Vec<Diagnostic>) -> (r: Option<(Item, usize)>)
    requires
        i <= s@.len(),
    ensures
        agrees_view(r, sp_touch_tap(s@, i as int), old(d)@, final(d)@),
        r matches Some((_, j)) ==> i < j <= s@.len(),
{
    match parse_sensor(s, i) {
        Some((sensor, j)) => {
            let (bits, e) = parse_styles(s, j, StyleKind::Touch, d);
            let style = TouchStyle::from_bits_truncate(bits);
            Some((Item::TouchTap(TouchTap { sensor, style }), e))
        },
        None => None,
    }
}

/// `p:q`, the fraction `q / p`.
pub open spec fn sp_frac(s: Seq<char>, i: int) -> Option<(Frac, int)> {
    match sp_int(s, i) {
        Some((p, a)) => match sp_sym(s, a, ':') {
            Some(b) => match sp_int(s, b) {
                Some((q, c)) => Some((frac_of(q as nat, p as nat), c)),
                None => None,
            },
            None => None,
        },
        None => None,
    }
}

pub fn parse_frac(s: &[char], i: usize) -> (r: Option<(Frac, usize)>)
    requires
        i <= s@.len(),
    ensures
        match r {
            Some((v, j)) => sp_frac(s@, i as int) == Some((v, j as int)) && i < j <= s@.len(),
            None => sp_frac(s@, i as int) is None,
        },
{
    match parse_int(s, i) {
        Some((p, a)) => match sym(s, a, ':') {
            Some(b) => match parse_int(s, b) {
                Some((q, c)) => Some((frac_new(q, p), c)),
                None => None,
            },
            None => None,
        },
        None => None,
    }
}

/// `<float>#p:q`: a fraction at an explicit tempo.
pub open spec fn sp_len_bpm(s: Seq<char>, i: int) -> Option<(LenView, int)> {
    match sp_float(s, i) {
        Some((bpm, a)) => match sp_sym(s, a, '#') {
            Some(b) => match sp_frac(s, b) {
                Some((frac, c)) => Some((LenView::Bpm { bpm, frac }, c)),
                None => None,
            },
            None => None,
        },
        None => None,
    }
}

fn parse_len_bpm(s: &[char], i: usize) -> (r: Option<(Len, usize)>)
    requires
        i <= s@.len(),
    ensures
        match r {
            Some((v, j)) => sp_len_bpm(s@, i as int) == Some((v@, j as int)) && i < j <= s@.len(),
            None => sp_len_bpm(s@, i as int) is None,
        },
{
    match parse_float(s, i) {
        Some((bpm, a)) => match sym(s, a, '#') {
            Some(b) => match parse_frac(s, b) {
                Some((frac, c)) => Some((Len::Bpm { bpm, frac }, c)),
                None => None,
            },
            None => None,
        },
        None => None,
    }
}

/// What stands between the brackets of a length: `#<float>` seconds, `p:q`,
/// or `<float>#p:q`, tried in that order.
pub open spec fn sp_len_body(s: Seq<char>, i: int) -> Option<(LenView, int)> {
    let abs = match sp_sym(s, i, '#') {
        Some(a) => match sp_float(s, a) {
            Some((f, b)) => Some((LenView::Abs(f), b)),
            None => None,
        },
        None => None,
    };
    if abs is Some {
        abs
    } else {
        match sp_frac(s, i) {
            Some((f, b)) => Some((LenView::Rel(f), b)),
            None => sp_len_bpm(s, i),
        }
    }
}

fn parse_len_body(s: &[char], i: usize) -> (r: Option<(Len, usize)>)
    requires
        i <= s@.len(),
    ensures
        match r {
            Some((v, j)) => sp_len_body(s@, i as int) == Some((v@, j as int)) && i < j <= s@.len(),
            None => sp_len_body(s@, i as int) is None,
        },
{
    if let Some(a) = sym(s, i, '#') {
        if let Some((f, b)) = parse_float(s, a) {
            return Some((Len::Abs(f), b));
        }
    }
    match parse_frac(s, i) {
        Some((f, b)) => Some((Len::Rel(f), b)),
        None => parse_len_bpm(s, i),
    }
}

/// A bracketed length.
pub open spec fn sp_len(s: Seq<char>, i: int) -> Option<(LenView, int)> {
    match sp_sym(s, i, '[') {
        Some(a) => match sp_len_body(s, a) {
            Some((len, b)) => match sp_sym(s, b, ']') {
                Some(c) => Some((len, c)),
                None => None,
            },
            None => None,
        },
        None => None,
    }
}

pub fn parse_len(s: &[char], i: usize) -> (r: Option<(Len, usize)>)
    requires
        i <= s@.len(),
    ensures
        match r {
            Some((v, j)) => sp_len(s@, i as int) == Some((v@, j as int)) && i < j <= s@.len(),
            None => sp_len(s@, i as int) is None,
        },
{
    match sym(s, i, '[') {
        Some(a) => match parse_len_body(s, a) {
            Some((len, b)) => match sym(s, b, ']') {
                Some(c) => Some((len, c)),
                None => None,
            },
            None => None,
        },
        None => None,
    }
}

/// A bracketed length, or `Zero` where none is written.
pub open spec fn sp_len_or_zero(s: Seq<char>, i: int) -> (LenView, int) {
    match sp_len(s, i) {
        Some(x) => x,
        None => (LenView::Zero, i),
    }
}

pub fn parse_len_or_zero(s: &[char], i: usize) -> (r: (Len, usize))
    requires
        i <= s@.len(),
    ensures
        sp_len_or_zero(s@, i as int) == (r.0@, r.1 as int),
        i <= r.1 <= s@.len(),
{
    match parse_len(s, i) {
        Some(x) => x,
        None => (Len::Zero, i),
    }
}

/// A hold: a button, `h` and a length, with style runs before and after
/// the `h` and after the length.
pub open spec fn sp_hold(s: Seq<char>, i: int) -> Option<(ItemView, int, Seq<Diagnostic>)> {
    match sp_key(s, i) {
        Some((key, j)) => {
            let s1 = sp_styles(s, j, StyleKind::Hold);
            match sp_sym(s, s1.1, 'h') {
                Some(p) => {
                    let s2 = sp_styles(s, p, StyleKind::Hold);
                    let (len, q) = sp_len_or_zero(s, s2.1);
                    let s3 = sp_styles(s, q, StyleKind::Hold);
                    let bits = (or_all(s1.0) & HOLD_MASK) | (or_all(s2.0) & HOLD_MASK) | (or_all(
                        s3.0,
                    ) & HOLD_MASK);
                    Some((ItemView::Hold { key, len, style: HoldStyle { bits } }, s3.1, s1.2 + s2.2 + s3.2))
                },
                None => None,
            }
        },
        None => None,
    }
}

pub fn parse_hold(s: &[char], i: usize, d: &mut Vec<Diagnostic>) -> (r: Option<(Item, usize)>)
    requires
        i <= s@.len(),
    ensures
        agrees_view(r, sp_hold(s@, i as int), old(d)@, final(d)@),
        r matches Some((_, j)) ==> i < j <= s@.len(),
{
    let n0 = d.len();
    match parse_key(s, i) {
        Some((key, j)) => {
            let (b1, e1) = parse_styles(s, j, StyleKind::Hold, d);
            match sym(s, e1, 'h') {
                Some(p) => {
                    let (b2, e2) = parse_styles(s, p, StyleKind::Hold, d);
                    let (len, q) = parse_len_or_zero(s, e2);
                    let (b3, e3) = parse_styles(s, q, StyleKind::Hold, d);
                    let st1 = HoldStyle::from_bits_truncate(b1);
                    let st2 = HoldStyle::from_bits_truncate(b2);
                    let st3 = HoldStyle::from_bits_truncate(b3);
                    let style = st1.union(st2).union(st3);
                    assert(d@ =~= old(d)@ + (sp_styles(s@, j as int, StyleKind::Hold).2 + sp_styles(s@, p as int, StyleKind::Hold).2 + sp_styles(s@, q as int, StyleKind::Hold).2));
                    Some((Item::Hold(Hold { key, len, style }), e3))
                },
                None => {
                    d.truncate(n0);
                    assert(d@ =~= old(d)@);
                    None
                },
            }
        },
        None => None,
    }
}

/// A touch hold: as a hold, from a sensor.
pub open spec fn sp_touch_hold(s: Seq<char>, i: int) -> Option<(ItemView, int, Seq<Diagnostic>)> {
    match sp_sensor(s, i) {
        Some((sensor, j)) => {
            let s1 = sp_styles(s, j, StyleKind::Touch);
            match sp_sym(s, s1.1, 'h') {
                Some(p) => {
                    let s2 = sp_styles(s, p, StyleKind::Touch);
                    let (len, q) = sp_len_or_zero(s, s2.1);
                    let s3 = sp_styles(s, q, StyleKind::Touch);
                    let bits = (or_all(s1.0) & TOUCH_MASK) | (or_all(s2.0) & TOUCH_MASK) | (or_all(
                        s3.0,
                    ) & TOUCH_MASK);
                    Some((ItemView::TouchHold { sensor, len, style: TouchStyle { bits } }, s3.1, s1.2 + s2.2 + s3.2))
                },
                None => None,
            }
        },
        None => None,
    }
}

pub fn parse_touch_hold(s: &[char], i: usize, d: &mut Vec<Diagnostic>) -> (r: Option<(Item, usize)>)
    requires
        i <= s@.len(),
    ensures
        agrees_view(r, sp_touch_hold(s@, i as int), old(d)@, final(d)@),
        r matches Some((_, j)) ==> i < j <= s@.len(),
{
    let n0 = d.len();
    match parse_sensor(s, i) {
        Some((sensor, j)) => {
            let (b1, e1) = parse_styles(s, j, StyleKind::Touch, d);
            match sym(s, e1, 'h') {
                Some(p) => {
                    let (b2, e2) = parse_styles(s, p, StyleKind::Touch, d);
                    let (len, q) = parse_len_or_zero(s, e2);
                    let (b3, e3) = parse_styles(s, q, StyleKind::Touch, d);
                    let st1 = TouchStyle::from_bits_truncate(b1);
                    let st2 = TouchStyle::from_bits_truncate(b2);
                    let st3 = TouchStyle::from_bits_truncate(b3);
                    let style = st1.union(st2).union(st3);
                    assert(d@ =~= old(d)@ + (sp_styles(s@, j as int, StyleKind::Touch).2 + sp_styles(s@, p as int, StyleKind::Touch).2 + sp_styles(s@, q as int, StyleKind::Touch).2));
                    Some((Item::TouchHold(TouchHold { sensor, len, style }), e3))
                },
                None => {
                    d.truncate(n0);
                    assert(d@ =~= old(d)@);
                    None
                },
            }
        },
        None => None,
    }
}


/// The length after a tempo-scaled wait: `p:q`, or a bare decimal of seconds.
pub open spec fn sp_wait_bpm_len(s: Seq<char>, i: int) -> Option<(LenView, int)> {
    match sp_frac(s, i) {
        Some((f, a)) => Some((LenView::Rel(f), a)),
        None => match sp_float(s, i) {
            Some((f, a)) => Some((LenView::Abs(f), a)),
            None => None,
        },
    }
}

fn parse_wait_bpm_len(s: &[char], i: usize) -> (r: Option<(Len, usize)>)
    requires
        i <= s@.len(),
    ensures
        match r {
            Some((v, j)) => sp_wait_bpm_len(s@, i as int) == Some((v@, j as int)) && i < j <= s@.len(),
            None => sp_wait_bpm_len(s@, i as int) is None,
        },
{
    match parse_frac(s, i) {
        Some((f, a)) => Some((Len::Rel(f), a)),
        None => match parse_float(s, i) {
            Some((f, a)) => Some((Len::Abs(f), a)),
            None => None,
        },
    }
}

/// The length after an absolute wait: `p:q`, a bare decimal of seconds,
/// or `<float>#p:q`.
pub open spec fn sp_wait_abs_len(s: Seq<char>, i: int) -> Option<(LenView, int)> {
    match sp_wait_bpm_len(s, i) {
        Some(x) => Some(x),
        None => sp_len_bpm(s, i),
    }
}

fn parse_wait_abs_len(s: &[char], i: usize) -> (r: Option<(Len, usize)>)
    requires
        i <= s@.len(),
    ensures
        match r {
            Some((v, j)) => sp_wait_abs_len(s@, i as int) == Some((v@, j as int)) && i < j <= s@.len(),
            None => sp_wait_abs_len(s@, i as int) is None,
        },
{
    match parse_wait_bpm_len(s, i) {
        Some(x) => Some(x),
        None => parse_len_bpm(s, i),
    }
}

/// What stands between the brackets of a slide's timing, tried in order:
/// `p:q` (a one-beat wait), `<bpm>#<len>` (a one-beat wait at that tempo),
/// `<seconds>##<len>` (a wait in seconds).
pub open spec fn sp_wait_body(s: Seq<char>, i: int) -> Option<((WaitView, LenView), int)> {
    match sp_frac(s, i) {
        Some((f, a)) => Some(((WaitView::Rel, LenView::Rel(f)), a)),
        None => {
            let bpm = match sp_float(s, i) {
                Some((b, a)) => match sp_sym(s, a, '#') {
                    Some(c) => match sp_wait_bpm_len(s, c) {
                        Some((len, e)) => Some(((WaitView::Bpm(b), len), e)),
                        None => None,
                    },
                    None => None,
                },
                None => None,
            };
            if bpm is Some {
                bpm
            } else {
                match sp_float(s, i) {
                    Some((t, a)) => match sp_sym2(s, a, '#') {
                        Some(c) => match sp_wait_abs_len(s, c) {
                            Some((len, e)) => Some(((WaitView::Abs(t), len), e)),
                            None => None,
                        },
                        None => None,
                    },
                    None => None,
                }
            }
        },
    }
}

fn parse_wait_body(s: &[char], i: usize) -> (r: Option<((Wait, Len), usize)>)
    requires
        i <= s@.len(),
    ensures
        match r {
            Some((v, j)) => sp_wait_body(s@, i as int) == Some(((v.0@, v.1@), j as int)) && i < j
                <= s@.len(),
            None => sp_wait_body(s@, i as int) is None,
        },
{
    if let Some((f, a)) = parse_frac(s, i) {
        return Some(((Wait::Rel, Len::Rel(f)), a));
    }
    if let Some((b, a)) = parse_float(s, i) {
        if let Some(c) = sym(s, a, '#') {
            if let Some((len, e)) = parse_wait_bpm_len(s, c) {
                return Some(((Wait::Bpm(b), len), e));
            }
        }
    }
    match parse_float(s, i) {
        Some((t, a)) => match sym2(s, a, '#') {
            Some(c) => match parse_wait_abs_len(s, c) {
                Some((len, e)) => Some(((Wait::Abs(t), len), e)),
                None => None,
            },
            None => None,
        },
        None => None,
    }
}

/// A slide's bracketed timing: its wait and its length.
pub open spec fn sp_wait(s: Seq<char>, i: int) -> Option<((WaitView, LenView), int)> {
    match sp_sym(s, i, '[') {
        Some(a) => match sp_wait_body(s, a) {
            Some((w, b)) => match sp_sym(s, b, ']') {
                Some(c) => Some((w, c)),
                None => None,
            },
            None => None,
        },
        None => None,
    }
}

pub fn parse_wait(s: &[char], i: usize) -> (r: Option<((Wait, Len), usize)>)
    requires
        i <= s@.len(),
    ensures
        match r {
            Some((v, j)) => sp_wait(s@, i as int) == Some(((v.0@, v.1@), j as int)) && i < j
                <= s@.len(),
            None => sp_wait(s@, i as int) is None,
        },
{
    match sym(s, i, '[') {
        Some(a) => match parse_wait_body(s, a) {
            Some((w, b)) => match sym(s, b, ']') {
                Some(c) => Some((w, c)),
                None => None,
            },
            None => None,
        },
        None => None,
    }
}

/// A segment shape, padded: `pp`, `qq`, one of `-<>^szvwpq`, or `V` with
/// a button.
pub open spec fn sp_shape(s: Seq<char>, i: int) -> Option<(Shape, int)> {
    let a = ws_end(s, i);
    let r = if sp_sym2(s, a, 'p') is Some {
        Some((Shape::PP, sp_sym2(s, a, 'p')->0))
    } else if sp_sym2(s, a, 'q') is Some {
        Some((Shape::QQ, sp_sym2(s, a, 'q')->0))
    } else if a < s.len() && shape_of(s[a]) is Some {
        Some((shape_of(s[a])->0, a + 1))
    } else {
        match sp_sym(s, a, 'V') {
            Some(b) => match sp_key(s, b) {
                Some((k, c)) => Some((Shape::Angle(k), c)),
                None => None,
            },
            None => None,
        }
    };
    match r {
        Some((shape, b)) => Some((shape, ws_end(s, b))),
        None => None,
    }
}

pub fn parse_shape(s: &[char], i: usize) -> (r: Option<(Shape, usize)>)
    requires
        i <= s@.len(),
    ensures
        match r {
            Some((v, j)) => sp_shape(s@, i as int) == Some((v, j as int)) && i < j <= s@.len(),
            None => sp_shape(s@, i as int) is None,
        },
{
    let a = skip_ws(s, i);
    let r = if let Some(b) = sym2(s, a, 'p') {
        Some((Shape::PP, b))
    } else if let Some(b) = sym2(s, a, 'q') {
        Some((Shape::QQ, b))
    } else if a < s.len() && (s[a] == '-' || s[a] == '<' || s[a] == '>' || s[a] == '^' || s[a]
        == 's' || s[a] == 'z' || s[a] == 'v' || s[a] == 'w' || s[a] == 'p' || s[a] == 'q') {
        Some((Shape::from(s[a]), a + 1))
    } else {
        match sym(s, a, 'V') {
            Some(b) => match parse_key(s, b) {
                Some((k, c)) => Some((Shape::Angle(k), c)),
                None => None,
            },
            None => None,
        }
    };
    match r {
        Some((shape, b)) => Some((shape, skip_ws(s, b))),
        None => None,
    }
}

/// One segment of a slide path: a shape and the button it ends on.
pub open spec fn sp_hop(s: Seq<char>, i: int) -> Option<((Shape, Key), int)> {
    match sp_shape(s, i) {
        Some((shape, a)) => match sp_key(s, a) {
            Some((key, b)) => Some(((shape, key), b)),
            None => None,
        },
        None => None,
    }
}

pub fn parse_hop(s: &[char], i: usize) -> (r: Option<((Shape, Key), usize)>)
    requires
        i <= s@.len(),
    ensures
        match r {
            Some((v, j)) => sp_hop(s@, i as int) == Some((v, j as int)) && i < j <= s@.len(),
            None => sp_hop(s@, i as int) is None,
        },
{
    match parse_shape(s, i) {
        Some((shape, a)) => match parse_key(s, a) {
            Some((key, b)) => Some(((shape, key), b)),
            None => None,
        },
        None => None,
    }
}

} // verus!
