//! The chart grammar: note items and their priority, simultaneous notes
//! with recovery at `/`, tempo and subdivision markers, tick runs with
//! recovery, and the fold over the whole text.
use vstd::prelude::*;

use crate::item::{views, Diagnostic, Item, ItemView, Reason, Span};
use crate::lex::{
    lemma_ws_end, parse_float, parse_int, parse_key, sp_float, sp_int, sp_key,
    sp_sym, sym, ws_end,
};
use crate::misc::{Bpm, Div, DivAbs, PseudoTick, Tick};
use crate::note::{Key, Tap};
use crate::notes::{parse_hold, parse_tap, parse_touch_hold, parse_touch_tap, sp_hold, sp_tap, sp_touch_hold, sp_touch_tap};
use crate::slide::{parse_slide, sp_slide};
use crate::style::TapStyle;

verus! {

/// A parser that appends its items to a list that held `o0` and now holds
/// `o1`, and its diagnostics to one that held `d0` and now holds `d1`,
/// returned `r` as `sp` specifies; one that fails leaves both lists as they
/// were.
pub open spec fn agrees_items(
    r: Option<usize>,
    sp: Option<(Seq<ItemView>, int, Seq<Diagnostic>)>,
    o0: Seq<Item>,
    o1: Seq<Item>,
    d0: Seq<Diagnostic>,
    d1: Seq<Diagnostic>,
) -> bool {
    match (r, sp) {
        (Some(j), Some((xs, k, ds))) => j as int == k && views(o1) == views(o0) + xs && d1 == d0
            + ds,
        (None, None) => o1 == o0 && d1 == d0,
        _ => false,
    }
}

proof fn lemma_views_push(v: Seq<Item>, x: Item)
    ensures
        views(v.push(x)) == views(v) + seq![x@],
{
    assert(views(v.push(x)) =~= views(v) + seq![x@]);
}

/// Buttons, as many as follow.
pub open spec fn sp_keys(s: Seq<char>, i: int) -> (Seq<Key>, int)
    decreases s.len() - i,
{
    match sp_key(s, i) {
        Some((k, a)) => if i < a <= s.len() {
            let rest = sp_keys(s, a);
            (seq![k] + rest.0, rest.1)
        } else {
            (seq![], i)
        },
        None => (seq![], i),
    }
}

pub open spec fn plain_tap(k: Key) -> ItemView {
    ItemView::Tap(Tap { key: k, style: TapStyle { bits: 0 } })
}

/// Two or more bare buttons in a row: a plain tap on each.
pub open spec fn sp_tap_group(s: Seq<char>, i: int) -> Option<(Seq<ItemView>, int, Seq<Diagnostic>)> {
    let (keys, e) = sp_keys(s, i);
    if keys.len() >= 2 {
        Some((keys.map_values(|k: Key| plain_tap(k)), e, seq![]))
    } else {
        None
    }
}

fn parse_keys(s: &[char], i: usize, out: &mut Vec<Item>) -> (r: usize)
    requires
        i <= s@.len(),
    ensures
        views(final(out)@) == views(old(out)@) + sp_keys(s@, i as int).0.map_values(
            |k: Key| plain_tap(k),
        ),
        final(out)@.len() == old(out)@.len() + sp_keys(s@, i as int).0.len(),
        final(out)@.subrange(0, old(out)@.len() as int) == old(out)@,
        r as int == sp_keys(s@, i as int).1,
        i <= r <= s@.len(),
        final(out)@.len() > old(out)@.len() ==> i < r,
    decreases s@.len() - i,
{
    match parse_key(s, i) {
        Some((key, a)) => {
            let ghost o0 = out@;
            let item = Item::Tap(Tap { key, style: TapStyle::empty() });
            out.push(item);
            proof {
                lemma_views_push(o0, item);
            }
            let r = parse_keys(s, a, out);
            assert(final(out)@.subrange(0, o0.len() as int) =~= final(out)@.subrange(0, o0.len() as int + 1).subrange(0, o0.len() as int));
            assert(o0.push(item).subrange(0, o0.len() as int) =~= o0);
            assert(views(final(out)@) =~= views(old(out)@) + sp_keys(s@, i as int).0.map_values(
                |k: Key| plain_tap(k),
            ));
            r
        },
        None => {
            assert(out@.subrange(0, old(out)@.len() as int) =~= old(out)@);
            assert(views(out@) =~= views(old(out)@) + sp_keys(s@, i as int).0.map_values(
                |k: Key| plain_tap(k),
            ));
            i
        },
    }
}

fn parse_tap_group(s: &[char], i: usize, out: &mut Vec<Item>, d: &mut Vec<Diagnostic>) -> (r: Option<usize>)
    requires
        i <= s@.len(),
    ensures
        agrees_items(r, sp_tap_group(s@, i as int), old(out)@, final(out)@, old(d)@, final(d)@),
        r matches Some(j) ==> i < j <= s@.len(),
{
    let n0 = out.len();
    let e = parse_keys(s, i, out);
    if out.len() - n0 >= 2 {
        assert(d@ =~= old(d)@ + seq![]);
        Some(e)
    } else {
        out.truncate(n0);
        assert(out@ =~= old(out)@);
        None
    }
}

pub open spec fn one(r: Option<(ItemView, int, Seq<Diagnostic>)>) -> Option<(Seq<ItemView>, int, Seq<Diagnostic>)> {
    match r {
        Some((x, j, ds)) => Some((seq![x], j, ds)),
        None => None,
    }
}

/// One note item, by priority: a hold or touch hold, a tap group, a slide,
/// a tap or touch tap.
pub open spec fn sp_note_item(s: Seq<char>, i: int) -> Option<(Seq<ItemView>, int, Seq<Diagnostic>)> {
    if sp_hold(s, i) is Some {
        one(sp_hold(s, i))
    } else if sp_touch_hold(s, i) is Some {
        one(sp_touch_hold(s, i))
    } else if sp_tap_group(s, i) is Some {
        sp_tap_group(s, i)
    } else if sp_slide(s, i) is Some {
        one(sp_slide(s, i))
    } else if sp_tap(s, i) is Some {
        one(sp_tap(s, i))
    } else {
        one(sp_touch_tap(s, i))
    }
}

fn push_one(
    r: Option<(Item, usize)>,
    out: &mut Vec<Item>,
) -> (j: Option<usize>)
    ensures
        match r {
            Some((x, k)) => j == Some(k) && final(out)@ == old(out)@.push(x) && views(final(out)@) == views(old(out)@) + seq![x@],
            None => j is None && final(out)@ == old(out)@,
        },
{
    match r {
        Some((x, k)) => {
            proof {
                lemma_views_push(out@, x);
            }
            out.push(x);
            Some(k)
        },
        None => None,
    }
}

pub fn parse_note_item(s: &[char], i: usize, out: &mut Vec<Item>, d: &mut Vec<Diagnostic>) -> (r: Option<usize>)
    requires
        i <= s@.len(),
    ensures
        agrees_items(r, sp_note_item(s@, i as int), old(out)@, final(out)@, old(d)@, final(d)@),
        r matches Some(j) ==> i < j <= s@.len(),
{
    let h = parse_hold(s, i, d);
    if h.is_some() {
        return push_one(h, out);
    }
    let h = parse_touch_hold(s, i, d);
    if h.is_some() {
        return push_one(h, out);
    }
    let g = parse_tap_group(s, i, out, d);
    if g.is_some() {
        return g;
    }
    let sl = parse_slide(s, i, d);
    if sl.is_some() {
        return push_one(sl, out);
    }
    let t = parse_tap(s, i, d);
    if t.is_some() {
        return push_one(t, out);
    }
    let t = parse_touch_tap(s, i, d);
    push_one(t, out)
}


pub open spec fn is_tick_char(c: char) -> bool {
    c == ',' || c == '`'
}

/// The end of the run of characters, from `i`, that are neither tick
/// markers nor, where `at_slash` holds, `/`.
pub open spec fn skip_end(s: Seq<char>, i: int, at_slash: bool) -> int
    decreases s.len() - i,
{
    if 0 <= i < s.len() && !is_tick_char(s[i]) && !(at_slash && s[i] == '/') {
        skip_end(s, i + 1, at_slash)
    } else {
        i
    }
}

fn skip_to(s: &[char], i: usize, at_slash: bool) -> (r: usize)
    requires
        i <= s@.len(),
    ensures
        r as int == skip_end(s@, i as int, at_slash),
        i <= r <= s@.len(),
{
    let mut k = i;
    while k < s.len() && s[k] != ',' && s[k] != '`' && !(at_slash && s[k] == '/')
        invariant
            i <= k <= s@.len(),
            skip_end(s@, k as int, at_slash) == skip_end(s@, i as int, at_slash),
        decreases s@.len() - k,
    {
        k += 1;
    }
    k
}

pub open spec fn unexpected(span: Span) -> Diagnostic {
    Diagnostic { span, reason: Reason::Unexpected }
}

/// The separator before a simultaneous note: `/`, or else a region of
/// characters up to the next `/` (and not across a tick marker), which is
/// skipped and reported.
pub open spec fn sp_slash(s: Seq<char>, i: int) -> Option<(Option<Span>, int)> {
    match sp_sym(s, i, '/') {
        Some(a) => Some((None, a)),
        None => {
            let e = skip_end(s, i, true);
            if e > i {
                match sp_sym(s, e, '/') {
                    Some(a) => Some((Some(Span { start: i as usize, end: e as usize }), a)),
                    None => None,
                }
            } else {
                None
            }
        },
    }
}

fn parse_slash(s: &[char], i: usize) -> (r: Option<(Option<Span>, usize)>)
    requires
        i <= s@.len(),
    ensures
        match r {
            Some((v, j)) => sp_slash(s@, i as int) == Some((v, j as int)) && i < j <= s@.len(),
            None => sp_slash(s@, i as int) is None,
        },
{
    match sym(s, i, '/') {
        Some(a) => Some((None, a)),
        None => {
            let e = skip_to(s, i, true);
            if e > i {
                match sym(s, e, '/') {
                    Some(a) => Some((Some(Span { start: i, end: e }), a)),
                    None => None,
                }
            } else {
                None
            }
        },
    }
}

/// The notes after the first of a group, each after its separator; a
/// skipped region before one becomes an `Error` item and a diagnostic.
pub open spec fn sp_more_notes(s: Seq<char>, i: int) -> (Seq<ItemView>, int, Seq<Diagnostic>)
    decreases s.len() - i,
{
    match sp_slash(s, i) {
        Some((err, a)) => match sp_note_item(s, a) {
            Some((xs, b, ds)) => if i < b <= s.len() {
                let rest = sp_more_notes(s, b);
                let (pre, pre_d) = match err {
                    Some(span) => (seq![ItemView::Error(span)], seq![unexpected(span)]),
                    None => (seq![], seq![]),
                };
                (pre + xs + rest.0, rest.1, pre_d + ds + rest.2)
            } else {
                (seq![], i, seq![])
            },
            None => (seq![], i, seq![]),
        },
        None => (seq![], i, seq![]),
    }
}

fn parse_more_notes(s: &[char], i: usize, out: &mut Vec<Item>, d: &mut Vec<Diagnostic>) -> (r: usize)
    requires
        i <= s@.len(),
    ensures
        views(final(out)@) == views(old(out)@) + sp_more_notes(s@, i as int).0,
        final(d)@ == old(d)@ + sp_more_notes(s@, i as int).2,
        r as int == sp_more_notes(s@, i as int).1,
        i <= r <= s@.len(),
    decreases s@.len() - i,
{
    let (err, a) = match parse_slash(s, i) {
        Some(x) => x,
        None => {
            assert(views(out@) =~= views(old(out)@) + seq![]);
            assert(d@ =~= old(d)@ + seq![]);
            return i;
        },
    };
    let n0 = out.len();
    let m0 = d.len();
    if let Some(span) = err {
        let item = Item::Error(span);
        proof {
            lemma_views_push(out@, item);
        }
        out.push(item);
        d.push(Diagnostic { span, reason: Reason::Unexpected });
    }
    match parse_note_item(s, a, out, d) {
        Some(b) => {
            let r = parse_more_notes(s, b, out, d);
            assert(views(final(out)@) =~= views(old(out)@) + sp_more_notes(s@, i as int).0);
            assert(final(d)@ =~= old(d)@ + sp_more_notes(s@, i as int).2);
            r
        },
        None => {
            out.truncate(n0);
            d.truncate(m0);
            assert(out@ =~= old(out)@);
            assert(d@ =~= old(d)@);
            assert(views(out@) =~= views(old(out)@) + seq![]);
            assert(d@ =~= old(d)@ + seq![]);
            i
        },
    }
}

/// Simultaneous notes separated by `/`, or the end marker `E`.
pub open spec fn sp_note_items(s: Seq<char>, i: int) -> Option<(Seq<ItemView>, int, Seq<Diagnostic>)> {
    match sp_note_item(s, i) {
        Some((xs, a, ds)) => {
            let rest = sp_more_notes(s, a);
            Some((xs + rest.0, rest.1, ds + rest.2))
        },
        None => match sp_sym(s, i, 'E') {
            Some(a) => Some((seq![ItemView::End], a, seq![])),
            None => None,
        },
    }
}

fn parse_note_items(s: &[char], i: usize, out: &mut Vec<Item>, d: &mut Vec<Diagnostic>) -> (r: Option<usize>)
    requires
        i <= s@.len(),
    ensures
        agrees_items(r, sp_note_items(s@, i as int), old(out)@, final(out)@, old(d)@, final(d)@),
        r matches Some(j) ==> i < j <= s@.len(),
{
    match parse_note_item(s, i, out, d) {
        Some(a) => {
            let r = parse_more_notes(s, a, out, d);
            assert(views(final(out)@) =~= views(old(out)@) + ((sp_note_item(s@, i as int)->0).0 + sp_more_notes(s@, a as int).0));
            assert(final(d)@ =~= old(d)@ + ((sp_note_item(s@, i as int)->0).2 + sp_more_notes(s@, a as int).2));
            Some(r)
        },
        None => match sym(s, i, 'E') {
            Some(a) => {
                proof {
                    lemma_views_push(out@, Item::End);
                }
                out.push(Item::End);
                assert(d@ =~= old(d)@ + seq![]);
                Some(a)
            },
            None => None,
        },
    }
}

/// `(<float>)`: a tempo.
pub open spec fn sp_bpm(s: Seq<char>, i: int) -> Option<(ItemView, int)> {
    match sp_sym(s, i, '(') {
        Some(a) => match sp_float(s, a) {
            Some((f, b)) => match sp_sym(s, b, ')') {
                Some(c) => Some((ItemView::Bpm(f), c)),
                None => None,
            },
            None => None,
        },
        None => None,
    }
}

fn parse_bpm(s: &[char], i: usize) -> (r: Option<(Item, usize)>)
    requires
        i <= s@.len(),
    ensures
        match r {
            Some((v, j)) => sp_bpm(s@, i as int) == Some((v@, j as int)) && i < j <= s@.len(),
            None => sp_bpm(s@, i as int) is None,
        },
{
    match sym(s, i, '(') {
        Some(a) => match parse_float(s, a) {
            Some((f, b)) => match sym(s, b, ')') {
                Some(c) => Some((Item::Bpm(Bpm(f)), c)),
                None => None,
            },
            None => None,
        },
        None => None,
    }
}

/// `{<int>}`: a subdivision.
pub open spec fn sp_div(s: Seq<char>, i: int) -> Option<(ItemView, int)> {
    match sp_sym(s, i, '{') {
        Some(a) => match sp_int(s, a) {
            Some((n, b)) => match sp_sym(s, b, '}') {
                Some(c) => Some((ItemView::Div(Div(n)), c)),
                None => None,
            },
            None => None,
        },
        None => None,
    }
}

fn parse_div(s: &[char], i: usize) -> (r: Option<(Item, usize)>)
    requires
        i <= s@.len(),
    ensures
        match r {
            Some((v, j)) => sp_div(s@, i as int) == Some((v@, j as int)) && i < j <= s@.len(),
            None => sp_div(s@, i as int) is None,
        },
{
    match sym(s, i, '{') {
        Some(a) => match parse_int(s, a) {
            Some((n, b)) => match sym(s, b, '}') {
                Some(c) => Some((Item::Div(Div(n)), c)),
                None => None,
            },
            None => None,
        },
        None => None,
    }
}

/// `{#<float>}`: a subdivision given as a tick length.
pub open spec fn sp_div_abs(s: Seq<char>, i: int) -> Option<(ItemView, int)> {
    match sp_sym(s, i, '{') {
        Some(a) => match sp_sym(s, a, '#') {
            Some(b) => match sp_float(s, b) {
                Some((f, c)) => match sp_sym(s, c, '}') {
                    Some(e) => Some((ItemView::DivAbs(f), e)),
                    None => None,
                },
                None => None,
            },
            None => None,
        },
        None => None,
    }
}

fn parse_div_abs(s: &[char], i: usize) -> (r: Option<(Item, usize)>)
    requires
        i <= s@.len(),
    ensures
        match r {
            Some((v, j)) => sp_div_abs(s@, i as int) == Some((v@, j as int)) && i < j <= s@.len(),
            None => sp_div_abs(s@, i as int) is None,
        },
{
    match sym(s, i, '{') {
        Some(a) => match sym(s, a, '#') {
            Some(b) => match parse_float(s, b) {
                Some((f, c)) => match sym(s, c, '}') {
                    Some(e) => Some((Item::DivAbs(DivAbs(f)), e)),
                    None => None,
                },
                None => None,
            },
            None => None,
        },
        None => None,
    }
}

/// The markers that may open a beat: a tempo followed by a subdivision, a
/// tempo, a subdivision, or a subdivision as a tick length.
pub open spec fn sp_prefix(s: Seq<char>, i: int) -> Option<(Seq<ItemView>, int)> {
    match sp_bpm(s, i) {
        Some((b, a)) => match sp_div(s, a) {
            Some((dv, c)) => Some((seq![b, dv], c)),
            None => Some((seq![b], a)),
        },
        None => match sp_div(s, i) {
            Some((dv, c)) => Some((seq![dv], c)),
            None => match sp_div_abs(s, i) {
                Some((x, c)) => Some((seq![x], c)),
                None => None,
            },
        },
    }
}

fn parse_prefix(s: &[char], i: usize, out: &mut Vec<Item>) -> (r: Option<usize>)
    requires
        i <= s@.len(),
    ensures
        match r {
            Some(j) => sp_prefix(s@, i as int) matches Some((xs, k)) && k == j as int
                && views(final(out)@) == views(old(out)@) + xs && i < j <= s@.len(),
            None => sp_prefix(s@, i as int) is None && final(out)@ == old(out)@,
        },
{
    match parse_bpm(s, i) {
        Some((b, a)) => {
            proof {
                lemma_views_push(out@, b);
            }
            out.push(b);
            if let Some((dv, c)) = parse_div(s, a) {
                proof {
                    lemma_views_push(out@, dv);
                }
                out.push(dv);
                assert(views(out@) =~= views(old(out)@) + seq![b@, dv@]);
                return Some(c);
            }
            Some(a)
        },
        None => {
            let single = match parse_div(s, i) {
                Some(x) => Some(x),
                None => parse_div_abs(s, i),
            };
            match single {
                Some((x, c)) => {
                    proof {
                        lemma_views_push(out@, x);
                    }
                    out.push(x);
                    Some(c)
                },
                None => None,
            }
        },
    }
}

/// What may stand after a tick run: optional opening markers, then
/// optional notes.
pub open spec fn sp_main(s: Seq<char>, i: int) -> (Seq<ItemView>, int, Seq<Diagnostic>) {
    let (pre, a) = match sp_prefix(s, i) {
        Some(x) => x,
        None => (seq![], i),
    };
    match sp_note_items(s, a) {
        Some((xs, b, ds)) => (pre + xs, b, ds),
        None => (pre, a, seq![]),
    }
}

fn parse_main(s: &[char], i: usize, out: &mut Vec<Item>, d: &mut Vec<Diagnostic>) -> (r: usize)
    requires
        i <= s@.len(),
    ensures
        views(final(out)@) == views(old(out)@) + sp_main(s@, i as int).0,
        final(d)@ == old(d)@ + sp_main(s@, i as int).2,
        r as int == sp_main(s@, i as int).1,
        i <= r <= s@.len(),
{
    let a = match parse_prefix(s, i, out) {
        Some(a) => a,
        None => {
            assert(views(out@) =~= views(old(out)@) + seq![]);
            i
        },
    };
    match parse_note_items(s, a, out, d) {
        Some(b) => {
            assert(views(out@) =~= views(old(out)@) + sp_main(s@, i as int).0);
            b
        },
        None => {
            assert(d@ =~= old(d)@ + seq![]);
            a
        },
    }
}


/// How many times `c` stands in a row, padded, and where the run ends.
pub open spec fn sp_count(s: Seq<char>, i: int, c: char) -> (nat, int)
    decreases s.len() - i,
{
    match sp_sym(s, i, c) {
        Some(a) => if i < a <= s.len() {
            let rest = sp_count(s, a, c);
            (rest.0 + 1, rest.1)
        } else {
            (0, i)
        },
        None => (0, i),
    }
}

fn parse_count(s: &[char], i: usize, c: char) -> (r: (usize, usize))
    requires
        i <= s@.len(),
    ensures
        sp_count(s@, i as int, c) == (r.0 as nat, r.1 as int),
        i <= r.1 <= s@.len(),
        r.0 <= r.1 - i,
{
    let mut n: usize = 0;
    let mut k = i;
    loop
        invariant
            i <= k <= s@.len(),
            n <= k - i,
            sp_count(s@, i as int, c) == ((n + sp_count(s@, k as int, c).0) as nat, sp_count(s@, k as int, c).1),
        ensures
            i <= k <= s@.len(),
            n <= k - i,
            sp_count(s@, i as int, c) == (n as nat, k as int),
        decreases s@.len() - k,
    {
        match sym(s, k, c) {
            Some(a) => {
                n += 1;
                k = a;
            },
            None => break,
        }
    }
    (n, k)
}

/// A run of `,` (a tick) or else of `` ` `` (a pseudo-tick).
pub open spec fn sp_tick(s: Seq<char>, i: int) -> Option<(ItemView, int)> {
    let (n, e) = sp_count(s, i, ',');
    let (m, f) = sp_count(s, i, '`');
    if n > 0 {
        Some((ItemView::Tick(Tick(n as u32)), e))
    } else if m > 0 {
        Some((ItemView::PseudoTick(PseudoTick(m as u32)), f))
    } else {
        None
    }
}

fn parse_tick(s: &[char], i: usize) -> (r: Option<(Item, usize)>)
    requires
        i <= s@.len(),
    ensures
        match r {
            Some((v, j)) => sp_tick(s@, i as int) == Some((v@, j as int)) && i < j <= s@.len(),
            None => sp_tick(s@, i as int) is None,
        },
{
    let (n, e) = parse_count(s, i, ',');
    if n > 0 {
        return Some((Item::Tick(Tick(n as u32)), e));
    }
    let (m, f) = parse_count(s, i, '`');
    if m > 0 {
        Some((Item::PseudoTick(PseudoTick(m as u32)), f))
    } else {
        None
    }
}

/// A tick run, or else a region of other characters, skipped and reported,
/// followed by a tick run or by the end of the text.
pub open spec fn sp_tick_item(s: Seq<char>, i: int) -> Option<(Seq<ItemView>, int, Seq<Diagnostic>)> {
    match sp_tick(s, i) {
        Some((t, a)) => Some((seq![t], a, seq![])),
        None => {
            let e = skip_end(s, i, false);
            let span = Span { start: i as usize, end: e as usize };
            if e > i {
                match sp_tick(s, e) {
                    Some((t, a)) => Some((seq![ItemView::Error(span), t], a, seq![unexpected(span)])),
                    None => if e == s.len() {
                        Some((seq![ItemView::Error(span)], e, seq![unexpected(span)]))
                    } else {
                        None
                    },
                }
            } else {
                None
            }
        },
    }
}

fn parse_tick_item(s: &[char], i: usize, out: &mut Vec<Item>, d: &mut Vec<Diagnostic>) -> (r: Option<usize>)
    requires
        i <= s@.len(),
    ensures
        agrees_items(r, sp_tick_item(s@, i as int), old(out)@, final(out)@, old(d)@, final(d)@),
        r matches Some(j) ==> i < j <= s@.len(),
{
    if let Some((t, a)) = parse_tick(s, i) {
        proof {
            lemma_views_push(out@, t);
        }
        out.push(t);
        assert(d@ =~= old(d)@ + seq![]);
        return Some(a);
    }
    let e = skip_to(s, i, false);
    if e <= i {
        return None;
    }
    let span = Span { start: i, end: e };
    let tick = parse_tick(s, e);
    if tick.is_none() && e < s.len() {
        return None;
    }
    let err = Item::Error(span);
    proof {
        lemma_views_push(out@, err);
    }
    out.push(err);
    d.push(Diagnostic { span, reason: Reason::Unexpected });
    assert(d@ =~= old(d)@ + seq![unexpected(span)]);
    match tick {
        Some((t, a)) => {
            proof {
                lemma_views_push(out@, t);
            }
            out.push(t);
            assert(views(out@) =~= views(old(out)@) + seq![ItemView::Error(span), t@]);
            Some(a)
        },
        None => Some(e),
    }
}

/// Beats after the first: each a tick item and what follows it.
pub open spec fn sp_cycles(s: Seq<char>, i: int) -> (Seq<ItemView>, int, Seq<Diagnostic>)
    decreases s.len() - i,
{
    match sp_tick_item(s, i) {
        Some((ts, a, ds)) => {
            let m = sp_main(s, a);
            if i < m.1 <= s.len() {
                let rest = sp_cycles(s, m.1);
                (ts + m.0 + rest.0, rest.1, ds + m.2 + rest.2)
            } else {
                (seq![], i, seq![])
            }
        },
        None => (seq![], i, seq![]),
    }
}

/// A whole chart: what may stand before the first tick, then the beats
/// that follow; the events in source order, and the diagnostics.
pub open spec fn sp_chart(s: Seq<char>) -> (Seq<ItemView>, Seq<Diagnostic>) {
    let h = sp_main(s, 0);
    let c = sp_cycles(s, h.1);
    (h.0 + c.0, h.2 + c.2)
}

/// Where the reading of a chart stops.
pub open spec fn chart_end(s: Seq<char>) -> int {
    sp_cycles(s, sp_main(s, 0).1).1
}

proof fn lemma_skip_end(s: Seq<char>, i: int, at_slash: bool)
    requires
        0 <= i <= s.len(),
    ensures
        i <= skip_end(s, i, at_slash) <= s.len(),
        skip_end(s, i, at_slash) < s.len() ==> is_tick_char(s[skip_end(s, i, at_slash)]) || (
        at_slash && s[skip_end(s, i, at_slash)] == '/'),
    decreases s.len() - i,
{
    if i < s.len() && !is_tick_char(s[i]) && !(at_slash && s[i] == '/') {
        lemma_skip_end(s, i + 1, at_slash);
    }
}

proof fn lemma_tick_at_marker(s: Seq<char>, i: int)
    requires
        0 <= i < s.len(),
        is_tick_char(s[i]),
    ensures
        sp_tick(s, i) is Some,
{
    assert(ws_end(s, i) == i);
    lemma_ws_end(s, i + 1);
    if s[i] == ',' {
        assert(sp_sym(s, i, ',') is Some);
    } else {
        assert(sp_sym(s, i, '`') is Some);
    }
}

/// Where text remains, a tick item can always be read: a region that is no
/// tick run is skipped up to the next tick marker or to the end.
proof fn lemma_tick_item_total(s: Seq<char>, i: int)
    requires
        0 <= i < s.len(),
    ensures
        sp_tick_item(s, i) is Some,
{
    if sp_tick(s, i) is None {
        if is_tick_char(s[i]) {
            lemma_tick_at_marker(s, i);
        }
        lemma_skip_end(s, i + 1, false);
        let e = skip_end(s, i, false);
        if e < s.len() {
            lemma_tick_at_marker(s, e);
        }
    }
}

proof fn lemma_cycles_step(s: Seq<char>, i: int, a: int, b: int)
    requires
        sp_tick_item(s, i) matches Some((_, e, _)) && e == a,
        sp_main(s, a).1 == b,
        i < b <= s.len(),
    ensures
        ({
            let (ts, _, ds) = sp_tick_item(s, i)->0;
            let m = sp_main(s, a);
            let rest = sp_cycles(s, b);
            sp_cycles(s, i) == (ts + m.0 + rest.0, rest.1, ds + m.2 + rest.2)
        }),
{
}

/// Reads a chart. Recovery makes every text readable to its end.
pub fn parse_chart(s: &[char]) -> (r: (Vec<Item>, Vec<Diagnostic>))
    ensures
        views(r.0@) == sp_chart(s@).0,
        r.1@ == sp_chart(s@).1,
        chart_end(s@) == s@.len(),
{
    let mut out: Vec<Item> = Vec::new();
    let mut d: Vec<Diagnostic> = Vec::new();
    let mut pos = parse_main(s, 0, &mut out, &mut d);
    assert(views(out@) =~= seq![] + sp_main(s@, 0).0);
    assert(d@ =~= seq![] + sp_main(s@, 0).2);
    loop
        invariant
            pos <= s@.len(),
            sp_chart(s@) == (
                views(out@) + sp_cycles(s@, pos as int).0,
                d@ + sp_cycles(s@, pos as int).2,
            ),
            chart_end(s@) == sp_cycles(s@, pos as int).1,
        ensures
            sp_chart(s@) == (views(out@), d@),
            chart_end(s@) == s@.len(),
        decreases s@.len() - pos,
    {
        let ghost o0 = out@;
        let ghost d0 = d@;
        match parse_tick_item(s, pos, &mut out, &mut d) {
            Some(a) => {
                let b = parse_main(s, a, &mut out, &mut d);
                proof {
                    lemma_cycles_step(s@, pos as int, a as int, b as int);
                    let (ts, _, ds) = sp_tick_item(s@, pos as int)->0;
                    let m = sp_main(s@, a as int);
                    let rest = sp_cycles(s@, b as int);
                    assert(views(out@) + rest.0 =~= views(o0) + (ts + m.0 + rest.0));
                    assert(d@ + rest.2 =~= d0 + (ds + m.2 + rest.2));
                }
                pos = b;
            },
            None => {
                if pos < s.len() {
                    proof {
                        lemma_tick_item_total(s@, pos as int);
                    }
                }
                assert(views(out@) + seq![] =~= views(out@));
                assert(d@ + seq![] =~= d@);
                break;
            },
        }
    }
    (out, d)
}

} // verus!
