//! The entry points: comment stripping and chart parsing.
use vstd::prelude::*;
use vstd::utf8::{char_is_scalar, encode_utf8, is_ascii_chars, is_ascii_chars_encode_utf8};

use crate::chart::{chart_end, parse_chart, sp_chart};
use crate::item::{views, Diagnostic, Item, ItemView, Span};
use crate::bytes::{
    byte_offsets, byte_pos, lemma_byte_of_char, lemma_byte_pos_mono, lemma_byte_pos_step, lemma_encode_concat,
    lemma_encode_one, utf8_width, width,
};
use crate::lex::string_from_chars;

verus! {

/// Relies on `str::chars` collected into a `Vec`: the characters of `s`, in
/// order.
#[verifier::external_body]
pub(crate) fn chars_of(s: &str) -> (r: Vec<char>)
    ensures
        r@ == s@,
{
    s.chars().collect()
}

/// The events of a chart, in source order, and the problems met while
/// reading it. Events may be present together with diagnostics.
#[derive(Debug, Clone)]
pub struct Parsed {
    pub items: Vec<Item>,
    pub diagnostics: Vec<Diagnostic>,
}

/// A span of character indices as byte offsets into the text `s`.
pub open spec fn byte_span(s: Seq<char>, sp: Span) -> Span {
    Span { start: byte_pos(s, sp.start as int) as usize, end: byte_pos(s, sp.end as int) as usize }
}

pub open spec fn item_in_bytes(s: Seq<char>, x: ItemView) -> ItemView {
    match x {
        ItemView::Error(sp) => ItemView::Error(byte_span(s, sp)),
        _ => x,
    }
}

pub open spec fn diag_in_bytes(s: Seq<char>, d: Diagnostic) -> Diagnostic {
    Diagnostic { span: byte_span(s, d.span), reason: d.reason }
}

/// What parsing `s` gives: the chart's events and diagnostics, with their
/// spans in byte offsets.
pub open spec fn sp_parse(s: Seq<char>) -> (Seq<ItemView>, Seq<Diagnostic>) {
    (
        sp_chart(s).0.map_values(|x: ItemView| item_in_bytes(s, x)),
        sp_chart(s).1.map_values(|d: Diagnostic| diag_in_bytes(s, d)),
    )
}

/// The byte offset of character index `k`, from the table of offsets.
fn offset_at(off: &Vec<usize>, Ghost(s): Ghost<Seq<char>>, k: usize) -> (r: usize)
    requires
        off@.len() == s.len() + 1,
        forall|m: int| 0 <= m <= s.len() ==> off@[m] as int == byte_pos(s, m),
    ensures
        r as int == byte_pos(s, k as int),
{
    proof {
        lemma_byte_pos_mono(s, 0, s.len() as int);
    }
    if k < off.len() {
        off[k]
    } else {
        off[off.len() - 1]
    }
}

/// Parses a chart body whose comments have been stripped (see
/// `rm_comments`). Malformed regions are skipped and reported: a bad style
/// modifier is dropped, a region that fits no note before a `/` or no tick
/// marker becomes an `Item::Error`; each gives a diagnostic. Spans are byte
/// offsets into `src`.
pub fn simai(src: &str) -> (r: Parsed)
    ensures
        views(r.items@) == sp_parse(src@).0,
        r.diagnostics@ == sp_parse(src@).1,
        chart_end(src@) == src@.len(),
{
    let chars = chars_of(src);
    let total = src.as_bytes().len();
    let off = byte_offsets(chars.as_slice(), total);
    let ghost s = src@;
    let (mut items, mut diagnostics) = parse_chart(chars.as_slice());
    let ghost items0 = views(items@);
    let mut k: usize = 0;
    while k < items.len()
        invariant
            k <= items@.len() == items0.len(),
            s == src@,
            off@.len() == s.len() + 1,
            forall|m: int| 0 <= m <= s.len() ==> off@[m] as int == byte_pos(s, m),
            forall|j: int| 0 <= j < k ==> #[trigger] items@[j]@ == item_in_bytes(s, items0[j]),
            forall|j: int| k <= j < items@.len() ==> #[trigger] items@[j]@ == items0[j],
        decreases items@.len() - k,
    {
        let conv = match &items[k] {
            Item::Error(sp) => Some(
                Span { start: offset_at(&off, Ghost(s), sp.start), end: offset_at(&off, Ghost(s), sp.end) },
            ),
            _ => None,
        };
        assert(items@[k as int]@ == items0[k as int]);
        if let Some(c) = conv {
            assert(items0[k as int] matches ItemView::Error(sp) && c == byte_span(s, sp));
            items.set(k, Item::Error(c));
        } else {
            assert(!(items0[k as int] is Error));
        }
        assert(items@[k as int]@ == item_in_bytes(s, items0[k as int]));
        k += 1;
    }
    assert(views(items@) =~= sp_parse(s).0);
    let ghost diags0 = diagnostics@;
    let mut k: usize = 0;
    while k < diagnostics.len()
        invariant
            k <= diagnostics@.len() == diags0.len(),
            s == src@,
            off@.len() == s.len() + 1,
            forall|m: int| 0 <= m <= s.len() ==> off@[m] as int == byte_pos(s, m),
            forall|j: int| 0 <= j < k ==> #[trigger] diagnostics@[j] == diag_in_bytes(s, diags0[j]),
            forall|j: int| k <= j < diagnostics@.len() ==> #[trigger] diagnostics@[j] == diags0[j],
        decreases diagnostics@.len() - k,
    {
        let d = diagnostics[k];
        let span = Span { start: offset_at(&off, Ghost(s), d.span.start), end: offset_at(&off, Ghost(s), d.span.end) };
        diagnostics.set(k, Diagnostic { span, reason: d.reason });
        k += 1;
    }
    assert(diagnostics@ =~= sp_parse(s).1);
    Parsed { items, diagnostics }
}

/// A line ends at `k`: a newline, or a carriage return before one.
pub open spec fn line_break_at(s: Seq<char>, k: int) -> bool {
    s[k] == '\n' || (s[k] == '\r' && k + 1 < s.len() && s[k + 1] == '\n')
}

/// A comment marker `||` starts at `k`.
pub open spec fn marker_at(s: Seq<char>, k: int) -> bool {
    0 <= k && k + 1 < s.len() && s[k] == '|' && s[k + 1] == '|'
}

/// A comment opened earlier on the line is still open at `k`.
pub open spec fn open_comment(s: Seq<char>, k: int) -> bool
    decreases k,
{
    if k <= 0 {
        false
    } else {
        s[k - 1] != '\n' && (open_comment(s, k - 1) || marker_at(s, k - 1))
    }
}

/// The character at `k` belongs to a comment: from a marker to the end of
/// its line, the line break excluded.
pub open spec fn in_comment(s: Seq<char>, k: int) -> bool {
    !line_break_at(s, k) && (open_comment(s, k) || marker_at(s, k))
}

/// What a character becomes: inside a comment, one space per byte of its
/// UTF-8 encoding; elsewhere, itself.
pub open spec fn piece(s: Seq<char>, k: int) -> Seq<char> {
    if in_comment(s, k) {
        Seq::new(width(s[k]), |j: int| ' ')
    } else {
        seq![s[k]]
    }
}

/// The first `n` characters of `s`, each replaced by its piece.
pub open spec fn strip_prefix(s: Seq<char>, n: int) -> Seq<char>
    decreases n,
{
    if n <= 0 {
        seq![]
    } else {
        strip_prefix(s, n - 1) + piece(s, n - 1)
    }
}

/// `s` with each comment replaced by spaces, byte for byte.
pub open spec fn strip_comments(s: Seq<char>) -> Seq<char> {
    strip_prefix(s, s.len() as int)
}

/// The byte that stripping puts at the `j`-th byte of the character at
/// index `k`.
pub open spec fn stripped_byte(s: Seq<char>, k: int, j: int) -> u8 {
    if in_comment(s, k) {
        32u8
    } else {
        encode_utf8(s)[byte_pos(s, k) + j]
    }
}

/// The stripped text's encoding has as many bytes as the original's; each
/// byte of a comment character is a space, and every other byte is the
/// original one at the same offset.
pub open spec fn keeps_bytes(s: Seq<char>, r: Seq<char>) -> bool {
    &&& encode_utf8(r).len() == encode_utf8(s).len()
    &&& forall|k: int, j: int|
        0 <= k < s.len() && 0 <= j < width(s[k]) ==> #[trigger] encode_utf8(r)[byte_pos(s, k) + j]
            == stripped_byte(s, k, j)
}

proof fn lemma_width_positive(c: char)
    ensures
        1 <= width(c) <= 4,
{
    char_is_scalar(c);
}

proof fn lemma_strip_prefix_bytes(s: Seq<char>, n: int)
    requires
        0 <= n <= s.len(),
    ensures
        encode_utf8(strip_prefix(s, n)).len() == byte_pos(s, n),
        forall|k: int, j: int|
            0 <= k < n && 0 <= j < width(s[k]) ==> #[trigger] encode_utf8(strip_prefix(s, n))[byte_pos(s, k) + j]
                == stripped_byte(s, k, j),
    decreases n,
{
    if n == 0 {
        assert(s.take(0) =~= Seq::<char>::empty());
        assert(encode_utf8(strip_prefix(s, 0)) =~= Seq::<u8>::empty());
    } else {
        let m = n - 1;
        lemma_strip_prefix_bytes(s, m);
        let pre = strip_prefix(s, m);
        let p = piece(s, m);
        lemma_encode_concat(pre, p);
        lemma_byte_pos_step(s, m);
        lemma_width_positive(s[m]);
        if in_comment(s, m) {
            assert(is_ascii_chars(p));
            is_ascii_chars_encode_utf8(p);
        } else {
            lemma_encode_one(s[m]);
        }
        let e = encode_utf8(strip_prefix(s, n));
        assert(e == encode_utf8(pre) + encode_utf8(p));
        assert forall|k: int, j: int| 0 <= k < n && 0 <= j < width(s[k]) implies #[trigger] e[byte_pos(s, k) + j]
            == stripped_byte(s, k, j) by {
            lemma_byte_of_char(s, k, j);
            if k < m {
                lemma_byte_pos_mono(s, k + 1, m);
            } else {
                assert(e[byte_pos(s, k) + j] == encode_utf8(p)[j]);
            }
        }
    }
}

/// Removes comments, each byte of one becoming a space, so that the text
/// keeps its byte length, its lines and the byte offset of every character.
pub fn rm_comments(s: &str) -> (r: String)
    ensures
        r@ == strip_comments(s@),
        keeps_bytes(s@, r@),
{
    let chars = chars_of(s);
    let c = chars.as_slice();
    let mut out: Vec<char> = Vec::new();
    let mut open = false;
    let mut k: usize = 0;
    while k < c.len()
        invariant
            k <= c@.len(),
            c@ == s@,
            open == open_comment(c@, k as int),
            out@ == strip_prefix(c@, k as int),
        decreases c@.len() - k,
    {
        let marker = k + 1 < c.len() && c[k] == '|' && c[k + 1] == '|';
        let line_break = c[k] == '\n' || (c[k] == '\r' && k + 1 < c.len() && c[k + 1] == '\n');
        if !line_break && (open || marker) {
            let w = utf8_width(c[k]);
            let ghost before = out@;
            let mut j: usize = 0;
            while j < w
                invariant
                    j <= w,
                    w == width(c@[k as int]),
                    out@ == before + Seq::new(j as nat, |i: int| ' '),
                decreases w - j,
            {
                out.push(' ');
                j += 1;
                assert(out@ =~= before + Seq::new(j as nat, |i: int| ' '));
            }
        } else {
            out.push(c[k]);
        }
        open = c[k] != '\n' && (open || marker);
        assert(out@ =~= strip_prefix(c@, k + 1));
        k += 1;
    }
    proof {
        lemma_strip_keeps_bytes(s@);
    }
    string_from_chars(out.as_slice())
}

/// Stripping comments keeps the text's length in bytes and the byte offset
/// of every character: each byte of a comment becomes a space, and every
/// other byte stays as it was.
pub proof fn lemma_strip_keeps_bytes(s: Seq<char>)
    ensures
        keeps_bytes(s, strip_comments(s)),
{
    lemma_strip_prefix_bytes(s, s.len() as int);
    lemma_byte_pos_mono(s, 0, s.len() as int);
}

proof fn lemma_no_open_comment(t: Seq<char>, k: int)
    requires
        forall|p: int| !marker_at(t, p),
    ensures
        !open_comment(t, k),
    decreases k,
{
    if k > 0 {
        lemma_no_open_comment(t, k - 1);
    }
}

/// A stripped prefix holds no marker, and ends in `|` only where the last
/// character read was a `|` outside any comment.
proof fn lemma_strip_prefix_no_marker(s: Seq<char>, n: int)
    requires
        0 <= n <= s.len(),
    ensures
        forall|p: int| 0 <= p && p + 1 < strip_prefix(s, n).len() ==> !(#[trigger] strip_prefix(s, n)[p] == '|'
            && strip_prefix(s, n)[p + 1] == '|'),
        strip_prefix(s, n).len() > 0 && strip_prefix(s, n).last() == '|' ==> n > 0 && s[n - 1] == '|'
            && !in_comment(s, n - 1),
    decreases n,
{
    if n > 0 {
        let m = n - 1;
        lemma_strip_prefix_no_marker(s, m);
        lemma_width_positive(s[m]);
        let pre = strip_prefix(s, m);
        let p = piece(s, m);
        let t = strip_prefix(s, n);
        assert(t == pre + p);
        assert forall|q: int| 0 <= q && q + 1 < t.len() implies !(#[trigger] t[q] == '|' && t[q + 1] == '|') by {
            if q + 1 < pre.len() {
                assert(t[q] == pre[q] && t[q + 1] == pre[q + 1]);
            } else if q + 1 == pre.len() {
                assert(t[q] == pre.last());
                assert(t[q + 1] == p[0]);
                if t[q] == '|' && t[q + 1] == '|' {
                    assert(!in_comment(s, m));
                    assert(marker_at(s, m - 1));
                }
            } else {
                assert(t[q] == p[q - pre.len()]);
            }
        }
    }
}

proof fn lemma_strip_prefix_plain(t: Seq<char>, n: int)
    requires
        0 <= n <= t.len(),
        forall|k: int| 0 <= k < t.len() ==> !in_comment(t, k),
    ensures
        strip_prefix(t, n) == t.take(n),
    decreases n,
{
    if n > 0 {
        lemma_strip_prefix_plain(t, n - 1);
        assert(t.take(n) =~= t.take(n - 1) + seq![t[n - 1]]);
    } else {
        assert(t.take(0) =~= Seq::<char>::empty());
    }
}

/// Stripping comments twice gives what stripping once gives: stripped text
/// holds no comment marker.
pub proof fn lemma_strip_idempotent(s: Seq<char>)
    ensures
        strip_comments(strip_comments(s)) == strip_comments(s),
{
    let t = strip_comments(s);
    lemma_strip_prefix_no_marker(s, s.len() as int);
    assert forall|p: int| !marker_at(t, p) by {
        if marker_at(t, p) {
            assert(t[p] == '|' && t[p + 1] == '|');
        }
    }
    assert forall|k: int| 0 <= k < t.len() implies !in_comment(t, k) by {
        lemma_no_open_comment(t, k);
    }
    lemma_strip_prefix_plain(t, t.len() as int);
    assert(t.take(t.len() as int) =~= t);
}

} // verus!
