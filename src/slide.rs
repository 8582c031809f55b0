//! The slide grammar. A track reads as piecewise where it can (a first
//! segment, its timing, then segments that each carry a length) and as
//! amortized otherwise (segments, then one timing for the whole path). A
//! piecewise reading with nothing after its first segment's timing is a
//! single-segment amortized track.
use vstd::prelude::*;

use crate::item::{Diagnostic, Item, ItemView};
use crate::lex::{agrees_view, parse_key, sp_key, sp_sym, sym};
use crate::note::{
    segment_view, Key, Len, LenView, Shape, Slide, SlideTrack, TrackView, };
use crate::notes::{
    parse_hop, parse_len, parse_styles, parse_wait, sp_hop, sp_len, sp_styles, sp_wait,
};
use crate::style::{or_all, SlideStyle, StarStyle, StyleKind, SLIDE_MASK, STAR_MASK};

verus! {

/// Segments that each carry a bracketed length, as many as follow.
pub open spec fn sp_segments(s: Seq<char>, i: int) -> (Seq<(Shape, Key, LenView)>, int)
    decreases s.len() - i,
{
    match sp_hop(s, i) {
        Some((h, a)) => match sp_len(s, a) {
            Some((len, b)) => if i < b <= s.len() {
                let rest = sp_segments(s, b);
                (seq![(h.0, h.1, len)] + rest.0, rest.1)
            } else {
                (seq![], i)
            },
            None => (seq![], i),
        },
        None => (seq![], i),
    }
}

pub open spec fn segment_views(v: Seq<(Shape, Key, Len)>) -> Seq<(Shape, Key, LenView)> {
    v.map_values(|t: (Shape, Key, Len)| segment_view(t))
}

proof fn lemma_segment_views_push(v: Seq<(Shape, Key, Len)>, x: (Shape, Key, Len))
    ensures
        segment_views(v.push(x)) == segment_views(v) + seq![segment_view(x)],
{
    assert(segment_views(v.push(x)) =~= segment_views(v) + seq![segment_view(x)]);
}

proof fn lemma_segment_views_add(v: Seq<(Shape, Key, Len)>, w: Seq<(Shape, Key, Len)>)
    ensures
        segment_views(v + w) == segment_views(v) + segment_views(w),
{
    assert(segment_views(v + w) =~= segment_views(v) + segment_views(w));
}

fn parse_segments(s: &[char], i: usize, acc: &mut Vec<(Shape, Key, Len)>) -> (r: usize)
    requires
        i <= s@.len(),
    ensures
        segment_views(final(acc)@) == segment_views(old(acc)@) + sp_segments(s@, i as int).0,
        r as int == sp_segments(s@, i as int).1,
        i <= r <= s@.len(),
    decreases s@.len() - i,
{
    match parse_hop(s, i) {
        Some((h, a)) => match parse_len(s, a) {
            Some((len, b)) => {
                proof {
                    lemma_segment_views_push(acc@, (h.0, h.1, len));
                }
                acc.push((h.0, h.1, len));
                let r = parse_segments(s, b, acc);
                assert(segment_views(final(acc)@) =~= segment_views(old(acc)@) + sp_segments(
                    s@,
                    i as int,
                ).0);
                r
            },
            None => {
                assert(segment_views(acc@) =~= segment_views(old(acc)@) + seq![]);
                i
            },
        },
        None => {
            assert(segment_views(acc@) =~= segment_views(old(acc)@) + seq![]);
            i
        },
    }
}

/// The optional last segment of a piecewise track, which may carry style
/// modifiers before its length: the segment, its length, its style run and
/// where it ends.
pub open spec fn sp_styled_segment(s: Seq<char>, i: int) -> Option<
    ((Shape, Key), LenView, (Seq<u8>, int, Seq<Diagnostic>), int),
> {
    match sp_hop(s, i) {
        Some((h, a)) => {
            let st = sp_styles(s, a, StyleKind::Slide);
            match sp_len(s, st.1) {
                Some((len, b)) => Some((h, len, st, b)),
                None => None,
            }
        },
        None => None,
    }
}

/// A track read as piecewise: a segment, its timing, length-carrying
/// segments, an optional styled last segment and a style run. With nothing
/// after the timing it is an amortized track of one segment.
pub open spec fn sp_piecewise(s: Seq<char>, i: int) -> Option<(TrackView, int, Seq<Diagnostic>)> {
    match sp_hop(s, i) {
        Some((first, a)) => match sp_wait(s, a) {
            Some(((wait, len), b)) => {
                let (middle, c) = sp_segments(s, b);
                let last = sp_styled_segment(s, c);
                let pos = match last {
                    Some((_, _, _, e)) => e,
                    None => c,
                };
                let tail = sp_styles(s, pos, StyleKind::Slide);
                let bits = or_all(tail.0) & SLIDE_MASK;
                if middle.len() == 0 && last is None {
                    Some(
                        (
                            TrackView::Amortized {
                                path: seq![first],
                                wait,
                                style: SlideStyle { bits },
                                len,
                            },
                            tail.1,
                            tail.2,
                        ),
                    )
                } else {
                    let (end_path, last_bits, last_diags) = match last {
                        Some((h, l, st, _)) => (
                            seq![(h.0, h.1, l)],
                            or_all(st.0) & SLIDE_MASK,
                            st.2,
                        ),
                        None => (seq![], 0u8, seq![]),
                    };
                    Some(
                        (
                            TrackView::Piecewise {
                                path: seq![(first.0, first.1, len)] + middle + end_path,
                                wait,
                                style: SlideStyle { bits: bits | last_bits },
                            },
                            tail.1,
                            last_diags + tail.2,
                        ),
                    )
                }
            },
            None => None,
        },
        None => None,
    }
}

fn parse_piecewise(s: &[char], i: usize, d: &mut Vec<Diagnostic>) -> (r: Option<(SlideTrack, usize)>)
    requires
        i <= s@.len(),
    ensures
        agrees_view(r, sp_piecewise(s@, i as int), old(d)@, final(d)@),
        r matches Some((_, j)) ==> i < j <= s@.len(),
{
    let n0 = d.len();
    let (first, a) = match parse_hop(s, i) {
        Some(x) => x,
        None => return None,
    };
    let ((wait, len), b) = match parse_wait(s, a) {
        Some(x) => x,
        None => return None,
    };
    let mut middle: Vec<(Shape, Key, Len)> = Vec::new();
    let c = parse_segments(s, b, &mut middle);
    assert(segment_views(middle@) =~= sp_segments(s@, b as int).0);
    let mut pos = c;
    let mut last: Option<((Shape, Key), Len)> = None;
    let mut last_style = SlideStyle::empty();
    if let Some((h, e)) = parse_hop(s, c) {
        let (bits, e2) = parse_styles(s, e, StyleKind::Slide, d);
        match parse_len(s, e2) {
            Some((l, f)) => {
                last = Some((h, l));
                pos = f;
                last_style = SlideStyle::from_bits_truncate(bits);
            },
            None => {
                d.truncate(n0);
            },
        }
    }
    let ghost d_mid = d@;
    assert(d_mid =~= old(d)@ + match sp_styled_segment(s@, c as int) {
        Some((_, _, st, _)) => st.2,
        None => Seq::<Diagnostic>::empty(),
    });
    let (tb, end) = parse_styles(s, pos, StyleKind::Slide, d);
    let style = SlideStyle::from_bits_truncate(tb);
    if middle.len() == 0 && last.is_none() {
        let mut path: Vec<(Shape, Key)> = Vec::new();
        path.push(first);
        assert(path@ =~= seq![first]);
        return Some((SlideTrack::Amortized { path, wait, style, len }, end));
    }
    let mut path: Vec<(Shape, Key, Len)> = Vec::new();
    path.push((first.0, first.1, len));
    let ghost p1 = path@;
    let ghost m1 = middle@;
    path.append(&mut middle);
    proof {
        lemma_segment_views_add(p1, m1);
        assert(segment_views(p1) =~= seq![segment_view((first.0, first.1, len))]);
    }
    let style = match last {
        Some((h, l)) => {
            let ghost p2 = path@;
            path.push((h.0, h.1, l));
            proof {
                lemma_segment_views_push(p2, (h.0, h.1, l));
            }
            style.union(last_style)
        },
        None => {
            assert(seq![(first.0, first.1, len@)] + sp_segments(s@, b as int).0 + seq![] =~= seq![(first.0, first.1, len@)] + sp_segments(s@, b as int).0);
            style.union(SlideStyle::empty())
        },
    };
    assert(d@ =~= old(d)@ + (match sp_styled_segment(s@, c as int) {
        Some((_, _, st, _)) => st.2,
        None => Seq::<Diagnostic>::empty(),
    } + sp_styles(s@, pos as int, StyleKind::Slide).2));
    Some((SlideTrack::Piecewise { path, wait, style }, end))
}


/// Segments without lengths, as many as follow.
pub open spec fn sp_hops(s: Seq<char>, i: int) -> (Seq<(Shape, Key)>, int)
    decreases s.len() - i,
{
    match sp_hop(s, i) {
        Some((h, a)) => if i < a <= s.len() {
            let rest = sp_hops(s, a);
            (seq![h] + rest.0, rest.1)
        } else {
            (seq![], i)
        },
        None => (seq![], i),
    }
}

fn parse_hops(s: &[char], i: usize, acc: &mut Vec<(Shape, Key)>) -> (r: usize)
    requires
        i <= s@.len(),
    ensures
        final(acc)@ == old(acc)@ + sp_hops(s@, i as int).0,
        r as int == sp_hops(s@, i as int).1,
        i <= r <= s@.len(),
    decreases s@.len() - i,
{
    match parse_hop(s, i) {
        Some((h, a)) => {
            acc.push(h);
            let r = parse_hops(s, a, acc);
            assert(final(acc)@ =~= old(acc)@ + sp_hops(s@, i as int).0);
            r
        },
        None => {
            assert(acc@ =~= old(acc)@ + seq![]);
            i
        },
    }
}

/// A track read as amortized: one or more segments, a style run, the
/// timing, and another style run.
pub open spec fn sp_amortized(s: Seq<char>, i: int) -> Option<(TrackView, int, Seq<Diagnostic>)> {
    match sp_hop(s, i) {
        Some((h, a)) => {
            let (more, b) = sp_hops(s, a);
            let s1 = sp_styles(s, b, StyleKind::Slide);
            match sp_wait(s, s1.1) {
                Some(((wait, len), c)) => {
                    let s2 = sp_styles(s, c, StyleKind::Slide);
                    let bits = (or_all(s1.0) & SLIDE_MASK) | (or_all(s2.0) & SLIDE_MASK);
                    Some(
                        (
                            TrackView::Amortized {
                                path: seq![h] + more,
                                wait,
                                style: SlideStyle { bits },
                                len,
                            },
                            s2.1,
                            s1.2 + s2.2,
                        ),
                    )
                },
                None => None,
            }
        },
        None => None,
    }
}

fn parse_amortized(s: &[char], i: usize, d: &mut Vec<Diagnostic>) -> (r: Option<(SlideTrack, usize)>)
    requires
        i <= s@.len(),
    ensures
        agrees_view(r, sp_amortized(s@, i as int), old(d)@, final(d)@),
        r matches Some((_, j)) ==> i < j <= s@.len(),
{
    let n0 = d.len();
    let (h, a) = match parse_hop(s, i) {
        Some(x) => x,
        None => return None,
    };
    let mut path: Vec<(Shape, Key)> = Vec::new();
    path.push(h);
    let b = parse_hops(s, a, &mut path);
    assert(path@ =~= seq![h] + sp_hops(s@, a as int).0);
    let (b1, e1) = parse_styles(s, b, StyleKind::Slide, d);
    match parse_wait(s, e1) {
        Some(((wait, len), c)) => {
            let (b2, e2) = parse_styles(s, c, StyleKind::Slide, d);
            let style = SlideStyle::from_bits_truncate(b1).union(SlideStyle::from_bits_truncate(b2));
            assert(d@ =~= old(d)@ + (sp_styles(s@, b as int, StyleKind::Slide).2 + sp_styles(s@, c as int, StyleKind::Slide).2));
            Some((SlideTrack::Amortized { path, wait, style, len }, e2))
        },
        None => {
            d.truncate(n0);
            assert(d@ =~= old(d)@);
            None
        },
    }
}

/// One slide track: piecewise where that reading succeeds, amortized
/// otherwise.
pub open spec fn sp_track(s: Seq<char>, i: int) -> Option<(TrackView, int, Seq<Diagnostic>)> {
    match sp_piecewise(s, i) {
        Some(x) => Some(x),
        None => sp_amortized(s, i),
    }
}

pub fn parse_track(s: &[char], i: usize, d: &mut Vec<Diagnostic>) -> (r: Option<(SlideTrack, usize)>)
    requires
        i <= s@.len(),
    ensures
        agrees_view(r, sp_track(s@, i as int), old(d)@, final(d)@),
        r matches Some((_, j)) ==> i < j <= s@.len(),
{
    match parse_piecewise(s, i, d) {
        Some(x) => Some(x),
        None => parse_amortized(s, i, d),
    }
}

/// Further tracks, each after a `*`, as many as follow.
pub open spec fn sp_more_tracks(s: Seq<char>, i: int) -> (Seq<TrackView>, int, Seq<Diagnostic>)
    decreases s.len() - i,
{
    match sp_sym(s, i, '*') {
        Some(a) => match sp_track(s, a) {
            Some((t, b, ds)) => if i < b <= s.len() {
                let rest = sp_more_tracks(s, b);
                (seq![t] + rest.0, rest.1, ds + rest.2)
            } else {
                (seq![], i, seq![])
            },
            None => (seq![], i, seq![]),
        },
        None => (seq![], i, seq![]),
    }
}

pub open spec fn track_views(v: Seq<SlideTrack>) -> Seq<TrackView> {
    v.map_values(|t: SlideTrack| t@)
}

fn parse_more_tracks(
    s: &[char],
    i: usize,
    acc: &mut Vec<SlideTrack>,
    d: &mut Vec<Diagnostic>,
) -> (r: usize)
    requires
        i <= s@.len(),
    ensures
        track_views(final(acc)@) == track_views(old(acc)@) + sp_more_tracks(s@, i as int).0,
        r as int == sp_more_tracks(s@, i as int).1,
        final(d)@ == old(d)@ + sp_more_tracks(s@, i as int).2,
        i <= r <= s@.len(),
    decreases s@.len() - i,
{
    let a = match sym(s, i, '*') {
        Some(a) => a,
        None => {
            assert(track_views(acc@) =~= track_views(old(acc)@) + seq![]);
            assert(d@ =~= old(d)@ + seq![]);
            return i;
        },
    };
    match parse_track(s, a, d) {
        Some((t, b)) => {
            let ghost a0 = acc@;
            acc.push(t);
            assert(track_views(acc@) =~= track_views(a0) + seq![t@]);
            let r = parse_more_tracks(s, b, acc, d);
            assert(track_views(final(acc)@) =~= track_views(old(acc)@) + sp_more_tracks(s@, i as int).0);
            assert(final(d)@ =~= old(d)@ + sp_more_tracks(s@, i as int).2);
            r
        },
        None => {
            assert(track_views(acc@) =~= track_views(old(acc)@) + seq![]);
            assert(d@ =~= old(d)@ + seq![]);
            i
        },
    }
}

/// A slide: the button it starts from, the star's style run, and one or
/// more tracks separated by `*`.
pub open spec fn sp_slide(s: Seq<char>, i: int) -> Option<(ItemView, int, Seq<Diagnostic>)> {
    match sp_key(s, i) {
        Some((key, j)) => {
            let st = sp_styles(s, j, StyleKind::Star);
            match sp_track(s, st.1) {
                Some((t, a, ds)) => {
                    let more = sp_more_tracks(s, a);
                    let star_style = StarStyle { bits: or_all(st.0) & STAR_MASK };
                    Some(
                        (
                            ItemView::Slide { key, star_style, tracks: seq![t] + more.0 },
                            more.1,
                            st.2 + ds + more.2,
                        ),
                    )
                },
                None => None,
            }
        },
        None => None,
    }
}

pub fn parse_slide(s: &[char], i: usize, d: &mut Vec<Diagnostic>) -> (r: Option<(Item, usize)>)
    requires
        i <= s@.len(),
    ensures
        agrees_view(r, sp_slide(s@, i as int), old(d)@, final(d)@),
        r matches Some((_, j)) ==> i < j <= s@.len(),
{
    let n0 = d.len();
    let (key, j) = match parse_key(s, i) {
        Some(x) => x,
        None => return None,
    };
    let (sb, e) = parse_styles(s, j, StyleKind::Star, d);
    match parse_track(s, e, d) {
        Some((t, a)) => {
            let mut tracks: Vec<SlideTrack> = Vec::new();
            tracks.push(t);
            assert(track_views(tracks@) =~= seq![t@]);
            let end = parse_more_tracks(s, a, &mut tracks, d);
            let star_style = StarStyle::from_bits_truncate(sb);
            let slide = Slide { key, star_style, tracks };
            assert(slide.tracks@.map_values(|t: SlideTrack| t@) == track_views(slide.tracks@));
            assert(d@ =~= old(d)@ + (sp_styles(s@, j as int, StyleKind::Star).2 + (sp_track(s@, e as int)->0).2 + sp_more_tracks(s@, a as int).2));
            Some((Item::Slide(slide), end))
        },
        None => {
            d.truncate(n0);
            assert(d@ =~= old(d)@);
            None
        },
    }
}

} // verus!
