//! Every style set that the parser produces stays within the flags its
//! note kind allows.
use vstd::prelude::*;

use crate::chart::{
    sp_chart, sp_cycles, sp_main, sp_more_notes, sp_note_item, sp_note_items, sp_prefix,
    sp_tap_group, sp_tick_item, sp_keys, sp_slash, plain_tap,
};
use crate::item::ItemView;
use crate::parse::sp_parse;
use crate::lex::{sp_key, sp_sym};
use crate::note::TrackView;
use crate::notes::{
    sp_hold, sp_hop, sp_len_or_zero, sp_sensor, sp_styles, sp_tap, sp_touch_hold, sp_touch_tap,
    sp_wait,
};
use crate::slide::{
    sp_amortized, sp_hops, sp_more_tracks, sp_piecewise, sp_segments, sp_slide, sp_styled_segment,
    sp_track,
};
use crate::style::{or_all, StyleKind, HOLD_MASK, SLIDE_MASK, STAR_MASK, TAP_MASK, TOUCH_MASK};

verus! {

pub open spec fn track_wf(t: TrackView) -> bool {
    match t {
        TrackView::Amortized { style, .. } => style.wf(),
        TrackView::Piecewise { style, .. } => style.wf(),
    }
}

/// The style sets of an item are within their kinds' masks.
pub open spec fn item_wf(x: ItemView) -> bool {
    match x {
        ItemView::Tap(t) => t.style.wf(),
        ItemView::Hold { style, .. } => style.wf(),
        ItemView::TouchTap(t) => t.style.wf(),
        ItemView::TouchHold { style, .. } => style.wf(),
        ItemView::Slide { star_style, tracks, .. } => star_style.wf() && forall|k: int|
            0 <= k < tracks.len() ==> track_wf(#[trigger] tracks[k]),
        _ => true,
    }
}

pub open spec fn all_wf(xs: Seq<ItemView>) -> bool {
    forall|k: int| 0 <= k < xs.len() ==> item_wf(#[trigger] xs[k])
}

proof fn lemma_masked(x: u8, m: u8)
    ensures
        (x & m) & !m == 0,
{
    assert((x & m) & !m == 0) by (bit_vector);
}

proof fn lemma_masked2(x: u8, y: u8, m: u8)
    ensures
        ((x & m) | (y & m)) & !m == 0,
{
    assert(((x & m) | (y & m)) & !m == 0) by (bit_vector);
}

proof fn lemma_masked3(x: u8, y: u8, z: u8, m: u8)
    ensures
        ((x & m) | (y & m) | (z & m)) & !m == 0,
{
    assert(((x & m) | (y & m) | (z & m)) & !m == 0) by (bit_vector);
}

proof fn lemma_all_wf_add(a: Seq<ItemView>, b: Seq<ItemView>)
    requires
        all_wf(a),
        all_wf(b),
    ensures
        all_wf(a + b),
{
    assert forall|k: int| 0 <= k < (a + b).len() implies item_wf(#[trigger] (a + b)[k]) by {
        if k < a.len() {
            assert((a + b)[k] == a[k]);
        } else {
            assert((a + b)[k] == b[k - a.len()]);
        }
    }
}

proof fn lemma_masked_or0(x: u8, m: u8)
    ensures
        ((x & m) | 0u8) & !m == 0,
{
    assert(((x & m) | 0u8) & !m == 0) by (bit_vector);
}

proof fn lemma_track_wf(s: Seq<char>, i: int)
    ensures
        sp_track(s, i) matches Some((t, _, _)) ==> track_wf(t),
{
    if sp_piecewise(s, i) is Some {
        let (first, a) = sp_hop(s, i)->0;
        let (_, b) = sp_wait(s, a)->0;
        let (middle, c) = sp_segments(s, b);
        let last = sp_styled_segment(s, c);
        let pos = match last {
            Some((_, _, _, e)) => e,
            None => c,
        };
        let x = or_all(sp_styles(s, pos, StyleKind::Slide).0);
        lemma_masked(x, SLIDE_MASK);
        match last {
            Some((_, _, st, _)) => lemma_masked2(x, or_all(st.0), SLIDE_MASK),
            None => lemma_masked_or0(x, SLIDE_MASK),
        }
    } else if sp_amortized(s, i) is Some {
        let (h, a) = sp_hop(s, i)->0;
        let (more, b) = sp_hops(s, a);
        let s1 = sp_styles(s, b, StyleKind::Slide);
        let (_, c) = sp_wait(s, s1.1)->0;
        let s2 = sp_styles(s, c, StyleKind::Slide);
        lemma_masked2(or_all(s1.0), or_all(s2.0), SLIDE_MASK);
    }
}

proof fn lemma_more_tracks_wf(s: Seq<char>, i: int)
    ensures
        forall|k: int| 0 <= k < sp_more_tracks(s, i).0.len() ==> track_wf(#[trigger] sp_more_tracks(s, i).0[k]),
    decreases s.len() - i,
{
    if let Some(a) = sp_sym(s, i, '*') {
        if let Some((t, b, _)) = sp_track(s, a) {
            if i < b <= s.len() {
                lemma_track_wf(s, a);
                lemma_more_tracks_wf(s, b);
                let rest = sp_more_tracks(s, b).0;
                assert forall|k: int| 0 <= k < sp_more_tracks(s, i).0.len() implies track_wf(#[trigger] sp_more_tracks(s, i).0[k]) by {
                    if k > 0 {
                        assert(sp_more_tracks(s, i).0[k] == rest[k - 1]);
                    }
                }
            }
        }
    }
}

/// Single notes: their style sets are masked.
proof fn lemma_single_notes_wf(s: Seq<char>, i: int)
    ensures
        sp_tap(s, i) matches Some((x, _, _)) ==> item_wf(x),
        sp_touch_tap(s, i) matches Some((x, _, _)) ==> item_wf(x),
        sp_hold(s, i) matches Some((x, _, _)) ==> item_wf(x),
        sp_touch_hold(s, i) matches Some((x, _, _)) ==> item_wf(x),
        sp_slide(s, i) matches Some((x, _, _)) ==> item_wf(x),
{
    if let Some((_, j)) = sp_key(s, i) {
        lemma_masked(or_all(sp_styles(s, j, StyleKind::Tap).0), TAP_MASK);
        let s1 = sp_styles(s, j, StyleKind::Hold);
        if let Some(p) = sp_sym(s, s1.1, 'h') {
            let s2 = sp_styles(s, p, StyleKind::Hold);
            let (_, q) = sp_len_or_zero(s, s2.1);
            let s3 = sp_styles(s, q, StyleKind::Hold);
            lemma_masked3(or_all(s1.0), or_all(s2.0), or_all(s3.0), HOLD_MASK);
        }
        let st = sp_styles(s, j, StyleKind::Star);
        lemma_masked(or_all(st.0), STAR_MASK);
        if let Some((_, a, _)) = sp_track(s, st.1) {
            lemma_track_wf(s, st.1);
            lemma_more_tracks_wf(s, a);
            let more = sp_more_tracks(s, a).0;
            
            if let Some((ItemView::Slide { tracks, .. }, _, _)) = sp_slide(s, i) {
                assert forall|k: int| 0 <= k < tracks.len() implies track_wf(#[trigger] tracks[k]) by {
                    if k > 0 {
                        assert(tracks[k] == more[k - 1]);
                    }
                }
            }
        }
    }
    if let Some((_, j)) = sp_sensor(s, i) {
        lemma_masked(or_all(sp_styles(s, j, StyleKind::Touch).0), TOUCH_MASK);
        let s1 = sp_styles(s, j, StyleKind::Touch);
        if let Some(p) = sp_sym(s, s1.1, 'h') {
            let s2 = sp_styles(s, p, StyleKind::Touch);
            let (_, q) = sp_len_or_zero(s, s2.1);
            let s3 = sp_styles(s, q, StyleKind::Touch);
            lemma_masked3(or_all(s1.0), or_all(s2.0), or_all(s3.0), TOUCH_MASK);
        }
    }
}


proof fn lemma_one_wf(x: ItemView)
    requires
        item_wf(x),
    ensures
        all_wf(seq![x]),
{
}

proof fn lemma_note_item_wf(s: Seq<char>, i: int)
    ensures
        sp_note_item(s, i) matches Some((xs, _, _)) ==> all_wf(xs),
{
    lemma_single_notes_wf(s, i);
    if let Some((xs, _, _)) = sp_tap_group(s, i) {
        assert(0u8 & !TAP_MASK == 0) by (bit_vector);
        assert forall|k: int| 0 <= k < xs.len() implies item_wf(#[trigger] xs[k]) by {
            assert(xs[k] == plain_tap(sp_keys(s, i).0[k]));
        }
    }
    if let Some((x, _, _)) = sp_hold(s, i) {
        lemma_one_wf(x);
    }
    if let Some((x, _, _)) = sp_touch_hold(s, i) {
        lemma_one_wf(x);
    }
    if let Some((x, _, _)) = sp_slide(s, i) {
        lemma_one_wf(x);
    }
    if let Some((x, _, _)) = sp_tap(s, i) {
        lemma_one_wf(x);
    }
    if let Some((x, _, _)) = sp_touch_tap(s, i) {
        lemma_one_wf(x);
    }
}

proof fn lemma_more_notes_wf(s: Seq<char>, i: int)
    ensures
        all_wf(sp_more_notes(s, i).0),
    decreases s.len() - i,
{
    if let Some((err, a)) = sp_slash(s, i) {
        if let Some((xs, b, _)) = sp_note_item(s, a) {
            if i < b <= s.len() {
                lemma_note_item_wf(s, a);
                lemma_more_notes_wf(s, b);
                let pre: Seq<ItemView> = match err {
                    Some(span) => seq![ItemView::Error(span)],
                    None => seq![],
                };
                assert(all_wf(pre));
                lemma_all_wf_add(pre, xs);
                lemma_all_wf_add(pre + xs, sp_more_notes(s, b).0);
            }
        }
    }
}

proof fn lemma_main_wf(s: Seq<char>, i: int)
    ensures
        all_wf(sp_main(s, i).0),
{
    let (pre, a) = match sp_prefix(s, i) {
        Some(x) => x,
        None => (seq![], i),
    };
    assert(all_wf(pre));
    if let Some((xs, _, _)) = sp_note_item(s, a) {
        lemma_note_item_wf(s, a);
        lemma_more_notes_wf(s, (sp_note_item(s, a)->0).1);
        lemma_all_wf_add(xs, sp_more_notes(s, (sp_note_item(s, a)->0).1).0);
    }
    if let Some((xs, _, _)) = sp_note_items(s, a) {
        lemma_all_wf_add(pre, xs);
    }
}

proof fn lemma_cycles_wf(s: Seq<char>, i: int)
    ensures
        all_wf(sp_cycles(s, i).0),
    decreases s.len() - i,
{
    if let Some((ts, a, _)) = sp_tick_item(s, i) {
        let m = sp_main(s, a);
        if i < m.1 <= s.len() {
            assert(all_wf(ts));
            lemma_main_wf(s, a);
            lemma_cycles_wf(s, m.1);
            lemma_all_wf_add(ts, m.0);
            lemma_all_wf_add(ts + m.0, sp_cycles(s, m.1).0);
        }
    }
}

/// Every style set in a parsed chart holds only flags that its note kind
/// allows: a tap's within `TAP_MASK`, a hold's within `HOLD_MASK`, and so on
/// for touch notes, stars and slide tracks.
pub proof fn lemma_chart_styles_within_masks(s: Seq<char>)
    ensures
        all_wf(sp_chart(s).0),
        all_wf(sp_parse(s).0),
{
    lemma_main_wf(s, 0);
    lemma_cycles_wf(s, sp_main(s, 0).1);
    lemma_all_wf_add(sp_main(s, 0).0, sp_cycles(s, sp_main(s, 0).1).0);
    let xs = sp_chart(s).0;
    assert forall|k: int| 0 <= k < sp_parse(s).0.len() implies item_wf(#[trigger] sp_parse(s).0[k]) by {
        assert(item_wf(xs[k]));
    }
}

} // verus!
