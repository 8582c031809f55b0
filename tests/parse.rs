use simai::{
    rm_comments, simai, to_style, Decimal, Diagnostic, Frac, Hold, HoldStyle, Item, Key, Len,
    Reason, Sensor, SensorGroup, Shape, Slide, SlideStyle, SlideTrack, Span, StarStyle, StyleKind,
    Tap, TapStyle, TouchHold, TouchStyle, TouchTap, Wait,
};
use simai::{Div, PseudoTick, Tick};

fn dec(s: &str) -> Decimal {
    Decimal { text: s.to_string() }
}

fn rel(numer: u32, denom: u32) -> Len {
    Len::Rel(Frac::Ratio { numer, denom })
}

fn tap(key: Key) -> Item {
    Item::Tap(Tap { key, style: TapStyle::empty() })
}

fn items(src: &str) -> Vec<Item> {
    let r = simai(src);
    assert!(r.diagnostics.is_empty(), "unexpected diagnostics: {:?}", r.diagnostics);
    r.items
}

#[test]
fn comments_keep_length_and_offsets() {
    let input = "A||B\r\nC||D";
    let out = rm_comments(input);
    assert_eq!(out.len(), input.len());
    assert_eq!(out, "A   \r\nC   ");
    for (i, (a, b)) in input.chars().zip(out.chars()).enumerate() {
        if i == 0 || i == 4 || i == 5 || i == 6 {
            assert_eq!(a, b);
        }
    }
}

#[test]
fn comment_stripping_is_idempotent() {
    for input in ["A||B\r\nC||D", "(120){4}1,2||x|y\n3,|| ||\n,E", "a|b|c", "||", "|"] {
        let once = rm_comments(input);
        assert_eq!(rm_comments(&once), once);
    }
}

#[test]
fn comment_runs_to_end_of_line_only() {
    assert_eq!(rm_comments("1,|x||y\n2,"), "1,|x   \n2,");
    assert_eq!(rm_comments("||é\n"), "    \n");
    assert_eq!(rm_comments(""), "");
}

#[test]
fn bpm_then_div() {
    let out = items("(120){4}");
    assert_eq!(out.len(), 2);
    match &out[0] {
        Item::Bpm(b) => {
            assert_eq!(b.0, dec("120"));
            assert_eq!(b.0.text.parse::<f64>().unwrap(), 120.0);
        },
        other => panic!("expected a tempo, got {:?}", other),
    }
    assert_eq!(out[1], Item::Div(Div(4)));
}

#[test]
fn single_tap_and_tap_group() {
    assert_eq!(items("1"), vec![tap(Key::K1)]);
    assert_eq!(items("12"), vec![tap(Key::K1), tap(Key::K2)]);
    assert_eq!(items("1 2 3"), vec![tap(Key::K1), tap(Key::K2), tap(Key::K3)]);
}

#[test]
fn hold_with_relative_length() {
    assert_eq!(
        items("1h[4:3]"),
        vec![Item::Hold(Hold { key: Key::K1, len: rel(3, 4), style: HoldStyle::empty() })]
    );
}

#[test]
fn hold_lengths_are_reduced() {
    assert_eq!(
        items("1h[8:2]"),
        vec![Item::Hold(Hold { key: Key::K1, len: rel(1, 4), style: HoldStyle::empty() })]
    );
    assert_eq!(
        items("1h[4:0]"),
        vec![Item::Hold(Hold { key: Key::K1, len: rel(0, 1), style: HoldStyle::empty() })]
    );
    assert_eq!(
        items("1h[0:3]"),
        vec![Item::Hold(Hold { key: Key::K1, len: Len::Rel(Frac::Infinity), style: HoldStyle::empty() })]
    );
    assert_eq!(
        items("1h[0:0]"),
        vec![Item::Hold(Hold { key: Key::K1, len: Len::Rel(Frac::NaN), style: HoldStyle::empty() })]
    );
}

#[test]
fn hold_length_forms() {
    assert_eq!(
        items("1h"),
        vec![Item::Hold(Hold { key: Key::K1, len: Len::Zero, style: HoldStyle::empty() })]
    );
    assert_eq!(
        items("2h[#1.5]"),
        vec![Item::Hold(Hold { key: Key::K2, len: Len::Abs(dec("1.5")), style: HoldStyle::empty() })]
    );
    assert_eq!(
        items("3h[150#4:1]"),
        vec![Item::Hold(Hold {
            key: Key::K3,
            len: Len::Bpm { bpm: dec("150"), frac: Frac::Ratio { numer: 1, denom: 4 } },
            style: HoldStyle::empty(),
        })]
    );
    let b = HoldStyle::from_bits_truncate(1 | 2);
    assert_eq!(items("4bh x[2:1]"), vec![Item::Hold(Hold { key: Key::K4, len: rel(1, 2), style: b })]);
}

#[test]
fn single_segment_slide_is_amortized() {
    let expected = Item::Slide(Slide {
        key: Key::K1,
        star_style: StarStyle::empty(),
        tracks: vec![SlideTrack::Amortized {
            path: vec![(Shape::Line, Key::K2)],
            wait: Wait::Rel,
            style: SlideStyle::empty(),
            len: rel(3, 4),
        }],
    });
    assert_eq!(items("1-2[4:3]"), vec![expected]);
}

#[test]
fn piecewise_slide() {
    let expected = Item::Slide(Slide {
        key: Key::K1,
        star_style: StarStyle::empty(),
        tracks: vec![SlideTrack::Piecewise {
            path: vec![(Shape::Line, Key::K2, rel(3, 4)), (Shape::Line, Key::K3, rel(1, 8))],
            wait: Wait::Rel,
            style: SlideStyle::empty(),
        }],
    });
    assert_eq!(items("1-2[4:3]-3[8:1]"), vec![expected]);
}

#[test]
fn amortized_slide_over_several_segments() {
    let expected = Item::Slide(Slide {
        key: Key::K1,
        star_style: StarStyle::empty(),
        tracks: vec![SlideTrack::Amortized {
            path: vec![(Shape::Line, Key::K2), (Shape::ArcLeft, Key::K3)],
            wait: Wait::Rel,
            style: SlideStyle::from_bits_truncate(1),
            len: rel(1, 4),
        }],
    });
    assert_eq!(items("1-2<3b[4:1]"), vec![expected]);
}

#[test]
fn piecewise_slide_with_styled_last_segment() {
    let expected = Item::Slide(Slide {
        key: Key::K1,
        star_style: StarStyle::empty(),
        tracks: vec![SlideTrack::Piecewise {
            path: vec![(Shape::Line, Key::K2, rel(1, 4)), (Shape::PP, Key::K5, rel(1, 2))],
            wait: Wait::Rel,
            style: SlideStyle::from_bits_truncate(1),
        }],
    });
    assert_eq!(items("1-2[4:1]pp5b[2:1]"), vec![expected]);
}

#[test]
fn slide_with_several_tracks_and_waits() {
    let expected = Item::Slide(Slide {
        key: Key::K8,
        star_style: StarStyle::from_bits_truncate(1),
        tracks: vec![
            SlideTrack::Amortized {
                path: vec![(Shape::Angle(Key::K3), Key::K5)],
                wait: Wait::Bpm(dec("120")),
                style: SlideStyle::empty(),
                len: rel(1, 4),
            },
            SlideTrack::Amortized {
                path: vec![(Shape::Fan, Key::K4)],
                wait: Wait::Abs(dec("1.5")),
                style: SlideStyle::empty(),
                len: Len::Abs(dec("2")),
            },
        ],
    });
    assert_eq!(items("8bV35[120#4:1]*w4[1.5##2]"), vec![expected]);
}

#[test]
fn star_style_outside_its_mask_is_dropped() {
    let out = items("1!-2[4:1]");
    match &out[0] {
        Item::Slide(s) => assert_eq!(s.star_style, StarStyle::empty()),
        other => panic!("expected a slide, got {:?}", other),
    }
}

#[test]
fn invalid_tap_modifier_is_reported() {
    let r = simai("1y");
    assert_eq!(r.items, vec![tap(Key::K1)]);
    assert_eq!(
        r.diagnostics,
        vec![Diagnostic {
            span: Span { start: 1, end: 2 },
            reason: Reason::InvalidStyle { found: 'y', kind: StyleKind::Tap },
        }]
    );
}

#[test]
fn end_marker_alone() {
    assert_eq!(items("E"), vec![Item::End]);
}

#[test]
fn tick_and_pseudo_tick_runs() {
    assert_eq!(items(",,,"), vec![Item::Tick(Tick(3))]);
    assert_eq!(items("`"), vec![Item::PseudoTick(PseudoTick(1))]);
    assert_eq!(items(", , ,\n"), vec![Item::Tick(Tick(3))]);
}

#[test]
fn empty_chart() {
    assert_eq!(items(""), vec![]);
    let r = simai("  \n ");
    assert_eq!(r.items, vec![Item::Error(Span { start: 0, end: 4 })]);
    assert_eq!(r.diagnostics.len(), 1);
}

#[test]
fn a_small_chart() {
    let out = items("(150){8}1,2/3,,E");
    assert_eq!(out.len(), 8);
    assert_eq!(out[1], Item::Div(Div(8)));
    assert_eq!(out[2], tap(Key::K1));
    assert_eq!(out[3], Item::Tick(Tick(1)));
    assert_eq!(out[4], tap(Key::K2));
    assert_eq!(out[5], tap(Key::K3));
    assert_eq!(out[6], Item::Tick(Tick(2)));
    assert_eq!(out[7], Item::End);
}

#[test]
fn div_abs_and_touch_notes() {
    let out = items("{#0.25}A1/C/E2f/C1h[2:1]");
    assert_eq!(out.len(), 5);
    match &out[0] {
        Item::DivAbs(d) => assert_eq!(d.0, dec("0.25")),
        other => panic!("expected a subdivision, got {:?}", other),
    }
    let touch = |group, index, bits| {
        Item::TouchTap(TouchTap {
            sensor: Sensor { group, index },
            style: TouchStyle::from_bits_truncate(bits),
        })
    };
    assert_eq!(out[1], touch(SensorGroup::A, Some(Key::K1), 0));
    assert_eq!(out[2], touch(SensorGroup::C, None, 0));
    assert_eq!(out[3], touch(SensorGroup::E, Some(Key::K2), 16));
    assert_eq!(
        out[4],
        Item::TouchHold(TouchHold {
            sensor: Sensor { group: SensorGroup::C, index: Some(Key::K1) },
            len: rel(1, 2),
            style: TouchStyle::empty(),
        })
    );
}

#[test]
fn bad_region_before_slash_is_recovered() {
    let r = simai("1h[1:1]]/2");
    assert_eq!(
        r.items,
        vec![
            Item::Hold(Hold { key: Key::K1, len: rel(1, 1), style: HoldStyle::empty() }),
            Item::Error(Span { start: 7, end: 8 }),
            tap(Key::K2),
        ]
    );
    assert_eq!(r.diagnostics, vec![Diagnostic { span: Span { start: 7, end: 8 }, reason: Reason::Unexpected }]);
}

#[test]
fn bad_region_before_tick_is_recovered() {
    let r = simai("1,##,2");
    assert_eq!(
        r.items,
        vec![
            tap(Key::K1),
            Item::Tick(Tick(1)),
            Item::Error(Span { start: 2, end: 4 }),
            Item::Tick(Tick(1)),
            tap(Key::K2),
        ]
    );
    assert_eq!(r.diagnostics.len(), 1);
}

#[test]
fn bad_region_at_end_is_recovered() {
    let r = simai("{99999999999}");
    assert_eq!(r.items, vec![Item::Error(Span { start: 0, end: 13 })]);
    assert_eq!(r.diagnostics, vec![Diagnostic { span: Span { start: 0, end: 13 }, reason: Reason::Unexpected }]);
}

#[test]
fn style_characters_map_to_flags() {
    assert_eq!(to_style('b'), 1);
    assert_eq!(to_style('x'), 2);
    assert_eq!(to_style('$'), 4);
    assert_eq!(to_style('@'), 8);
    assert_eq!(to_style('f'), 16);
    assert_eq!(to_style('!'), 32);
    assert_eq!(to_style('?'), 64);
    assert_eq!(TapStyle::from_bits_truncate(0xff).bits(), 7);
}

#[test]
fn len_with_tempo() {
    let l = Len::bpm(dec("90"), 6, 4);
    assert_eq!(l, Len::Bpm { bpm: dec("90"), frac: Frac::Ratio { numer: 2, denom: 3 } });
}

#[test]
fn diagnostic_messages() {
    let r = simai("1y");
    assert_eq!(r.diagnostics[0].message(), "Invalid style modifier 'y' for TapStyle");
    let r = simai("1,##,2");
    assert_eq!(r.diagnostics[0].message(), "Unexpected input");
}

#[test]
fn comment_stripping_keeps_byte_offsets() {
    let input = "1,||été\n2,é||x";
    let out = rm_comments(input);
    assert_eq!(out.len(), input.len());
    assert_eq!(out, "1,       \n2,é   ");
    for (i, (a, b)) in input.bytes().zip(out.bytes()).enumerate() {
        if !(2..9).contains(&i) && !(14..17).contains(&i) {
            assert_eq!(a, b, "byte {}", i);
        } else {
            assert_eq!(b, b' ');
        }
    }
}

#[test]
fn spans_are_byte_offsets() {
    let r = simai("1é");
    assert_eq!(r.items, vec![tap(Key::K1)]);
    assert_eq!(
        r.diagnostics,
        vec![Diagnostic {
            span: Span { start: 1, end: 3 },
            reason: Reason::InvalidStyle { found: 'é', kind: StyleKind::Tap },
        }]
    );
    let r = simai("é,1");
    assert_eq!(r.items, vec![Item::Error(Span { start: 0, end: 2 }), Item::Tick(Tick(1)), tap(Key::K1)]);
    assert_eq!(r.diagnostics, vec![Diagnostic { span: Span { start: 0, end: 2 }, reason: Reason::Unexpected }]);
}
