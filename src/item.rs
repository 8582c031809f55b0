use vstd::prelude::*;

use crate::misc::{Bpm, Div, DivAbs, PseudoTick, Tick};
use crate::note::{Hold, Key, LenView, Sensor, Slide, Tap, TouchHold, TouchTap, TrackView};
use crate::lex::string_from_chars;
use crate::style::{HoldStyle, StarStyle, StyleKind, TouchStyle};

verus! {

/// A range of byte offsets into the parsed text, `start` inclusive and `end`
/// exclusive. The grammar's specifications count characters; `simai` turns
/// every span into bytes.
#[derive(Debug, Clone, Copy, PartialEq, Eq, Structural)]
pub struct Span {
    pub start: usize,
    pub end: usize,
}

/// One event of a chart, in source order.
#[derive(Debug, Clone, PartialEq)]
pub enum Item {
    Bpm(Bpm),
    Div(Div),
    DivAbs(DivAbs),
    Tap(Tap),
    Hold(Hold),
    TouchTap(TouchTap),
    TouchHold(TouchHold),
    Slide(Slide),
    Tick(Tick),
    PseudoTick(PseudoTick),
    /// Comment text; the parser does not produce it, as comments are
    /// stripped before parsing.
    Comment(String),
    End,
    /// A region that could not be read, skipped by recovery.
    Error(Span),
}

pub enum ItemView {
    Bpm(Seq<char>),
    Div(Div),
    DivAbs(Seq<char>),
    Tap(Tap),
    Hold { key: Key, len: LenView, style: HoldStyle },
    TouchTap(TouchTap),
    TouchHold { sensor: Sensor, len: LenView, style: TouchStyle },
    Slide { key: Key, star_style: StarStyle, tracks: Seq<TrackView> },
    Tick(Tick),
    PseudoTick(PseudoTick),
    Comment(Seq<char>),
    End,
    Error(Span),
}

impl View for Item {
    type V = ItemView;

    open spec fn view(&self) -> ItemView {
        match self {
            Item::Bpm(b) => ItemView::Bpm(b.0@),
            Item::Div(d) => ItemView::Div(*d),
            Item::DivAbs(d) => ItemView::DivAbs(d.0@),
            Item::Tap(t) => ItemView::Tap(*t),
            Item::Hold(h) => ItemView::Hold { key: h.key, len: h.len@, style: h.style },
            Item::TouchTap(t) => ItemView::TouchTap(*t),
            Item::TouchHold(h) => ItemView::TouchHold {
                sensor: h.sensor,
                len: h.len@,
                style: h.style,
            },
            Item::Slide(s) => ItemView::Slide {
                key: s.key,
                star_style: s.star_style,
                tracks: s.tracks@.map_values(|t: crate::note::SlideTrack| t@),
            },
            Item::Tick(t) => ItemView::Tick(*t),
            Item::PseudoTick(t) => ItemView::PseudoTick(*t),
            Item::Comment(c) => ItemView::Comment(c@),
            Item::End => ItemView::End,
            Item::Error(sp) => ItemView::Error(*sp),
        }
    }
}

/// The views of a sequence of items.
pub open spec fn views(v: Seq<Item>) -> Seq<ItemView> {
    v.map_values(|it: Item| it@)
}

/// What a diagnostic reports.
#[derive(Debug, Clone, Copy, PartialEq, Eq, Structural)]
pub enum Reason {
    /// A character that is no style modifier of the note kind it follows;
    /// it is skipped.
    InvalidStyle { found: char, kind: StyleKind },
    /// A region that fits no production; it became an `Item::Error`.
    Unexpected,
}

/// A problem found while parsing, with where it was found.
#[derive(Debug, Clone, Copy, PartialEq, Eq, Structural)]
pub struct Diagnostic {
    pub span: Span,
    pub reason: Reason,
}


/// The name of a note kind's style set.
pub open spec fn kind_name(kind: StyleKind) -> Seq<char> {
    match kind {
        StyleKind::Tap => "TapStyle"@,
        StyleKind::Hold => "HoldStyle"@,
        StyleKind::Star => "StarStyle"@,
        StyleKind::Slide => "SlideStyle"@,
        StyleKind::Touch => "TouchStyle"@,
    }
}

/// The text that a diagnostic shows.
pub open spec fn message_of(d: Diagnostic) -> Seq<char> {
    match d.reason {
        Reason::InvalidStyle { found, kind } => "Invalid style modifier '"@ + seq![found] + "' for "@
            + kind_name(kind),
        Reason::Unexpected => "Unexpected input"@,
    }
}

impl Diagnostic {
    /// A human-readable description.
    pub fn message(&self) -> (r: String)
        ensures
            r@ == message_of(*self),
    {
        match self.reason {
            Reason::InvalidStyle { found, kind } => {
                let mut s = "Invalid style modifier '".to_owned();
                let mut c: Vec<char> = Vec::new();
                c.push(found);
                s.append(string_from_chars(c.as_slice()).as_str());
                s.append("' for ");
                let name = match kind {
                    StyleKind::Tap => "TapStyle",
                    StyleKind::Hold => "HoldStyle",
                    StyleKind::Star => "StarStyle",
                    StyleKind::Slide => "SlideStyle",
                    StyleKind::Touch => "TouchStyle",
                };
                s.append(name);
                s
            },
            Reason::Unexpected => "Unexpected input".to_owned(),
        }
    }
}

} // verus!
