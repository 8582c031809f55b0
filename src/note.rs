use vstd::prelude::*;

use crate::style::{HoldStyle, SlideStyle, StarStyle, TapStyle, TouchStyle};

verus! {

/// One of the eight buttons.
#[derive(Debug, Clone, Copy, PartialEq, Eq, Hash, Structural)]
pub enum Key {
    K1,
    K2,
    K3,
    K4,
    K5,
    K6,
    K7,
    K8,
}

/// The button that a digit character names.
pub open spec fn key_of(c: char) -> Option<Key> {
    if c == '1' {
        Some(Key::K1)
    } else if c == '2' {
        Some(Key::K2)
    } else if c == '3' {
        Some(Key::K3)
    } else if c == '4' {
        Some(Key::K4)
    } else if c == '5' {
        Some(Key::K5)
    } else if c == '6' {
        Some(Key::K6)
    } else if c == '7' {
        Some(Key::K7)
    } else if c == '8' {
        Some(Key::K8)
    } else {
        None
    }
}

impl Key {
    /// The button named by a digit from '1' to '8'.
    pub fn from(c: char) -> (r: Key)
        requires
            key_of(c) is Some,
        ensures
            key_of(c) == Some(r),
    {
        match c {
            '1' => Key::K1,
            '2' => Key::K2,
            '3' => Key::K3,
            '4' => Key::K4,
            '5' => Key::K5,
            '6' => Key::K6,
            '7' => Key::K7,
            _ => Key::K8,
        }
    }
}

/// One of the five touch-sensor zones.
#[derive(Debug, Clone, Copy, PartialEq, Eq, Hash, Structural)]
pub enum SensorGroup {
    A,
    B,
    C,
    D,
    E,
}

/// The zone that a letter names.
pub open spec fn group_of(c: char) -> Option<SensorGroup> {
    if c == 'A' {
        Some(SensorGroup::A)
    } else if c == 'B' {
        Some(SensorGroup::B)
    } else if c == 'C' {
        Some(SensorGroup::C)
    } else if c == 'D' {
        Some(SensorGroup::D)
    } else if c == 'E' {
        Some(SensorGroup::E)
    } else {
        None
    }
}

impl SensorGroup {
    /// The zone named by a letter from 'A' to 'E'.
    pub fn from(c: char) -> (r: SensorGroup)
        requires
            group_of(c) is Some,
        ensures
            group_of(c) == Some(r),
    {
        match c {
            'A' => SensorGroup::A,
            'B' => SensorGroup::B,
            'C' => SensorGroup::C,
            'D' => SensorGroup::D,
            _ => SensorGroup::E,
        }
    }
}

/// A decimal literal as written, whitespace removed: digits, optionally
/// followed by a point and more digits. Turning it into a machine float is
/// left to the consumer.
#[derive(Debug, Clone, PartialEq)]
pub struct Decimal {
    pub text: String,
}

impl View for Decimal {
    type V = Seq<char>;

    open spec fn view(&self) -> Seq<char> {
        self.text@
    }
}


/// The greatest common divisor, by Euclid's algorithm.
pub open spec fn gcd(a: nat, b: nat) -> nat
    decreases b,
{
    if b == 0 {
        a
    } else {
        gcd(b, a % b)
    }
}

/// An exact fraction in lowest terms, or the two values a zero denominator
/// gives.
#[derive(Debug, Clone, Copy, PartialEq, Eq, Structural)]
pub enum Frac {
    Ratio { numer: u32, denom: u32 },
    Infinity,
    NaN,
}

/// `numer / denom` reduced to lowest terms; zero reduces to `0/1`.
pub open spec fn frac_of(numer: nat, denom: nat) -> Frac {
    if denom == 0 {
        if numer == 0 {
            Frac::NaN
        } else {
            Frac::Infinity
        }
    } else {
        let g = gcd(numer, denom);
        Frac::Ratio { numer: (numer / g) as u32, denom: (denom / g) as u32 }
    }
}

/// Relies on `fraction::BigFraction::new`: a zero denominator gives NaN over
/// zero and infinity otherwise; any other pair is reduced by its greatest
/// common divisor (`num_rational::Ratio::new`), zero becoming `0/1`.
#[verifier::external_body]
pub(crate) fn frac_new(numer: u32, denom: u32) -> (r: Frac)
    ensures
        r == frac_of(numer as nat, denom as nat),
{
    match fraction::BigFraction::new(numer, denom) {
        fraction::GenericFraction::Rational(_, r) => Frac::Ratio {
            numer: u32::try_from(r.numer()).unwrap(),
            denom: u32::try_from(r.denom()).unwrap(),
        },
        fraction::GenericFraction::Infinity(_) => Frac::Infinity,
        fraction::GenericFraction::NaN => Frac::NaN,
    }
}

/// How long a hold lasts or a slide moves.
#[derive(Debug, Clone, PartialEq)]
pub enum Len {
    /// A fraction of a measure at the current tempo.
    Rel(Frac),
    /// A fraction of a measure at the given tempo.
    Bpm { bpm: Decimal, frac: Frac },
    /// Seconds.
    Abs(Decimal),
    /// No length written.
    Zero,
}

pub enum LenView {
    Rel(Frac),
    Bpm { bpm: Seq<char>, frac: Frac },
    Abs(Seq<char>),
    Zero,
}

impl View for Len {
    type V = LenView;

    open spec fn view(&self) -> LenView {
        match self {
            Len::Rel(f) => LenView::Rel(*f),
            Len::Bpm { bpm, frac } => LenView::Bpm { bpm: bpm@, frac: *frac },
            Len::Abs(d) => LenView::Abs(d@),
            Len::Zero => LenView::Zero,
        }
    }
}

impl Len {
    /// `p:q` at tempo `bpm`: the fraction `q / p` of a measure.
    pub fn bpm(bpm: Decimal, p: u32, q: u32) -> (r: Len)
        ensures
            r@ == (LenView::Bpm { bpm: bpm@, frac: frac_of(q as nat, p as nat) }),
    {
        Len::Bpm { bpm, frac: frac_new(q, p) }
    }
}

/// The delay before a slide starts to move.
#[derive(Debug, Clone, PartialEq)]
pub enum Wait {
    /// One beat at the current tempo.
    Rel,
    /// One beat at the given tempo.
    Bpm(Decimal),
    /// Seconds.
    Abs(Decimal),
}

pub enum WaitView {
    Rel,
    Bpm(Seq<char>),
    Abs(Seq<char>),
}

impl View for Wait {
    type V = WaitView;

    open spec fn view(&self) -> WaitView {
        match self {
            Wait::Rel => WaitView::Rel,
            Wait::Bpm(d) => WaitView::Bpm(d@),
            Wait::Abs(d) => WaitView::Abs(d@),
        }
    }
}

/// The shape of one slide segment.
#[derive(Debug, Clone, Copy, PartialEq, Eq, Structural)]
pub enum Shape {
    Line,
    ArcLeft,
    ArcRight,
    Arc,
    P,
    Q,
    S,
    Z,
    PP,
    QQ,
    V,
    Fan,
    Angle(Key),
}

/// The shape that a single character names.
pub open spec fn shape_of(c: char) -> Option<Shape> {
    if c == '-' {
        Some(Shape::Line)
    } else if c == '<' {
        Some(Shape::ArcLeft)
    } else if c == '>' {
        Some(Shape::ArcRight)
    } else if c == '^' {
        Some(Shape::Arc)
    } else if c == 'p' {
        Some(Shape::P)
    } else if c == 'q' {
        Some(Shape::Q)
    } else if c == 's' {
        Some(Shape::S)
    } else if c == 'z' {
        Some(Shape::Z)
    } else if c == 'v' {
        Some(Shape::V)
    } else if c == 'w' {
        Some(Shape::Fan)
    } else {
        None
    }
}

impl Shape {
    pub fn from(c: char) -> (r: Shape)
        requires
            shape_of(c) is Some,
        ensures
            shape_of(c) == Some(r),
    {
        match c {
            '-' => Shape::Line,
            '<' => Shape::ArcLeft,
            '>' => Shape::ArcRight,
            '^' => Shape::Arc,
            'p' => Shape::P,
            'q' => Shape::Q,
            's' => Shape::S,
            'z' => Shape::Z,
            'v' => Shape::V,
            _ => Shape::Fan,
        }
    }
}

/// A touch sensor: a zone and, except for an unindexed C, a button index.
#[derive(Debug, Clone, Copy, PartialEq, Eq, Hash, Structural)]
pub struct Sensor {
    pub group: SensorGroup,
    pub index: Option<Key>,
}

#[derive(Debug, Clone, Copy, PartialEq, Eq, Structural)]
pub struct Tap {
    pub key: Key,
    pub style: TapStyle,
}

#[derive(Debug, Clone, PartialEq)]
pub struct Hold {
    pub key: Key,
    pub len: Len,
    pub style: HoldStyle,
}

#[derive(Debug, Clone, Copy, PartialEq, Eq, Structural)]
pub struct TouchTap {
    pub sensor: Sensor,
    pub style: TouchStyle,
}

#[derive(Debug, Clone, PartialEq)]
pub struct TouchHold {
    pub sensor: Sensor,
    pub len: Len,
    pub style: TouchStyle,
}

/// A slide: the star tap it starts from and one or more tracks.
#[derive(Debug, Clone, PartialEq)]
pub struct Slide {
    pub key: Key,
    pub star_style: StarStyle,
    pub tracks: Vec<SlideTrack>,
}

/// One track of a slide.
#[derive(Debug, Clone, PartialEq)]
pub enum SlideTrack {
    /// One wait and one length for the whole path.
    Amortized { path: Vec<(Shape, Key)>, wait: Wait, style: SlideStyle, len: Len },
    /// A length for each segment.
    Piecewise { path: Vec<(Shape, Key, Len)>, wait: Wait, style: SlideStyle },
}

pub enum TrackView {
    Amortized { path: Seq<(Shape, Key)>, wait: WaitView, style: SlideStyle, len: LenView },
    Piecewise { path: Seq<(Shape, Key, LenView)>, wait: WaitView, style: SlideStyle },
}

pub open spec fn segment_view(t: (Shape, Key, Len)) -> (Shape, Key, LenView) {
    (t.0, t.1, t.2@)
}

impl View for SlideTrack {
    type V = TrackView;

    open spec fn view(&self) -> TrackView {
        match self {
            SlideTrack::Amortized { path, wait, style, len } => TrackView::Amortized {
                path: path@,
                wait: wait@,
                style: *style,
                len: len@,
            },
            SlideTrack::Piecewise { path, wait, style } => TrackView::Piecewise {
                path: path@.map_values(|t: (Shape, Key, Len)| segment_view(t)),
                wait: wait@,
                style: *style,
            },
        }
    }
}

} // verus!
