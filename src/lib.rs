//! Parser for the simai chart notation: taps, holds, touch notes and slides
//! interleaved with tempo changes and beat advances, with span-carrying
//! error recovery.
//!
//! Every grammar production has a specification function (`sp_*`) that
//! states what it reads, and the parser that runs is proved to agree with
//! it. A repetition in a specification stops where an iteration would not
//! advance; every iteration reads at least one character, so that test only
//! makes the recursion's termination evident.
//!
//! Offsets and spans count characters. Decimal literals are kept as text
//! and exact fractions as reduced 32-bit numerators and denominators.
pub mod bytes;
pub mod chart;
pub mod container;
pub mod item;
pub mod lex;
pub mod misc;
pub mod note;
pub mod notes;
pub mod parse;
pub mod slide;
pub mod style;
pub mod wellformed;

pub use container::Simai;
pub use item::{Diagnostic, Item, Reason, Span};
pub use misc::{Bpm, Div, DivAbs, PseudoTick, Tick};
pub use note::{Decimal, Frac, Hold, Key, Len, Sensor, SensorGroup, Shape, Slide, SlideTrack, Tap, TouchHold, TouchTap, Wait};
pub use parse::{rm_comments, simai, Parsed};
pub use style::{to_style, HoldStyle, SlideStyle, StarStyle, StyleKind, TapStyle, TouchStyle};
