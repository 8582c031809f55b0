use vstd::prelude::*;

use crate::note::Decimal;

verus! {

/// A tempo marker, in beats per minute.
#[derive(Debug, Clone, PartialEq)]
pub struct Bpm(pub Decimal);

/// A subdivision marker: how many ticks make up one measure.
#[derive(Debug, Clone, Copy, PartialEq, Eq, Structural)]
pub struct Div(pub u32);

/// A subdivision given as an explicit real-valued tick length.
#[derive(Debug, Clone, PartialEq)]
pub struct DivAbs(pub Decimal);

/// A run of beat-advance markers.
#[derive(Debug, Clone, Copy, PartialEq, Eq, Structural)]
pub struct Tick(pub u32);

/// A run of subdivision-independent advance markers.
#[derive(Debug, Clone, Copy, PartialEq, Eq, Structural)]
pub struct PseudoTick(pub u32);

} // verus!
