use vstd::prelude::*;

verus! {

pub const NONE: u8 = 0;
pub const BREAK: u8 = 1;
pub const EX: u8 = 2;
pub const NAKED_STAR: u8 = 4;
pub const TAP_STAR: u8 = 8;
pub const FIREWORK: u8 = 16;
pub const SUDDEN: u8 = 32;
pub const REMOVE: u8 = 64;

/// The flag that a modifier character stands for, if any.
pub open spec fn style_of(c: char) -> Option<u8> {
    if c == 'b' {
        Some(BREAK)
    } else if c == 'x' {
        Some(EX)
    } else if c == '$' {
        Some(NAKED_STAR)
    } else if c == '@' {
        Some(TAP_STAR)
    } else if c == 'f' {
        Some(FIREWORK)
    } else if c == '!' {
        Some(SUDDEN)
    } else if c == '?' {
        Some(REMOVE)
    } else {
        None
    }
}

/// Maps a modifier character to its flag.
pub fn to_style(c: char) -> (r: u8)
    requires
        style_of(c) is Some,
    ensures
        style_of(c) == Some(r),
{
    match c {
        'b' => BREAK,
        'x' => EX,
        '$' => NAKED_STAR,
        '@' => TAP_STAR,
        'f' => FIREWORK,
        '!' => SUDDEN,
        _ => REMOVE,
    }
}


/// The note kinds that carry a style set.
#[derive(Debug, Clone, Copy, PartialEq, Eq, Structural)]
pub enum StyleKind {
    Tap,
    Hold,
    Star,
    Slide,
    Touch,
}

/// The OR of all flags in `v`.
pub open spec fn or_all(v: Seq<u8>) -> u8
    decreases v.len(),
{
    if v.len() == 0 {
        NONE
    } else {
        or_all(v.drop_last()) | v.last()
    }
}

/// The OR-reduction of a run of flags.
pub fn merge(v: &[u8]) -> (r: u8)
    ensures
        r == or_all(v@),
{
    let mut style = NONE;
    let mut k: usize = 0;
    while k < v.len()
        invariant
            k <= v@.len(),
            style == or_all(v@.take(k as int)),
        decreases v@.len() - k,
    {
        assert(v@.take(k + 1).drop_last() =~= v@.take(k as int));
        style = style | v[k];
        k += 1;
    }
    assert(v@.take(k as int) =~= v@);
    style
}

pub const TAP_MASK: u8 = BREAK | EX | NAKED_STAR;

/// Style flags of a tap; its bits stay within `TAP_MASK`.
#[derive(Debug, Clone, Copy, PartialEq, Eq, Structural)]
pub struct TapStyle {
    pub bits: u8,
}

impl TapStyle {
    pub open spec fn wf(self) -> bool {
        self.bits & !TAP_MASK == 0
    }

    pub fn empty() -> (r: Self)
        ensures
            r.bits == 0,
            r.wf(),
    {
        assert(0u8 & !TAP_MASK == 0) by (bit_vector);
        TapStyle { bits: 0 }
    }

    /// The set of those flags of `bits` that this kind allows.
    pub fn from_bits_truncate(bits: u8) -> (r: Self)
        ensures
            r.bits == bits & TAP_MASK,
            r.wf(),
    {
        let r = TapStyle { bits: bits & TAP_MASK };
        assert(bits & TAP_MASK & !TAP_MASK == 0) by (bit_vector);
        r
    }

    pub fn bits(&self) -> (r: u8)
        ensures
            r == self.bits,
    {
        self.bits
    }

    pub fn union(self, other: Self) -> (r: Self)
        requires
            self.wf(),
            other.wf(),
        ensures
            r.bits == self.bits | other.bits,
            r.wf(),
    {
        let (a, b) = (self.bits, other.bits);
        assert(a & !TAP_MASK == 0 && b & !TAP_MASK == 0 ==> (a | b) & !TAP_MASK == 0) by (bit_vector);
        TapStyle { bits: a | b }
    }
}

pub const HOLD_MASK: u8 = BREAK | EX;

/// Style flags of a hold; its bits stay within `HOLD_MASK`.
#[derive(Debug, Clone, Copy, PartialEq, Eq, Structural)]
pub struct HoldStyle {
    pub bits: u8,
}

impl HoldStyle {
    pub open spec fn wf(self) -> bool {
        self.bits & !HOLD_MASK == 0
    }

    pub fn empty() -> (r: Self)
        ensures
            r.bits == 0,
            r.wf(),
    {
        assert(0u8 & !HOLD_MASK == 0) by (bit_vector);
        HoldStyle { bits: 0 }
    }

    /// The set of those flags of `bits` that this kind allows.
    pub fn from_bits_truncate(bits: u8) -> (r: Self)
        ensures
            r.bits == bits & HOLD_MASK,
            r.wf(),
    {
        let r = HoldStyle { bits: bits & HOLD_MASK };
        assert(bits & HOLD_MASK & !HOLD_MASK == 0) by (bit_vector);
        r
    }

    pub fn bits(&self) -> (r: u8)
        ensures
            r == self.bits,
    {
        self.bits
    }

    pub fn union(self, other: Self) -> (r: Self)
        requires
            self.wf(),
            other.wf(),
        ensures
            r.bits == self.bits | other.bits,
            r.wf(),
    {
        let (a, b) = (self.bits, other.bits);
        assert(a & !HOLD_MASK == 0 && b & !HOLD_MASK == 0 ==> (a | b) & !HOLD_MASK == 0) by (bit_vector);
        HoldStyle { bits: a | b }
    }
}

/// `!` is read after a star but `SUDDEN` is no star flag: the mask drops it.
pub const STAR_MASK: u8 = BREAK | EX | TAP_STAR | REMOVE;

/// Style flags of a star (the tap that starts a slide); its bits stay within `STAR_MASK`.
#[derive(Debug, Clone, Copy, PartialEq, Eq, Structural)]
pub struct StarStyle {
    pub bits: u8,
}

impl StarStyle {
    pub open spec fn wf(self) -> bool {
        self.bits & !STAR_MASK == 0
    }

    pub fn empty() -> (r: Self)
        ensures
            r.bits == 0,
            r.wf(),
    {
        assert(0u8 & !STAR_MASK == 0) by (bit_vector);
        StarStyle { bits: 0 }
    }

    /// The set of those flags of `bits` that this kind allows.
    pub fn from_bits_truncate(bits: u8) -> (r: Self)
        ensures
            r.bits == bits & STAR_MASK,
            r.wf(),
    {
        let r = StarStyle { bits: bits & STAR_MASK };
        assert(bits & STAR_MASK & !STAR_MASK == 0) by (bit_vector);
        r
    }

    pub fn bits(&self) -> (r: u8)
        ensures
            r == self.bits,
    {
        self.bits
    }

    pub fn union(self, other: Self) -> (r: Self)
        requires
            self.wf(),
            other.wf(),
        ensures
            r.bits == self.bits | other.bits,
            r.wf(),
    {
        let (a, b) = (self.bits, other.bits);
        assert(a & !STAR_MASK == 0 && b & !STAR_MASK == 0 ==> (a | b) & !STAR_MASK == 0) by (bit_vector);
        StarStyle { bits: a | b }
    }
}

pub const SLIDE_MASK: u8 = BREAK | SUDDEN;

/// Style flags of a slide track; its bits stay within `SLIDE_MASK`.
#[derive(Debug, Clone, Copy, PartialEq, Eq, Structural)]
pub struct SlideStyle {
    pub bits: u8,
}

impl SlideStyle {
    pub open spec fn wf(self) -> bool {
        self.bits & !SLIDE_MASK == 0
    }

    pub fn empty() -> (r: Self)
        ensures
            r.bits == 0,
            r.wf(),
    {
        assert(0u8 & !SLIDE_MASK == 0) by (bit_vector);
        SlideStyle { bits: 0 }
    }

    /// The set of those flags of `bits` that this kind allows.
    pub fn from_bits_truncate(bits: u8) -> (r: Self)
        ensures
            r.bits == bits & SLIDE_MASK,
            r.wf(),
    {
        let r = SlideStyle { bits: bits & SLIDE_MASK };
        assert(bits & SLIDE_MASK & !SLIDE_MASK == 0) by (bit_vector);
        r
    }

    pub fn bits(&self) -> (r: u8)
        ensures
            r == self.bits,
    {
        self.bits
    }

    pub fn union(self, other: Self) -> (r: Self)
        requires
            self.wf(),
            other.wf(),
        ensures
            r.bits == self.bits | other.bits,
            r.wf(),
    {
        let (a, b) = (self.bits, other.bits);
        assert(a & !SLIDE_MASK == 0 && b & !SLIDE_MASK == 0 ==> (a | b) & !SLIDE_MASK == 0) by (bit_vector);
        SlideStyle { bits: a | b }
    }
}

pub const TOUCH_MASK: u8 = FIREWORK;

/// Style flags of a touch; its bits stay within `TOUCH_MASK`.
#[derive(Debug, Clone, Copy, PartialEq, Eq, Structural)]
pub struct TouchStyle {
    pub bits: u8,
}

impl TouchStyle {
    pub open spec fn wf(self) -> bool {
        self.bits & !TOUCH_MASK == 0
    }

    pub fn empty() -> (r: Self)
        ensures
            r.bits == 0,
            r.wf(),
    {
        assert(0u8 & !TOUCH_MASK == 0) by (bit_vector);
        TouchStyle { bits: 0 }
    }

    /// The set of those flags of `bits` that this kind allows.
    pub fn from_bits_truncate(bits: u8) -> (r: Self)
        ensures
            r.bits == bits & TOUCH_MASK,
            r.wf(),
    {
        let r = TouchStyle { bits: bits & TOUCH_MASK };
        assert(bits & TOUCH_MASK & !TOUCH_MASK == 0) by (bit_vector);
        r
    }

    pub fn bits(&self) -> (r: u8)
        ensures
            r == self.bits,
    {
        self.bits
    }

    pub fn union(self, other: Self) -> (r: Self)
        requires
            self.wf(),
            other.wf(),
        ensures
            r.bits == self.bits | other.bits,
            r.wf(),
    {
        let (a, b) = (self.bits, other.bits);
        assert(a & !TOUCH_MASK == 0 && b & !TOUCH_MASK == 0 ==> (a | b) & !TOUCH_MASK == 0) by (bit_vector);
        TouchStyle { bits: a | b }
    }
}

} // verus!
