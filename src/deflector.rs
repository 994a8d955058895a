//! Instructions that change the direction of travel.

use vstd::prelude::*;

use crate::{Velocity, DOWN, LEFT, RIGHT, UP};

verus! {

#[derive(Clone, Copy, Debug, PartialEq, Eq, Structural)]
pub enum Deflector {
    RightArrow,
    LeftArrow,
    UpArrow,
    DownArrow,
    OmniMirror,
    ForwardMirror,
    BackMirror,
}

impl Deflector {
    /// Arrows set the direction outright. The omni mirror flips the sign
    /// bit, the back mirror the axis bit, the forward mirror both.
    pub open spec fn deflected(self, velocity: Velocity) -> Velocity {
        match self {
            Deflector::RightArrow => RIGHT,
            Deflector::LeftArrow => LEFT,
            Deflector::DownArrow => DOWN,
            Deflector::UpArrow => UP,
            Deflector::OmniMirror => velocity ^ 1,
            Deflector::BackMirror => velocity ^ 2,
            Deflector::ForwardMirror => velocity ^ 3,
        }
    }

    pub open spec fn symbol(self) -> char {
        match self {
            Deflector::RightArrow => '>',
            Deflector::LeftArrow => '<',
            Deflector::UpArrow => '^',
            Deflector::DownArrow => 'v',
            Deflector::OmniMirror => 'o',
            Deflector::ForwardMirror => '/',
            Deflector::BackMirror => '\\',
        }
    }

    pub fn apply(self, velocity: Velocity) -> (r: Velocity)
        ensures
            r == self.deflected(velocity),
    {
        match self {
            Deflector::RightArrow => 0b00,
            Deflector::LeftArrow => 0b01,
            Deflector::DownArrow => 0b10,
            Deflector::UpArrow => 0b11,
            Deflector::OmniMirror => velocity ^ 0b01,
            Deflector::BackMirror => velocity ^ 0b10,
            Deflector::ForwardMirror => velocity ^ 0b11,
        }
    }

    /// The character that stands for this deflector in program text.
    pub fn to_char(self) -> (c: char)
        ensures
            c == self.symbol(),
    {
        match self {
            Deflector::RightArrow => '>',
            Deflector::LeftArrow => '<',
            Deflector::UpArrow => '^',
            Deflector::DownArrow => 'v',
            Deflector::OmniMirror => 'o',
            Deflector::ForwardMirror => '/',
            Deflector::BackMirror => '\\',
        }
    }
}

impl Deflector {
    pub open spec fn is_arrow(self) -> bool {
        match self {
            Deflector::RightArrow | Deflector::LeftArrow | Deflector::UpArrow | Deflector::DownArrow => true,
            _ => false,
        }
    }

    pub open spec fn is_mirror(self) -> bool {
        !self.is_arrow()
    }
}

/// An arrow sends the cursor the same way whatever the incoming direction.
pub proof fn lemma_arrow_ignores_direction(deflector: Deflector, a: Velocity, b: Velocity)
    requires
        deflector.is_arrow(),
    ensures
        deflector.deflected(a) == deflector.deflected(b),
{
}

/// A mirror undoes itself: deflecting twice gives back the direction.
pub proof fn lemma_mirror_involution(deflector: Deflector, velocity: Velocity)
    requires
        deflector.is_mirror(),
    ensures
        deflector.deflected(deflector.deflected(velocity)) == velocity,
{
    assert((velocity ^ 1) ^ 1 == velocity && (velocity ^ 2) ^ 2 == velocity && (velocity ^ 3) ^ 3 == velocity)
        by (bit_vector);
}

impl From<Deflector> for char {
    fn from(value: Deflector) -> (c: char) {
        value.to_char()
    }
}

impl vstd::std_specs::convert::FromSpecImpl<Deflector> for char {
    open spec fn obeys_from_spec() -> bool {
        true
    }

    open spec fn from_spec(value: Deflector) -> char {
        value.symbol()
    }
}

} // verus!
