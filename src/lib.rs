//! A virtual machine for a two-dimensional, stack-based language.
//!
//! A program is a grid of one-character instructions. A cursor walks the
//! grid in one of four directions, changing a register and a coarser grid of
//! stacks as it crosses instruction cells.

use vstd::prelude::*;

pub mod comparator;
pub mod deflector;
pub mod fixed;
pub mod instruction;
pub mod io;
pub mod load;
pub mod machine;
pub mod number;
pub mod operator;
pub mod plane;
pub mod stack;
pub mod text;

pub use number::Number;

verus! {

/// A direction of travel. Bit 1 selects the axis (set: vertical) and bit 0
/// the sign (set: decreasing).
pub type Velocity = u8;

/// A cell coordinate `(x, y)`.
pub type Pointer = (usize, usize);

pub const RIGHT: Velocity = 0;

pub const LEFT: Velocity = 1;

pub const DOWN: Velocity = 2;

pub const UP: Velocity = 3;

/// One of the four compass values.
pub open spec fn is_direction(velocity: Velocity) -> bool {
    velocity < 4
}

pub open spec fn is_vertical(velocity: Velocity) -> bool {
    velocity & 2 != 0
}

pub open spec fn is_decreasing(velocity: Velocity) -> bool {
    velocity & 1 != 0
}

/// One step along an axis, wrapping at the ends of `usize`.
pub open spec fn stepped(coordinate: usize, decreasing: bool) -> usize {
    if decreasing {
        if coordinate == 0 {
            usize::MAX
        } else {
            (coordinate - 1) as usize
        }
    } else {
        if coordinate == usize::MAX {
            0
        } else {
            (coordinate + 1) as usize
        }
    }
}

/// The pointer moved one cell along `velocity`.
pub open spec fn advanced(velocity: Velocity, pointer: Pointer) -> Pointer {
    if is_vertical(velocity) {
        (pointer.0, stepped(pointer.1, is_decreasing(velocity)))
    } else {
        (stepped(pointer.0, is_decreasing(velocity)), pointer.1)
    }
}

/// Moves `pointer` one cell in the direction of `velocity`, wrapping around
/// at 0 and at `usize::MAX` (not at the edges of any grid).
pub fn add_velocity_to_pointer(velocity: Velocity, pointer: Pointer) -> (r: Pointer)
    ensures
        r == advanced(velocity, pointer),
{
    let (mut x, mut y) = pointer;
    let decreasing = velocity & 1 != 0;
    if velocity & 2 == 0 {
        x = if decreasing {
            if x == 0 { usize::MAX } else { x - 1 }
        } else {
            if x == usize::MAX { 0 } else { x + 1 }
        };
    } else {
        y = if decreasing {
            if y == 0 { usize::MAX } else { y - 1 }
        } else {
            if y == usize::MAX { 0 } else { y + 1 }
        };
    }
    (x, y)
}

/// Moving left from column 0, or up from row 0, wraps to `usize::MAX`.
pub proof fn lemma_advance_wraps_at_zero(pointer: Pointer)
    ensures
        pointer.0 == 0 ==> advanced(LEFT, pointer) == (usize::MAX, pointer.1),
        pointer.1 == 0 ==> advanced(UP, pointer) == (pointer.0, usize::MAX),
{
    assert(LEFT & 2 == 0 && LEFT & 1 != 0 && UP & 2 != 0 && UP & 1 != 0) by (bit_vector);
}

} // verus!
