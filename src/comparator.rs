//! Instructions that turn according to a comparison.

use vstd::prelude::*;
use core::cmp::Ordering;

use crate::{
    number::Number,
    stack::{popped, top_or, Stack},
    Velocity, DOWN, LEFT, RIGHT, UP,
};

verus! {

#[derive(Clone, Copy, Debug, PartialEq, Eq, Structural)]
pub enum Comparator {
    /// Compares the register with zero.
    Zero,
    /// Compares the register with a value popped from the current stack.
    Stack,
}

/// A quarter turn clockwise: right, down, left, up, right.
pub open spec fn turned_clockwise(velocity: Velocity) -> Velocity {
    if velocity == RIGHT {
        DOWN
    } else if velocity == DOWN {
        LEFT
    } else if velocity == LEFT {
        UP
    } else {
        RIGHT
    }
}

/// A quarter turn counter-clockwise: right, up, left, down, right.
pub open spec fn turned_counter_clockwise(velocity: Velocity) -> Velocity {
    if velocity == RIGHT {
        UP
    } else if velocity == UP {
        LEFT
    } else if velocity == LEFT {
        DOWN
    } else {
        RIGHT
    }
}

/// The direction after comparing `register` with `compared`: clockwise when
/// less, counter-clockwise when greater, unchanged when equal.
pub open spec fn turned<N: Number>(register: N, compared: N, velocity: Velocity) -> Velocity {
    if register.less(compared) {
        turned_clockwise(velocity)
    } else if compared.less(register) {
        turned_counter_clockwise(velocity)
    } else {
        velocity
    }
}

fn turn(ordering: Ordering, velocity: Velocity) -> (r: Velocity)
    requires
        velocity < 4,
    ensures
        ordering == Ordering::Less ==> r == turned_clockwise(velocity),
        ordering == Ordering::Greater ==> r == turned_counter_clockwise(velocity),
        ordering == Ordering::Equal ==> r == velocity,
{
    assert(velocity < 4 ==> {
        &&& velocity == 0 ==> (velocity ^ 0b10 ^ ((velocity >> 1) & 0b01)) == 2 && (velocity ^ 0b11 ^ ((velocity >> 1) & 0b01)) == 3
        &&& velocity == 1 ==> (velocity ^ 0b10 ^ ((velocity >> 1) & 0b01)) == 3 && (velocity ^ 0b11 ^ ((velocity >> 1) & 0b01)) == 2
        &&& velocity == 2 ==> (velocity ^ 0b10 ^ ((velocity >> 1) & 0b01)) == 1 && (velocity ^ 0b11 ^ ((velocity >> 1) & 0b01)) == 0
        &&& velocity == 3 ==> (velocity ^ 0b10 ^ ((velocity >> 1) & 0b01)) == 0 && (velocity ^ 0b11 ^ ((velocity >> 1) & 0b01)) == 1
    }) by (bit_vector);
    match ordering {
        Ordering::Equal => velocity,
        Ordering::Less => velocity ^ 0b10 ^ ((velocity >> 1) & 0b01),
        Ordering::Greater => velocity ^ 0b11 ^ ((velocity >> 1) & 0b01),
    }
}

impl Comparator {
    pub open spec fn symbol(self) -> char {
        match self {
            Comparator::Zero => 'z',
            Comparator::Stack => 'c',
        }
    }

    /// Turns `velocity` by comparing the register with zero, or with the
    /// value popped from `stack` (zero when it is empty).
    pub fn apply<N: Number, StackType: Stack<Item = N>>(
        self,
        register: &N,
        stack: &mut StackType,
        velocity: Velocity,
    ) -> (r: Velocity)
        requires
            velocity < 4,
            old(stack).wf(),
        ensures
            final(stack).wf(),
            self == Comparator::Zero ==> r == turned(*register, N::zero_spec(), velocity)
                && *final(stack) == *old(stack),
            self == Comparator::Stack ==> r == turned(*register, top_or(old(stack).items(), N::zero_spec()), velocity)
                && final(stack).items() == popped(old(stack).items()),
    {
        match self {
            Comparator::Zero => {
                let zero = N::zero();
                proof {
                    N::lemma_total_order(*register, zero, zero);
                }
                turn(register.compare(&zero), velocity)
            },
            Comparator::Stack => {
                let compared = match stack.pop() {
                    Some(value) => value,
                    None => N::zero(),
                };
                proof {
                    N::lemma_total_order(*register, compared, compared);
                }
                turn(register.compare(&compared), velocity)
            },
        }
    }

    /// The character that stands for this comparator in program text.
    pub fn to_char(self) -> (c: char)
        ensures
            c == self.symbol(),
    {
        match self {
            Comparator::Zero => 'z',
            Comparator::Stack => 'c',
        }
    }
}

/// A clockwise turn and a counter-clockwise turn cancel out, in either order.
pub proof fn lemma_turns_cancel(velocity: Velocity)
    requires
        velocity < 4,
    ensures
        turned_counter_clockwise(turned_clockwise(velocity)) == velocity,
        turned_clockwise(turned_counter_clockwise(velocity)) == velocity,
{
}

/// Comparing equal values never changes the direction.
pub proof fn lemma_equal_keeps_direction<N: Number>(value: N, velocity: Velocity)
    ensures
        turned(value, value, velocity) == velocity,
{
    N::lemma_total_order(value, value, value);
}

impl From<Comparator> for char {
    fn from(value: Comparator) -> (c: char) {
        value.to_char()
    }
}

impl vstd::std_specs::convert::FromSpecImpl<Comparator> for char {
    open spec fn obeys_from_spec() -> bool {
        true
    }

    open spec fn from_spec(value: Comparator) -> char {
        value.symbol()
    }
}

} // verus!
