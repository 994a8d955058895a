//! The numeric values held by the register and the stacks.

use vstd::prelude::*;
use core::cmp::Ordering;

verus! {

/// Rust's `/` on signed integers: the quotient rounded toward zero.
pub open spec fn truncated_quotient(a: int, b: int) -> int {
    if a >= 0 {
        if b > 0 { a / b } else { -(a / -b) }
    } else {
        if b > 0 { -((-a) / b) } else { (-a) / (-b) }
    }
}

/// Dividing a magnitude by a divisor of at least two at least halves it.
pub proof fn lemma_quotient_halves(a: int, b: int)
    requires
        a >= 0,
        b >= 2,
    ensures
        0 <= a / b,
        2 * (a / b) <= a,
{
    assert(0 <= a / b && (a / b) * b <= a) by (nonlinear_arith)
        requires
            a >= 0,
            b >= 2,
    ;
    assert(2 * (a / b) <= (a / b) * b) by (nonlinear_arith)
        requires
            a / b >= 0,
            b >= 2,
    ;
}

/// A dividend smaller in magnitude than the divisor gives zero.
pub proof fn lemma_small_quotient(a: int, b: int)
    requires
        0 <= a < b,
    ensures
        a / b == 0,
{
    assert(a / b == 0) by (nonlinear_arith)
        requires
            0 <= a < b,
    ;
}

/// A value the machine computes with: totally ordered, with the four
/// arithmetic operations, bitwise not / or / and / xor, and the constants
/// zero and one. The implementations below wrap around at the type's width.
pub trait Number: Sized + Copy {
    spec fn zero_spec() -> Self;

    spec fn one_spec() -> Self;

    /// The strict order of the type.
    spec fn less(self, other: Self) -> bool;

    spec fn plus_spec(self, other: Self) -> Self;

    spec fn minus_spec(self, other: Self) -> Self;

    spec fn times_spec(self, other: Self) -> Self;

    /// Division; only meaningful for a nonzero divisor.
    spec fn quotient_spec(self, other: Self) -> Self;

    spec fn complement_spec(self) -> Self;

    spec fn or_spec(self, other: Self) -> Self;

    spec fn and_spec(self, other: Self) -> Self;

    spec fn xor_spec(self, other: Self) -> Self;

    /// `less` is a strict total order.
    proof fn lemma_total_order(a: Self, b: Self, c: Self)
        ensures
            !a.less(a),
            a.less(b) || a == b || b.less(a),
            a.less(b) && b.less(c) ==> a.less(c),
    ;

    proof fn lemma_zero_is_not_one()
        ensures
            Self::zero_spec() != Self::one_spec(),
    ;

    fn zero() -> (r: Self)
        ensures
            r == Self::zero_spec(),
    ;

    fn one() -> (r: Self)
        ensures
            r == Self::one_spec(),
    ;

    fn compare(&self, other: &Self) -> (r: Ordering)
        ensures
            (r == Ordering::Less) == self.less(*other),
            (r == Ordering::Equal) == (*self == *other),
            (r == Ordering::Greater) == other.less(*self),
    ;

    fn plus(self, other: Self) -> (r: Self)
        ensures
            r == self.plus_spec(other),
    ;

    fn minus(self, other: Self) -> (r: Self)
        ensures
            r == self.minus_spec(other),
    ;

    fn times(self, other: Self) -> (r: Self)
        ensures
            r == self.times_spec(other),
    ;

    fn quotient(self, other: Self) -> (r: Self)
        requires
            other != Self::zero_spec(),
        ensures
            r == self.quotient_spec(other),
    ;

    fn complement(self) -> (r: Self)
        ensures
            r == self.complement_spec(),
    ;

    fn bit_or(self, other: Self) -> (r: Self)
        ensures
            r == self.or_spec(other),
    ;

    fn bit_and(self, other: Self) -> (r: Self)
        ensures
            r == self.and_spec(other),
    ;

    fn bit_xor(self, other: Self) -> (r: Self)
        ensures
            r == self.xor_spec(other),
    ;
}

impl Number for i8 {
    open spec fn zero_spec() -> i8 {
        0
    }

    open spec fn one_spec() -> i8 {
        1
    }

    open spec fn less(self, other: i8) -> bool {
        self < other
    }

    open spec fn plus_spec(self, other: i8) -> i8 {
        self.wrapping_add(other)
    }

    open spec fn minus_spec(self, other: i8) -> i8 {
        self.wrapping_sub(other)
    }

    open spec fn times_spec(self, other: i8) -> i8 {
        self.wrapping_mul(other)
    }

    open spec fn quotient_spec(self, other: i8) -> i8 {
        if other == -1 {
            (0 as i8).wrapping_sub(self)
        } else {
            truncated_quotient(self as int, other as int) as i8
        }
    }

    open spec fn complement_spec(self) -> i8 {
        !self
    }

    open spec fn or_spec(self, other: i8) -> i8 {
        self | other
    }

    open spec fn and_spec(self, other: i8) -> i8 {
        self & other
    }

    open spec fn xor_spec(self, other: i8) -> i8 {
        self ^ other
    }

    proof fn lemma_total_order(a: i8, b: i8, c: i8) {
    }

    proof fn lemma_zero_is_not_one() {
    }

    fn zero() -> (r: i8) {
        0
    }

    fn one() -> (r: i8) {
        1
    }

    fn compare(&self, other: &i8) -> (r: Ordering) {
        if *self < *other {
            Ordering::Less
        } else if *self > *other {
            Ordering::Greater
        } else {
            Ordering::Equal
        }
    }

    fn plus(self, other: i8) -> (r: i8) {
        self.wrapping_add(other)
    }

    fn minus(self, other: i8) -> (r: i8) {
        self.wrapping_sub(other)
    }

    fn times(self, other: i8) -> (r: i8) {
        self.wrapping_mul(other)
    }

    fn quotient(self, other: i8) -> (r: i8) {
        if other == -1 {
            (0 as i8).wrapping_sub(self)
        } else if other > 0 {
            self / other
        } else if other == i8::MIN {
            proof {
                if self != i8::MIN {
                    if self >= 0 {
                        lemma_small_quotient(self as int, -(other as int));
                    } else {
                        lemma_small_quotient(-(self as int), -(other as int));
                    }
                }
            }
            if self == i8::MIN {
                1
            } else {
                0
            }
        } else {
            let divisor = 0 - other;
            proof {
                if self >= 0 {
                    lemma_quotient_halves(self as int, divisor as int);
                } else {
                    lemma_quotient_halves(-(self as int), divisor as int);
                }
            }
            0 - self / divisor
        }
    }

    fn complement(self) -> (r: i8) {
        !self
    }

    fn bit_or(self, other: i8) -> (r: i8) {
        self | other
    }

    fn bit_and(self, other: i8) -> (r: i8) {
        self & other
    }

    fn bit_xor(self, other: i8) -> (r: i8) {
        self ^ other
    }
}

impl Number for i16 {
    open spec fn zero_spec() -> i16 {
        0
    }

    open spec fn one_spec() -> i16 {
        1
    }

    open spec fn less(self, other: i16) -> bool {
        self < other
    }

    open spec fn plus_spec(self, other: i16) -> i16 {
        self.wrapping_add(other)
    }

    open spec fn minus_spec(self, other: i16) -> i16 {
        self.wrapping_sub(other)
    }

    open spec fn times_spec(self, other: i16) -> i16 {
        self.wrapping_mul(other)
    }

    open spec fn quotient_spec(self, other: i16) -> i16 {
        if other == -1 {
            (0 as i16).wrapping_sub(self)
        } else {
            truncated_quotient(self as int, other as int) as i16
        }
    }

    open spec fn complement_spec(self) -> i16 {
        !self
    }

    open spec fn or_spec(self, other: i16) -> i16 {
        self | other
    }

    open spec fn and_spec(self, other: i16) -> i16 {
        self & other
    }

    open spec fn xor_spec(self, other: i16) -> i16 {
        self ^ other
    }

    proof fn lemma_total_order(a: i16, b: i16, c: i16) {
    }

    proof fn lemma_zero_is_not_one() {
    }

    fn zero() -> (r: i16) {
        0
    }

    fn one() -> (r: i16) {
        1
    }

    fn compare(&self, other: &i16) -> (r: Ordering) {
        if *self < *other {
            Ordering::Less
        } else if *self > *other {
            Ordering::Greater
        } else {
            Ordering::Equal
        }
    }

    fn plus(self, other: i16) -> (r: i16) {
        self.wrapping_add(other)
    }

    fn minus(self, other: i16) -> (r: i16) {
        self.wrapping_sub(other)
    }

    fn times(self, other: i16) -> (r: i16) {
        self.wrapping_mul(other)
    }

    fn quotient(self, other: i16) -> (r: i16) {
        if other == -1 {
            (0 as i16).wrapping_sub(self)
        } else if other > 0 {
            self / other
        } else if other == i16::MIN {
            proof {
                if self != i16::MIN {
                    if self >= 0 {
                        lemma_small_quotient(self as int, -(other as int));
                    } else {
                        lemma_small_quotient(-(self as int), -(other as int));
                    }
                }
            }
            if self == i16::MIN {
                1
            } else {
                0
            }
        } else {
            let divisor = 0 - other;
            proof {
                if self >= 0 {
                    lemma_quotient_halves(self as int, divisor as int);
                } else {
                    lemma_quotient_halves(-(self as int), divisor as int);
                }
            }
            0 - self / divisor
        }
    }

    fn complement(self) -> (r: i16) {
        !self
    }

    fn bit_or(self, other: i16) -> (r: i16) {
        self | other
    }

    fn bit_and(self, other: i16) -> (r: i16) {
        self & other
    }

    fn bit_xor(self, other: i16) -> (r: i16) {
        self ^ other
    }
}

impl Number for i32 {
    open spec fn zero_spec() -> i32 {
        0
    }

    open spec fn one_spec() -> i32 {
        1
    }

    open spec fn less(self, other: i32) -> bool {
        self < other
    }

    open spec fn plus_spec(self, other: i32) -> i32 {
        self.wrapping_add(other)
    }

    open spec fn minus_spec(self, other: i32) -> i32 {
        self.wrapping_sub(other)
    }

    open spec fn times_spec(self, other: i32) -> i32 {
        self.wrapping_mul(other)
    }

    open spec fn quotient_spec(self, other: i32) -> i32 {
        if other == -1 {
            (0 as i32).wrapping_sub(self)
        } else {
            truncated_quotient(self as int, other as int) as i32
        }
    }

    open spec fn complement_spec(self) -> i32 {
        !self
    }

    open spec fn or_spec(self, other: i32) -> i32 {
        self | other
    }

    open spec fn and_spec(self, other: i32) -> i32 {
        self & other
    }

    open spec fn xor_spec(self, other: i32) -> i32 {
        self ^ other
    }

    proof fn lemma_total_order(a: i32, b: i32, c: i32) {
    }

    proof fn lemma_zero_is_not_one() {
    }

    fn zero() -> (r: i32) {
        0
    }

    fn one() -> (r: i32) {
        1
    }

    fn compare(&self, other: &i32) -> (r: Ordering) {
        if *self < *other {
            Ordering::Less
        } else if *self > *other {
            Ordering::Greater
        } else {
            Ordering::Equal
        }
    }

    fn plus(self, other: i32) -> (r: i32) {
        self.wrapping_add(other)
    }

    fn minus(self, other: i32) -> (r: i32) {
        self.wrapping_sub(other)
    }

    fn times(self, other: i32) -> (r: i32) {
        self.wrapping_mul(other)
    }

    fn quotient(self, other: i32) -> (r: i32) {
        if other == -1 {
            (0 as i32).wrapping_sub(self)
        } else if other > 0 {
            self / other
        } else if other == i32::MIN {
            proof {
                if self != i32::MIN {
                    if self >= 0 {
                        lemma_small_quotient(self as int, -(other as int));
                    } else {
                        lemma_small_quotient(-(self as int), -(other as int));
                    }
                }
            }
            if self == i32::MIN {
                1
            } else {
                0
            }
        } else {
            let divisor = 0 - other;
            proof {
                if self >= 0 {
                    lemma_quotient_halves(self as int, divisor as int);
                } else {
                    lemma_quotient_halves(-(self as int), divisor as int);
                }
            }
            0 - self / divisor
        }
    }

    fn complement(self) -> (r: i32) {
        !self
    }

    fn bit_or(self, other: i32) -> (r: i32) {
        self | other
    }

    fn bit_and(self, other: i32) -> (r: i32) {
        self & other
    }

    fn bit_xor(self, other: i32) -> (r: i32) {
        self ^ other
    }
}

impl Number for i64 {
    open spec fn zero_spec() -> i64 {
        0
    }

    open spec fn one_spec() -> i64 {
        1
    }

    open spec fn less(self, other: i64) -> bool {
        self < other
    }

    open spec fn plus_spec(self, other: i64) -> i64 {
        self.wrapping_add(other)
    }

    open spec fn minus_spec(self, other: i64) -> i64 {
        self.wrapping_sub(other)
    }

    open spec fn times_spec(self, other: i64) -> i64 {
        self.wrapping_mul(other)
    }

    open spec fn quotient_spec(self, other: i64) -> i64 {
        if other == -1 {
            (0 as i64).wrapping_sub(self)
        } else {
            truncated_quotient(self as int, other as int) as i64
        }
    }

    open spec fn complement_spec(self) -> i64 {
        !self
    }

    open spec fn or_spec(self, other: i64) -> i64 {
        self | other
    }

    open spec fn and_spec(self, other: i64) -> i64 {
        self & other
    }

    open spec fn xor_spec(self, other: i64) -> i64 {
        self ^ other
    }

    proof fn lemma_total_order(a: i64, b: i64, c: i64) {
    }

    proof fn lemma_zero_is_not_one() {
    }

    fn zero() -> (r: i64) {
        0
    }

    fn one() -> (r: i64) {
        1
    }

    fn compare(&self, other: &i64) -> (r: Ordering) {
        if *self < *other {
            Ordering::Less
        } else if *self > *other {
            Ordering::Greater
        } else {
            Ordering::Equal
        }
    }

    fn plus(self, other: i64) -> (r: i64) {
        self.wrapping_add(other)
    }

    fn minus(self, other: i64) -> (r: i64) {
        self.wrapping_sub(other)
    }

    fn times(self, other: i64) -> (r: i64) {
        self.wrapping_mul(other)
    }

    fn quotient(self, other: i64) -> (r: i64) {
        if other == -1 {
            (0 as i64).wrapping_sub(self)
        } else if other > 0 {
            self / other
        } else if other == i64::MIN {
            proof {
                if self != i64::MIN {
                    if self >= 0 {
                        lemma_small_quotient(self as int, -(other as int));
                    } else {
                        lemma_small_quotient(-(self as int), -(other as int));
                    }
                }
            }
            if self == i64::MIN {
                1
            } else {
                0
            }
        } else {
            let divisor = 0 - other;
            proof {
                if self >= 0 {
                    lemma_quotient_halves(self as int, divisor as int);
                } else {
                    lemma_quotient_halves(-(self as int), divisor as int);
                }
            }
            0 - self / divisor
        }
    }

    fn complement(self) -> (r: i64) {
        !self
    }

    fn bit_or(self, other: i64) -> (r: i64) {
        self | other
    }

    fn bit_and(self, other: i64) -> (r: i64) {
        self & other
    }

    fn bit_xor(self, other: i64) -> (r: i64) {
        self ^ other
    }
}

impl Number for u8 {
    open spec fn zero_spec() -> u8 {
        0
    }

    open spec fn one_spec() -> u8 {
        1
    }

    open spec fn less(self, other: u8) -> bool {
        self < other
    }

    open spec fn plus_spec(self, other: u8) -> u8 {
        self.wrapping_add(other)
    }

    open spec fn minus_spec(self, other: u8) -> u8 {
        self.wrapping_sub(other)
    }

    open spec fn times_spec(self, other: u8) -> u8 {
        self.wrapping_mul(other)
    }

    open spec fn quotient_spec(self, other: u8) -> u8 {
        self / other
    }

    open spec fn complement_spec(self) -> u8 {
        !self
    }

    open spec fn or_spec(self, other: u8) -> u8 {
        self | other
    }

    open spec fn and_spec(self, other: u8) -> u8 {
        self & other
    }

    open spec fn xor_spec(self, other: u8) -> u8 {
        self ^ other
    }

    proof fn lemma_total_order(a: u8, b: u8, c: u8) {
    }

    proof fn lemma_zero_is_not_one() {
    }

    fn zero() -> (r: u8) {
        0
    }

    fn one() -> (r: u8) {
        1
    }

    fn compare(&self, other: &u8) -> (r: Ordering) {
        if *self < *other {
            Ordering::Less
        } else if *self > *other {
            Ordering::Greater
        } else {
            Ordering::Equal
        }
    }

    fn plus(self, other: u8) -> (r: u8) {
        self.wrapping_add(other)
    }

    fn minus(self, other: u8) -> (r: u8) {
        self.wrapping_sub(other)
    }

    fn times(self, other: u8) -> (r: u8) {
        self.wrapping_mul(other)
    }

    fn quotient(self, other: u8) -> (r: u8) {
        self / other
    }

    fn complement(self) -> (r: u8) {
        !self
    }

    fn bit_or(self, other: u8) -> (r: u8) {
        self | other
    }

    fn bit_and(self, other: u8) -> (r: u8) {
        self & other
    }

    fn bit_xor(self, other: u8) -> (r: u8) {
        self ^ other
    }
}

impl Number for u16 {
    open spec fn zero_spec() -> u16 {
        0
    }

    open spec fn one_spec() -> u16 {
        1
    }

    open spec fn less(self, other: u16) -> bool {
        self < other
    }

    open spec fn plus_spec(self, other: u16) -> u16 {
        self.wrapping_add(other)
    }

    open spec fn minus_spec(self, other: u16) -> u16 {
        self.wrapping_sub(other)
    }

    open spec fn times_spec(self, other: u16) -> u16 {
        self.wrapping_mul(other)
    }

    open spec fn quotient_spec(self, other: u16) -> u16 {
        self / other
    }

    open spec fn complement_spec(self) -> u16 {
        !self
    }

    open spec fn or_spec(self, other: u16) -> u16 {
        self | other
    }

    open spec fn and_spec(self, other: u16) -> u16 {
        self & other
    }

    open spec fn xor_spec(self, other: u16) -> u16 {
        self ^ other
    }

    proof fn lemma_total_order(a: u16, b: u16, c: u16) {
    }

    proof fn lemma_zero_is_not_one() {
    }

    fn zero() -> (r: u16) {
        0
    }

    fn one() -> (r: u16) {
        1
    }

    fn compare(&self, other: &u16) -> (r: Ordering) {
        if *self < *other {
            Ordering::Less
        } else if *self > *other {
            Ordering::Greater
        } else {
            Ordering::Equal
        }
    }

    fn plus(self, other: u16) -> (r: u16) {
        self.wrapping_add(other)
    }

    fn minus(self, other: u16) -> (r: u16) {
        self.wrapping_sub(other)
    }

    fn times(self, other: u16) -> (r: u16) {
        self.wrapping_mul(other)
    }

    fn quotient(self, other: u16) -> (r: u16) {
        self / other
    }

    fn complement(self) -> (r: u16) {
        !self
    }

    fn bit_or(self, other: u16) -> (r: u16) {
        self | other
    }

    fn bit_and(self, other: u16) -> (r: u16) {
        self & other
    }

    fn bit_xor(self, other: u16) -> (r: u16) {
        self ^ other
    }
}

impl Number for u32 {
    open spec fn zero_spec() -> u32 {
        0
    }

    open spec fn one_spec() -> u32 {
        1
    }

    open spec fn less(self, other: u32) -> bool {
        self < other
    }

    open spec fn plus_spec(self, other: u32) -> u32 {
        self.wrapping_add(other)
    }

    open spec fn minus_spec(self, other: u32) -> u32 {
        self.wrapping_sub(other)
    }

    open spec fn times_spec(self, other: u32) -> u32 {
        self.wrapping_mul(other)
    }

    open spec fn quotient_spec(self, other: u32) -> u32 {
        self / other
    }

    open spec fn complement_spec(self) -> u32 {
        !self
    }

    open spec fn or_spec(self, other: u32) -> u32 {
        self | other
    }

    open spec fn and_spec(self, other: u32) -> u32 {
        self & other
    }

    open spec fn xor_spec(self, other: u32) -> u32 {
        self ^ other
    }

    proof fn lemma_total_order(a: u32, b: u32, c: u32) {
    }

    proof fn lemma_zero_is_not_one() {
    }

    fn zero() -> (r: u32) {
        0
    }

    fn one() -> (r: u32) {
        1
    }

    fn compare(&self, other: &u32) -> (r: Ordering) {
        if *self < *other {
            Ordering::Less
        } else if *self > *other {
            Ordering::Greater
        } else {
            Ordering::Equal
        }
    }

    fn plus(self, other: u32) -> (r: u32) {
        self.wrapping_add(other)
    }

    fn minus(self, other: u32) -> (r: u32) {
        self.wrapping_sub(other)
    }

    fn times(self, other: u32) -> (r: u32) {
        self.wrapping_mul(other)
    }

    fn quotient(self, other: u32) -> (r: u32) {
        self / other
    }

    fn complement(self) -> (r: u32) {
        !self
    }

    fn bit_or(self, other: u32) -> (r: u32) {
        self | other
    }

    fn bit_and(self, other: u32) -> (r: u32) {
        self & other
    }

    fn bit_xor(self, other: u32) -> (r: u32) {
        self ^ other
    }
}

impl Number for u64 {
    open spec fn zero_spec() -> u64 {
        0
    }

    open spec fn one_spec() -> u64 {
        1
    }

    open spec fn less(self, other: u64) -> bool {
        self < other
    }

    open spec fn plus_spec(self, other: u64) -> u64 {
        self.wrapping_add(other)
    }

    open spec fn minus_spec(self, other: u64) -> u64 {
        self.wrapping_sub(other)
    }

    open spec fn times_spec(self, other: u64) -> u64 {
        self.wrapping_mul(other)
    }

    open spec fn quotient_spec(self, other: u64) -> u64 {
        self / other
    }

    open spec fn complement_spec(self) -> u64 {
        !self
    }

    open spec fn or_spec(self, other: u64) -> u64 {
        self | other
    }

    open spec fn and_spec(self, other: u64) -> u64 {
        self & other
    }

    open spec fn xor_spec(self, other: u64) -> u64 {
        self ^ other
    }

    proof fn lemma_total_order(a: u64, b: u64, c: u64) {
    }

    proof fn lemma_zero_is_not_one() {
    }

    fn zero() -> (r: u64) {
        0
    }

    fn one() -> (r: u64) {
        1
    }

    fn compare(&self, other: &u64) -> (r: Ordering) {
        if *self < *other {
            Ordering::Less
        } else if *self > *other {
            Ordering::Greater
        } else {
            Ordering::Equal
        }
    }

    fn plus(self, other: u64) -> (r: u64) {
        self.wrapping_add(other)
    }

    fn minus(self, other: u64) -> (r: u64) {
        self.wrapping_sub(other)
    }

    fn times(self, other: u64) -> (r: u64) {
        self.wrapping_mul(other)
    }

    fn quotient(self, other: u64) -> (r: u64) {
        self / other
    }

    fn complement(self) -> (r: u64) {
        !self
    }

    fn bit_or(self, other: u64) -> (r: u64) {
        self | other
    }

    fn bit_and(self, other: u64) -> (r: u64) {
        self & other
    }

    fn bit_xor(self, other: u64) -> (r: u64) {
        self ^ other
    }
}

impl Number for i128 {
    open spec fn zero_spec() -> i128 {
        0
    }

    open spec fn one_spec() -> i128 {
        1
    }

    open spec fn less(self, other: i128) -> bool {
        self < other
    }

    open spec fn plus_spec(self, other: i128) -> i128 {
        self.wrapping_add(other)
    }

    open spec fn minus_spec(self, other: i128) -> i128 {
        self.wrapping_sub(other)
    }

    open spec fn times_spec(self, other: i128) -> i128 {
        self.wrapping_mul(other)
    }

    open spec fn quotient_spec(self, other: i128) -> i128 {
        if other == -1 {
            (0 as i128).wrapping_sub(self)
        } else {
            truncated_quotient(self as int, other as int) as i128
        }
    }

    open spec fn complement_spec(self) -> i128 {
        !self
    }

    open spec fn or_spec(self, other: i128) -> i128 {
        self | other
    }

    open spec fn and_spec(self, other: i128) -> i128 {
        self & other
    }

    open spec fn xor_spec(self, other: i128) -> i128 {
        self ^ other
    }

    proof fn lemma_total_order(a: i128, b: i128, c: i128) {
    }

    proof fn lemma_zero_is_not_one() {
    }

    fn zero() -> (r: i128) {
        0
    }

    fn one() -> (r: i128) {
        1
    }

    fn compare(&self, other: &i128) -> (r: Ordering) {
        if *self < *other {
            Ordering::Less
        } else if *self > *other {
            Ordering::Greater
        } else {
            Ordering::Equal
        }
    }

    fn plus(self, other: i128) -> (r: i128) {
        self.wrapping_add(other)
    }

    fn minus(self, other: i128) -> (r: i128) {
        self.wrapping_sub(other)
    }

    fn times(self, other: i128) -> (r: i128) {
        self.wrapping_mul(other)
    }

    fn quotient(self, other: i128) -> (r: i128) {
        if other == -1 {
            (0 as i128).wrapping_sub(self)
        } else if other > 0 {
            self / other
        } else if other == i128::MIN {
            proof {
                if self != i128::MIN {
                    if self >= 0 {
                        lemma_small_quotient(self as int, -(other as int));
                    } else {
                        lemma_small_quotient(-(self as int), -(other as int));
                    }
                }
            }
            if self == i128::MIN {
                1
            } else {
                0
            }
        } else {
            let divisor = 0 - other;
            proof {
                if self >= 0 {
                    lemma_quotient_halves(self as int, divisor as int);
                } else {
                    lemma_quotient_halves(-(self as int), divisor as int);
                }
            }
            0 - self / divisor
        }
    }

    fn complement(self) -> (r: i128) {
        !self
    }

    fn bit_or(self, other: i128) -> (r: i128) {
        self | other
    }

    fn bit_and(self, other: i128) -> (r: i128) {
        self & other
    }

    fn bit_xor(self, other: i128) -> (r: i128) {
        self ^ other
    }
}

impl Number for u128 {
    open spec fn zero_spec() -> u128 {
        0
    }

    open spec fn one_spec() -> u128 {
        1
    }

    open spec fn less(self, other: u128) -> bool {
        self < other
    }

    open spec fn plus_spec(self, other: u128) -> u128 {
        self.wrapping_add(other)
    }

    open spec fn minus_spec(self, other: u128) -> u128 {
        self.wrapping_sub(other)
    }

    open spec fn times_spec(self, other: u128) -> u128 {
        self.wrapping_mul(other)
    }

    open spec fn quotient_spec(self, other: u128) -> u128 {
        self / other
    }

    open spec fn complement_spec(self) -> u128 {
        !self
    }

    open spec fn or_spec(self, other: u128) -> u128 {
        self | other
    }

    open spec fn and_spec(self, other: u128) -> u128 {
        self & other
    }

    open spec fn xor_spec(self, other: u128) -> u128 {
        self ^ other
    }

    proof fn lemma_total_order(a: u128, b: u128, c: u128) {
    }

    proof fn lemma_zero_is_not_one() {
    }

    fn zero() -> (r: u128) {
        0
    }

    fn one() -> (r: u128) {
        1
    }

    fn compare(&self, other: &u128) -> (r: Ordering) {
        if *self < *other {
            Ordering::Less
        } else if *self > *other {
            Ordering::Greater
        } else {
            Ordering::Equal
        }
    }

    fn plus(self, other: u128) -> (r: u128) {
        self.wrapping_add(other)
    }

    fn minus(self, other: u128) -> (r: u128) {
        self.wrapping_sub(other)
    }

    fn times(self, other: u128) -> (r: u128) {
        self.wrapping_mul(other)
    }

    fn quotient(self, other: u128) -> (r: u128) {
        self / other
    }

    fn complement(self) -> (r: u128) {
        !self
    }

    fn bit_or(self, other: u128) -> (r: u128) {
        self | other
    }

    fn bit_and(self, other: u128) -> (r: u128) {
        self & other
    }

    fn bit_xor(self, other: u128) -> (r: u128) {
        self ^ other
    }
}

} // verus!
