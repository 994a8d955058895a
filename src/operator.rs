//! Instructions that compute with the register and the current stack.

use vstd::prelude::*;

use crate::{
    number::Number,
    stack::{popped, top_or, Stack},
};

verus! {

#[derive(Clone, Copy, Debug, PartialEq, Eq, Structural)]
pub enum Operator {
    Push,
    Pop,
    Duplicate,
    Add,
    Subtract,
    Multiply,
    Divide,
    Not,
    Or,
    And,
    Xor,
}

/// The divisor actually used: a zero divisor counts as one.
pub open spec fn nonzero_divisor<N: Number>(divisor: N) -> N {
    if divisor == N::zero_spec() {
        N::one_spec()
    } else {
        divisor
    }
}

impl Operator {
    /// The register and the stack's values after the operator runs on
    /// `register` and a stack holding `items`. An empty stack gives zero to
    /// pop, add, subtract and the bit operations, and one to multiply and
    /// divide.
    pub open spec fn operated<N: Number, S: Stack<Item = N>>(self, register: N, items: Seq<N>) -> (N, Seq<N>) {
        let zero = N::zero_spec();
        let one = N::one_spec();
        match self {
            Operator::Push => (register, S::pushed(items, register)),
            Operator::Pop => (top_or(items, zero), popped(items)),
            Operator::Duplicate => if items.len() == 0 {
                (register, S::pushed(items, zero))
            } else {
                (register, S::pushed(S::pushed(items.drop_last(), items.last()), items.last()))
            },
            Operator::Add => (register.plus_spec(top_or(items, zero)), popped(items)),
            Operator::Subtract => (register.minus_spec(top_or(items, zero)), popped(items)),
            Operator::Multiply => (register.times_spec(top_or(items, one)), popped(items)),
            Operator::Divide => (register.quotient_spec(nonzero_divisor(top_or(items, one))), popped(items)),
            Operator::Not => (register.complement_spec(), items),
            Operator::Or => (register.or_spec(top_or(items, zero)), popped(items)),
            Operator::And => (register.and_spec(top_or(items, zero)), popped(items)),
            Operator::Xor => (register.xor_spec(top_or(items, zero)), popped(items)),
        }
    }

    pub open spec fn symbol(self) -> char {
        match self {
            Operator::Push => ',',
            Operator::Pop => '.',
            Operator::Duplicate => 'd',
            Operator::Add => '+',
            Operator::Subtract => '-',
            Operator::Multiply => '*',
            Operator::Divide => '~',
            Operator::Not => '!',
            Operator::Or => '|',
            Operator::And => '&',
            Operator::Xor => ':',
        }
    }

    /// Runs the operator; returns the new register value.
    pub fn apply<N: Number, StackType: Stack<Item = N>>(self, register: N, stack: &mut StackType) -> (r: N)
        requires
            old(stack).wf(),
        ensures
            final(stack).wf(),
            (r, final(stack).items()) == self.operated::<N, StackType>(register, old(stack).items()),
    {
        match self {
            Operator::Push => {
                stack.push(register);
                register
            },
            Operator::Pop => pop_or(stack, N::zero()),
            Operator::Duplicate => {
                let value = match stack.pop() {
                    Some(value) => {
                        stack.push(value);
                        value
                    },
                    None => N::zero(),
                };
                stack.push(value);
                register
            },
            Operator::Add => register.plus(pop_or(stack, N::zero())),
            Operator::Subtract => register.minus(pop_or(stack, N::zero())),
            Operator::Multiply => register.times(pop_or(stack, N::one())),
            Operator::Divide => {
                let mut rhs = pop_or(stack, N::one());
                let zero = N::zero();
                if let core::cmp::Ordering::Equal = rhs.compare(&zero) {
                    rhs = N::one();
                }
                proof {
                    N::lemma_zero_is_not_one();
                }
                register.quotient(rhs)
            },
            Operator::Not => register.complement(),
            Operator::Or => register.bit_or(pop_or(stack, N::zero())),
            Operator::And => register.bit_and(pop_or(stack, N::zero())),
            Operator::Xor => register.bit_xor(pop_or(stack, N::zero())),
        }
    }

    /// The character that stands for this operator in program text.
    pub fn to_char(self) -> (c: char)
        ensures
            c == self.symbol(),
    {
        match self {
            Operator::Push => ',',
            Operator::Pop => '.',
            Operator::Duplicate => 'd',
            Operator::Add => '+',
            Operator::Subtract => '-',
            Operator::Multiply => '*',
            Operator::Divide => '~',
            Operator::Not => '!',
            Operator::Or => '|',
            Operator::And => '&',
            Operator::Xor => ':',
        }
    }
}

/// Pops the top of `stack`, or gives `default` when it is empty.
fn pop_or<N: Number, StackType: Stack<Item = N>>(stack: &mut StackType, default: N) -> (r: N)
    requires
        old(stack).wf(),
    ensures
        final(stack).wf(),
        r == top_or(old(stack).items(), default),
        final(stack).items() == popped(old(stack).items()),
{
    match stack.pop() {
        Some(value) => value,
        None => default,
    }
}

impl From<Operator> for char {
    fn from(value: Operator) -> (c: char) {
        value.to_char()
    }
}

impl vstd::std_specs::convert::FromSpecImpl<Operator> for char {
    open spec fn obeys_from_spec() -> bool {
        true
    }

    open spec fn from_spec(value: Operator) -> char {
        value.symbol()
    }
}

} // verus!
