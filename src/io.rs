//! Instructions for input and output.

use vstd::prelude::*;

verus! {

#[derive(Clone, Copy, Debug, PartialEq, Eq, Structural)]
pub enum IO {
    Print,
    Input,
}

impl IO {
    pub open spec fn symbol(self) -> char {
        match self {
            IO::Print => 'p',
            IO::Input => 'i',
        }
    }

    /// Returns the value to output, if any, and whether the machine must
    /// now wait for input.
    pub fn apply<N>(self, register: &N) -> (r: (Option<&N>, bool))
        ensures
            self == IO::Print ==> r == (Some(register), false),
            self == IO::Input ==> r == (Option::<&N>::None, true),
    {
        match self {
            IO::Print => (Some(register), false),
            IO::Input => (None, true),
        }
    }

    /// The character that stands for this instruction in program text.
    pub fn to_char(self) -> (c: char)
        ensures
            c == self.symbol(),
    {
        match self {
            IO::Print => 'p',
            IO::Input => 'i',
        }
    }
}

impl From<IO> for char {
    fn from(value: IO) -> (c: char) {
        value.to_char()
    }
}

impl vstd::std_specs::convert::FromSpecImpl<IO> for char {
    open spec fn obeys_from_spec() -> bool {
        true
    }

    open spec fn from_spec(value: IO) -> char {
        value.symbol()
    }
}

} // verus!
