//! The instruction set and its character encoding.

use vstd::prelude::*;

use crate::{comparator::Comparator, deflector::Deflector, io::IO, operator::Operator};

verus! {

#[derive(Clone, Copy, Debug, PartialEq, Eq, Structural)]
pub enum Instruction {
    Space,
    Deflector(Deflector),
    Operator(Operator),
    Comparator(Comparator),
    IO(IO),
}

#[derive(Clone, Copy, Debug, PartialEq, Eq, Structural)]
pub enum IntoInstructionError {
    /// The character stands for no instruction.
    UnknownChar(char),
}

/// The instruction a character of program text stands for, if any.
pub open spec fn decoded(c: char) -> Option<Instruction> {
    match c {
        ' ' => Some(Instruction::Space),
        '>' => Some(Instruction::Deflector(Deflector::RightArrow)),
        '<' => Some(Instruction::Deflector(Deflector::LeftArrow)),
        'v' => Some(Instruction::Deflector(Deflector::DownArrow)),
        '^' => Some(Instruction::Deflector(Deflector::UpArrow)),
        'o' => Some(Instruction::Deflector(Deflector::OmniMirror)),
        '\\' => Some(Instruction::Deflector(Deflector::BackMirror)),
        '/' => Some(Instruction::Deflector(Deflector::ForwardMirror)),
        ',' => Some(Instruction::Operator(Operator::Push)),
        '.' => Some(Instruction::Operator(Operator::Pop)),
        'd' => Some(Instruction::Operator(Operator::Duplicate)),
        '+' => Some(Instruction::Operator(Operator::Add)),
        '-' => Some(Instruction::Operator(Operator::Subtract)),
        '*' => Some(Instruction::Operator(Operator::Multiply)),
        '~' => Some(Instruction::Operator(Operator::Divide)),
        '!' => Some(Instruction::Operator(Operator::Not)),
        '|' => Some(Instruction::Operator(Operator::Or)),
        '&' => Some(Instruction::Operator(Operator::And)),
        ':' => Some(Instruction::Operator(Operator::Xor)),
        'z' => Some(Instruction::Comparator(Comparator::Zero)),
        'c' => Some(Instruction::Comparator(Comparator::Stack)),
        'p' => Some(Instruction::IO(IO::Print)),
        'i' => Some(Instruction::IO(IO::Input)),
        _ => None,
    }
}

impl Instruction {
    pub open spec fn symbol(self) -> char {
        match self {
            Instruction::Space => ' ',
            Instruction::Deflector(deflector) => deflector.symbol(),
            Instruction::Operator(operator) => operator.symbol(),
            Instruction::Comparator(comparator) => comparator.symbol(),
            Instruction::IO(io) => io.symbol(),
        }
    }

    /// Decodes one character of program text.
    pub fn from_char(value: char) -> (r: Result<Instruction, IntoInstructionError>)
        ensures
            decoded(value) matches Some(instruction) ==> r == Ok::<Instruction, IntoInstructionError>(instruction),
            decoded(value) is None ==> r == Err::<Instruction, IntoInstructionError>(IntoInstructionError::UnknownChar(value)),
    {
        match value {
            ' ' => Ok(Instruction::Space),
            '>' => Ok(Instruction::Deflector(Deflector::RightArrow)),
            '<' => Ok(Instruction::Deflector(Deflector::LeftArrow)),
            'v' => Ok(Instruction::Deflector(Deflector::DownArrow)),
            '^' => Ok(Instruction::Deflector(Deflector::UpArrow)),
            'o' => Ok(Instruction::Deflector(Deflector::OmniMirror)),
            '\\' => Ok(Instruction::Deflector(Deflector::BackMirror)),
            '/' => Ok(Instruction::Deflector(Deflector::ForwardMirror)),
            ',' => Ok(Instruction::Operator(Operator::Push)),
            '.' => Ok(Instruction::Operator(Operator::Pop)),
            'd' => Ok(Instruction::Operator(Operator::Duplicate)),
            '+' => Ok(Instruction::Operator(Operator::Add)),
            '-' => Ok(Instruction::Operator(Operator::Subtract)),
            '*' => Ok(Instruction::Operator(Operator::Multiply)),
            '~' => Ok(Instruction::Operator(Operator::Divide)),
            '!' => Ok(Instruction::Operator(Operator::Not)),
            '|' => Ok(Instruction::Operator(Operator::Or)),
            '&' => Ok(Instruction::Operator(Operator::And)),
            ':' => Ok(Instruction::Operator(Operator::Xor)),
            'z' => Ok(Instruction::Comparator(Comparator::Zero)),
            'c' => Ok(Instruction::Comparator(Comparator::Stack)),
            'p' => Ok(Instruction::IO(IO::Print)),
            'i' => Ok(Instruction::IO(IO::Input)),
            _ => Err(IntoInstructionError::UnknownChar(value)),
        }
    }

    /// The character that stands for this instruction in program text.
    pub fn to_char(self) -> (c: char)
        ensures
            c == self.symbol(),
    {
        match self {
            Instruction::Space => ' ',
            Instruction::Deflector(deflector) => deflector.to_char(),
            Instruction::Operator(operator) => operator.to_char(),
            Instruction::Comparator(comparator) => comparator.to_char(),
            Instruction::IO(io) => io.to_char(),
        }
    }
}

impl Default for Instruction {
    /// The blank instruction, which does nothing.
    fn default() -> (r: Instruction)
        ensures
            r == Instruction::Space,
    {
        Instruction::Space
    }
}

/// Every instruction is written as a character that decodes back to it.
pub proof fn lemma_symbol_decodes(instruction: Instruction)
    ensures
        decoded(instruction.symbol()) == Some(instruction),
{
}

/// A character that decodes is the symbol of what it decodes to.
pub proof fn lemma_decoded_symbol(c: char)
    ensures
        decoded(c) matches Some(instruction) ==> instruction.symbol() == c,
{
}

impl From<Instruction> for char {
    fn from(value: Instruction) -> (c: char) {
        value.to_char()
    }
}

impl vstd::std_specs::convert::FromSpecImpl<Instruction> for char {
    open spec fn obeys_from_spec() -> bool {
        true
    }

    open spec fn from_spec(value: Instruction) -> char {
        value.symbol()
    }
}

} // verus!
