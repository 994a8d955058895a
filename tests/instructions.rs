use msc::add_velocity_to_pointer;
use msc::comparator::Comparator;
use msc::deflector::Deflector;
use msc::instruction::{Instruction, IntoInstructionError};
use msc::io::IO;
use msc::operator::Operator;
use msc::stack::{Stack, VecStack};

fn arrow_case(arrow: Deflector, expected: u8) {
    for velocity in 0..4 {
        assert_eq!(arrow.apply(velocity), expected, "{velocity:0>2b}");
    }
}

#[test]
fn arrow_right() {
    arrow_case(Deflector::RightArrow, 0b00);
}

#[test]
fn arrow_left() {
    arrow_case(Deflector::LeftArrow, 0b01);
}

#[test]
fn arrow_down() {
    arrow_case(Deflector::DownArrow, 0b10);
}

#[test]
fn arrow_up() {
    arrow_case(Deflector::UpArrow, 0b11);
}

fn mirror_case(mirror: Deflector, cases: [(u8, u8); 4]) {
    for (velocity, expected) in cases {
        assert_eq!(mirror.apply(velocity), expected, "{velocity:0>2b}");
    }
}

#[test]
fn mirror_omni() {
    mirror_case(Deflector::OmniMirror, [(0b00, 0b01), (0b01, 0b00), (0b10, 0b11), (0b11, 0b10)]);
}

#[test]
fn mirror_forward() {
    mirror_case(Deflector::ForwardMirror, [(0b00, 0b11), (0b01, 0b10), (0b10, 0b01), (0b11, 0b00)]);
}

#[test]
fn mirror_back() {
    mirror_case(Deflector::BackMirror, [(0b00, 0b10), (0b01, 0b11), (0b10, 0b00), (0b11, 0b01)]);
}

#[test]
fn mirrors_undo_themselves() {
    for mirror in [Deflector::OmniMirror, Deflector::ForwardMirror, Deflector::BackMirror] {
        for velocity in 0..4 {
            assert_eq!(mirror.apply(mirror.apply(velocity)), velocity);
        }
    }
}

fn compare_case(comparator: Comparator, register: i32, stack_top: Option<i32>, cases: [(u8, u8); 4]) {
    for (velocity, expected) in cases {
        let mut stack: VecStack<i32> = VecStack::new();
        if let Some(top) = stack_top {
            stack.push(top);
        }
        assert_eq!(comparator.apply(&register, &mut stack, velocity), expected, "{velocity:0>2b}");
        if comparator == Comparator::Stack {
            assert_eq!(stack.pop(), None);
        } else {
            assert_eq!(stack.pop(), stack_top);
        }
    }
}

#[test]
fn zero_less() {
    compare_case(Comparator::Zero, -1, None, [(0b00, 0b10), (0b01, 0b11), (0b10, 0b01), (0b11, 0b00)]);
}

#[test]
fn zero_equal() {
    compare_case(Comparator::Zero, 0, None, [(0b00, 0b00), (0b01, 0b01), (0b10, 0b10), (0b11, 0b11)]);
}

#[test]
fn zero_greater() {
    compare_case(Comparator::Zero, 1, None, [(0b00, 0b11), (0b01, 0b10), (0b10, 0b00), (0b11, 0b01)]);
}

#[test]
fn stack_less() {
    compare_case(Comparator::Stack, 2, Some(5), [(0b00, 0b10), (0b01, 0b11), (0b10, 0b01), (0b11, 0b00)]);
}

#[test]
fn stack_equal() {
    compare_case(Comparator::Stack, 5, Some(5), [(0b00, 0b00), (0b01, 0b01), (0b10, 0b10), (0b11, 0b11)]);
}

#[test]
fn stack_greater() {
    compare_case(Comparator::Stack, 8, Some(5), [(0b00, 0b11), (0b01, 0b10), (0b10, 0b00), (0b11, 0b01)]);
}

#[test]
fn stack_compare_empty_uses_zero() {
    compare_case(Comparator::Stack, -3, None, [(0b00, 0b10), (0b01, 0b11), (0b10, 0b01), (0b11, 0b00)]);
}

#[test]
fn turns_cancel() {
    for velocity in 0..4u8 {
        let mut stack: VecStack<i32> = VecStack::new();
        let turned = Comparator::Zero.apply(&-1, &mut stack, velocity);
        assert_eq!(Comparator::Zero.apply(&1, &mut stack, turned), velocity);
        let turned = Comparator::Zero.apply(&1, &mut stack, velocity);
        assert_eq!(Comparator::Zero.apply(&-1, &mut stack, turned), velocity);
    }
}

#[test]
fn print() {
    let register = 5;
    let (output, input_wait) = IO::Print.apply(&register);
    assert!(matches!(output, Some(&new_register) if new_register == 5));
    assert!(!input_wait);
}

#[test]
fn input() {
    let register = 5;
    let (output, input_wait) = IO::Input.apply(&register);
    assert!(output.is_none());
    assert!(input_wait);
}

fn advance_case(pointer: (usize, usize), cases: [(u8, (usize, usize)); 4]) {
    for (velocity, expected) in cases {
        assert_eq!(add_velocity_to_pointer(velocity, pointer), expected, "{velocity:0>2b}");
    }
}

#[test]
fn from_non_zero() {
    advance_case((5, 5), [(0b00, (6, 5)), (0b01, (4, 5)), (0b10, (5, 6)), (0b11, (5, 4))]);
}

#[test]
fn from_zero() {
    advance_case((0, 0), [(0b00, (1, 0)), (0b01, (usize::MAX, 0)), (0b10, (0, 1)), (0b11, (0, usize::MAX))]);
}

#[test]
fn from_max() {
    advance_case(
        (usize::MAX, usize::MAX),
        [
            (0b00, (0, usize::MAX)),
            (0b01, (usize::MAX - 1, usize::MAX)),
            (0b10, (usize::MAX, 0)),
            (0b11, (usize::MAX, usize::MAX - 1)),
        ],
    );
}

#[test]
fn left_from_column_zero_wraps() {
    assert_eq!(add_velocity_to_pointer(0b01, (0, 5)), (usize::MAX, 5));
}

const ALL_SYMBOLS: &str = " ><v^o/\\,.d+-*~!|&:zcpi";

#[test]
fn every_symbol_round_trips() {
    for c in ALL_SYMBOLS.chars() {
        let instruction = Instruction::from_char(c).unwrap();
        assert_eq!(instruction.to_char(), c);
    }
}

#[test]
fn symbol_table() {
    assert_eq!(Instruction::from_char(' '), Ok(Instruction::Space));
    assert_eq!(Instruction::from_char('o'), Ok(Instruction::Deflector(Deflector::OmniMirror)));
    assert_eq!(Instruction::from_char('~'), Ok(Instruction::Operator(Operator::Divide)));
    assert_eq!(Instruction::from_char(':'), Ok(Instruction::Operator(Operator::Xor)));
    assert_eq!(Instruction::from_char('c'), Ok(Instruction::Comparator(Comparator::Stack)));
    assert_eq!(Instruction::from_char('i'), Ok(Instruction::IO(IO::Input)));
}

#[test]
fn unknown_symbol() {
    assert_eq!(Instruction::from_char('x'), Err(IntoInstructionError::UnknownChar('x')));
    assert_eq!(Instruction::from_char('#'), Err(IntoInstructionError::UnknownChar('#')));
}

#[test]
fn default_instruction_is_blank() {
    assert_eq!(Instruction::default(), Instruction::Space);
}

#[test]
fn instructions_convert_to_char() {
    assert_eq!(char::from(Instruction::Space), ' ');
    assert_eq!(char::from(Instruction::Deflector(Deflector::BackMirror)), '\\');
    let c: char = Deflector::ForwardMirror.into();
    assert_eq!(c, '/');
    assert_eq!(char::from(Operator::Not), '!');
    assert_eq!(char::from(Comparator::Zero), 'z');
    assert_eq!(char::from(IO::Print), 'p');
}
