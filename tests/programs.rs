use std::num::{ParseIntError, TryFromIntError};

use msc::fixed;
use msc::instruction::{Instruction, IntoInstructionError};
use msc::load::{self, from_str, parse_line, Error};
use msc::machine::{Machine, State};
use msc::plane::{Plane, VecPlane};
use msc::stack::{Stack, VecStack};

fn parse_i32(text: &str) -> Result<i32, ParseIntError> {
    text.parse()
}

fn to_index(value: i32) -> Result<usize, TryFromIntError> {
    value.try_into()
}

fn load(source: &str) -> load::Machine<i32> {
    match from_str(source, &parse_i32) {
        Ok(machine) => machine,
        Err(_) => panic!("the program should load"),
    }
}

fn load_error(source: &str) -> Error<ParseIntError> {
    match from_str(source, &parse_i32) {
        Ok(_) => panic!("the program should not load"),
        Err(error) => error,
    }
}

/// Steps until the machine stops or waits, collecting what it prints.
fn run(machine: &mut load::Machine<i32>, limit: usize) -> Vec<i32> {
    let mut outputs = Vec::new();
    for _ in 0..limit {
        if machine.get_state() != State::Running {
            break;
        }
        if let Some(value) = machine.step() {
            outputs.push(*value);
        }
    }
    outputs
}

#[test]
fn print_then_halt() {
    let mut machine = load("p");
    assert_eq!(machine.get_register(), 0);
    assert_eq!(machine.step().copied(), Some(0));
    assert_eq!(machine.get_state(), State::Running);
    assert_eq!(machine.get_pointer(), (1, 0));
    assert_eq!(machine.step(), None);
    assert_eq!(machine.get_state(), State::Stopped);
    assert_eq!(machine.step(), None);
    assert_eq!(machine.get_state(), State::Stopped);
}

#[test]
fn push_then_print() {
    let mut machine = load(",p");
    assert_eq!(run(&mut machine, 10), vec![0]);
    assert_eq!(machine.get_state(), State::Stopped);
}

#[test]
fn declared_stack_then_pop() {
    let mut machine = load("s 0 0 5 10\n.");
    assert_eq!(machine.step(), None);
    assert_eq!(machine.get_register(), 10);
    assert_eq!(machine.step(), None);
    assert_eq!(machine.get_state(), State::Stopped);
}

#[test]
fn declared_zero_divisor_counts_as_one() {
    let mut machine = load("s 0 0 0 10\n.~p");
    assert_eq!(run(&mut machine, 10), vec![10]);
}

#[test]
fn moving_left_from_column_zero_stops() {
    let mut machine = load("<");
    assert_eq!(machine.step(), None);
    assert_eq!(machine.get_pointer(), (usize::MAX, 0));
    assert_eq!(machine.get_state(), State::Running);
    assert_eq!(machine.step(), None);
    assert_eq!(machine.get_state(), State::Stopped);
    assert_eq!(machine.get_pointer(), (usize::MAX, 0));
}

#[test]
fn input_waits_and_resumes() {
    let mut machine = load("ip");
    assert_eq!(machine.step(), None);
    assert_eq!(machine.get_state(), State::InputWaiting);
    assert_eq!(machine.get_pointer(), (1, 0));
    assert_eq!(machine.step(), None);
    assert_eq!(machine.get_pointer(), (1, 0));
    machine.input(42);
    assert_eq!(machine.get_state(), State::Running);
    assert_eq!(machine.step().copied(), Some(42));
}

#[test]
fn input_ignored_unless_waiting() {
    let mut machine = load("p");
    machine.input(7);
    assert_eq!(machine.get_register(), 0);
    assert_eq!(machine.get_state(), State::Running);
}

#[test]
fn comments_and_short_rows() {
    let mut machine = load("# a comment\nv # moving down\n\n\n> p");
    assert_eq!(run(&mut machine, 20), vec![0]);
    assert_eq!(machine.get_state(), State::Stopped);
}

#[test]
fn windows_line_endings() {
    let mut machine = load("s 0 0 3\r\n.p\r\n");
    assert_eq!(run(&mut machine, 10), vec![3]);
}

#[test]
fn stacks_are_shared_by_blocks() {
    // Columns 0 to 3 share stack (0, 0): the pop at column 2 takes back the
    // zero pushed at column 0. Column 4 is the first of stack (1, 0).
    let mut machine = load("s 0 0 9\n,!.p");
    assert_eq!(run(&mut machine, 20), vec![0]);
    let mut machine = load("s 1 0 9\n,!  .p");
    assert_eq!(run(&mut machine, 20), vec![9]);
}

#[test]
fn loading_twice_gives_the_same_machine() {
    let mut a = load("s 0 0 1 2\n.+p");
    let mut b = load("s 0 0 1 2\n.+p");
    assert_eq!(run(&mut a, 10), run(&mut b, 10));
}

#[test]
fn unknown_instruction_error() {
    assert!(matches!(load_error("p\n x"), Error::InvalidInstruction(IntoInstructionError::UnknownChar('x'))));
}

#[test]
fn comment_ends_a_row() {
    let mut machine = load("p# x is no instruction here");
    assert_eq!(run(&mut machine, 10), vec![0]);
}

#[test]
fn invalid_number_error() {
    assert!(matches!(load_error("s 0 0 5 five"), Error::InvalidNumber(_)));
}

#[test]
fn invalid_coordinate_error() {
    match load_error("s -1 0 5") {
        Error::InvalidCoordinate(text) => assert_eq!(text, "-1"),
        _ => panic!("expected an invalid coordinate"),
    }
    match load_error("s 0 y 5") {
        Error::InvalidCoordinate(text) => assert_eq!(text, "y"),
        _ => panic!("expected an invalid coordinate"),
    }
}

#[test]
fn plus_sign_coordinate() {
    let mut machine = load("s +0 0 4\n.p");
    assert_eq!(run(&mut machine, 10), vec![4]);
}

#[test]
fn stack_pointer_out_of_range_error() {
    assert!(matches!(load_error("s 1 0 5\np"), Error::StackPointerOutOfRange((1, 0))));
    assert!(matches!(load_error("s 0 0 5"), Error::StackPointerOutOfRange((0, 0))));
}

#[test]
fn missing_stack_pointer_error() {
    match load_error("s 0 # only one coordinate") {
        Error::MissingStackPointer(line) => assert_eq!(line, "s 0 # only one coordinate"),
        _ => panic!("expected a missing stack pointer"),
    }
}

#[test]
fn parse_line_kinds() {
    let mut rows: Vec<Vec<Instruction>> = Vec::new();
    let mut declarations: Vec<(usize, usize, Vec<i32>)> = Vec::new();
    assert!(parse_line("# comment", &mut rows, &mut declarations, &parse_i32).is_ok());
    assert!(rows.is_empty() && declarations.is_empty());
    assert!(parse_line("s 1 2 3 4 # rest", &mut rows, &mut declarations, &parse_i32).is_ok());
    assert_eq!(declarations, vec![(1, 2, vec![3, 4])]);
    assert!(parse_line("", &mut rows, &mut declarations, &parse_i32).is_ok());
    assert!(parse_line("p.", &mut rows, &mut declarations, &parse_i32).is_ok());
    assert_eq!(rows.len(), 2);
    assert!(rows[0].is_empty());
    assert_eq!(rows[1][0].to_char(), 'p');
    assert_eq!(rows[1][1].to_char(), '.');
}

#[test]
fn create_stacks_sizes_and_contents() {
    let plane = VecPlane::from_rows(vec![vec![Instruction::Space; 5]]);
    let stacks = load::create_stacks::<i32, ParseIntError>(vec![(1, 0, vec![1, 2]), (1, 0, vec![3])], &plane);
    let mut stacks = match stacks {
        Ok(stacks) => stacks,
        Err(_) => panic!("in range"),
    };
    assert_eq!((stacks.width(), stacks.height()), (2, 1));
    let stack = stacks.get_mut((1, 0)).unwrap();
    assert_eq!(stack.pop(), Some(3));
    assert_eq!(stack.pop(), Some(2));
    assert_eq!(stack.pop(), Some(1));
}

#[test]
fn machine_new_starts_running() {
    let instructions = VecPlane::from_rows(vec![vec![Instruction::Space]]);
    let stacks: VecPlane<VecStack<i32>> = VecPlane::new(1, 1);
    let machine = Machine::new(instructions, stacks);
    assert_eq!(machine.get_state(), State::Running);
    assert_eq!(machine.get_pointer(), (0, 0));
    assert_eq!(machine.get_register(), 0);
}

const FIXED_PROGRAM: &str = "#
s 0 0 1
s 1 1 100
>+  ,v

  >   .v
  ,
  ^. < d
^,    pc
#";

#[test]
fn fixed_program_runs() {
    let built = fixed::from_str::<i32, 8, 6, 2, 2, 2, _, _, _, _>(FIXED_PROGRAM, &parse_i32, &to_index);
    let mut machine = match built {
        Ok(machine) => machine,
        Err(_) => panic!("the program should build"),
    };
    let mut outputs = Vec::new();
    for _ in 0..200 {
        if machine.get_state() != State::Running {
            break;
        }
        if let Some(value) = machine.step() {
            outputs.push(*value);
        }
    }
    assert!(!outputs.is_empty());
    assert_eq!(outputs[0], 1);
}

#[test]
fn fixed_print_then_halt() {
    let built = fixed::from_str::<i32, 1, 1, 1, 1, 1, _, _, _, _>("p", &parse_i32, &to_index);
    let mut machine = match built {
        Ok(machine) => machine,
        Err(_) => panic!("the program should build"),
    };
    assert_eq!(machine.step().copied(), Some(0));
    assert_eq!(machine.step(), None);
    assert_eq!(machine.get_state(), State::Stopped);
}

#[test]
fn fixed_ring_stack_keeps_newest() {
    let built = fixed::from_str::<i32, 4, 1, 2, 1, 1, _, _, _, _>("s 0 0 1 2 3\n..p", &parse_i32, &to_index);
    let mut machine = match built {
        Ok(machine) => machine,
        Err(_) => panic!("the program should build"),
    };
    let mut outputs = Vec::new();
    for _ in 0..10 {
        if let Some(value) = machine.step() {
            outputs.push(*value);
        }
    }
    assert_eq!(outputs, vec![2]);
}

#[test]
fn fixed_instruction_out_of_range() {
    let built = fixed::from_str::<i32, 2, 1, 1, 1, 1, _, _, _, _>("pp.", &parse_i32, &to_index);
    assert!(matches!(built, Err(fixed::Error::InstructionOutOfRange((3, 0), '.'))));
    let built = fixed::from_str::<i32, 2, 1, 1, 1, 1, _, _, _, _>("p\np", &parse_i32, &to_index);
    assert!(matches!(built, Err(fixed::Error::InstructionOutOfRange((1, 1), 'p'))));
}

#[test]
fn fixed_unknown_instruction() {
    let built = fixed::from_str::<i32, 2, 1, 1, 1, 1, _, _, _, _>("px", &parse_i32, &to_index);
    assert!(matches!(built, Err(fixed::Error::InvalidInstruction(IntoInstructionError::UnknownChar('x')))));
}

#[test]
fn fixed_stack_errors() {
    let built = fixed::from_str::<i32, 4, 4, 1, 1, 1, _, _, _, _>("s 0", &parse_i32, &to_index);
    assert!(matches!(built, Err(fixed::Error::MissingStackPointer)));
    let built = fixed::from_str::<i32, 4, 4, 1, 1, 1, _, _, _, _>("s 0 1", &parse_i32, &to_index);
    assert!(matches!(built, Err(fixed::Error::StackPointerOutOfRange((0, 1)))));
    let built = fixed::from_str::<i32, 4, 4, 1, 1, 1, _, _, _, _>("s -1 0", &parse_i32, &to_index);
    assert!(matches!(built, Err(fixed::Error::InvalidCoordinate(_))));
    let built = fixed::from_str::<i32, 4, 4, 1, 1, 1, _, _, _, _>("s 0 0 x", &parse_i32, &to_index);
    assert!(matches!(built, Err(fixed::Error::InvalidNumber(_))));
}

#[test]
fn lone_carriage_return_is_kept() {
    assert!(matches!(
        load_error("p\r"),
        Error::InvalidInstruction(IntoInstructionError::UnknownChar('\r'))
    ));
    assert!(matches!(
        load_error("p\r\np\r"),
        Error::InvalidInstruction(IntoInstructionError::UnknownChar('\r'))
    ));
}

#[test]
fn first_failing_line_decides() {
    assert!(matches!(
        load_error("x\ns 0"),
        Error::InvalidInstruction(IntoInstructionError::UnknownChar('x'))
    ));
    assert!(matches!(load_error("s 0\nx"), Error::MissingStackPointer(line) if line == "s 0"));
    assert!(matches!(load_error("s 9 9\ns 0 0 x"), Error::InvalidNumber(_)));
    assert!(matches!(load_error("s 0 0 1\ns 5 0\ns 0 7\np"), Error::StackPointerOutOfRange((5, 0))));
}

#[test]
fn fixed_loads_without_stack_lines() {
    let built = fixed::from_str::<i32, 2, 2, 1, 1, 1, _, _, _, _>("p\n# note\n.", &parse_i32, &to_index);
    assert!(built.is_ok());
}
