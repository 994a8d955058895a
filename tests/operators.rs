use msc::operator::Operator;
use msc::stack::{Stack, VecStack};
use msc::Number;

fn run<N: Number>(operator: Operator, register: N, stack: &[N]) -> (N, Vec<N>) {
    let mut s: VecStack<N> = VecStack::new();
    for value in stack {
        s.push(*value);
    }
    let register = operator.apply(register, &mut s);
    (register, s.to_vec())
}

#[test]
fn push_empty() {
    assert_eq!(run(Operator::Push, 5, &[]), (5, vec![5]));
}

#[test]
fn push_non_empty() {
    assert_eq!(run(Operator::Push, 5, &[10]), (5, vec![10, 5]));
}

#[test]
fn pop_empty() {
    assert_eq!(run(Operator::Pop, 5, &[]), (0, vec![]));
}

#[test]
fn pop_non_empty() {
    assert_eq!(run(Operator::Pop, 5, &[20, 10]), (10, vec![20]));
}

#[test]
fn duplicate_empty() {
    assert_eq!(run(Operator::Duplicate, 5, &[]), (5, vec![0]));
}

#[test]
fn duplicate_non_empty() {
    assert_eq!(run(Operator::Duplicate, 5, &[10]), (5, vec![10, 10]));
}

#[test]
fn add_empty() {
    assert_eq!(run(Operator::Add, 5, &[]), (5, vec![]));
}

#[test]
fn add_non_empty() {
    assert_eq!(run(Operator::Add, 5, &[20, 10]), (15, vec![20]));
}

#[test]
fn subtract_empty() {
    assert_eq!(run(Operator::Subtract, 5, &[]), (5, vec![]));
}

#[test]
fn subtract_non_empty() {
    assert_eq!(run(Operator::Subtract, 5, &[20, 10]), (-5, vec![20]));
}

#[test]
fn multiply_empty() {
    assert_eq!(run(Operator::Multiply, 5, &[]), (5, vec![]));
}

#[test]
fn multiply_non_empty() {
    assert_eq!(run(Operator::Multiply, 5, &[20, 10]), (50, vec![20]));
}

#[test]
fn divide_empty() {
    assert_eq!(run(Operator::Divide, 5, &[]), (5, vec![]));
}

#[test]
fn divide_non_empty() {
    assert_eq!(run(Operator::Divide, 10, &[20, 2]), (5, vec![20]));
}

#[test]
fn divide_zero() {
    assert_eq!(run(Operator::Divide, 5, &[0]), (5, vec![]));
}

#[test]
fn divide_by_declared_zero_keeps_register() {
    assert_eq!(run(Operator::Divide, 10, &[0]), (10, vec![]));
}

#[test]
fn divide_rounds_toward_zero() {
    assert_eq!(run(Operator::Divide, -7, &[2]), (-3, vec![]));
    assert_eq!(run(Operator::Divide, 7, &[-2]), (-3, vec![]));
    assert_eq!(run(Operator::Divide, -7, &[-2]), (3, vec![]));
}

#[test]
fn divide_wraps_at_the_minimum() {
    assert_eq!(run(Operator::Divide, i32::MIN, &[-1]), (i32::MIN, vec![]));
    assert_eq!(run(Operator::Divide, i32::MIN, &[i32::MIN]), (1, vec![]));
    assert_eq!(run(Operator::Divide, 5, &[i32::MIN]), (0, vec![]));
}

#[test]
fn add_wraps() {
    assert_eq!(run(Operator::Add, i32::MAX, &[1]), (i32::MIN, vec![]));
    assert_eq!(run(Operator::Add, 250u8, &[10]), (4, vec![]));
}

#[test]
fn multiply_wraps() {
    assert_eq!(run(Operator::Multiply, 16u8, &[16]), (0, vec![]));
}

#[test]
fn not() {
    assert_eq!(run(Operator::Not, 0b01100011u8, &[]), (0b10011100, vec![]));
}

#[test]
fn or_empty() {
    assert_eq!(run(Operator::Or, 0b00111100u8, &[]), (0b00111100, vec![]));
}

#[test]
fn or_non_empty() {
    assert_eq!(run(Operator::Or, 0b00111100u8, &[0b10000000, 0b10101010]), (0b10111110, vec![0b10000000]));
}

#[test]
fn and_empty() {
    assert_eq!(run(Operator::And, 0b00111100u8, &[]), (0b00000000, vec![]));
}

#[test]
fn and_non_empty() {
    assert_eq!(run(Operator::And, 0b00111100u8, &[0b10000000, 0b10101010]), (0b00101000, vec![0b10000000]));
}

#[test]
fn xor() {
    assert_eq!(run(Operator::Xor, 0b00111100u8, &[]), (0b00111100, vec![]));
}

#[test]
fn xor_non_empty() {
    assert_eq!(run(Operator::Xor, 0b00111100u8, &[0b10000000, 0b10101010]), (0b10010110, vec![0b10000000]));
}

#[test]
fn operators_on_wider_types() {
    assert_eq!(run(Operator::Subtract, 0u64, &[1]), (u64::MAX, vec![]));
    assert_eq!(run(Operator::Multiply, -3i64, &[4]), (-12, vec![]));
    assert_eq!(run(Operator::Divide, -9i8, &[2]), (-4, vec![]));
    assert_eq!(run(Operator::Divide, i16::MIN, &[-1]), (i16::MIN, vec![]));
    assert_eq!(run(Operator::Xor, 0xF0F0u16, &[0xFFFF]), (0x0F0F, vec![]));
    assert_eq!(run(Operator::Not, 0u32, &[]), (u32::MAX, vec![]));
}

#[test]
fn wide_integers_wrap() {
    assert_eq!(run(Operator::Add, i128::MAX, &[1]), (i128::MIN, vec![]));
    assert_eq!(run(Operator::Divide, i128::MIN, &[-1]), (i128::MIN, vec![]));
    assert_eq!(run(Operator::Divide, -7i128, &[2]), (-3, vec![]));
    assert_eq!(run(Operator::Subtract, 0u128, &[1]), (u128::MAX, vec![]));
    assert_eq!(run(Operator::Multiply, u128::MAX, &[2]), (u128::MAX - 1, vec![]));
}
