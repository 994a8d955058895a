use msc::plane::{ArrayPlane, Plane, VecPlane};
use msc::stack::{ArrayStack, Stack, VecStack};

#[test]
fn vec_empty() {
    let plane = VecPlane::<i8>::new(4, 4);
    assert_eq!(plane.get((0, 0)), Some(&0));
}

#[test]
fn vec_set_get() {
    let mut plane = VecPlane::<i8>::new(4, 4);
    *plane.get_mut((0, 0)).unwrap() = 5;
    assert_eq!(plane.get((0, 0)), Some(&5));
}

#[test]
fn vec_set2_get2() {
    let mut plane = VecPlane::<i8>::new(4, 4);
    *plane.get_mut((0, 0)).unwrap() = 5;
    *plane.get_mut((1, 1)).unwrap() = 5;
    assert_eq!(plane.get((0, 0)), Some(&5));
    assert_eq!(plane.get((1, 1)), Some(&5));
}

#[test]
fn vec_set_get2() {
    let mut plane = VecPlane::<i8>::new(4, 4);
    *plane.get_mut((0, 0)).unwrap() = 5;
    assert_eq!(plane.get((0, 0)), Some(&5));
    assert_eq!(plane.get((1, 1)), Some(&0));
}

#[test]
fn vec_get_out_of_range() {
    let mut plane = VecPlane::<i8>::new(4, 4);
    for pointer in [(4, 0), (5, 0), (0, 4), (0, 5), (4, 4), (5, 5), (usize::MAX, 0)] {
        assert_eq!(plane.get(pointer), None);
        assert!(plane.get_mut(pointer).is_none());
    }
}

#[test]
fn vec_from_rows_pads() {
    let plane = VecPlane::from_rows(vec![vec![1i8, 2, 3], vec![], vec![4]]);
    assert_eq!((plane.width(), plane.height()), (3, 3));
    assert_eq!(plane.get((2, 0)), Some(&3));
    assert_eq!(plane.get((0, 1)), Some(&0));
    assert_eq!(plane.get((0, 2)), Some(&4));
    assert_eq!(plane.get((2, 2)), Some(&0));
    assert_eq!(plane.get((3, 0)), None);
}

#[test]
fn array_empty() {
    let plane = ArrayPlane::<4, 4, i8>::new();
    assert_eq!(plane.get((0, 0)), Some(&0));
    assert_eq!((plane.width(), plane.height()), (4, 4));
}

#[test]
fn array_set_get() {
    let mut plane = ArrayPlane::<4, 4, i8>::new();
    *plane.get_mut((0, 0)).unwrap() = 5;
    assert_eq!(plane.get((0, 0)), Some(&5));
}

#[test]
fn array_set2_get2() {
    let mut plane = ArrayPlane::<4, 4, i8>::new();
    *plane.get_mut((0, 0)).unwrap() = 5;
    *plane.get_mut((1, 1)).unwrap() = 5;
    assert_eq!(plane.get((0, 0)), Some(&5));
    assert_eq!(plane.get((1, 1)), Some(&5));
}

#[test]
fn array_set_get2() {
    let mut plane = ArrayPlane::<4, 4, i8>::new();
    *plane.get_mut((0, 0)).unwrap() = 5;
    assert_eq!(plane.get((1, 1)), Some(&0));
}

#[test]
fn array_get_out_of_range() {
    let mut plane = ArrayPlane::<4, 4, i8>::new();
    for pointer in [(4, 0), (5, 0), (0, 4), (0, 5), (4, 4), (5, 5), (0, usize::MAX)] {
        assert_eq!(plane.get(pointer), None);
        assert!(plane.get_mut(pointer).is_none());
    }
}

#[test]
fn array_filled() {
    let plane = ArrayPlane::<2, 3, i8>::filled(7);
    assert_eq!(plane.get((1, 2)), Some(&7));
    assert_eq!(plane.get((2, 2)), None);
}

#[test]
fn vec_stack_empty() {
    let mut stack = VecStack::<i8>::new();
    assert_eq!(stack.pop(), None);
}

#[test]
fn vec_push_pop() {
    let mut stack = VecStack::<i8>::new();
    stack.push(5);
    assert_eq!(stack.pop(), Some(5));
}

#[test]
fn vec_push2_pop2() {
    let mut stack = VecStack::<i8>::new();
    stack.push(5);
    stack.push(10);
    assert_eq!(stack.pop(), Some(10));
    assert_eq!(stack.pop(), Some(5));
}

#[test]
fn vec_push_pop2() {
    let mut stack = VecStack::<i8>::new();
    stack.push(5);
    assert_eq!(stack.pop(), Some(5));
    assert_eq!(stack.pop(), None);
}

#[test]
fn vec_stack_has_no_small_limit() {
    let mut stack = VecStack::<u32>::new();
    for value in 0..10_000 {
        stack.push(value);
    }
    for value in (0..10_000).rev() {
        assert_eq!(stack.pop(), Some(value));
    }
    assert_eq!(stack.pop(), None);
}

#[test]
fn vec_extend_keeps_order() {
    let mut stack = VecStack::<i8>::new();
    stack.push(1);
    stack.extend(vec![2, 3]);
    assert_eq!(stack.to_vec(), vec![1, 2, 3]);
    assert_eq!(stack.pop(), Some(3));
}

#[test]
fn array_stack_empty() {
    let mut stack = ArrayStack::<3, i8>::new();
    assert_eq!(stack.pop(), None);
}

#[test]
fn array_push_pop() {
    let mut stack = ArrayStack::<3, i8>::new();
    stack.push(5);
    assert_eq!(stack.pop(), Some(5));
}

#[test]
fn array_push2_pop2() {
    let mut stack = ArrayStack::<3, i8>::new();
    stack.push(5);
    stack.push(10);
    assert_eq!(stack.pop(), Some(10));
    assert_eq!(stack.pop(), Some(5));
}

#[test]
fn array_push_pop2() {
    let mut stack = ArrayStack::<3, i8>::new();
    stack.push(5);
    assert_eq!(stack.pop(), Some(5));
    assert_eq!(stack.pop(), None);
}

#[test]
fn array_overflow() {
    let mut stack = ArrayStack::<3, i8>::new();
    for value in 1..=4 {
        stack.push(value);
    }
    assert_eq!(stack.pop(), Some(4));
    assert_eq!(stack.pop(), Some(3));
    assert_eq!(stack.pop(), Some(2));
    assert_eq!(stack.pop(), None);
}

#[test]
fn array_overflow_keeps_newest() {
    let mut stack = ArrayStack::<4, i32>::new();
    for value in 0..11 {
        stack.push(value);
    }
    for value in [10, 9, 8, 7] {
        assert_eq!(stack.pop(), Some(value));
    }
    assert_eq!(stack.pop(), None);
}

#[test]
fn array_pop_past_empty_then_push() {
    let mut stack = ArrayStack::<2, i32>::new();
    assert_eq!(stack.pop(), None);
    assert_eq!(stack.pop(), None);
    stack.push(1);
    stack.push(2);
    stack.push(3);
    assert_eq!(stack.pop(), Some(3));
    assert_eq!(stack.pop(), Some(2));
    assert_eq!(stack.pop(), None);
}

#[test]
fn capacity_one_stack() {
    let mut stack = ArrayStack::<1, i32>::new();
    stack.push(1);
    stack.push(2);
    assert_eq!(stack.pop(), Some(2));
    assert_eq!(stack.pop(), None);
}

#[test]
fn array_stack_default_is_empty() {
    let mut stack: ArrayStack<2, i8> = Default::default();
    assert_eq!(stack.pop(), None);
    stack.push(4);
    assert_eq!(stack.pop(), Some(4));
}

#[test]
fn array_plane_default() {
    let plane: ArrayPlane<3, 2, i8> = Default::default();
    assert_eq!((plane.width(), plane.height()), (3, 2));
    assert_eq!(plane.get((2, 1)), Some(&0));
    assert_eq!(plane.get((3, 0)), None);
}
