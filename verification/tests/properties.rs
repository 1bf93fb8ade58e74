//! Concrete checks of the stated behaviour: argument exchange, agreement at
//! the zero identity, round trips through opposite orders, the discriminant
//! defaulting rule, modular narrowing, and label rendering.

use std::collections::{HashMap, HashSet};

use dispatch_tags::labels::{fmt_u64, ProgramLanguage};
use dispatch_tags::tags::{assign_tags, wrap_u8, HttpStatusCode, SchedulerState};
use dispatch_tags::{ascending, calculator, descending, sorter, sub, sum};

#[test]
fn exchanged_arguments_for_addition_agree() {
    let op1: fn(i32, i32) -> i32 = sum;
    let op2: fn(i32, i32) -> i32 = sum;
    assert_eq!(op1, op2);
    assert_eq!(op1(17, 25), op2(25, 17));
    assert_eq!(calculator(-4, 9, op1), calculator(9, -4, op2));
}

#[test]
fn exchanged_arguments_for_subtraction_flip_sign() {
    let op1: fn(i32, i32) -> i32 = sub;
    let op2: fn(i32, i32) -> i32 = sub;
    assert_eq!(op1, op2);
    assert_eq!(op1(17, 25), -op2(25, 17));
    assert_eq!(calculator(5, 3, sub), 2);
    assert_eq!(calculator(3, 5, sub), -2);
}

#[test]
fn calculator_delegates_exactly() {
    assert_eq!(calculator(1, 2, sum), 3);
    assert_eq!(calculator(i32::MAX, 0, sum), i32::MAX);
    assert_eq!(calculator(i32::MIN, 0, sub), i32::MIN);
}

#[test]
fn sorting_empty_and_single() {
    let mut empty: Vec<i32> = vec![];
    sorter(&mut empty, ascending);
    assert_eq!(empty, [] as [i32; 0]);

    let mut single: Vec<i32> = vec![7];
    sorter(&mut single, descending);
    assert_eq!(single, [7]);
}

#[test]
fn sorting_round_trip_through_opposite_orders() {
    let mut first: Vec<i32> = vec![3, 1, 4, 1, 5, 9];
    sorter(&mut first, ascending);
    let ascending_result = first.clone();

    sorter(&mut first, descending);
    let descending_result = first.clone();

    // The two opposite orders are exact mirror images.
    let mut reversed = ascending_result.clone();
    reversed.reverse();
    assert_eq!(descending_result, reversed);

    // Reordering upward again recovers the canonical result.
    sorter(&mut first, ascending);
    assert_eq!(first, ascending_result);
}

#[test]
fn sorting_keeps_duplicates() {
    let mut v: Vec<i32> = vec![2, 2, 2, 1];
    sorter(&mut v, ascending);
    assert_eq!(v, [1, 2, 2, 2]);
}

#[test]
fn discriminants_follow_the_defaulting_rule() {
    // {A implicit first, B explicit 404, C implicit after B}.
    let declared: Vec<Option<u32>> = vec![None, Some(404), None];
    let tags = assign_tags(&declared);
    assert_eq!(tags, [0, 404, 405]);

    let none_declared: Vec<Option<u32>> = vec![];
    assert_eq!(assign_tags(&none_declared), [] as [u64; 0]);

    let mixed: Vec<Option<u32>> = vec![Some(7), None, None, Some(2), None];
    assert_eq!(assign_tags(&mixed), [7, 8, 9, 2, 3]);

    let implicit_only: Vec<Option<u32>> = vec![None, None, None];
    assert_eq!(assign_tags(&implicit_only), [0, 1, 2]);
}

#[test]
fn narrowing_wraps_modularly() {
    assert_eq!(wrap_u8(405), 149);
    assert_eq!(wrap_u8(255), 255);
    assert_eq!(wrap_u8(256), 0);
    assert_eq!(wrap_u8(0), 0);
}

#[test]
fn status_codes_by_variant() {
    assert_eq!(HttpStatusCode::SwitchProtocol.code(), 0);
    assert_eq!(HttpStatusCode::NotFound.code(), 404);
    assert_eq!(HttpStatusCode::GatewayTimeout.code(), 405);
    assert_eq!(HttpStatusCode::SwitchProtocol.as_u8(), 0);
    assert_eq!(HttpStatusCode::NotFound.as_u8(), 148);
    assert_eq!(HttpStatusCode::GatewayTimeout.as_u8(), 149);
}

#[test]
fn decimal_rendering() {
    assert_eq!(fmt_u64(0), "0");
    assert_eq!(fmt_u64(3), "3");
    assert_eq!(fmt_u64(10), "10");
    assert_eq!(fmt_u64(1234567890), "1234567890");
    assert_eq!(fmt_u64(u64::MAX), "18446744073709551615");
}

#[test]
fn labels_by_variant() {
    assert_eq!(ProgramLanguage::Rust.label(), "Top1: Rust");
    assert_eq!(ProgramLanguage::Java.label(), "Top2: Java");
    assert_eq!(ProgramLanguage::Rest("Zig", 10).label(), "Top10: Zig");
    assert_eq!(ProgramLanguage::Rest("", 0).label(), "Top0: ");
}

#[test]
fn scheduler_states_are_mutually_exclusive() {
    let mut jobs: HashSet<u32> = HashSet::new();
    jobs.insert(11);
    jobs.insert(12);
    let pending: SchedulerState<u32, u16> = SchedulerState::Pending(jobs);
    match pending {
        SchedulerState::Pending(set) => assert_eq!(set.len(), 2),
        SchedulerState::Running(_) => panic!("constructed as pending"),
    }

    let mut assignment: HashMap<u16, Vec<u32>> = HashMap::new();
    assignment.insert(1, vec![11, 12]);
    let running: SchedulerState<u32, u16> = SchedulerState::Running(assignment);
    match running {
        SchedulerState::Pending(_) => panic!("constructed as running"),
        SchedulerState::Running(map) => assert_eq!(map[&1], [11, 12]),
    }
}
