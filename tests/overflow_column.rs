use miden_aux::field::MODULUS;
use miden_aux::stack::{
    build_aux_columns, AuxTraceError, AuxTraceHints, HintKind, Matrix, OverflowHint,
};

fn trace(n: usize) -> Matrix {
    Matrix { num_rows: n, columns: vec![vec![0u64; n], vec![1u64; n]] }
}

fn ins(row: usize, addr: u64, value: u64) -> OverflowHint {
    OverflowHint { row, kind: HintKind::Insert, addr, value }
}

fn rem(row: usize, addr: u64, value: u64) -> OverflowHint {
    OverflowHint { row, kind: HintKind::Remove, addr, value }
}

fn build(n: usize, hints: Vec<OverflowHint>, ch: &[u64]) -> Result<Vec<u64>, AuxTraceError> {
    AuxTraceHints { hints }.build_aux_column(&trace(n), ch)
}

fn mul(a: u64, b: u64) -> u64 {
    ((a as u128 * b as u128) % MODULUS as u128) as u64
}

#[test]
fn four_rows_insert_then_remove() {
    let col = build(4, vec![ins(1, 7, 3), rem(3, 7, 3)], &[2, 3, 5]).unwrap();
    let f = 2 + 3 * 7 + 5 * 3;
    assert_eq!(col, vec![1, f, f, 1]);
}

#[test]
fn empty_log_gives_identity_column() {
    let col = build(8, vec![], &[11, 13, 17]).unwrap();
    assert_eq!(col, vec![1u64; 8]);
}

#[test]
fn rows_without_hints_repeat_previous_value() {
    let col = build(8, vec![ins(2, 1, 1), ins(5, 2, 9)], &[4, 6, 8]).unwrap();
    for r in [1usize, 3, 4, 6, 7] {
        assert_eq!(col[r], col[r - 1]);
    }
    assert_eq!(col[2], 4 + 6 + 8);
    assert_eq!(col[5], mul(18, 4 + 12 + 72));
}

#[test]
fn removal_multiplies_by_inverse() {
    let col = build(2, vec![rem(1, 0, 0)], &[2, 0, 0]).unwrap();
    assert_eq!(col[1], (MODULUS + 1) / 2);
    assert_eq!(mul(col[1], 2), 1);
}

#[test]
fn balanced_log_closes_at_one() {
    let hints = vec![
        ins(1, 10, 100),
        ins(2, 11, 101),
        ins(3, 12, 102),
        rem(5, 12, 102),
        ins(6, 13, 103),
        rem(7, 13, 103),
        rem(9, 11, 101),
        rem(12, 10, 100),
    ];
    let col = build(16, hints, &[123456789, 987654321, 555555555]).unwrap();
    assert_eq!(col[15], 1);
    assert_ne!(col[9], 1);
}

#[test]
fn missing_remove_is_visible() {
    let ch = [123456789u64, 987654321, 555555555];
    let hints = vec![ins(1, 10, 100), ins(2, 11, 101), rem(3, 11, 101), rem(4, 10, 100)];
    let mut missing = hints.clone();
    missing.remove(3);
    let col = build(8, missing, &ch).unwrap();
    let f = ((ch[0] as u128 + ch[1] as u128 * 10 + ch[2] as u128 * 100) % MODULUS as u128) as u64;
    assert_eq!(col[7], f);
    assert_ne!(col[7], 1);
}

#[test]
fn swapped_payloads_break_balance() {
    let ch = [31u64, 37, 41];
    let balanced = vec![ins(1, 1, 5), ins(2, 2, 6), rem(3, 2, 6), rem(4, 1, 5)];
    assert_eq!(build(8, balanced, &ch).unwrap()[7], 1);
    let swapped = vec![ins(1, 1, 6), ins(2, 2, 5), rem(3, 2, 6), rem(4, 1, 5)];
    assert_ne!(build(8, swapped, &ch).unwrap()[7], 1);
}

#[test]
fn building_twice_gives_same_column() {
    let hints = vec![ins(1, 3, 4), rem(2, 3, 4), ins(3, 5, 6)];
    let a = build(4, hints.clone(), &[9, 8, 7]);
    let b = build(4, hints, &[9, 8, 7]);
    assert_eq!(a, b);
}

#[test]
fn large_values_are_reduced() {
    let col = build(2, vec![ins(1, u64::MAX, 0)], &[0, u64::MAX, 0]).unwrap();
    let r = u64::MAX % MODULUS;
    assert_eq!(col[1], mul(r, r));
}

#[test]
fn hint_at_row_zero_is_malformed() {
    assert_eq!(build(4, vec![ins(0, 1, 1)], &[1, 2, 3]), Err(AuxTraceError::MalformedHintLog));
}

#[test]
fn hint_past_trace_is_malformed() {
    assert_eq!(build(4, vec![ins(4, 1, 1)], &[1, 2, 3]), Err(AuxTraceError::MalformedHintLog));
}

#[test]
fn hints_out_of_order_are_malformed() {
    let hints = vec![ins(2, 1, 1), rem(2, 1, 1)];
    assert_eq!(build(4, hints, &[1, 2, 3]), Err(AuxTraceError::MalformedHintLog));
    let hints = vec![ins(3, 1, 1), rem(2, 1, 1)];
    assert_eq!(build(4, hints, &[1, 2, 3]), Err(AuxTraceError::MalformedHintLog));
}

#[test]
fn zero_combination_is_degenerate() {
    assert_eq!(build(4, vec![ins(1, 1, 1)], &[0, 0, 0]), Err(AuxTraceError::DegenerateChallenge));
    let c0 = MODULUS - 7;
    assert_eq!(build(4, vec![rem(1, 7, 0)], &[c0, 1, 0]), Err(AuxTraceError::DegenerateChallenge));
}

#[test]
fn dimension_errors() {
    assert_eq!(build(0, vec![], &[1, 2, 3]), Err(AuxTraceError::DimensionMismatch));
    assert_eq!(build(4, vec![], &[1, 2]), Err(AuxTraceError::DimensionMismatch));
}

#[test]
fn aux_columns_hold_p1() {
    let hints = AuxTraceHints { hints: vec![ins(1, 7, 3), rem(3, 7, 3)] };
    let cols = build_aux_columns(&trace(4), &hints, &[2, 3, 5]).unwrap();
    assert_eq!(cols, vec![vec![1, 38, 38, 1]]);
    let err = build_aux_columns(&trace(4), &hints, &[2, 3]);
    assert_eq!(err, Err(AuxTraceError::DimensionMismatch));
}
