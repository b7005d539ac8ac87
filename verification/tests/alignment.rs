use elongate::align::{rescale_alignment, rescale_line, AlignError};
use elongate::num::rescale_value;

#[test]
fn end_to_end_line_tempo_twenty() {
    let out = rescale_line(b"100  A  B  C  D  200  E  F", 20).unwrap();
    assert_eq!(out, b"80  A  B  C  D  160  E  F".to_vec());
}

#[test]
fn rescaling_is_deterministic() {
    let a = rescale_line(b"100 A B C D 200 E F", 33).unwrap();
    let b = rescale_line(b"100 A B C D 200 E F", 33).unwrap();
    assert_eq!(a, b);
    let c = rescale_alignment(b"1 a b c d 2 e f\n3 g h i j 4 k l", -7).unwrap();
    let d = rescale_alignment(b"1 a b c d 2 e f\n3 g h i j 4 k l", -7).unwrap();
    assert_eq!(c, d);
}

#[test]
fn tempo_zero_keeps_cells() {
    let out = rescale_line(b"100  A  B  C  D  200  E  F", 0).unwrap();
    assert_eq!(out, b"100  A  B  C  D  200  E  F".to_vec());
    assert_eq!(rescale_value(100, 0), 100);
    assert_eq!(rescale_value(-37, 0), -37);
    assert_eq!(rescale_value(0, 0), 0);
}

#[test]
fn truncation_is_toward_zero() {
    // 100 * 0.85 = 85.0
    assert_eq!(rescale_value(100, 15), 85);
    // 100 * 1.15 = 115.0
    assert_eq!(rescale_value(100, -15), 115);
    // -7 * 0.85 = -5.95, truncated toward zero: -5
    assert_eq!(rescale_value(-7, 15), -5);
    // 7 * 0.85 = 5.95, truncated toward zero: 5
    assert_eq!(rescale_value(7, 15), 5);
}

#[test]
fn rescale_value_saturates() {
    assert_eq!(rescale_value(i32::MAX, -100), i32::MAX);
    assert_eq!(rescale_value(i32::MIN, -100), i32::MIN);
    // i32::MAX * 2 / 100 * 100 still fits after division by 100: exact value
    assert_eq!(rescale_value(i32::MAX, 0), i32::MAX);
}

#[test]
fn seven_cells_fail_whole_operation() {
    let r = rescale_alignment(b"1 a b c d 2 e\n", 10);
    match r {
        Err(AlignError::BadCellCount { line }) => {
            assert_eq!(line, b"1 a b c d 2 e".to_vec());
        }
        _ => panic!("expected a cell-count error"),
    }
}

#[test]
fn nine_cells_fail_whole_operation() {
    let r = rescale_alignment(b"1 a b c d 2 e f g", 10);
    match r {
        Err(AlignError::BadCellCount { line }) => {
            assert_eq!(line, b"1 a b c d 2 e f g".to_vec());
        }
        _ => panic!("expected a cell-count error"),
    }
}

#[test]
fn good_lines_before_a_bad_one_are_discarded() {
    let r = rescale_alignment(b"1 a b c d 2 e f\nbad line", 10);
    assert!(matches!(r, Err(AlignError::BadCellCount { .. })));
}

#[test]
fn non_numeric_first_cell_names_cell_zero() {
    let r = rescale_line(b"abc x x x x 200 y y", 10);
    match r {
        Err(AlignError::BadCell { cell }) => assert_eq!(cell, 0),
        _ => panic!("expected a parse error for cell 0"),
    }
}

#[test]
fn non_numeric_sixth_cell_names_cell_five() {
    let r = rescale_alignment(b"100 x x x x abc y y", 10);
    match r {
        Err(AlignError::BadCell { cell }) => assert_eq!(cell, 5),
        _ => panic!("expected a parse error for cell 5"),
    }
}

#[test]
fn blank_lines_vanish_and_do_not_count() {
    let input = b"\n100 a b c d 200 e f\n   \t \n50 g h i j 60 k l\n\n";
    let out = rescale_alignment(input, 20).unwrap();
    assert_eq!(
        out,
        b"80  a  b  c  d  160  e  f\n40  g  h  i  j  48  k  l".to_vec()
    );
}

#[test]
fn empty_input_gives_empty_output() {
    assert_eq!(rescale_alignment(b"", 20).unwrap(), Vec::<u8>::new());
    assert_eq!(rescale_alignment(b" \n\t\n", 20).unwrap(), Vec::<u8>::new());
}

#[test]
fn cells_rejoin_with_double_spaces() {
    let out = rescale_line(b"  10 \t a\tb  c   d \t 20 e   f  ", 50).unwrap();
    assert_eq!(out, b"5  a  b  c  d  10  e  f".to_vec());
}

#[test]
fn negative_tempo_speeds_timestamps_up() {
    let out = rescale_line(b"100 a b c d 200 e f", -20).unwrap();
    assert_eq!(out, b"120  a  b  c  d  240  e  f".to_vec());
}

#[test]
fn signed_timestamps_rescale() {
    let out = rescale_line(b"-100 a b c d +200 e f", 20).unwrap();
    assert_eq!(out, b"-80  a  b  c  d  160  e  f".to_vec());
}
