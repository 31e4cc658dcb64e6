use lox_interpreter::numbers::Number;
use lox_interpreter::reader::Reader;

#[test]
fn test_number_display_forms() {
    assert_eq!(Number::from_raw(0).to_text(), "0");
    assert_eq!(Number::from_raw(123_000_000).to_text(), "123");
    assert_eq!(Number::from_raw(45_670_000).to_text(), "45.67");
    assert_eq!(Number::from_raw(12_300_000).to_text(), "12.3");
    assert_eq!(Number::from_raw(-500_000).to_text(), "-0.5");
    assert_eq!(Number::from_raw(1).to_text(), "0.000001");
    assert_eq!(Number::from_raw(-3_000_000).to_text(), "-3");
}

#[test]
fn test_number_arithmetic_is_exact() {
    let a = Number::from_i64(7).unwrap();
    let b = Number::from_i64(2).unwrap();
    assert_eq!(a.checked_add(b), Some(Number::from_raw(9_000_000)));
    assert_eq!(a.checked_sub(b), Some(Number::from_raw(5_000_000)));
    assert_eq!(a.checked_mul(b), Some(Number::from_raw(14_000_000)));
    assert_eq!(a.checked_div(b), Some(Number::from_raw(3_500_000)));
    assert_eq!(a.checked_neg(), Some(Number::from_raw(-7_000_000)));
}

#[test]
fn test_number_division_truncates_toward_zero() {
    let one = Number::from_i64(1).unwrap();
    let three = Number::from_i64(3).unwrap();
    assert_eq!(one.checked_div(three), Some(Number::from_raw(333_333)));
    let minus_one = Number::from_i64(-1).unwrap();
    assert_eq!(minus_one.checked_div(three), Some(Number::from_raw(-333_333)));
}

#[test]
fn test_number_overflow_is_reported() {
    assert_eq!(Number::from_i64(i64::MAX), None);
    let big = Number::from_raw(i64::MAX);
    assert_eq!(big.checked_add(Number::from_raw(1)), None);
    assert_eq!(big.checked_mul(Number::from_raw(2_000_000)), None);
    assert_eq!(Number::from_raw(i64::MIN).checked_neg(), None);
}

#[test]
fn test_number_comparisons() {
    let a = Number::from_raw(1_500_000);
    let b = Number::from_raw(2_000_000);
    assert!(a.lt(b));
    assert!(a.le(b));
    assert!(b.gt(a));
    assert!(b.ge(a));
    assert!(!a.gt(b));
}

#[test]
fn test_reader_take_while_inclusive() {
    let mut reader = Reader::new(vec![0, 2, 4, 3]);
    let taken = reader.take_while_inclusive(|x: &i32| x % 2 == 0);
    assert_eq!(taken, &[0, 2, 4]);
    assert_eq!(reader.i, 3);

    let mut reader = Reader::new(vec![1]);
    let taken = reader.take_while_inclusive(|x: &i32| x % 2 == 0);
    assert!(taken.is_empty());
    assert_eq!(reader.i, 0);
}

#[test]
fn test_reader_cursor() {
    let mut reader = Reader::new(vec![10, 20, 30]);
    assert_eq!(reader.get(0), Some(&10));
    assert_eq!(reader.get(3), None);
    assert_eq!(reader.peek(1), Some(&20));
    reader.next();
    assert_eq!(reader.peek(1), Some(&30));
    reader.next();
    reader.next();
    assert_eq!(reader.peek(0), None);
}
