use cores::core_list::{parse, CoreSet};
use cores::CoresError;

/// Helper function to create a CoreSet from a list of usize values
fn to_set(values: &[usize]) -> CoreSet {
    let mut s = CoreSet::new();
    for v in values {
        s.insert(*v);
    }
    s
}

#[test]
fn test_single_value() {
    let input = "0";
    let expected = to_set(&[0]);
    let result = parse(input).unwrap();
    assert!(result.equals(&expected));
}

#[test]
fn test_range() {
    let input = "0-3";
    let expected = to_set(&[0, 1, 2, 3]);
    let result = parse(input).unwrap();
    assert!(result.equals(&expected));
}

#[test]
fn test_non_consecutive_values() {
    let input = "0,2,4";
    let expected = to_set(&[0, 2, 4]);
    let result = parse(input).unwrap();
    assert!(result.equals(&expected));
}

#[test]
fn test_mixed_values() {
    let input = "0-2,4,6-7";
    let expected = to_set(&[0, 1, 2, 4, 6, 7]);
    let result = parse(input).unwrap();
    assert!(result.equals(&expected));
}

#[test]
fn test_complex_mixed_values() {
    let input = "0-1,3,5-6,8";
    let expected = to_set(&[0, 1, 3, 5, 6, 8]);
    let result = parse(input).unwrap();
    assert!(result.equals(&expected));
}

#[test]
fn test_single_value_with_whitespace() {
    let input = " 0 ";
    let expected = to_set(&[0]);
    let result = parse(input).unwrap();
    assert!(result.equals(&expected));
}

#[test]
fn test_range_with_whitespace() {
    let input = " 0 - 2 ";
    let expected = to_set(&[0, 1, 2]);
    let result = parse(input).unwrap();
    assert!(result.equals(&expected));
}

#[test]
fn test_invalid_input() {
    let input = "a-b"; // Invalid input
    let result = parse(input);
    assert_eq!(result.unwrap_err(), CoresError::MalformedRange);
}

#[test]
fn test_whitespace_insensitive() {
    let plain = parse("0-2,4").unwrap();
    let spaced = parse(" 0 - 2 , 4 ").unwrap();
    assert!(plain.equals(&spaced));
    let tabs = parse("\t0\n-\t2 ,\n4\t").unwrap();
    assert!(plain.equals(&tabs));
}

#[test]
fn test_overlapping_segments_collapse() {
    let result = parse("0-2,1,2").unwrap();
    let expected = to_set(&[0, 1, 2]);
    assert!(result.equals(&expected));
    assert_eq!(result.len(), 3);
}

#[test]
fn test_malformed_inputs() {
    assert_eq!(parse("").unwrap_err(), CoresError::MalformedRange);
    assert_eq!(parse("1,,2").unwrap_err(), CoresError::MalformedRange);
    assert_eq!(parse("1-2-3").unwrap_err(), CoresError::MalformedRange);
    assert_eq!(parse("1-").unwrap_err(), CoresError::MalformedRange);
    assert_eq!(parse("-1").unwrap_err(), CoresError::MalformedRange);
    assert_eq!(parse("3,x").unwrap_err(), CoresError::MalformedRange);
}

#[test]
fn test_reversed_bounds_rejected() {
    assert_eq!(parse("5-2").unwrap_err(), CoresError::MalformedRange);
}

#[test]
fn test_numeral_overflow_rejected() {
    // Far beyond what fits in a machine word.
    let result = parse("99999999999999999999999999");
    assert_eq!(result.unwrap_err(), CoresError::MalformedRange);
}

#[test]
fn test_core_set_operations() {
    let mut s = CoreSet::new();
    assert_eq!(s.len(), 0);
    assert!(!s.contains(7));
    s.insert(7);
    s.insert(3);
    s.insert(7);
    assert_eq!(s.len(), 2);
    assert!(s.contains(7));
    assert!(s.contains(3));
    assert!(!s.contains(0));
    assert!(!s.equals(&to_set(&[7])));
    assert!(s.equals(&to_set(&[3, 7])));
}
