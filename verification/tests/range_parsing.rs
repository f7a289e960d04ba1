use build_matrix::config::parse_range_string;
use build_matrix::strnum::{i32_to_string, parse_i32, u32_to_string, u64_to_string};

#[test]
fn parses_the_documented_range_example() {
    let parsed = parse_range_string("4,7-9,12", 4, 32).unwrap();
    assert_eq!(parsed, vec![4, 7, 8, 9, 12]);
}

#[test]
fn range_result_is_sorted_and_duplicate_free() {
    let parsed = parse_range_string("12,4,7-9,8", 4, 32).unwrap();
    assert_eq!(parsed, vec![4, 7, 8, 9, 12]);
}

#[test]
fn blank_tokens_are_skipped() {
    let parsed = parse_range_string(" 5 , , 7 ", 1, 10).unwrap();
    assert_eq!(parsed, vec![5, 7]);
}

#[test]
fn empty_string_parses_to_no_values() {
    let parsed = parse_range_string("", 1, 10).unwrap();
    assert_eq!(parsed, Vec::<i32>::new());
}

#[test]
fn malformed_token_fails_with_its_message() {
    let err = parse_range_string("4,x,6", 1, 10).unwrap_err();
    assert_eq!(err, "Invalid number 'x'");
}

#[test]
fn out_of_bounds_value_fails_with_its_message() {
    let err = parse_range_string("11", 1, 10).unwrap_err();
    assert_eq!(err, "Value 11 out of bounds [1, 10]");
}

#[test]
fn out_of_bounds_span_fails_with_its_message() {
    let err = parse_range_string("2-12", 1, 10).unwrap_err();
    assert_eq!(err, "Range 2-12 out of bounds [1, 10]");
}

#[test]
fn inverted_span_fails_with_its_message() {
    let err = parse_range_string("9-3", 1, 10).unwrap_err();
    assert_eq!(err, "Range start 9 > end 3");
}

#[test]
fn lone_negative_number_reads_as_a_span_with_empty_start() {
    let err = parse_range_string("-5", -10, 10).unwrap_err();
    assert_eq!(err, "Invalid number ''");
}

#[test]
fn first_failing_token_wins() {
    let err = parse_range_string("99,x", 1, 10).unwrap_err();
    assert_eq!(err, "Value 99 out of bounds [1, 10]");
}

#[test]
fn spans_tolerate_inner_whitespace() {
    let parsed = parse_range_string(" 4 - 6 ", 1, 10).unwrap();
    assert_eq!(parsed, vec![4, 5, 6]);
}

#[test]
fn parse_i32_accepts_signs_and_rejects_overflow() {
    assert_eq!(parse_i32("42"), Some(42));
    assert_eq!(parse_i32("+42"), Some(42));
    assert_eq!(parse_i32("-42"), Some(-42));
    assert_eq!(parse_i32("-2147483648"), Some(i32::MIN));
    assert_eq!(parse_i32("2147483647"), Some(i32::MAX));
    assert_eq!(parse_i32("2147483648"), None);
    assert_eq!(parse_i32(""), None);
    assert_eq!(parse_i32("+"), None);
    assert_eq!(parse_i32("1 2"), None);
    assert_eq!(parse_i32("007"), Some(7));
}

#[test]
fn decimal_rendering_round_trips() {
    assert_eq!(u32_to_string(0), "0");
    assert_eq!(u32_to_string(4294967295), "4294967295");
    assert_eq!(u64_to_string(12345678901234), "12345678901234");
    assert_eq!(i32_to_string(-2147483648), "-2147483648");
    assert_eq!(i32_to_string(12), "12");
}
