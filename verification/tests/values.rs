use trust_atom::value::{normalize_value, pow10_exec, replace_zero_point, rounded_text, ValueError};

fn normalized(v: &str) -> Result<Option<String>, ValueError> {
  normalize_value(Some(v.to_string()))
}

#[test]
fn test_normalize_value() {
  let input_and_expected = [
    ["-.9", "-.900000000"],
    ["-.9000", "-.900000000"],
    ["-.900000000", "-.900000000"],
    ["-.9000000004", "-.900000000"],
    ["-.9000000005", "-.900000001"],
    ["-0.900000000", "-.900000000"],
    ["0.8999999995", ".900000000"],
    ["0.7999999995", ".800000000"],
    ["-0.8999999995", "-.900000000"],
    ["-0.7999999995", "-.800000000"],
    ["0.8999999994", ".899999999"],
    ["0.7999999994", ".799999999"],
    ["-0.8999999994", "-.899999999"],
    ["-0.7999999994", "-.799999999"],
    [".9", ".900000000"],
    [".9000", ".900000000"],
    [".900000000", ".900000000"],
    ["0.900000000", ".900000000"],
    ["1", ".999999999"],
    ["1.0", ".999999999"],
    ["-1", "-.999999999"],
    ["-1.0", "-.999999999"],
  ];
  for [input, expected] in input_and_expected {
    assert_eq!(normalized(input), Ok(Some(expected.to_string())), "input {}", input);
  }
}

#[test]
fn test_normalize_value__valid_value() {
  let valid_values = [
    "1.0",
    "1.000000000000000000000000000",
    "1",
    "0.534857395723489529357489283",
    "0.0",
    "0.000000000000000000000000000",
    "0",
    "-1.0",
    "-1",
    "-1.00000000000000000000000000",
  ];
  for value in valid_values {
    assert!(normalized(value).is_ok(), "value {}", value);
  }
  assert_eq!(normalized("0"), Ok(Some("0".to_string())));
  assert_eq!(normalized(".8"), Ok(Some(".800000000".to_string())));
  assert_eq!(normalized("0.9871"), Ok(Some(".987100000".to_string())));
  assert_eq!(normalize_value(None), Ok(None));
}

#[test]
fn test_normalize_value__values_out_of_range() {
  let out_of_range_values = [
    "100000000000000000",
    "-100000000000000000",
    "2",
    "1.000000005",
    "1.00000001",
    "-1.00000001",
    "-1.000000005",
    "-2",
  ];
  for value in out_of_range_values {
    assert_eq!(normalized(value), Err(ValueError::OutOfRange(value.to_string())), "value {}", value);
  }
}

#[test]
fn test_normalize_value__values_not_numeric() {
  let non_numeric_values = [
    " ",
    " 0 ",
    " 0",
    "-.",
    "-",
    "-100000000000000000000000000000.0",
    "-1e",
    "-1e0",
    "-e0",
    "!",
    ".",
    "",
    "\u{1f9d0}",
    "0 ",
    "100000000000000000000000000000.0",
    "1e",
    "1e0",
    "e",
    "e0",
    "foo",
    "1E0",
  ];
  for value in non_numeric_values {
    assert_eq!(normalized(value), Err(ValueError::NotNumeric(value.to_string())), "value {}", value);
  }
}

#[test]
fn rounded_values_are_written_without_leading_zero() {
  assert_eq!(rounded_text(800000000, 9), Some(".800000000".to_string()));
  assert_eq!(rounded_text(-5, 3), Some("-.005".to_string()));
  assert_eq!(rounded_text(1000, 3), Some(".999999999".to_string()));
  assert_eq!(rounded_text(-10, 1), Some("-.999999999".to_string()));
  assert_eq!(rounded_text(0, 0), Some("0".to_string()));
  assert_eq!(rounded_text(11, 1), None);
  assert_eq!(rounded_text(-2, 0), None);
}

#[test]
fn zero_point_replacement() {
  assert_eq!(replace_zero_point("0.5"), ".5");
  assert_eq!(replace_zero_point("-0.50.0."), "-.5..");
  assert_eq!(replace_zero_point("00.1"), "0.1");
  assert_eq!(replace_zero_point("abc"), "abc");
  assert_eq!(pow10_exec(0), 1);
  assert_eq!(pow10_exec(28), 10u128.pow(28));
}

#[test]
fn values_longer_than_a_tag_holds_are_refused() {
  assert_eq!(normalized("0.0001"), Err(ValueError::TooLong("0.0001".to_string())));
  assert_eq!(normalized("-0.001"), Err(ValueError::TooLong("-0.001".to_string())));
  assert_eq!(normalized("-0.01"), Ok(Some("-.0100000000".to_string())));
  assert_eq!(normalized("0.1"), Ok(Some(".100000000".to_string())));
  assert_eq!(normalized("-0.1"), Ok(Some("-.100000000".to_string())));
  assert_eq!(normalized("0.01"), Ok(Some(".0100000000".to_string())));
}
