//! Tests of the types module.

#[allow(unused_imports)]
use std::sync::Arc;
use click::types::{BOOL, Choice, CompletionItem, DateTimeType, INT, IntRange, STRING, TupleType, UNPROCESSED, UUID, Value};
use click::text::is_float_literal;
use click::types::{PathFacts, PathType};
#[allow(unused_imports)]
use click::parameter::Parameter;
#[allow(unused_imports)]
use click::types::{TypeConverter, FromValue};
#[allow(unused_imports)]
use click::group::CommandLike;
#[allow(unused_imports)]
use click::completion::ShellComplete;

fn uuid_of(v: Value) -> uuid::Uuid {
    match v {
        Value::Uuid(u) => u,
        _ => panic!("not a uuid"),
    }
}

fn datetime_of(v: Value) -> chrono::NaiveDateTime {
    match v {
        Value::DateTime(d) => d,
        _ => panic!("not a datetime"),
    }
}

fn list_of(v: Value) -> Vec<Value> {
    match v {
        Value::List(l) => l,
        _ => panic!("not a list"),
    }
}

#[test]
fn test_string_type() {
    assert_eq!(STRING.convert("hello").unwrap().as_string(), Some("hello"));
    assert_eq!(STRING.convert("  spaces  ").unwrap().as_string(), Some("  spaces  "));
    assert_eq!(STRING.name(), "TEXT");
}

#[test]
fn test_int_type() {
    assert_eq!(INT.convert("42").unwrap().as_int(), Some(42));
    assert_eq!(INT.convert("-123").unwrap().as_int(), Some(-123));
    assert_eq!(INT.convert("  456  ").unwrap().as_int(), Some(456));
    assert!(INT.convert("not a number").is_err());
    assert!(INT.convert("3.14").is_err());
}

#[test]
fn test_bool_type() {
    assert!(BOOL.convert("true").unwrap().as_bool().unwrap());
    assert!(BOOL.convert("True").unwrap().as_bool().unwrap());
    assert!(BOOL.convert("TRUE").unwrap().as_bool().unwrap());
    assert!(BOOL.convert("yes").unwrap().as_bool().unwrap());
    assert!(BOOL.convert("1").unwrap().as_bool().unwrap());
    assert!(BOOL.convert("on").unwrap().as_bool().unwrap());
    assert!(!BOOL.convert("false").unwrap().as_bool().unwrap());
    assert!(!BOOL.convert("no").unwrap().as_bool().unwrap());
    assert!(!BOOL.convert("0").unwrap().as_bool().unwrap());
    assert!(!BOOL.convert("off").unwrap().as_bool().unwrap());
    assert!(BOOL.convert("maybe").is_err());
}

#[test]
fn test_uuid_type() {
    let uuid_str = "550e8400-e29b-41d4-a716-446655440000";
    let result = uuid_of(UUID.convert(uuid_str).unwrap());
    assert_eq!(result.to_string(), uuid_str);
    assert!(UUID.convert("not-a-uuid").is_err());
}

#[test]
fn test_int_range() {
    let range = IntRange::new().range(0, 100);
    assert_eq!(range.convert("50").unwrap().as_int(), Some(50));
    assert_eq!(range.convert("0").unwrap().as_int(), Some(0));
    assert_eq!(range.convert("100").unwrap().as_int(), Some(100));
    assert!(range.convert("-1").is_err());
    assert!(range.convert("101").is_err());
}

#[test]
fn test_int_range_open() {
    let range = IntRange::new().min(0).max(10).min_open(true).max_open(true);
    assert!(range.convert("0").is_err()); // min is open
    assert!(range.convert("10").is_err()); // max is open
    assert_eq!(range.convert("1").unwrap().as_int(), Some(1));
    assert_eq!(range.convert("9").unwrap().as_int(), Some(9));
}

#[test]
fn test_int_range_clamp() {
    let range = IntRange::new().range(0, 100).clamp(true);
    assert_eq!(range.convert("-50").unwrap().as_int(), Some(0));
    assert_eq!(range.convert("150").unwrap().as_int(), Some(100));
    assert_eq!(range.convert("50").unwrap().as_int(), Some(50));
}

#[test]
fn test_datetime_type() {
    let dt = DateTimeType::new();

    // Date only
    let result = datetime_of(dt.convert("2024-01-15").unwrap());
    assert_eq!(result.date().to_string(), "2024-01-15");

    // Datetime with T
    let result = datetime_of(dt.convert("2024-01-15T10:30:00").unwrap());
    assert_eq!(result.to_string(), "2024-01-15 10:30:00");

    // Datetime with space
    let result = datetime_of(dt.convert("2024-01-15 10:30:00").unwrap());
    assert_eq!(result.to_string(), "2024-01-15 10:30:00");

    assert!(dt.convert("not a date").is_err());
}

#[test]
fn test_choice() {
    let choice = Choice::new(&["one", "two", "three"]);
    assert_eq!(choice.convert("one").unwrap().as_string(), Some("one"));
    assert_eq!(choice.convert("two").unwrap().as_string(), Some("two"));
    assert!(choice.convert("four").is_err());
}

#[test]
fn test_choice_case_insensitive() {
    let choice = Choice::new(&["One", "Two", "Three"]).case_sensitive(false);
    assert_eq!(choice.convert("one").unwrap().as_string(), Some("One"));
    assert_eq!(choice.convert("ONE").unwrap().as_string(), Some("One"));
    assert_eq!(choice.convert("oNe").unwrap().as_string(), Some("One"));
}

#[test]
fn test_choice_shell_complete() {
    let choice = Choice::new(&["apple", "apricot", "banana"]);
    let completions = choice.shell_complete("ap");
    assert_eq!(completions.len(), 2);
    assert!(completions.iter().any(|c| c.value == "apple"));
    assert!(completions.iter().any(|c| c.value == "apricot"));
}

#[test]
fn test_tuple_type() {
    let tuple = TupleType::new(&["string", "int", "bool"]);
    let result = list_of(tuple.convert("hello 42 true").unwrap());
    assert_eq!(result.len(), 3);
    assert_eq!(result[0].as_string(), Some("hello"));
    assert_eq!(result[1].as_int(), Some(42));
    assert_eq!(result[2].as_bool(), Some(true));
}

#[test]
fn test_tuple_type_wrong_count() {
    let tuple = TupleType::new(&["string", "int"]);
    assert!(tuple.convert("hello").is_err());
    assert!(tuple.convert("hello 42 extra").is_err());
}

#[test]
fn test_unprocessed() {
    assert_eq!(UNPROCESSED.convert("raw value").unwrap().as_string(), Some("raw value"));
    assert_eq!(UNPROCESSED.name(), "TEXT");
}

#[test]
fn test_completion_item() {
    let item = CompletionItem::new("test");
    assert_eq!(item.value, "test");
    assert_eq!(item.completion_type, "plain");
    assert!(item.help.is_none());

    let item = CompletionItem::with_type("path", "file").with_help("A file path");
    assert_eq!(item.value, "path");
    assert_eq!(item.completion_type, "file");
    assert_eq!(item.help, Some("A file path".to_string()));
}

#[test]
fn test_tuple_float_element_keeps_checked_text() {
    let tuple = TupleType::new(&["float", "float", "float"]);
    let result = list_of(tuple.convert("1.5 -2e3 inf").unwrap());
    assert_eq!(result[0].as_float_text(), Some("1.5"));
    assert_eq!(result[1].as_float_text(), Some("-2e3"));
    assert_eq!(result[2].as_float_text(), Some("inf"));
    assert_eq!(
        tuple.convert("1.5 x 2").err().unwrap(),
        "'x' is not a valid float"
    );
}

#[test]
fn test_float_literal_forms() {
    for ok in ["3.14", "-2.5", "42", ".5", "5.", "+1e10", "1E-3", "NaN", "-Infinity", "INF"] {
        assert!(is_float_literal(ok), "{}", ok);
    }
    for bad in ["", ".", "e5", "1e", "1.2.3", " 1", "abc", "1e+", "--1", "infx"] {
        assert!(!is_float_literal(bad), "{}", bad);
    }
}

#[test]
fn test_tuple_messages_and_metavar() {
    let tuple = TupleType::new(&["string", "int"]);
    assert_eq!(
        tuple.convert("hello").err().unwrap(),
        "2 values are required, but 1 were given"
    );
    assert_eq!(
        tuple.convert("hello x").err().unwrap(),
        "'x' is not a valid integer"
    );
    assert_eq!(tuple.get_metavar(), Some("<TEXT INTEGER>".to_string()));
    assert_eq!(tuple.arity(), 2);
    assert!(tuple.is_composite());
    assert_eq!(
        tuple.convert_element(5, "x").err().unwrap(),
        "tuple index 5 out of bounds (arity 2)"
    );
    let values = tuple.convert_values(&["a", "7"]).unwrap();
    assert_eq!(values[1].as_int(), Some(7));
}

#[test]
fn test_path_decisions() {
    let p = PathType::new();
    assert_eq!(p.precheck("/some/path"), None);
    assert_eq!(p.check_found("/some/path", "/some/path", None), Ok("/some/path".to_string()));
    assert_eq!(p.precheck("-"), Some(Err("'-' is not allowed".to_string())));
    let dash = PathType::new().allow_dash(true);
    assert_eq!(dash.precheck("-"), Some(Ok("-".to_string())));
    let none = PathType::new().file_okay(false).dir_okay(false);
    assert_eq!(
        none.precheck("x"),
        Some(Err("No path is valid (file_okay=false and dir_okay=false)".to_string()))
    );
    let must = PathType::new().must_exist(true).dir_okay(false);
    assert_eq!(must.check_found("f", "f", None), Err("File 'f' does not exist".to_string()));
    let dir = PathFacts { is_file: false, is_dir: true, mode: 0o755 };
    assert_eq!(must.check_found("d", "d", Some(dir)), Err("File 'd' is a directory".to_string()));
    let ro = PathFacts { is_file: true, is_dir: false, mode: 0o444 };
    let w = PathType::new().writable(true);
    assert_eq!(w.check_found("r", "r", Some(ro)), Err("Path 'r' is not writable".to_string()));
    assert_eq!(PathType::new().check_found("r", "/abs/r", Some(ro)), Ok("/abs/r".to_string()));
}

#[test]
fn test_int_range_clamp_stays_in_range() {
    let range = IntRange::new().range(-5, 5).clamp(true);
    for v in ["-100", "-5", "0", "5", "100"] {
        let n = range.convert(v).unwrap().as_int().unwrap();
        assert!((-5..=5).contains(&n));
    }
}
