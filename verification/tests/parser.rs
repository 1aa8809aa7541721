//! Tests of the parser module.

#[allow(unused_imports)]
use std::sync::Arc;
use click::error::{ClickError};
use click::parameter::{Nargs};
use click::parser::{NARGS_OPTIONAL, OptionAction, OptionParser, ParsedValue, edit_distance, get_close_matches, split_opt, unpack_args};
#[allow(unused_imports)]
use click::parameter::Parameter;
#[allow(unused_imports)]
use click::argument::AnyTypeConverter;
#[allow(unused_imports)]
use click::types::{TypeConverter, FromValue};
#[allow(unused_imports)]
use click::group::CommandLike;
#[allow(unused_imports)]
use click::completion::ShellComplete;

// -------------------------------------------------------------------------
// split_opt tests
// -------------------------------------------------------------------------

#[test]
fn test_split_opt_long() {
    assert_eq!(split_opt("--name"), Some(("--", "name")));
    assert_eq!(split_opt("--full-name"), Some(("--", "full-name")));
}

#[test]
fn test_split_opt_short() {
    assert_eq!(split_opt("-n"), Some(("-", "n")));
    assert_eq!(split_opt("-abc"), Some(("-", "abc")));
}

#[test]
fn test_split_opt_no_prefix() {
    assert_eq!(split_opt("name"), None);
    assert_eq!(split_opt(""), None);
}

#[test]
fn test_split_opt_just_dashes() {
    assert_eq!(split_opt("-"), None);
    assert_eq!(split_opt("--"), None);
}

// -------------------------------------------------------------------------
// edit_distance tests
// -------------------------------------------------------------------------

#[test]
fn test_edit_distance() {
    assert_eq!(edit_distance("", ""), 0);
    assert_eq!(edit_distance("a", ""), 1);
    assert_eq!(edit_distance("", "b"), 1);
    assert_eq!(edit_distance("abc", "abc"), 0);
    assert_eq!(edit_distance("abc", "abd"), 1);
    assert_eq!(edit_distance("help", "hlep"), 2);
    assert_eq!(edit_distance("kitten", "sitting"), 3);
}

#[test]
fn test_get_close_matches() {
    let opts = vec!["--help", "--hello", "--version", "--verbose"];
    let matches = get_close_matches("--hlep", &opts, 3);
    assert!(matches.contains(&"--help".to_string()));
}

// -------------------------------------------------------------------------
// Short option parsing tests
// -------------------------------------------------------------------------

#[test]
fn test_short_option_with_space() {
    let mut parser = OptionParser::new();
    parser.add_option(&["-n"], "name", OptionAction::Store, 1, None);

    let args = vec!["-n".to_string(), "value".to_string()];
    let (opts, remaining, _) = parser.parse_args(args).unwrap();

    assert_eq!(
        opts.get("name"),
        Some(&ParsedValue::Single("value".to_string()))
    );
    assert!(remaining.is_empty());
}

#[test]
fn test_short_option_with_equals() {
    // For short options, the `=` is part of the value (not a separator like long options).
    // This matches POSIX behavior: -n=value means -n with value "=value".
    let mut parser = OptionParser::new();
    parser.add_option(&["-n"], "name", OptionAction::Store, 1, None);

    let args = vec!["-n=value".to_string()];
    let (opts, remaining, _) = parser.parse_args(args).unwrap();

    // The `=` is included in the value because short options take the rest of the arg as value
    assert_eq!(
        opts.get("name"),
        Some(&ParsedValue::Single("=value".to_string()))
    );
    assert!(remaining.is_empty());
}

#[test]
fn test_short_option_attached_value() {
    let mut parser = OptionParser::new();
    parser.add_option(&["-n"], "name", OptionAction::Store, 1, None);

    let args = vec!["-nvalue".to_string()];
    let (opts, remaining, _) = parser.parse_args(args).unwrap();

    assert_eq!(
        opts.get("name"),
        Some(&ParsedValue::Single("value".to_string()))
    );
    assert!(remaining.is_empty());
}

#[test]
fn test_grouped_short_flags() {
    let mut parser = OptionParser::new();
    parser.add_option(&["-a"], "a", OptionAction::StoreConst, 0, Some("true"));
    parser.add_option(&["-b"], "b", OptionAction::StoreConst, 0, Some("true"));
    parser.add_option(&["-c"], "c", OptionAction::StoreConst, 0, Some("true"));

    let args = vec!["-abc".to_string()];
    let (opts, remaining, _) = parser.parse_args(args).unwrap();

    assert_eq!(
        opts.get("a"),
        Some(&ParsedValue::Single("true".to_string()))
    );
    assert_eq!(
        opts.get("b"),
        Some(&ParsedValue::Single("true".to_string()))
    );
    assert_eq!(
        opts.get("c"),
        Some(&ParsedValue::Single("true".to_string()))
    );
    assert!(remaining.is_empty());
}

#[test]
fn test_grouped_short_with_value() {
    let mut parser = OptionParser::new();
    parser.add_option(&["-a"], "a", OptionAction::StoreConst, 0, Some("true"));
    parser.add_option(&["-b"], "b", OptionAction::StoreConst, 0, Some("true"));
    parser.add_option(&["-n"], "name", OptionAction::Store, 1, None);

    // -abn means -a -b -n, where -n takes "value" as argument
    let args = vec!["-abn".to_string(), "value".to_string()];
    let (opts, remaining, _) = parser.parse_args(args).unwrap();

    assert_eq!(
        opts.get("a"),
        Some(&ParsedValue::Single("true".to_string()))
    );
    assert_eq!(
        opts.get("b"),
        Some(&ParsedValue::Single("true".to_string()))
    );
    assert_eq!(
        opts.get("name"),
        Some(&ParsedValue::Single("value".to_string()))
    );
    assert!(remaining.is_empty());
}

#[test]
fn test_grouped_short_with_attached_value() {
    let mut parser = OptionParser::new();
    parser.add_option(&["-a"], "a", OptionAction::StoreConst, 0, Some("true"));
    parser.add_option(&["-n"], "name", OptionAction::Store, 1, None);

    // -anVALUE means -a -nVALUE
    let args = vec!["-anVALUE".to_string()];
    let (opts, remaining, _) = parser.parse_args(args).unwrap();

    assert_eq!(
        opts.get("a"),
        Some(&ParsedValue::Single("true".to_string()))
    );
    assert_eq!(
        opts.get("name"),
        Some(&ParsedValue::Single("VALUE".to_string()))
    );
    assert!(remaining.is_empty());
}

// -------------------------------------------------------------------------
// Long option parsing tests
// -------------------------------------------------------------------------

#[test]
fn test_long_option_with_space() {
    let mut parser = OptionParser::new();
    parser.add_option(&["--name"], "name", OptionAction::Store, 1, None);

    let args = vec!["--name".to_string(), "value".to_string()];
    let (opts, remaining, _) = parser.parse_args(args).unwrap();

    assert_eq!(
        opts.get("name"),
        Some(&ParsedValue::Single("value".to_string()))
    );
    assert!(remaining.is_empty());
}

#[test]
fn test_long_option_with_equals() {
    let mut parser = OptionParser::new();
    parser.add_option(&["--name"], "name", OptionAction::Store, 1, None);

    let args = vec!["--name=value".to_string()];
    let (opts, remaining, _) = parser.parse_args(args).unwrap();

    assert_eq!(
        opts.get("name"),
        Some(&ParsedValue::Single("value".to_string()))
    );
    assert!(remaining.is_empty());
}

#[test]
fn test_long_option_multiple_args() {
    let mut parser = OptionParser::new();
    parser.add_option(&["--point"], "point", OptionAction::Store, 2, None);

    let args = vec!["--point".to_string(), "1".to_string(), "2".to_string()];
    let (opts, remaining, _) = parser.parse_args(args).unwrap();

    assert_eq!(
        opts.get("point"),
        Some(&ParsedValue::Multiple(vec!["1".to_string(), "2".to_string()]))
    );
    assert!(remaining.is_empty());
}

// -------------------------------------------------------------------------
// Double-dash terminator tests
// -------------------------------------------------------------------------

#[test]
fn test_double_dash_terminator() {
    let mut parser = OptionParser::new();
    parser.add_option(&["--name"], "name", OptionAction::Store, 1, None);
    parser.add_argument("files", -1);

    let args = vec![
        "--name".to_string(),
        "test".to_string(),
        "--".to_string(),
        "--not-an-option".to_string(),
        "file.txt".to_string(),
    ];
    let (opts, remaining, _) = parser.parse_args(args).unwrap();

    assert_eq!(
        opts.get("name"),
        Some(&ParsedValue::Single("test".to_string()))
    );
    assert_eq!(
        opts.get("files"),
        Some(&ParsedValue::Multiple(vec![
            "--not-an-option".to_string(),
            "file.txt".to_string()
        ]))
    );
    assert!(remaining.is_empty());
}

// -------------------------------------------------------------------------
// Interspersed args tests
// -------------------------------------------------------------------------

#[test]
fn test_interspersed_args_allowed() {
    let mut parser = OptionParser::new().allow_interspersed_args(true);
    parser.add_option(&["--name"], "name", OptionAction::Store, 1, None);
    parser.add_argument("files", -1);

    let args = vec![
        "file1.txt".to_string(),
        "--name".to_string(),
        "test".to_string(),
        "file2.txt".to_string(),
    ];
    let (opts, remaining, _) = parser.parse_args(args).unwrap();

    assert_eq!(
        opts.get("name"),
        Some(&ParsedValue::Single("test".to_string()))
    );
    assert_eq!(
        opts.get("files"),
        Some(&ParsedValue::Multiple(vec![
            "file1.txt".to_string(),
            "file2.txt".to_string()
        ]))
    );
    assert!(remaining.is_empty());
}

#[test]
fn test_interspersed_args_not_allowed() {
    let mut parser = OptionParser::new().allow_interspersed_args(false);
    parser.add_option(&["--name"], "name", OptionAction::Store, 1, None);
    parser.add_argument("files", -1);

    let args = vec![
        "file1.txt".to_string(),
        "--name".to_string(),
        "test".to_string(),
        "file2.txt".to_string(),
    ];
    let (opts, _remaining, _) = parser.parse_args(args).unwrap();

    // --name should NOT be parsed as an option since we stopped at file1.txt
    assert!(opts.get("name").is_none() || opts.get("name") == Some(&ParsedValue::Unset));
    assert_eq!(
        opts.get("files"),
        Some(&ParsedValue::Multiple(vec![
            "file1.txt".to_string(),
            "--name".to_string(),
            "test".to_string(),
            "file2.txt".to_string()
        ]))
    );
}

// -------------------------------------------------------------------------
// Unknown option handling tests
// -------------------------------------------------------------------------

#[test]
fn test_unknown_option_error() {
    let parser = OptionParser::new();

    let args = vec!["--unknown".to_string()];
    let result = parser.parse_args(args);

    assert!(result.is_err());
    match result.err().unwrap() {
        ClickError::NoSuchOption { option_name, .. } => {
            assert_eq!(option_name, "--unknown");
        }
        _ => panic!("Expected NoSuchOption error"),
    }
}

#[test]
fn test_unknown_option_with_suggestion() {
    let mut parser = OptionParser::new();
    parser.add_option(&["--help"], "help", OptionAction::StoreConst, 0, Some("true"));

    let args = vec!["--hlep".to_string()];
    let result = parser.parse_args(args);

    assert!(result.is_err());
    match result.err().unwrap() {
        ClickError::NoSuchOption {
            option_name,
            possibilities,
            ..
        } => {
            assert_eq!(option_name, "--hlep");
            assert!(possibilities.is_some());
            assert!(possibilities.unwrap().contains(&"--help".to_string()));
        }
        _ => panic!("Expected NoSuchOption error with suggestions"),
    }
}

#[test]
fn test_ignore_unknown_options() {
    let mut parser = OptionParser::new().ignore_unknown_options(true);
    parser.add_option(&["--name"], "name", OptionAction::Store, 1, None);
    parser.add_argument("files", -1);

    let args = vec![
        "--unknown".to_string(),
        "--name".to_string(),
        "test".to_string(),
    ];
    let (opts, _, _) = parser.parse_args(args).unwrap();

    assert_eq!(
        opts.get("name"),
        Some(&ParsedValue::Single("test".to_string()))
    );
    // --unknown should be in files
    if let Some(ParsedValue::Multiple(files)) = opts.get("files") {
        assert!(files.contains(&"--unknown".to_string()));
    }
}

// -------------------------------------------------------------------------
// Action tests
// -------------------------------------------------------------------------

#[test]
fn test_count_action() {
    let mut parser = OptionParser::new();
    parser.add_option(&["-v", "--verbose"], "verbose", OptionAction::Count, 0, None);

    let args = vec![
        "-v".to_string(),
        "-v".to_string(),
        "--verbose".to_string(),
    ];
    let (opts, _, _) = parser.parse_args(args).unwrap();

    assert_eq!(opts.get("verbose"), Some(&ParsedValue::Count(3)));
}

#[test]
fn test_append_action() {
    let mut parser = OptionParser::new();
    parser.add_option(&["-f", "--file"], "files", OptionAction::Append, 1, None);

    let args = vec![
        "-f".to_string(),
        "a.txt".to_string(),
        "--file".to_string(),
        "b.txt".to_string(),
        "-f".to_string(),
        "c.txt".to_string(),
    ];
    let (opts, _, _) = parser.parse_args(args).unwrap();

    assert_eq!(
        opts.get("files"),
        Some(&ParsedValue::Multiple(vec![
            "a.txt".to_string(),
            "b.txt".to_string(),
            "c.txt".to_string()
        ]))
    );
}

#[test]
fn test_append_const_action() {
    let mut parser = OptionParser::new();
    parser.add_option(
        &["--debug"],
        "flags",
        OptionAction::AppendConst,
        0,
        Some("debug"),
    );
    parser.add_option(
        &["--trace"],
        "flags",
        OptionAction::AppendConst,
        0,
        Some("trace"),
    );

    let args = vec!["--debug".to_string(), "--trace".to_string()];
    let (opts, _, _) = parser.parse_args(args).unwrap();

    assert_eq!(
        opts.get("flags"),
        Some(&ParsedValue::Multiple(vec![
            "debug".to_string(),
            "trace".to_string()
        ]))
    );
}

#[test]
fn test_store_const_action() {
    let mut parser = OptionParser::new();
    parser.add_option(
        &["--debug"],
        "debug",
        OptionAction::StoreConst,
        0,
        Some("true"),
    );

    let args = vec!["--debug".to_string()];
    let (opts, _, _) = parser.parse_args(args).unwrap();

    assert_eq!(
        opts.get("debug"),
        Some(&ParsedValue::Single("true".to_string()))
    );
}

// -------------------------------------------------------------------------
// Positional argument tests
// -------------------------------------------------------------------------

#[test]
fn test_single_positional_argument() {
    let mut parser = OptionParser::new();
    parser.add_argument("file", 1);

    let args = vec!["input.txt".to_string()];
    let (opts, remaining, _) = parser.parse_args(args).unwrap();

    assert_eq!(
        opts.get("file"),
        Some(&ParsedValue::Single("input.txt".to_string()))
    );
    assert!(remaining.is_empty());
}

#[test]
fn test_variadic_positional_argument() {
    let mut parser = OptionParser::new();
    parser.add_argument("files", -1);

    let args = vec!["a.txt".to_string(), "b.txt".to_string(), "c.txt".to_string()];
    let (opts, remaining, _) = parser.parse_args(args).unwrap();

    assert_eq!(
        opts.get("files"),
        Some(&ParsedValue::Multiple(vec![
            "a.txt".to_string(),
            "b.txt".to_string(),
            "c.txt".to_string()
        ]))
    );
    assert!(remaining.is_empty());
}

#[test]
fn test_multiple_positional_arguments() {
    let mut parser = OptionParser::new();
    parser.add_argument("source", 1);
    parser.add_argument("dest", 1);

    let args = vec!["input.txt".to_string(), "output.txt".to_string()];
    let (opts, remaining, _) = parser.parse_args(args).unwrap();

    assert_eq!(
        opts.get("source"),
        Some(&ParsedValue::Single("input.txt".to_string()))
    );
    assert_eq!(
        opts.get("dest"),
        Some(&ParsedValue::Single("output.txt".to_string()))
    );
    assert!(remaining.is_empty());
}

#[test]
fn test_positional_with_variadic() {
    let mut parser = OptionParser::new();
    parser.add_argument("dest", 1);
    parser.add_argument("sources", -1);

    let args = vec!["out.txt".to_string(), "a.txt".to_string(), "b.txt".to_string()];
    let (opts, remaining, _) = parser.parse_args(args).unwrap();

    assert_eq!(
        opts.get("dest"),
        Some(&ParsedValue::Single("out.txt".to_string()))
    );
    assert_eq!(
        opts.get("sources"),
        Some(&ParsedValue::Multiple(vec![
            "a.txt".to_string(),
            "b.txt".to_string()
        ]))
    );
    assert!(remaining.is_empty());
}

#[test]
fn test_missing_required_positional() {
    let mut parser = OptionParser::new();
    parser.add_argument("file", 1);

    let args: Vec<String> = vec![];
    let (opts, _, _) = parser.parse_args(args).unwrap();

    // Missing argument results in Unset
    assert_eq!(opts.get("file"), Some(&ParsedValue::Unset));
}

// -------------------------------------------------------------------------
// Combined option and argument tests
// -------------------------------------------------------------------------

#[test]
fn test_options_and_arguments() {
    let mut parser = OptionParser::new();
    parser.add_option(&["-n", "--name"], "name", OptionAction::Store, 1, None);
    parser.add_option(&["-v", "--verbose"], "verbose", OptionAction::Count, 0, None);
    parser.add_argument("file", 1);

    let args = vec![
        "-v".to_string(),
        "--name".to_string(),
        "test".to_string(),
        "-v".to_string(),
        "input.txt".to_string(),
    ];
    let (opts, remaining, order) = parser.parse_args(args).unwrap();

    assert_eq!(opts.get("verbose"), Some(&ParsedValue::Count(2)));
    assert_eq!(
        opts.get("name"),
        Some(&ParsedValue::Single("test".to_string()))
    );
    assert_eq!(
        opts.get("file"),
        Some(&ParsedValue::Single("input.txt".to_string()))
    );
    assert!(remaining.is_empty());

    // Check order
    assert!(order.contains(&"verbose".to_string()));
    assert!(order.contains(&"name".to_string()));
    assert!(order.contains(&"file".to_string()));
}

// -------------------------------------------------------------------------
// Error case tests
// -------------------------------------------------------------------------

#[test]
fn test_missing_option_value() {
    let mut parser = OptionParser::new();
    parser.add_option(&["--name"], "name", OptionAction::Store, 1, None);

    let args = vec!["--name".to_string()];
    let result = parser.parse_args(args);

    assert!(result.is_err());
    match result.err().unwrap() {
        ClickError::BadOptionUsage { option_name, .. } => {
            assert_eq!(option_name, "--name");
        }
        _ => panic!("Expected BadOptionUsage error"),
    }
}

#[test]
fn test_option_takes_no_value() {
    let mut parser = OptionParser::new();
    parser.add_option(
        &["--debug"],
        "debug",
        OptionAction::StoreConst,
        0,
        Some("true"),
    );

    let args = vec!["--debug=value".to_string()];
    let result = parser.parse_args(args);

    assert!(result.is_err());
    match result.err().unwrap() {
        ClickError::BadOptionUsage { option_name, .. } => {
            assert_eq!(option_name, "--debug");
        }
        _ => panic!("Expected BadOptionUsage error"),
    }
}

// -------------------------------------------------------------------------
// Token normalization tests
// -------------------------------------------------------------------------

#[test]
fn test_token_normalize_func() {
    let mut parser =
        OptionParser::new().token_normalize_func(|s| s.to_lowercase());
    parser.add_option(&["--name"], "name", OptionAction::Store, 1, None);

    let args = vec!["--NAME".to_string(), "value".to_string()];
    let (opts, _, _) = parser.parse_args(args).unwrap();

    assert_eq!(
        opts.get("name"),
        Some(&ParsedValue::Single("value".to_string()))
    );
}

// -------------------------------------------------------------------------
// ParsedValue tests
// -------------------------------------------------------------------------

#[test]
fn test_parsed_value_accessors() {
    let single = ParsedValue::Single("test".to_string());
    assert_eq!(single.as_single(), Some("test"));
    assert!(single.as_multiple().is_none());
    assert!(single.as_count().is_none());
    assert!(single.as_flag().is_none());
    assert!(!single.is_unset());

    let multiple = ParsedValue::Multiple(vec!["a".to_string(), "b".to_string()]);
    assert!(multiple.as_single().is_none());
    assert_eq!(
        multiple.as_multiple(),
        Some(&["a".to_string(), "b".to_string()][..])
    );

    let count = ParsedValue::Count(5);
    assert_eq!(count.as_count(), Some(5));

    let flag = ParsedValue::Flag(true);
    assert_eq!(flag.as_flag(), Some(true));

    let unset = ParsedValue::Unset;
    assert!(unset.is_unset());
}

// -------------------------------------------------------------------------
// unpack_args tests
// -------------------------------------------------------------------------

#[test]
fn test_unpack_args_simple() {
    let args = vec!["a".to_string(), "b".to_string()];
    let specs = vec![1, 1];
    let (result, remaining) = unpack_args(&args, &specs).unwrap();

    assert_eq!(result.len(), 2);
    assert_eq!(result[0], ParsedValue::Single("a".to_string()));
    assert_eq!(result[1], ParsedValue::Single("b".to_string()));
    assert!(remaining.is_empty());
}

#[test]
fn test_unpack_args_variadic() {
    let args = vec!["a".to_string(), "b".to_string(), "c".to_string()];
    let specs = vec![-1]; // variadic
    let (result, remaining) = unpack_args(&args, &specs).unwrap();

    assert_eq!(result.len(), 1);
    assert_eq!(
        result[0],
        ParsedValue::Multiple(vec![
            "a".to_string(),
            "b".to_string(),
            "c".to_string()
        ])
    );
    assert!(remaining.is_empty());
}

#[test]
fn test_unpack_args_with_variadic_in_middle() {
    let args = vec![
        "dest".to_string(),
        "a".to_string(),
        "b".to_string(),
        "c".to_string(),
    ];
    let specs = vec![1, -1]; // dest, then variadic sources
    let (result, remaining) = unpack_args(&args, &specs).unwrap();

    assert_eq!(result.len(), 2);
    assert_eq!(result[0], ParsedValue::Single("dest".to_string()));
    assert_eq!(
        result[1],
        ParsedValue::Multiple(vec![
            "a".to_string(),
            "b".to_string(),
            "c".to_string()
        ])
    );
    assert!(remaining.is_empty());
}

#[test]
fn test_unpack_args_missing() {
    let args = vec!["a".to_string()];
    let specs = vec![1, 1];
    let (result, remaining) = unpack_args(&args, &specs).unwrap();

    assert_eq!(result.len(), 2);
    assert_eq!(result[0], ParsedValue::Single("a".to_string()));
    assert_eq!(result[1], ParsedValue::Unset);
    assert!(remaining.is_empty());
}

#[test]
fn test_unpack_args_empty_variadic() {
    let args: Vec<String> = vec![];
    let specs = vec![-1];
    let (result, remaining) = unpack_args(&args, &specs).unwrap();

    assert_eq!(result.len(), 1);
    assert_eq!(result[0], ParsedValue::Multiple(vec![]));
    assert!(remaining.is_empty());
}

// -------------------------------------------------------------------------
// Optional positional argument tests (Nargs::Optional -> NARGS_OPTIONAL)
// -------------------------------------------------------------------------

#[test]
fn test_unpack_args_optional_with_value() {
    let args = vec!["value".to_string()];
    let specs = vec![NARGS_OPTIONAL]; // optional
    let (result, remaining) = unpack_args(&args, &specs).unwrap();

    assert_eq!(result.len(), 1);
    assert_eq!(result[0], ParsedValue::Single("value".to_string()));
    assert!(remaining.is_empty());
}

#[test]
fn test_unpack_args_optional_without_value() {
    let args: Vec<String> = vec![];
    let specs = vec![NARGS_OPTIONAL]; // optional
    let (result, remaining) = unpack_args(&args, &specs).unwrap();

    assert_eq!(result.len(), 1);
    assert_eq!(result[0], ParsedValue::Unset);
    assert!(remaining.is_empty());
}

#[test]
fn test_unpack_args_optional_after_required() {
    let args = vec!["required".to_string(), "optional".to_string()];
    let specs = vec![1, NARGS_OPTIONAL]; // required, then optional
    let (result, remaining) = unpack_args(&args, &specs).unwrap();

    assert_eq!(result.len(), 2);
    assert_eq!(result[0], ParsedValue::Single("required".to_string()));
    assert_eq!(result[1], ParsedValue::Single("optional".to_string()));
    assert!(remaining.is_empty());
}

#[test]
fn test_unpack_args_optional_missing_after_required() {
    let args = vec!["required".to_string()];
    let specs = vec![1, NARGS_OPTIONAL]; // required, then optional
    let (result, remaining) = unpack_args(&args, &specs).unwrap();

    assert_eq!(result.len(), 2);
    assert_eq!(result[0], ParsedValue::Single("required".to_string()));
    assert_eq!(result[1], ParsedValue::Unset);
    assert!(remaining.is_empty());
}

#[test]
fn test_unpack_args_optional_before_required_preserves_required() {
    // Optional before required: with only one arg, required gets it
    let args = vec!["x".to_string()];
    let specs = vec![NARGS_OPTIONAL, 1]; // optional, then required
    let (result, remaining) = unpack_args(&args, &specs).unwrap();

    assert_eq!(result.len(), 2);
    // Optional should remain Unset since required needs the value
    assert_eq!(result[0], ParsedValue::Unset);
    // Required should get the value
    assert_eq!(result[1], ParsedValue::Single("x".to_string()));
    assert!(remaining.is_empty());
}

#[test]
fn test_unpack_args_optional_before_required_with_both() {
    // Optional before required: with two args, both get values
    let args = vec!["opt".to_string(), "req".to_string()];
    let specs = vec![NARGS_OPTIONAL, 1]; // optional, then required
    let (result, remaining) = unpack_args(&args, &specs).unwrap();

    assert_eq!(result.len(), 2);
    assert_eq!(result[0], ParsedValue::Single("opt".to_string()));
    assert_eq!(result[1], ParsedValue::Single("req".to_string()));
    assert!(remaining.is_empty());
}

// -------------------------------------------------------------------------
// Two variadic specs error test
// -------------------------------------------------------------------------

#[test]
fn test_unpack_args_two_variadic_error() {
    let args = vec!["a".to_string(), "b".to_string()];
    let specs = vec![-1, -1]; // two variadic - error
    let result = unpack_args(&args, &specs);

    assert!(result.is_err());
    let err = result.err().unwrap();
    assert!(err.to_string().contains("variadic"));
}

// -------------------------------------------------------------------------
// Optional option value tests
// -------------------------------------------------------------------------

#[test]
fn test_option_with_optional_value_explicit() {
    let mut parser = OptionParser::new();
    parser.add_option_ex(
        &["--opt"],
        "opt",
        OptionAction::Store,
        1,
        None,
        true, // flag_needs_value
    );

    // --opt=value should work normally
    let args = vec!["--opt=value".to_string()];
    let (opts, _, _) = parser.parse_args(args).unwrap();
    assert_eq!(
        opts.get("opt"),
        Some(&ParsedValue::Single("value".to_string()))
    );
}

#[test]
fn test_option_with_optional_value_followed_by_option() {
    let mut parser = OptionParser::new();
    parser.add_option_ex(
        &["--opt"],
        "opt",
        OptionAction::Store,
        1,
        None,
        true, // flag_needs_value
    );
    parser.add_option(&["--other"], "other", OptionAction::StoreConst, 0, Some("true"));

    // --opt followed by another option should not consume the next option
    let args = vec!["--opt".to_string(), "--other".to_string()];
    let (opts, _, _) = parser.parse_args(args).unwrap();
    assert_eq!(opts.get("opt"), Some(&ParsedValue::FlagNeedsValue));
    assert_eq!(
        opts.get("other"),
        Some(&ParsedValue::Single("true".to_string()))
    );
}

#[test]
fn test_option_with_optional_value_with_value() {
    let mut parser = OptionParser::new();
    parser.add_option_ex(
        &["--opt"],
        "opt",
        OptionAction::Store,
        1,
        None,
        true, // flag_needs_value
    );

    // --opt followed by a value should consume it
    let args = vec!["--opt".to_string(), "value".to_string()];
    let (opts, _, _) = parser.parse_args(args).unwrap();
    assert_eq!(
        opts.get("opt"),
        Some(&ParsedValue::Single("value".to_string()))
    );
}

#[test]
fn test_option_with_optional_value_at_end() {
    let mut parser = OptionParser::new();
    parser.add_option_ex(
        &["--opt"],
        "opt",
        OptionAction::Store,
        1,
        None,
        true, // flag_needs_value
    );

    // --opt at end of args should return FlagNeedsValue
    let args = vec!["--opt".to_string()];
    let (opts, _, _) = parser.parse_args(args).unwrap();
    assert_eq!(opts.get("opt"), Some(&ParsedValue::FlagNeedsValue));
}

// -------------------------------------------------------------------------
// Multi-value argument incomplete error tests
// -------------------------------------------------------------------------

#[test]
fn test_multi_value_argument_incomplete() {
    let mut parser = OptionParser::new();
    parser.add_argument("pair", 2); // requires 2 values

    // Only providing 1 value should error
    let args = vec!["first".to_string()];
    let result = parser.parse_args(args);

    assert!(result.is_err());
    let err = result.err().unwrap();
    assert!(err.to_string().contains("takes 2 values"));
}

#[test]
fn test_multi_value_argument_complete() {
    let mut parser = OptionParser::new();
    parser.add_argument("pair", 2); // requires 2 values

    // Providing 2 values should work
    let args = vec!["first".to_string(), "second".to_string()];
    let (opts, remaining, _) = parser.parse_args(args).unwrap();

    assert_eq!(
        opts.get("pair"),
        Some(&ParsedValue::Multiple(vec![
            "first".to_string(),
            "second".to_string()
        ]))
    );
    assert!(remaining.is_empty());
}
