//! Tests of the error module.

#[allow(unused_imports)]
use std::sync::Arc;
use click::argument::{Argument};
use click::error::{ClickError, ErrorContext, ParamType};
use click::parameter::{Parameter};
#[allow(unused_imports)]
use click::argument::AnyTypeConverter;
#[allow(unused_imports)]
use click::types::{TypeConverter, FromValue};
#[allow(unused_imports)]
use click::group::CommandLike;
#[allow(unused_imports)]
use click::completion::ShellComplete;

#[test]
fn test_exit_codes() {
    assert_eq!(ClickError::usage("test").exit_code(), 2);
    assert_eq!(ClickError::bad_parameter("test").exit_code(), 2);
    assert_eq!(ClickError::missing_option("--foo").exit_code(), 2);
    assert_eq!(ClickError::missing_argument("FILE").exit_code(), 2);
    assert_eq!(ClickError::no_such_option("--bar").exit_code(), 2);
    assert_eq!(ClickError::bad_option_usage("--x", "msg").exit_code(), 2);
    assert_eq!(ClickError::bad_argument_usage("msg").exit_code(), 2);
    assert_eq!(ClickError::file_error("test.txt", "not found").exit_code(), 1);
    assert_eq!(ClickError::abort().exit_code(), 1);
    assert_eq!(ClickError::exit(0).exit_code(), 0);
    assert_eq!(ClickError::exit(42).exit_code(), 42);
}

#[test]
fn test_usage_error_display() {
    let err = ClickError::usage("invalid command");
    assert_eq!(err.to_string(), "invalid command");
}

#[test]
fn test_bad_parameter_format() {
    let err = ClickError::bad_parameter_named("must be positive", "--count");
    assert_eq!(
        err.format_message(),
        "Invalid value for '--count': must be positive"
    );

    let err = ClickError::bad_parameter("must be positive");
    assert_eq!(err.format_message(), "Invalid value: must be positive");
}

#[test]
fn test_missing_parameter_display() {
    let err = ClickError::missing_option("--name");
    assert_eq!(err.to_string(), "Missing option '--name'.");

    let err = ClickError::missing_argument("FILE");
    assert_eq!(err.to_string(), "Missing argument 'FILE'.");
}

#[test]
fn test_no_such_option_display() {
    let err = ClickError::no_such_option("--hlep");
    assert_eq!(err.to_string(), "No such option: --hlep");

    let err = ClickError::no_such_option_with_suggestions("--hlep", vec!["--help".to_string()]);
    assert_eq!(err.to_string(), "No such option: --hlep Did you mean '--help'?");

    // Order is preserved from suggestion algorithm (not sorted), each option quoted
    let err = ClickError::no_such_option_with_suggestions(
        "--hlep",
        vec!["--help".to_string(), "--hello".to_string()],
    );
    assert_eq!(
        err.to_string(),
        "No such option: --hlep (Possible options: '--help', '--hello')"
    );
}

#[test]
fn test_file_error_display() {
    let err = ClickError::file_error("/path/to/file.txt", "permission denied");
    assert_eq!(
        err.to_string(),
        "Could not open file '/path/to/file.txt': permission denied"
    );
}

#[test]
fn test_abort_display() {
    let err = ClickError::abort();
    assert_eq!(err.to_string(), "Aborted!");
}

#[test]
fn test_exit_display() {
    let err = ClickError::exit(0);
    assert_eq!(err.to_string(), "Exit with code 0");

    let err = ClickError::exit(1);
    assert_eq!(err.to_string(), "Exit with code 1");
}

#[test]
fn test_context_help_hint() {
    let ctx = ErrorContext::new()
        .with_command_path("myapp")
        .with_help_options(vec!["--help".to_string(), "-h".to_string()]);

    assert_eq!(ctx.help_hint(), Some("Try 'myapp --help' for help.".to_string()));
}

#[test]
fn test_format_full_with_context() {
    let ctx = ErrorContext::new()
        .with_command_path("myapp")
        .with_usage("Usage: myapp [OPTIONS] FILE")
        .with_help_options(vec!["--help".to_string()]);

    let err = ClickError::missing_argument("FILE").with_context(ctx);
    let output = err.format_full();

    assert!(output.contains("Usage: myapp [OPTIONS] FILE"));
    assert!(output.contains("Try 'myapp --help' for help."));
    assert!(output.contains("Error: Missing argument 'FILE'."));
}

#[test]
fn test_is_usage_error() {
    assert!(ClickError::usage("test").is_usage_error());
    assert!(ClickError::bad_parameter("test").is_usage_error());
    assert!(ClickError::missing_option("--foo").is_usage_error());
    assert!(ClickError::no_such_option("--bar").is_usage_error());
    assert!(ClickError::bad_option_usage("--x", "msg").is_usage_error());
    assert!(ClickError::bad_argument_usage("msg").is_usage_error());

    assert!(!ClickError::file_error("f", "h").is_usage_error());
    assert!(!ClickError::abort().is_usage_error());
    assert!(!ClickError::exit(0).is_usage_error());
}

#[test]
fn test_param_type_display() {
    assert_eq!(ParamType::Argument.to_string(), "argument");
    assert_eq!(ParamType::Option.to_string(), "option");
    assert_eq!(ParamType::Parameter.to_string(), "parameter");
}
