//! Tests of the testing module.

#[allow(unused_imports)]
use std::sync::Arc;
use click::command::{Command};
use click::error::{ClickError};
use click::testing::{CliRunner, InvokeResult, make_test_context};
use click::text::{starts_with};
#[allow(unused_imports)]
use click::parameter::Parameter;
#[allow(unused_imports)]
use click::argument::AnyTypeConverter;
#[allow(unused_imports)]
use click::types::{TypeConverter, FromValue};
#[allow(unused_imports)]
use click::group::CommandLike;
#[allow(unused_imports)]
use click::completion::ShellComplete;

#[test]
fn test_cli_runner_new() {
    let runner = CliRunner::new();
    assert!(runner.env.is_empty());
    assert!(runner.env_unset.is_empty());
}

#[test]
fn test_cli_runner_env() {
    let runner = CliRunner::new()
        .env("TEST_VAR", "test_value")
        .env("ANOTHER", "value");

    assert_eq!(runner.env.get("TEST_VAR"), Some(&"test_value".to_string()));
    assert_eq!(runner.env.get("ANOTHER"), Some(&"value".to_string()));
}

#[test]
fn test_cli_runner_env_unset() {
    let runner = CliRunner::new().env("KEEP", "value").env_unset("REMOVE");

    assert_eq!(runner.env.len(), 1);
    assert_eq!(runner.env_unset.len(), 1);
}

#[test]
fn test_cli_runner_env_clear() {
    let runner = CliRunner::new()
        .env("VAR1", "val1")
        .env("VAR2", "val2")
        .env_unset("VAR3")
        .env_clear();

    assert!(runner.env.is_empty());
    assert!(runner.env_unset.is_empty());
}

#[test]
fn test_invoke_result_is_success() {
    let result = InvokeResult::new(0, String::new(), String::new(), None);

    assert!(result.is_success());
    assert!(!result.is_failure());
}

#[test]
fn test_invoke_result_is_failure() {
    let result = InvokeResult::new(1, String::new(), String::new(), None);

    assert!(!result.is_success());
    assert!(result.is_failure());
}

#[test]
fn test_invoke_result_output_contains() {
    let result = InvokeResult::new(0, "Hello, World!".to_string(), String::new(), None);

    assert!(result.output_contains("Hello"));
    assert!(result.output_contains("World"));
    assert!(!result.output_contains("Goodbye"));
}

#[test]
fn test_invoke_result_output_lines() {
    let result = InvokeResult::new(0, "line1\nline2\nline3".to_string(), String::new(), None);

    let lines = result.output_lines();
    assert_eq!(lines.len(), 3);
    assert_eq!(lines[0], "line1");
    assert_eq!(lines[1], "line2");
    assert_eq!(lines[2], "line3");
}

#[test]
fn test_invoke_result_combined_output() {
    let result = InvokeResult::new(0, "stdout".to_string(), "stderr".to_string(), None);

    assert_eq!(result.combined_output(), "stdoutstderr");
}

#[test]
fn test_make_test_context() {
    let ctx = make_test_context("test");
    assert_eq!(ctx.info_name(), Some("test"));
}

#[test]
fn test_cli_runner_mix_stderr() {
    let runner = CliRunner::new().mix_stderr(false);
    assert!(!runner.mix_stderr);

    let runner = CliRunner::new().mix_stderr(true);
    assert!(runner.mix_stderr);
}

#[test]
fn test_cli_runner_echo_stdin() {
    let runner = CliRunner::new().echo_stdin(true);
    assert!(runner.echo_stdin);
}

#[test]
fn test_decode_output_charsets() {
    let runner = CliRunner::new();
    assert_eq!(runner.decode_output("héllo".as_bytes()), "héllo");
    let latin = CliRunner::new().charset(" Latin-1 ");
    assert_eq!(latin.decode_output(b"caf\xe9"), "caf\u{e9}");
    let unknown = CliRunner::new().charset("no-such-charset");
    assert_eq!(unknown.decode_output(b"plain"), "plain");
}

#[test]
fn test_result_of_echo_and_mix() {
    let runner = CliRunner::new().echo_stdin(true).mix_stderr(true);
    let r = runner.result_of(0, None, "out".to_string(), "err".to_string(), "in\n");
    assert_eq!(r.output, "in\nouterr");
    assert_eq!(r.stderr, "err");
    let runner = CliRunner::new().mix_stderr(false);
    let r = runner.result_of(2, Some("x".to_string()), "out".to_string(), "err".to_string(), "in");
    assert_eq!(r.output, "out");
    assert_eq!(r.exit_code, 2);
}
