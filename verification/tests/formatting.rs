//! Tests of the formatting module.

#[allow(unused_imports)]
use std::sync::Arc;
use click::formatting::{HelpFormatter, truncate_text, wrap_text};
#[allow(unused_imports)]
use click::parameter::Parameter;
#[allow(unused_imports)]
use click::argument::AnyTypeConverter;
#[allow(unused_imports)]
use click::types::{TypeConverter, FromValue};
#[allow(unused_imports)]
use click::group::CommandLike;
#[allow(unused_imports)]
use click::completion::ShellComplete;

#[test]
fn test_wrap_text() {
    let text = "This is a test of the text wrapping functionality";
    let wrapped = wrap_text(text, 20);
    assert!(wrapped.lines().all(|l| l.len() <= 20));
}

#[test]
fn test_wrap_preserves_newlines() {
    let text = "Line one\nLine two\nLine three";
    let wrapped = wrap_text(text, 80);
    assert_eq!(wrapped.lines().count(), 3);
}

#[test]
fn test_help_formatter_usage() {
    let mut fmt = HelpFormatter::new(80);
    fmt.write_usage("mycli", "[OPTIONS] COMMAND");
    assert!(fmt.get_help().contains("Usage: mycli [OPTIONS] COMMAND"));
}

#[test]
fn test_help_formatter_heading() {
    let mut fmt = HelpFormatter::new(80);
    fmt.write_heading("Options");
    assert!(fmt.get_help().contains("Options:\n"));
}

#[test]
fn test_help_formatter_definition_list() {
    let mut fmt = HelpFormatter::new(80);
    fmt.write_definition_list(&[("--help, -h", "Show help"), ("--version", "Show version")]);
    let help = fmt.get_help();
    assert!(help.contains("--help, -h"));
    assert!(help.contains("Show help"));
}

#[test]
fn test_truncate_text() {
    assert_eq!(truncate_text("hello", 10), "hello");
    assert_eq!(truncate_text("hello world", 8), "hello...");
    // Text that fits within max_width is not truncated
    assert_eq!(truncate_text("hi", 3), "hi");
    // Text that's too long for even "..." gets truncated to "..."
    assert_eq!(truncate_text("hello", 3), "...");
}
