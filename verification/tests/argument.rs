//! Tests of the argument module.

#[allow(unused_imports)]
use std::sync::Arc;
use click::argument::{Argument};
use click::completion::{get_completions};
use click::context::{ContextBuilder};
use click::parameter::{Nargs};
use click::types::{Choice, CompletionItem, INT, PathType, STRING};
#[allow(unused_imports)]
use click::parameter::Parameter;
#[allow(unused_imports)]
use click::argument::AnyTypeConverter;
#[allow(unused_imports)]
use click::types::{TypeConverter, FromValue};
#[allow(unused_imports)]
use click::group::CommandLike;
#[allow(unused_imports)]
use click::completion::ShellComplete;

#[test]
fn test_argument_creation_defaults() {
    let arg = Argument::new("filename").build();

    assert_eq!(arg.name(), "filename");
    assert!(arg.required());
    assert!(!arg.multiple());
    assert!(!arg.is_eager());
    assert!(arg.expose_value());
    assert_eq!(arg.nargs(), Nargs::Count(1));
    assert!(arg.default_value().is_none());
    assert_eq!(arg.param_type_name(), "argument");
}

#[test]
fn test_argument_human_readable_name() {
    // Default: uppercase name
    let arg = Argument::new("filename").build();
    assert_eq!(arg.human_readable_name(), "FILENAME");

    // Custom metavar
    let arg = Argument::new("file").metavar("PATH").build();
    assert_eq!(arg.human_readable_name(), "PATH");
}

#[test]
fn test_argument_with_default_is_optional() {
    let arg = Argument::new("output").default("out.txt").build();

    assert!(!arg.required());
    assert_eq!(arg.default_value(), Some("out.txt"));
}

#[test]
fn test_argument_explicit_required_with_default() {
    // Can still make it required even with a default
    let arg = Argument::new("output")
        .default("out.txt")
        .required(true)
        .build();

    assert!(arg.required());
    assert_eq!(arg.default_value(), Some("out.txt"));
}

#[test]
fn test_argument_explicit_optional_without_default() {
    let arg = Argument::new("output").required(false).build();

    assert!(!arg.required());
    assert!(arg.default_value().is_none());
}

#[test]
fn test_argument_variadic() {
    let arg = Argument::new("files").multiple().build();

    assert!(arg.multiple());
    assert_eq!(arg.nargs(), Nargs::Variadic);
}

#[test]
fn test_argument_nargs_variadic() {
    let arg = Argument::new("files").nargs(Nargs::Variadic).build();

    assert!(arg.multiple());
    assert_eq!(arg.nargs(), Nargs::Variadic);
}

#[test]
fn test_argument_nargs_optional() {
    let arg = Argument::new("file").nargs(Nargs::Optional).build();

    // Optional nargs means the argument itself is not required
    assert!(!arg.required());
    assert_eq!(arg.nargs(), Nargs::Optional);
}

#[test]
fn test_argument_nargs_count_zero() {
    let arg = Argument::new("flag").nargs(Nargs::Count(0)).build();

    // nargs=0 means not required
    assert!(!arg.required());
}

#[test]
fn test_argument_help_record_required() {
    let arg = Argument::new("filename").help("The input file").build();

    let record = arg.get_help_record();
    assert!(record.is_some());

    let (metavar, help) = record.unwrap();
    assert_eq!(metavar, "FILENAME");
    assert_eq!(help, "The input file");
}

#[test]
fn test_argument_help_record_optional() {
    let arg = Argument::new("filename")
        .required(false)
        .help("The input file")
        .build();

    let record = arg.get_help_record();
    assert!(record.is_some());

    let (metavar, help) = record.unwrap();
    assert_eq!(metavar, "[FILENAME]");
    assert_eq!(help, "The input file");
}

#[test]
fn test_argument_help_record_variadic() {
    let arg = Argument::new("files")
        .multiple()
        .help("Files to process")
        .build();

    let record = arg.get_help_record();
    assert!(record.is_some());

    let (metavar, _) = record.unwrap();
    assert_eq!(metavar, "FILES...");
}

#[test]
fn test_argument_help_record_optional_variadic() {
    let arg = Argument::new("files").multiple().required(false).build();

    let record = arg.get_help_record();
    let (metavar, _) = record.unwrap();
    assert_eq!(metavar, "[FILES]...");
}

#[test]
fn test_argument_hidden() {
    let arg = Argument::new("secret").hidden(true).build();

    assert!(arg.hidden());
    assert!(arg.get_help_record().is_none());
}

#[test]
fn test_argument_envvar() {
    let arg = Argument::new("filename").envvar("MY_FILE").build();

    let envvars = arg.envvar();
    assert!(envvars.is_some());
    assert_eq!(envvars.unwrap(), &["MY_FILE"]);
}

#[test]
fn test_argument_multiple_envvars() {
    let arg = Argument::new("filename")
        .envvars(&["MY_FILE", "FALLBACK_FILE"])
        .build();

    let envvars = arg.envvar();
    assert!(envvars.is_some());
    assert_eq!(envvars.unwrap(), &["MY_FILE", "FALLBACK_FILE"]);
}

#[test]
fn test_argument_convert() {
    let arg = Argument::new("text").build();

    let result = arg.convert("hello world");
    assert!(result.is_ok());
    assert_eq!(result.unwrap(), "hello world");
}

#[test]
fn test_argument_deprecated_marker() {
    let arg = Argument::new("old").deprecated(true).build();

    let metavar = arg.make_metavar();
    assert!(metavar.contains('!'));
}

#[test]
fn test_argument_custom_metavar() {
    let arg = Argument::new("file").metavar("PATH").build();

    assert_eq!(arg.make_metavar(), "PATH");
}

#[test]
fn test_argument_nargs_count_multiple() {
    let arg = Argument::new("pair").nargs(Nargs::Count(2)).build();

    let metavar = arg.make_metavar();
    assert_eq!(metavar, "PAIR...");
}

// =========================================================================
// Tests for Gap 1: Non-String type converters
// =========================================================================

#[test]
fn test_argument_with_int_type() {

    let arg = Argument::new("count").type_(INT).build();

    // Convert using convert_any
    let result = arg.convert_any("42");
    assert!(result.is_ok());

    // Downcast to i64
    let boxed = result.unwrap();
    let value = <i64 as FromValue>::from_value(&boxed);
    assert!(value.is_some());
    assert_eq!(*value.unwrap(), 42i64);
}

#[test]
fn test_argument_with_int_type_error() {

    let arg = Argument::new("count").type_(INT).build();

    let result = arg.convert_any("not-a-number");
    assert!(result.is_err());
}

#[test]
fn test_argument_with_choice_type() {

    let arg = Argument::new("format")
        .type_(Choice::new(&["json", "xml", "yaml"]))
        .build();

    let result = arg.convert_any("json");
    assert!(result.is_ok());

    let boxed = result.unwrap();
    let value = <String as FromValue>::from_value(&boxed);
    assert!(value.is_some());
    assert_eq!(value.unwrap(), "json");

    // Invalid choice
    let result = arg.convert_any("csv");
    assert!(result.is_err());
}

#[test]
fn test_argument_string_convert_fallback() {
    // The convert() method should still work for String types
    let arg = Argument::new("text").build();
    let result = arg.convert("hello");
    assert!(result.is_ok());
    assert_eq!(result.unwrap(), "hello");
}

#[test]
fn test_argument_convert_non_string_returns_error() {

    // When using convert() on non-String type, it should return an error
    let arg = Argument::new("count").type_(INT).build();
    let result = arg.convert("42");
    assert!(result.is_err());
    assert!(result.err().unwrap().contains("non-String"));
}

// =========================================================================
// Tests for Gap 2: Custom shell_complete callback
// =========================================================================

#[test]
fn test_argument_shell_complete_callback() {

    let arg = Argument::new("filename")
        .shell_complete(|_ctx, incomplete| {
            vec![
                CompletionItem::new(format!("{}.txt", incomplete)),
                CompletionItem::new(format!("{}.md", incomplete)),
            ]
        })
        .build();

    assert!(arg.has_shell_complete_callback());

    let ctx = ContextBuilder::new().build();
    let completions = arg.get_completions(&ctx, "test");

    assert_eq!(completions.len(), 2);
    assert_eq!(completions[0].value, "test.txt");
    assert_eq!(completions[1].value, "test.md");
}

#[test]
fn test_argument_shell_complete_from_type() {

    // Without custom callback, completions come from the type converter
    let arg = Argument::new("format")
        .type_(Choice::new(&["json", "xml", "yaml"]))
        .build();

    assert!(!arg.has_shell_complete_callback());

    let ctx = ContextBuilder::new().build();
    let completions = arg.get_completions(&ctx, "j");

    assert_eq!(completions.len(), 1);
    assert_eq!(completions[0].value, "json");
}

#[test]
fn test_argument_shell_complete_overrides_type() {

    // Custom callback should override type's completions
    let arg = Argument::new("format")
        .type_(Choice::new(&["json", "xml", "yaml"]))
        .shell_complete(|_ctx, _incomplete| {
            vec![CompletionItem::new("custom")]
        })
        .build();

    let ctx = ContextBuilder::new().build();
    let completions = arg.get_completions(&ctx, "j");

    // Should use custom callback, not Choice completions
    assert_eq!(completions.len(), 1);
    assert_eq!(completions[0].value, "custom");
}

#[test]
fn test_argument_no_shell_complete() {

    // Default STRING type has no completions
    let arg = Argument::new("text").build();

    assert!(!arg.has_shell_complete_callback());

    let ctx = ContextBuilder::new().build();
    let completions = arg.get_completions(&ctx, "test");

    assert!(completions.is_empty());
}

#[test]
fn test_argument_shell_complete_with_context() {

    // Test that the callback receives the context
    let arg = Argument::new("name")
        .shell_complete(|ctx, incomplete| {
            // Use info_name from context in completion
            let prefix = ctx.info_name().unwrap_or("default");
            vec![CompletionItem::new(format!("{}_{}", prefix, incomplete))]
        })
        .build();

    let ctx = ContextBuilder::new().info_name("myapp").build();
    let completions = arg.get_completions(&ctx, "test");

    assert_eq!(completions.len(), 1);
    assert_eq!(completions[0].value, "myapp_test");
}
