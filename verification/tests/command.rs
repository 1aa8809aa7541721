//! Tests of the command module.

#[allow(unused_imports)]
use std::sync::Arc;
use click::argument::{Argument};
use click::command::{Command, make_help_option};
use click::strmap::{StrMap};
use click::context::{ContextBuilder};
use click::error::{ClickError};
use click::option::{ClickOption};
use click::parameter::{Nargs};
use click::types::{INT};
use std::sync::atomic::{AtomicBool, Ordering};
#[allow(unused_imports)]
use click::parameter::Parameter;
#[allow(unused_imports)]
use click::argument::AnyTypeConverter;
#[allow(unused_imports)]
use click::types::{TypeConverter, FromValue};
#[allow(unused_imports)]
use click::group::CommandLike;
#[allow(unused_imports)]
use click::completion::ShellComplete;

#[test]
fn test_command_creation_defaults() {
    let cmd = Command::new("test").build();

    assert_eq!(cmd.name, Some("test".to_string()));
    assert!(cmd.callback.is_none());
    assert!(cmd.options.is_empty());
    assert!(cmd.arguments.is_empty());
    assert!(cmd.help.is_none());
    assert!(cmd.epilog.is_none());
    assert!(cmd.short_help.is_none());
    assert_eq!(cmd.options_metavar, "[OPTIONS]");
    assert!(cmd.add_help_option);
    assert!(!cmd.no_args_is_help);
    assert!(!cmd.hidden);
    assert!(cmd.deprecated.is_none());
    assert!(!cmd.allow_extra_args);
    assert!(cmd.allow_interspersed_args);
    assert!(!cmd.ignore_unknown_options);
}

#[test]
fn test_command_builder_chain() {
    let cmd = Command::new("hello")
        .help("Say hello to someone")
        .epilog("Example: hello --name World")
        .short_help("Say hello")
        .options_metavar("[OPTS]")
        .add_help_option(false)
        .no_args_is_help(true)
        .hidden()
        .deprecated("Use 'greet' instead")
        .allow_extra_args(true)
        .allow_interspersed_args(false)
        .ignore_unknown_options(true)
        .build();

    assert_eq!(cmd.name, Some("hello".to_string()));
    assert_eq!(cmd.help, Some("Say hello to someone".to_string()));
    assert_eq!(cmd.epilog, Some("Example: hello --name World".to_string()));
    assert_eq!(cmd.short_help, Some("Say hello".to_string()));
    assert_eq!(cmd.options_metavar, "[OPTS]");
    assert!(!cmd.add_help_option);
    assert!(cmd.no_args_is_help);
    assert!(cmd.hidden);
    assert_eq!(cmd.deprecated, Some("Use 'greet' instead".to_string()));
    assert!(cmd.allow_extra_args);
    assert!(!cmd.allow_interspersed_args);
    assert!(cmd.ignore_unknown_options);
}

#[test]
fn test_command_with_callback() {

    let called = Arc::new(AtomicBool::new(false));
    let called_clone = Arc::clone(&called);

    let cmd = Command::new("test")
        .callback(move |_ctx| {
            called_clone.store(true, Ordering::SeqCst);
            Ok(())
        })
        .build();

    assert!(cmd.callback.is_some());

    // Create a minimal context and invoke
    let ctx = ContextBuilder::new().info_name("test").build();
    let result = cmd.invoke(&ctx);
    assert!(result.is_ok());
    assert!(called.load(Ordering::SeqCst));
}

#[test]
fn test_command_with_option() {
    let cmd = Command::new("greet")
        .option(
            ClickOption::new(&["--name", "-n"])
                .help("Name to greet")
                .default("World")
                .build(),
        )
        .build();

    assert_eq!(cmd.options.len(), 1);
    assert_eq!(cmd.options[0].name(), "name");
}

#[test]
fn test_command_with_argument() {
    let cmd = Command::new("cat")
        .argument(Argument::new("file").help("File to read").build())
        .build();

    assert_eq!(cmd.arguments.len(), 1);
    assert_eq!(cmd.arguments[0].name(), "file");
}

#[test]
fn test_command_with_multiple_params() {
    let cmd = Command::new("copy")
        .option(
            ClickOption::new(&["--recursive", "-r"])
                .flag("true")
                .help("Copy recursively")
                .build(),
        )
        .argument(Argument::new("src").help("Source path").build())
        .argument(Argument::new("dst").help("Destination path").build())
        .build();

    assert_eq!(cmd.options.len(), 1);
    assert_eq!(cmd.arguments.len(), 2);
}

#[test]
fn test_make_context_basic() {
    let cmd = Command::new("hello").build();
    let ctx = cmd.make_context("hello", vec![], None);

    assert!(ctx.is_ok());
    let ctx = ctx.unwrap();
    assert_eq!(ctx.info_name(), Some("hello"));
}

#[test]
fn test_parse_args_with_option() {
    let cmd = Command::new("greet")
        .option(
            ClickOption::new(&["--name", "-n"])
                .default("World")
                .build(),
        )
        .build();

    let ctx = cmd.make_context("greet", vec!["--name".to_string(), "Alice".to_string()], None);
    assert!(ctx.is_ok());

    let ctx = ctx.unwrap();
    let name = ctx.get_param::<String>("name");
    assert_eq!(name, Some(&"Alice".to_string()));
}

#[test]
fn test_parse_args_with_argument() {
    let cmd = Command::new("cat")
        .argument(Argument::new("file").build())
        .build();

    let ctx = cmd.make_context("cat", vec!["test.txt".to_string()], None);
    assert!(ctx.is_ok());

    let ctx = ctx.unwrap();
    let file = ctx.get_param::<String>("file");
    assert_eq!(file, Some(&"test.txt".to_string()));
}

#[test]
fn test_parse_args_missing_required() {
    let cmd = Command::new("cat")
        .argument(Argument::new("file").build())
        .build();

    let ctx = cmd.make_context("cat", vec![], None);
    assert!(ctx.is_err());

    let err = ctx.err().unwrap();
    assert!(matches!(err, ClickError::MissingParameter { .. }));
}

#[test]
fn test_parse_args_extra_args_error() {
    let cmd = Command::new("hello").build();

    let ctx = cmd.make_context("hello", vec!["extra".to_string()], None);
    assert!(ctx.is_err());

    let err = ctx.err().unwrap();
    assert!(matches!(err, ClickError::UsageError { .. }));
}

#[test]
fn test_parse_args_extra_args_allowed() {
    let cmd = Command::new("hello").allow_extra_args(true).build();

    let ctx = cmd.make_context("hello", vec!["extra".to_string()], None);
    assert!(ctx.is_ok());

    let ctx = ctx.unwrap();
    assert_eq!(ctx.args(), &["extra".to_string()]);
}

#[test]
fn test_get_usage() {
    let cmd = Command::new("copy")
        .argument(Argument::new("src").build())
        .argument(Argument::new("dst").build())
        .build();

    let ctx = ContextBuilder::new().info_name("copy").build();
    let usage = cmd.get_usage(&ctx);

    assert!(usage.contains("Usage:"));
    assert!(usage.contains("copy"));
    assert!(usage.contains("[OPTIONS]"));
    assert!(usage.contains("SRC"));
    assert!(usage.contains("DST"));
}

#[test]
fn test_get_help() {
    let cmd = Command::new("greet")
        .help("Greet someone")
        .option(
            ClickOption::new(&["--name", "-n"])
                .help("Name to greet")
                .build(),
        )
        .epilog("Example: greet --name World")
        .build();

    let ctx = ContextBuilder::new().info_name("greet").build();
    let help = cmd.get_help(&ctx);

    assert!(help.contains("Usage:"));
    assert!(help.contains("Greet someone"));
    assert!(help.contains("Options:"));
    assert!(help.contains("--name"));
    assert!(help.contains("Name to greet"));
    assert!(help.contains("Example:"));
}

#[test]
fn test_get_short_help() {
    // Explicit short_help
    let cmd = Command::new("test").short_help("Test command").build();
    assert_eq!(cmd.get_short_help(), "Test command");

    // Derived from help
    let cmd = Command::new("test")
        .help("This is a test. It does things.")
        .build();
    assert_eq!(cmd.get_short_help(), "This is a test");

    // With deprecation
    let cmd = Command::new("test")
        .short_help("Test command")
        .deprecated("Use 'new-test' instead")
        .build();
    assert!(cmd.get_short_help().contains("DEPRECATED"));
    assert!(cmd.get_short_help().contains("Use 'new-test' instead"));
}

#[test]
fn test_make_help_option() {
    let help_opt = make_help_option(&["--help".to_string(), "-h".to_string()]);

    assert!(help_opt.is_flag);
    assert!(help_opt.is_eager());
    assert_eq!(help_opt.help(), Some("Show this message and exit."));
}

#[test]
fn test_invoke_with_deprecation() {
    let cmd = Command::new("old")
        .deprecated("Use 'new' instead")
        .callback(|_| Ok(()))
        .build();

    let ctx = ContextBuilder::new().info_name("old").build();
    // This will print a deprecation warning to stderr
    let result = cmd.invoke(&ctx);
    assert!(result.is_ok());
}

#[test]
fn test_parse_flag_option() {
    let cmd = Command::new("test")
        .option(
            ClickOption::new(&["--verbose", "-v"])
                .flag("true")
                .build(),
        )
        .build();

    let ctx = cmd.make_context("test", vec!["--verbose".to_string()], None);
    assert!(ctx.is_ok());

    let ctx = ctx.unwrap();
    let verbose = ctx.get_param::<String>("verbose");
    assert_eq!(verbose, Some(&"true".to_string()));
}

#[test]
fn test_parse_count_option() {
    let cmd = Command::new("test")
        .option(ClickOption::new(&["--verbose", "-v"]).count().build())
        .build();

    let ctx = cmd.make_context(
        "test",
        vec!["-v".to_string(), "-v".to_string(), "-v".to_string()],
        None,
    );
    assert!(ctx.is_ok());

    let ctx = ctx.unwrap();
    let verbose = ctx.get_param::<usize>("verbose");
    assert_eq!(verbose, Some(&3));
}

#[test]
fn test_option_type_conversion() {
    let cmd = Command::new("test")
        .option(ClickOption::new(&["--count"]).type_any(INT).build())
        .build();

    let ctx = cmd.make_context("test", vec!["--count".to_string(), "42".to_string()], None);
    assert!(ctx.is_ok());

    let ctx = ctx.unwrap();
    let count = ctx.get_param::<i64>("count");
    assert_eq!(count, Some(&42));
}

#[test]
fn test_option_with_default() {
    let cmd = Command::new("greet")
        .option(
            ClickOption::new(&["--name"])
                .default("World")
                .build(),
        )
        .build();

    // Without providing the option
    let ctx = cmd.make_context("greet", vec![], None);
    assert!(ctx.is_ok());

    let ctx = ctx.unwrap();
    let name = ctx.get_param::<String>("name");
    assert_eq!(name, Some(&"World".to_string()));
}

#[test]
fn test_option_envvar_value() {
    let mut env = StrMap::new();
    env.insert("CLICK_TEST_COUNT".to_string(), "9".to_string());
    let cmd = Command::new("test")
        .option(
            ClickOption::new(&["--count"])
                .envvar("CLICK_TEST_COUNT")
                .type_any(INT)
                .build(),
        )
        .build();

    let mut ctx = ContextBuilder::new().info_name("test").env(env).build();
    let result = cmd.parse_args(&mut ctx, vec![]);

    assert!(result.is_ok());
    let count = ctx.get_param::<i64>("count");
    assert_eq!(count, Some(&9));
}

#[test]
fn test_argument_type_conversion() {
    let cmd = Command::new("greet")
        .argument(Argument::new("count").type_(INT).build())
        .build();

    let ctx = cmd.make_context("greet", vec!["7".to_string()], None);
    assert!(ctx.is_ok());

    let ctx = ctx.unwrap();
    let count = ctx.get_param::<i64>("count");
    assert_eq!(count, Some(&7));
}

#[test]
fn test_argument_type_conversion_error() {
    let cmd = Command::new("greet")
        .argument(Argument::new("count").type_(INT).build())
        .build();

    let ctx = cmd.make_context("greet", vec!["nope".to_string()], None);
    assert!(matches!(ctx, Err(ClickError::BadParameter { .. })));
}

#[test]
fn test_argument_with_default() {
    let cmd = Command::new("greet")
        .argument(Argument::new("name").default("World").build())
        .build();

    // Without providing the argument
    let ctx = cmd.make_context("greet", vec![], None);
    assert!(ctx.is_ok());

    let ctx = ctx.unwrap();
    let name = ctx.get_param::<String>("name");
    assert_eq!(name, Some(&"World".to_string()));
}

#[test]
fn test_argument_auto_envvar_prefix() {
    let mut env = StrMap::new();
    env.insert("MYAPP_NAME".to_string(), "Alice".to_string());
    let cmd = Command::new("greet")
        .argument(Argument::new("name").build())
        .build();

    let mut ctx = ContextBuilder::new()
        .info_name("greet")
        .auto_envvar_prefix("MYAPP")
        .env(env)
        .build();

    let result = cmd.parse_args(&mut ctx, vec![]);

    assert!(result.is_ok());
    let name = ctx.get_param::<String>("name");
    assert_eq!(name, Some(&"Alice".to_string()));
}

// -------------------------------------------------------------------------
// Optional positional argument tests (fix for Nargs::Optional)
// -------------------------------------------------------------------------

#[test]
fn test_optional_argument_with_value() {

    let cmd = Command::new("test")
        .argument(
            Argument::new("file")
                .nargs(Nargs::Optional)
                .default("default.txt")
                .build(),
        )
        .build();

    // With a value provided
    let ctx = cmd.make_context("test", vec!["input.txt".to_string()], None);
    assert!(ctx.is_ok());

    let ctx = ctx.unwrap();
    let file = ctx.get_param::<String>("file");
    assert_eq!(file, Some(&"input.txt".to_string()));
}

#[test]
fn test_optional_argument_without_value() {

    let cmd = Command::new("test")
        .argument(
            Argument::new("file")
                .nargs(Nargs::Optional)
                .default("default.txt")
                .build(),
        )
        .build();

    // Without providing the optional argument - should use default
    let ctx = cmd.make_context("test", vec![], None);
    assert!(ctx.is_ok());

    let ctx = ctx.unwrap();
    let file = ctx.get_param::<String>("file");
    assert_eq!(file, Some(&"default.txt".to_string()));
}

#[test]
fn test_required_followed_by_optional_argument() {

    let cmd = Command::new("copy")
        .argument(Argument::new("src").build()) // required
        .argument(
            Argument::new("dst")
                .nargs(Nargs::Optional)
                .default(".")
                .build(),
        )
        .build();

    // Only providing required arg
    let ctx = cmd.make_context("copy", vec!["source.txt".to_string()], None);
    assert!(ctx.is_ok());

    let ctx = ctx.unwrap();
    let src = ctx.get_param::<String>("src");
    let dst = ctx.get_param::<String>("dst");
    assert_eq!(src, Some(&"source.txt".to_string()));
    assert_eq!(dst, Some(&".".to_string()));
}

#[test]
fn test_required_followed_by_optional_with_both_values() {

    let cmd = Command::new("copy")
        .argument(Argument::new("src").build()) // required
        .argument(
            Argument::new("dst")
                .nargs(Nargs::Optional)
                .default(".")
                .build(),
        )
        .build();

    // Providing both args
    let ctx = cmd.make_context(
        "copy",
        vec!["source.txt".to_string(), "dest.txt".to_string()],
        None,
    );
    assert!(ctx.is_ok());

    let ctx = ctx.unwrap();
    let src = ctx.get_param::<String>("src");
    let dst = ctx.get_param::<String>("dst");
    assert_eq!(src, Some(&"source.txt".to_string()));
    assert_eq!(dst, Some(&"dest.txt".to_string()));
}

// -------------------------------------------------------------------------
// Multi-value argument error test (fix for issue 2)
// -------------------------------------------------------------------------

#[test]
fn test_multi_value_argument_incomplete_error() {

    let cmd = Command::new("point")
        .argument(Argument::new("coords").nargs(Nargs::Count(3)).build())
        .build();

    // Only providing 2 of 3 required values
    let ctx = cmd.make_context(
        "point",
        vec!["1".to_string(), "2".to_string()],
        None,
    );

    // Should fail with an error about missing values
    assert!(ctx.is_err());
    let err = ctx.err().unwrap();
    assert!(err.to_string().contains("takes 3 values"));
}

// -------------------------------------------------------------------------
// Optional option value test (fix for issue 4)
// -------------------------------------------------------------------------

#[test]
fn test_optional_option_value_with_flag_value() {

    let cmd = Command::new("test")
        .option(
            ClickOption::new(&["--opt"])
                .nargs(Nargs::Optional)
                .flag("flagval") // Used when option is used without value
                .default("default")
                .build(),
        )
        .build();

    // Using --opt followed by another option (would trigger FlagNeedsValue)
    let ctx = cmd.make_context("test", vec!["--opt".to_string()], None);
    assert!(ctx.is_ok());

    let ctx = ctx.unwrap();
    let opt = ctx.get_param::<String>("opt");
    // Should use the flag_value since --opt was used without an argument
    assert_eq!(opt, Some(&"flagval".to_string()));
}

// -------------------------------------------------------------------------
// Eager option (--help) tests
// -------------------------------------------------------------------------

#[test]
fn test_help_with_missing_required_arg() {
    // --help should work even when a required argument is missing
    let cmd = Command::new("test")
        .argument(Argument::new("required_file").build())
        .build();

    // Without --help, missing required arg should fail
    let ctx = cmd.make_context("test", vec![], None);
    assert!(ctx.is_err());

    // With --help, should exit cleanly (Exit code 0)
    let ctx = cmd.make_context("test", vec!["--help".to_string()], None);
    assert!(matches!(ctx, Err(ClickError::Exit { code: 0 })));
}

#[test]
fn test_help_with_missing_required_option() {
    // --help should work even when a required option is missing
    let cmd = Command::new("test")
        .option(
            ClickOption::new(&["--name", "-n"])
                .required()
                .build(),
        )
        .build();

    // Without --help, missing required option should fail
    let ctx = cmd.make_context("test", vec![], None);
    assert!(ctx.is_err());

    // With --help, should exit cleanly (Exit code 0)
    let ctx = cmd.make_context("test", vec!["--help".to_string()], None);
    assert!(matches!(ctx, Err(ClickError::Exit { code: 0 })));
}
