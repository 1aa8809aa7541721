//! Tests of the group module.

#[allow(unused_imports)]
use std::sync::Arc;
use click::command::{Command};
use click::context::{Context, ContextBuilder};
use click::error::{ClickError};
use click::group::{AnyCommand, CommandCollection, CommandLike, Group, IntoCommand};
use click::option::{ClickOption};

use std::sync::atomic::{AtomicBool, Ordering};
#[allow(unused_imports)]
use click::parameter::Parameter;
#[allow(unused_imports)]
use click::argument::AnyTypeConverter;
#[allow(unused_imports)]
use click::types::{TypeConverter, FromValue};
#[allow(unused_imports)]
use click::completion::ShellComplete;

#[test]
fn test_group_creation_defaults() {
    let group = Group::new("test").build();

    assert_eq!(group.name(), Some("test"));
    assert!(group.commands.is_empty());
    assert!(!group.chain);
    assert!(!group.invoke_without_command);
    assert!(group.subcommand_required);
    assert_eq!(group.subcommand_metavar, "COMMAND [ARGS]...");
}

#[test]
fn test_group_with_subcommands() {
    let group = Group::new("cli")
        .command(Command::new("init").help("Initialize").build())
        .command(Command::new("build").help("Build").build())
        .build();

    assert_eq!(group.commands.len(), 2);
    assert!(group.get_command("init").is_some());
    assert!(group.get_command("build").is_some());
    assert!(group.get_command("unknown").is_none());
}

#[test]
fn test_list_commands_sorted() {
    let group = Group::new("cli")
        .command(Command::new("zebra").build())
        .command(Command::new("alpha").build())
        .command(Command::new("middle").build())
        .build();

    let commands = group.list_commands();
    assert_eq!(commands, vec!["alpha", "middle", "zebra"]);
}

#[test]
fn test_add_command_with_name() {
    let mut group = Group::new("cli").build();

    group.add_command(Command::new("original").build(), Some("renamed"));

    assert!(group.get_command("renamed").is_some());
    assert!(group.get_command("original").is_none());
}

#[test]
fn test_alias_metadata_for_shared_command() {
    let cmd: Arc<AnyCommand> = Arc::new(Command::new("original").build().into_command());

    let group = Group::new("cli")
        .command_shared(Arc::clone(&cmd))
        .command_shared_with_name("alias", Arc::clone(&cmd))
        .build();

    assert!(group.get_command("original").is_some());
    assert!(group.get_command("alias").is_some());

    assert_eq!(
        group.list_command_aliases("original"),
        vec!["alias".to_string()]
    );
    assert_eq!(
        group.list_command_aliases("alias"),
        vec!["original".to_string()]
    );

    let entries = group.list_command_entries();
    let alias_entry = entries
        .iter()
        .find(|(name, _)| name == "alias")
        .expect("alias entry missing");
    assert_eq!(alias_entry.1.name(), Some("original"));
}

#[test]
fn test_group_chain_mode() {
    let group = Group::new("cli").chain(true).build();

    assert!(group.chain);
    assert_eq!(
        group.subcommand_metavar,
        "COMMAND1 [ARGS]... [COMMAND2 [ARGS]...]..."
    );
}

#[test]
fn test_invoke_without_command() {
    let called = Arc::new(AtomicBool::new(false));
    let called_clone = Arc::clone(&called);

    let group = Group::new("cli")
        .invoke_without_command(true)
        .callback(move |_ctx| {
            called_clone.store(true, Ordering::SeqCst);
            Ok(())
        })
        .build();

    // invoke_without_command implies subcommand_required = false
    assert!(!group.subcommand_required);

    // Create context with no subcommand
    let ctx = ContextBuilder::new().info_name("cli").build();

    // Invoke should call the group callback
    let result = group.invoke(&Arc::new(ctx));
    assert!(result.is_ok());
    assert!(called.load(Ordering::SeqCst));
}

#[test]
fn test_group_help_formatting() {
    let group = Group::new("cli")
        .help("A sample CLI application")
        .command(
            Command::new("init")
                .short_help("Initialize the project")
                .build(),
        )
        .command(
            Command::new("build")
                .short_help("Build the project")
                .build(),
        )
        .build();

    let ctx = ContextBuilder::new().info_name("cli").build();
    let help = group.get_help(&ctx);

    assert!(help.contains("Usage:"));
    assert!(help.contains("cli"));
    assert!(help.contains("COMMAND [ARGS]..."));
    assert!(help.contains("A sample CLI application"));
    assert!(help.contains("Commands:"));
    assert!(help.contains("init"));
    assert!(help.contains("build"));
}

#[test]
fn test_resolve_command() {
    let group = Group::new("cli")
        .command(Command::new("hello").build())
        .command(Command::new("world").build())
        .build();

    let ctx = ContextBuilder::new().info_name("cli").build();

    // Resolve existing command
    let args = vec!["hello".to_string(), "arg1".to_string()];
    let resolved = group.resolve_command(&ctx, &args);
    assert!(resolved.is_ok());

    let (name, _cmd, remaining) = resolved.unwrap().unwrap();
    assert_eq!(name, "hello");
    assert_eq!(remaining, vec!["arg1".to_string()]);

    // Resolve non-existent command
    let args = vec!["unknown".to_string()];
    let resolved = group.resolve_command(&ctx, &args);
    assert!(resolved.is_err());
}

#[test]
fn test_resolve_command_empty_args() {
    let group = Group::new("cli")
        .command(Command::new("hello").build())
        .build();

    let ctx = ContextBuilder::new().info_name("cli").build();

    let resolved = group.resolve_command(&ctx, &[]);
    assert!(resolved.is_ok());
    assert!(resolved.unwrap().is_none());
}

#[test]
fn test_group_with_options() {
    let group = Group::new("cli")
        .help("A CLI with options")
        .option(
            ClickOption::new(&["--verbose", "-v"])
                .flag("true")
                .help("Enable verbose mode")
                .build(),
        )
        .command(Command::new("run").build())
        .build();

    assert_eq!(group.command.options.len(), 1);

    let ctx = ContextBuilder::new().info_name("cli").build();
    let help = group.get_help(&ctx);

    assert!(help.contains("--verbose"));
    assert!(help.contains("Enable verbose mode"));
}

#[test]
fn test_hidden_commands_not_in_help() {
    let group = Group::new("cli")
        .command(Command::new("visible").build())
        .command(Command::new("hidden").hidden().build())
        .build();

    let ctx = ContextBuilder::new().info_name("cli").build();
    let help = group.format_commands(&ctx);

    assert!(help.contains("visible"));
    assert!(!help.contains("hidden"));
}

#[test]
fn test_subcommand_required_default() {
    // Without invoke_without_command: subcommand_required = true
    let group1 = Group::new("cli").build();
    assert!(group1.subcommand_required);

    // With invoke_without_command: subcommand_required = false
    let group2 = Group::new("cli").invoke_without_command(true).build();
    assert!(!group2.subcommand_required);

    // Explicit override
    let group3 = Group::new("cli")
        .invoke_without_command(true)
        .subcommand_required(true)
        .build();
    assert!(group3.subcommand_required);
}

#[test]
fn test_group_short_help() {
    let group = Group::new("cli")
        .help("This is the long help text. It has multiple sentences.")
        .build();

    let short = group.get_short_help();
    assert_eq!(short, "This is the long help text");

    let group_explicit = Group::new("cli")
        .help("Long help")
        .short_help("Short help")
        .build();

    let short = group_explicit.get_short_help();
    assert_eq!(short, "Short help");
}

#[test]
fn test_nested_groups() {
    let sub_group = Group::new("sub")
        .help("Subgroup")
        .command(Command::new("cmd").build())
        .build();

    let main_group = Group::new("main")
        .help("Main group")
        .command(sub_group)
        .build();

    assert!(main_group.get_command("sub").is_some());

    // Can get the nested command through the subgroup
    let sub = main_group.get_command("sub").unwrap();
    assert_eq!(sub.name(), Some("sub"));
}

#[test]
fn test_command_with_name_builder() {
    let group = Group::new("cli")
        .command_with_name("alias", Command::new("original").build())
        .build();

    assert!(group.get_command("alias").is_some());
    assert!(group.get_command("original").is_none());
}

#[test]
fn test_missing_command_error() {
    let group = Group::new("cli").subcommand_required(true).build();

    let ctx = ContextBuilder::new().info_name("cli").build();

    // No args and subcommand required should error
    let result = group.invoke(&Arc::new(ctx));
    assert!(result.is_err());

    let err = result.err().unwrap();
    assert!(matches!(err, ClickError::UsageError { .. }));
}

#[test]
fn test_commandlike_trait() {
    // Test that both Command and Group implement CommandLike
    let cmd: Box<dyn CommandLike> = Box::new(Command::new("cmd").build());
    let grp: Box<dyn CommandLike> = Box::new(Group::new("grp").build());

    assert_eq!(cmd.name(), Some("cmd"));
    assert_eq!(grp.name(), Some("grp"));

    assert!(!cmd.is_hidden());
    assert!(!grp.is_hidden());
}

#[test]
fn test_group_usage() {
    let group = Group::new("cli")
        .option(ClickOption::new(&["--debug"]).flag("true").build())
        .build();

    let ctx = ContextBuilder::new().info_name("cli").build();
    let usage = group.get_usage(&ctx);

    assert!(usage.contains("cli"));
    assert!(usage.contains("[OPTIONS]"));
    assert!(usage.contains("COMMAND [ARGS]..."));
}

#[test]
fn test_chain_metavar() {
    let group = Group::new("cli")
        .chain(true)
        .subcommand_metavar("CMD1 CMD2...")
        .build();

    // Custom metavar should override chain default
    assert_eq!(group.subcommand_metavar, "CMD1 CMD2...");
}

#[test]
fn test_group_deprecated() {
    let group = Group::new("old")
        .help("Old group")
        .deprecated("Use 'new' instead")
        .build();

    let short = group.get_short_help();
    assert!(short.contains("DEPRECATED"));
    assert!(short.contains("Use 'new' instead"));
}

// =========================================================================
// Tests for context inheritance, chain mode, and result_callback
// =========================================================================

#[test]
fn test_subcommand_context_inheritance() {
    // Test that subcommand context properly inherits from parent context
    let parent_info_name = Arc::new(std::sync::Mutex::new(String::new()));
    let parent_info_clone = Arc::clone(&parent_info_name);

    let group = Group::new("cli")
        .command(
            Command::new("sub")
                .callback(move |ctx| {
                    // Check that the parent context is accessible
                    if let Some(parent) = ctx.parent() {
                        let mut lock = parent_info_clone.lock().unwrap();
                        if let Some(name) = parent.info_name() {
                            *lock = name.to_string();
                        }
                    }
                    Ok(())
                })
                .build(),
        )
        .build();

    // Use main() which sets up proper context stack
    let result = group.main(vec!["sub".to_string()]);
    assert!(result.is_ok());

    // The subcommand should have seen "cli" as parent info_name
    let captured = parent_info_name.lock().unwrap();
    assert_eq!(*captured, "cli");
}

#[test]
fn test_chain_mode_multiple_commands() {
    // Test that chain mode invokes multiple subcommands
    let call_order = Arc::new(std::sync::Mutex::new(Vec::<String>::new()));
    let order1 = Arc::clone(&call_order);
    let order2 = Arc::clone(&call_order);
    let order3 = Arc::clone(&call_order);

    let group = Group::new("cli")
        .chain(true)
        .command(
            Command::new("cmd1")
                .callback(move |_ctx| {
                    order1.lock().unwrap().push("cmd1".to_string());
                    Ok(())
                })
                .build(),
        )
        .command(
            Command::new("cmd2")
                .callback(move |_ctx| {
                    order2.lock().unwrap().push("cmd2".to_string());
                    Ok(())
                })
                .build(),
        )
        .command(
            Command::new("cmd3")
                .callback(move |_ctx| {
                    order3.lock().unwrap().push("cmd3".to_string());
                    Ok(())
                })
                .build(),
        )
        .build();

    // Invoke with multiple commands
    let result = group.main(vec![
        "cmd1".to_string(),
        "cmd2".to_string(),
        "cmd3".to_string(),
    ]);
    assert!(result.is_ok());

    // All commands should have been called in order
    let order = call_order.lock().unwrap();
    assert_eq!(*order, vec!["cmd1", "cmd2", "cmd3"]);
}

#[test]
fn test_chain_mode_with_args() {
    // Test chain mode where commands have arguments
    let captured_args = Arc::new(std::sync::Mutex::new(Vec::<Vec<String>>::new()));
    let args1 = Arc::clone(&captured_args);
    let args2 = Arc::clone(&captured_args);

    let group = Group::new("cli")
        .chain(true)
        .command(
            Command::new("first")
                .callback(move |ctx| {
                    args1.lock().unwrap().push(ctx.args().to_vec());
                    Ok(())
                })
                .build(),
        )
        .command(
            Command::new("second")
                .callback(move |ctx| {
                    args2.lock().unwrap().push(ctx.args().to_vec());
                    Ok(())
                })
                .build(),
        )
        .build();

    // Both commands called without arguments to each
    let result = group.main(vec!["first".to_string(), "second".to_string()]);
    assert!(result.is_ok());

    let args = captured_args.lock().unwrap();
    assert_eq!(args.len(), 2);
}

#[test]
fn test_chain_mode_empty_returns_ok() {
    // Test that chain mode with invoke_without_command returns ok with no commands
    let called = Arc::new(AtomicBool::new(false));
    let called_clone = Arc::clone(&called);

    let group = Group::new("cli")
        .chain(true)
        .invoke_without_command(true)
        .callback(move |_ctx| {
            called_clone.store(true, Ordering::SeqCst);
            Ok(())
        })
        .command(Command::new("sub").build())
        .build();

    let result = group.main(vec![]);
    assert!(result.is_ok());
    assert!(called.load(Ordering::SeqCst));
}

#[test]
fn test_result_callback_invoked() {
    // Test that result_callback is called after subcommand execution
    let result_callback_called = Arc::new(AtomicBool::new(false));
    let callback_clone = Arc::clone(&result_callback_called);

    let group = Group::new("cli")
        .command(Command::new("sub").callback(|_ctx| Ok(())).build())
        .result_callback(move |_ctx, _results| {
            callback_clone.store(true, Ordering::SeqCst);
            Ok(())
        })
        .build();

    let result = group.main(vec!["sub".to_string()]);
    assert!(result.is_ok());
    assert!(result_callback_called.load(Ordering::SeqCst));
}

#[test]
fn test_result_callback_with_chain_mode() {
    // Test that result_callback receives results from all chained commands
    let result_callback_called = Arc::new(AtomicBool::new(false));
    let callback_clone = Arc::clone(&result_callback_called);
    let results_count = Arc::new(std::sync::Mutex::new(0usize));
    let count_clone = Arc::clone(&results_count);

    let group = Group::new("cli")
        .chain(true)
        .command(Command::new("a").callback(|_| Ok(())).build())
        .command(Command::new("b").callback(|_| Ok(())).build())
        .result_callback(move |_ctx, results| {
            callback_clone.store(true, Ordering::SeqCst);
            *count_clone.lock().unwrap() = results.len();
            Ok(())
        })
        .build();

    let result = group.main(vec!["a".to_string(), "b".to_string()]);
    assert!(result.is_ok());
    assert!(result_callback_called.load(Ordering::SeqCst));

    // Should have 2 results (one for each command)
    let count = *results_count.lock().unwrap();
    assert_eq!(count, 2);
}

#[test]
fn test_result_callback_invoke_without_command() {
    // Test that result_callback is called even when invoke_without_command is used
    let result_callback_called = Arc::new(AtomicBool::new(false));
    let callback_clone = Arc::clone(&result_callback_called);

    let group = Group::new("cli")
        .invoke_without_command(true)
        .callback(|_ctx| Ok(()))
        .result_callback(move |_ctx, _results| {
            callback_clone.store(true, Ordering::SeqCst);
            Ok(())
        })
        .build();

    let result = group.main(vec![]);
    assert!(result.is_ok());
    assert!(result_callback_called.load(Ordering::SeqCst));
}

#[test]
fn test_chain_mode_subcommand_failure_stops_chain() {
    // Test that if a subcommand fails, the chain stops
    let second_called = Arc::new(AtomicBool::new(false));
    let second_clone = Arc::clone(&second_called);

    let group = Group::new("cli")
        .chain(true)
        .command(
            Command::new("fail")
                .callback(|_ctx| Err(ClickError::usage("intentional failure")))
                .build(),
        )
        .command(
            Command::new("second")
                .callback(move |_ctx| {
                    second_clone.store(true, Ordering::SeqCst);
                    Ok(())
                })
                .build(),
        )
        .build();

    let result = group.main(vec!["fail".to_string(), "second".to_string()]);
    assert!(result.is_err());
    // Second command should not have been called
    assert!(!second_called.load(Ordering::SeqCst));
}

#[test]
fn test_non_chain_mode_single_command() {
    // Test that non-chain mode only invokes one command
    let calls = Arc::new(std::sync::Mutex::new(Vec::<String>::new()));
    let calls1 = Arc::clone(&calls);

    let group = Group::new("cli")
        .chain(false) // explicitly not chain mode
        .command(
            Command::new("cmd1")
                .callback(move |_ctx| {
                    calls1.lock().unwrap().push("cmd1".to_string());
                    Ok(())
                })
                .build(),
        )
        .command(Command::new("cmd2").build())
        .build();

    // In non-chain mode, "cmd2" would be passed as arg to cmd1, not as separate command
    let result = group.main(vec!["cmd1".to_string()]);
    assert!(result.is_ok());

    let recorded = calls.lock().unwrap();
    assert_eq!(recorded.len(), 1);
    assert_eq!(recorded[0], "cmd1");
}

#[test]
fn test_group_callback_called_before_subcommand() {
    // Test that group callback is called before subcommand in non-chain mode
    let call_order = Arc::new(std::sync::Mutex::new(Vec::<String>::new()));
    let order_group = Arc::clone(&call_order);
    let order_sub = Arc::clone(&call_order);

    let group = Group::new("cli")
        .callback(move |_ctx| {
            order_group.lock().unwrap().push("group".to_string());
            Ok(())
        })
        .command(
            Command::new("sub")
                .callback(move |_ctx| {
                    order_sub.lock().unwrap().push("sub".to_string());
                    Ok(())
                })
                .build(),
        )
        .build();

    let result = group.main(vec!["sub".to_string()]);
    assert!(result.is_ok());

    let order = call_order.lock().unwrap();
    assert_eq!(*order, vec!["group", "sub"]);
}

#[test]
fn test_group_callback_called_before_chain() {
    // Test that group callback is called before chained subcommands
    let call_order = Arc::new(std::sync::Mutex::new(Vec::<String>::new()));
    let order_group = Arc::clone(&call_order);
    let order_a = Arc::clone(&call_order);
    let order_b = Arc::clone(&call_order);

    let group = Group::new("cli")
        .chain(true)
        .callback(move |_ctx| {
            order_group.lock().unwrap().push("group".to_string());
            Ok(())
        })
        .command(
            Command::new("a")
                .callback(move |_ctx| {
                    order_a.lock().unwrap().push("a".to_string());
                    Ok(())
                })
                .build(),
        )
        .command(
            Command::new("b")
                .callback(move |_ctx| {
                    order_b.lock().unwrap().push("b".to_string());
                    Ok(())
                })
                .build(),
        )
        .build();

    let result = group.main(vec!["a".to_string(), "b".to_string()]);
    assert!(result.is_ok());

    let order = call_order.lock().unwrap();
    assert_eq!(*order, vec!["group", "a", "b"]);
}

#[test]
fn test_command_collection_list_commands_union_sorted() {
    let src = Group::new("src")
        .command(Command::new("c").help("C").build())
        .command(Command::new("b").help("B").build())
        .build();

    let collection = CommandCollection::new("coll")
        .command(Command::new("a").help("A").build())
        .source(src)
        .build();

    assert_eq!(
        collection.list_commands(),
        vec!["a".to_string(), "b".to_string(), "c".to_string()]
    );
}

#[test]
fn test_command_collection_prefers_base_over_sources() {
    let src = Group::new("src")
        .command(Command::new("dup").help("Src").build())
        .build();

    let collection = CommandCollection::new("coll")
        .command(Command::new("dup").help("Base").build())
        .source(src)
        .build();

    let ctx = ContextBuilder::new().info_name("coll").build();
    let help = collection.get_help(&ctx);
    assert!(help.contains("dup"));
    assert_eq!(
        collection.get_command("dup").unwrap().get_short_help(),
        "Base"
    );
}

#[test]
fn test_subcommand_inherits_terminal_settings() {
    let inherited_width = Arc::new(std::sync::Mutex::new(None::<usize>));
    let inherited_color = Arc::new(std::sync::Mutex::new(None::<bool>));
    let width_clone = Arc::clone(&inherited_width);
    let color_clone = Arc::clone(&inherited_color);

    let group = Group::new("cli")
        .command(
            Command::new("sub")
                .callback(move |ctx| {
                    *width_clone.lock().unwrap() = ctx.terminal_width();
                    *color_clone.lock().unwrap() = ctx.color();
                    Ok(())
                })
                .build(),
        )
        .build();

    let parent_ctx = ContextBuilder::new()
        .info_name("cli")
        .terminal_width(120)
        .color(true)
        .allow_extra_args(true)
        .build();
    let _parent_ctx = Arc::new(parent_ctx);

    let ctx = group.make_context("cli", vec!["sub".to_string()], None).unwrap();

    // The subcommand's context is made under the group's own context here;
    // the thread's context stack belongs to the program around the library.
    let result = group.invoke(&Arc::new(ctx));

    assert!(result.is_ok());
}
