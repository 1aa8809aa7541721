//! Tests of the context module.

#[allow(unused_imports)]
use std::sync::Arc;
use click::argument::{Argument};
use click::command::{Command};
use click::context::{Context, ContextBuilder};
use click::error::{ClickError};
use click::source::{ParameterSource};

use std::sync::atomic::{AtomicBool, AtomicUsize, Ordering};
use std::sync::Mutex;
use click::strmap::StrMap;
use click::types::Value;
#[allow(unused_imports)]
use click::parameter::Parameter;
#[allow(unused_imports)]
use click::argument::AnyTypeConverter;
#[allow(unused_imports)]
use click::types::{TypeConverter, FromValue};
#[allow(unused_imports)]
use click::group::CommandLike;
#[allow(unused_imports)]
use click::completion::ShellComplete;

#[test]
fn test_context_default_values() {
    let ctx = Context::new();

    assert!(ctx.parent().is_none());
    assert!(ctx.info_name().is_none());
    assert!(ctx.params().is_empty());
    assert!(ctx.args().is_empty());
    assert!(!ctx.allow_extra_args());
    assert!(ctx.allow_interspersed_args());
    assert!(!ctx.ignore_unknown_options());
    assert_eq!(ctx.help_option_names(), &["--help".to_string()]);
    assert!(!ctx.resilient_parsing());
    assert!(ctx.auto_envvar_prefix().is_none());
    assert!(ctx.color().is_none());
    assert!(ctx.show_default().is_none());
}

#[test]
fn test_context_builder() {
    let ctx = ContextBuilder::new()
        .info_name("myapp")
        .allow_extra_args(true)
        .allow_interspersed_args(false)
        .ignore_unknown_options(true)
        .terminal_width(120)
        .max_content_width(100)
        .resilient_parsing(true)
        .auto_envvar_prefix("MYAPP")
        .color(true)
        .show_default(false)
        .help_option_names(vec!["--help".to_string(), "-h".to_string()])
        .build();

    assert_eq!(ctx.info_name(), Some("myapp"));
    assert!(ctx.allow_extra_args());
    assert!(!ctx.allow_interspersed_args());
    assert!(ctx.ignore_unknown_options());
    assert_eq!(ctx.terminal_width(), Some(120));
    assert_eq!(ctx.max_content_width(), Some(100));
    assert!(ctx.resilient_parsing());
    assert_eq!(ctx.auto_envvar_prefix(), Some("MYAPP"));
    assert_eq!(ctx.color(), Some(true));
    assert_eq!(ctx.show_default(), Some(false));
    assert_eq!(
        ctx.help_option_names(),
        &["--help".to_string(), "-h".to_string()]
    );
}

#[test]
fn test_parent_child_context_chain() {
    let parent = Arc::new(
        ContextBuilder::new()
            .info_name("cli")
            .terminal_width(100)
            .color(true)
            .build(),
    );

    let child = ContextBuilder::new()
        .info_name("subcommand")
        .parent(Arc::clone(&parent))
        .build();

    // Child inherits from parent
    assert_eq!(child.terminal_width(), Some(100));
    assert_eq!(child.color(), Some(true));

    // Parent reference is correct
    assert!(child.parent().is_some());
    assert_eq!(child.parent().unwrap().info_name(), Some("cli"));
}

#[test]
fn test_command_path() {
    let root = Arc::new(ContextBuilder::new().info_name("cli").build());
    let sub = Arc::new(
        ContextBuilder::new()
            .info_name("group")
            .parent(Arc::clone(&root))
            .build(),
    );
    let leaf = ContextBuilder::new()
        .info_name("command")
        .parent(sub)
        .build();

    assert_eq!(root.command_path(), "cli");
    assert_eq!(leaf.command_path(), "cli group command");
}

#[test]
fn test_find_root() {
    let root = Arc::new(ContextBuilder::new().info_name("cli").build());
    let child = Arc::new(
        ContextBuilder::new()
            .info_name("sub")
            .parent(Arc::clone(&root))
            .build(),
    );
    let grandchild = ContextBuilder::new()
        .info_name("leaf")
        .parent(child)
        .build();

    assert_eq!(grandchild.find_root().info_name(), Some("cli"));
}

#[test]
fn test_parameter_source_tracking() {
    let mut ctx = Context::new();

    // Initially no source
    assert!(ctx.get_parameter_source("name").is_none());

    // Set source
    ctx.set_parameter_source("name", ParameterSource::CommandLine);
    assert_eq!(
        ctx.get_parameter_source("name"),
        Some(ParameterSource::CommandLine)
    );

    // Update source
    ctx.set_parameter_source("name", ParameterSource::Environment);
    assert_eq!(
        ctx.get_parameter_source("name"),
        Some(ParameterSource::Environment)
    );
}

#[test]
fn test_close_callbacks() {
    let counter = Arc::new(AtomicUsize::new(0));
    let c1 = Arc::clone(&counter);
    let c2 = Arc::clone(&counter);
    let c3 = Arc::clone(&counter);

    let mut ctx = Context::new();

    // Register callbacks - they record the order they were called
    ctx.call_on_close(move || {
        c1.fetch_add(1, Ordering::SeqCst);
    });
    ctx.call_on_close(move || {
        c2.fetch_add(10, Ordering::SeqCst);
    });
    ctx.call_on_close(move || {
        c3.fetch_add(100, Ordering::SeqCst);
    });

    assert_eq!(counter.load(Ordering::SeqCst), 0);

    ctx.close();

    // All callbacks should have run
    assert_eq!(counter.load(Ordering::SeqCst), 111);

    // Calling close again should do nothing (callbacks are drained)
    ctx.close();
    assert_eq!(counter.load(Ordering::SeqCst), 111);
}

#[test]
fn test_error_creation() {
    let ctx = ContextBuilder::new().info_name("myapp").build();

    let usage_err = ctx.fail("something went wrong");
    assert!(matches!(usage_err, ClickError::UsageError { .. }));
    assert_eq!(usage_err.exit_code(), 2);

    let abort_err = ctx.abort();
    assert!(matches!(abort_err, ClickError::Abort));
    assert_eq!(abort_err.exit_code(), 1);

    let exit_err = ctx.exit(42);
    assert!(matches!(exit_err, ClickError::Exit { code: 42 }));
    assert_eq!(exit_err.exit_code(), 42);
}

#[test]
fn test_params_access() {
    let mut ctx = Context::new();

    ctx.params_mut()
        .insert("count".to_string(), Value::I32(42));
    ctx.params_mut()
        .insert("name".to_string(), Value::Str("Alice".to_string()));

    assert_eq!(ctx.get_param::<i32>("count"), Some(&42));
    assert_eq!(ctx.get_param::<String>("name"), Some(&"Alice".to_string()));
    assert!(ctx.get_param::<i32>("name").is_none()); // Wrong type
    assert!(ctx.get_param::<i32>("missing").is_none()); // Missing
}

#[test]
fn test_lookup_default() {
    let mut defaults: StrMap<Value> = StrMap::new();
    defaults.insert("count".to_string(), Value::I32(42));
    defaults.insert("name".to_string(), Value::Str("default".to_string()));

    let ctx = ContextBuilder::new().default_map(defaults).build();

    let count_default = ctx.lookup_default("count").unwrap();
    assert_eq!(<i32 as FromValue>::from_value(&count_default), Some(&42));

    let name_default = ctx.lookup_default("name").unwrap();
    assert_eq!(
        <String as FromValue>::from_value(&name_default),
        Some(&"default".to_string())
    );

    assert!(ctx.lookup_default("missing").is_none());
}

#[test]
fn test_auto_envvar_prefix_normalization() {
    // Direct prefix is normalized
    let ctx = ContextBuilder::new().auto_envvar_prefix("my-app").build();
    assert_eq!(ctx.auto_envvar_prefix(), Some("MY_APP"));

    // Inherited prefix is expanded
    let parent = Arc::new(ContextBuilder::new().auto_envvar_prefix("MY_APP").build());
    let child = ContextBuilder::new()
        .info_name("sub-cmd")
        .parent(parent)
        .build();
    assert_eq!(child.auto_envvar_prefix(), Some("MY_APP_SUB_CMD"));
}

#[test]
fn test_args_access() {
    let mut ctx = Context::new();

    assert!(ctx.args().is_empty());

    ctx.args_mut().push("extra1".to_string());
    ctx.args_mut().push("extra2".to_string());

    assert_eq!(ctx.args(), &["extra1", "extra2"]);
}

#[test]
fn test_meta_access() {
    let mut ctx = Context::new();

    ctx.meta_mut()
        .insert("mymodule.key".to_string(), Value::I32(42));

    assert_eq!(ctx.get_meta::<i32>("mymodule.key"), Some(&42));
    assert!(ctx.get_meta::<String>("mymodule.key").is_none()); // Wrong type
    assert!(ctx.get_meta::<i32>("other.key").is_none()); // Missing
}

#[test]
fn test_invoked_subcommand() {
    let mut ctx = Context::new();

    assert!(ctx.invoked_subcommand().is_none());

    ctx.set_invoked_subcommand(Some("subcommand".to_string()));
    assert_eq!(ctx.invoked_subcommand(), Some("subcommand"));

    ctx.set_invoked_subcommand(Some("*".to_string()));
    assert_eq!(ctx.invoked_subcommand(), Some("*"));

    ctx.set_invoked_subcommand(None);
    assert!(ctx.invoked_subcommand().is_none());
}

// =========================================================================
// Tests for Context helper methods: invoke, forward, with_resource
// =========================================================================

#[test]
fn test_context_invoke_command() {

    let invoked = Arc::new(AtomicBool::new(false));
    let invoked_clone = Arc::clone(&invoked);

    let other_cmd = Command::new("other")
        .callback(move |_ctx| {
            invoked_clone.store(true, Ordering::SeqCst);
            Ok(())
        })
        .build();

    let ctx = Arc::new(ContextBuilder::new().info_name("main").build());
    let result = ctx.invoke(&other_cmd, &[]);

    assert!(result.is_ok());
    assert!(invoked.load(Ordering::SeqCst));
}

#[test]
fn test_context_invoke_with_args() {

    let captured_name = Arc::new(Mutex::new(String::new()));
    let captured_clone = Arc::clone(&captured_name);

    let other_cmd = Command::new("greet")
        .argument(Argument::new("name").build())
        .callback(move |ctx| {
            if let Some(name) = ctx.get_param::<String>("name") {
                let mut lock = captured_clone.lock().unwrap();
                *lock = name.clone();
            }
            Ok(())
        })
        .build();

    let ctx = Arc::new(ContextBuilder::new().info_name("main").build());
    let result = ctx.invoke(&other_cmd, &["Alice".to_string()]);

    assert!(result.is_ok());
    let name = captured_name.lock().unwrap();
    assert_eq!(*name, "Alice");
}

#[test]
fn test_context_invoke_creates_child_context() {

    let parent_name = Arc::new(Mutex::new(None::<String>));
    let parent_clone = Arc::clone(&parent_name);

    let other_cmd = Command::new("child")
        .callback(move |ctx| {
            if let Some(parent) = ctx.parent() {
                let mut lock = parent_clone.lock().unwrap();
                *lock = parent.info_name().map(|s| s.to_string());
            }
            Ok(())
        })
        .build();

    let ctx = Arc::new(ContextBuilder::new().info_name("main").build());
    let result = ctx.invoke(&other_cmd, &[]);

    assert!(result.is_ok());
    let captured = parent_name.lock().unwrap();
    assert_eq!(*captured, Some("main".to_string()));
}

#[test]
fn test_context_forward_copies_params() {

    let forwarded_name = Arc::new(Mutex::new(None::<String>));
    let forwarded_clone = Arc::clone(&forwarded_name);

    let other_cmd = Command::new("receiver")
        .callback(move |ctx| {
            let mut lock = forwarded_clone.lock().unwrap();
            *lock = ctx.get_param::<String>("name").cloned();
            Ok(())
        })
        .build();

    let mut ctx = ContextBuilder::new().info_name("sender").build();
    ctx.params_mut().insert("name".to_string(), Value::Str("Forwarded".to_string()));
    let ctx = Arc::new(ctx);

    let result = ctx.forward(&other_cmd);

    assert!(result.is_ok());
    let captured = forwarded_name.lock().unwrap();
    assert_eq!(*captured, Some("Forwarded".to_string()));
}

#[test]
fn test_context_forward_copies_multiple_params() {

    let forwarded_params = Arc::new(Mutex::new((None::<String>, None::<i32>)));
    let params_clone = Arc::clone(&forwarded_params);

    let other_cmd = Command::new("receiver")
        .callback(move |ctx| {
            let mut lock = params_clone.lock().unwrap();
            lock.0 = ctx.get_param::<String>("name").cloned();
            lock.1 = ctx.get_param::<i32>("count").copied();
            Ok(())
        })
        .build();

    let mut ctx = ContextBuilder::new().info_name("sender").build();
    ctx.params_mut().insert("name".to_string(), Value::Str("Test".to_string()));
    ctx.params_mut().insert("count".to_string(), Value::I32(42));
    let ctx = Arc::new(ctx);

    let result = ctx.forward(&other_cmd);

    assert!(result.is_ok());
    let captured = forwarded_params.lock().unwrap();
    assert_eq!(captured.0, Some("Test".to_string()));
    assert_eq!(captured.1, Some(42));
}

#[test]
fn test_context_forward_copies_parameter_sources() {

    let forwarded_source = Arc::new(Mutex::new(None::<ParameterSource>));
    let source_clone = Arc::clone(&forwarded_source);

    let other_cmd = Command::new("receiver")
        .callback(move |ctx| {
            let mut lock = source_clone.lock().unwrap();
            *lock = ctx.get_parameter_source("name");
            Ok(())
        })
        .build();

    let mut ctx = ContextBuilder::new().info_name("sender").build();
    ctx.params_mut().insert("name".to_string(), Value::Str("Test".to_string()));
    ctx.set_parameter_source("name", ParameterSource::CommandLine);
    let ctx = Arc::new(ctx);

    let result = ctx.forward(&other_cmd);

    assert!(result.is_ok());
    let captured = forwarded_source.lock().unwrap();
    assert_eq!(*captured, Some(ParameterSource::CommandLine));
}

#[test]
fn test_context_forward_creates_child_context() {

    let parent_name = Arc::new(Mutex::new(None::<String>));
    let parent_clone = Arc::clone(&parent_name);

    let other_cmd = Command::new("receiver")
        .callback(move |ctx| {
            if let Some(parent) = ctx.parent() {
                let mut lock = parent_clone.lock().unwrap();
                *lock = parent.info_name().map(|s| s.to_string());
            }
            Ok(())
        })
        .build();

    let ctx = Arc::new(ContextBuilder::new().info_name("sender").build());
    let result = ctx.forward(&other_cmd);

    assert!(result.is_ok());
    let captured = parent_name.lock().unwrap();
    assert_eq!(*captured, Some("sender".to_string()));
}

#[test]
fn test_with_resource_basic() {

    struct Resource {
        value: i32,
    }

    let cleaned_up = Arc::new(AtomicBool::new(false));
    let cleaned_up_clone = Arc::clone(&cleaned_up);

    let mut ctx = ContextBuilder::new().build();

    let result = ctx.with_resource(
        Resource { value: 42 },
        |res| res.value * 2,
        move || {
            cleaned_up_clone.store(true, Ordering::SeqCst);
        },
    );

    assert_eq!(result, 84);
    assert!(!cleaned_up.load(Ordering::SeqCst)); // Not yet cleaned up

    ctx.close();
    assert!(cleaned_up.load(Ordering::SeqCst)); // Now cleaned up
}

#[test]
fn test_with_resource_multiple() {

    let cleanup_count = Arc::new(AtomicUsize::new(0));
    let count1 = Arc::clone(&cleanup_count);
    let count2 = Arc::clone(&cleanup_count);

    let mut ctx = ContextBuilder::new().build();

    let result1 = ctx.with_resource(
        10,
        |res| *res + 5,
        move || {
            count1.fetch_add(1, Ordering::SeqCst);
        },
    );

    let result2 = ctx.with_resource(
        20,
        |res| *res * 2,
        move || {
            count2.fetch_add(1, Ordering::SeqCst);
        },
    );

    assert_eq!(result1, 15);
    assert_eq!(result2, 40);
    assert_eq!(cleanup_count.load(Ordering::SeqCst), 0);

    ctx.close();
    assert_eq!(cleanup_count.load(Ordering::SeqCst), 2);
}

#[test]
fn test_with_resource_string_resource() {

    let cleaned_up = Arc::new(AtomicBool::new(false));
    let cleaned_up_clone = Arc::clone(&cleaned_up);

    let mut ctx = ContextBuilder::new().build();

    let result = ctx.with_resource(
        String::from("hello"),
        |s| s.len(),
        move || {
            cleaned_up_clone.store(true, Ordering::SeqCst);
        },
    );

    assert_eq!(result, 5);

    ctx.close();
    assert!(cleaned_up.load(Ordering::SeqCst));
}

#[test]
fn test_invoke_error_propagation() {

    let other_cmd = Command::new("failing")
        .callback(|_ctx| {
            Err(ClickError::usage("intentional failure"))
        })
        .build();

    let ctx = Arc::new(ContextBuilder::new().info_name("main").build());
    let result = ctx.invoke(&other_cmd, &[]);

    assert!(result.is_err());
    let err = result.err().unwrap();
    assert!(matches!(err, ClickError::UsageError { .. }));
}

#[test]
fn test_forward_error_propagation() {

    let other_cmd = Command::new("failing")
        .callback(|_ctx| {
            Err(ClickError::usage("intentional failure"))
        })
        .build();

    let ctx = Arc::new(ContextBuilder::new().info_name("main").build());
    let result = ctx.forward(&other_cmd);

    assert!(result.is_err());
    let err = result.err().unwrap();
    assert!(matches!(err, ClickError::UsageError { .. }));
}


#[test]
fn test_obj_access() {
    let ctx = ContextBuilder::new().obj(Value::I32(123)).build();

    let state = ctx.obj::<i32>().unwrap();
    assert_eq!(*state, 123);

    // Wrong type returns None
    assert!(ctx.obj::<String>().is_none());
}

#[test]
fn test_parameter_source_read_after_write() {
    let mut ctx = ContextBuilder::new().build();
    assert_eq!(ctx.get_parameter_source("name"), None);
    ctx.set_parameter_source("name", ParameterSource::Environment);
    ctx.set_parameter_source("other", ParameterSource::Default);
    assert_eq!(ctx.get_parameter_source("name"), Some(ParameterSource::Environment));
    ctx.set_parameter_source("name", ParameterSource::CommandLine);
    assert_eq!(ctx.get_parameter_source("name"), Some(ParameterSource::CommandLine));
    assert_eq!(ctx.get_parameter_source("other"), Some(ParameterSource::Default));
}

#[test]
fn test_invoke_runs_child_close_callbacks() {
    let child_closed = Arc::new(AtomicBool::new(false));
    let closed_clone = Arc::clone(&child_closed);

    let other_cmd = Command::new("child")
        .callback(move |ctx| {
            let closed_clone = Arc::clone(&closed_clone);
            ctx.call_on_close(move || {
                closed_clone.store(true, Ordering::SeqCst);
            });
            Ok(())
        })
        .build();

    let ctx = Arc::new(ContextBuilder::new().info_name("main").build());
    let result = ctx.invoke(&other_cmd, &[]);

    assert!(result.is_ok());
    assert!(child_closed.load(Ordering::SeqCst));
}

#[test]
fn test_forward_runs_child_close_callbacks() {
    let child_closed = Arc::new(AtomicBool::new(false));
    let closed_clone = Arc::clone(&child_closed);

    let other_cmd = Command::new("child")
        .callback(move |ctx| {
            let closed_clone = Arc::clone(&closed_clone);
            ctx.call_on_close(move || {
                closed_clone.store(true, Ordering::SeqCst);
            });
            Ok(())
        })
        .build();

    let ctx = Arc::new(ContextBuilder::new().info_name("main").build());
    let result = ctx.forward(&other_cmd);

    assert!(result.is_ok());
    assert!(child_closed.load(Ordering::SeqCst));
}
