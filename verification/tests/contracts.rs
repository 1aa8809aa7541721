//! Tests of what the library states across modules: where values come from,
//! the environment, group runs, completion, forwarding and names.

use std::sync::{Arc, Mutex};

use click::argument::{AnyTypeConverter, Argument};
use click::command::Command;
use click::completion::{get_completions, request_shell};
use click::context::{envvar_form_pub, ContextBuilder};
use click::decorators::make_pass_decorator;
use click::error::ClickError;
use click::group::{CommandLike, Group};
use click::option::ClickOption;
use click::parser::{edit_distance, OptionAction, OptionParser};
use click::source::ParameterSource;
use click::strmap::StrMap;
use click::termui::prompt_retry_message;
use click::types::Value;

fn greet() -> Command {
    Command::new("greet").option(ClickOption::new(&["--name"]).default("World").build()).build()
}

#[test]
fn test_parse_records_command_line_source() {
    let cmd = greet();
    let ctx = cmd.make_context("greet", vec!["--name".to_string(), "Alice".to_string()], None).unwrap();
    assert_eq!(ctx.get_parameter_source("name"), Some(ParameterSource::CommandLine));
    assert_eq!(ctx.get_param::<String>("name"), Some(&"Alice".to_string()));
}

#[test]
fn test_parse_records_default_source() {
    let cmd = greet();
    let ctx = cmd.make_context("greet", vec![], None).unwrap();
    assert_eq!(ctx.get_parameter_source("name"), Some(ParameterSource::Default));
    assert_eq!(ctx.get_param::<String>("name"), Some(&"World".to_string()));
}

#[test]
fn test_default_map_overrides_own_default() {
    let cmd = greet();
    let mut map = StrMap::new();
    map.insert("name".to_string(), Value::Str("Map".to_string()));
    let mut ctx = ContextBuilder::new().info_name("greet").default_map(map).build();
    cmd.parse_args(&mut ctx, vec![]).unwrap();
    assert_eq!(ctx.get_param::<String>("name"), Some(&"Map".to_string()));
    assert_eq!(ctx.get_parameter_source("name"), Some(ParameterSource::DefaultMap));
}

#[test]
fn test_command_line_beats_default_map() {
    let cmd = greet();
    let mut map = StrMap::new();
    map.insert("name".to_string(), Value::Str("Map".to_string()));
    let mut ctx = ContextBuilder::new().info_name("greet").default_map(map).build();
    cmd.parse_args(&mut ctx, vec!["--name".to_string(), "Cli".to_string()]).unwrap();
    assert_eq!(ctx.get_param::<String>("name"), Some(&"Cli".to_string()));
}

#[test]
fn test_environment_reaches_context_through_main_env() {
    let seen = Arc::new(Mutex::new(None::<(String, Option<ParameterSource>)>));
    let seen2 = Arc::clone(&seen);
    let cmd = Command::new("greet")
        .option(ClickOption::new(&["--name"]).envvar("GREET_NAME").default("World").build())
        .callback(move |ctx| {
            let v = ctx.get_param::<String>("name").cloned().unwrap_or_default();
            *seen2.lock().unwrap() = Some((v, ctx.get_parameter_source("name")));
            Ok(())
        })
        .build();
    let mut env = StrMap::new();
    env.insert("GREET_NAME".to_string(), "Env".to_string());
    let r = cmd.main_env(vec![], env);
    assert!(r.is_ok());
    let got = seen.lock().unwrap().clone();
    assert_eq!(got, Some(("Env".to_string(), Some(ParameterSource::Environment))));
}

#[test]
fn test_main_without_environment_uses_default() {
    let seen = Arc::new(Mutex::new(None::<String>));
    let seen2 = Arc::clone(&seen);
    let cmd = Command::new("greet")
        .option(ClickOption::new(&["--name"]).envvar("GREET_NAME").default("World").build())
        .callback(move |ctx| {
            *seen2.lock().unwrap() = ctx.get_param::<String>("name").cloned();
            Ok(())
        })
        .build();
    assert!(cmd.main(vec![]).is_ok());
    assert_eq!(seen.lock().unwrap().clone(), Some("World".to_string()));
}

#[test]
fn test_multiple_option_splits_environment_value() {
    let cmd = Command::new("tool")
        .option(ClickOption::new(&["--item"]).multiple().envvar("TOOL_ITEMS").build())
        .build();
    let mut env = StrMap::new();
    env.insert("TOOL_ITEMS".to_string(), "a  b c".to_string());
    let ctx = cmd.make_context_env("tool", vec![], None, Some(env)).unwrap();
    let items = ctx.get_param::<Vec<Value>>("item").unwrap();
    let texts: Vec<String> = items
        .iter()
        .map(|v| match v {
            Value::Str(s) => s.clone(),
            _ => panic!("not text"),
        })
        .collect();
    assert_eq!(texts, vec!["a".to_string(), "b".to_string(), "c".to_string()]);
}

#[test]
fn test_chain_result_callback_gets_one_result_per_command() {
    let count = Arc::new(Mutex::new(None::<usize>));
    let count2 = Arc::clone(&count);
    let group = Group::new("cli")
        .chain(true)
        .command(Command::new("a").callback(|_ctx| Ok(())).build())
        .command(Command::new("b").callback(|_ctx| Ok(())).build())
        .result_callback(move |_ctx, results| {
            *count2.lock().unwrap() = Some(results.len());
            Ok(())
        })
        .build();
    let r = group.main(vec!["a".to_string(), "b".to_string(), "a".to_string()]);
    assert!(r.is_ok());
    assert_eq!(*count.lock().unwrap(), Some(3));
}

#[test]
fn test_chain_stops_at_first_error() {
    let log = Arc::new(Mutex::new(Vec::<String>::new()));
    let log_a = Arc::clone(&log);
    let log_c = Arc::clone(&log);
    let group = Group::new("cli")
        .chain(true)
        .command(
            Command::new("a")
                .callback(move |_ctx| {
                    log_a.lock().unwrap().push("a".to_string());
                    Ok(())
                })
                .build(),
        )
        .command(Command::new("b").callback(|_ctx| Err(ClickError::usage("b failed"))).build())
        .command(
            Command::new("c")
                .callback(move |_ctx| {
                    log_c.lock().unwrap().push("c".to_string());
                    Ok(())
                })
                .build(),
        )
        .build();
    let r = group.main(vec!["a".to_string(), "b".to_string(), "c".to_string()]);
    assert!(r.is_err());
    assert_eq!(*log.lock().unwrap(), vec!["a".to_string()]);
}

#[test]
fn test_invoke_without_command_passes_empty_results() {
    let got = Arc::new(Mutex::new(None::<usize>));
    let got2 = Arc::clone(&got);
    let ran = Arc::new(Mutex::new(false));
    let ran2 = Arc::clone(&ran);
    let group = Group::new("cli")
        .invoke_without_command(true)
        .callback(move |_ctx| {
            *ran2.lock().unwrap() = true;
            Ok(())
        })
        .result_callback(move |_ctx, results| {
            *got2.lock().unwrap() = Some(results.len());
            Ok(())
        })
        .build();
    assert!(group.main(vec![]).is_ok());
    assert!(*ran.lock().unwrap());
    assert_eq!(*got.lock().unwrap(), Some(0));
}

#[test]
fn test_group_runs_the_named_subcommand_with_its_words() {
    let seen = Arc::new(Mutex::new(None::<String>));
    let seen2 = Arc::clone(&seen);
    let group = Group::new("cli")
        .command(
            Command::new("hello")
                .option(ClickOption::new(&["--who"]).build())
                .callback(move |ctx| {
                    *seen2.lock().unwrap() = ctx.get_param::<String>("who").cloned();
                    Ok(())
                })
                .build(),
        )
        .build();
    assert!(group.main(vec!["hello".to_string(), "--who".to_string(), "Ann".to_string()]).is_ok());
    assert_eq!(seen.lock().unwrap().clone(), Some("Ann".to_string()));
}

#[test]
fn test_completion_lists_group_names_with_prefix() {
    let group = Group::new("cli")
        .command(Command::new("status").build())
        .command(Command::new("start").build())
        .command(Command::new("build").build())
        .build();
    let items = get_completions(&group, "cli", &[], "st");
    let values: Vec<String> = items.iter().map(|c| c.value.clone()).collect();
    assert_eq!(values, vec!["start".to_string(), "status".to_string()]);
}

#[test]
fn test_completion_descends_into_subcommand() {
    let group = Group::new("cli")
        .command(Command::new("run").option(ClickOption::new(&["--fast"]).flag("true").build()).build())
        .build();
    let items = get_completions(&group, "cli", &["run".to_string()], "--f");
    let values: Vec<String> = items.iter().map(|c| c.value.clone()).collect();
    assert_eq!(values, vec!["--fast".to_string()]);
}

#[test]
fn test_forward_copies_values() {
    let seen = Arc::new(Mutex::new(None::<String>));
    let seen2 = Arc::clone(&seen);
    let target = Command::new("other")
        .callback(move |ctx| {
            *seen2.lock().unwrap() = ctx.get_param::<String>("name").cloned();
            Ok(())
        })
        .build();
    let ctx = greet().make_context("greet", vec!["--name".to_string(), "Zed".to_string()], None).unwrap();
    let ctx = Arc::new(ctx);
    assert!(ctx.forward(&target).is_ok());
    assert_eq!(seen.lock().unwrap().clone(), Some("Zed".to_string()));
}

#[test]
fn test_pass_decorator_returns_closure_result() {
    let cb = make_pass_decorator::<i32>().decorate(|_state: &i32, _ctx| Err(ClickError::usage("closure said no")));
    let ctx = ContextBuilder::new().obj(Value::I32(1)).build();
    match cb.run(&ctx) {
        Err(ClickError::UsageError { message, .. }) => assert_eq!(message, "closure said no"),
        other => panic!("unexpected: {:?}", other.is_ok()),
    }
}

#[test]
fn test_argument_without_type_keeps_text() {
    let arg = Argument::new("dst").build();
    let v = arg.convert_any("some text");
    assert!(matches!(v, Ok(Value::Str(ref t)) if t == "some text"));
    assert_eq!(arg.type_converter().name(), "TEXT");
}

#[test]
fn test_child_prefix_from_parent() {
    let a = ContextBuilder::new().auto_envvar_prefix("my-app").build();
    assert_eq!(a.auto_envvar_prefix(), Some("MY_APP"));
    let p = Arc::new(ContextBuilder::new().auto_envvar_prefix("MY_APP").build());
    let c = ContextBuilder::new().info_name("sub-cmd").parent(p).build();
    assert_eq!(c.auto_envvar_prefix(), Some("MY_APP_SUB_CMD"));
}

#[test]
fn test_envvar_form_ascii() {
    assert_eq!(envvar_form_pub("my-app"), "MY_APP");
}

#[test]
fn test_command_path_of_nested_contexts() {
    let p = Arc::new(ContextBuilder::new().info_name("cli").build());
    let c = ContextBuilder::new().info_name("sub").parent(p).build();
    assert_eq!(c.command_path(), "cli sub");
}

#[test]
fn test_child_inherits_object_and_meta() {
    let mut parent = ContextBuilder::new().obj(Value::I32(5)).build();
    parent.meta_mut().insert("k".to_string(), Value::Str("v".to_string()));
    let child = ContextBuilder::new().parent(Arc::new(parent)).build();
    assert_eq!(child.obj::<i32>(), Some(&5));
    assert!(matches!(child.meta().get("k"), Some(Value::Str(t)) if t == "v"));
}

#[test]
fn test_edit_distance_symmetric_and_zero() {
    assert_eq!(edit_distance("kitten", "sitting"), 3);
    assert_eq!(edit_distance("sitting", "kitten"), 3);
    assert_eq!(edit_distance("same", "same"), 0);
    assert!(edit_distance("same", "sane") > 0);
}

#[test]
fn test_group_help_commands_section_only_when_visible() {
    let visible = Group::new("cli").command(Command::new("run").build()).build();
    let ctx = visible.make_context("cli", vec![], None).unwrap();
    let help = visible.get_help(&ctx);
    assert!(help.lines().next().unwrap().starts_with("Usage:"));
    assert!(help.contains("Commands:"));

    let hidden = Group::new("cli").command(Command::new("run").hidden().build()).build();
    let ctx = hidden.make_context("cli", vec![], None).unwrap();
    let help = hidden.get_help(&ctx);
    assert!(!help.contains("Commands:"));
}

#[test]
fn test_request_shell_names() {
    assert_eq!(request_shell("bash_complete"), "bash");
    assert_eq!(request_shell("zsh_source"), "zsh");
    assert_eq!(request_shell("fish"), "fish");
}

#[test]
fn test_prompt_retry_messages() {
    assert_eq!(prompt_retry_message(Some("bad number"), "x", None), Some("Error: bad number".to_string()));
    assert_eq!(prompt_retry_message(None, "pw", Some("pw")), None);
    assert_eq!(
        prompt_retry_message(None, "pw", Some("px")),
        Some("Error: The two entered values do not match.".to_string())
    );
    assert_eq!(prompt_retry_message(None, "pw", None), None);
}

fn words_of(vals: &[click::parser::ParsedValue]) -> Vec<String> {
    let mut out = Vec::new();
    for v in vals {
        match v {
            click::parser::ParsedValue::Single(s) => out.push(s.clone()),
            click::parser::ParsedValue::Multiple(ws) => out.extend(ws.iter().cloned()),
            _ => {}
        }
    }
    out
}

#[test]
fn test_unpack_keeps_every_word() {
    let args: Vec<String> = ["a", "b", "c", "d", "e"].iter().map(|s| s.to_string()).collect();
    for spec in [vec![1, -1, 1], vec![2, 1], vec![1, click::parser::NARGS_OPTIONAL, 3], vec![-1], vec![0, 1]] {
        let (vals, rest) = click::parser::unpack_args(&args, &spec).unwrap();
        let mut all = words_of(&vals);
        all.extend(rest.iter().cloned());
        assert_eq!(all, args, "spec {:?}", spec);
    }
}

#[test]
fn test_normalizer_applies_to_short_options_and_errors() {
    let mut parser = OptionParser::new().token_normalize_func(|s| s.to_lowercase());
    parser.add_option(&["-v"], "verbose", OptionAction::StoreConst, 0, Some("yes"));
    let (opts, _, _) = parser.parse_args(vec!["-V".to_string()]).unwrap();
    assert!(opts.get("verbose").is_some());
    match parser.parse_args(vec!["--NOPE".to_string()]) {
        Err(ClickError::NoSuchOption { option_name, .. }) => assert_eq!(option_name, "--nope"),
        other => panic!("unexpected: {:?}", other.is_ok()),
    }
}

#[test]
fn test_option_type_sets_name_placeholder_and_conversion() {
    let opt = ClickOption::new(&["--count"]).type_(click::types::INT).build();
    assert_eq!(opt.kind_name, "INTEGER");
    assert_eq!(opt.type_metavar, Some("INTEGER".to_string()));
    assert!(opt.convert_any("nope").is_err());
    assert!(matches!(opt.convert_any("42"), Ok(Value::Int(42))));
}

#[test]
fn test_option_without_type_keeps_text() {
    let opt = ClickOption::new(&["--name"]).build();
    assert!(matches!(opt.convert_any("World"), Ok(Value::Str(ref s)) if s == "World"));
}

#[test]
fn test_argument_type_sets_name_and_conversion() {
    let arg = Argument::new("count").type_(click::types::INT).build();
    assert_eq!(arg.kind_name, "INTEGER");
    assert!(arg.convert_any("nope").is_err());
    let text = Argument::new("name").build();
    assert_eq!(text.kind_name, "TEXT");
    assert!(matches!(text.convert_any("x"), Ok(Value::Str(ref s)) if s == "x"));
}
