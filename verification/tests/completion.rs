//! Tests of the completion module.

#[allow(unused_imports)]
use std::sync::Arc;
use click::command::{Command};
use click::completion::{BashComplete, CompletionArgs, FishComplete, ZshComplete, get_completion_class, get_completions, list_shells, make_completion_option};
use click::group::{Group};
use click::completion::{detect_shell, CompletionAction};
use click::complete::{directories, directory_base, env_vars};
use click::option::{ClickOption};
use click::types::{CompletionItem};
#[allow(unused_imports)]
use click::parameter::Parameter;
#[allow(unused_imports)]
use click::argument::AnyTypeConverter;
#[allow(unused_imports)]
use click::types::{TypeConverter, FromValue};
#[allow(unused_imports)]
use click::group::CommandLike;
#[allow(unused_imports)]
use click::completion::ShellComplete;

#[test]
fn test_get_completion_class() {
    assert!(get_completion_class("bash").is_some());
    assert!(get_completion_class("zsh").is_some());
    assert!(get_completion_class("fish").is_some());
    assert!(get_completion_class("unknown").is_none());

    // Case insensitive
    assert!(get_completion_class("BASH").is_some());
    assert!(get_completion_class("Zsh").is_some());
}

#[test]
fn test_shell_names() {
    let bash = BashComplete;
    assert_eq!(bash.name(), "bash");

    let zsh = ZshComplete;
    assert_eq!(zsh.name(), "zsh");

    let fish = FishComplete;
    assert_eq!(fish.name(), "fish");
}

#[test]
fn test_list_shells() {
    let shells = list_shells();
    assert!(shells.contains(&"bash"));
    assert!(shells.contains(&"zsh"));
    assert!(shells.contains(&"fish"));
}

#[test]
fn test_bash_source_template() {
    let bash = BashComplete;
    let source = bash.get_source("myapp", "_MYAPP_COMPLETE");

    assert!(source.contains("myapp"));
    assert!(source.contains("_MYAPP_COMPLETE"));
    assert!(source.contains("_myapp_completion"));
    assert!(source.contains("COMP_WORDS"));
    assert!(source.contains("COMP_CWORD"));
}

#[test]
fn test_zsh_source_template() {
    let zsh = ZshComplete;
    let source = zsh.get_source("myapp", "_MYAPP_COMPLETE");

    assert!(source.contains("#compdef myapp"));
    assert!(source.contains("_MYAPP_COMPLETE"));
    assert!(source.contains("_myapp_completion"));
}

#[test]
fn test_fish_source_template() {
    let fish = FishComplete;
    let source = fish.get_source("myapp", "_MYAPP_COMPLETE");

    assert!(source.contains("function _myapp_completion"));
    assert!(source.contains("_MYAPP_COMPLETE"));
    assert!(source.contains("complete -c myapp"));
}

#[test]
fn test_bash_format_completion() {
    let bash = BashComplete;

    let item = CompletionItem::new("--help");
    assert_eq!(bash.format_completion(&item), "--help");

    let item_with_help = CompletionItem::new("--name").with_help("Specify name");
    assert_eq!(bash.format_completion(&item_with_help), "--name");
}

#[test]
fn test_zsh_format_completion() {
    let zsh = ZshComplete;

    let item = CompletionItem::new("--help");
    assert_eq!(zsh.format_completion(&item), "--help:_");

    let item_with_help = CompletionItem::new("--name").with_help("Specify name");
    assert_eq!(zsh.format_completion(&item_with_help), "--name:Specify name");
}

#[test]
fn test_fish_format_completion() {
    let fish = FishComplete;

    let item = CompletionItem::new("--help");
    assert_eq!(fish.format_completion(&item), "plain,--help");

    let item_file = CompletionItem::with_type("path", "file");
    assert_eq!(fish.format_completion(&item_file), "file,path");
}

#[test]
fn test_completion_args_default() {
    let args = CompletionArgs::default();
    assert!(args.args.is_empty());
    assert!(args.incomplete.is_empty());
}

#[test]
fn test_get_completions_empty() {
    let cmd = Command::new("test").build();
    let completions = get_completions(&cmd, "test", &[], "");

    // Should at least have --help
    assert!(completions.iter().any(|c| c.value == "--help"));
}

#[test]
fn test_get_completions_options() {
    let cmd = Command::new("test")
        .option(
            click::option::ClickOption::new(&["--name", "-n"])
                .help("The name")
                .build(),
        )
        .build();

    let completions = get_completions(&cmd, "test", &[], "--");

    assert!(completions.iter().any(|c| c.value == "--name"));
    assert!(completions.iter().any(|c| c.value == "--help"));
}

#[test]
fn test_get_completions_subcommands() {
    let group = Group::new("cli")
        .command(Command::new("init").help("Initialize").build())
        .command(Command::new("build").help("Build").build())
        .build();

    let completions = get_completions(&group, "cli", &[], "");

    assert!(completions.iter().any(|c| c.value == "init"));
    assert!(completions.iter().any(|c| c.value == "build"));
}

#[test]
fn test_get_completions_subcommand_prefix() {
    let group = Group::new("cli")
        .command(Command::new("init").build())
        .command(Command::new("install").build())
        .command(Command::new("build").build())
        .build();

    let completions = get_completions(&group, "cli", &[], "in");

    assert!(completions.iter().any(|c| c.value == "init"));
    assert!(completions.iter().any(|c| c.value == "install"));
    assert!(!completions.iter().any(|c| c.value == "build"));
}

#[test]
fn test_completion_option() {
    let opt = make_completion_option("_TEST_COMPLETE");
    assert_eq!(opt.complete_var, "_TEST_COMPLETE");
}

#[test]
fn test_prog_name_with_dash() {
    let bash = BashComplete;
    let source = bash.get_source("my-app", "_MY_APP_COMPLETE");

    // Function name should have underscore, not dash
    assert!(source.contains("_my_app_completion"));
}

#[test]
fn test_completion_option_requests() {
    let opt = make_completion_option("_PROG_COMPLETE");
    assert!(!opt.is_completion_requested(None));
    assert!(opt.is_completion_requested(Some("bash_complete")));
    assert_eq!(opt.get_completion_shell(Some("zsh_source")), Some("zsh".to_string()));
    assert_eq!(opt.get_completion_shell(Some("nounderscore")), None);
    assert!(opt.is_source_request(Some("fish_source")));
    assert!(!opt.is_source_request(Some("fish_complete")));
    assert_eq!(opt.handle_completion(None), None);
    assert_eq!(opt.handle_completion(Some("plain")), None);
    assert_eq!(
        opt.handle_completion(Some("bash_source")),
        Some(CompletionAction::Source { shell: "bash".to_string() })
    );
    assert_eq!(
        opt.handle_completion(Some("zsh_complete")),
        Some(CompletionAction::Complete { shell: "zsh".to_string() })
    );
}

#[test]
fn test_detect_shell_from_path() {
    assert_eq!(detect_shell(Some("/bin/bash")), Some("bash".to_string()));
    assert_eq!(detect_shell(Some("/usr/local/bin/fish")), Some("fish".to_string()));
    assert_eq!(detect_shell(Some("zsh")), Some("zsh".to_string()));
    assert_eq!(detect_shell(Some("/bin/tcsh")), None);
    assert_eq!(detect_shell(None), None);
}

#[test]
fn test_env_var_and_directory_completion() {
    let names = vec!["HOME".to_string(), "PATH".to_string(), "MY_HOME_DIR".to_string()];
    let found: Vec<String> = env_vars(&names, "home").into_iter().map(|c| c.value).collect();
    assert_eq!(found, vec!["HOME".to_string(), "MY_HOME_DIR".to_string()]);

    assert_eq!(directory_base("src", '/'), None);
    assert_eq!(directory_base("foo/ba", '/'), Some("foo".to_string()));
    assert_eq!(directory_base("/usr", '/'), None);
    let dirs = vec!["bar".to_string(), "baz".to_string(), "qux".to_string()];
    let got: Vec<String> = directories("foo/ba", '/', &dirs).into_iter().map(|c| c.value).collect();
    assert_eq!(got, vec!["foo/bar".to_string(), "foo/baz".to_string()]);
    let got: Vec<String> = directories("q", '/', &dirs).into_iter().map(|c| c.value).collect();
    assert_eq!(got, vec!["qux".to_string()]);
    let got: Vec<String> = directories("./b", '/', &dirs).into_iter().map(|c| c.value).collect();
    assert_eq!(got, vec!["bar".to_string(), "baz".to_string()]);
}
