//! Tests of the option module.

#[allow(unused_imports)]
use std::sync::Arc;
use click::option::{ClickOption, derive_param_name, parse_option_name, split_option_names};
use click::types::{Choice, INT};
#[allow(unused_imports)]
use click::parameter::Parameter;
#[allow(unused_imports)]
use click::argument::AnyTypeConverter;
#[allow(unused_imports)]
use click::types::{TypeConverter, FromValue};
#[allow(unused_imports)]
use click::group::CommandLike;
#[allow(unused_imports)]
use click::completion::ShellComplete;

#[test]
fn test_parse_option_name_long() {
    let (name, is_long) = parse_option_name("--name").unwrap();
    assert_eq!(name, "name");
    assert!(is_long);

    let (name, is_long) = parse_option_name("--full-name").unwrap();
    assert_eq!(name, "full-name");
    assert!(is_long);
}

#[test]
fn test_parse_option_name_short() {
    let (name, is_long) = parse_option_name("-n").unwrap();
    assert_eq!(name, "n");
    assert!(!is_long);

    let (name, is_long) = parse_option_name("-v").unwrap();
    assert_eq!(name, "v");
    assert!(!is_long);
}

#[test]
fn test_parse_option_name_errors() {
    assert!(parse_option_name("--").is_err());
    assert!(parse_option_name("-").is_err());
    assert!(parse_option_name("---name").is_err());
    assert!(parse_option_name("-ab").is_err()); // Multi-char short
    assert!(parse_option_name("name").is_err()); // No dash
}

#[test]
fn test_split_option_names() {
    let (long, short) = split_option_names(&["--name", "-n", "--full-name"]).unwrap();
    assert_eq!(long, vec!["--name", "--full-name"]);
    assert_eq!(short, vec!["-n"]);
}

#[test]
fn test_split_option_names_only_short() {
    let (long, short) = split_option_names(&["-n", "-N"]).unwrap();
    assert!(long.is_empty());
    assert_eq!(short, vec!["-n", "-N"]);
}

#[test]
fn test_split_option_names_empty() {
    let result = split_option_names(&[]);
    assert!(result.is_err());
}

#[test]
fn test_derive_param_name() {
    let long = vec!["--name".to_string(), "--full-name".to_string()];
    let short = vec!["-n".to_string()];
    // Should pick longest long option: --full-name -> full_name
    assert_eq!(derive_param_name(&long, &short), "full_name");

    let long = vec![];
    let short = vec!["-n".to_string()];
    assert_eq!(derive_param_name(&long, &short), "n");
}

#[test]
fn test_option_builder_basic() {
    let opt = ClickOption::new(&["--name", "-n"])
        .help("The name to greet")
        .build();

    assert_eq!(opt.name(), "name");
    assert_eq!(opt.long, vec!["--name"]);
    assert_eq!(opt.short, vec!["-n"]);
    assert_eq!(opt.help(), Some("The name to greet"));
    assert!(!opt.is_flag);
    assert!(!opt.required());
}

#[test]
fn test_option_flag() {
    let opt = ClickOption::new(&["--verbose", "-v"]).flag("true").build();

    assert!(opt.is_flag);
    assert_eq!(opt.flag_value, Some("true".to_string()));
}

#[test]
fn test_option_bool_flag() {
    let opt = ClickOption::new(&["--debug"]).bool_flag().build();

    assert!(opt.is_flag);
    assert!(opt.is_bool_flag);
    assert_eq!(opt.flag_value, Some("true".to_string()));
    assert_eq!(opt.secondary_value, Some("false".to_string()));
}

#[test]
fn test_option_count() {
    let opt = ClickOption::new(&["--verbose", "-v"]).count().build();

    assert!(opt.count);
    assert!(opt.is_flag);
    assert_eq!(opt.default, Some("0".to_string()));
}

#[test]
fn test_option_help_record_value() {
    let opt = ClickOption::new(&["-n", "--name"])
        .help("Your name")
        .build();

    let (opts, help) = opt.get_help_record().unwrap();
    assert_eq!(opts, "-n, --name TEXT");
    assert_eq!(help, "Your name");
}

#[test]
fn test_option_help_record_flag() {
    let opt = ClickOption::new(&["-v", "--verbose"])
        .flag("true")
        .help("Enable verbose mode")
        .build();

    let (opts, help) = opt.get_help_record().unwrap();
    assert_eq!(opts, "-v, --verbose");
    assert_eq!(help, "Enable verbose mode");
}

#[test]
fn test_option_help_record_count() {
    let opt = ClickOption::new(&["--verbose", "-v"])
        .count()
        .help("Increase verbosity")
        .build();

    let (opts, help) = opt.get_help_record().unwrap();
    // Short options are listed first, then long options
    assert_eq!(opts, "-v, --verbose");
    assert_eq!(help, "Increase verbosity");
}

#[test]
fn test_option_help_record_with_default() {
    let opt = ClickOption::new(&["--name"])
        .default("World")
        .show_default()
        .build();

    let (opts, help) = opt.get_help_record().unwrap();
    assert_eq!(opts, "--name TEXT");
    assert!(help.contains("default: World"));
}

#[test]
fn test_option_help_record_with_envvar() {
    let opt = ClickOption::new(&["--name"])
        .envvar("MY_NAME")
        .show_envvar()
        .build();

    let (opts, help) = opt.get_help_record().unwrap();
    assert_eq!(opts, "--name TEXT");
    assert!(help.contains("env var: MY_NAME"));
}

#[test]
fn test_option_help_record_required() {
    let opt = ClickOption::new(&["--name"]).required().build();

    let (opts, help) = opt.get_help_record().unwrap();
    assert_eq!(opts, "--name TEXT");
    assert!(help.contains("required"));
}

#[test]
fn test_option_hidden() {
    let opt = ClickOption::new(&["--secret"]).hidden().build();

    assert!(opt.hidden());
    assert!(opt.get_help_record().is_none());
}

#[test]
fn test_option_with_custom_type() {
    let opt = ClickOption::new(&["--count"]).type_any(INT).build();

    assert_eq!(opt.get_metavar(), Some("INTEGER".to_string()));
}

#[test]
fn test_option_with_choice_type() {
    let opt = ClickOption::new(&["--format"])
        .type_(Choice::new(&["json", "xml", "csv"]))
        .build();

    assert_eq!(opt.get_metavar(), Some("[json|xml|csv]".to_string()));
}

#[test]
fn test_option_with_metavar_override() {
    let opt = ClickOption::new(&["--file"]).metavar("PATH").build();

    assert_eq!(opt.get_metavar(), Some("PATH".to_string()));
}

#[test]
fn test_option_prompt() {
    let opt = ClickOption::new(&["--password"])
        .prompt("Enter password")
        .hide_input(true)
        .confirmation_prompt(true)
        .build();

    assert_eq!(opt.prompt, Some("Enter password".to_string()));
    assert!(opt.hide_input);
    assert!(opt.confirmation_prompt);
}

#[test]
fn test_option_multiple() {
    let opt = ClickOption::new(&["--file", "-f"]).multiple().build();

    assert!(opt.multiple());
}

#[test]
fn test_option_eager() {
    let opt = ClickOption::new(&["--help", "-h"]).eager().build();

    assert!(opt.is_eager());
}

#[test]
fn test_option_human_readable_name() {
    let opt = ClickOption::new(&["-n", "--name", "--full-name"]).build();

    assert_eq!(opt.human_readable_name(), "-n, --name, --full-name");
}

#[test]
fn test_option_primary_opt() {
    let opt = ClickOption::new(&["-n", "--name"]).build();
    assert_eq!(opt.primary_opt(), "--name");

    let opt = ClickOption::new(&["-n", "-N"]).build();
    assert_eq!(opt.primary_opt(), "-n");
}

#[test]
fn test_option_param_type_name() {
    let opt = ClickOption::new(&["--name"]).build();
    assert_eq!(opt.param_type_name(), "option");
}
