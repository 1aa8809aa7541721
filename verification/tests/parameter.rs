//! Tests of the parameter module.

#[allow(unused_imports)]
use std::sync::Arc;
use click::parameter::{DeprecationInfo, Nargs, ParameterConfig};
#[allow(unused_imports)]
use click::parameter::Parameter;
#[allow(unused_imports)]
use click::argument::AnyTypeConverter;
#[allow(unused_imports)]
use click::types::{TypeConverter, FromValue};
#[allow(unused_imports)]
use click::group::CommandLike;
#[allow(unused_imports)]
use click::completion::ShellComplete;

#[test]
fn test_nargs_default() {
    let nargs = Nargs::default();
    assert_eq!(nargs, Nargs::Count(1));
    assert!(nargs.is_single());
    assert!(!nargs.is_multi());
    assert!(!nargs.is_variadic());
    assert!(!nargs.is_optional());
}

#[test]
fn test_nargs_count() {
    let nargs = Nargs::Count(3);
    assert!(!nargs.is_single());
    assert!(nargs.is_multi());
    assert!(!nargs.is_variadic());
    assert!(!nargs.is_optional());
    assert_eq!(nargs.count(), Some(3));
}

#[test]
fn test_nargs_variadic() {
    let nargs = Nargs::Variadic;
    assert!(!nargs.is_single());
    assert!(nargs.is_multi());
    assert!(nargs.is_variadic());
    assert!(!nargs.is_optional());
    assert_eq!(nargs.count(), None);
}

#[test]
fn test_nargs_optional() {
    let nargs = Nargs::Optional;
    assert!(!nargs.is_single());
    assert!(!nargs.is_multi());
    assert!(!nargs.is_variadic());
    assert!(nargs.is_optional());
    assert_eq!(nargs.count(), None);
}

#[test]
fn test_nargs_display() {
    assert_eq!(Nargs::Count(1).to_string(), "1");
    assert_eq!(Nargs::Count(3).to_string(), "3");
    assert_eq!(Nargs::Variadic.to_string(), "-1");
    assert_eq!(Nargs::Optional.to_string(), "?");
}

#[test]
fn test_parameter_config_builder() {
    let config = ParameterConfig::new("name")
        .nargs(Nargs::Count(2))
        .multiple(true)
        .eager(true)
        .expose_value(false)
        .required(true)
        .envvar("MY_VAR")
        .help("Help text")
        .hidden(false)
        .metavar("VALUE");

    assert_eq!(config.name, "name");
    assert_eq!(config.nargs, Nargs::Count(2));
    assert!(config.multiple);
    assert!(config.is_eager);
    assert!(!config.expose_value);
    assert!(config.required);
    assert_eq!(config.envvar, Some(vec!["MY_VAR".to_string()]));
    assert_eq!(config.help, Some("Help text".to_string()));
    assert!(!config.hidden);
    assert_eq!(config.metavar, Some("VALUE".to_string()));
}

#[test]
fn test_parameter_config_envvars() {
    let config = ParameterConfig::new("name").envvars(&["VAR1", "VAR2", "VAR3"]);

    assert_eq!(
        config.envvar,
        Some(vec![
            "VAR1".to_string(),
            "VAR2".to_string(),
            "VAR3".to_string()
        ])
    );
}

#[test]
fn test_parameter_config_default() {
    let config = ParameterConfig::default();

    assert_eq!(config.name, "");
    assert_eq!(config.nargs, Nargs::Count(1));
    assert!(!config.multiple);
    assert!(!config.is_eager);
    assert!(config.expose_value);
    assert!(!config.required);
    assert!(config.envvar.is_none());
    assert!(config.help.is_none());
    assert!(!config.hidden);
    assert!(config.metavar.is_none());
    assert!(config.deprecated.is_none());
}

#[test]
fn test_parameter_config_deprecated() {
    let config = ParameterConfig::new("old_option").deprecated(true);
    assert!(config.deprecated.is_some());
    assert!(config.deprecated.as_ref().unwrap().message.is_none());

    let config =
        ParameterConfig::new("old_option").deprecated_with_message("Use --new-option instead");
    assert!(config.deprecated.is_some());
    assert_eq!(
        config.deprecated.as_ref().unwrap().message,
        Some("Use --new-option instead".to_string())
    );
}

#[test]
fn test_parameter_config_validate_deprecated_required() {
    let config = ParameterConfig::new("option")
        .deprecated(true)
        .required(true);

    let result = config.validate();
    assert!(result.is_err());
    let err = result.err().unwrap();
    assert!(err.to_string().contains("deprecated"));
    assert!(err.to_string().contains("required"));
}

#[test]
fn test_parameter_config_validate_ok() {
    let config = ParameterConfig::new("option").required(true);

    assert!(config.validate().is_ok());

    let config = ParameterConfig::new("option").deprecated(true);

    assert!(config.validate().is_ok());
}

#[test]
fn test_deprecation_info() {
    let info = DeprecationInfo::new();
    assert!(info.message.is_none());

    let info = DeprecationInfo::with_message("Custom message");
    assert_eq!(info.message, Some("Custom message".to_string()));
}
