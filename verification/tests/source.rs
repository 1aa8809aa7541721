//! Tests of the source module.

#[allow(unused_imports)]
use std::sync::Arc;
use std::cmp::Ordering;
use click::source::{ParameterSource};
use std::collections::HashSet;
#[allow(unused_imports)]
use click::parameter::Parameter;
#[allow(unused_imports)]
use click::argument::AnyTypeConverter;
#[allow(unused_imports)]
use click::types::{TypeConverter, FromValue};
#[allow(unused_imports)]
use click::group::CommandLike;
#[allow(unused_imports)]
use click::completion::ShellComplete;

#[test]
fn test_is_from_user() {
    assert!(ParameterSource::CommandLine.is_from_user());
    assert!(ParameterSource::Prompt.is_from_user());
    assert!(!ParameterSource::Environment.is_from_user());
    assert!(!ParameterSource::Default.is_from_user());
    assert!(!ParameterSource::DefaultMap.is_from_user());
}

#[test]
fn test_display() {
    assert_eq!(ParameterSource::CommandLine.to_string(), "command line");
    assert_eq!(
        ParameterSource::Environment.to_string(),
        "environment variable"
    );
    assert_eq!(ParameterSource::Default.to_string(), "default value");
    assert_eq!(ParameterSource::DefaultMap.to_string(), "default map");
    assert_eq!(ParameterSource::Prompt.to_string(), "prompt");
}

#[test]
fn test_precedence_ordering() {
    // CommandLine > Environment > DefaultMap > Default
    assert!(ParameterSource::CommandLine > ParameterSource::Environment);
    assert!(ParameterSource::Environment > ParameterSource::DefaultMap);
    assert!(ParameterSource::DefaultMap > ParameterSource::Default);

    // Prompt equals CommandLine in precedence
    assert_eq!(
        ParameterSource::CommandLine.cmp(&ParameterSource::Prompt),
        Ordering::Equal
    );
    assert!(ParameterSource::Prompt > ParameterSource::Environment);
}

#[test]
fn test_equality() {
    assert_eq!(ParameterSource::CommandLine, ParameterSource::CommandLine);
    assert_ne!(ParameterSource::CommandLine, ParameterSource::Environment);
}

#[test]
fn test_copy_clone() {
    let source = ParameterSource::CommandLine;
    let copied = source; // Copy
    let cloned = source.clone(); // Clone
    assert_eq!(source, copied);
    assert_eq!(source, cloned);
}

#[test]
fn test_hash() {

    let mut set = HashSet::new();
    set.insert(ParameterSource::CommandLine);
    set.insert(ParameterSource::Environment);
    set.insert(ParameterSource::CommandLine); // Duplicate

    assert_eq!(set.len(), 2);
    assert!(set.contains(&ParameterSource::CommandLine));
    assert!(set.contains(&ParameterSource::Environment));
}

#[test]
fn test_debug() {
    let debug_str = format!("{:?}", ParameterSource::CommandLine);
    assert_eq!(debug_str, "CommandLine");
}
