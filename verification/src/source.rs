//! Where a parameter's value came from, and which sources take precedence.

use vstd::prelude::*;
use std::cmp::Ordering;

verus! {

/// The source of a parameter's value.
#[derive(Debug, Clone, Copy, PartialEq, Eq, Hash, Structural)]
#[non_exhaustive]
pub enum ParameterSource {
    /// Given on the command line.
    CommandLine,
    /// Read from an environment variable.
    Environment,
    /// The parameter's own default.
    Default,
    /// A default from the context's default map.
    DefaultMap,
    /// Entered at an interactive prompt.
    Prompt,
}

/// The precedence of a source: user input above environment above default map
/// above the parameter's default.
pub open spec fn precedence(s: ParameterSource) -> u8 {
    match s {
        ParameterSource::CommandLine => 4,
        ParameterSource::Prompt => 4,
        ParameterSource::Environment => 3,
        ParameterSource::DefaultMap => 2,
        ParameterSource::Default => 1,
    }
}

fn precedence_exec(s: &ParameterSource) -> (r: u8)
    ensures
        r == precedence(*s),
{
    match s {
        ParameterSource::CommandLine => 4,
        ParameterSource::Prompt => 4,
        ParameterSource::Environment => 3,
        ParameterSource::DefaultMap => 2,
        ParameterSource::Default => 1,
    }
}

impl ParameterSource {
    /// Whether the value came from the user: the command line or a prompt.
    pub fn is_from_user(&self) -> (r: bool)
        ensures
            r == (*self == ParameterSource::CommandLine || *self == ParameterSource::Prompt),
    {
        match self {
            ParameterSource::CommandLine => true,
            ParameterSource::Prompt => true,
            _ => false,
        }
    }

    pub open spec fn text(self) -> Seq<char> {
        match self {
            ParameterSource::CommandLine => "command line"@,
            ParameterSource::Environment => "environment variable"@,
            ParameterSource::Default => "default value"@,
            ParameterSource::DefaultMap => "default map"@,
            ParameterSource::Prompt => "prompt"@,
        }
    }

    /// The source described in words.
    pub fn to_string(&self) -> (r: String)
        ensures
            r@ == self.text(),
    {
        match self {
            ParameterSource::CommandLine => String::from_str("command line"),
            ParameterSource::Environment => String::from_str("environment variable"),
            ParameterSource::Default => String::from_str("default value"),
            ParameterSource::DefaultMap => String::from_str("default map"),
            ParameterSource::Prompt => String::from_str("prompt"),
        }
    }

    /// Compare two sources by precedence: the command line and a prompt rank
    /// equal, above the environment, above the default map, above the default.
    pub fn cmp(&self, other: &Self) -> (r: Ordering)
        ensures
            (r == Ordering::Less) == (precedence(*self) < precedence(*other)),
            (r == Ordering::Equal) == (precedence(*self) == precedence(*other)),
            (r == Ordering::Greater) == (precedence(*self) > precedence(*other)),
    {
        let a = precedence_exec(self);
        let b = precedence_exec(other);
        if a < b {
            Ordering::Less
        } else if a == b {
            Ordering::Equal
        } else {
            Ordering::Greater
        }
    }
}

impl PartialOrd for ParameterSource {
    fn partial_cmp(&self, other: &Self) -> (r: Option<Ordering>) {
        Some(self.cmp(other))
    }
}

impl vstd::std_specs::cmp::PartialOrdSpecImpl for ParameterSource {
    open spec fn obeys_partial_cmp_spec() -> bool {
        true
    }

    open spec fn partial_cmp_spec(&self, other: &Self) -> Option<Ordering> {
        if precedence(*self) < precedence(*other) {
            Some(Ordering::Less)
        } else if precedence(*self) == precedence(*other) {
            Some(Ordering::Equal)
        } else {
            Some(Ordering::Greater)
        }
    }
}

} // verus!
