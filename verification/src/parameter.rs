//! What options and arguments have in common: how many values they take and
//! their shared configuration.

use vstd::prelude::*;
use crate::error::{ClickError, IntoText, opt_view};
use crate::text::{cat3, usize_to_string, int_to_dec};

verus! {

/// How many values a parameter consumes.
#[derive(Debug, Clone, Copy, PartialEq, Eq, Hash, Structural)]
pub enum Nargs {
    /// Exactly N values (the default is one).
    Count(usize),
    /// Zero or more values: all the remaining ones.
    Variadic,
    /// Zero or one value.
    Optional,
}

impl Nargs {
    /// The default: exactly one value.
    pub fn default() -> (r: Nargs)
        ensures
            r == Nargs::Count(1),
    {
        Nargs::Count(1)
    }

    /// Exactly one value.
    pub fn is_single(&self) -> (r: bool)
        ensures
            r == (*self == Nargs::Count(1)),
    {
        match self {
            Nargs::Count(n) => *n == 1,
            _ => false,
        }
    }

    /// Possibly several values.
    pub fn is_multi(&self) -> (r: bool)
        ensures
            r == match *self {
                Nargs::Variadic => true,
                Nargs::Count(n) => n > 1,
                Nargs::Optional => false,
            },
    {
        match self {
            Nargs::Variadic => true,
            Nargs::Count(n) => *n > 1,
            Nargs::Optional => false,
        }
    }

    pub fn is_variadic(&self) -> (r: bool)
        ensures
            r == (*self is Variadic),
    {
        match self {
            Nargs::Variadic => true,
            _ => false,
        }
    }

    pub fn is_optional(&self) -> (r: bool)
        ensures
            r == (*self is Optional),
    {
        match self {
            Nargs::Optional => true,
            _ => false,
        }
    }

    /// The exact count, for `Count(n)`.
    pub fn count(&self) -> (r: Option<usize>)
        ensures
            r == match *self {
                Nargs::Count(n) => Some(n),
                _ => None,
            },
    {
        match self {
            Nargs::Count(n) => Some(*n),
            _ => None,
        }
    }

    pub open spec fn text(self) -> Seq<char> {
        match self {
            Nargs::Count(n) => int_to_dec(n as int),
            Nargs::Variadic => "-1"@,
            Nargs::Optional => "?"@,
        }
    }

    /// The textual form: the count, `-1` for variadic, `?` for optional.
    pub fn to_string(&self) -> (r: String)
        ensures
            r@ == self.text(),
    {
        match self {
            Nargs::Count(n) => usize_to_string(*n),
            Nargs::Variadic => String::from_str("-1"),
            Nargs::Optional => String::from_str("?"),
        }
    }
}

/// What options and arguments share: their name, help and value settings.
pub trait Parameter {
    spec fn spec_name(&self) -> Seq<char>;

    spec fn spec_nargs(&self) -> Nargs;

    spec fn spec_multiple(&self) -> bool;

    spec fn spec_required(&self) -> bool;

    spec fn spec_expose_value(&self) -> bool;

    spec fn spec_hidden(&self) -> bool;

    spec fn spec_eager(&self) -> bool;

    /// The name that stands for the parameter in messages.
    spec fn spec_human_name(&self) -> Seq<char>;

    /// The primary name of the parameter.
    fn name(&self) -> (r: &str)
        ensures
            r@ == self.spec_name(),
    ;

    /// The name shown in errors and help.
    fn human_readable_name(&self) -> (r: String)
        ensures
            r@ == self.spec_human_name(),
    ;

    fn nargs(&self) -> (r: Nargs)
        ensures
            r == self.spec_nargs(),
    ;

    fn multiple(&self) -> (r: bool)
        ensures
            r == self.spec_multiple(),
    ;

    fn is_eager(&self) -> (r: bool)
        ensures
            r == self.spec_eager(),
    ;

    fn expose_value(&self) -> (r: bool)
        ensures
            r == self.spec_expose_value(),
    ;

    fn required(&self) -> (r: bool)
        ensures
            r == self.spec_required(),
    ;

    /// The environment variables the value may be read from.
    spec fn spec_envvar(&self) -> Option<Seq<Seq<char>>>;

    /// The help text.
    spec fn spec_help(&self) -> Option<Seq<char>>;

    fn envvar(&self) -> (r: Option<&Vec<String>>)
        ensures
            match r {
                Some(v) => self.spec_envvar() == Some(v.deep_view()),
                None => self.spec_envvar() is None,
            },
    ;

    fn help(&self) -> (r: Option<&str>)
        ensures
            match r {
                Some(h) => self.spec_help() == Some(h@),
                None => self.spec_help() is None,
            },
    ;

    fn hidden(&self) -> (r: bool)
        ensures
            r == self.spec_hidden(),
    ;

    /// The placeholder shown for the value in help.
    fn get_metavar(&self) -> Option<String>;

    /// The two columns of the parameter's line in help, unless it is hidden.
    fn get_help_record(&self) -> (r: Option<(String, String)>)
        ensures
            self.spec_hidden() ==> r is None,
    ;

    /// The word for this kind of parameter in messages.
    fn param_type_name(&self) -> (r: &str);
}

/// Information about a deprecated parameter.
#[derive(Debug, Clone)]
pub struct DeprecationInfo {
    /// A message to show in place of the default one.
    pub message: Option<String>,
}

impl DeprecationInfo {
    /// Deprecation with the default message.
    pub fn new() -> (r: Self)
        ensures
            r.message is None,
    {
        DeprecationInfo { message: None }
    }

    /// Deprecation with a message of its own.
    pub fn with_message<S: IntoText>(message: S) -> (r: Self)
        ensures
            opt_view(r.message) == Some(message.text()),
    {
        DeprecationInfo { message: Some(message.into_string()) }
    }
}

/// The configuration that options and arguments share.
#[derive(Debug, Clone)]
pub struct ParameterConfig {
    pub name: String,
    pub nargs: Nargs,
    pub multiple: bool,
    pub is_eager: bool,
    pub expose_value: bool,
    pub required: bool,
    /// The environment variables the value may come from, first non-empty wins.
    pub envvar: Option<Vec<String>>,
    pub help: Option<String>,
    pub hidden: bool,
    pub metavar: Option<String>,
    pub deprecated: Option<DeprecationInfo>,
}

pub open spec fn optvec_view(o: Option<Vec<String>>) -> Option<Seq<Seq<char>>> {
    match o {
        Some(v) => Some(v.deep_view()),
        None => None,
    }
}

impl ParameterConfig {
    /// The defaults: one value, exposed, not required, nothing else set.
    pub open spec fn is_default_except_name(&self) -> bool {
        &&& self.nargs == Nargs::Count(1)
        &&& !self.multiple
        &&& !self.is_eager
        &&& self.expose_value
        &&& !self.required
        &&& self.envvar is None
        &&& self.help is None
        &&& !self.hidden
        &&& self.metavar is None
        &&& self.deprecated is None
    }

    /// A configuration with an empty name and the defaults.
    pub fn default() -> (r: Self)
        ensures
            r.name@ == Seq::<char>::empty(),
            r.is_default_except_name(),
    {
        ParameterConfig {
            name: String::new(),
            nargs: Nargs::Count(1),
            multiple: false,
            is_eager: false,
            expose_value: true,
            required: false,
            envvar: None,
            help: None,
            hidden: false,
            metavar: None,
            deprecated: None,
        }
    }

    /// A configuration with the given name and the defaults.
    pub fn new<S: IntoText>(name: S) -> (r: Self)
        ensures
            r.name@ == name.text(),
            r.is_default_except_name(),
    {
        let mut c = Self::default();
        c.name = name.into_string();
        c
    }

    pub fn nargs(self, nargs: Nargs) -> (r: Self)
        ensures
            r == (ParameterConfig { nargs, ..self }),
    {
        let mut s = self;
        s.nargs = nargs;
        s
    }

    pub fn multiple(self, multiple: bool) -> (r: Self)
        ensures
            r == (ParameterConfig { multiple, ..self }),
    {
        let mut s = self;
        s.multiple = multiple;
        s
    }

    pub fn eager(self, eager: bool) -> (r: Self)
        ensures
            r == (ParameterConfig { is_eager: eager, ..self }),
    {
        let mut s = self;
        s.is_eager = eager;
        s
    }

    pub fn expose_value(self, expose: bool) -> (r: Self)
        ensures
            r == (ParameterConfig { expose_value: expose, ..self }),
    {
        let mut s = self;
        s.expose_value = expose;
        s
    }

    pub fn required(self, required: bool) -> (r: Self)
        ensures
            r == (ParameterConfig { required, ..self }),
    {
        let mut s = self;
        s.required = required;
        s
    }

    /// One environment variable for the value.
    pub fn envvar<S: IntoText>(self, var: S) -> (r: Self)
        ensures
            optvec_view(r.envvar) == Some(seq![var.text()]),
            r == (ParameterConfig { envvar: r.envvar, ..self }),
    {
        let mut s = self;
        let mut v: Vec<String> = Vec::new();
        v.push(var.into_string());
        proof {
            assert(v.deep_view() =~= seq![var.text()]);
        }
        s.envvar = Some(v);
        s
    }

    /// Several environment variables for the value, the first non-empty one wins.
    pub fn envvars(self, vars: &[&str]) -> (r: Self)
        ensures
            optvec_view(r.envvar) == Some(vars@.map_values(|x: &str| x@)),
            r == (ParameterConfig { envvar: r.envvar, ..self }),
    {
        let mut s = self;
        let mut v: Vec<String> = Vec::new();
        let mut i: usize = 0;
        while i < vars.len()
            invariant
                i <= vars@.len(),
                v.deep_view() =~= vars@.take(i as int).map_values(|x: &str| x@),
            decreases vars@.len() - i,
        {
            let ghost od = v.deep_view();
            v.push(String::from_str(vars[i]));
            assert(v.deep_view() =~= od.push(vars@[i as int]@));
            assert(vars@.take(i + 1).map_values(|x: &str| x@) =~= vars@.take(i as int).map_values(|x: &str| x@).push(vars@[i as int]@));
            i = i + 1;
        }
        assert(vars@.take(vars@.len() as int) =~= vars@);
        s.envvar = Some(v);
        s
    }

    pub fn help<S: IntoText>(self, help: S) -> (r: Self)
        ensures
            opt_view(r.help) == Some(help.text()),
            r == (ParameterConfig { help: r.help, ..self }),
    {
        let mut s = self;
        s.help = Some(help.into_string());
        s
    }

    pub fn hidden(self, hidden: bool) -> (r: Self)
        ensures
            r == (ParameterConfig { hidden, ..self }),
    {
        let mut s = self;
        s.hidden = hidden;
        s
    }

    pub fn metavar<S: IntoText>(self, metavar: S) -> (r: Self)
        ensures
            opt_view(r.metavar) == Some(metavar.text()),
            r == (ParameterConfig { metavar: r.metavar, ..self }),
    {
        let mut s = self;
        s.metavar = Some(metavar.into_string());
        s
    }

    /// Mark the parameter deprecated (with the default message), or not.
    pub fn deprecated(self, deprecated: bool) -> (r: Self)
        ensures
            deprecated ==> (r.deprecated matches Some(d) && d.message is None),
            !deprecated ==> r.deprecated is None,
            r == (ParameterConfig { deprecated: r.deprecated, ..self }),
    {
        let mut s = self;
        s.deprecated = if deprecated {
            Some(DeprecationInfo::new())
        } else {
            None
        };
        s
    }

    /// Mark the parameter deprecated with a message of its own.
    pub fn deprecated_with_message<S: IntoText>(self, message: S) -> (r: Self)
        ensures
            r.deprecated matches Some(d) && opt_view(d.message) == Some(message.text()),
            r == (ParameterConfig { deprecated: r.deprecated, ..self }),
    {
        let mut s = self;
        s.deprecated = Some(DeprecationInfo::with_message(message));
        s
    }

    pub open spec fn validate_message(name: Seq<char>) -> Seq<char> {
        "The parameter '"@ + name + "' is deprecated and required. A deprecated parameter cannot be required."@
    }

    /// A deprecated parameter cannot be required.
    pub fn validate(&self) -> (r: Result<(), ClickError>)
        ensures
            r is Ok <==> !(self.deprecated is Some && self.required),
            r matches Err(e) ==> e matches ClickError::UsageError { message, ctx: None }
                && message@ == Self::validate_message(self.name@),
    {
        if self.deprecated.is_some() && self.required {
            let msg = cat3(
                "The parameter '",
                self.name.as_str(),
                "' is deprecated and required. A deprecated parameter cannot be required.",
            );
            return Err(ClickError::usage(msg));
        }
        Ok(())
    }
}

} // verus!
