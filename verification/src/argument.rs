//! Positional arguments: required by default, shown in upper case in help.

use vstd::prelude::*;
use crate::context::Context;
use crate::error::{ClickError, IntoText, opt_view};
use crate::parameter::{Nargs, Parameter, ParameterConfig, DeprecationInfo, optvec_view};
use crate::types::{CompletionItem, StringType, TypeConverter, Value};
use crate::text::{
    to_upper, upper_of, contains_char, cat2, cat3, push_str, str_of, split_whitespace, words,
};

verus! {

/// A parameter type as parameters hold it: behind a pointer, with its values
/// converted one by one or as a list.
pub trait AnyTypeConverter {
    /// Whether converting `input` may give `out`.
    spec fn converts_any(&self, input: Seq<char>, out: Result<Value, String>) -> bool;

    /// The type's name.
    spec fn spec_any_name(&self) -> Seq<char>;

    /// The type's placeholder in help.
    spec fn spec_any_metavar(&self) -> Option<Seq<char>>;

    /// Whether `r` are the type's completions for `incomplete`.
    spec fn spec_any_completes(&self, incomplete: Seq<char>, r: Seq<CompletionItem>) -> bool;

    fn name(&self) -> (r: &str)
        ensures
            r@ == self.spec_any_name(),
    ;

    /// Convert one value.
    fn convert_any(&self, value: &str) -> (r: Result<Value, String>)
        ensures
            self.converts_any(value@, r),
    ;

    /// Convert each value; the first error is returned.
    fn convert_multi(&self, values: &[String]) -> (r: Result<Value, String>)
        ensures
            match r {
                Ok(v) => v matches Value::List(items) && items@.len() == values@.len() && forall|k: int|
                    0 <= k < values@.len() ==> #[trigger] self.converts_any(values@[k]@, Ok::<Value, String>(items@[k])),
                Err(e) => exists|k: int| 0 <= k < values@.len() && #[trigger] self.converts_any(values@[k]@, Err(e)),
            },
    ;

    fn get_metavar(&self) -> (r: Option<String>)
        ensures
            r is Some == self.spec_any_metavar() is Some,
            r matches Some(m) ==> m@ == self.spec_any_metavar()->0,
    ;

    /// Split an environment value into several: at whitespace.
    fn split_envvar_value(&self, value: &str) -> (r: Vec<String>)
        ensures
            r.deep_view() == crate::text::words(value@),
    ;

    fn shell_complete(&self, incomplete: &str) -> (r: Vec<CompletionItem>)
        ensures
            self.spec_any_completes(incomplete@, r@),
    ;
}

impl<T: TypeConverter> AnyTypeConverter for T {
    open spec fn converts_any(&self, input: Seq<char>, out: Result<Value, String>) -> bool {
        TypeConverter::converts(self, input, out)
    }

    open spec fn spec_any_name(&self) -> Seq<char> {
        TypeConverter::spec_name(self)
    }

    open spec fn spec_any_metavar(&self) -> Option<Seq<char>> {
        TypeConverter::spec_metavar(self)
    }

    open spec fn spec_any_completes(&self, incomplete: Seq<char>, r: Seq<CompletionItem>) -> bool {
        TypeConverter::spec_completes(self, incomplete, r)
    }

    fn name(&self) -> (r: &str) {
        TypeConverter::name(self)
    }

    fn convert_any(&self, value: &str) -> (r: Result<Value, String>) {
        self.convert(value)
    }

    fn convert_multi(&self, values: &[String]) -> (r: Result<Value, String>) {
        let mut converted: Vec<Value> = Vec::new();
        let mut i: usize = 0;
        while i < values.len()
            invariant
                i <= values@.len(),
                converted@.len() == i,
                forall|k: int| 0 <= k < i ==> #[trigger] self.converts_any(values@[k]@, Ok::<Value, String>(converted@[k])),
            decreases values@.len() - i,
        {
            match self.convert(values[i].as_str()) {
                Ok(v) => {
                    converted.push(v);
                },
                Err(e) => {
                    assert(self.converts_any(values@[i as int]@, Err::<Value, String>(e)));
                    return Err(e);
                },
            }
            i = i + 1;
        }
        Ok(Value::List(converted))
    }

    fn get_metavar(&self) -> (r: Option<String>) {
        TypeConverter::get_metavar(self)
    }

    fn split_envvar_value(&self, value: &str) -> Vec<String> {
        TypeConverter::split_envvar_value(self, value)
    }

    fn shell_complete(&self, incomplete: &str) -> (r: Vec<CompletionItem>) {
        TypeConverter::shell_complete(self, incomplete)
    }
}

/// The parameter type `c` (as parameters hold it) is `t`: it converts,
/// completes, and is named and shown as `t` is.
pub open spec fn installs<T: TypeConverter>(c: Box<dyn AnyTypeConverter>, t: T) -> bool {
    &&& forall|i: Seq<char>, o: Result<Value, String>| #[trigger] c.converts_any(i, o) == t.converts(i, o)
    &&& forall|i: Seq<char>, o: Seq<CompletionItem>| #[trigger] c.spec_any_completes(i, o) == t.spec_completes(i, o)
    &&& c.spec_any_name() == t.spec_name()
    &&& c.spec_any_metavar() == t.spec_metavar()
}

/// Two converters that convert, complete, name and show alike.
pub open spec fn same_converter(a: Box<dyn AnyTypeConverter>, b: Box<dyn AnyTypeConverter>) -> bool {
    &&& forall|i: Seq<char>, o: Result<Value, String>| #[trigger] a.converts_any(i, o) == b.converts_any(i, o)
    &&& forall|i: Seq<char>, o: Seq<CompletionItem>| #[trigger] a.spec_any_completes(i, o) == b.spec_any_completes(i, o)
    &&& a.spec_any_name() == b.spec_any_name()
    &&& a.spec_any_metavar() == b.spec_any_metavar()
}

/// A converter that keeps text as it is, offers no completions and is named
/// and shown as TEXT.
pub open spec fn converts_as_text(c: Box<dyn AnyTypeConverter>) -> bool {
    &&& forall|i: Seq<char>, o: Result<Value, String>|
        #[trigger] c.converts_any(i, o) <==> (o matches Ok(Value::Str(t)) && t@ == i)
    &&& forall|i: Seq<char>, o: Seq<CompletionItem>| #[trigger] c.spec_any_completes(i, o) <==> o.len() == 0
    &&& c.spec_any_name() == "TEXT"@
    &&& c.spec_any_metavar() == Some("TEXT"@)
}

/// Completions supplied by the user for a parameter.
pub trait ShellCompleteCallback {
    /// Whether `r` may be what the callback gives for `incomplete` in `ctx`.
    spec fn spec_returns(&self, ctx: Context, incomplete: &str, r: Vec<CompletionItem>) -> bool;

    fn complete(&self, ctx: &Context, incomplete: &str) -> (r: Vec<CompletionItem>)
        ensures
            self.spec_returns(*ctx, incomplete, r),
    ;
}

/// Calls a user's completion closure (std's `Fn::call`): where the arguments meet the closure's own precondition, what comes back is
/// what the closure returns for these arguments.
#[verifier::external_body]
fn call_completer<F: Fn(&Context, &str) -> Vec<CompletionItem>>(f: &F, ctx: &Context, incomplete: &str) -> (r: Vec<
    CompletionItem,
>)
    ensures
        call_requires(*f, (ctx, incomplete)) ==> call_ensures(*f, (ctx, incomplete), r),
{
    f(ctx, incomplete)
}

impl<F: Fn(&Context, &str) -> Vec<CompletionItem>> ShellCompleteCallback for F {
    open spec fn spec_returns(&self, ctx: Context, incomplete: &str, r: Vec<CompletionItem>) -> bool {
        call_requires(*self, (&ctx, incomplete)) ==> call_ensures(*self, (&ctx, incomplete), r)
    }

    fn complete(&self, ctx: &Context, incomplete: &str) -> (r: Vec<CompletionItem>) {
        call_completer(self, ctx, incomplete)
    }
}

/// A user's function applied to a parameter's value.
pub trait ParameterCallback {
    fn call(&self, ctx: &Context, value: Value) -> Result<Value, ClickError>;
}

/// Calls a user's parameter callback (std's `Fn::call`): where the arguments meet the closure's own precondition, what comes back is
/// what the callback returns for these arguments.
#[verifier::external_body]
fn call_param_callback<F: Fn(&Context, Value) -> Result<Value, ClickError>>(f: &F, ctx: &Context, value: Value) -> (r: Result<
    Value,
    ClickError,
>)
    ensures
        call_requires(*f, (ctx, value)) ==> call_ensures(*f, (ctx, value), r),
{
    f(ctx, value)
}

impl<F: Fn(&Context, Value) -> Result<Value, ClickError>> ParameterCallback for F {
    fn call(&self, ctx: &Context, value: Value) -> Result<Value, ClickError> {
        call_param_callback(self, ctx, value)
    }
}

/// A positional argument.
pub struct Argument {
    pub config: ParameterConfig,
    pub default_value: Option<String>,
    pub kind_name: String,
    pub type_metavar: Option<String>,
    pub type_converter: Box<dyn AnyTypeConverter>,
    pub shell_complete_callback: Option<Box<dyn ShellCompleteCallback>>,
    pub callback: Option<Box<dyn ParameterCallback>>,
}

/// The placeholder of an argument given what its type offers: a type placeholder
/// with `|` (choices) is kept, in braces unless it has some, otherwise the name
/// in upper case.
pub open spec fn base_metavar(config: ParameterConfig, type_metavar: Option<Seq<char>>) -> Seq<char> {
    match config.metavar {
        Some(m) => m@,
        None => match type_metavar {
            Some(tm) => if tm.contains('|') {
                if tm.contains('{') || tm.contains('}') {
                    tm
                } else {
                    "{"@ + tm + "}"@
                }
            } else {
                upper_of(config.name@)
            },
            None => upper_of(config.name@),
        },
    }
}

/// The placeholder shown for an argument: `!` when deprecated, brackets when
/// optional, `...` when it takes other than one value.
pub open spec fn argument_metavar(config: ParameterConfig, type_metavar: Option<Seq<char>>) -> Seq<char> {
    let v1 = base_metavar(config, type_metavar) + if config.deprecated is Some { seq!['!'] } else { Seq::<char>::empty() };
    let v2 = if !config.required { "["@ + v1 + "]"@ } else { v1 };
    match config.nargs {
        Nargs::Variadic => v2 + "..."@,
        Nargs::Count(n) => if n != 1 { v2 + "..."@ } else { v2 },
        Nargs::Optional => v2,
    }
}

impl Argument {
    /// A builder for an argument with the given name.
    pub fn new(name: &str) -> (r: ArgumentBuilder)
        ensures
            r.config.name@ == name@,
            r.config.is_default_except_name(),
            r.default_value is None,
            !r.required_explicitly_set,
            r.type_converter is None,
            r.kind_name is None && r.type_metavar is None,
            r.shell_complete_callback is None && r.callback is None,
            fresh_argument_builder(r, name@),
    {
        ArgumentBuilder::new(name)
    }

    /// The same as `new`.
    pub fn builder(name: &str) -> (r: ArgumentBuilder)
        ensures
            r.config.name@ == name@,
            r.config.is_default_except_name(),
            r.default_value is None,
            !r.required_explicitly_set,
            r.type_converter is None,
            r.kind_name is None && r.type_metavar is None,
            r.shell_complete_callback is None && r.callback is None,
            fresh_argument_builder(r, name@),
    {
        ArgumentBuilder::new(name)
    }

    pub open spec fn spec_type_metavar(&self) -> Option<Seq<char>> {
        opt_view(self.type_metavar)
    }

    pub open spec fn spec_kind_name(&self) -> Seq<char> {
        self.kind_name@
    }

    pub open spec fn spec_has_completer(&self) -> bool {
        self.shell_complete_callback is Some
    }

    pub fn type_converter(&self) -> &dyn AnyTypeConverter {
        &*self.type_converter
    }

    /// Convert one value with the argument's type.
    pub fn convert_any(&self, value: &str) -> (r: Result<Value, String>)
        ensures
            self.type_converter.converts_any(value@, r),
    {
        self.type_converter.convert_any(value)
    }

    /// Convert a value that the type makes a string; other values are refused.
    pub fn convert(&self, value: &str) -> (r: Result<String, String>)
        ensures
            exists|v: Result<Value, String>|
                #[trigger] self.type_converter.converts_any(value@, v) && match v {
                    Ok(Value::Str(t)) => r == Ok::<String, String>(t),
                    Ok(_) => r matches Err(m) && m@ == "Type conversion returned non-String value; use convert_any() instead"@,
                    Err(e) => r == Err::<String, String>(e),
                },
    {
        proof {
            reveal_strlit("Type conversion returned non-String value; use convert_any() instead");
        }
        match self.type_converter.convert_any(value) {
            Ok(v) => match v {
                Value::Str(s) => Ok(s),
                _ => Err(String::from_str("Type conversion returned non-String value; use convert_any() instead")),
            },
            Err(e) => Err(e),
        }
    }

    /// Completions: the user's callback when there is one, else the type's.
    pub fn get_completions(&self, ctx: &Context, incomplete: &str) -> (r: Vec<CompletionItem>)
        ensures
            match self.shell_complete_callback {
                Some(cb) => cb.spec_returns(*ctx, incomplete, r),
                None => self.type_converter.spec_any_completes(incomplete@, r@),
            },
    {
        match &self.shell_complete_callback {
            Some(cb) => cb.complete(ctx, incomplete),
            None => self.type_converter.shell_complete(incomplete),
        }
    }

    pub fn has_shell_complete_callback(&self) -> (r: bool)
        ensures
            r == self.spec_has_completer(),
    {
        self.shell_complete_callback.is_some()
    }

    pub fn default_value(&self) -> (r: Option<&str>)
        ensures
            match r {
                Some(d) => opt_view(self.default_value) == Some(d@),
                None => self.default_value is None,
            },
    {
        match &self.default_value {
            Some(d) => Some(d.as_str()),
            None => None,
        }
    }

    /// The placeholder shown for the argument in usage and help.
    pub fn make_metavar(&self) -> (r: String)
        ensures
            r@ == argument_metavar(self.config, self.spec_type_metavar()),
    {
        let mut var = match &self.config.metavar {
            Some(m) => m.clone(),
            None => match &self.type_metavar {
                Some(tm) => {
                    if contains_char(tm.as_str(), '|') {
                        if contains_char(tm.as_str(), '{') || contains_char(tm.as_str(), '}') {
                            tm.clone()
                        } else {
                            cat3("{", tm.as_str(), "}")
                        }
                    } else {
                        to_upper(self.config.name.as_str())
                    }
                },
                None => to_upper(self.config.name.as_str()),
            },
        };
        let ghost v0 = var@;
        if self.config.deprecated.is_some() {
            var.push('!');
        } else {
            assert(var@ =~= v0 + Seq::<char>::empty());
        }
        if !self.config.required {
            var = cat3("[", var.as_str(), "]");
        }
        let ghost v2 = var@;
        match self.config.nargs {
            Nargs::Variadic => push_str(&mut var, "..."),
            Nargs::Count(n) => {
                if n != 1 {
                    push_str(&mut var, "...");
                }
            },
            Nargs::Optional => {},
        }
        var
    }
}

impl Parameter for Argument {
    open spec fn spec_name(&self) -> Seq<char> {
        self.config.name@
    }

    open spec fn spec_nargs(&self) -> Nargs {
        self.config.nargs
    }

    open spec fn spec_multiple(&self) -> bool {
        self.config.multiple
    }

    open spec fn spec_required(&self) -> bool {
        self.config.required
    }

    open spec fn spec_expose_value(&self) -> bool {
        self.config.expose_value
    }

    open spec fn spec_hidden(&self) -> bool {
        self.config.hidden
    }

    open spec fn spec_eager(&self) -> bool {
        self.config.is_eager
    }

    /// The metavar when one is set, else the name in upper case.
    open spec fn spec_human_name(&self) -> Seq<char> {
        match self.config.metavar {
            Some(m) => m@,
            None => upper_of(self.config.name@),
        }
    }

    fn name(&self) -> (r: &str) {
        self.config.name.as_str()
    }

    fn human_readable_name(&self) -> (r: String) {
        match &self.config.metavar {
            Some(m) => m.clone(),
            None => to_upper(self.config.name.as_str()),
        }
    }

    fn nargs(&self) -> (r: Nargs) {
        self.config.nargs
    }

    fn multiple(&self) -> (r: bool) {
        self.config.multiple
    }

    fn is_eager(&self) -> (r: bool) {
        self.config.is_eager
    }

    fn expose_value(&self) -> (r: bool) {
        self.config.expose_value
    }

    fn required(&self) -> (r: bool) {
        self.config.required
    }

    open spec fn spec_envvar(&self) -> Option<Seq<Seq<char>>> {
        match self.config.envvar {
            Some(v) => Some(v.deep_view()),
            None => None,
        }
    }

    open spec fn spec_help(&self) -> Option<Seq<char>> {
        opt_view(self.config.help)
    }

    fn envvar(&self) -> Option<&Vec<String>> {
        match &self.config.envvar {
            Some(v) => Some(v),
            None => None,
        }
    }

    fn help(&self) -> Option<&str> {
        match &self.config.help {
            Some(h) => Some(h.as_str()),
            None => None,
        }
    }

    fn hidden(&self) -> (r: bool) {
        self.config.hidden
    }

    fn get_metavar(&self) -> (r: Option<String>)
        ensures
            r matches Some(m) && m@ == argument_metavar(self.config, self.spec_type_metavar()),
    {
        Some(self.make_metavar())
    }

    /// The placeholder and the help text (empty when there is none).
    fn get_help_record(&self) -> (r: Option<(String, String)>)
        ensures
            self.config.hidden ==> r is None,
            !self.config.hidden ==> (r matches Some((m, h)) && m@ == argument_metavar(self.config, self.spec_type_metavar())
                && h@ == match self.config.help {
                Some(x) => x@,
                None => Seq::<char>::empty(),
            }),
    {
        if self.config.hidden {
            return None;
        }
        let metavar = self.make_metavar();
        let help = match &self.config.help {
            Some(h) => h.clone(),
            None => String::new(),
        };
        Some((metavar, help))
    }

    fn param_type_name(&self) -> (r: &str)
        ensures
            r@ == "argument"@,
    {
        "argument"
    }
}

/// Builds an argument.
pub struct ArgumentBuilder {
    pub config: ParameterConfig,
    pub default_value: Option<String>,
    pub type_converter: Option<Box<dyn AnyTypeConverter>>,
    pub kind_name: Option<String>,
    pub type_metavar: Option<String>,
    /// `required` was called: the default rule does not apply.
    pub required_explicitly_set: bool,
    pub shell_complete_callback: Option<Box<dyn ShellCompleteCallback>>,
    pub callback: Option<Box<dyn ParameterCallback>>,
}

/// Whether an argument without an explicit setting is required: not when it has
/// a default, else when it takes at least one value.
pub open spec fn auto_required(default: bool, nargs: Nargs) -> bool {
    if default {
        false
    } else {
        match nargs {
            Nargs::Count(n) => n > 0,
            Nargs::Variadic => true,
            Nargs::Optional => false,
        }
    }
}

/// A builder as an argument named `name` starts: the defaults, no default
/// value, no type, no callbacks.
pub open spec fn fresh_argument_builder(b: ArgumentBuilder, name: Seq<char>) -> bool {
    &&& b.config.name@ == name
    &&& b.config.is_default_except_name()
    &&& b.default_value is None
    &&& !b.required_explicitly_set
    &&& b.type_converter is None
    &&& b.kind_name is None && b.type_metavar is None
    &&& b.shell_complete_callback is None && b.callback is None
}

/// The two ways to start an argument give the same builder: equal in every
/// field but the name's `String`, which spells the same text.
pub proof fn law_argument_entry_points_agree(a: ArgumentBuilder, b: ArgumentBuilder, name: Seq<char>)
    requires
        fresh_argument_builder(a, name),
        fresh_argument_builder(b, name),
    ensures
        a.config.name@ == b.config.name@,
        a.config == (ParameterConfig { name: a.config.name, ..b.config }),
        a == (ArgumentBuilder { config: a.config, ..b }),
{
}

impl ArgumentBuilder {
    fn new(name: &str) -> (r: Self)
        ensures
            r.config.name@ == name@,
            r.config.is_default_except_name(),
            r.default_value is None,
            !r.required_explicitly_set,
            r.type_converter is None,
            r.kind_name is None && r.type_metavar is None,
            r.shell_complete_callback is None && r.callback is None,
    {
        ArgumentBuilder {
            config: ParameterConfig::new(name),
            default_value: None,
            type_converter: None,
            kind_name: None,
            type_metavar: None,
            required_explicitly_set: false,
            shell_complete_callback: None,
            callback: None,
        }
    }

    pub fn help(self, help: &str) -> (r: Self)
        ensures
            opt_view(r.config.help) == Some(help@),
            r.config == (ParameterConfig { help: r.config.help, ..self.config }),
            r == (ArgumentBuilder { config: r.config, ..self }),
    {
        let mut s = self;
        s.config.help = Some(str_of(help));
        s
    }

    /// Say explicitly whether the argument is required.
    pub fn required(self, required: bool) -> (r: Self)
        ensures
            r.config == (ParameterConfig { required, ..self.config }),
            r == (ArgumentBuilder { config: r.config, required_explicitly_set: true, ..self }),
    {
        let mut s = self;
        s.config.required = required;
        s.required_explicitly_set = true;
        s
    }

    pub fn default<S: IntoText>(self, value: S) -> (r: Self)
        ensures
            opt_view(r.default_value) == Some(value.text()),
            r == (ArgumentBuilder { default_value: r.default_value, ..self }),
    {
        let mut s = self;
        s.default_value = Some(value.into_string());
        s
    }

    pub fn envvar(self, name: &str) -> (r: Self)
        ensures
            optvec_view(r.config.envvar) == Some(seq![name@]),
            r.config == (ParameterConfig { envvar: r.config.envvar, ..self.config }),
            r == (ArgumentBuilder { config: r.config, ..self }),
    {
        let mut s = self;
        let c = s.config.envvar(name);
        s.config = c;
        s
    }

    pub fn envvars(self, names: &[&str]) -> (r: Self)
        ensures
            optvec_view(r.config.envvar) == Some(names@.map_values(|x: &str| x@)),
            r.config == (ParameterConfig { envvar: r.config.envvar, ..self.config }),
            r == (ArgumentBuilder { config: r.config, ..self }),
    {
        let mut s = self;
        let c = s.config.envvars(names);
        s.config = c;
        s
    }

    /// How many values; variadic makes the argument take several.
    pub fn nargs(self, n: Nargs) -> (r: Self)
        ensures
            r.config == (ParameterConfig {
                nargs: n,
                multiple: if n is Variadic { true } else { self.config.multiple },
                ..self.config
            }),
            r == (ArgumentBuilder { config: r.config, ..self }),
    {
        let mut s = self;
        s.config.nargs = n;
        match n {
            Nargs::Variadic => {
                s.config.multiple = true;
            },
            _ => {},
        }
        s
    }

    /// A function applied to the value.
    pub fn callback<F: Fn(&Context, Value) -> Result<Value, ClickError> + 'static>(self, callback: F) -> (r: Self)
        ensures
            r == (ArgumentBuilder { callback: r.callback, ..self }),
            r.callback is Some,
    {
        let mut s = self;
        let b: Box<dyn ParameterCallback> = Box::new(callback);
        s.callback = Some(b);
        s
    }

    /// Take all remaining values.
    pub fn multiple(self) -> (r: Self)
        ensures
            r.config == (ParameterConfig { nargs: Nargs::Variadic, multiple: true, ..self.config }),
            r == (ArgumentBuilder { config: r.config, ..self }),
    {
        let mut s = self;
        s.config.nargs = Nargs::Variadic;
        s.config.multiple = true;
        s
    }

    /// The argument's type.
    pub fn type_<T: TypeConverter + 'static>(self, type_: T) -> (r: Self)
        ensures
            r == (ArgumentBuilder {
                type_converter: r.type_converter,
                kind_name: r.kind_name,
                type_metavar: r.type_metavar,
                ..self
            }),
            r.type_converter matches Some(c) && installs(c, type_),
            r.kind_name matches Some(k) && k@ == type_.spec_name(),
            r.type_metavar is Some == type_.spec_metavar() is Some,
            r.type_metavar matches Some(m) ==> m@ == type_.spec_metavar()->0,
    {
        let mut s = self;
        s.kind_name = Some(str_of(TypeConverter::name(&type_)));
        s.type_metavar = TypeConverter::get_metavar(&type_);
        let b: Box<dyn AnyTypeConverter> = Box::new(type_);
        s.type_converter = Some(b);
        s
    }

    /// Completions of one's own.
    pub fn shell_complete<F: Fn(&Context, &str) -> Vec<CompletionItem> + 'static>(self, callback: F) -> (r: Self)
        ensures
            r == (ArgumentBuilder { shell_complete_callback: r.shell_complete_callback, ..self }),
            r.shell_complete_callback is Some,
    {
        let mut s = self;
        let b: Box<dyn ShellCompleteCallback> = Box::new(callback);
        s.shell_complete_callback = Some(b);
        s
    }

    pub fn metavar(self, metavar: &str) -> (r: Self)
        ensures
            opt_view(r.config.metavar) == Some(metavar@),
            r.config == (ParameterConfig { metavar: r.config.metavar, ..self.config }),
            r == (ArgumentBuilder { config: r.config, ..self }),
    {
        let mut s = self;
        s.config.metavar = Some(str_of(metavar));
        s
    }

    pub fn hidden(self, hidden: bool) -> (r: Self)
        ensures
            r.config == (ParameterConfig { hidden, ..self.config }),
            r == (ArgumentBuilder { config: r.config, ..self }),
    {
        let mut s = self;
        s.config.hidden = hidden;
        s
    }

    pub fn eager(self, eager: bool) -> (r: Self)
        ensures
            r.config == (ParameterConfig { is_eager: eager, ..self.config }),
            r == (ArgumentBuilder { config: r.config, ..self }),
    {
        let mut s = self;
        s.config.is_eager = eager;
        s
    }

    pub fn expose_value(self, expose: bool) -> (r: Self)
        ensures
            r.config == (ParameterConfig { expose_value: expose, ..self.config }),
            r == (ArgumentBuilder { config: r.config, ..self }),
    {
        let mut s = self;
        s.config.expose_value = expose;
        s
    }

    pub fn deprecated(self, deprecated: bool) -> (r: Self)
        ensures
            deprecated ==> (r.config.deprecated matches Some(d) && d.message is None),
            !deprecated ==> r.config.deprecated is None,
            r.config == (ParameterConfig { deprecated: r.config.deprecated, ..self.config }),
            r == (ArgumentBuilder { config: r.config, ..self }),
    {
        let mut s = self;
        let c = s.config.deprecated(deprecated);
        s.config = c;
        s
    }

    pub fn deprecated_with_message<S: IntoText>(self, message: S) -> (r: Self)
        ensures
            r.config.deprecated matches Some(d) && opt_view(d.message) == Some(message.text()),
            r.config == (ParameterConfig { deprecated: r.config.deprecated, ..self.config }),
            r == (ArgumentBuilder { config: r.config, ..self }),
    {
        let mut s = self;
        let c = s.config.deprecated_with_message(message);
        s.config = c;
        s
    }

    /// The argument: required as set, else as the default rule says; text
    /// unless a type was given.
    pub fn build(self) -> (r: Argument)
        ensures
            r.config == (ParameterConfig {
                required: if self.required_explicitly_set {
                    self.config.required
                } else {
                    auto_required(self.default_value is Some, self.config.nargs)
                },
                ..self.config
            }),
            r.default_value == self.default_value,
            r.spec_has_completer() == (self.shell_complete_callback is Some),
            self.type_converter is None ==> r.spec_type_metavar() == Some("TEXT"@) && r.spec_kind_name() == "TEXT"@,
            self.type_converter is None ==> forall|input: Seq<char>, out: Result<Value, String>|
                #[trigger] r.type_converter.converts_any(input, out) <==> (out matches Ok(Value::Str(t)) && t@ == input),
            self.type_converter is None ==> converts_as_text(r.type_converter),
            self.type_converter matches Some(c) ==> same_converter(c, r.type_converter),
    {
        let mut s = self;
        if !s.required_explicitly_set {
            if s.default_value.is_some() {
                s.config.required = false;
            } else {
                s.config.required = match s.config.nargs {
                    Nargs::Count(n) => n > 0,
                    Nargs::Variadic => true,
                    Nargs::Optional => false,
                };
            }
        }
        match s.type_converter {
            Some(t) => Argument {
                config: s.config,
                default_value: s.default_value,
                kind_name: match s.kind_name {
                    Some(n) => n,
                    None => String::new(),
                },
                type_metavar: s.type_metavar,
                type_converter: t,
                shell_complete_callback: s.shell_complete_callback,
                callback: s.callback,
            },
            None => {
                let b: Box<dyn AnyTypeConverter> = Box::new(StringType);
                Argument {
                    config: s.config,
                    default_value: s.default_value,
                    kind_name: String::from_str("TEXT"),
                    type_metavar: Some(String::from_str("TEXT")),
                    type_converter: b,
                    shell_complete_callback: s.shell_complete_callback,
                    callback: s.callback,
                }
            },
        }
    }
}

} // verus!
