//! Errors raised while parsing and running a command line, with the messages shown
//! to the user and the exit code each one maps to.

use vstd::prelude::*;
use crate::text::{cat2, cat4, cat5, i64_to_string, int_to_dec, join, join_seq};

verus! {

/// Anything that can become an owned `String`: `&str`, `String` and `&String`.
pub trait IntoText {
    spec fn text(&self) -> Seq<char>;

    fn into_string(self) -> (r: String)
        ensures
            r@ == self.text(),
    ;
}

impl IntoText for &str {
    open spec fn text(&self) -> Seq<char> {
        (*self)@
    }

    fn into_string(self) -> (r: String) {
        String::from_str(self)
    }
}

impl IntoText for String {
    open spec fn text(&self) -> Seq<char> {
        self@
    }

    fn into_string(self) -> (r: String) {
        self
    }
}

impl IntoText for &String {
    open spec fn text(&self) -> Seq<char> {
        (*self)@
    }

    fn into_string(self) -> (r: String) {
        self.clone()
    }
}

pub open spec fn opt_view(o: Option<String>) -> Option<Seq<char>> {
    match o {
        Some(s) => Some(s@),
        None => None,
    }
}

pub open spec fn optv_view(o: Option<Vec<String>>) -> Option<Seq<Seq<char>>> {
    match o {
        Some(v) => Some(v.deep_view()),
        None => None,
    }
}

/// The kind of parameter an error is about.
#[derive(Debug, Clone, Copy, PartialEq, Eq, Structural)]
pub enum ParamType {
    Argument,
    Option,
    Parameter,
}

impl ParamType {
    pub open spec fn word(self) -> Seq<char> {
        match self {
            ParamType::Argument => "argument"@,
            ParamType::Option => "option"@,
            ParamType::Parameter => "parameter"@,
        }
    }

    /// The word shown for this kind of parameter.
    pub fn to_string(&self) -> (r: String)
        ensures
            r@ == self.word(),
    {
        match self {
            ParamType::Argument => String::from_str("argument"),
            ParamType::Option => String::from_str("option"),
            ParamType::Parameter => String::from_str("parameter"),
        }
    }
}

/// Context attached to an error to format usage and help hints.
#[derive(Debug, Clone)]
pub struct ErrorContext {
    pub command_path: Option<String>,
    pub usage: Option<String>,
    pub help_option_names: Vec<String>,
    pub color: Option<bool>,
}

pub open spec fn quote_seq(s: Seq<char>) -> Seq<char> {
    seq!['\''] + s + seq!['\'']
}

/// `Try 'PATH NAME' for help.`
pub open spec fn help_hint_seq(path: Seq<char>, name: Seq<char>) -> Seq<char> {
    "Try '"@ + path + " "@ + name + "' for help."@
}

impl ErrorContext {
    pub open spec fn spec_help_hint(&self) -> Option<Seq<char>> {
        match self.command_path {
            Some(p) => if self.help_option_names@.len() > 0 {
                Some(help_hint_seq(p@, self.help_option_names@[0]@))
            } else {
                None
            },
            None => None,
        }
    }

    pub fn new() -> (r: Self)
        ensures
            r.command_path is None,
            r.usage is None,
            r.help_option_names@.len() == 0,
            r.color is None,
    {
        ErrorContext { command_path: None, usage: None, help_option_names: Vec::new(), color: None }
    }

    pub fn with_command_path<S: IntoText>(self, path: S) -> (r: Self)
        ensures
            opt_view(r.command_path) == Some(path.text()),
            r == (ErrorContext { command_path: r.command_path, ..self }),
    {
        let mut s = self;
        s.command_path = Some(path.into_string());
        s
    }

    pub fn with_usage<S: IntoText>(self, usage: S) -> (r: Self)
        ensures
            opt_view(r.usage) == Some(usage.text()),
            r == (ErrorContext { usage: r.usage, ..self }),
    {
        let mut s = self;
        s.usage = Some(usage.into_string());
        s
    }

    pub fn with_help_options(self, options: Vec<String>) -> (r: Self)
        ensures
            r == (ErrorContext { help_option_names: options, ..self }),
    {
        let mut s = self;
        s.help_option_names = options;
        s
    }

    /// The "Try 'COMMAND --help' for help." hint, when a command path and a help
    /// option name are known.
    pub fn help_hint(&self) -> (r: Option<String>)
        ensures
            opt_view(r) == self.spec_help_hint(),
    {
        match &self.command_path {
            Some(p) => {
                if self.help_option_names.len() > 0 {
                    Some(cat5("Try '", p.as_str(), " ", self.help_option_names[0].as_str(), "' for help."))
                } else {
                    None
                }
            },
            None => None,
        }
    }
}

pub open spec fn quote_all(hints: Seq<Seq<char>>) -> Seq<Seq<char>> {
    hints.map_values(|h: Seq<char>| quote_seq(h))
}

/// Hints quoted and joined with ` / `.
pub open spec fn param_hints_seq(hints: Seq<Seq<char>>) -> Seq<char> {
    join_seq(quote_all(hints), " / "@)
}

pub fn quote(s: &str) -> (r: String)
    ensures
        r@ == quote_seq(s@),
{
    let mut r = String::from_str("'");
    r.append(s);
    r.append("'");
    proof {
        reveal_strlit("'");
        assert(r@ =~= quote_seq(s@));
    }
    r
}

pub fn quote_each(items: &Vec<String>) -> (r: Vec<String>)
    ensures
        r.deep_view() == quote_all(items.deep_view()),
{
    let mut out: Vec<String> = Vec::new();
    let mut i: usize = 0;
    while i < items.len()
        invariant
            i <= items@.len(),
            out.deep_view() =~= quote_all(items.deep_view().subrange(0, i as int)),
        decreases items@.len() - i,
    {
        let q = quote(items[i].as_str());
        let ghost od = out.deep_view();
        out.push(q);
        proof {
            assert(out.deep_view() =~= od.push(q@));
            assert(items.deep_view().subrange(0, i + 1) =~= items.deep_view().subrange(0, i as int).push(items@[i as int]@));
        }
        i = i + 1;
    }
    assert(items.deep_view().subrange(0, items@.len() as int) =~= items.deep_view());
    out
}

fn join_param_hints(hints: &Vec<String>) -> (r: String)
    ensures
        r@ == param_hints_seq(hints.deep_view()),
{
    let q = quote_each(hints);
    join(&q, " / ")
}

pub open spec fn missing_kind(t: ParamType) -> Seq<char> {
    match t {
        ParamType::Argument => "Missing argument"@,
        ParamType::Option => "Missing option"@,
        ParamType::Parameter => "Missing parameter"@,
    }
}

/// `Missing <kind>[ <hint>].[ <message>]`
pub open spec fn missing_param_seq(
    t: ParamType,
    name: Option<Seq<char>>,
    hint: Option<Seq<Seq<char>>>,
    message: Option<Seq<char>>,
) -> Seq<char> {
    let hint_str = match hint {
        Some(h) => " "@ + param_hints_seq(h),
        None => match name {
            Some(n) => " "@ + quote_seq(n),
            None => seq![],
        },
    };
    let msg_str = match message {
        Some(m) => " "@ + m,
        None => seq![],
    };
    missing_kind(t) + hint_str + "."@ + msg_str
}

/// `No such option: NAME`, with one suggestion or a list of possible options.
pub open spec fn no_such_option_seq(name: Seq<char>, poss: Option<Seq<Seq<char>>>) -> Seq<char> {
    let base = "No such option: "@ + name;
    match poss {
        Some(p) => if p.len() == 1 {
            base + " Did you mean '"@ + p[0] + "'?"@
        } else if p.len() > 0 {
            base + " (Possible options: "@ + join_seq(quote_all(p), ", "@) + ")"@
        } else {
            base
        },
        None => base,
    }
}

fn format_missing_param_message(
    param_type: &ParamType,
    param_name: &Option<String>,
    param_hint: &Option<Vec<String>>,
    message: &Option<String>,
) -> (r: String)
    ensures
        r@ == missing_param_seq(*param_type, opt_view(*param_name), optv_view(*param_hint), opt_view(*message)),
{
    let type_str = match param_type {
        ParamType::Argument => "Missing argument",
        ParamType::Option => "Missing option",
        ParamType::Parameter => "Missing parameter",
    };
    let hint_str = match param_hint {
        Some(hints) => cat2(" ", join_param_hints(hints).as_str()),
        None => match param_name {
            Some(n) => cat2(" ", quote(n.as_str()).as_str()),
            None => String::new(),
        },
    };
    let msg_str = match message {
        Some(m) => cat2(" ", m.as_str()),
        None => String::new(),
    };
    let r = cat4(type_str, hint_str.as_str(), ".", msg_str.as_str());
    proof {
        assert(r@ =~= missing_param_seq(*param_type, opt_view(*param_name), optv_view(*param_hint), opt_view(*message)));
    }
    r
}

fn format_no_such_option(option_name: &str, possibilities: &Option<Vec<String>>) -> (r: String)
    ensures
        r@ == no_such_option_seq(option_name@, optv_view(*possibilities)),
{
    let base = cat2("No such option: ", option_name);
    match possibilities {
        Some(opts) => {
            if opts.len() == 1 {
                let r = cat4(base.as_str(), " Did you mean '", opts[0].as_str(), "'?");
                proof {
                    assert(opts.deep_view()[0] == opts@[0]@);
                }
                r
            } else if opts.len() > 0 {
                let q = quote_each(opts);
                let j = join(&q, ", ");
                cat4(base.as_str(), " (Possible options: ", j.as_str(), ")")
            } else {
                base
            }
        },
        None => base,
    }
}

/// The errors of this library. `#[non_exhaustive]` lets variants be added later.
#[non_exhaustive]
#[derive(Debug)]
pub enum ClickError {
    /// A usage error (exit code 2).
    UsageError { message: String, ctx: Option<Box<ErrorContext>> },
    /// A parameter received an invalid value (exit code 2).
    BadParameter {
        message: String,
        param_name: Option<String>,
        param_hint: Option<Vec<String>>,
        ctx: Option<Box<ErrorContext>>,
    },
    /// A required parameter was not provided (exit code 2).
    MissingParameter {
        message: Option<String>,
        param_name: Option<String>,
        param_hint: Option<Vec<String>>,
        param_type: ParamType,
        ctx: Option<Box<ErrorContext>>,
    },
    /// An unknown option was given (exit code 2).
    NoSuchOption {
        option_name: String,
        possibilities: Option<Vec<String>>,
        ctx: Option<Box<ErrorContext>>,
    },
    /// An option was used incorrectly (exit code 2).
    BadOptionUsage { option_name: String, message: String, ctx: Option<Box<ErrorContext>> },
    /// An argument was used incorrectly (exit code 2).
    BadArgumentUsage { message: String, ctx: Option<Box<ErrorContext>> },
    /// A file could not be opened (exit code 1).
    FileError { filename: String, hint: String },
    /// The user aborted (exit code 1).
    Abort,
    /// Exit with the given code.
    Exit { code: i32 },
}

/// A result whose error is a `ClickError`.
pub type Result<T> = std::result::Result<T, ClickError>;

impl ClickError {
    pub open spec fn spec_exit_code(&self) -> i32 {
        match self {
            ClickError::Exit { code } => *code,
            ClickError::FileError { .. } => 1,
            ClickError::Abort => 1,
            _ => 2,
        }
    }

    pub open spec fn spec_is_usage_error(&self) -> bool {
        match self {
            ClickError::UsageError { .. } => true,
            ClickError::BadParameter { .. } => true,
            ClickError::MissingParameter { .. } => true,
            ClickError::NoSuchOption { .. } => true,
            ClickError::BadOptionUsage { .. } => true,
            ClickError::BadArgumentUsage { .. } => true,
            _ => false,
        }
    }

    /// The text of the error, as it is displayed.
    pub open spec fn spec_display(&self) -> Seq<char> {
        match self {
            ClickError::UsageError { message, .. } => message@,
            ClickError::BadParameter { message, .. } => message@,
            ClickError::MissingParameter { message, param_name, param_hint, param_type, .. } =>
                missing_param_seq(*param_type, opt_view(*param_name), optv_view(*param_hint), opt_view(*message)),
            ClickError::NoSuchOption { option_name, possibilities, .. } =>
                no_such_option_seq(option_name@, optv_view(*possibilities)),
            ClickError::BadOptionUsage { message, .. } => message@,
            ClickError::BadArgumentUsage { message, .. } => message@,
            ClickError::FileError { filename, hint } =>
                "Could not open file '"@ + filename@ + "': "@ + hint@,
            ClickError::Abort => "Aborted!"@,
            ClickError::Exit { code } => "Exit with code "@ + int_to_dec(*code as int),
        }
    }

    /// The message shown to the user: a bad parameter names the parameter.
    pub open spec fn spec_format_message(&self) -> Seq<char> {
        match self {
            ClickError::BadParameter { message, param_name, param_hint, .. } => match param_hint {
                Some(h) => "Invalid value for "@ + param_hints_seq(h.deep_view()) + ": "@ + message@,
                None => match param_name {
                    Some(n) => "Invalid value for "@ + quote_seq(n@) + ": "@ + message@,
                    None => "Invalid value: "@ + message@,
                },
            },
            _ => self.spec_display(),
        }
    }

    pub open spec fn spec_context(&self) -> Option<ErrorContext> {
        match self {
            ClickError::UsageError { ctx, .. } => ctx_view(*ctx),
            ClickError::BadParameter { ctx, .. } => ctx_view(*ctx),
            ClickError::MissingParameter { ctx, .. } => ctx_view(*ctx),
            ClickError::NoSuchOption { ctx, .. } => ctx_view(*ctx),
            ClickError::BadOptionUsage { ctx, .. } => ctx_view(*ctx),
            ClickError::BadArgumentUsage { ctx, .. } => ctx_view(*ctx),
            _ => None,
        }
    }

    /// The lines of the full output: usage, help hint (usage errors only), message.
    pub open spec fn spec_full_parts(&self) -> Seq<Seq<char>> {
        let head = match self.spec_context() {
            Some(c) => {
                let u = match c.usage {
                    Some(u) => seq![u@],
                    None => Seq::<Seq<char>>::empty(),
                };
                let h = if self.spec_is_usage_error() {
                    match c.spec_help_hint() {
                        Some(h) => seq![h],
                        None => Seq::<Seq<char>>::empty(),
                    }
                } else {
                    Seq::<Seq<char>>::empty()
                };
                u + h
            },
            None => Seq::<Seq<char>>::empty(),
        };
        head.push("Error: "@ + self.spec_format_message())
    }

    /// The exit code: the given code for `Exit`, 2 for usage errors, 1 otherwise.
    pub fn exit_code(&self) -> (r: i32)
        ensures
            r == self.spec_exit_code(),
    {
        match self {
            ClickError::Exit { code } => *code,
            ClickError::UsageError { .. } => 2,
            ClickError::BadParameter { .. } => 2,
            ClickError::MissingParameter { .. } => 2,
            ClickError::NoSuchOption { .. } => 2,
            ClickError::BadOptionUsage { .. } => 2,
            ClickError::BadArgumentUsage { .. } => 2,
            ClickError::FileError { .. } => 1,
            ClickError::Abort => 1,
        }
    }

    /// The text of the error.
    pub fn to_string(&self) -> (r: String)
        ensures
            r@ == self.spec_display(),
    {
        match self {
            ClickError::UsageError { message, .. } => message.clone(),
            ClickError::BadParameter { message, .. } => message.clone(),
            ClickError::MissingParameter { message, param_name, param_hint, param_type, .. } =>
                format_missing_param_message(param_type, param_name, param_hint, message),
            ClickError::NoSuchOption { option_name, possibilities, .. } =>
                format_no_such_option(option_name.as_str(), possibilities),
            ClickError::BadOptionUsage { message, .. } => message.clone(),
            ClickError::BadArgumentUsage { message, .. } => message.clone(),
            ClickError::FileError { filename, hint } =>
                cat4("Could not open file '", filename.as_str(), "': ", hint.as_str()),
            ClickError::Abort => String::from_str("Aborted!"),
            ClickError::Exit { code } => {
                let n = i64_to_string(*code as i64);
                cat2("Exit with code ", n.as_str())
            },
        }
    }

    /// The message shown to the user.
    pub fn format_message(&self) -> (r: String)
        ensures
            r@ == self.spec_format_message(),
    {
        match self {
            ClickError::BadParameter { message, param_name, param_hint, .. } => {
                match param_hint {
                    Some(h) => {
                        let hs = join_param_hints(h);
                        cat4("Invalid value for ", hs.as_str(), ": ", message.as_str())
                    },
                    None => match param_name {
                        Some(n) => {
                            let q = quote(n.as_str());
                            cat4("Invalid value for ", q.as_str(), ": ", message.as_str())
                        },
                        None => cat2("Invalid value: ", message.as_str()),
                    },
                }
            },
            _ => self.to_string(),
        }
    }

    /// The full output: usage and help hint when known, then `Error: <message>`,
    /// one per line.
    pub fn format_full(&self) -> (r: String)
        ensures
            r@ == join_seq(self.spec_full_parts(), "\n"@),
    {
        let mut parts: Vec<String> = Vec::new();
        let ghost mut g: Seq<Seq<char>> = Seq::empty();
        match self.context() {
            Some(c) => {
                match &c.usage {
                    Some(u) => {
                        parts.push(u.clone());
                    },
                    None => {},
                }
                if self.is_usage_error() {
                    match c.help_hint() {
                        Some(h) => {
                            parts.push(h);
                        },
                        None => {},
                    }
                }
            },
            None => {},
        }
        let m = self.format_message();
        parts.push(cat2("Error: ", m.as_str()));
        proof {
            assert(parts.deep_view() =~= self.spec_full_parts());
        }
        join(&parts, "\n")
    }

    pub fn is_usage_error(&self) -> (r: bool)
        ensures
            r == self.spec_is_usage_error(),
    {
        match self {
            ClickError::UsageError { .. } => true,
            ClickError::BadParameter { .. } => true,
            ClickError::MissingParameter { .. } => true,
            ClickError::NoSuchOption { .. } => true,
            ClickError::BadOptionUsage { .. } => true,
            ClickError::BadArgumentUsage { .. } => true,
            _ => false,
        }
    }

    /// The context attached to the error, if any.
    pub fn context(&self) -> (r: Option<&ErrorContext>)
        ensures
            match r {
                Some(c) => self.spec_context() == Some(*c),
                None => self.spec_context() is None,
            },
    {
        match self {
            ClickError::UsageError { ctx, .. } => ctx_ref(ctx),
            ClickError::BadParameter { ctx, .. } => ctx_ref(ctx),
            ClickError::MissingParameter { ctx, .. } => ctx_ref(ctx),
            ClickError::NoSuchOption { ctx, .. } => ctx_ref(ctx),
            ClickError::BadOptionUsage { ctx, .. } => ctx_ref(ctx),
            ClickError::BadArgumentUsage { ctx, .. } => ctx_ref(ctx),
            _ => None,
        }
    }

    /// The same error with the given context attached; errors that carry no context
    /// are returned unchanged.
    /// The same error with its context set (usage errors only).
    pub open spec fn spec_with_context(self, ctx: ErrorContext) -> ClickError {
        let boxed = Some(Box::new(ctx));
        match self {
            ClickError::UsageError { message, .. } => ClickError::UsageError { message, ctx: boxed },
            ClickError::BadParameter { message, param_name, param_hint, .. } =>
                ClickError::BadParameter { message, param_name, param_hint, ctx: boxed },
            ClickError::MissingParameter { message, param_name, param_hint, param_type, .. } =>
                ClickError::MissingParameter { message, param_name, param_hint, param_type, ctx: boxed },
            ClickError::NoSuchOption { option_name, possibilities, .. } =>
                ClickError::NoSuchOption { option_name, possibilities, ctx: boxed },
            ClickError::BadOptionUsage { option_name, message, .. } =>
                ClickError::BadOptionUsage { option_name, message, ctx: boxed },
            ClickError::BadArgumentUsage { message, .. } => ClickError::BadArgumentUsage { message, ctx: boxed },
            other => other,
        }
    }

    pub fn with_context(self, ctx: ErrorContext) -> (r: Self)
        ensures
            r == self.spec_with_context(ctx),
            r.spec_display() == self.spec_display(),
            r.spec_format_message() == self.spec_format_message(),
            r.spec_exit_code() == self.spec_exit_code(),
            r.spec_is_usage_error() == self.spec_is_usage_error(),
            self.spec_is_usage_error() ==> r.spec_context() == Some(ctx),
            !self.spec_is_usage_error() ==> r == self,
    {
        let boxed = Some(Box::new(ctx));
        match self {
            ClickError::UsageError { message, .. } => ClickError::UsageError { message, ctx: boxed },
            ClickError::BadParameter { message, param_name, param_hint, .. } =>
                ClickError::BadParameter { message, param_name, param_hint, ctx: boxed },
            ClickError::MissingParameter { message, param_name, param_hint, param_type, .. } =>
                ClickError::MissingParameter { message, param_name, param_hint, param_type, ctx: boxed },
            ClickError::NoSuchOption { option_name, possibilities, .. } =>
                ClickError::NoSuchOption { option_name, possibilities, ctx: boxed },
            ClickError::BadOptionUsage { option_name, message, .. } =>
                ClickError::BadOptionUsage { option_name, message, ctx: boxed },
            ClickError::BadArgumentUsage { message, .. } =>
                ClickError::BadArgumentUsage { message, ctx: boxed },
            other => other,
        }
    }

    pub fn usage<S: IntoText>(message: S) -> (r: Self)
        ensures
            r matches ClickError::UsageError { message: m, ctx: None } && m@ == message.text(),
    {
        ClickError::UsageError { message: message.into_string(), ctx: None }
    }

    pub fn bad_parameter<S: IntoText>(message: S) -> (r: Self)
        ensures
            r matches ClickError::BadParameter { message: m, param_name: None, param_hint: None, ctx: None }
                && m@ == message.text(),
    {
        ClickError::BadParameter { message: message.into_string(), param_name: None, param_hint: None, ctx: None }
    }

    pub fn bad_parameter_named<S: IntoText, T: IntoText>(message: S, param_name: T) -> (r: Self)
        ensures
            r matches ClickError::BadParameter { message: m, param_name: Some(n), param_hint: None, ctx: None }
                && m@ == message.text() && n@ == param_name.text(),
    {
        ClickError::BadParameter {
            message: message.into_string(),
            param_name: Some(param_name.into_string()),
            param_hint: None,
            ctx: None,
        }
    }

    pub fn missing_option<S: IntoText>(name: S) -> (r: Self)
        ensures
            r matches ClickError::MissingParameter {
                message: None, param_name: Some(n), param_hint: None, param_type: ParamType::Option, ctx: None
            } && n@ == name.text(),
    {
        ClickError::MissingParameter {
            message: None,
            param_name: Some(name.into_string()),
            param_hint: None,
            param_type: ParamType::Option,
            ctx: None,
        }
    }

    pub fn missing_argument<S: IntoText>(name: S) -> (r: Self)
        ensures
            r matches ClickError::MissingParameter {
                message: None, param_name: Some(n), param_hint: None, param_type: ParamType::Argument, ctx: None
            } && n@ == name.text(),
    {
        ClickError::MissingParameter {
            message: None,
            param_name: Some(name.into_string()),
            param_hint: None,
            param_type: ParamType::Argument,
            ctx: None,
        }
    }

    pub fn no_such_option<S: IntoText>(option_name: S) -> (r: Self)
        ensures
            r matches ClickError::NoSuchOption { option_name: n, possibilities: None, ctx: None }
                && n@ == option_name.text(),
    {
        ClickError::NoSuchOption { option_name: option_name.into_string(), possibilities: None, ctx: None }
    }

    pub fn no_such_option_with_suggestions<S: IntoText>(option_name: S, possibilities: Vec<String>) -> (r: Self)
        ensures
            r matches ClickError::NoSuchOption { option_name: n, possibilities: Some(p), ctx: None }
                && n@ == option_name.text() && p == possibilities,
    {
        ClickError::NoSuchOption {
            option_name: option_name.into_string(),
            possibilities: Some(possibilities),
            ctx: None,
        }
    }

    pub fn bad_option_usage<S: IntoText, T: IntoText>(option_name: S, message: T) -> (r: Self)
        ensures
            r matches ClickError::BadOptionUsage { option_name: n, message: m, ctx: None }
                && n@ == option_name.text() && m@ == message.text(),
    {
        ClickError::BadOptionUsage {
            option_name: option_name.into_string(),
            message: message.into_string(),
            ctx: None,
        }
    }

    pub fn bad_argument_usage<S: IntoText>(message: S) -> (r: Self)
        ensures
            r matches ClickError::BadArgumentUsage { message: m, ctx: None } && m@ == message.text(),
    {
        ClickError::BadArgumentUsage { message: message.into_string(), ctx: None }
    }

    pub fn file_error<S: IntoText, T: IntoText>(filename: S, hint: T) -> (r: Self)
        ensures
            r matches ClickError::FileError { filename: f, hint: h } && f@ == filename.text() && h@
                == hint.text(),
    {
        ClickError::FileError { filename: filename.into_string(), hint: hint.into_string() }
    }

    pub fn abort() -> (r: Self)
        ensures
            r is Abort,
    {
        ClickError::Abort
    }

    pub fn exit(code: i32) -> (r: Self)
        ensures
            r == (ClickError::Exit { code }),
    {
        ClickError::Exit { code }
    }
}

pub open spec fn ctx_view(c: Option<Box<ErrorContext>>) -> Option<ErrorContext> {
    match c {
        Some(b) => Some(*b),
        None => None,
    }
}

fn ctx_ref(c: &Option<Box<ErrorContext>>) -> (r: Option<&ErrorContext>)
    ensures
        match r {
            Some(x) => ctx_view(*c) == Some(*x),
            None => ctx_view(*c) is None,
        },
{
    match c {
        Some(b) => Some(&**b),
        None => None,
    }
}

} // verus!
