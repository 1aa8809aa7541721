//! Commands: a callback with options and arguments, how its command line is
//! parsed into a context, and its usage and help text.

use vstd::prelude::*;
use std::sync::Arc;
use crate::argument::{Argument, argument_metavar};
use crate::context::{Context, ContextBuilder};
use crate::error::{ClickError, ErrorContext, IntoText, opt_view};
use crate::option::{ClickOption, OptionBuilder, option_help_record, spec_split_option_names, names_view, spec_parse_option_name, spec_split_names};
use crate::parameter::{Nargs, Parameter};
use crate::text::{blen, cat2, cat3, join, join_seq, lines, push_str, str_of, str_eq, trim, trim_seq, split_lines, seq_starts_with};
use crate::parser::{
    OptionAction, OptionParser, ParserOption, ParsedValue, ParseResult, PV, NARGS_OPTIONAL, filter_names, prefixes_of,
    takes_value, pv_map, fnv_key, err_view,
};
use crate::option::{opts_seq, option_extras};
use crate::option::spec_param_name;
use crate::argument::AnyTypeConverter;
use crate::types::Value;
use crate::strmap::StrMap;
use crate::context::{envvar_form};
use crate::text::{parse_usize, parse_usize_seq, words};
use crate::types::copy_of;
use crate::source::ParameterSource;
use crate::error::ParamType;
use std::io::Write;

verus! {

/// What running a command's callback in `ctx` may give: what the callback
/// returns, or success when it has none.
pub open spec fn callback_runs(c: Command, ctx: Context, r: Result<(), ClickError>) -> bool {
    match c.callback {
        Some(cb) => cb.spec_returns(ctx, r),
        None => r is Ok,
    }
}

/// What a command runs when it is invoked.
pub trait CommandCallback {
    /// Whether `r` is what the callback may return in `ctx`.
    spec fn spec_returns(&self, ctx: Context, r: Result<(), ClickError>) -> bool;

    fn call(&self, ctx: &Context) -> (r: Result<(), ClickError>)
        ensures
            self.spec_returns(*ctx, r),
    ;
}

/// Calls a user's command closure (std's `Fn::call`): where the arguments meet the closure's own precondition, what comes back is what
/// the closure returns for this context.
#[verifier::external_body]
fn call_command<F: Fn(&Context) -> Result<(), ClickError>>(f: &F, ctx: &Context) -> (r: Result<(), ClickError>)
    ensures
        call_requires(*f, (ctx,)) ==> call_ensures(*f, (ctx,), r),
{
    f(ctx)
}

/// Writes `text` and a line end to standard error with std's `writeln!` on
/// `std::io::stderr()`; a failed write is ignored. Nothing is stated of it.
#[verifier::external_body]
fn write_stderr_line(text: &str) {
    let _ = writeln!(std::io::stderr(), "{}", text);
}

impl<F: Fn(&Context) -> Result<(), ClickError>> CommandCallback for F {
    open spec fn spec_returns(&self, ctx: Context, r: Result<(), ClickError>) -> bool {
        call_requires(*self, (&ctx,)) ==> call_ensures(*self, (&ctx,), r)
    }

    fn call(&self, ctx: &Context) -> (r: Result<(), ClickError>) {
        call_command(self, ctx)
    }
}

/// A command.
pub struct Command {
    pub name: Option<String>,
    pub callback: Option<Box<dyn CommandCallback>>,
    pub options: Vec<ClickOption>,
    pub arguments: Vec<Argument>,
    pub help: Option<String>,
    /// Text at the end of the help page.
    pub epilog: Option<String>,
    /// Help shown in a parent's list of commands.
    pub short_help: Option<String>,
    pub options_metavar: String,
    pub add_help_option: bool,
    /// Show help when no argument is given.
    pub no_args_is_help: bool,
    pub hidden: bool,
    /// Deprecated, with an optional message.
    pub deprecated: Option<String>,
    pub allow_extra_args: bool,
    pub allow_interspersed_args: bool,
    pub ignore_unknown_options: bool,
    /// A help option of one's own.
    pub help_option: Option<ClickOption>,
}

/// `(DEPRECATED)` or `(DEPRECATED: message)`.
pub open spec fn deprecated_note(dep: Seq<char>) -> Seq<char> {
    if dep.len() == 0 {
        "(DEPRECATED)"@
    } else {
        "(DEPRECATED: "@ + dep + ")"@
    }
}

fn deprecated_note_exec(dep: &str) -> (r: String)
    ensures
        r@ == deprecated_note(dep@),
{
    if dep.unicode_len() == 0 {
        String::from_str("(DEPRECATED)")
    } else {
        cat3("(DEPRECATED: ", dep, ")")
    }
}

/// The text before the first `.` of `s`.
pub open spec fn before_dot(s: Seq<char>) -> Seq<char>
    decreases s.len(),
{
    if s.len() == 0 || s[0] == '.' {
        seq![]
    } else {
        seq![s[0]] + before_dot(s.drop_first())
    }
}

fn before_dot_exec(s: &str) -> (r: String)
    ensures
        r@ == before_dot(s@),
{
    let n = s.unicode_len();
    let mut i: usize = 0;
    while i < n && s.get_char(i) != '.'
        invariant
            n == s@.len(),
            i <= n,
            forall|k: int| 0 <= k < i ==> s@[k] != '.',
        decreases n - i,
    {
        i = i + 1;
    }
    proof {
        lemma_before_dot(s@, i as int);
    }
    str_of(s.substring_char(0, i))
}

proof fn lemma_before_dot(s: Seq<char>, i: int)
    requires
        0 <= i <= s.len(),
        forall|k: int| 0 <= k < i ==> s[k] != '.',
        i == s.len() || s[i] == '.',
    ensures
        before_dot(s) == s.take(i),
    decreases s.len(),
{
    if s.len() > 0 && s[0] != '.' {
        lemma_before_dot(s.drop_first(), i - 1);
        assert(s.take(i) =~= seq![s[0]] + s.drop_first().take(i - 1));
    } else {
        assert(s.take(i) =~= Seq::<char>::empty());
    }
}

/// The first line of a text, or nothing.
pub open spec fn first_line(s: Seq<char>) -> Seq<char> {
    if lines(s).len() > 0 {
        lines(s)[0]
    } else {
        seq![]
    }
}

fn first_line_exec(s: &str) -> (r: String)
    ensures
        r@ == first_line(s@),
{
    let ls = split_lines(s);
    if ls.len() > 0 {
        assert(ls.deep_view()[0] == ls@[0]@);
        ls[0].clone()
    } else {
        String::new()
    }
}

impl Command {
    /// A builder for a command with the given name.
    pub fn new(name: &str) -> (r: CommandBuilder)
        ensures
            r.is_new_for(name@),
    {
        CommandBuilder::new(name)
    }

    /// The number of options and arguments.
    pub fn param_count(&self) -> (r: usize)
        requires
            self.options@.len() + self.arguments@.len() <= usize::MAX,
        ensures
            r == self.options@.len() + self.arguments@.len(),
    {
        self.options.len() + self.arguments.len()
    }

    /// The options, then the arguments, in the order they were added.
    pub fn get_params(&self, ctx: &Context) -> (r: Vec<&dyn Parameter>)
        ensures
            r@.len() == self.options@.len() + self.arguments@.len(),
    {
        let mut params: Vec<&dyn Parameter> = Vec::new();
        let mut i: usize = 0;
        while i < self.options.len()
            invariant
                i <= self.options@.len(),
                params@.len() == i,
            decreases self.options@.len() - i,
        {
            let p: &dyn Parameter = &self.options[i];
            let ghost before = params@;
            params.push(p);
            proof {
                lemma_push_facts(before, p);
            }
            i = i + 1;
        }
        let mut j: usize = 0;
        while j < self.arguments.len()
            invariant
                j <= self.arguments@.len(),
                params@.len() == self.options@.len() + j,
            decreases self.arguments@.len() - j,
        {
            let p: &dyn Parameter = &self.arguments[j];
            let ghost before = params@;
            params.push(p);
            proof {
                lemma_push_facts(before, p);
            }
            j = j + 1;
        }
        params
    }

    /// Run the command's callback, if it has one.
    pub fn invoke(&self, ctx: &Context) -> (r: Result<(), ClickError>)
        ensures
            callback_runs(*self, *ctx, r),
    {
        match self.deprecation_warning() {
            Some(w) => write_stderr_line(w.as_str()),
            None => {},
        }
        match &self.callback {
            Some(cb) => cb.call(ctx),
            None => Ok(()),
        }
    }

    /// The warning shown when a deprecated command is invoked.
    pub fn deprecation_warning(&self) -> (r: Option<String>)
        ensures
            match self.deprecated {
                Some(d) => r matches Some(w) && w@ == "DeprecationWarning: The command '"@ + match self.name {
                    Some(n) => n@,
                    None => Seq::<char>::empty(),
                } + "' is deprecated."@ + if d@.len() == 0 {
                    Seq::<char>::empty()
                } else {
                    seq![' '] + d@
                },
                None => r is None,
            },
    {
        match &self.deprecated {
            Some(d) => {
                let name = match &self.name {
                    Some(n) => n.clone(),
                    None => String::new(),
                };
                let mut w = cat3("DeprecationWarning: The command '", name.as_str(), "' is deprecated.");
                let ghost w0 = w@;
                if d.unicode_len() > 0 {
                    w.push(' ');
                    push_str(&mut w, d.as_str());
                } else {
                    assert(w@ =~= w0 + Seq::<char>::empty());
                }
                Some(w)
            },
            None => None,
        }
    }

    /// The usage line: `Usage: PATH [OPTIONS] ARGS...`.
    pub fn get_usage(&self, ctx: &Context) -> (r: String)
        ensures
            r@ == "Usage: "@ + join_seq(ctx.path_names(), " "@) + seq![' '] + join_seq(self.usage_pieces(), " "@),
    {
        let mut pieces: Vec<String> = Vec::new();
        if self.options_metavar.unicode_len() > 0 {
            pieces.push(self.options_metavar.clone());
        }
        let ghost p0 = pieces.deep_view();
        let mut i: usize = 0;
        while i < self.arguments.len()
            invariant
                i <= self.arguments@.len(),
                pieces.deep_view() == p0 + arg_metavars(self.arguments@.take(i as int)),
            decreases self.arguments@.len() - i,
        {
            let ghost od = pieces.deep_view();
            assert(self.arguments@.take(i + 1).drop_last() =~= self.arguments@.take(i as int));
            if !self.arguments[i].config.hidden {
                pieces.push(self.arguments[i].make_metavar());
                assert(pieces.deep_view() =~= od.push(pieces@.last()@));
            }
            i = i + 1;
        }
        assert(self.arguments@.take(self.arguments@.len() as int) =~= self.arguments@);
        proof {
            if self.options_metavar@.len() > 0 {
                assert(p0 =~= seq![self.options_metavar@]);
            } else {
                assert(p0 =~= Seq::<Seq<char>>::empty());
            }
            assert(pieces.deep_view() =~= self.usage_pieces());
        }
        let path = ctx.command_path();
        let j = join(&pieces, " ");
        let mut r = cat2("Usage: ", path.as_str());
        r.push(' ');
        push_str(&mut r, j.as_str());
        r
    }

    /// The pieces of the usage line after the command path.
    pub open spec fn usage_pieces(&self) -> Seq<Seq<char>> {
        (if self.options_metavar@.len() > 0 {
            seq![self.options_metavar@]
        } else {
            Seq::<Seq<char>>::empty()
        }) + arg_metavars(self.arguments@)
    }

    /// The short help: the one given, else the first sentence of the help, with
    /// a deprecation note.
    pub open spec fn spec_short_help(&self) -> Seq<char> {
        let note = match self.deprecated {
            Some(d) => seq![' '] + deprecated_note(d@),
            None => seq![],
        };
        match self.short_help {
            Some(s) => s@ + note,
            None => match self.help {
                Some(h) => trim_seq(before_dot(first_line(h@))) + note,
                None => match self.deprecated {
                    Some(d) => deprecated_note(d@),
                    None => seq![],
                },
            },
        }
    }

    /// The help shown in a parent's list of commands.
    pub fn get_short_help(&self) -> (r: String)
        ensures
            r@ == self.spec_short_help(),
    {
        let note = match &self.deprecated {
            Some(d) => {
                let n = deprecated_note_exec(d.as_str());
                cat2(" ", n.as_str())
            },
            None => String::new(),
        };
        proof {
            reveal_strlit(" ");
        }
        match &self.short_help {
            Some(s) => cat2(s.as_str(), note.as_str()),
            None => match &self.help {
                Some(h) => {
                    let fl = first_line_exec(h.as_str());
                    let bd = before_dot_exec(fl.as_str());
                    let t = trim(bd.as_str());
                    cat2(t.as_str(), note.as_str())
                },
                None => match &self.deprecated {
                    Some(d) => deprecated_note_exec(d.as_str()),
                    None => String::new(),
                },
            },
        }
    }
}

/// The placeholders of the arguments that are not hidden.
pub open spec fn arg_metavars(args: Seq<Argument>) -> Seq<Seq<char>>
    decreases args.len(),
{
    if args.len() == 0 {
        seq![]
    } else {
        let rest = arg_metavars(args.drop_last());
        let a = args.last();
        if a.config.hidden {
            rest
        } else {
            rest.push(argument_metavar(a.config, opt_view(a.type_metavar)))
        }
    }
}

/// Builds a command.
pub struct CommandBuilder {
    pub name: String,
    pub callback: Option<Box<dyn CommandCallback>>,
    pub options: Vec<ClickOption>,
    pub arguments: Vec<Argument>,
    pub help: Option<String>,
    pub epilog: Option<String>,
    pub short_help: Option<String>,
    pub options_metavar: String,
    pub add_help_option: bool,
    pub help_option: Option<ClickOption>,
    pub no_args_is_help: bool,
    pub hidden: bool,
    pub deprecated: Option<String>,
    pub allow_extra_args: bool,
    pub allow_interspersed_args: bool,
    pub ignore_unknown_options: bool,
}

impl CommandBuilder {
    /// A fresh builder: no parameters, `[OPTIONS]`, a help option, interspersed
    /// arguments allowed, nothing else.
    pub open spec fn is_new_for(self, name: Seq<char>) -> bool {
        &&& self.name@ == name
        &&& self.callback is None && self.options@.len() == 0 && self.arguments@.len() == 0
        &&& self.help is None && self.epilog is None && self.short_help is None
        &&& self.options_metavar@ == "[OPTIONS]"@ && self.add_help_option && self.help_option is None
        &&& !self.no_args_is_help && !self.hidden && self.deprecated is None
        &&& !self.allow_extra_args && self.allow_interspersed_args && !self.ignore_unknown_options
    }

    pub fn new(name: &str) -> (r: Self)
        ensures
            r.is_new_for(name@),
    {
        CommandBuilder {
            name: str_of(name),
            callback: None,
            options: Vec::new(),
            arguments: Vec::new(),
            help: None,
            epilog: None,
            short_help: None,
            options_metavar: String::from_str("[OPTIONS]"),
            add_help_option: true,
            help_option: None,
            no_args_is_help: false,
            hidden: false,
            deprecated: None,
            allow_extra_args: false,
            allow_interspersed_args: true,
            ignore_unknown_options: false,
        }
    }

    /// What the command runs.
    pub fn callback<F: Fn(&Context) -> Result<(), ClickError> + 'static>(self, f: F) -> (r: Self)
        ensures
            r.callback is Some,
            r.name == self.name && r.options == self.options && r.arguments == self.arguments,
    {
        let mut s = self;
        let b: Box<dyn CommandCallback> = Box::new(f);
        s.callback = Some(b);
        s
    }

    pub fn option(self, opt: ClickOption) -> (r: Self)
        ensures
            r.options@ == self.options@.push(opt),
            r == (CommandBuilder { options: r.options, ..self }),
    {
        let mut s = self;
        s.options.push(opt);
        s
    }

    pub fn argument(self, arg: Argument) -> (r: Self)
        ensures
            r.arguments@ == self.arguments@.push(arg),
            r == (CommandBuilder { arguments: r.arguments, ..self }),
    {
        let mut s = self;
        s.arguments.push(arg);
        s
    }

    pub fn help(self, help: &str) -> (r: Self)
        ensures
            opt_view(r.help) == Some(help@),
            r == (CommandBuilder { help: r.help, ..self }),
    {
        let mut s = self;
        s.help = Some(str_of(help));
        s
    }

    pub fn epilog(self, epilog: &str) -> (r: Self)
        ensures
            opt_view(r.epilog) == Some(epilog@),
            r == (CommandBuilder { epilog: r.epilog, ..self }),
    {
        let mut s = self;
        s.epilog = Some(str_of(epilog));
        s
    }

    pub fn short_help(self, short_help: &str) -> (r: Self)
        ensures
            opt_view(r.short_help) == Some(short_help@),
            r == (CommandBuilder { short_help: r.short_help, ..self }),
    {
        let mut s = self;
        s.short_help = Some(str_of(short_help));
        s
    }

    pub fn options_metavar(self, metavar: &str) -> (r: Self)
        ensures
            r.options_metavar@ == metavar@,
            r == (CommandBuilder { options_metavar: r.options_metavar, ..self }),
    {
        let mut s = self;
        s.options_metavar = str_of(metavar);
        s
    }

    pub fn add_help_option(self, add: bool) -> (r: Self)
        ensures
            r == (CommandBuilder { add_help_option: add, ..self }),
    {
        let mut s = self;
        s.add_help_option = add;
        s
    }

    /// A help option of one's own (which turns the help option on).
    pub fn help_option(self, opt: ClickOption) -> (r: Self)
        ensures
            r == (CommandBuilder { add_help_option: true, help_option: Some(opt), ..self }),
    {
        let mut s = self;
        s.add_help_option = true;
        s.help_option = Some(opt);
        s
    }

    pub fn no_args_is_help(self, value: bool) -> (r: Self)
        ensures
            r == (CommandBuilder { no_args_is_help: value, ..self }),
    {
        let mut s = self;
        s.no_args_is_help = value;
        s
    }

    pub fn hidden(self) -> (r: Self)
        ensures
            r == (CommandBuilder { hidden: true, ..self }),
    {
        let mut s = self;
        s.hidden = true;
        s
    }

    pub fn deprecated(self, message: &str) -> (r: Self)
        ensures
            opt_view(r.deprecated) == Some(message@),
            r == (CommandBuilder { deprecated: r.deprecated, ..self }),
    {
        let mut s = self;
        s.deprecated = Some(str_of(message));
        s
    }

    pub fn allow_extra_args(self, allow: bool) -> (r: Self)
        ensures
            r == (CommandBuilder { allow_extra_args: allow, ..self }),
    {
        let mut s = self;
        s.allow_extra_args = allow;
        s
    }

    pub fn allow_interspersed_args(self, allow: bool) -> (r: Self)
        ensures
            r == (CommandBuilder { allow_interspersed_args: allow, ..self }),
    {
        let mut s = self;
        s.allow_interspersed_args = allow;
        s
    }

    pub fn ignore_unknown_options(self, ignore: bool) -> (r: Self)
        ensures
            r == (CommandBuilder { ignore_unknown_options: ignore, ..self }),
    {
        let mut s = self;
        s.ignore_unknown_options = ignore;
        s
    }

    /// The command.
    pub fn build(self) -> (r: Command)
        ensures
            opt_view(r.name) == Some(self.name@),
            r.callback == self.callback && r.options == self.options && r.arguments == self.arguments,
            r.help == self.help && r.epilog == self.epilog && r.short_help == self.short_help,
            r.options_metavar == self.options_metavar && r.add_help_option == self.add_help_option,
            r.help_option == self.help_option && r.no_args_is_help == self.no_args_is_help,
            r.hidden == self.hidden && r.deprecated == self.deprecated,
            r.allow_extra_args == self.allow_extra_args && r.allow_interspersed_args == self.allow_interspersed_args,
            r.ignore_unknown_options == self.ignore_unknown_options,
    {
        Command {
            name: Some(self.name),
            callback: self.callback,
            options: self.options,
            arguments: self.arguments,
            help: self.help,
            epilog: self.epilog,
            short_help: self.short_help,
            options_metavar: self.options_metavar,
            add_help_option: self.add_help_option,
            no_args_is_help: self.no_args_is_help,
            hidden: self.hidden,
            deprecated: self.deprecated,
            allow_extra_args: self.allow_extra_args,
            allow_interspersed_args: self.allow_interspersed_args,
            ignore_unknown_options: self.ignore_unknown_options,
            help_option: self.help_option,
        }
    }
}

// =============================================================================
// Building the parser
// =============================================================================

/// What registering an option tells the parser.
pub struct OptSpec {
    pub names: Seq<Seq<char>>,
    pub dest: Seq<char>,
    pub action: OptionAction,
    pub nargs: i32,
    pub konst: Option<Seq<char>>,
    pub fnv: bool,
}

/// The parser's count of values for a parameter's `nargs`, and whether the
/// value may be omitted.
pub open spec fn parser_nargs(n: Nargs) -> (i32, bool) {
    match n {
        Nargs::Count(k) => (k as i32, false),
        Nargs::Variadic => (-1i32, false),
        Nargs::Optional => (1i32, true),
    }
}

/// How an option is registered with the parser: a count, a flag storing its
/// value (`true` by default), a repeated option appending, or a plain one.
pub open spec fn opt_spec(o: ClickOption) -> OptSpec {
    let names = o.short.deep_view() + o.long.deep_view();
    if o.count {
        OptSpec { names, dest: o.config.name@, action: OptionAction::Count, nargs: 0, konst: None, fnv: false }
    } else if o.is_flag {
        OptSpec {
            names,
            dest: o.config.name@,
            action: OptionAction::StoreConst,
            nargs: 0,
            konst: Some(
                match o.flag_value {
                    Some(f) => f@,
                    None => "true"@,
                },
            ),
            fnv: false,
        }
    } else if o.config.multiple {
        OptSpec {
            names,
            dest: o.config.name@,
            action: OptionAction::Append,
            nargs: parser_nargs(o.config.nargs).0,
            konst: None,
            fnv: parser_nargs(o.config.nargs).1,
        }
    } else {
        OptSpec {
            names,
            dest: o.config.name@,
            action: OptionAction::Store,
            nargs: parser_nargs(o.config.nargs).0,
            konst: None,
            fnv: parser_nargs(o.config.nargs).1,
        }
    }
}

pub open spec fn opt_specs(os: Seq<ClickOption>) -> Seq<OptSpec> {
    os.map_values(|o: ClickOption| opt_spec(o))
}

/// Short names to the index of the last option that has them.
pub open spec fn short_table(specs: Seq<OptSpec>) -> Map<Seq<char>, usize>
    decreases specs.len(),
{
    if specs.len() == 0 {
        Map::empty()
    } else {
        short_table(specs.drop_last()).union_prefer_right(
            Map::new(
                |k: Seq<char>| filter_names(specs.last().names, true).contains(k),
                |k: Seq<char>| (specs.len() - 1) as usize,
            ),
        )
    }
}

/// Long names to the index of the last option that has them.
pub open spec fn long_table(specs: Seq<OptSpec>) -> Map<Seq<char>, usize>
    decreases specs.len(),
{
    if specs.len() == 0 {
        Map::empty()
    } else {
        long_table(specs.drop_last()).union_prefer_right(
            Map::new(
                |k: Seq<char>| filter_names(specs.last().names, false).contains(k),
                |k: Seq<char>| (specs.len() - 1) as usize,
            ),
        )
    }
}

/// The prefixes of all the option names.
pub open spec fn prefix_table(specs: Seq<OptSpec>) -> Set<Seq<char>>
    decreases specs.len(),
{
    if specs.len() == 0 {
        set!["-"@, "--"@]
    } else {
        prefix_table(specs.drop_last()).union(prefixes_of(specs.last().names))
    }
}

/// The parser option registered for `s`.
pub open spec fn option_registered(po: ParserOption, s: OptSpec) -> bool {
    &&& po.dest@ == s.dest
    &&& po.action == s.action
    &&& po.nargs == s.nargs
    &&& opt_view(po.const_value) == s.konst
    &&& po.flag_needs_value == s.fnv
}

pub open spec fn arg_nargs(n: Nargs) -> i32 {
    match n {
        Nargs::Count(k) => k as i32,
        Nargs::Variadic => -1i32,
        Nargs::Optional => NARGS_OPTIONAL,
    }
}

/// The parser for these options and arguments, with the context's settings.
pub open spec fn parser_for(p: OptionParser, specs: Seq<OptSpec>, args: Seq<Argument>, ais: bool, iuo: bool) -> bool {
    &&& p.wf()
    &&& p.no_norm()
    &&& p.spec_interspersed() == ais
    &&& p.spec_ignore_unknown() == iuo
    &&& p.short_map() == short_table(specs)
    &&& p.long_map() == long_table(specs)
    &&& p.prefix_set() == prefix_table(specs)
    &&& p.spec_options().len() == specs.len()
    &&& forall|i: int| 0 <= i < specs.len() ==> option_registered(#[trigger] p.spec_options()[i], specs[i])
    &&& p.spec_args().len() == args.len()
    &&& forall|j: int| 0 <= j < args.len() ==> (#[trigger] p.spec_args()[j]).dest@ == args[j].config.name@
        && p.spec_args()[j].nargs == arg_nargs(args[j].config.nargs)
}

fn names_of(o: &ClickOption) -> (r: Vec<&str>)
    ensures
        r@.map_values(|x: &str| x@) == o.short.deep_view() + o.long.deep_view(),
{
    let mut v: Vec<&str> = Vec::new();
    let mut i: usize = 0;
    while i < o.short.len()
        invariant
            i <= o.short@.len(),
            v@.map_values(|x: &str| x@) =~= o.short.deep_view().take(i as int),
        decreases o.short@.len() - i,
    {
        let ghost ov = v@;
        let x = o.short[i].as_str();
        v.push(x);
        assert(v@ == ov.push(x));
        assert(v@.map_values(|x: &str| x@) =~= ov.map_values(|x: &str| x@).push(o.short@[i as int]@));
        i = i + 1;
    }
    assert(o.short.deep_view().take(o.short@.len() as int) =~= o.short.deep_view());
    let mut j: usize = 0;
    while j < o.long.len()
        invariant
            j <= o.long@.len(),
            v@.map_values(|x: &str| x@) =~= o.short.deep_view() + o.long.deep_view().take(j as int),
        decreases o.long@.len() - j,
    {
        let ghost ov = v@;
        let x = o.long[j].as_str();
        v.push(x);
        assert(v@ == ov.push(x));
        assert(v@.map_values(|x: &str| x@) =~= ov.map_values(|x: &str| x@).push(o.long@[j as int]@));
        j = j + 1;
    }
    assert(o.long.deep_view().take(o.long@.len() as int) =~= o.long.deep_view());
    v
}

fn parser_nargs_exec(n: Nargs) -> (r: (i32, bool))
    ensures
        r == parser_nargs(n),
{
    match n {
        Nargs::Count(k) => (k as i32, false),
        Nargs::Variadic => (-1, false),
        Nargs::Optional => (1, true),
    }
}

/// Register an option with the parser.
fn add_option_to_parser(parser: &mut OptionParser, opt: &ClickOption)
    requires
        old(parser).wf(),
        old(parser).no_norm(),
    ensures
        final(parser).wf(),
        final(parser).no_norm(),
        final(parser).spec_interspersed() == old(parser).spec_interspersed(),
        final(parser).spec_ignore_unknown() == old(parser).spec_ignore_unknown(),
        final(parser).spec_args() == old(parser).spec_args(),
        final(parser).spec_options().drop_last() == old(parser).spec_options(),
        final(parser).spec_options().len() == old(parser).spec_options().len() + 1,
        option_registered(final(parser).spec_options().last(), opt_spec(*opt)),
        final(parser).registered(old(parser), opt_spec(*opt).names, opt_spec(*opt).dest),
{
    let names = names_of(opt);
    let (action, nargs, const_value, fnv): (OptionAction, i32, Option<&str>, bool) = if opt.count {
        (OptionAction::Count, 0, None, false)
    } else if opt.is_flag {
        let c = match &opt.flag_value {
            Some(f) => f.as_str(),
            None => "true",
        };
        (OptionAction::StoreConst, 0, Some(c), false)
    } else if opt.config.multiple {
        let (n, f) = parser_nargs_exec(opt.config.nargs);
        (OptionAction::Append, n, None, f)
    } else {
        let (n, f) = parser_nargs_exec(opt.config.nargs);
        (OptionAction::Store, n, None, f)
    };
    parser.add_option_ex(names.as_slice(), opt.config.name.as_str(), action, nargs, const_value, fnv);
}

/// Register an argument with the parser.
fn add_argument_to_parser(parser: &mut OptionParser, arg: &Argument)
    requires
        old(parser).wf(),
    ensures
        final(parser).wf(),
        final(parser).no_norm() == old(parser).no_norm(),
        final(parser).spec_interspersed() == old(parser).spec_interspersed(),
        final(parser).spec_ignore_unknown() == old(parser).spec_ignore_unknown(),
        final(parser).spec_options() == old(parser).spec_options(),
        final(parser).short_map() == old(parser).short_map(),
        final(parser).long_map() == old(parser).long_map(),
        final(parser).prefix_set() == old(parser).prefix_set(),
        final(parser).spec_args().drop_last() == old(parser).spec_args(),
        final(parser).spec_args().len() == old(parser).spec_args().len() + 1,
        final(parser).spec_args().last().dest@ == arg.config.name@,
        final(parser).spec_args().last().nargs == arg_nargs(arg.config.nargs),
{
    let n = match arg.config.nargs {
        Nargs::Count(k) => k as i32,
        Nargs::Variadic => -1,
        Nargs::Optional => NARGS_OPTIONAL,
    };
    parser.add_argument(arg.config.name.as_str(), n);
}

/// The parser for the options (the help option last) and arguments, with the
/// context's settings.
pub fn make_parser(options: &Vec<ClickOption>, help: Option<&ClickOption>, arguments: &Vec<Argument>, ais: bool, iuo: bool) -> (r:
    OptionParser)
    ensures
        parser_for(
            r,
            opt_specs(options@) + match help {
                Some(h) => seq![opt_spec(*h)],
                None => Seq::<OptSpec>::empty(),
            },
            arguments@,
            ais,
            iuo,
        ),
{
    let mut parser = OptionParser::new().allow_interspersed_args(ais).ignore_unknown_options(iuo);
    let ghost all = opt_specs(options@) + match help {
        Some(h) => seq![opt_spec(*h)],
        None => Seq::<OptSpec>::empty(),
    };
    let ghost n = options@.len();
    assert(parser.short_map() =~= short_table(all.take(0)));
    assert(parser.long_map() =~= long_table(all.take(0)));
    assert(all.take(0) =~= Seq::<OptSpec>::empty());
    let mut i: usize = 0;
    while i < options.len()
        invariant
            i <= options@.len(),
            n == options@.len(),
            all == opt_specs(options@) + match help {
                Some(h) => seq![opt_spec(*h)],
                None => Seq::<OptSpec>::empty(),
            },
            parser.wf(),
            parser.no_norm(),
            parser.spec_interspersed() == ais,
            parser.spec_ignore_unknown() == iuo,
            parser.spec_args().len() == 0,
            parser.short_map() == short_table(all.take(i as int)),
            parser.long_map() == long_table(all.take(i as int)),
            parser.prefix_set() == prefix_table(all.take(i as int)),
            parser.spec_options().len() == i,
            forall|k: int| 0 <= k < i ==> option_registered(#[trigger] parser.spec_options()[k], all[k]),
        decreases options@.len() - i,
    {
        let ghost before = parser;
        add_option_to_parser(&mut parser, &options[i]);
        proof {
            assert(all[i as int] == opt_spec(options@[i as int]));
            assert(all.take(i + 1).drop_last() =~= all.take(i as int));
            assert(all.take(i + 1).last() == all[i as int]);
            assert forall|k: int| 0 <= k < i + 1 implies option_registered(#[trigger] parser.spec_options()[k], all[k]) by {
                if k < i {
                    assert(parser.spec_options()[k] == before.spec_options()[k]);
                }
            }
        }
        i = i + 1;
    }
    match help {
        Some(h) => {
            let ghost before = parser;
            add_option_to_parser(&mut parser, h);
            proof {
                assert(all[n as int] == opt_spec(*h));
                assert(all.take(n + 1 as int).drop_last() =~= all.take(n as int));
                assert(all.take(n + 1 as int) =~= all);
                assert forall|k: int| 0 <= k < n + 1 implies option_registered(#[trigger] parser.spec_options()[k], all[k]) by {
                    if k < n {
                        assert(parser.spec_options()[k] == before.spec_options()[k]);
                    }
                }
            }
        },
        None => {
            assert(all.take(n as int) =~= all);
        },
    }
    let mut j: usize = 0;
    while j < arguments.len()
        invariant
            j <= arguments@.len(),
            parser.wf(),
            parser.no_norm(),
            parser.spec_interspersed() == ais,
            parser.spec_ignore_unknown() == iuo,
            parser.short_map() == short_table(all),
            parser.long_map() == long_table(all),
            parser.prefix_set() == prefix_table(all),
            parser.spec_options().len() == all.len(),
            forall|k: int| 0 <= k < all.len() ==> option_registered(#[trigger] parser.spec_options()[k], all[k]),
            parser.spec_args().len() == j,
            forall|k: int| 0 <= k < j ==> (#[trigger] parser.spec_args()[k]).dest@ == arguments@[k].config.name@
                && parser.spec_args()[k].nargs == arg_nargs(arguments@[k].config.nargs),
        decreases arguments@.len() - j,
    {
        let ghost before = parser;
        add_argument_to_parser(&mut parser, &arguments[j]);
        proof {
            assert forall|k: int| 0 <= k < j + 1 implies (#[trigger] parser.spec_args()[k]).dest@ == arguments@[k].config.name@
                && parser.spec_args()[k].nargs == arg_nargs(arguments@[k].config.nargs) by {
                if k < j {
                    assert(parser.spec_args()[k] == before.spec_args()[k]);
                }
            }
        }
        j = j + 1;
    }
    parser
}

// =============================================================================
// Values of parameters
// =============================================================================

/// What is handed to a parameter's type: a value as it is, one text, several
/// texts, an environment value to count with, an environment value to split,
/// or nothing.
pub enum RawInput {
    Direct(Value),
    One(String),
    Many(Vec<String>),
    EnvCount(String),
    EnvMany(String),
    Nothing,
}

pub enum RawIn {
    Direct(Value),
    /// A value of the context's default map that is not text: a copy of it.
    FromMap(Value),
    One(Seq<char>),
    Many(Seq<Seq<char>>),
    EnvCount(Seq<char>),
    EnvMany(Seq<char>),
    Nothing,
}

impl RawInput {
    pub open spec fn view(&self) -> RawIn {
        match self {
            RawInput::Direct(v) => RawIn::Direct(*v),
            RawInput::One(s) => RawIn::One(s@),
            RawInput::Many(v) => RawIn::Many(v.deep_view()),
            RawInput::EnvCount(s) => RawIn::EnvCount(s@),
            RawInput::EnvMany(s) => RawIn::EnvMany(s@),
            RawInput::Nothing => RawIn::Nothing,
        }
    }
}

pub open spec fn opt_or(a: Option<Seq<char>>, b: Seq<char>) -> Seq<char> {
    match a {
        Some(x) => x,
        None => b,
    }
}

/// Whether an option or argument takes several values.
pub open spec fn takes_many(n: Nargs, multiple: bool) -> bool {
    let m = match n {
        Nargs::Variadic => true,
        Nargs::Count(k) => k > 1,
        Nargs::Optional => false,
    };
    m || multiple
}

/// What a value of the context's default map gives: text is read as a value
/// given for the parameter; anything else is taken as it is.
pub open spec fn map_raw(v: Value, many: bool) -> RawIn {
    match v {
        Value::Str(s) => if many {
            RawIn::Many(seq![s@])
        } else {
            RawIn::One(s@)
        },
        _ => RawIn::FromMap(v),
    }
}

/// The entry for `name` in the context's default map, if any.
pub open spec fn default_of(ctx: Context, name: Seq<char>) -> Option<Value> {
    match ctx.spec_default_map() {
        Some(m) => if m.contains_key(name) {
            Some(m[name])
        } else {
            None
        },
        None => None,
    }
}

/// What an option's value is made from: the parsed value; an option given
/// without its value takes its flag value (or default); otherwise the
/// environment, then the context's default map, then the count's zero, then
/// the option's own default.
pub open spec fn option_raw(o: ClickOption, parsed: Option<PV>, fnv: bool, env: Option<Seq<char>>, dmap: Option<Value>) -> RawIn {
    let fv = opt_view(o.flag_value);
    let dv = opt_view(o.default);
    match parsed {
        Some(PV::Count(n)) => RawIn::Direct(Value::Usize(n as usize)),
        Some(PV::Flag(b)) => RawIn::Direct(Value::Bool(b)),
        Some(PV::Single(s)) => RawIn::One(s),
        Some(PV::Multiple(v)) => RawIn::Many(
            if fnv {
                if v.len() == 0 {
                    v.push(opt_or(fv, opt_or(dv, seq![])))
                } else {
                    v.push(opt_or(fv, seq![]))
                }
            } else {
                v
            },
        ),
        Some(PV::FlagNeedsValue) => RawIn::One(opt_or(fv, opt_or(dv, seq![]))),
        _ => match env {
            Some(e) => if o.count {
                RawIn::EnvCount(e)
            } else if takes_many(o.config.nargs, o.config.multiple) {
                RawIn::EnvMany(e)
            } else {
                RawIn::One(e)
            },
            None => if dmap is Some {
                map_raw(dmap->0, takes_many(o.config.nargs, o.config.multiple))
            } else if o.count {
                RawIn::Direct(Value::Usize(0))
            } else {
                match dv {
                    Some(d) => if takes_many(o.config.nargs, o.config.multiple) {
                        RawIn::Many(seq![d])
                    } else {
                        RawIn::One(d)
                    },
                    None => RawIn::Nothing,
                }
            },
        },
    }
}

/// What an argument's value is made from: the parsed value, else the
/// environment, else the context's default map, else the argument's default.
pub open spec fn argument_raw(a: Argument, parsed: Option<PV>, env: Option<Seq<char>>, dmap: Option<Value>) -> RawIn {
    let many = takes_many(a.config.nargs, a.config.multiple);
    match parsed {
        Some(PV::Single(s)) => RawIn::One(s),
        Some(PV::Multiple(v)) => RawIn::Many(v),
        Some(PV::Count(n)) => RawIn::Direct(Value::Usize(n as usize)),
        Some(PV::Flag(b)) => RawIn::Direct(Value::Bool(b)),
        _ => match (if parsed matches Some(PV::FlagNeedsValue) { None } else { env }) {
            Some(e) => if many {
                RawIn::EnvMany(e)
            } else {
                RawIn::One(e)
            },
            None => if dmap is Some {
                map_raw(dmap->0, many)
            } else {
                match opt_view(a.default_value) {
                    Some(d) => if many {
                        RawIn::Many(seq![d])
                    } else {
                        RawIn::One(d)
                    },
                    None => RawIn::Nothing,
                }
            },
        },
    }
}

/// Some text fails to convert, with the message `m`.
pub open spec fn some_fails<C: AnyTypeConverter + ?Sized>(c: &C, ss: Seq<Seq<char>>, m: String) -> bool {
    exists|k: int| 0 <= k < ss.len() && #[trigger] c.converts_any(ss[k], Err::<Value, String>(m))
}

/// Converting several texts: a list of each converted, or the message of one
/// that fails.
pub open spec fn many_outcome<C: AnyTypeConverter + ?Sized>(c: &C, ss: Seq<Seq<char>>, out: Result<Option<Value>, String>) -> bool {
    match out {
        Ok(ov) => match ov {
            Some(v) => match v {
                Value::List(items) => items@.len() == ss.len() && forall|k: int|
                    0 <= k < ss.len() ==> #[trigger] c.converts_any(ss[k], Ok::<Value, String>(items@[k])),
                _ => false,
            },
            None => false,
        },
        Err(m) => some_fails(c, ss, m),
    }
}

/// The possible outcomes of converting a raw input with a type: a value, no
/// value, or the type's message.
pub open spec fn outcome<C: AnyTypeConverter + ?Sized>(c: &C, raw: RawIn, out: Result<Option<Value>, String>) -> bool {
    match raw {
        RawIn::Direct(v) => out == Ok::<Option<Value>, String>(Some(v)),
        RawIn::One(s) => match out {
            Ok(Some(v)) => c.converts_any(s, Ok(v)),
            Ok(None) => false,
            Err(m) => c.converts_any(s, Err(m)),
        },
        RawIn::Many(ss) => many_outcome(c, ss, out),
        RawIn::EnvCount(s) => match parse_usize_seq(s) {
            Some(n) => out == Ok::<Option<Value>, String>(Some(Value::Usize(n))),
            None => out matches Err(m) && m@ == "'"@ + s + "' is not a valid integer."@,
        },
        RawIn::EnvMany(s) => if words(s).len() == 0 {
            out == Ok::<Option<Value>, String>(None)
        } else {
            many_outcome(c, words(s), out)
        },
        RawIn::FromMap(v) => out matches Ok(Some(w)) && copy_of(w, v),
        RawIn::Nothing => out == Ok::<Option<Value>, String>(None),
    }
}

/// Convert a raw input with a type.
fn convert_raw<C: AnyTypeConverter + ?Sized>(c: &C, raw: RawInput) -> (r: Result<Option<Value>, String>)
    ensures
        outcome(c, raw@, r),
{
    match raw {
        RawInput::Direct(v) => Ok(Some(v)),
        RawInput::One(s) => match c.convert_any(s.as_str()) {
            Ok(v) => {
                let r = Ok(Some(v));
                assert(outcome(c, RawIn::One(s@), r));
                r
            },
            Err(m) => {
                let r = Err(m);
                assert(outcome(c, RawIn::One(s@), r));
                r
            },
        },
        RawInput::Many(vs) => {
            let ghost sv = vs.deep_view();
            let sl = vs.as_slice();
            match c.convert_multi(sl) {
                Ok(v) => match v {
                    Value::List(items) => {
                        proof {
                            assert forall|k: int| 0 <= k < sv.len() implies #[trigger] c.converts_any(sv[k], Ok::<Value, String>(items@[k])) by {
                                assert(sv[k] == sl@[k]@);
                                assert(c.converts_any(sl@[k]@, Ok::<Value, String>(items@[k])));
                            }

                        }
                        Ok(Some(Value::List(items)))
                    },
                    other => Ok(Some(other)),
                },
                Err(m) => {
                    let ghost mg = m;
                    let r: Result<Option<Value>, String> = Err(m);
                    proof {
                        let k = choose|k: int| 0 <= k < sl@.len() && #[trigger] c.converts_any(sl@[k]@, Err::<Value, String>(mg));
                        assert(sv[k] == sl@[k]@);
                        assert(c.converts_any(sv[k], Err::<Value, String>(mg)));
                        assert(r == Err::<Option<Value>, String>(mg));
                        assert(some_fails(c, sv, mg));
                    }
                    r
                },
            }
        },
        RawInput::EnvCount(s) => match parse_usize(s.as_str()) {
            Some(n) => Ok(Some(Value::Usize(n))),
            None => {
                let r = Err(cat3("'", s.as_str(), "' is not a valid integer."));
                assert(outcome(c, RawIn::EnvCount(s@), r));
                r
            },
        },
        RawInput::EnvMany(s) => {
            let parts = c.split_envvar_value(s.as_str());
            let ghost sv = parts.deep_view();
            if parts.len() == 0 {
                Ok(None)
            } else {
                let sl = parts.as_slice();
                match c.convert_multi(sl) {
                    Ok(v) => match v {
                        Value::List(items) => {
                            proof {
                                assert forall|k: int| 0 <= k < sv.len() implies #[trigger] c.converts_any(sv[k], Ok::<Value, String>(items@[k])) by {
                                    assert(sv[k] == sl@[k]@);
                                    assert(c.converts_any(sl@[k]@, Ok::<Value, String>(items@[k])));
                                }
                            }
                            Ok(Some(Value::List(items)))
                        },
                        other => Ok(Some(other)),
                    },
                    Err(m) => {
                        let ghost mg = m;
                        let r: Result<Option<Value>, String> = Err(m);
                        proof {
                            let k = choose|k: int| 0 <= k < sl@.len() && #[trigger] c.converts_any(sl@[k]@, Err::<Value, String>(mg));
                            assert(sv[k] == sl@[k]@);
                            assert(c.converts_any(sv[k], Err::<Value, String>(mg)));
                            assert(some_fails(c, sv, mg));
                        }
                        r
                    },
                }
            }
        },
        RawInput::Nothing => Ok(None),
    }
}

pub open spec fn opt_pv(p: Option<&ParsedValue>) -> Option<PV> {
    match p {
        Some(v) => Some(v@),
        None => None,
    }
}

fn opt_string(o: &Option<String>) -> (r: Option<String>)
    ensures
        opt_view(r) == opt_view(*o),
{
    match o {
        Some(s) => Some(s.clone()),
        None => None,
    }
}

fn clone_vec(v: &Vec<String>) -> (r: Vec<String>)
    ensures
        r.deep_view() == v.deep_view(),
{
    let mut out: Vec<String> = Vec::new();
    let mut i: usize = 0;
    while i < v.len()
        invariant
            i <= v@.len(),
            out.deep_view() =~= v.deep_view().take(i as int),
        decreases v@.len() - i,
    {
        let ghost od = out.deep_view();
        out.push(v[i].clone());
        assert(out.deep_view() =~= od.push(v@[i as int]@));
        i = i + 1;
    }
    assert(v.deep_view().take(v@.len() as int) =~= v.deep_view());
    out
}

fn takes_many_exec(n: Nargs, multiple: bool) -> (r: bool)
    ensures
        r == takes_many(n, multiple),
{
    n.is_multi() || multiple
}

/// The exec input agrees with the raw input: the same, but for a value of the
/// default map, which is a copy.
pub open spec fn raw_agrees(x: RawIn, y: RawIn) -> bool {
    match y {
        RawIn::FromMap(v) => x matches RawIn::Direct(w) && copy_of(w, v),
        _ => x == y,
    }
}

pub open spec fn opt_ref_val(v: Option<&Value>) -> Option<Value> {
    match v {
        Some(x) => Some(*x),
        None => None,
    }
}

proof fn lemma_agrees_outcome<C: AnyTypeConverter + ?Sized>(c: &C, x: RawIn, y: RawIn, out: Result<Option<Value>, String>)
    requires
        raw_agrees(x, y),
        outcome(c, x, out),
    ensures
        outcome(c, y, out),
{
}

/// The raw input a value of the default map gives.
fn map_raw_input(v: &Value, many: bool) -> (r: RawInput)
    ensures
        raw_agrees(r@, map_raw(*v, many)),
{
    match v {
        Value::Str(s) => if many {
            let mut vs: Vec<String> = Vec::new();
            vs.push(s.clone());
            assert(vs.deep_view() =~= seq![s@]);
            RawInput::Many(vs)
        } else {
            RawInput::One(s.clone())
        },
        _ => RawInput::Direct(v.duplicate()),
    }
}

/// What an option's value is made from.
pub fn option_raw_input(o: &ClickOption, parsed: Option<&ParsedValue>, fnv: bool, env: Option<String>, dmap: Option<&Value>) -> (r: RawInput)
    ensures
        raw_agrees(r@, option_raw(*o, opt_pv(parsed), fnv, opt_view(env), opt_ref_val(dmap))),
{
    let ghost fv = opt_view(o.flag_value);
    let ghost dv = opt_view(o.default);
    match parsed {
        Some(ParsedValue::Count(n)) => RawInput::Direct(Value::Usize(*n)),
        Some(ParsedValue::Flag(b)) => RawInput::Direct(Value::Bool(*b)),
        Some(ParsedValue::Single(s)) => RawInput::One(s.clone()),
        Some(ParsedValue::Multiple(v)) => {
            let mut values = clone_vec(v);
            let ghost vv = values.deep_view();
            if fnv {
                if values.len() == 0 {
                    let x = match &o.flag_value {
                        Some(f) => f.clone(),
                        None => match &o.default {
                            Some(d) => d.clone(),
                            None => String::new(),
                        },
                    };
                    let ghost xv = x@;
                    values.push(x);
                    assert(values.deep_view() =~= vv.push(xv));
                } else {
                    let x = match &o.flag_value {
                        Some(f) => f.clone(),
                        None => String::new(),
                    };
                    let ghost xv = x@;
                    values.push(x);
                    assert(values.deep_view() =~= vv.push(xv));
                }
            }
            RawInput::Many(values)
        },
        Some(ParsedValue::FlagNeedsValue) => {
            let x = match &o.flag_value {
                Some(f) => f.clone(),
                None => match &o.default {
                    Some(d) => d.clone(),
                    None => String::new(),
                },
            };
            RawInput::One(x)
        },
        _ => match env {
            Some(e) => {
                if o.count {
                    RawInput::EnvCount(e)
                } else if takes_many_exec(o.config.nargs, o.config.multiple) {
                    RawInput::EnvMany(e)
                } else {
                    RawInput::One(e)
                }
            },
            None => {
                if dmap.is_some() {
                    map_raw_input(dmap.unwrap(), takes_many_exec(o.config.nargs, o.config.multiple))
                } else if o.count {
                    RawInput::Direct(Value::Usize(0))
                } else {
                    match &o.default {
                        Some(d) => {
                            if takes_many_exec(o.config.nargs, o.config.multiple) {
                                let mut v: Vec<String> = Vec::new();
                                v.push(d.clone());
                                assert(v.deep_view() =~= seq![d@]);
                                RawInput::Many(v)
                            } else {
                                RawInput::One(d.clone())
                            }
                        },
                        None => RawInput::Nothing,
                    }
                }
            },
        },
    }
}

/// What an argument's value is made from.
pub fn argument_raw_input(a: &Argument, parsed: Option<&ParsedValue>, env: Option<String>, dmap: Option<&Value>) -> (r: RawInput)
    ensures
        raw_agrees(r@, argument_raw(*a, opt_pv(parsed), opt_view(env), opt_ref_val(dmap))),
{
    let many = takes_many_exec(a.config.nargs, a.config.multiple);
    match parsed {
        Some(ParsedValue::Single(s)) => RawInput::One(s.clone()),
        Some(ParsedValue::Multiple(v)) => RawInput::Many(clone_vec(v)),
        Some(ParsedValue::Count(n)) => RawInput::Direct(Value::Usize(*n)),
        Some(ParsedValue::Flag(b)) => RawInput::Direct(Value::Bool(*b)),
        _ => {
            let env2 = match parsed {
                Some(ParsedValue::FlagNeedsValue) => None,
                _ => env,
            };
            match env2 {
                Some(e) => {
                    if many {
                        RawInput::EnvMany(e)
                    } else {
                        RawInput::One(e)
                    }
                },
                None => if dmap.is_some() {
                    map_raw_input(dmap.unwrap(), many)
                } else {
                    match &a.default_value {
                        Some(d) => {
                            if many {
                                let mut v: Vec<String> = Vec::new();
                                v.push(d.clone());
                                assert(v.deep_view() =~= seq![d@]);
                                RawInput::Many(v)
                            } else {
                                RawInput::One(d.clone())
                            }
                        },
                        None => RawInput::Nothing,
                    }
                },
            }
        },
    }
}

/// The value of the first of the variables that is set and not empty.
pub open spec fn first_env(cands: Seq<Seq<char>>, env: Map<Seq<char>, String>) -> Option<Seq<char>>
    decreases cands.len(),
{
    if cands.len() == 0 {
        None
    } else if env.contains_key(cands[0]) && env[cands[0]]@.len() > 0 {
        Some(env[cands[0]]@)
    } else {
        first_env(cands.drop_first(), env)
    }
}

/// The environment variables a parameter reads: its own, else one made from the
/// context's prefix and its name.
pub open spec fn env_candidates(envvar: Option<Seq<Seq<char>>>, prefix: Option<Seq<char>>, name: Seq<char>) -> Seq<Seq<char>> {
    match envvar {
        Some(v) => v,
        None => match prefix {
            Some(p) => seq![p + "_"@ + envvar_form(name)],
            None => seq![],
        },
    }
}

/// The environment value for a parameter, if it has one.
pub fn resolve_envvar_value(ctx: &Context, envvar: Option<&Vec<String>>, name: &str) -> (r: Option<String>)
    requires
        ctx.wf(),
    ensures
        opt_view(r) == first_env(
            env_candidates(
                match envvar {
                    Some(v) => Some(v.deep_view()),
                    None => None,
                },
                ctx.spec_auto_envvar_prefix(),
                name@,
            ),
            ctx.spec_env(),
        ),
{
    let cands: Vec<String> = match envvar {
        Some(v) => clone_vec(v),
        None => match ctx.auto_envvar_prefix() {
            Some(p) => {
                let nf = crate::context::envvar_form_pub(name);
                let mut v: Vec<String> = Vec::new();
                v.push(cat3(p, "_", nf.as_str()));
                v
            },
            None => Vec::new(),
        },
    };
    let ghost cv = cands.deep_view();
    proof {
        let e = env_candidates(
            match envvar {
                Some(v) => Some(v.deep_view()),
                None => None,
            },
            ctx.spec_auto_envvar_prefix(),
            name@,
        );
        assert(cv =~= e);
    }
    let mut i: usize = 0;
    assert(cv.skip(0) =~= cv);
    while i < cands.len()
        invariant
            i <= cv.len(),
            cv == cands.deep_view(),
            ctx.wf(),
            cv == env_candidates(
                match envvar {
                    Some(v) => Some(v.deep_view()),
                    None => None,
                },
                ctx.spec_auto_envvar_prefix(),
                name@,
            ),
            first_env(cv, ctx.spec_env()) == first_env(cv.skip(i as int), ctx.spec_env()),
        decreases cv.len() - i,
    {
        assert(cv.skip(i as int).drop_first() =~= cv.skip(i + 1));
        assert(cv.skip(i as int)[0] == cands@[i as int]@);
        match ctx.env_var(cands[i].as_str()) {
            Some(v) => {
                if v.unicode_len() > 0 {
                    return Some(str_of(v));
                }
            },
            None => {},
        }
        i = i + 1;
    }
    assert(cv.skip(i as int) =~= Seq::<Seq<char>>::empty());
    None
}

// =============================================================================
// The help option
// =============================================================================

/// The names that options of the command already have.
pub open spec fn used_names(opts: Seq<ClickOption>) -> Set<Seq<char>> {
    Set::new(
        |n: Seq<char>|
            exists|i: int|
                0 <= i < opts.len() && (#[trigger] opts[i].long.deep_view().contains(n) || opts[i].short.deep_view().contains(
                    n,
                )),
    )
}

/// The help names that no option uses, each once, in their order.
pub open spec fn kept_help_names(ns: Seq<Seq<char>>, used: Set<Seq<char>>) -> Seq<Seq<char>>
    decreases ns.len(),
{
    if ns.len() == 0 {
        seq![]
    } else {
        let k = kept_help_names(ns.drop_last(), used);
        if used.contains(ns.last()) || k.contains(ns.last()) {
            k
        } else {
            k.push(ns.last())
        }
    }
}

/// Every name is a valid option name.
pub open spec fn names_valid(ns: Seq<Seq<char>>) -> bool {
    forall|k: int| 0 <= k < ns.len() ==> (#[trigger] spec_parse_option_name(ns[k])) is Ok
}

proof fn lemma_valid_split(ns: Seq<Seq<char>>)
    requires
        names_valid(ns),
    ensures
        spec_split_names(ns) is Ok,
    decreases ns.len(),
{
    if ns.len() > 0 {
        assert(names_valid(ns.drop_last())) by {
            assert forall|k: int| 0 <= k < ns.drop_last().len() implies (#[trigger] spec_parse_option_name(ns.drop_last()[k])) is Ok by {
                assert(ns.drop_last()[k] == ns[k]);
            }
        }
        lemma_valid_split(ns.drop_last());
        assert(spec_parse_option_name(ns[ns.len() - 1]) is Ok);
    }
}

proof fn lemma_kept_valid(ns: Seq<Seq<char>>, used: Set<Seq<char>>)
    requires
        names_valid(ns),
    ensures
        names_valid(kept_help_names(ns, used)),
    decreases ns.len(),
{
    if ns.len() > 0 {
        assert(names_valid(ns.drop_last())) by {
            assert forall|k: int| 0 <= k < ns.drop_last().len() implies (#[trigger] spec_parse_option_name(ns.drop_last()[k])) is Ok by {
                assert(ns.drop_last()[k] == ns[k]);
            }
        }
        lemma_kept_valid(ns.drop_last(), used);
        assert(spec_parse_option_name(ns[ns.len() - 1]) is Ok);
        let k = kept_help_names(ns.drop_last(), used);
        assert forall|j: int| 0 <= j < k.push(ns.last()).len() implies (#[trigger] spec_parse_option_name(k.push(ns.last())[j])) is Ok by {
            if j < k.len() {
                assert(k.push(ns.last())[j] == k[j]);
            }
        }
    }
}

/// The option made to show help: a flag storing `true`, processed first, with
/// the given names.
pub open spec fn help_option_for(o: ClickOption, ns: Seq<Seq<char>>) -> bool {
    &&& spec_split_option_names(ns) matches Ok((l, s)) && o.long.deep_view() == l && o.short.deep_view() == s
    &&& o.config.name@ == spec_param_name(o.long.deep_view(), o.short.deep_view())
    &&& o.is_flag && !o.is_bool_flag && opt_view(o.flag_value) == Some("true"@)
    &&& o.config.is_eager && o.config.expose_value && !o.config.required && !o.config.hidden
    &&& !o.config.multiple && o.config.nargs == Nargs::Count(1) && o.config.envvar is None && o.config.metavar is None
    &&& opt_view(o.config.help) == Some("Show this message and exit."@)
    &&& !o.count && o.default is None && !o.show_default && !o.show_envvar
}

/// Make the help option with these names.
pub fn make_help_option(names: &[String]) -> (r: ClickOption)
    requires
        spec_split_option_names(names@.map_values(|x: String| x@)) is Ok,
    ensures
        help_option_for(r, names@.map_values(|x: String| x@)),
{
    let ghost nv = names@.map_values(|x: String| x@);
    let mut refs: Vec<&str> = Vec::new();
    let mut i: usize = 0;
    while i < names.len()
        invariant
            i <= names@.len(),
            nv == names@.map_values(|x: String| x@),
            refs@.len() == i,
            forall|k: int| 0 <= k < i ==> (#[trigger] refs@[k])@ == nv[k],
        decreases names@.len() - i,
    {
        let n = names[i].as_str();
        refs.push(n);
        i = i + 1;
    }
    assert(names_view(refs@) =~= nv);
    let b = OptionBuilder::new(refs.as_slice()).flag("true").eager().help("Show this message and exit.");
    proof {
        reveal_strlit("true");
        reveal_strlit("Show this message and exit.");
    }
    b.build()
}

/// A command's help option: its own, or one made from the context's names.
pub enum HelpOption<'a> {
    Custom(&'a ClickOption),
    Made(ClickOption),
}

impl<'a> HelpOption<'a> {
    pub open spec fn spec_option(&self) -> ClickOption {
        match self {
            HelpOption::Custom(o) => **o,
            HelpOption::Made(o) => *o,
        }
    }

    pub fn option(&self) -> (r: &ClickOption)
        ensures
            *r == self.spec_option(),
    {
        match self {
            HelpOption::Custom(o) => *o,
            HelpOption::Made(o) => o,
        }
    }
}

/// Whether one of the options already has the name `n`.
fn name_used(options: &Vec<ClickOption>, n: &str) -> (r: bool)
    ensures
        r == used_names(options@).contains(n@),
{
    let mut i: usize = 0;
    while i < options.len()
        invariant
            i <= options@.len(),
            forall|j: int|
                0 <= j < i ==> !(#[trigger] options@[j].long.deep_view().contains(n@) || options@[j].short.deep_view().contains(
                    n@,
                )),
        decreases options@.len() - i,
    {
        if crate::text::vec_has(&options[i].long, n) || crate::text::vec_has(&options[i].short, n) {
            assert(options@[i as int].long.deep_view().contains(n@) || options@[i as int].short.deep_view().contains(n@));
            return true;
        }
        i = i + 1;
    }
    false
}

impl Command {
    /// The help names of the context that no option of the command uses.
    pub open spec fn spec_help_names(&self, ctx: Context) -> Seq<Seq<char>> {
        kept_help_names(ctx.spec_help_option_names(), used_names(self.options@))
    }

    fn get_help_option_names(&self, ctx: &Context) -> (r: Vec<String>)
        ensures
            r.deep_view() == self.spec_help_names(*ctx),
    {
        let names = ctx.help_option_names();
        let ghost ns = ctx.spec_help_option_names();
        let mut out: Vec<String> = Vec::new();
        let mut i: usize = 0;
        assert(ns.take(0) =~= Seq::<Seq<char>>::empty());
        while i < names.len()
            invariant
                i <= names@.len(),
                ns == ctx.spec_help_option_names(),
                names@.map_values(|x: String| x@) == ns,
                out.deep_view() == kept_help_names(ns.take(i as int), used_names(self.options@)),
            decreases names@.len() - i,
        {
            let n = names[i].as_str();
            let ghost t = ns.take(i + 1);
            assert(t.drop_last() =~= ns.take(i as int));
            assert(t.last() == n@);
            if !name_used(&self.options, n) && !crate::text::vec_has(&out, n) {
                let ghost od = out.deep_view();
                out.push(str_of(n));
                assert(out.deep_view() =~= od.push(n@));
            }
            i = i + 1;
        }
        assert(ns.take(names@.len() as int) =~= ns);
        out
    }

    /// The help option, if the command has one: none when it is switched off or
    /// every help name is taken by an option.
    pub fn get_help_option<'a>(&'a self, ctx: &Context) -> (r: Option<HelpOption<'a>>)
        requires
            self.add_help_option && self.help_option is None ==> names_valid(ctx.spec_help_option_names()),
        ensures
            !self.add_help_option || self.spec_help_names(*ctx).len() == 0 ==> r is None,
            self.add_help_option && self.spec_help_names(*ctx).len() > 0 ==> match self.help_option {
                Some(h) => r matches Some(HelpOption::Custom(x)) && *x == h,
                None => r matches Some(HelpOption::Made(o)) && help_option_for(o, self.spec_help_names(*ctx)),
            },
    {
        if !self.add_help_option {
            return None;
        }
        let names = self.get_help_option_names(ctx);
        if names.len() == 0 {
            return None;
        }
        match &self.help_option {
            Some(h) => Some(HelpOption::Custom(h)),
            None => {
                proof {
                    lemma_kept_valid(ctx.spec_help_option_names(), used_names(self.options@));
                    lemma_valid_split(self.spec_help_names(*ctx));
                    assert(names@.map_values(|x: String| x@) =~= names.deep_view());
                }
                Some(HelpOption::Made(make_help_option(names.as_slice())))
            },
        }
    }
}

// =============================================================================
// Processing parameters
// =============================================================================

/// An error's context: the command path, the usage line and the help option names.
pub open spec fn err_ctx_ok(c: ErrorContext, path: Seq<char>, usage: Seq<char>, names: Seq<Seq<char>>) -> bool {
    &&& opt_view(c.command_path) == Some(path)
    &&& opt_view(c.usage) == Some(usage)
    &&& c.help_option_names.deep_view() == names
    &&& c.color is None
}

/// The environment value a parameter reads when it was not given.
pub open spec fn param_env(
    parsed: Option<PV>,
    envvar: Option<Vec<String>>,
    ctx: Context,
    name: Seq<char>,
) -> Option<Seq<char>> {
    if parsed is None || parsed == Some(PV::Unset) {
        first_env(
            env_candidates(
                match envvar {
                    Some(v) => Some(v.deep_view()),
                    None => None,
                },
                ctx.spec_auto_envvar_prefix(),
                name,
            ),
            ctx.spec_env(),
        )
    } else {
        None
    }
}

/// One parameter processed: its value converted from `raw` by `tc`; a
/// conversion error names the parameter; a missing required value (unless
/// parsing resiliently) is an error; otherwise the value is stored when exposed.
pub open spec fn step_ok<C: AnyTypeConverter + ?Sized>(
    tc: &C,
    raw: RawIn,
    name: Seq<char>,
    human: Seq<char>,
    kind: ParamType,
    required: bool,
    expose: bool,
    resilient: bool,
    path: Seq<char>,
    usage: Seq<char>,
    names: Seq<Seq<char>>,
    before: Map<Seq<char>, Value>,
    after: Map<Seq<char>, Value>,
    r: Result<(), ClickError>,
) -> bool {
    match r {
        Ok(_) => exists|v: Option<Value>|
            #[trigger] outcome(tc, raw, Ok(v)) && !(v is None && required && !resilient) && after == if expose
                && v is Some {
                before.insert(name, v->0)
            } else {
                before
            },
        Err(e) => {
            ||| exists|m: String|
                #[trigger] outcome(tc, raw, Err(m)) && (e matches ClickError::BadParameter {
                    message: mm,
                    param_name: Some(h),
                    param_hint: None,
                    ctx: Some(c),
                } && mm@ == m@ && h@ == human && err_ctx_ok(*c, path, usage, names))
            ||| outcome(tc, raw, Ok(None)) && required && !resilient && (e matches ClickError::MissingParameter {
                message: None,
                param_name: Some(h),
                param_hint: None,
                param_type: k,
                ctx: Some(c),
            } && h@ == human && k == kind && err_ctx_ok(*c, path, usage, names))
        },
    }
}

pub open spec fn strmap_pv(m: StrMap<ParsedValue>) -> Map<Seq<char>, PV> {
    pv_map(m.map())
}

/// The settings of a context, unchanged.
pub open spec fn same_settings(a: Context, b: Context) -> bool {
    &&& b.wf()
    &&& b.spec_parent() == a.spec_parent()
    &&& b.spec_info_name() == a.spec_info_name()
    &&& b.spec_default_map() == a.spec_default_map()
    &&& b.spec_allow_extra_args() == a.spec_allow_extra_args()
    &&& b.spec_resilient_parsing() == a.spec_resilient_parsing()
    &&& b.spec_help_option_names() == a.spec_help_option_names()
    &&& b.spec_auto_envvar_prefix() == a.spec_auto_envvar_prefix()
    &&& b.spec_env() == a.spec_env()
    &&& b.path_names() == a.path_names()
    &&& b.spec_allow_interspersed_args() == a.spec_allow_interspersed_args()
    &&& b.spec_ignore_unknown_options() == a.spec_ignore_unknown_options()
}

/// The unchanged parts of a context: all but its parameters.
pub open spec fn same_ctx_but_params(a: Context, b: Context) -> bool {
    &&& same_settings(a, b)
    &&& b.spec_args() == a.spec_args()
    &&& b.spec_sources() == a.spec_sources()
}

impl Command {
    fn error_context(&self, ctx: &Context) -> (r: ErrorContext)
        ensures
            err_ctx_ok(
                r,
                join_seq(ctx.path_names(), " "@),
                "Usage: "@ + join_seq(ctx.path_names(), " "@) + seq![' '] + join_seq(self.usage_pieces(), " "@),
                ctx.spec_help_option_names(),
            ),
    {
        let names = ctx.help_option_names();
        let mut v: Vec<String> = Vec::new();
        let mut i: usize = 0;
        while i < names.len()
            invariant
                i <= names@.len(),
                names@.map_values(|x: String| x@) == ctx.spec_help_option_names(),
                v.deep_view() =~= ctx.spec_help_option_names().take(i as int),
            decreases names@.len() - i,
        {
            let ghost od = v.deep_view();
            v.push(names[i].clone());
            assert(v.deep_view() =~= od.push(names@[i as int]@));
            i = i + 1;
        }
        assert(ctx.spec_help_option_names().take(names@.len() as int) =~= ctx.spec_help_option_names());
        ErrorContext::new().with_command_path(ctx.command_path()).with_usage(self.get_usage(ctx)).with_help_options(v)
    }

    /// Process an option's parsed value and store it in the context.
    fn process_option_value(&self, ctx: &mut Context, opt: &ClickOption, opts: &StrMap<ParsedValue>) -> (r: Result<
        (),
        ClickError,
    >)
        requires
            old(ctx).wf(),
            opts.wf(),
        ensures
            same_ctx_but_params(*old(ctx), *final(ctx)),
            r is Err ==> final(ctx).spec_params() == old(ctx).spec_params(),
            step_ok(
                &*opt.type_converter,
                option_raw(
                    *opt,
                    strmap_pv(*opts).get(opt.config.name@),
                    strmap_pv(*opts).contains_key(fnv_key(opt.config.name@)),
                    param_env(strmap_pv(*opts).get(opt.config.name@), opt.config.envvar, *old(ctx), opt.config.name@),
                    default_of(*old(ctx), opt.config.name@),
                ),
                opt.config.name@,
                opts_seq(*opt),
                ParamType::Option,
                opt.config.required,
                opt.config.expose_value,
                old(ctx).spec_resilient_parsing(),
                join_seq(old(ctx).path_names(), " "@),
                "Usage: "@ + join_seq(old(ctx).path_names(), " "@) + seq![' '] + join_seq(self.usage_pieces(), " "@),
                old(ctx).spec_help_option_names(),
                old(ctx).spec_params(),
                final(ctx).spec_params(),
                r,
            ),
    {
        let name = opt.config.name.as_str();
        let parsed = opts.get(name);
        let fk = cat2("__click_internal_flag_needs_value_", name);
        let had_fnv = opts.contains_key(fk.as_str());
        let ghost pm = strmap_pv(*opts);
        proof {
            assert(pm.get(name@) == opt_pv(parsed));
        }
        let unset = match parsed {
            None => true,
            Some(ParsedValue::Unset) => true,
            _ => false,
        };
        let env = if unset {
            let ev = match &opt.config.envvar {
                Some(v) => Some(v),
                None => None,
            };
            resolve_envvar_value(ctx, ev, name)
        } else {
            None
        };
        let dmap = ctx.lookup_default(name);
        let ghost dv = opt_ref_val(dmap);
        assert(dv == default_of(*old(ctx), opt.config.name@));
        let raw = option_raw_input(opt, parsed, had_fnv, env, dmap);
        let ghost rawv = option_raw(
            *opt,
            pm.get(opt.config.name@),
            pm.contains_key(fnv_key(opt.config.name@)),
            param_env(pm.get(opt.config.name@), opt.config.envvar, *old(ctx), opt.config.name@),
            default_of(*old(ctx), opt.config.name@),
        );
        let ghost rawx = raw@;
        proof {
            assert(fk@ == fnv_key(name@));
            assert(had_fnv == pm.contains_key(fnv_key(opt.config.name@)));
            assert(opt_view(env) == param_env(pm.get(opt.config.name@), opt.config.envvar, *old(ctx), opt.config.name@));
            assert(raw_agrees(rawx, rawv));
        }
        let conv = convert_raw(&*opt.type_converter, raw);
        proof {
            lemma_agrees_outcome(&*opt.type_converter, rawx, rawv, conv);
        }
        let value = match conv {
            Ok(v) => v,
            Err(m) => {
                let ec = self.error_context(ctx);
                let h = opt.opts_string();
                let ghost mg = m;
                let e = ClickError::bad_parameter_named(m, h).with_context(ec);
                assert(outcome(&*opt.type_converter, rawv, Err::<Option<Value>, String>(mg)));
                return Err(e);
            },
        };
        if value.is_none() && opt.config.required && !ctx.resilient_parsing() {
            let ec = self.error_context(ctx);
            let h = opt.opts_string();
            return Err(ClickError::missing_option(h).with_context(ec));
        }
        if opt.config.expose_value {
            match value {
                Some(v) => {
                    ctx.params_mut().insert(str_of(name), v);
                },
                None => {},
            }
        }
        Ok(())
    }

    /// Process an argument's parsed value and store it in the context.
    fn process_argument_value(&self, ctx: &mut Context, arg: &Argument, opts: &StrMap<ParsedValue>) -> (r: Result<
        (),
        ClickError,
    >)
        requires
            old(ctx).wf(),
            opts.wf(),
        ensures
            same_ctx_but_params(*old(ctx), *final(ctx)),
            r is Err ==> final(ctx).spec_params() == old(ctx).spec_params(),
            step_ok(
                &*arg.type_converter,
                argument_raw(
                    *arg,
                    strmap_pv(*opts).get(arg.config.name@),
                    param_env(strmap_pv(*opts).get(arg.config.name@), arg.config.envvar, *old(ctx), arg.config.name@),
                    default_of(*old(ctx), arg.config.name@),
                ),
                arg.config.name@,
                arg.spec_human_name(),
                ParamType::Argument,
                arg.config.required,
                arg.config.expose_value,
                old(ctx).spec_resilient_parsing(),
                join_seq(old(ctx).path_names(), " "@),
                "Usage: "@ + join_seq(old(ctx).path_names(), " "@) + seq![' '] + join_seq(self.usage_pieces(), " "@),
                old(ctx).spec_help_option_names(),
                old(ctx).spec_params(),
                final(ctx).spec_params(),
                r,
            ),
    {
        let name = arg.config.name.as_str();
        let parsed = opts.get(name);
        let ghost pm = strmap_pv(*opts);
        proof {
            assert(pm.get(name@) == opt_pv(parsed));
        }
        let unset = match parsed {
            None => true,
            Some(ParsedValue::Unset) => true,
            _ => false,
        };
        let env = if unset {
            let ev = match &arg.config.envvar {
                Some(v) => Some(v),
                None => None,
            };
            resolve_envvar_value(ctx, ev, name)
        } else {
            None
        };
        let dmap = ctx.lookup_default(name);
        let ghost dv = opt_ref_val(dmap);
        assert(dv == default_of(*old(ctx), arg.config.name@));
        let raw = argument_raw_input(arg, parsed, env, dmap);
        let ghost rawx = raw@;
        let ghost rawv = argument_raw(
            *arg,
            pm.get(arg.config.name@),
            param_env(pm.get(arg.config.name@), arg.config.envvar, *old(ctx), arg.config.name@),
            default_of(*old(ctx), arg.config.name@),
        );
        proof {
            assert(opt_view(env) == param_env(pm.get(arg.config.name@), arg.config.envvar, *old(ctx), arg.config.name@));
            assert(raw_agrees(rawx, rawv));
        }
        let conv = convert_raw(&*arg.type_converter, raw);
        proof {
            lemma_agrees_outcome(&*arg.type_converter, rawx, rawv, conv);
        }
        let value = match conv {
            Ok(v) => v,
            Err(m) => {
                let ec = self.error_context(ctx);
                let h = arg.human_readable_name();
                let ghost mg = m;
                let e = ClickError::bad_parameter_named(m, h).with_context(ec);
                assert(outcome(&*arg.type_converter, rawv, Err::<Option<Value>, String>(mg)));
                return Err(e);
            },
        };
        if value.is_none() && arg.config.required && !ctx.resilient_parsing() {
            let ec = self.error_context(ctx);
            let h = arg.human_readable_name();
            return Err(ClickError::missing_argument(h).with_context(ec));
        }
        if arg.config.expose_value {
            match value {
                Some(v) => {
                    ctx.params_mut().insert(str_of(name), v);
                },
                None => {},
            }
        }
        Ok(())
    }
}


// =============================================================================
// Parsing a command line into a context
// =============================================================================

/// The metavar prefix that marks a version option.
pub open spec fn version_prefix() -> Seq<char> {
    seq!['_', '_', 'c', 'l', 'i', 'c', 'k', '_', 'v', 'e', 'r', 's', 'i', 'o', 'n', '_', '_', ':']
}

/// An eager option given a non-empty value.
pub open spec fn eager_fires(o: ClickOption, pm: Map<Seq<char>, PV>) -> bool {
    o.config.is_eager && (pm.get(o.config.name@) matches Some(PV::Single(v)) && v.len() > 0)
}

/// An option that prints the version: its metavar starts with the version prefix.
pub open spec fn is_version_opt(o: ClickOption) -> bool {
    o.config.metavar matches Some(m) && seq_starts_with(m@, version_prefix())
}

/// An eager option that fires stores its value as text.
pub open spec fn eager_step(o: ClickOption, pm: Map<Seq<char>, PV>, before: Map<Seq<char>, Value>, after: Map<
    Seq<char>,
    Value,
>) -> bool {
    if eager_fires(o, pm) {
        &&& after == before.insert(o.config.name@, after[o.config.name@])
        &&& after[o.config.name@] matches Value::Str(x) && pm.get(o.config.name@) == Some(PV::Single(x@))
    } else {
        after == before
    }
}

/// The eager options in order, the parameters after each in `ms`; a version
/// option that fires stops them (`exit`).
pub open spec fn eager_run(os: Seq<ClickOption>, pm: Map<Seq<char>, PV>, ms: Seq<Map<Seq<char>, Value>>, exit: bool) -> bool {
    &&& 1 <= ms.len() <= os.len() + 1
    &&& forall|i: int| 0 <= i < ms.len() - 1 ==> eager_step(#[trigger] os[i], pm, ms[i], ms[i + 1])
    &&& forall|i: int|
        0 <= i < ms.len() - 1 && !(exit && i == ms.len() - 2) ==> !(eager_fires(#[trigger] os[i], pm) && is_version_opt(
            os[i],
        ))
    &&& exit ==> ms.len() >= 2 && eager_fires(os[ms.len() - 2], pm) && is_version_opt(os[ms.len() - 2])
    &&& !exit ==> ms.len() == os.len() + 1
}

/// The usage line of a command in a context.
pub open spec fn usage_of(c: Command, ctx: Context) -> Seq<char> {
    "Usage: "@ + join_seq(ctx.path_names(), " "@) + seq![' '] + join_seq(c.usage_pieces(), " "@)
}

/// One option processed, as `process_option_value` does it.
pub open spec fn opt_step(
    c: Command,
    o: ClickOption,
    pm: Map<Seq<char>, PV>,
    ctx: Context,
    before: Map<Seq<char>, Value>,
    after: Map<Seq<char>, Value>,
    r: Result<(), ClickError>,
) -> bool {
    step_ok(
        &*o.type_converter,
        option_raw(
            o,
            pm.get(o.config.name@),
            pm.contains_key(fnv_key(o.config.name@)),
            param_env(pm.get(o.config.name@), o.config.envvar, ctx, o.config.name@),
            default_of(ctx, o.config.name@),
        ),
        o.config.name@,
        opts_seq(o),
        ParamType::Option,
        o.config.required,
        o.config.expose_value,
        ctx.spec_resilient_parsing(),
        join_seq(ctx.path_names(), " "@),
        usage_of(c, ctx),
        ctx.spec_help_option_names(),
        before,
        after,
        r,
    )
}

/// One argument processed, as `process_argument_value` does it.
pub open spec fn arg_step(
    c: Command,
    a: Argument,
    pm: Map<Seq<char>, PV>,
    ctx: Context,
    before: Map<Seq<char>, Value>,
    after: Map<Seq<char>, Value>,
    r: Result<(), ClickError>,
) -> bool {
    step_ok(
        &*a.type_converter,
        argument_raw(
            a,
            pm.get(a.config.name@),
            param_env(pm.get(a.config.name@), a.config.envvar, ctx, a.config.name@),
            default_of(ctx, a.config.name@),
        ),
        a.config.name@,
        a.spec_human_name(),
        ParamType::Argument,
        a.config.required,
        a.config.expose_value,
        ctx.spec_resilient_parsing(),
        join_seq(ctx.path_names(), " "@),
        usage_of(c, ctx),
        ctx.spec_help_option_names(),
        before,
        after,
        r,
    )
}

/// How many parameters are processed: the options, the help option, the arguments.
pub open spec fn n_steps(c: Command, h: Option<ClickOption>) -> int {
    c.options@.len() + (if h is Some { 1int } else { 0int }) + c.arguments@.len()
}

/// The `k`-th parameter processed.
pub open spec fn nth_step(
    c: Command,
    h: Option<ClickOption>,
    k: int,
    pm: Map<Seq<char>, PV>,
    ctx: Context,
    before: Map<Seq<char>, Value>,
    after: Map<Seq<char>, Value>,
    r: Result<(), ClickError>,
) -> bool {
    let no = c.options@.len() as int;
    let nh = if h is Some { 1int } else { 0int };
    if k < no {
        opt_step(c, c.options@[k], pm, ctx, before, after, r)
    } else if k < no + nh {
        opt_step(c, h->0, pm, ctx, before, after, r)
    } else {
        arg_step(c, c.arguments@[k - no - nh], pm, ctx, before, after, r)
    }
}

/// The parameters processed in order, the values after each in `ms`, stopping
/// at the first error.
pub open spec fn process_run(
    c: Command,
    h: Option<ClickOption>,
    pm: Map<Seq<char>, PV>,
    ctx: Context,
    ms: Seq<Map<Seq<char>, Value>>,
    r: Result<(), ClickError>,
) -> bool {
    &&& 1 <= ms.len() <= n_steps(c, h) + 1
    &&& forall|k: int| 0 <= k < ms.len() - 1 ==> nth_step(c, h, k, pm, ctx, #[trigger] ms[k], ms[k + 1], Ok(()))
    &&& r is Ok ==> ms.len() == n_steps(c, h) + 1
    &&& r is Err ==> ms.len() <= n_steps(c, h) && nth_step(c, h, ms.len() - 1, pm, ctx, ms.last(), ms.last(), r)
}

/// The message for arguments no parameter took.
pub open spec fn extra_args_message(extra: Seq<Seq<char>>) -> Seq<char> {
    (if extra.len() == 1 {
        "Got unexpected extra argument ("@
    } else {
        "Got unexpected extra arguments ("@
    }) + join_seq(extra, " "@) + ")"@
}

/// The help option that was asked for: a flag that stored `true`.
pub open spec fn help_fires(h: Option<ClickOption>, pm: Map<Seq<char>, PV>) -> bool {
    h matches Some(o) && pm.get(o.config.name@) == Some(PV::Single("true"@))
}

/// What parsing gives after the parser ran: its error; the help option asked
/// for; a version option; or each parameter processed, then the arguments left
/// over refused (unless allowed) or kept.
pub open spec fn after_parse(
    c: Command,
    h: Option<ClickOption>,
    ctx0: Context,
    res: Result<crate::parser::PState, crate::parser::PErr>,
    ctx1: Context,
    r: Result<(), ClickError>,
) -> bool {
    match res {
        Err(e) => r matches Err(x) && err_view(x) == e && ctx1.spec_params() == ctx0.spec_params() && ctx1.spec_args()
            == ctx0.spec_args(),
        Ok(st) => {
            let pm = st.opts;
            if help_fires(h, pm) {
                &&& r == Err::<(), ClickError>(ClickError::Exit { code: 0 })
                &&& ctx1.spec_params() == ctx0.spec_params().insert(h->0.config.name@, Value::Bool(true))
                &&& ctx1.spec_args() == ctx0.spec_args()
            } else {
                exists|ems: Seq<Map<Seq<char>, Value>>, exit: bool|
                    #[trigger] eager_run(c.options@, pm, ems, exit) && ems[0] == ctx0.spec_params() && if exit {
                        &&& r == Err::<(), ClickError>(ClickError::Exit { code: 0 })
                        &&& ctx1.spec_params() == ems.last()
                        &&& ctx1.spec_args() == ctx0.spec_args()
                    } else {
                        exists|ms: Seq<Map<Seq<char>, Value>>, rp: Result<(), ClickError>|
                            #[trigger] process_run(c, h, pm, ctx0, ms, rp) && ms[0] == ems.last() && after_process(
                                ctx0,
                                st.largs,
                                ms.last(),
                                rp,
                                ctx1,
                                r,
                            ) && (r is Ok ==> ctx1.spec_sources() == recorded_sources(c, h, pm, ctx0))
                    }
            }
        },
    }
}

/// After every parameter was processed: its error, or the arguments left over
/// refused (unless allowed) or kept.
pub open spec fn after_process(
    ctx0: Context,
    largs: Seq<Seq<char>>,
    params: Map<Seq<char>, Value>,
    rp: Result<(), ClickError>,
    ctx1: Context,
    r: Result<(), ClickError>,
) -> bool {
    &&& ctx1.spec_params() == params
    &&& match rp {
        Err(e) => r == Err::<(), ClickError>(e) && ctx1.spec_args() == ctx0.spec_args(),
        Ok(_) => if largs.len() > 0 && !ctx0.spec_allow_extra_args() && !ctx0.spec_resilient_parsing() {
            &&& r matches Err(ClickError::UsageError { message: m, ctx: None })
            &&& m@ == extra_args_message(largs)
            &&& ctx1.spec_args() == ctx0.spec_args()
        } else {
            r is Ok && ctx1.spec_args() == ctx0.spec_args() + largs
        },
    }
}

/// The parser for the command ran on `args` and gave `st`, without asking for help.
pub open spec fn parsed_state(
    c: Command,
    ctx0: Context,
    args: Seq<Seq<char>>,
    h: Option<ClickOption>,
    p: OptionParser,
    st: crate::parser::PState,
) -> bool {
    &&& help_of(c, ctx0, h)
    &&& parser_for(p, all_specs(c, h), c.arguments@, ctx0.spec_allow_interspersed_args(), ctx0.spec_ignore_unknown_options())
    &&& p.spec_parse(args) == Ok::<crate::parser::PState, crate::parser::PErr>(st)
    &&& !help_fires(h, st.opts)
    &&& !(args.len() == 0 && c.no_args_is_help && !ctx0.spec_resilient_parsing())
}

/// The help option a command has in a context.
pub open spec fn help_of(c: Command, ctx: Context, h: Option<ClickOption>) -> bool {
    if !c.add_help_option || c.spec_help_names(ctx).len() == 0 {
        h is None
    } else {
        match c.help_option {
            Some(o) => h == Some(o),
            None => h matches Some(o) && help_option_for(o, c.spec_help_names(ctx)),
        }
    }
}

/// The option specs given to the parser: the options, then the help option.
pub open spec fn all_specs(c: Command, h: Option<ClickOption>) -> Seq<OptSpec> {
    opt_specs(c.options@) + match h {
        Some(o) => seq![opt_spec(o)],
        None => Seq::<OptSpec>::empty(),
    }
}

/// Where a parameter's value comes from: the command line when it was given
/// there; else the environment when a variable for it is set; else the
/// context's default map when it has the name; else the parameter's default.
pub open spec fn src_for(
    parsed: Option<PV>,
    envvar: Option<Vec<String>>,
    name: Seq<char>,
    prefix: Option<Seq<char>>,
    env: Map<Seq<char>, String>,
    dm: Option<Map<Seq<char>, Value>>,
) -> ParameterSource {
    if parsed is Some && parsed != Some(PV::Unset) {
        ParameterSource::CommandLine
    } else if first_env(
        env_candidates(
            match envvar {
                Some(v) => Some(v.deep_view()),
                None => None,
            },
            prefix,
            name,
        ),
        env,
    ) is Some {
        ParameterSource::Environment
    } else if dm matches Some(m) && m.contains_key(name) {
        ParameterSource::DefaultMap
    } else {
        ParameterSource::Default
    }
}

/// The sources of the options, recorded in order over `base`.
pub open spec fn opt_sources(
    os: Seq<ClickOption>,
    pm: Map<Seq<char>, PV>,
    prefix: Option<Seq<char>>,
    env: Map<Seq<char>, String>,
    dm: Option<Map<Seq<char>, Value>>,
    base: Map<Seq<char>, ParameterSource>,
) -> Map<Seq<char>, ParameterSource>
    decreases os.len(),
{
    if os.len() == 0 {
        base
    } else {
        let o = os.last();
        opt_sources(os.drop_last(), pm, prefix, env, dm, base).insert(
            o.config.name@,
            src_for(pm.get(o.config.name@), o.config.envvar, o.config.name@, prefix, env, dm),
        )
    }
}

/// The sources of the arguments, recorded in order over `base`.
pub open spec fn arg_sources(
    args: Seq<Argument>,
    pm: Map<Seq<char>, PV>,
    prefix: Option<Seq<char>>,
    env: Map<Seq<char>, String>,
    dm: Option<Map<Seq<char>, Value>>,
    base: Map<Seq<char>, ParameterSource>,
) -> Map<Seq<char>, ParameterSource>
    decreases args.len(),
{
    if args.len() == 0 {
        base
    } else {
        let a = args.last();
        arg_sources(args.drop_last(), pm, prefix, env, dm, base).insert(
            a.config.name@,
            src_for(pm.get(a.config.name@), a.config.envvar, a.config.name@, prefix, env, dm),
        )
    }
}

/// The options of a command, then its help option.
pub open spec fn opts_with_help(c: Command, h: Option<ClickOption>) -> Seq<ClickOption> {
    c.options@ + match h {
        Some(o) => seq![o],
        None => Seq::<ClickOption>::empty(),
    }
}

/// The sources after a successful parse: each option (the help option
/// included), then each argument, gets the source of its value.
pub open spec fn recorded_sources(c: Command, h: Option<ClickOption>, pm: Map<Seq<char>, PV>, ctx: Context) -> Map<
    Seq<char>,
    ParameterSource,
> {
    arg_sources(
        c.arguments@,
        pm,
        ctx.spec_auto_envvar_prefix(),
        ctx.spec_env(),
        ctx.spec_default_map(),
        opt_sources(
            opts_with_help(c, h),
            pm,
            ctx.spec_auto_envvar_prefix(),
            ctx.spec_env(),
            ctx.spec_default_map(),
            ctx.spec_sources(),
        ),
    )
}

/// What parsing a command line gives: help when nothing is given and the
/// command asks for it; otherwise the parser for the command's parameters runs
/// and `after_parse` says the rest.
pub open spec fn parse_args_ok(c: Command, ctx0: Context, args: Seq<Seq<char>>, ctx1: Context, r: Result<(), ClickError>) -> bool {
    &&& same_settings(ctx0, ctx1)
    &&& (r is Err ==> ctx1.spec_sources() == ctx0.spec_sources())
    &&& if args.len() == 0 && c.no_args_is_help && !ctx0.spec_resilient_parsing() {
        r == Err::<(), ClickError>(ClickError::Exit { code: 0 }) && ctx1.spec_params() == ctx0.spec_params()
            && ctx1.spec_args() == ctx0.spec_args()
    } else {
        exists|h: Option<ClickOption>, p: OptionParser|
            #[trigger] help_of(c, ctx0, h) && #[trigger] parser_for(
                p,
                all_specs(c, h),
                c.arguments@,
                ctx0.spec_allow_interspersed_args(),
                ctx0.spec_ignore_unknown_options(),
            ) && after_parse(c, h, ctx0, p.spec_parse(args), ctx1, r)
    }
}

proof fn lemma_parse_done(
    c: Command,
    ctx0: Context,
    av: Seq<Seq<char>>,
    h: Option<ClickOption>,
    p: OptionParser,
    st: crate::parser::PState,
    ems: Seq<Map<Seq<char>, Value>>,
    exit: bool,
    ms: Seq<Map<Seq<char>, Value>>,
    rp: Result<(), ClickError>,
    ctx1: Context,
    r: Result<(), ClickError>,
)
    requires
        parsed_state(c, ctx0, av, h, p, st),
        eager_run(c.options@, st.opts, ems, exit),
        ems[0] == ctx0.spec_params(),
        same_settings(ctx0, ctx1),
        exit ==> r == Err::<(), ClickError>(ClickError::Exit { code: 0 }) && ctx1.spec_params() == ems.last()
            && ctx1.spec_args() == ctx0.spec_args(),
        !exit ==> process_run(c, h, st.opts, ctx0, ms, rp) && ms[0] == ems.last() && after_process(
            ctx0,
            st.largs,
            ms.last(),
            rp,
            ctx1,
            r,
        ),
        !exit && r is Ok ==> ctx1.spec_sources() == recorded_sources(c, h, st.opts, ctx0),
        r is Err ==> ctx1.spec_sources() == ctx0.spec_sources(),
    ensures
        parse_args_ok(c, ctx0, av, ctx1, r),
{
    assert(after_parse(c, h, ctx0, p.spec_parse(av), ctx1, r));
    assert(help_of(c, ctx0, h));
    assert(parser_for(p, all_specs(c, h), c.arguments@, ctx0.spec_allow_interspersed_args(), ctx0.spec_ignore_unknown_options()));
}

pub open spec fn ms_none() -> Seq<Map<Seq<char>, Value>> {
    Seq::empty()
}

/// Whether an option prints the version.
fn is_version_option(o: &ClickOption) -> (r: bool)
    ensures
        r == is_version_opt(*o),
{
    match &o.config.metavar {
        Some(m) => {
            let pre = "__click_version__:";
            proof {
                reveal_strlit("__click_version__:");
                assert(pre@ =~= version_prefix());
            }
            crate::text::starts_with(m.as_str(), pre)
        },
        None => false,
    }
}

impl Command {
    /// Parse a command line into the context: the parser for the command's
    /// parameters runs, the eager options are handled, then each parameter's
    /// value is converted and stored, and the arguments left over are kept.
    #[verifier::rlimit(100)]
    #[verifier::spinoff_prover]
    pub fn parse_args(&self, ctx: &mut Context, args: Vec<String>) -> (r: Result<(), ClickError>)
        requires
            old(ctx).wf(),
            self.add_help_option && self.help_option is None ==> names_valid(old(ctx).spec_help_option_names()),
        ensures
            final(ctx).wf(),
            parse_args_ok(*self, *old(ctx), args.deep_view(), *final(ctx), r),
    {
        let ghost ctx0 = *ctx;
        let ghost av = args.deep_view();
        if args.len() == 0 && self.no_args_is_help && !ctx.resilient_parsing() {
            return Err(ClickError::Exit { code: 0 });
        }
        let help = self.get_help_option(ctx);
        let help_ref: Option<&ClickOption> = match &help {
            Some(h) => Some(h.option()),
            None => None,
        };
        let ghost hs: Option<ClickOption> = match help_ref {
            Some(h) => Some(*h),
            None => None,
        };
        assert(help_of(*self, ctx0, hs));
        let parser = make_parser(&self.options, help_ref, &self.arguments, ctx.allow_interspersed_args(), ctx.ignore_unknown_options());
        assert(parser_for(parser, all_specs(*self, hs), self.arguments@, ctx0.spec_allow_interspersed_args(), ctx0.spec_ignore_unknown_options()));
        let ghost pres = parser.spec_parse(av);
        let (opts, remaining, _order) = match parser.parse_args(args) {
            Ok(x) => x,
            Err(e) => {
                return Err(e);
            },
        };
        let ghost st = pres->Ok_0;
        let ghost pm = st.opts;
        assert(pm == pv_map(opts.map()));
        match help_ref {
            Some(h) => {
                let hn = h.config.name.as_str();
                let parsed = opts.get(hn);
                assert(pm.get(hn@) == opt_pv(parsed));
                match parsed {
                    Some(ParsedValue::Single(val)) => {
                        proof {
                            reveal_strlit("true");
                        }
                        if str_eq(val.as_str(), "true") {
                            ctx.params_mut().insert(str_of(hn), Value::Bool(true));
                            return Err(ClickError::Exit { code: 0 });
                        }
                    },
                    _ => {},
                }
            },
            None => {},
        }
        assert(!help_fires(hs, pm));
        assert(remaining.deep_view() == st.largs);
        assert(parsed_state(*self, ctx0, av, hs, parser, st));
        // Eager options.
        let ghost mut ems: Seq<Map<Seq<char>, Value>> = seq![ctx.spec_params()];
        let mut i: usize = 0;
        while i < self.options.len()
            invariant
                i <= self.options@.len(),
                ctx.wf(),
                opts.wf(),
                pm == pv_map(opts.map()),
                same_ctx_but_params(ctx0, *ctx),
                ctx.spec_args() == ctx0.spec_args(),
                parsed_state(*self, ctx0, av, hs, parser, st),
                ctx0 == *old(ctx),
                av == args.deep_view(),
                pm == st.opts,
                remaining.deep_view() == st.largs,
                ems.len() == i + 1,
                ems[0] == ctx0.spec_params(),
                ems.last() == ctx.spec_params(),
                forall|j: int| 0 <= j < i ==> eager_step(#[trigger] self.options@[j], pm, ems[j], ems[j + 1]),
                forall|j: int| 0 <= j < i ==> !(eager_fires(#[trigger] self.options@[j], pm) && is_version_opt(self.options@[j])),
            decreases self.options@.len() - i,
        {
            let o = &self.options[i];
            let ghost before = ctx.spec_params();
            if o.config.is_eager {
                let on = o.config.name.as_str();
                let parsed = opts.get(on);
                assert(pm.get(on@) == opt_pv(parsed));
                match parsed {
                    Some(ParsedValue::Single(val)) => {
                        if val.unicode_len() > 0 {
                            let vc = val.clone();
                            ctx.params_mut().insert(str_of(on), Value::Str(vc));
                            assert(ctx.spec_params() == before.insert(on@, ctx.spec_params()[on@]));
                            if is_version_option(o) {
                                let r = Err(ClickError::Exit { code: 0 });
                                proof {
                                    let ems2 = ems.push(ctx.spec_params());
                                    assert forall|j: int| 0 <= j < ems2.len() - 1 implies eager_step(#[trigger] self.options@[j], pm, ems2[j], ems2[j + 1]) by {
                                        if j < i {
                                            assert(ems2[j] == ems[j] && ems2[j + 1] == ems[j + 1]);
                                        }
                                    }
                                    assert(eager_run(self.options@, pm, ems2, true));
                                    lemma_parse_done(*self, ctx0, av, hs, parser, st, ems2, true, ms_none(), Ok(()), *ctx, r);
                                }
                                return r;
                            }
                        }
                    },
                    _ => {},
                }
            }
            proof {
                let ems_old = ems;
                ems = ems.push(ctx.spec_params());
                assert forall|j: int| 0 <= j < i + 1 implies eager_step(#[trigger] self.options@[j], pm, ems[j], ems[j + 1]) by {
                    if j < i {
                        assert(ems[j] == ems_old[j] && ems[j + 1] == ems_old[j + 1]);
                    }
                }
            }
            i = i + 1;
        }
        assert(eager_run(self.options@, pm, ems, false));
        // Each parameter in turn.
        let ghost m0 = ctx.spec_params();
        let ghost mut ms: Seq<Map<Seq<char>, Value>> = seq![ctx.spec_params()];
        let mut k: usize = 0;
        while k < self.options.len()
            invariant
                k <= self.options@.len(),
                ctx.wf(),
                opts.wf(),
                pm == pv_map(opts.map()),
                same_ctx_but_params(ctx0, *ctx),
                ctx.spec_args() == ctx0.spec_args(),
                parsed_state(*self, ctx0, av, hs, parser, st),
                ctx0 == *old(ctx),
                av == args.deep_view(),
                pm == st.opts,
                remaining.deep_view() == st.largs,
                eager_run(self.options@, pm, ems, false),
                ems[0] == ctx0.spec_params(),
                m0 == ems.last(),
                ms.len() == k + 1,
                ms[0] == m0,
                ms.last() == ctx.spec_params(),
                forall|j: int| 0 <= j < k ==> nth_step(*self, hs, j, pm, ctx0, #[trigger] ms[j], ms[j + 1], Ok(())),
            decreases self.options@.len() - k,
        {
            let ghost before = ctx.spec_params();
            let res = self.process_option_value(ctx, &self.options[k], &opts);
            match res {
                Ok(()) => {},
                Err(e) => {
                    proof {
                        assert(nth_step(*self, hs, k as int, pm, ctx0, ms.last(), ms.last(), Err::<(), ClickError>(e)));
                        assert(process_run(*self, hs, pm, ctx0, ms, Err::<(), ClickError>(e)));
                        lemma_parse_done(*self, ctx0, av, hs, parser, st, ems, false, ms, Err(e), *ctx, Err(e));
                    }
                    return Err(e);
                },
            }
            proof {
                let ms_old = ms;
                ms = ms.push(ctx.spec_params());
                assert forall|j: int| 0 <= j < k + 1 implies nth_step(*self, hs, j, pm, ctx0, #[trigger] ms[j], ms[j + 1], Ok(())) by {
                    if j < k {
                        assert(ms[j] == ms_old[j] && ms[j + 1] == ms_old[j + 1]);
                    }
                }
            }
            k = k + 1;
        }
        match help_ref {
            Some(h) => {
                let res = self.process_option_value(ctx, h, &opts);
                match res {
                    Ok(()) => {},
                    Err(e) => {
                        proof {
                            assert(nth_step(*self, hs, ms.len() - 1, pm, ctx0, ms.last(), ms.last(), Err::<(), ClickError>(e)));
                            assert(process_run(*self, hs, pm, ctx0, ms, Err::<(), ClickError>(e)));
                            lemma_parse_done(*self, ctx0, av, hs, parser, st, ems, false, ms, Err(e), *ctx, Err(e));
                        }
                        return Err(e);
                    },
                }
                proof {
                    let ms_old = ms;
                    ms = ms.push(ctx.spec_params());
                    assert forall|j: int| 0 <= j < ms.len() - 1 implies nth_step(*self, hs, j, pm, ctx0, #[trigger] ms[j], ms[j + 1], Ok(())) by {
                        if j < ms.len() - 2 {
                            assert(ms[j] == ms_old[j] && ms[j + 1] == ms_old[j + 1]);
                        }
                    }
                }
            },
            None => {},
        }
        let ghost nb = ms.len() - 1;
        let mut a: usize = 0;
        while a < self.arguments.len()
            invariant
                a <= self.arguments@.len(),
                nb == self.options@.len() + (if hs is Some { 1int } else { 0int }),
                ctx.wf(),
                opts.wf(),
                pm == pv_map(opts.map()),
                same_ctx_but_params(ctx0, *ctx),
                ctx.spec_args() == ctx0.spec_args(),
                parsed_state(*self, ctx0, av, hs, parser, st),
                ctx0 == *old(ctx),
                av == args.deep_view(),
                pm == st.opts,
                remaining.deep_view() == st.largs,
                eager_run(self.options@, pm, ems, false),
                ems[0] == ctx0.spec_params(),
                m0 == ems.last(),
                ms.len() == nb + a + 1,
                ms[0] == m0,
                ms.last() == ctx.spec_params(),
                forall|j: int| 0 <= j < ms.len() - 1 ==> nth_step(*self, hs, j, pm, ctx0, #[trigger] ms[j], ms[j + 1], Ok(())),
            decreases self.arguments@.len() - a,
        {
            let res = self.process_argument_value(ctx, &self.arguments[a], &opts);
            match res {
                Ok(()) => {},
                Err(e) => {
                    proof {
                        assert(nth_step(*self, hs, ms.len() - 1, pm, ctx0, ms.last(), ms.last(), Err::<(), ClickError>(e)));
                        assert(process_run(*self, hs, pm, ctx0, ms, Err::<(), ClickError>(e)));
                        lemma_parse_done(*self, ctx0, av, hs, parser, st, ems, false, ms, Err(e), *ctx, Err(e));
                    }
                    return Err(e);
                },
            }
            proof {
                let ms_old = ms;
                ms = ms.push(ctx.spec_params());
                assert forall|j: int| 0 <= j < ms.len() - 1 implies nth_step(*self, hs, j, pm, ctx0, #[trigger] ms[j], ms[j + 1], Ok(())) by {
                    if j < ms.len() - 2 {
                        assert(ms[j] == ms_old[j] && ms[j + 1] == ms_old[j + 1]);
                    }
                }
            }
            a = a + 1;
        }
        assert(process_run(*self, hs, pm, ctx0, ms, Ok::<(), ClickError>(())));
        if remaining.len() > 0 && !ctx.allow_extra_args() && !ctx.resilient_parsing() {
            let joined = join(&remaining, " ");
            let head = if remaining.len() == 1 {
                "Got unexpected extra argument ("
            } else {
                "Got unexpected extra arguments ("
            };
            let msg = cat3(head, joined.as_str(), ")");
            proof {
                reveal_strlit("Got unexpected extra argument (");
                reveal_strlit("Got unexpected extra arguments (");
                reveal_strlit(")");
                reveal_strlit(" ");
                assert(msg@ == extra_args_message(st.largs));
            }
            let r = Err(ClickError::usage(msg));
            proof {
                lemma_parse_done(*self, ctx0, av, hs, parser, st, ems, false, ms, Ok(()), *ctx, r);
            }
            return r;
        }
        let ghost before_rec = *ctx;
        self.record_sources(ctx, help_ref, &opts);
        assert(ctx.spec_sources() == recorded_sources(*self, hs, pm, ctx0));
        ctx.extend_args(remaining);
        proof {
            lemma_parse_done(*self, ctx0, av, hs, parser, st, ems, false, ms, Ok(()), *ctx, Ok(()));
        }
        Ok(())
    }

    /// The source of one parameter's value.
    fn source_of(ctx: &Context, parsed: Option<&ParsedValue>, envvar: &Option<Vec<String>>, name: &str) -> (r: ParameterSource)
        requires
            ctx.wf(),
        ensures
            r == src_for(
                opt_pv(parsed),
                *envvar,
                name@,
                ctx.spec_auto_envvar_prefix(),
                ctx.spec_env(),
                ctx.spec_default_map(),
            ),
    {
        let given = match parsed {
            None => false,
            Some(ParsedValue::Unset) => false,
            _ => true,
        };
        if given {
            return ParameterSource::CommandLine;
        }
        let ev = match envvar {
            Some(v) => Some(v),
            None => None,
        };
        if resolve_envvar_value(ctx, ev, name).is_some() {
            ParameterSource::Environment
        } else if ctx.lookup_default(name).is_some() {
            ParameterSource::DefaultMap
        } else {
            ParameterSource::Default
        }
    }

    /// Record where each parameter's value came from.
    fn record_sources(&self, ctx: &mut Context, help: Option<&ClickOption>, opts: &StrMap<ParsedValue>)
        requires
            old(ctx).wf(),
            opts.wf(),
        ensures
            final(ctx).wf(),
            same_settings(*old(ctx), *final(ctx)),
            final(ctx).spec_params() == old(ctx).spec_params(),
            final(ctx).spec_args() == old(ctx).spec_args(),
            final(ctx).spec_sources() == recorded_sources(
                *self,
                match help {
                    Some(h) => Some(*h),
                    None => None,
                },
                strmap_pv(*opts),
                *old(ctx),
            ),
    {
        let ghost c0 = *ctx;
        let ghost pm = strmap_pv(*opts);
        let ghost pre = c0.spec_auto_envvar_prefix();
        let ghost en = c0.spec_env();
        let ghost dm = c0.spec_default_map();
        let ghost hs: Option<ClickOption> = match help {
            Some(h) => Some(*h),
            None => None,
        };
        let mut i: usize = 0;
        while i < self.options.len()
            invariant
                i <= self.options@.len(),
                ctx.wf(),
                opts.wf(),
                pm == strmap_pv(*opts),
                same_settings(c0, *ctx),
                ctx.spec_params() == c0.spec_params(),
                ctx.spec_args() == c0.spec_args(),
                pre == c0.spec_auto_envvar_prefix(),
                en == c0.spec_env(),
                dm == c0.spec_default_map(),
                ctx.spec_sources() == opt_sources(self.options@.take(i as int), pm, pre, en, dm, c0.spec_sources()),
            decreases self.options@.len() - i,
        {
            let o = &self.options[i];
            let name = o.config.name.as_str();
            let parsed = opts.get(name);
            assert(pm.get(name@) == opt_pv(parsed));
            let src = Command::source_of(ctx, parsed, &o.config.envvar, name);
            ctx.set_parameter_source(name, src);
            assert(self.options@.take(i + 1).drop_last() =~= self.options@.take(i as int));
            i = i + 1;
        }
        assert(self.options@.take(self.options@.len() as int) =~= self.options@);
        match help {
            Some(h) => {
                let name = h.config.name.as_str();
                let parsed = opts.get(name);
                assert(pm.get(name@) == opt_pv(parsed));
                let src = Command::source_of(ctx, parsed, &h.config.envvar, name);
                ctx.set_parameter_source(name, src);
                assert(opts_with_help(*self, hs).drop_last() =~= self.options@);
            },
            None => {
                assert(opts_with_help(*self, hs) =~= self.options@);
            },
        }
        let ghost base = ctx.spec_sources();
        assert(base == opt_sources(opts_with_help(*self, hs), pm, pre, en, dm, c0.spec_sources()));
        let mut a: usize = 0;
        while a < self.arguments.len()
            invariant
                a <= self.arguments@.len(),
                ctx.wf(),
                opts.wf(),
                pm == strmap_pv(*opts),
                same_settings(c0, *ctx),
                ctx.spec_params() == c0.spec_params(),
                ctx.spec_args() == c0.spec_args(),
                pre == c0.spec_auto_envvar_prefix(),
                en == c0.spec_env(),
                dm == c0.spec_default_map(),
                ctx.spec_sources() == arg_sources(self.arguments@.take(a as int), pm, pre, en, dm, base),
            decreases self.arguments@.len() - a,
        {
            let x = &self.arguments[a];
            let name = x.config.name.as_str();
            let parsed = opts.get(name);
            assert(pm.get(name@) == opt_pv(parsed));
            let src = Command::source_of(ctx, parsed, &x.config.envvar, name);
            ctx.set_parameter_source(name, src);
            assert(self.arguments@.take(a + 1).drop_last() =~= self.arguments@.take(a as int));
            a = a + 1;
        }
        assert(self.arguments@.take(self.arguments@.len() as int) =~= self.arguments@);
    }
}

/// The parent context as a value.
pub open spec fn arc_view(p: Option<Arc<Context>>) -> Option<Context> {
    match p {
        Some(a) => Some(*a),
        None => None,
    }
}

/// A new context for a command: named, under the parent, with the command's
/// settings and what it inherits (help names, environment and its prefix).
/// A context as made for running a command: new, named `info_name`, under
/// `parent`, with the given parsing settings, the help names and environment
/// of its parent (or `--help` and none at the root), and the derived
/// environment-variable prefix.
pub open spec fn made_context(
    b: Context,
    info_name: Seq<char>,
    parent: Option<Context>,
    extra: bool,
    interspersed: bool,
    ignore_unknown: bool,
    env: Map<Seq<char>, String>,
) -> bool {
    &&& b.wf()
    &&& b.spec_parent() == parent
    &&& b.spec_info_name() == Some(info_name)
    &&& b.spec_params() == Map::<Seq<char>, Value>::empty()
    &&& b.spec_args() == Seq::<Seq<char>>::empty()
    &&& b.spec_allow_extra_args() == extra
    &&& b.spec_allow_interspersed_args() == interspersed
    &&& b.spec_ignore_unknown_options() == ignore_unknown
    &&& !b.spec_resilient_parsing()
    &&& b.spec_help_option_names() == match parent {
        Some(p) => p.spec_help_option_names(),
        None => seq!["--help"@],
    }
    &&& b.spec_env() == env
    &&& b.spec_auto_envvar_prefix() == crate::context::child_prefix(parent, info_name)
}

/// The environment a new context has from its parent (none at the root).
pub open spec fn inherited_env(parent: Option<Context>) -> Map<Seq<char>, String> {
    match parent {
        Some(p) => p.spec_env(),
        None => Map::<Seq<char>, String>::empty(),
    }
}

/// The environment a new context reads: the one given, else its parent's.
pub open spec fn env_for(env: Option<StrMap<String>>, parent: Option<Context>) -> Map<Seq<char>, String> {
    match env {
        Some(e) => if e.wf() {
            e.map()
        } else {
            inherited_env(parent)
        },
        None => inherited_env(parent),
    }
}

pub open spec fn fresh_context(b: Context, c: Command, info_name: Seq<char>, parent: Option<Context>) -> bool {
    made_context(
        b,
        info_name,
        parent,
        c.allow_extra_args,
        c.allow_interspersed_args,
        c.ignore_unknown_options,
        inherited_env(parent),
    )
}

/// A new context for the command at the root, reading the environment `env`.
pub open spec fn root_context(b: Context, c: Command, info_name: Seq<char>, env: Map<Seq<char>, String>) -> bool {
    made_context(b, info_name, None, c.allow_extra_args, c.allow_interspersed_args, c.ignore_unknown_options, env)
}

/// What parsing `args` into the new context `b` gives: the parsed context, or
/// the error.
pub open spec fn parsed_into(c: Command, b: Context, args: Seq<Seq<char>>, r: Result<Context, ClickError>) -> bool {
    match r {
        Ok(x) => parse_args_ok(c, b, args, x, Ok(())),
        Err(e) => exists|x: Context| #[trigger] parse_args_ok(c, b, args, x, Err(e)),
    }
}

/// What pushing onto a sequence gives; the facts are stated for element types
/// (such as trait objects) on which they are not found on their own.
pub proof fn lemma_push_facts<A>(s: Seq<A>, a: A)
    ensures
        s.push(a).len() == s.len() + 1,
        s.push(a)[s.len() as int] == a,
        forall|k: int| 0 <= k < s.len() ==> #[trigger] s.push(a)[k] == s[k],
{
    vstd::seq::axiom_seq_push_len(s, a);
    vstd::seq::axiom_seq_push_index_same(s, a, s.len() as int);
    assert forall|k: int| 0 <= k < s.len() implies #[trigger] s.push(a)[k] == s[k] by {
        vstd::seq::axiom_seq_push_index_different(s, a, k);
    }
}

impl Command {
    /// Make a context for the command and parse the command line into it.
    pub fn make_context(&self, info_name: &str, args: Vec<String>, parent: Option<Arc<Context>>) -> (r: Result<
        Context,
        ClickError,
    >)
        requires
            match parent {
                Some(p) => p.wf() && (self.add_help_option && self.help_option is None ==> names_valid(
                    p.spec_help_option_names(),
                )),
                None => true,
            },
        ensures
            exists|b: Context|
                #[trigger] fresh_context(b, *self, info_name@, arc_view(parent)) && match r {
                    Ok(c) => parse_args_ok(*self, b, args.deep_view(), c, Ok(())),
                    Err(e) => exists|c1: Context| #[trigger] parse_args_ok(*self, b, args.deep_view(), c1, Err(e)),
                },
    {
        let ghost a = args.deep_view();
        let ghost pv = arc_view(parent);
        let r = self.make_context_env(info_name, args, parent, None);
        proof {
            let b = choose|b: Context|
                #[trigger] made_context(
                    b,
                    info_name@,
                    pv,
                    self.allow_extra_args,
                    self.allow_interspersed_args,
                    self.ignore_unknown_options,
                    env_for(None, pv),
                ) && match r {
                    Ok(c) => parse_args_ok(*self, b, a, c, Ok(())),
                    Err(e) => exists|c1: Context| #[trigger] parse_args_ok(*self, b, a, c1, Err(e)),
                };
            assert(fresh_context(b, *self, info_name@, pv));
        }
        r
    }

    /// Make a context for the command, reading the environment `env` when one
    /// is given (else the parent's), and parse the command line into it.
    pub fn make_context_env(
        &self,
        info_name: &str,
        args: Vec<String>,
        parent: Option<Arc<Context>>,
        env: Option<StrMap<String>>,
    ) -> (r: Result<Context, ClickError>)
        requires
            match parent {
                Some(p) => p.wf() && (self.add_help_option && self.help_option is None ==> names_valid(
                    p.spec_help_option_names(),
                )),
                None => true,
            },
        ensures
            exists|b: Context|
                #[trigger] made_context(
                    b,
                    info_name@,
                    arc_view(parent),
                    self.allow_extra_args,
                    self.allow_interspersed_args,
                    self.ignore_unknown_options,
                    env_for(env, arc_view(parent)),
                ) && match r {
                    Ok(c) => parse_args_ok(*self, b, args.deep_view(), c, Ok(())),
                    Err(e) => exists|c1: Context| #[trigger] parse_args_ok(*self, b, args.deep_view(), c1, Err(e)),
                },
    {
        let mut builder = ContextBuilder::new().info_name(info_name).allow_extra_args(self.allow_extra_args).allow_interspersed_args(
            self.allow_interspersed_args,
        ).ignore_unknown_options(self.ignore_unknown_options);
        match parent {
            Some(p) => {
                builder = builder.parent(p);
            },
            None => {},
        }
        match env {
            Some(e) => {
                if e.is_wf() {
                    builder = builder.env(e);
                }
            },
            None => {},
        }
        proof {
            builder.lemma_built_prefix(info_name@);
        }
        let mut ctx = builder.build();
        let ghost b = ctx;
        proof {
            reveal_strlit("--help");
            assert(made_context(
                b,
                info_name@,
                arc_view(parent),
                self.allow_extra_args,
                self.allow_interspersed_args,
                self.ignore_unknown_options,
                env_for(env, arc_view(parent)),
            ));
            if arc_view(parent) is None {
                assert(spec_parse_option_name("--help"@) is Ok);
                assert(names_valid(b.spec_help_option_names()));
            }
        }
        let ghost av = args.deep_view();
        match self.parse_args(&mut ctx, args) {
            Ok(()) => Ok(ctx),
            Err(e) => {
                assert(parse_args_ok(*self, b, av, ctx, Err::<(), ClickError>(e)));
                Err(e)
            },
        }
    }
}

/// Whether a command-line argument gives the option `opt`: it is the option, or
/// `--opt=value`, or a group of short options that holds it.
pub open spec fn spec_arg_matches_opt(arg: Seq<char>, opt: Seq<char>) -> bool {
    ||| arg == opt
    ||| seq_starts_with(opt, "--"@) && seq_starts_with(arg, opt) && arg.len() > opt.len() && arg[opt.len() as int] == '='
    ||| blen(opt) == 2 && opt.len() == 2 && opt[0] == '-' && opt[1] != '-' && arg.len() > 0 && arg[0] == '-'
        && !seq_starts_with(arg, "--"@) && arg.skip(1).contains(opt[1])
}

/// Whether some argument gives one of the names.
pub open spec fn any_arg_matches(names: Seq<Seq<char>>, args: Seq<Seq<char>>) -> bool {
    exists|i: int, j: int| 0 <= i < names.len() && 0 <= j < args.len() && #[trigger] spec_arg_matches_opt(args[j], names[i])
}

/// The version text of the first version option given among the arguments;
/// the search stops at the first option that is no version option.
pub open spec fn version_output(os: Seq<ClickOption>, args: Seq<Seq<char>>) -> Option<Seq<char>>
    decreases os.len(),
{
    if os.len() == 0 {
        None
    } else {
        let o = os[0];
        match o.config.metavar {
            None => None,
            Some(m) => if !seq_starts_with(m@, version_prefix()) {
                None
            } else if any_arg_matches(o.long.deep_view() + o.short.deep_view(), args) {
                Some(m@.skip(version_prefix().len() as int))
            } else {
                version_output(os.drop_first(), args)
            },
        }
    }
}

fn any_char_is(s: &str, from: usize, c: char) -> (r: bool)
    requires
        from <= s@.len(),
    ensures
        r == s@.skip(from as int).contains(c),
{
    let n = s.unicode_len();
    let mut i: usize = from;
    while i < n
        invariant
            from <= i <= n,
            n == s@.len(),
            forall|k: int| from <= k < i ==> s@[k] != c,
        decreases n - i,
    {
        if s.get_char(i) == c {
            assert(s@.skip(from as int)[i - from] == c);
            return true;
        }
        i = i + 1;
    }
    proof {
        if s@.skip(from as int).contains(c) {
            let k = choose|k: int| 0 <= k < s@.skip(from as int).len() && s@.skip(from as int)[k] == c;
            assert(s@[from + k] == c);
        }
    }
    false
}

/// Whether some argument gives one of the names.
fn names_given(names: &Vec<String>, args: &[String]) -> (r: bool)
    ensures
        r == any_arg_matches(names.deep_view(), args@.map_values(|x: String| x@)),
{
    let ghost nv = names.deep_view();
    let ghost av = args@.map_values(|x: String| x@);
    let mut j: usize = 0;
    while j < args.len()
        invariant
            j <= args@.len(),
            nv == names.deep_view(),
            av == args@.map_values(|x: String| x@),
            forall|q: int, k: int| 0 <= q < nv.len() && 0 <= k < j ==> !#[trigger] spec_arg_matches_opt(av[k], nv[q]),
        decreases args@.len() - j,
    {
        let mut q: usize = 0;
        while q < names.len()
            invariant
                q <= names@.len(),
                j < args@.len(),
                nv == names.deep_view(),
                av == args@.map_values(|x: String| x@),
                forall|q2: int, k: int| 0 <= q2 < nv.len() && 0 <= k < j ==> !#[trigger] spec_arg_matches_opt(av[k], nv[q2]),
                forall|q2: int| 0 <= q2 < q ==> !#[trigger] spec_arg_matches_opt(av[j as int], nv[q2]),
            decreases names@.len() - q,
        {
            if Command::arg_matches_opt(args[j].as_str(), names[q].as_str()) {
                assert(spec_arg_matches_opt(av[j as int], nv[q as int]));
                return true;
            }
            q = q + 1;
        }
        j = j + 1;
    }
    false
}

/// Whether some argument gives one of the option's names.
fn option_given(o: &ClickOption, args: &[String]) -> (r: bool)
    ensures
        r == any_arg_matches(o.long.deep_view() + o.short.deep_view(), args@.map_values(|x: String| x@)),
{
    let ghost av = args@.map_values(|x: String| x@);
    let ghost names = o.long.deep_view() + o.short.deep_view();
    let a = names_given(&o.long, args);
    let b = names_given(&o.short, args);
    proof {
        let l = o.long.deep_view();
        let sh = o.short.deep_view();
        if a {
            let (i, j) = choose|i: int, j: int| 0 <= i < l.len() && 0 <= j < av.len() && #[trigger] spec_arg_matches_opt(av[j], l[i]);
            assert(names[i] == l[i]);
            assert(spec_arg_matches_opt(av[j], names[i]));
        } else if b {
            let (i, j) = choose|i: int, j: int| 0 <= i < sh.len() && 0 <= j < av.len() && #[trigger] spec_arg_matches_opt(av[j], sh[i]);
            assert(names[l.len() + i] == sh[i]);
            assert(spec_arg_matches_opt(av[j], names[l.len() + i]));
        } else {
            assert forall|i: int, j: int| 0 <= i < names.len() && 0 <= j < av.len() implies !#[trigger] spec_arg_matches_opt(av[j], names[i]) by {
                if i < l.len() {
                    assert(names[i] == l[i]);
                    assert(!spec_arg_matches_opt(av[j], l[i]));
                } else {
                    assert(names[i] == sh[i - l.len()]);
                    assert(!spec_arg_matches_opt(av[j], sh[i - l.len()]));
                }
            }
        }
    }
    a || b
}

impl Command {
    /// Whether a command-line argument gives the option `opt`.
    pub fn arg_matches_opt(arg: &str, opt: &str) -> (r: bool)
        ensures
            r == spec_arg_matches_opt(arg@, opt@),
    {
        proof {
            reveal_strlit("--");
        }
        if str_eq(arg, opt) {
            return true;
        }
        let dd = "--";
        let al = arg.unicode_len();
        let ol = opt.unicode_len();
        if crate::text::starts_with(opt, dd) && crate::text::starts_with(arg, opt) && al > ol && arg.get_char(ol) == '=' {
            return true;
        }
        let ob = crate::text::utf8_len(opt);
        if ob == 2 && ol == 2 && opt.get_char(0) == '-' && opt.get_char(1) != '-' {
            let needle = opt.get_char(1);
            if al > 0 && arg.get_char(0) == '-' && !crate::text::starts_with(arg, dd) {
                return any_char_is(arg, 1, needle);
            }
        }
        false
    }

    /// The version text when a version option is among the arguments.
    pub fn get_version_output_from_args(&self, args: &[String]) -> (r: Option<String>)
        ensures
            opt_view(r) == version_output(self.options@, args@.map_values(|x: String| x@)),
    {
        let ghost av = args@.map_values(|x: String| x@);
        let mut i: usize = 0;
        assert(self.options@.skip(0) =~= self.options@);
        while i < self.options.len()
            invariant
                i <= self.options@.len(),
                av == args@.map_values(|x: String| x@),
                version_output(self.options@, av) == version_output(self.options@.skip(i as int), av),
            decreases self.options@.len() - i,
        {
            let o = &self.options[i];
            let ghost rest = self.options@.skip(i as int);
            assert(rest[0] == *o);
            assert(rest.drop_first() =~= self.options@.skip(i + 1));
            let m = match &o.config.metavar {
                Some(m) => m,
                None => {
                    return None;
                },
            };
            let pre = "__click_version__:";
            proof {
                reveal_strlit("__click_version__:");
                assert(pre@ =~= version_prefix());
            }
            if !crate::text::starts_with(m.as_str(), pre) {
                return None;
            }
            let ghost names = o.long.deep_view() + o.short.deep_view();
            let found = option_given(o, args);
            assert(found == any_arg_matches(names, av));
            if found {
                let out = m.as_str().substring_char(18, m.unicode_len());
                proof {
                    assert(out@ =~= m@.skip(version_prefix().len() as int));
                }
                return Some(str_of(out));
            }
            i = i + 1;
        }
        None
    }
}

// =============================================================================
// The help page
// =============================================================================

/// The description under the usage line: the first line of the help (marked
/// when deprecated), or only the deprecation note.
pub open spec fn help_intro(c: Command) -> Seq<Seq<char>> {
    match c.help {
        Some(h) => {
            let t = first_line(h@);
            if t.len() > 0 {
                seq![
                    Seq::<char>::empty(),
                    "  "@ + t + match c.deprecated {
                        Some(d) => "  "@ + deprecated_note(d@),
                        None => Seq::<char>::empty(),
                    },
                ]
            } else {
                seq![]
            }
        },
        None => match c.deprecated {
            Some(d) => seq![Seq::<char>::empty(), "  "@ + deprecated_note(d@)],
            None => seq![],
        },
    }
}

/// The lines of the visible options.
pub open spec fn opt_lines(os: Seq<ClickOption>) -> Seq<Seq<char>>
    decreases os.len(),
{
    if os.len() == 0 {
        seq![]
    } else {
        let rest = opt_lines(os.drop_last());
        let o = os.last();
        if o.config.hidden {
            rest
        } else {
            rest.push("  "@ + option_help_record(o).0 + "  "@ + option_help_record(o).1)
        }
    }
}

/// The help text of an argument.
pub open spec fn arg_help(a: Argument) -> Seq<char> {
    match a.config.help {
        Some(x) => x@,
        None => Seq::<char>::empty(),
    }
}

/// The lines of the visible arguments that have help.
pub open spec fn arg_lines(args: Seq<Argument>) -> Seq<Seq<char>>
    decreases args.len(),
{
    if args.len() == 0 {
        seq![]
    } else {
        let rest = arg_lines(args.drop_last());
        let a = args.last();
        if a.config.hidden || arg_help(a).len() == 0 {
            rest
        } else {
            rest.push("  "@ + argument_metavar(a.config, a.spec_type_metavar()) + "  "@ + arg_help(a))
        }
    }
}

/// The help option's two columns, when there is a visible one.
pub open spec fn help_record_of(c: Command, ctx: Context) -> Option<(Seq<char>, Seq<char>)> {
    if !c.add_help_option || c.spec_help_names(ctx).len() == 0 {
        None
    } else {
        match c.help_option {
            Some(o) => if o.config.hidden {
                None
            } else {
                Some(option_help_record(o))
            },
            None => match spec_split_option_names(c.spec_help_names(ctx)) {
                Ok((l, s)) => Some((join_seq(s + l, ", "@), "Show this message and exit."@)),
                Err(_) => None,
            },
        }
    }
}

/// A titled section, left out when it has no line.
pub open spec fn section(title: Seq<char>, ls: Seq<Seq<char>>) -> Seq<Seq<char>> {
    if ls.len() > 0 {
        seq![Seq::<char>::empty(), title] + ls
    } else {
        seq![]
    }
}

/// The lines of a command's help page.
pub open spec fn help_page(c: Command, ctx: Context) -> Seq<Seq<char>> {
    let ol = opt_lines(c.options@) + match help_record_of(c, ctx) {
        Some((a, b)) => seq!["  "@ + a + "  "@ + b],
        None => Seq::<Seq<char>>::empty(),
    };
    seq![usage_of(c, ctx)] + help_intro(c) + section("Options:"@, ol) + section("Arguments:"@, arg_lines(c.arguments@))
        + match c.epilog {
        Some(e) => seq![Seq::<char>::empty(), e@],
        None => Seq::<Seq<char>>::empty(),
    }
}

pub(crate) fn push_all(v: &mut Vec<String>, more: Vec<String>)
    ensures
        final(v).deep_view() == old(v).deep_view() + more.deep_view(),
{
    let mut i: usize = 0;
    let ghost v0 = v.deep_view();
    while i < more.len()
        invariant
            i <= more@.len(),
            v.deep_view() == v0 + more.deep_view().take(i as int),
        decreases more@.len() - i,
    {
        let ghost od = v.deep_view();
        v.push(more[i].clone());
        assert(v.deep_view() =~= od.push(more@[i as int]@));
        assert(more.deep_view().take(i + 1) =~= more.deep_view().take(i as int).push(more@[i as int]@));
        i = i + 1;
    }
    assert(more.deep_view().take(more@.len() as int) =~= more.deep_view());
}

pub(crate) fn section_exec(v: &mut Vec<String>, title: &str, ls: Vec<String>)
    ensures
        final(v).deep_view() == old(v).deep_view() + section(title@, ls.deep_view()),
{
    if ls.len() > 0 {
        let ghost v0 = v.deep_view();
        v.push(String::new());
        v.push(str_of(title));
        assert(v.deep_view() =~= v0 + seq![Seq::<char>::empty(), title@]);
        push_all(v, ls);
        assert(v.deep_view() =~= v0 + section(title@, ls.deep_view()));
    } else {
        assert(v.deep_view() =~= old(v).deep_view() + section(title@, ls.deep_view()));
    }
}

impl Command {
    fn option_lines(&self) -> (r: Vec<String>)
        ensures
            r.deep_view() == opt_lines(self.options@),
    {
        let mut out: Vec<String> = Vec::new();
        let mut i: usize = 0;
        assert(self.options@.take(0) =~= Seq::<ClickOption>::empty());
        while i < self.options.len()
            invariant
                i <= self.options@.len(),
                out.deep_view() == opt_lines(self.options@.take(i as int)),
            decreases self.options@.len() - i,
        {
            let o = &self.options[i];
            assert(self.options@.take(i + 1).drop_last() =~= self.options@.take(i as int));
            match o.get_help_record() {
                Some((a, b)) => {
                    let ghost od = out.deep_view();
                    let line = crate::text::cat4("  ", a.as_str(), "  ", b.as_str());
                    proof {
                        reveal_strlit("  ");
                    }
                    out.push(line);
                    assert(out.deep_view() =~= od.push(line@));
                },
                None => {},
            }
            i = i + 1;
        }
        assert(self.options@.take(self.options@.len() as int) =~= self.options@);
        out
    }

    fn argument_lines(&self) -> (r: Vec<String>)
        ensures
            r.deep_view() == arg_lines(self.arguments@),
    {
        let mut out: Vec<String> = Vec::new();
        let mut i: usize = 0;
        assert(self.arguments@.take(0) =~= Seq::<Argument>::empty());
        while i < self.arguments.len()
            invariant
                i <= self.arguments@.len(),
                out.deep_view() == arg_lines(self.arguments@.take(i as int)),
            decreases self.arguments@.len() - i,
        {
            let a = &self.arguments[i];
            assert(self.arguments@.take(i + 1).drop_last() =~= self.arguments@.take(i as int));
            match a.get_help_record() {
                Some((m, h)) => {
                    if h.unicode_len() > 0 {
                        let ghost od = out.deep_view();
                        let line = crate::text::cat4("  ", m.as_str(), "  ", h.as_str());
                        proof {
                            reveal_strlit("  ");
                        }
                        out.push(line);
                        assert(out.deep_view() =~= od.push(line@));
                    }
                },
                None => {},
            }
            i = i + 1;
        }
        assert(self.arguments@.take(self.arguments@.len() as int) =~= self.arguments@);
        out
    }

    pub(crate) fn intro_lines(&self) -> (r: Vec<String>)
        ensures
            r.deep_view() == help_intro(*self),
    {
        let mut out: Vec<String> = Vec::new();
        proof {
            reveal_strlit("  ");
        }
        match &self.help {
            Some(h) => {
                let t = first_line_exec(h.as_str());
                if t.unicode_len() > 0 {
                    let text = match &self.deprecated {
                        Some(d) => {
                            let n = deprecated_note_exec(d.as_str());
                            let x = crate::text::cat4("  ", t.as_str(), "  ", n.as_str());
                            assert(x@ =~= "  "@ + t@ + ("  "@ + deprecated_note(d@)));
                            x
                        },
                        None => {
                            let x = cat2("  ", t.as_str());
                            assert(x@ =~= "  "@ + t@ + Seq::<char>::empty());
                            x
                        },
                    };
                    out.push(String::new());
                    out.push(text);
                    assert(out.deep_view() =~= help_intro(*self));
                }
            },
            None => match &self.deprecated {
                Some(d) => {
                    let n = deprecated_note_exec(d.as_str());
                    out.push(String::new());
                    out.push(cat2("  ", n.as_str()));
                    assert(out.deep_view() =~= help_intro(*self));
                },
                None => {
                    assert(out.deep_view() =~= help_intro(*self));
                },
            },
        }
        assert(out.deep_view() =~= help_intro(*self));
        out
    }

    /// The lines of the options section: the visible options, then the help option.
    pub(crate) fn option_and_help_lines(&self, ctx: &Context) -> (r: Vec<String>)
        requires
            self.add_help_option && self.help_option is None ==> names_valid(ctx.spec_help_option_names()),
        ensures
            r.deep_view() == opt_lines(self.options@) + match help_record_of(*self, *ctx) {
                Some((a, b)) => seq!["  "@ + a + "  "@ + b],
                None => Seq::<Seq<char>>::empty(),
            },
    {
        let mut ol = self.option_lines();
        let help = self.get_help_option(ctx);
        match &help {
            Some(h) => {
                let o = h.option();
                match o.get_help_record() {
                    Some((a, b)) => {
                        let ghost od = ol.deep_view();
                        let line = crate::text::cat4("  ", a.as_str(), "  ", b.as_str());
                        proof {
                            reveal_strlit("  ");
                            reveal_strlit("Show this message and exit.");
                            if self.help_option is None {
                                lemma_kept_valid(ctx.spec_help_option_names(), used_names(self.options@));
                                lemma_valid_split(self.spec_help_names(*ctx));
                                assert(option_extras(*o) =~= Seq::<Seq<char>>::empty());
                            }
                        }
                        ol.push(line);
                        assert(ol.deep_view() =~= od.push(line@));
                    },
                    None => {},
                }
            },
            None => {},
        }
        proof {
            reveal_strlit("  ");
            assert(ol.deep_view() =~= opt_lines(self.options@) + match help_record_of(*self, *ctx) {
                Some((a, b)) => seq!["  "@ + a + "  "@ + b],
                None => Seq::<Seq<char>>::empty(),
            });
        }
        ol
    }

    /// The help page: usage, description, options, arguments and epilog.
    pub fn get_help(&self, ctx: &Context) -> (r: String)
        requires
            self.add_help_option && self.help_option is None ==> names_valid(ctx.spec_help_option_names()),
        ensures
            r@ == join_seq(help_page(*self, *ctx), "\n"@),
    {
        let mut parts: Vec<String> = Vec::new();
        parts.push(self.get_usage(ctx));
        assert(parts.deep_view() =~= seq![usage_of(*self, *ctx)]);
        let intro = self.intro_lines();
        push_all(&mut parts, intro);
        let ol = self.option_and_help_lines(ctx);
        let ghost olv = ol.deep_view();
        let ghost p1 = parts.deep_view();
        assert(p1 =~= seq![usage_of(*self, *ctx)] + help_intro(*self));
        section_exec(&mut parts, "Options:", ol);
        let al = self.argument_lines();
        section_exec(&mut parts, "Arguments:", al);
        match &self.epilog {
            Some(e) => {
                parts.push(String::new());
                parts.push(e.clone());
            },
            None => {},
        }
        proof {
            reveal_strlit("Options:");
            reveal_strlit("Arguments:");
            reveal_strlit("\n");
            assert(parts.deep_view() =~= help_page(*self, *ctx));
        }
        join(&parts, "\n")
    }
}

/// Whether every name is a valid option name.
pub fn names_valid_exec(names: &[String]) -> (r: bool)
    ensures
        r == names_valid(names@.map_values(|x: String| x@)),
{
    let ghost nv = names@.map_values(|x: String| x@);
    let mut i: usize = 0;
    while i < names.len()
        invariant
            i <= names@.len(),
            nv == names@.map_values(|x: String| x@),
            forall|k: int| 0 <= k < i ==> (#[trigger] spec_parse_option_name(nv[k])) is Ok,
        decreases names@.len() - i,
    {
        match crate::option::parse_option_name(names[i].as_str()) {
            Ok(_) => {},
            Err(_) => {
                assert(!(spec_parse_option_name(nv[i as int]) is Ok));
                return false;
            },
        }
        i = i + 1;
    }
    true
}

} // verus!
