//! Command groups: a command that dispatches to named subcommands, one at a
//! time or chained, and collections that merge the subcommands of groups.

use vstd::prelude::*;
use std::sync::Arc;
use crate::command::{
    Command, CommandBuilder, CommandCallback, names_valid, help_intro, opt_lines, help_record_of, section, usage_of,
    arc_view, fresh_context, made_context, parsed_into, parse_args_ok, version_output, help_page, inherited_env,
    env_for, root_context, callback_runs, lemma_push_facts,
};
use crate::context::{Context, ContextBuilder, opt_str_view};
use crate::types::copy_of;
use crate::error::{ClickError, opt_view};
use crate::option::ClickOption;
use crate::argument::Argument;
use crate::strmap::StrMap;
use crate::text::{
    blen, cat2, cat3, join, join_seq, repeat_seq, repeat_char, seq_lt, str_of, strictly_sorted, insert_sorted,
    utf8_len, seq_starts_with,
};

verus! {

// =============================================================================
// Shared handles
// =============================================================================

/// `Arc::clone`: another handle to the same value.
#[verifier::external_body]
fn share<T>(a: &Arc<T>) -> (r: Arc<T>)
    ensures
        *r == **a,
{
    a.clone()
}

/// `Arc::ptr_eq`: whether two handles point to the same allocation; when they
/// do, they hold the same value.
#[verifier::external_body]
fn same_allocation<T>(a: &Arc<T>, b: &Arc<T>) -> (r: bool)
    ensures
        r ==> **a == **b,
{
    Arc::ptr_eq(a, b)
}

/// `Arc::into_inner`: the value, when this was its only handle.
#[verifier::external_body]
fn take_unique<T>(a: Arc<T>) -> (r: Option<T>)
    ensures
        r matches Some(x) ==> x == *a,
{
    Arc::into_inner(a)
}

// =============================================================================
// The interface of commands and groups
// =============================================================================

/// What a group calls with the results of its subcommands (one unit value for
/// each subcommand run).
pub trait ResultCallback {
    /// Whether `r` is what the callback may return for `results` in `ctx`.
    spec fn spec_returns(&self, ctx: Context, results: Seq<()>, r: Result<(), ClickError>) -> bool;

    fn call(&self, ctx: &Context, results: Vec<()>) -> (r: Result<(), ClickError>)
        ensures
            self.spec_returns(*ctx, results@, r),
    ;
}

/// Calls a user's result closure (std's `Fn::call`): where the arguments meet the closure's own precondition, what comes back is what the
/// closure returns for these arguments.
#[verifier::external_body]
fn call_results<F: Fn(&Context, Vec<()>) -> Result<(), ClickError>>(f: &F, ctx: &Context, results: Vec<()>) -> (r: Result<
    (),
    ClickError,
>)
    ensures
        call_requires(*f, (ctx, results)) ==> call_ensures(*f, (ctx, results), r),
{
    f(ctx, results)
}

impl<F: Fn(&Context, Vec<()>) -> Result<(), ClickError>> ResultCallback for F {
    open spec fn spec_returns(&self, ctx: Context, results: Seq<()>, r: Result<(), ClickError>) -> bool {
        exists|v: Vec<()>| #![trigger v.view()] v@ == results && (call_requires(*self, (&ctx, v)) ==> call_ensures(*self, (&ctx, v), r))
    }

    fn call(&self, ctx: &Context, results: Vec<()>) -> (r: Result<(), ClickError>) {
        let ghost v = results;
        let r = call_results(self, ctx, results);
        assert(call_requires(*self, (ctx, v)) ==> call_ensures(*self, (ctx, v), r));
        assert(v@ == results@);
        r
    }
}

/// What commands, groups and collections have in common.
pub trait CommandLike {
    spec fn spec_name(&self) -> Option<Seq<char>>;

    spec fn spec_hidden(&self) -> bool;

    spec fn spec_short_help(&self) -> Seq<char>;

    /// What making a context named `info_name` for `args` under `parent` may give.
    spec fn spec_makes(
        &self,
        info_name: Seq<char>,
        args: Seq<Seq<char>>,
        parent: Option<Context>,
        r: Result<Context, ClickError>,
    ) -> bool;

    /// What running in the context `ctx` may give.
    spec fn spec_runs(&self, ctx: Context, r: Result<(), ClickError>) -> bool;

    /// What running as a program on `args` may give.
    spec fn spec_main(&self, args: Seq<Seq<char>>, env: Map<Seq<char>, String>, r: Result<Option<String>, ClickError>) -> bool;

    /// Whether `r` is the help page in the context `ctx`.
    spec fn spec_helps(&self, ctx: Context, r: Seq<char>) -> bool;

    /// The usage line in the context `ctx`.
    spec fn spec_usage(&self, ctx: Context) -> Seq<char>;

    fn name(&self) -> (r: Option<&str>)
        ensures
            opt_str_view(r) == self.spec_name(),
    ;

    /// Make a context for the command and parse the command line into it.
    fn make_context(&self, info_name: &str, args: Vec<String>, parent: Option<Arc<Context>>) -> (r: Result<
        Context,
        ClickError,
    >)
        requires
            match parent {
                Some(p) => p.wf() && names_valid(p.spec_help_option_names()),
                None => true,
            },
        ensures
            r matches Ok(c) ==> c.wf(),
            self.spec_makes(info_name@, args.deep_view(), arc_view(parent), r),
    ;

    /// Run the command in its context.
    fn invoke(&self, ctx: &Arc<Context>) -> (r: Result<(), ClickError>)
        requires
            ctx.wf(),
            names_valid(ctx.spec_help_option_names()),
        ensures
            self.spec_runs(**ctx, r),
    ;

    /// Make the context, run the command and close the context. `Ok(Some(text))`
    /// is text for the user (help or version) asked for on the command line.
    fn main(&self, args: Vec<String>) -> (r: Result<Option<String>, ClickError>)
        ensures
            self.spec_main(args.deep_view(), Map::<Seq<char>, String>::empty(), r),
    {
        let env: StrMap<String> = StrMap::new();
        self.main_env(args, env)
    }

    /// As `main`, with the program's environment variables: its root context
    /// reads parameter values from them.
    fn main_env(&self, args: Vec<String>, env: StrMap<String>) -> (r: Result<Option<String>, ClickError>)
        ensures
            self.spec_main(args.deep_view(), env_for(Some(env), None), r),
    ;

    fn get_help(&self, ctx: &Context) -> (r: String)
        requires
            names_valid(ctx.spec_help_option_names()),
        ensures
            self.spec_helps(*ctx, r@),
    ;

    fn get_short_help(&self) -> (r: String)
        ensures
            r@ == self.spec_short_help(),
    ;

    fn is_hidden(&self) -> (r: bool)
        ensures
            r == self.spec_hidden(),
    ;

    fn get_usage(&self, ctx: &Context) -> (r: String)
        ensures
            r@ == self.spec_usage(*ctx),
    ;
}

/// A registered subcommand: a command, a group or a collection.
pub enum AnyCommand {
    Command(Command),
    Group(Group),
    Collection(CommandCollection),
}

/// What can be registered as a subcommand.
pub trait IntoCommand {
    spec fn spec_into(self) -> AnyCommand;

    fn into_command(self) -> (r: AnyCommand)
        ensures
            r == self.spec_into(),
    ;
}

impl IntoCommand for Command {
    open spec fn spec_into(self) -> AnyCommand {
        AnyCommand::Command(self)
    }

    fn into_command(self) -> (r: AnyCommand) {
        AnyCommand::Command(self)
    }
}

impl IntoCommand for Group {
    open spec fn spec_into(self) -> AnyCommand {
        AnyCommand::Group(self)
    }

    fn into_command(self) -> (r: AnyCommand) {
        AnyCommand::Group(self)
    }
}

impl IntoCommand for CommandCollection {
    open spec fn spec_into(self) -> AnyCommand {
        AnyCommand::Collection(self)
    }

    fn into_command(self) -> (r: AnyCommand) {
        AnyCommand::Collection(self)
    }
}

impl IntoCommand for AnyCommand {
    open spec fn spec_into(self) -> AnyCommand {
        self
    }

    fn into_command(self) -> (r: AnyCommand) {
        self
    }
}

/// The name of a program when its command has none.
pub open spec fn prog_name(name: Option<String>) -> Seq<char> {
    match name {
        Some(n) => n@,
        None => "program"@,
    }
}

fn prog_name_exec(name: &Option<String>) -> (r: String)
    ensures
        r@ == prog_name(*name),
{
    match name {
        Some(n) => n.clone(),
        None => {
            let p = "program";
            proof {
                reveal_strlit("program");
            }
            str_of(p)
        },
    }
}

/// The root context of a command line: `--help` is its only help name.
proof fn lemma_default_names_valid()
    ensures
        names_valid(seq!["--help"@]),
{
    reveal_strlit("--help");
    assert(crate::option::spec_parse_option_name("--help"@) is Ok);
}

/// A context made to show a program's help page: named `prog`, at the root,
/// with `--help` as its help name.
pub open spec fn root_help_context(d: Context, prog: Seq<char>) -> bool {
    &&& d.spec_info_name() == Some(prog)
    &&& d.spec_parent() is None
    &&& d.spec_help_option_names() == seq!["--help"@]
    &&& d.spec_params() == Map::<Seq<char>, crate::types::Value>::empty()
    &&& d.spec_args() == Seq::<Seq<char>>::empty()
}

/// The text a command prints when its command line asks for help or the
/// version: the version text when a version option was given, else the help
/// page.
pub open spec fn main_text(c: Command, args: Seq<Seq<char>>, t: Seq<char>) -> bool {
    match version_output(c.options@, args) {
        Some(v) => t == v,
        None => exists|d: Context| #[trigger] root_help_context(d, prog_name(c.name)) && t == join_seq(help_page(c, d), "\n"@),
    }
}

/// What running a command as a program gives: the command line is parsed into
/// a new root context; then the callback runs (without one, nothing fails);
/// a request for help or the version gives its text; any other error is the
/// result.
pub open spec fn command_main(c: Command, args: Seq<Seq<char>>, env: Map<Seq<char>, String>, r: Result<Option<String>, ClickError>) -> bool {
    exists|b: Context|
        #[trigger] root_context(b, c, prog_name(c.name), env) && {
            ||| (exists|x: Context| #[trigger] parse_args_ok(c, b, args, x, Ok(()))) && (r == Ok::<
                Option<String>,
                ClickError,
            >(None) || (c.callback is Some && r is Err))
            ||| (exists|x: Context| #[trigger] parse_args_ok(c, b, args, x, Err(ClickError::Exit { code: 0 })))
                && (r matches Ok(Some(t)) && main_text(c, args, t@))
            ||| exists|e: ClickError, x: Context|
                #[trigger] parse_args_ok(c, b, args, x, Err(e)) && e != (ClickError::Exit { code: 0 }) && r == Err::<
                    Option<String>,
                    ClickError,
                >(e)
        }
}

/// What making a command's context gives: a new context with the command's
/// parsing settings, with the command line parsed into it.
#[verifier::opaque]
pub open spec fn command_made(
    c: Command,
    info_name: Seq<char>,
    args: Seq<Seq<char>>,
    parent: Option<Context>,
    r: Result<Context, ClickError>,
) -> bool {
    exists|b: Context| #[trigger] fresh_context(b, c, info_name, parent) && parsed_into(c, b, args, r)
}

/// What making a group's context gives: a new context reading the
/// environment `env`, taking extra arguments and no interspersed ones, with the
/// group's own parameters parsed into it.
#[verifier::opaque]
pub open spec fn group_made(
    c: Command,
    info_name: Seq<char>,
    args: Seq<Seq<char>>,
    parent: Option<Context>,
    env: Map<Seq<char>, String>,
    r: Result<Context, ClickError>,
) -> bool {
    exists|b: Context| #[trigger] made_context(b, info_name, parent, true, false, false, env) && parsed_into(c, b, args, r)
}

/// Close a context when nothing else holds it.
fn close_shared(c: Arc<Context>) {
    match take_unique(c) {
        Some(mut x) => x.close(),
        None => {},
    }
}


// =============================================================================
// Commands
// =============================================================================

impl CommandLike for Command {
    open spec fn spec_name(&self) -> Option<Seq<char>> {
        opt_view(self.name)
    }

    open spec fn spec_hidden(&self) -> bool {
        self.hidden
    }

    open spec fn spec_short_help(&self) -> Seq<char> {
        Command::spec_short_help(self)
    }

    open spec fn spec_makes(
        &self,
        info_name: Seq<char>,
        args: Seq<Seq<char>>,
        parent: Option<Context>,
        r: Result<Context, ClickError>,
    ) -> bool {
        command_made(*self, info_name, args, parent, r)
    }

    open spec fn spec_runs(&self, ctx: Context, r: Result<(), ClickError>) -> bool {
        callback_runs(*self, ctx, r)
    }

    open spec fn spec_main(&self, args: Seq<Seq<char>>, env: Map<Seq<char>, String>, r: Result<Option<String>, ClickError>) -> bool {
        command_main(*self, args, env, r)
    }

    open spec fn spec_helps(&self, ctx: Context, r: Seq<char>) -> bool {
        r == join_seq(help_page(*self, ctx), "\n"@)
    }

    open spec fn spec_usage(&self, ctx: Context) -> Seq<char> {
        usage_of(*self, ctx)
    }

    fn name(&self) -> (r: Option<&str>) {
        match &self.name {
            Some(n) => Some(n.as_str()),
            None => None,
        }
    }

    fn make_context(&self, info_name: &str, args: Vec<String>, parent: Option<Arc<Context>>) -> (r: Result<
        Context,
        ClickError,
    >) {
        let ghost av = args.deep_view();
        let r = Command::make_context(self, info_name, args, parent);
        proof {
            reveal(command_made);
            let b = choose|b: Context|
                #[trigger] fresh_context(b, *self, info_name@, arc_view(parent)) && match r {
                    Ok(c) => parse_args_ok(*self, b, av, c, Ok(())),
                    Err(e) => exists|c1: Context| #[trigger] parse_args_ok(*self, b, av, c1, Err(e)),
                };
            assert(parsed_into(*self, b, av, r));
            assert(command_made(*self, info_name@, av, arc_view(parent), r));
            assert(CommandLike::spec_makes(self, info_name@, av, arc_view(parent), r));
        }
        r
    }

    fn invoke(&self, ctx: &Arc<Context>) -> (r: Result<(), ClickError>) {
        Command::invoke(self, &**ctx)
    }

    fn main_env(&self, args: Vec<String>, env: StrMap<String>) -> (r: Result<Option<String>, ClickError>) {
        let prog = prog_name_exec(&self.name);
        let ghost ev = env_for(Some(env), None);
        let ghost av = args.deep_view();
        let mut again: Vec<String> = Vec::new();
        let mut i: usize = 0;
        while i < args.len()
            invariant
                i <= args@.len(),
                av == args.deep_view(),
                again@.map_values(|x: String| x@) == av.take(i as int),
            decreases args@.len() - i,
        {
            let ghost before = again@.map_values(|x: String| x@);
            again.push(args[i].clone());
            assert(again@.map_values(|x: String| x@) =~= before.push(av[i as int]));
            assert(av.take(i + 1) =~= av.take(i as int).push(av[i as int]));
            i = i + 1;
        }
        assert(av.take(args@.len() as int) =~= av);
        let made = Command::make_context_env(self, prog.as_str(), args, None, Some(env));
        let ghost b = choose|b: Context|
            #[trigger] made_context(
                b,
                prog_name(self.name),
                None,
                self.allow_extra_args,
                self.allow_interspersed_args,
                self.ignore_unknown_options,
                ev,
            ) && match made {
                Ok(c) => parse_args_ok(*self, b, av, c, Ok(())),
                Err(e) => exists|c1: Context| #[trigger] parse_args_ok(*self, b, av, c1, Err(e)),
            };
        assert(root_context(b, *self, prog_name(self.name), ev));
        match made {
            Ok(ctx) => {
                assert(parse_args_ok(*self, b, av, ctx, Ok(())));
                let shared = Arc::new(ctx);
                let r = Command::invoke(self, &*shared);
                close_shared(shared);
                match r {
                    Ok(()) => Ok(None),
                    Err(e) => Err(e),
                }
            },
            Err(ClickError::Exit { code: 0 }) => {
                match self.get_version_output_from_args(again.as_slice()) {
                    Some(v) => Ok(Some(v)),
                    None => {
                        let ctx = ContextBuilder::new().info_name(prog.as_str()).build();
                        proof {
                            lemma_default_names_valid();
                        }
                        let t = self.get_help(&ctx);
                        assert(root_help_context(ctx, prog_name(self.name)));
                        Ok(Some(t))
                    },
                }
            },
            Err(e) => {
                proof {
                    let c1 = choose|c1: Context| #[trigger] parse_args_ok(*self, b, av, c1, Err(e));
                    assert(parse_args_ok(*self, b, av, c1, Err(e)));
                }
                Err(e)
            },
        }
    }

    fn get_help(&self, ctx: &Context) -> (r: String) {
        Command::get_help(self, ctx)
    }

    fn get_short_help(&self) -> (r: String) {
        Command::get_short_help(self)
    }

    fn is_hidden(&self) -> (r: bool) {
        self.hidden
    }

    fn get_usage(&self, ctx: &Context) -> (r: String) {
        Command::get_usage(self, ctx)
    }
}

// =============================================================================
// Groups
// =============================================================================

/// A command that dispatches to named subcommands.
pub struct Group {
    /// The group's own command: its options, arguments, help and callback.
    pub command: Command,
    /// The subcommands by the name they are registered under.
    pub commands: StrMap<Arc<AnyCommand>>,
    /// Names registered for one shared command have the same number.
    pub command_ids: StrMap<usize>,
    pub next_command_id: usize,
    /// Run several subcommands in a row.
    pub chain: bool,
    /// Run the group's callback when no subcommand is given.
    pub invoke_without_command: bool,
    pub result_callback: Option<Box<dyn ResultCallback>>,
    pub subcommand_required: bool,
    pub subcommand_metavar: String,
}

/// The subcommands a table of shared commands stands for.
pub open spec fn command_map(m: StrMap<Arc<AnyCommand>>) -> Map<Seq<char>, AnyCommand> {
    m.map().map_values(|a: Arc<AnyCommand>| *a)
}

/// The other names that share a command with `name`.
pub open spec fn alias_set(ids: Map<Seq<char>, usize>, name: Seq<char>) -> Set<Seq<char>> {
    Set::new(|n: Seq<char>| ids.contains_key(name) && ids.contains_key(n) && n != name && ids[n] == ids[name])
}

/// The aliases of `name` among the names `ks`.
pub open spec fn alias_within(ids: Map<Seq<char>, usize>, name: Seq<char>, ks: Seq<Seq<char>>) -> Set<Seq<char>> {
    Set::new(|n: Seq<char>| alias_set(ids, name).contains(n) && ks.contains(n))
}

/// What `Group::resolve_command` gives for a command line, looking names up in `m`.
pub open spec fn resolution(
    m: Map<Seq<char>, AnyCommand>,
    resilient: bool,
    args: Seq<Seq<char>>,
) -> Result<Option<(Seq<char>, AnyCommand, Seq<Seq<char>>)>, Seq<char>> {
    if args.len() == 0 {
        Ok(None)
    } else if m.contains_key(args[0]) {
        Ok(Some((args[0], m[args[0]], args.drop_first())))
    } else if resilient || seq_starts_with(args[0], "-"@) {
        Ok(None)
    } else {
        Err("No such command '"@ + args[0] + "'."@)
    }
}

/// The resolution as it is returned.
pub open spec fn resolved_as(
    r: Result<Option<(String, &AnyCommand, Vec<String>)>, ClickError>,
    s: Result<Option<(Seq<char>, AnyCommand, Seq<Seq<char>>)>, Seq<char>>,
) -> bool {
    match s {
        Ok(None) => r matches Ok(None),
        Ok(Some((n, c, rest))) => r matches Ok(Some((x, y, z))) && x@ == n && *y == c && z.deep_view() == rest,
        Err(m) => r matches Err(ClickError::UsageError { message: x, ctx: None }) && x@ == m,
    }
}

/// The visible names among `names`, in their order.
pub open spec fn visible(m: Map<Seq<char>, AnyCommand>, names: Seq<Seq<char>>) -> Seq<Seq<char>>
    decreases names.len(),
{
    if names.len() == 0 {
        seq![]
    } else {
        let rest = visible(m, names.drop_last());
        if m[names.last()].spec_hidden() {
            rest
        } else {
            rest.push(names.last())
        }
    }
}

/// The longest byte length among the names.
pub open spec fn max_blen(names: Seq<Seq<char>>) -> nat
    decreases names.len(),
{
    if names.len() == 0 {
        0
    } else {
        let m = max_blen(names.drop_last());
        if blen(names.last()) > m {
            blen(names.last())
        } else {
            m
        }
    }
}

/// A line of the commands section: the name padded to the widest name and two
/// spaces, then the short help.
pub open spec fn command_line(m: Map<Seq<char>, AnyCommand>, w: nat, n: Seq<char>) -> Seq<char> {
    "  "@ + n + repeat_seq(' ', (w - blen(n) + 2) as nat) + m[n].spec_short_help()
}

/// The commands section for the names (in order): empty when none is visible.
pub open spec fn commands_text(m: Map<Seq<char>, AnyCommand>, names: Seq<Seq<char>>) -> Seq<char> {
    let vis = visible(m, names);
    if vis.len() == 0 {
        seq![]
    } else {
        join_seq(
            seq!["Commands:"@] + vis.map_values(|n: Seq<char>| command_line(m, max_blen(vis), n)),
            "\n"@,
        )
    }
}

/// The names of a table, strictly sorted.
pub open spec fn sorted_names_of(r: Seq<Seq<char>>, s: Set<Seq<char>>) -> bool {
    strictly_sorted(r) && r.to_set() == s
}

/// The names in a string table, sorted, each once.
fn sorted_keys<V>(m: &StrMap<V>) -> (r: Vec<String>)
    requires
        m.wf(),
    ensures
        sorted_names_of(r.deep_view(), m.map().dom()),
{
    let mut out: Vec<String> = Vec::new();
    let mut i: usize = 0;
    assert(out.deep_view().to_set() =~= Set::<Seq<char>>::empty());
    while i < m.keys.len()
        invariant
            i <= m.keys@.len(),
            m.wf(),
            strictly_sorted(out.deep_view()),
            out.deep_view().to_set() == m.kv().take(i as int).to_set(),
        decreases m.keys@.len() - i,
    {
        insert_sorted(&mut out, m.keys[i].clone());
        assert(m.kv().take(i + 1) =~= m.kv().take(i as int).push(m.keys@[i as int]@));
        assert(m.kv().take(i + 1).to_set() =~= m.kv().take(i as int).to_set().insert(m.keys@[i as int]@)) by {
            m.kv().take(i as int).lemma_push_to_set_commute(m.keys@[i as int]@);
        }
        i = i + 1;
    }
    assert(m.kv().take(m.keys@.len() as int) =~= m.kv());
    proof {
        assert forall|k: Seq<char>| m.kv().to_set().contains(k) <==> m.map().dom().contains(k) by {
            crate::strmap::lemma_key_index_bounds(m.kv(), k);
            if m.kv().contains(k) {
                let j = choose|j: int| 0 <= j < m.kv().len() && m.kv()[j] == k;
                assert(m.kv()[j] == k);
            }
        }
        assert(m.kv().to_set() =~= m.map().dom());
    }
    out
}

impl Group {
    /// A builder for a group with the given name.
    pub fn new(name: &str) -> (r: GroupBuilder)
        ensures
            r.is_new_for(name@),
    {
        GroupBuilder::new(name)
    }

    pub open spec fn wf(&self) -> bool {
        self.commands.wf() && self.command_ids.wf()
    }

    pub fn is_wf(&self) -> (r: bool)
        ensures
            r == self.wf(),
    {
        self.commands.is_wf() && self.command_ids.is_wf()
    }

    /// The subcommands by name.
    pub open spec fn spec_commands(&self) -> Map<Seq<char>, AnyCommand> {
        command_map(self.commands)
    }

    /// Register a subcommand under `name`, or under its own name; a command
    /// without either is not registered.
    pub fn add_command<C: IntoCommand>(&mut self, cmd: C, name: Option<&str>)
        requires
            old(self).wf(),
            old(self).next_command_id < usize::MAX,
        ensures
            final(self).wf(),
            match name {
                Some(n) => final(self).spec_commands() == old(self).spec_commands().insert(n@, cmd.spec_into()),
                None => match cmd.spec_into().spec_name() {
                    Some(n) => final(self).spec_commands() == old(self).spec_commands().insert(n, cmd.spec_into()),
                    None => final(self).spec_commands() == old(self).spec_commands(),
                },
            },
    {
        let c = cmd.into_command();
        self.add_command_shared(Arc::new(c), name);
    }

    /// Register a shared subcommand under `name`, or under its own name; names
    /// given one shared command are each other's aliases.
    pub fn add_command_shared(&mut self, cmd: Arc<AnyCommand>, name: Option<&str>)
        requires
            old(self).wf(),
            old(self).next_command_id < usize::MAX,
        ensures
            final(self).wf(),
            match name {
                Some(n) => final(self).spec_commands() == old(self).spec_commands().insert(n@, *cmd)
                    && final(self).command_ids.map().dom() == old(self).command_ids.map().dom().insert(n@),
                None => match (*cmd).spec_name() {
                    Some(n) => final(self).spec_commands() == old(self).spec_commands().insert(n, *cmd)
                        && final(self).command_ids.map().dom() == old(self).command_ids.map().dom().insert(n),
                    None => final(self).spec_commands() == old(self).spec_commands() && final(self).command_ids
                        == old(self).command_ids,
                },
            },
            match (match name {
                Some(n) => Some(n@),
                None => (*cmd).spec_name(),
            }) {
                Some(k) => exists|id: usize|
                    final(self).command_ids.map() == old(self).command_ids.map().insert(k, id) && #[trigger] id_chosen(
                        old(self).commands,
                        old(self).command_ids.map(),
                        old(self).next_command_id,
                        *cmd,
                        id,
                        final(self).next_command_id,
                    ),
                None => true,
            },
    {
        let n: String = match name {
            Some(x) => str_of(x),
            None => match (*cmd).name() {
                Some(x) => str_of(x),
                None => {
                    return;
                },
            },
        };
        let id = self.id_for(&cmd);
        proof {
            assert(id_chosen(old(self).commands, old(self).command_ids.map(), old(self).next_command_id, *cmd, id, self.next_command_id));
        }
        self.command_ids.insert(n.clone(), id);
        self.commands.insert(n, cmd);
        proof {
            assert(self.spec_commands() =~= old(self).spec_commands().insert(n@, *cmd));
            assert(self.command_ids.map() == old(self).command_ids.map().insert(n@, id));
            assert(id_chosen(old(self).commands, old(self).command_ids.map(), old(self).next_command_id, *cmd, id, self.next_command_id));
        }
    }

    /// The number of a shared command already registered, or a new one.
    fn id_for(&mut self, cmd: &Arc<AnyCommand>) -> (r: usize)
        requires
            old(self).wf(),
            old(self).next_command_id < usize::MAX,
        ensures
            final(self).commands == old(self).commands,
            final(self).command_ids == old(self).command_ids,
            final(self).wf(),
            ({
                ||| final(self).next_command_id == old(self).next_command_id && exists|i: int|
                    0 <= i < old(self).commands.keys@.len() && *old(self).commands.vals@[i] == **cmd
                        && old(self).command_ids.map().contains_key(#[trigger] old(self).commands.keys@[i]@)
                        && old(self).command_ids.map()[old(self).commands.keys@[i]@] == r
                ||| r == old(self).next_command_id && final(self).next_command_id == old(self).next_command_id + 1
            }),
    {
        let mut i: usize = 0;
        while i < self.commands.keys.len()
            invariant
                self.wf(),
                *self == *old(self),
                i <= self.commands.keys@.len(),
                self.next_command_id < usize::MAX,
            decreases self.commands.keys@.len() - i,
        {
            if i < self.commands.vals.len() && same_allocation(self.commands.value_at(i), cmd) {
                match self.command_ids.get(self.commands.key_at(i).as_str()) {
                    Some(id) => {
                        return *id;
                    },
                    None => {},
                }
            }
            i = i + 1;
        }
        let id = self.next_command_id;
        self.next_command_id = self.next_command_id + 1;
        id
    }

    /// The subcommand registered under `name`.
    pub fn get_command(&self, name: &str) -> (r: Option<&AnyCommand>)
        requires
            self.wf(),
        ensures
            match r {
                Some(c) => self.spec_commands().contains_key(name@) && self.spec_commands()[name@] == *c,
                None => !self.spec_commands().contains_key(name@),
            },
    {
        match self.commands.get(name) {
            Some(c) => Some(&**c),
            None => None,
        }
    }

    /// The registered names, sorted.
    pub fn list_commands(&self) -> (r: Vec<String>)
        requires
            self.wf(),
        ensures
            sorted_names_of(r.deep_view(), self.spec_commands().dom()),
    {
        let r = sorted_keys(&self.commands);
        assert(self.spec_commands().dom() =~= self.commands.map().dom());
        r
    }

    /// The registered names with their commands, sorted by name.
    pub fn list_command_entries(&self) -> (r: Vec<(String, &AnyCommand)>)
        requires
            self.wf(),
        ensures
            sorted_names_of(r@.map_values(|e: (String, &AnyCommand)| e.0@), self.spec_commands().dom()),
            forall|k: int| 0 <= k < r@.len() ==> self.spec_commands()[(#[trigger] r@[k]).0@] == *r@[k].1,
    {
        let names = self.list_commands();
        let mut out: Vec<(String, &AnyCommand)> = Vec::new();
        let mut i: usize = 0;
        while i < names.len()
            invariant
                self.wf(),
                i <= names@.len(),
                sorted_names_of(names.deep_view(), self.spec_commands().dom()),
                out@.map_values(|e: (String, &AnyCommand)| e.0@) == names.deep_view().take(i as int),
                forall|k: int| 0 <= k < out@.len() ==> self.spec_commands()[(#[trigger] out@[k]).0@] == *out@[k].1,
            decreases names@.len() - i,
        {
            assert(names.deep_view().to_set().contains(names.deep_view()[i as int]));
            match self.get_command(names[i].as_str()) {
                Some(c) => {
                    let ghost o = out@.map_values(|e: (String, &AnyCommand)| e.0@);
                    out.push((names[i].clone(), c));
                    assert(out@.map_values(|e: (String, &AnyCommand)| e.0@) =~= o.push(names@[i as int]@));
                    assert(names.deep_view().take(i + 1) =~= names.deep_view().take(i as int).push(names@[i as int]@));
                },
                None => {
                    assert(false);
                },
            }
            i = i + 1;
        }
        assert(names.deep_view().take(names@.len() as int) =~= names.deep_view());
        out
    }

    /// The other names registered for the command under `name`, sorted.
    pub fn list_command_aliases(&self, name: &str) -> (r: Vec<String>)
        requires
            self.wf(),
        ensures
            sorted_names_of(r.deep_view(), alias_set(self.command_ids.map(), name@)),
    {
        let mut out: Vec<String> = Vec::new();
        let id = match self.command_ids.get(name) {
            Some(x) => *x,
            None => {
                assert(out.deep_view().to_set() =~= alias_set(self.command_ids.map(), name@));
                return out;
            },
        };
        let ghost ids = self.command_ids.map();
        let ghost kv = self.command_ids.kv();
        let mut i: usize = 0;
        assert(out.deep_view().to_set() =~= Set::<Seq<char>>::empty());
        while i < self.command_ids.keys.len()
            invariant
                self.wf(),
                ids == self.command_ids.map(),
                kv == self.command_ids.kv(),
                ids.contains_key(name@) && ids[name@] == id,
                i <= kv.len(),
                strictly_sorted(out.deep_view()),
                out.deep_view().to_set() == alias_within(ids, name@, kv.take(i as int)),
            decreases kv.len() - i,
        {
            let k = self.command_ids.key_at(i);
            let ghost before = out.deep_view().to_set();
            let ghost kk = k@;
            proof {
                assert(kv[i as int] == kk);
                crate::strmap::lemma_key_index_bounds(kv, kk);
                assert(kv.contains(kk));
                assert(ids.contains_key(kk));
            }
            let mut added = false;
            if !crate::text::str_eq(k.as_str(), name) {
                match self.command_ids.get(k.as_str()) {
                    Some(v) => {
                        if *v == id {
                            insert_sorted(&mut out, k.clone());
                            added = true;
                        }
                    },
                    None => {},
                }
            }
            proof {
                assert(added == alias_set(ids, name@).contains(kk));
                assert(added ==> out.deep_view().to_set() == before.insert(kk));
                assert(!added ==> out.deep_view().to_set() == before);
                assert forall|n: Seq<char>| kv.take(i + 1).contains(n) <==> (kv.take(i as int).contains(n) || n == kk) by {
                    if kv.take(i + 1).contains(n) {
                        let j = choose|j: int| 0 <= j < i + 1 && #[trigger] kv.take(i + 1)[j] == n;
                        if j < i {
                            assert(kv.take(i as int)[j] == n);
                        }
                    }
                    if kv.take(i as int).contains(n) {
                        let j = choose|j: int| 0 <= j < i && #[trigger] kv.take(i as int)[j] == n;
                        assert(kv.take(i + 1)[j] == n);
                    }
                    if n == kk {
                        assert(kv.take(i + 1)[i as int] == n);
                    }
                }
                assert forall|n: Seq<char>| out.deep_view().to_set().contains(n) <==> alias_within(ids, name@, kv.take(i + 1)).contains(n) by {
                    assert(before.contains(n) <==> alias_within(ids, name@, kv.take(i as int)).contains(n));
                    assert(alias_within(ids, name@, kv.take(i as int)).contains(n) <==> (alias_set(ids, name@).contains(n) && kv.take(i as int).contains(n)));
                    assert(alias_within(ids, name@, kv.take(i + 1)).contains(n) <==> (alias_set(ids, name@).contains(n) && kv.take(i + 1).contains(n)));
                }
                assert(out.deep_view().to_set() =~= alias_within(ids, name@, kv.take(i + 1)));
            }
            i = i + 1;
        }
        proof {
            assert(kv.take(kv.len() as int) =~= kv);
            assert forall|n: Seq<char>| alias_set(ids, name@).contains(n) implies kv.contains(n) by {
                crate::strmap::lemma_key_index_bounds(kv, n);
            }
            assert(alias_within(ids, name@, kv) =~= alias_set(ids, name@));
        }
        out
    }
}


/// The number a name may get when the shared command `cmd` is registered
/// (`next2` being the counter after): a new one, or the number of a name
/// already bound to that command. Which of the two is decided by whether the
/// very same allocation is registered already, which these values do not show.
pub open spec fn id_chosen(
    cmds: StrMap<Arc<AnyCommand>>,
    ids: Map<Seq<char>, usize>,
    next: usize,
    cmd: AnyCommand,
    id: usize,
    next2: usize,
) -> bool {
    ||| id == next && next2 == next + 1
    ||| next2 == next && exists|i: int|
        0 <= i < cmds.keys@.len() && *cmds.vals@[i] == cmd && ids.contains_key(#[trigger] cmds.keys@[i]@) && ids[cmds.keys@[i]@]
            == id
}

/// Register a shared command under a name: the name gets the number of the
/// command when it is registered already, or a new one.
fn register(
    commands: &mut StrMap<Arc<AnyCommand>>,
    ids: &mut StrMap<usize>,
    next: &mut usize,
    cmd: Arc<AnyCommand>,
    name: String,
)
    requires
        old(commands).wf(),
        old(ids).wf(),
        *old(next) < usize::MAX,
    ensures
        final(commands).wf(),
        final(ids).wf(),
        command_map(*final(commands)) == command_map(*old(commands)).insert(name@, *cmd),
        final(ids).map().dom() == old(ids).map().dom().insert(name@),
        *final(next) <= *old(next) + 1,
        exists|id: usize|
            final(ids).map() == old(ids).map().insert(name@, id) && #[trigger] id_chosen(
                *old(commands),
                old(ids).map(),
                *old(next),
                *cmd,
                id,
                *final(next),
            ),
{
    let mut found: Option<usize> = None;
    let mut i: usize = 0;
    while i < commands.keys.len()
        invariant_except_break
            found is None,
        invariant
            commands.wf(),
            ids.wf(),
            *commands == *old(commands),
            *ids == *old(ids),
            i <= commands.keys@.len(),
        ensures
            *commands == *old(commands),
            *ids == *old(ids),
            found matches Some(x) ==> exists|j: int|
                0 <= j < commands.keys@.len() && *commands.vals@[j] == *cmd && ids.map().contains_key(
                    #[trigger] commands.keys@[j]@,
                ) && ids.map()[commands.keys@[j]@] == x,
        decreases commands.keys@.len() - i,
    {
        if same_allocation(commands.value_at(i), &cmd) {
            match ids.get(commands.key_at(i).as_str()) {
                Some(id) => {
                    found = Some(*id);
                    assert(ids.map().contains_key(commands.keys@[i as int]@));
                    break;
                },
                None => {},
            }
        }
        i = i + 1;
    }
    let id = match found {
        Some(x) => x,
        None => {
            let x = *next;
            *next = *next + 1;
            x
        },
    };
    proof {
        assert(id_chosen(*old(commands), old(ids).map(), *old(next), *cmd, id, *next));
    }
    ids.insert(name.clone(), id);
    let ghost n = name@;
    let ghost ca = cmd;
    commands.insert(name, cmd);
    assert(command_map(*commands) =~= command_map(*old(commands)).insert(n, *ca));
    assert(ids.map().dom() =~= old(ids).map().dom().insert(n));
}

/// A builder for a group.
pub struct GroupBuilder {
    pub name: String,
    pub callback: Option<Box<dyn CommandCallback>>,
    pub options: Vec<ClickOption>,
    pub arguments: Vec<Argument>,
    pub help: Option<String>,
    pub epilog: Option<String>,
    pub short_help: Option<String>,
    pub hidden: bool,
    pub deprecated: Option<String>,
    pub commands: StrMap<Arc<AnyCommand>>,
    pub command_ids: StrMap<usize>,
    pub next_command_id: usize,
    pub chain: bool,
    pub invoke_without_command: bool,
    pub result_callback: Option<Box<dyn ResultCallback>>,
    pub subcommand_required: Option<bool>,
    pub subcommand_metavar: Option<String>,
    pub add_help_option: bool,
    pub help_option: Option<ClickOption>,
    pub no_args_is_help: Option<bool>,
}

/// The placeholder for subcommands in usage.
pub open spec fn default_subcommand_metavar(chain: bool) -> Seq<char> {
    if chain {
        "COMMAND1 [ARGS]... [COMMAND2 [ARGS]...]..."@
    } else {
        "COMMAND [ARGS]..."@
    }
}

fn default_subcommand_metavar_exec(chain: bool) -> (r: String)
    ensures
        r@ == default_subcommand_metavar(chain),
{
    proof {
        reveal_strlit("COMMAND1 [ARGS]... [COMMAND2 [ARGS]...]...");
        reveal_strlit("COMMAND [ARGS]...");
    }
    if chain {
        str_of("COMMAND1 [ARGS]... [COMMAND2 [ARGS]...]...")
    } else {
        str_of("COMMAND [ARGS]...")
    }
}

impl GroupBuilder {
    /// A fresh builder: no parameters, no subcommands, a help option.
    pub open spec fn is_new_for(self, name: Seq<char>) -> bool {
        &&& self.name@ == name
        &&& self.callback is None && self.options@.len() == 0 && self.arguments@.len() == 0
        &&& self.help is None && self.epilog is None && self.short_help is None && !self.hidden && self.deprecated is None
        &&& self.commands.wf() && command_map(self.commands) == Map::<Seq<char>, AnyCommand>::empty()
        &&& self.command_ids.wf() && self.command_ids.map() == Map::<Seq<char>, usize>::empty() && self.next_command_id == 0
        &&& !self.chain && !self.invoke_without_command && self.result_callback is None
        &&& self.subcommand_required is None && self.subcommand_metavar is None
        &&& self.add_help_option && self.help_option is None && self.no_args_is_help is None
    }

    pub fn new(name: &str) -> (r: Self)
        ensures
            r.is_new_for(name@),
    {
        let commands: StrMap<Arc<AnyCommand>> = StrMap::new();
        assert(command_map(commands) =~= Map::<Seq<char>, AnyCommand>::empty());
        GroupBuilder {
            name: str_of(name),
            callback: None,
            options: Vec::new(),
            arguments: Vec::new(),
            help: None,
            epilog: None,
            short_help: None,
            hidden: false,
            deprecated: None,
            commands,
            command_ids: StrMap::new(),
            next_command_id: 0,
            chain: false,
            invoke_without_command: false,
            result_callback: None,
            subcommand_required: None,
            subcommand_metavar: None,
            add_help_option: true,
            help_option: None,
            no_args_is_help: None,
        }
    }

    /// The callback, run before a subcommand (or alone without one when asked).
    pub fn callback<F: Fn(&Context) -> Result<(), ClickError> + 'static>(self, f: F) -> (r: Self)
        ensures
            r.callback is Some,
            r == (GroupBuilder { callback: r.callback, ..self }),
    {
        let mut s = self;
        s.callback = Some(Box::new(f));
        s
    }

    pub fn option(self, opt: ClickOption) -> (r: Self)
        ensures
            r.options@ == self.options@.push(opt),
            r == (GroupBuilder { options: r.options, ..self }),
    {
        let mut s = self;
        s.options.push(opt);
        s
    }

    pub fn argument(self, arg: Argument) -> (r: Self)
        ensures
            r.arguments@ == self.arguments@.push(arg),
            r == (GroupBuilder { arguments: r.arguments, ..self }),
    {
        let mut s = self;
        s.arguments.push(arg);
        s
    }

    pub fn help(self, help: &str) -> (r: Self)
        ensures
            opt_view(r.help) == Some(help@),
            r == (GroupBuilder { help: r.help, ..self }),
    {
        let mut s = self;
        s.help = Some(str_of(help));
        s
    }

    pub fn epilog(self, epilog: &str) -> (r: Self)
        ensures
            opt_view(r.epilog) == Some(epilog@),
            r == (GroupBuilder { epilog: r.epilog, ..self }),
    {
        let mut s = self;
        s.epilog = Some(str_of(epilog));
        s
    }

    pub fn short_help(self, short_help: &str) -> (r: Self)
        ensures
            opt_view(r.short_help) == Some(short_help@),
            r == (GroupBuilder { short_help: r.short_help, ..self }),
    {
        let mut s = self;
        s.short_help = Some(str_of(short_help));
        s
    }

    pub fn hidden(self) -> (r: Self)
        ensures
            r == (GroupBuilder { hidden: true, ..self }),
    {
        let mut s = self;
        s.hidden = true;
        s
    }

    pub fn deprecated(self, message: &str) -> (r: Self)
        ensures
            opt_view(r.deprecated) == Some(message@),
            r == (GroupBuilder { deprecated: r.deprecated, ..self }),
    {
        let mut s = self;
        s.deprecated = Some(str_of(message));
        s
    }

    pub fn add_help_option(self, add: bool) -> (r: Self)
        ensures
            r == (GroupBuilder { add_help_option: add, ..self }),
    {
        let mut s = self;
        s.add_help_option = add;
        s
    }

    /// A help option of one's own; it switches the help option on.
    pub fn help_option(self, opt: ClickOption) -> (r: Self)
        ensures
            r == (GroupBuilder { add_help_option: true, help_option: Some(opt), ..self }),
    {
        let mut s = self;
        s.add_help_option = true;
        s.help_option = Some(opt);
        s
    }

    pub fn no_args_is_help(self, value: bool) -> (r: Self)
        ensures
            r == (GroupBuilder { no_args_is_help: Some(value), ..self }),
    {
        let mut s = self;
        s.no_args_is_help = Some(value);
        s
    }

    /// Register a subcommand under its own name (one without a name is left out).
    pub fn command<C: IntoCommand>(self, cmd: C) -> (r: Self)
        requires
            self.commands.wf(),
            self.command_ids.wf(),
            self.next_command_id < usize::MAX,
        ensures
            r.commands.wf() && r.command_ids.wf(),
            r.next_command_id <= self.next_command_id + 1,
            match cmd.spec_into().spec_name() {
                Some(n) => command_map(r.commands) == command_map(self.commands).insert(n, cmd.spec_into()),
                None => command_map(r.commands) == command_map(self.commands),
            },
    {
        self.command_shared(Arc::new(cmd.into_command()))
    }

    /// Register a subcommand under the given name.
    pub fn command_with_name<C: IntoCommand>(self, name: &str, cmd: C) -> (r: Self)
        requires
            self.commands.wf(),
            self.command_ids.wf(),
            self.next_command_id < usize::MAX,
        ensures
            r.commands.wf() && r.command_ids.wf(),
            r.next_command_id <= self.next_command_id + 1,
            command_map(r.commands) == command_map(self.commands).insert(name@, cmd.spec_into()),
    {
        self.command_shared_with_name(name, Arc::new(cmd.into_command()))
    }

    /// Register a shared subcommand under its own name.
    pub fn command_shared(self, cmd: Arc<AnyCommand>) -> (r: Self)
        requires
            self.commands.wf(),
            self.command_ids.wf(),
            self.next_command_id < usize::MAX,
        ensures
            r.commands.wf() && r.command_ids.wf(),
            r.next_command_id <= self.next_command_id + 1,
            match (*cmd).spec_name() {
                Some(n) => command_map(r.commands) == command_map(self.commands).insert(n, *cmd),
                None => command_map(r.commands) == command_map(self.commands),
            },
    {
        let n = match (*cmd).name() {
            Some(x) => str_of(x),
            None => {
                return self;
            },
        };
        self.command_shared_with_name(n.as_str(), cmd)
    }

    /// Register a shared subcommand under the given name; names given one shared
    /// command are each other's aliases.
    pub fn command_shared_with_name(self, name: &str, cmd: Arc<AnyCommand>) -> (r: Self)
        requires
            self.commands.wf(),
            self.command_ids.wf(),
            self.next_command_id < usize::MAX,
        ensures
            r.commands.wf() && r.command_ids.wf(),
            r.next_command_id <= self.next_command_id + 1,
            command_map(r.commands) == command_map(self.commands).insert(name@, *cmd),
            r.command_ids.map().dom() == self.command_ids.map().dom().insert(name@),
            exists|id: usize|
                r.command_ids.map() == self.command_ids.map().insert(name@, id) && #[trigger] id_chosen(
                    self.commands,
                    self.command_ids.map(),
                    self.next_command_id,
                    *cmd,
                    id,
                    r.next_command_id,
                ),
    {
        let mut s = self;
        let ghost c0 = s.commands;
        let ghost i0 = s.command_ids.map();
        let ghost n0 = s.next_command_id;
        let ghost ca = cmd;
        register(&mut s.commands, &mut s.command_ids, &mut s.next_command_id, cmd, str_of(name));
        proof {
            let id = choose|id: usize|
                s.command_ids.map() == i0.insert(name@, id) && #[trigger] id_chosen(c0, i0, n0, *ca, id, s.next_command_id);
            assert(id_chosen(self.commands, self.command_ids.map(), self.next_command_id, *cmd, id, s.next_command_id));
        }
        s
    }

    /// Run several subcommands in a row; the placeholder says so.
    pub fn chain(self, chain: bool) -> (r: Self)
        ensures
            r.chain == chain,
            chain ==> opt_view(r.subcommand_metavar) == Some(default_subcommand_metavar(true)),
            !chain ==> r.subcommand_metavar == self.subcommand_metavar,
            r == (GroupBuilder { chain: r.chain, subcommand_metavar: r.subcommand_metavar, ..self }),
    {
        let mut s = self;
        s.chain = chain;
        if chain {
            s.subcommand_metavar = Some(default_subcommand_metavar_exec(true));
        }
        s
    }

    pub fn invoke_without_command(self, value: bool) -> (r: Self)
        ensures
            r == (GroupBuilder { invoke_without_command: value, ..self }),
    {
        let mut s = self;
        s.invoke_without_command = value;
        s
    }

    pub fn subcommand_required(self, required: bool) -> (r: Self)
        ensures
            r == (GroupBuilder { subcommand_required: Some(required), ..self }),
    {
        let mut s = self;
        s.subcommand_required = Some(required);
        s
    }

    pub fn subcommand_metavar(self, metavar: &str) -> (r: Self)
        ensures
            opt_view(r.subcommand_metavar) == Some(metavar@),
            r == (GroupBuilder { subcommand_metavar: r.subcommand_metavar, ..self }),
    {
        let mut s = self;
        s.subcommand_metavar = Some(str_of(metavar));
        s
    }

    /// What is called with the results of the subcommands.
    pub fn result_callback<F: Fn(&Context, Vec<()>) -> Result<(), ClickError> + 'static>(self, f: F) -> (r: Self)
        ensures
            r.result_callback is Some,
            r == (GroupBuilder { result_callback: r.result_callback, ..self }),
    {
        let mut s = self;
        s.result_callback = Some(Box::new(f));
        s
    }

    /// Build the group: it takes extra arguments (for its subcommands) and no
    /// interspersed ones; without a subcommand it shows help and requires one,
    /// unless it runs without one.
    pub fn build(self) -> (r: Group)
        ensures
            r.commands == self.commands && r.command_ids == self.command_ids,
            r.next_command_id == self.next_command_id,
            r.chain == self.chain && r.invoke_without_command == self.invoke_without_command,
            r.result_callback == self.result_callback,
            r.subcommand_required == match self.subcommand_required {
                Some(b) => b,
                None => !self.invoke_without_command,
            },
            r.subcommand_metavar@ == match self.subcommand_metavar {
                Some(m) => m@,
                None => default_subcommand_metavar(self.chain),
            },
            opt_view(r.command.name) == Some(self.name@),
            r.command.callback == self.callback,
            r.command.options == self.options && r.command.arguments == self.arguments,
            r.command.help == self.help && r.command.epilog == self.epilog && r.command.short_help == self.short_help,
            r.command.hidden == self.hidden && r.command.deprecated == self.deprecated,
            r.command.options_metavar@ == "[OPTIONS]"@,
            r.command.add_help_option == (self.add_help_option || self.help_option is Some),
            r.command.help_option == self.help_option,
            r.command.no_args_is_help == match self.no_args_is_help {
                Some(b) => b,
                None => !self.invoke_without_command,
            },
            r.command.allow_extra_args && !r.command.allow_interspersed_args && !r.command.ignore_unknown_options,
    {
        let s = self;
        let no_args_is_help = match s.no_args_is_help {
            Some(b) => b,
            None => !s.invoke_without_command,
        };
        let subcommand_required = match s.subcommand_required {
            Some(b) => b,
            None => !s.invoke_without_command,
        };
        let subcommand_metavar = match s.subcommand_metavar {
            Some(m) => m,
            None => default_subcommand_metavar_exec(s.chain),
        };
        let mut cb = CommandBuilder::new(s.name.as_str());
        cb.allow_extra_args = true;
        cb.allow_interspersed_args = false;
        cb.add_help_option = s.add_help_option || s.help_option.is_some();
        cb.no_args_is_help = no_args_is_help;
        cb.help_option = s.help_option;
        cb.options = s.options;
        cb.arguments = s.arguments;
        cb.help = s.help;
        cb.epilog = s.epilog;
        cb.short_help = s.short_help;
        cb.hidden = s.hidden;
        cb.deprecated = s.deprecated;
        cb.callback = s.callback;
        let command = cb.build();
        Group {
            command,
            commands: s.commands,
            command_ids: s.command_ids,
            next_command_id: s.next_command_id,
            chain: s.chain,
            invoke_without_command: s.invoke_without_command,
            result_callback: s.result_callback,
            subcommand_required,
            subcommand_metavar,
        }
    }
}


// =============================================================================
// Dispatching to subcommands
// =============================================================================

/// Where subcommands are looked up, and the group whose settings apply.
pub trait Dispatch {
    spec fn spec_table(&self) -> Map<Seq<char>, AnyCommand>;

    spec fn spec_base(&self) -> Group;

    spec fn dispatch_wf(&self) -> bool;

    fn lookup(&self, name: &str) -> (r: Option<&AnyCommand>)
        requires
            self.dispatch_wf(),
        ensures
            match r {
                Some(c) => self.spec_table().contains_key(name@) && self.spec_table()[name@] == *c,
                None => !self.spec_table().contains_key(name@),
            },
    ;

    fn base(&self) -> (r: &Group)
        ensures
            *r == self.spec_base(),
    ;

    /// The names that can be looked up, sorted.
    fn names(&self) -> (r: Vec<String>)
        requires
            self.dispatch_wf(),
        ensures
            sorted_names_of(r.deep_view(), self.spec_table().dom()),
    ;
}

impl Dispatch for Group {
    open spec fn spec_table(&self) -> Map<Seq<char>, AnyCommand> {
        self.spec_commands()
    }

    open spec fn spec_base(&self) -> Group {
        *self
    }

    open spec fn dispatch_wf(&self) -> bool {
        self.wf()
    }

    fn lookup(&self, name: &str) -> (r: Option<&AnyCommand>) {
        self.get_command(name)
    }

    fn base(&self) -> (r: &Group) {
        self
    }

    fn names(&self) -> (r: Vec<String>) {
        self.list_commands()
    }
}

/// Resolve the first argument to a subcommand: the rest of the arguments go to
/// it; an unknown name is an error unless parsing is resilient or it looks like
/// an option.
fn resolve_in<'a, D: Dispatch>(d: &'a D, ctx: &Context, args: &[String]) -> (r: Result<
    Option<(String, &'a AnyCommand, Vec<String>)>,
    ClickError,
>)
    requires
        d.dispatch_wf(),
    ensures
        resolved_as(r, resolution(d.spec_table(), ctx.spec_resilient_parsing(), args@.map_values(|x: String| x@))),
{
    let ghost av = args@.map_values(|x: String| x@);
    if args.len() == 0 {
        return Ok(None);
    }
    let first = args[0].as_str();
    match d.lookup(first) {
        Some(c) => {
            let mut rest: Vec<String> = Vec::new();
            let mut i: usize = 1;
            while i < args.len()
                invariant
                    1 <= i <= args@.len(),
                    av == args@.map_values(|x: String| x@),
                    rest.deep_view() == av.subrange(1, i as int),
                decreases args@.len() - i,
            {
                let ghost od = rest.deep_view();
                rest.push(args[i].clone());
                assert(rest.deep_view() =~= od.push(av[i as int]));
                assert(av.subrange(1, i + 1) =~= av.subrange(1, i as int).push(av[i as int]));
                i = i + 1;
            }
            assert(av.subrange(1, av.len() as int) =~= av.drop_first());
            Ok(Some((args[0].clone(), c, rest)))
        },
        None => {
            proof {
                reveal_strlit("-");
            }
            if ctx.resilient_parsing() || crate::text::starts_with(first, "-") {
                return Ok(None);
            }
            proof {
                reveal_strlit("No such command '");
                reveal_strlit("'.");
            }
            Err(ClickError::usage(cat3("No such command '", first, "'.")))
        },
    }
}

/// The commands section for the sorted names of a table.
fn format_in<D: Dispatch>(d: &D) -> (r: String)
    requires
        d.dispatch_wf(),
    ensures
        exists|names: Seq<Seq<char>>| #[trigger] sorted_names_of(names, d.spec_table().dom()) && r@ == commands_text(d.spec_table(), names),
{
    let names = d.names();
    let ghost nv = names.deep_view();
    let ghost m = d.spec_table();
    let mut vis: Vec<String> = Vec::new();
    let mut helps: Vec<String> = Vec::new();
    let mut width: usize = 0;
    let mut i: usize = 0;
    while i < names.len()
        invariant
            d.dispatch_wf(),
            m == d.spec_table(),
            nv == names.deep_view(),
            sorted_names_of(nv, m.dom()),
            i <= nv.len(),
            vis.deep_view() == visible(m, nv.take(i as int)),
            helps@.len() == vis@.len(),
            forall|k: int| 0 <= k < vis@.len() ==> (#[trigger] helps@[k])@ == m[vis@[k]@].spec_short_help(),
            width == max_blen(vis.deep_view()),
        decreases nv.len() - i,
    {
        assert(nv.take(i + 1).drop_last() =~= nv.take(i as int));
        assert(nv.take(i + 1).last() == nv[i as int]);
        assert(nv.to_set().contains(nv[i as int]));
        let n = names[i].as_str();
        match d.lookup(n) {
            Some(c) => {
                if !c.is_hidden() {
                    let ghost od = vis.deep_view();
                    vis.push(str_of(n));
                    helps.push(c.get_short_help());
                    assert(vis.deep_view() =~= od.push(n@));
                    assert(vis.deep_view().drop_last() =~= od);
                    let b = utf8_len(n);
                    if b > width {
                        width = b;
                    }
                }
            },
            None => {
                assert(false);
            },
        }
        i = i + 1;
    }
    assert(nv.take(nv.len() as int) =~= nv);
    let ghost vv = vis.deep_view();
    if vis.len() == 0 {
        assert(commands_text(m, nv) =~= Seq::<char>::empty());
        return String::new();
    }
    proof {
        lemma_max_blen(vv);
    }
    let mut lines: Vec<String> = Vec::new();
    lines.push(str_of("Commands:"));
    let mut k: usize = 0;
    while k < vis.len()
        invariant
            k <= vv.len(),
            vv == vis.deep_view(),
            helps@.len() == vis@.len(),
            forall|j: int| 0 <= j < vis@.len() ==> (#[trigger] helps@[j])@ == m[vis@[j]@].spec_short_help(),
            width == max_blen(vv),
            forall|j: int| 0 <= j < vv.len() ==> blen(#[trigger] vv[j]) <= max_blen(vv),
            lines.deep_view() == seq!["Commands:"@] + vv.take(k as int).map_values(|n: Seq<char>| command_line(m, max_blen(vv), n)),
        decreases vv.len() - k,
    {
        let n = vis[k].as_str();
        let b = utf8_len(n);
        assert(blen(vv[k as int]) <= width);
        let pad = repeat_char(' ', width - b);
        let mut line = crate::text::cat4("  ", n, pad.as_str(), "  ");
        crate::text::push_str(&mut line, helps[k].as_str());
        proof {
            reveal_strlit("  ");
            assert(repeat_seq(' ', (width - b + 2) as nat) =~= repeat_seq(' ', (width - b) as nat) + "  "@);
            assert(line@ =~= command_line(m, max_blen(vv), vv[k as int]));
        }
        let ghost od = lines.deep_view();
        lines.push(line);
        assert(lines.deep_view() =~= od.push(command_line(m, max_blen(vv), vv[k as int])));
        assert(vv.take(k + 1).map_values(|n: Seq<char>| command_line(m, max_blen(vv), n)) =~= vv.take(k as int).map_values(
            |n: Seq<char>| command_line(m, max_blen(vv), n),
        ).push(command_line(m, max_blen(vv), vv[k as int])));
        k = k + 1;
    }
    assert(vv.take(vv.len() as int) =~= vv);
    proof {
        reveal_strlit("Commands:");
        reveal_strlit("\n");
    }
    let r = join(&lines, "\n");
    assert(r@ == commands_text(m, nv));
    r
}

proof fn lemma_max_blen(names: Seq<Seq<char>>)
    ensures
        forall|j: int| 0 <= j < names.len() ==> blen(#[trigger] names[j]) <= max_blen(names),
    decreases names.len(),
{
    if names.len() > 0 {
        lemma_max_blen(names.drop_last());
        assert forall|j: int| 0 <= j < names.len() implies blen(#[trigger] names[j]) <= max_blen(names) by {
            if j < names.len() - 1 {
                assert(names.drop_last()[j] == names[j]);
            }
        }
    }
}

/// What calling the group's result callback (if it has one) with `results` in
/// `ctx` may give: without one, success.
pub open spec fn results_passed(g: Group, ctx: Context, results: Seq<()>, r: Result<(), ClickError>) -> bool {
    match g.result_callback {
        Some(cb) => cb.spec_returns(ctx, results, r),
        None => r is Ok,
    }
}

/// Call the result callback, if there is one.
fn process_result(g: &Group, ctx: &Context, results: Vec<()>) -> (r: Result<(), ClickError>)
    ensures
        results_passed(*g, *ctx, results@, r),
{
    match &g.result_callback {
        Some(cb) => cb.call(ctx, results),
        None => Ok(()),
    }
}

/// What making the context of a chained subcommand `cmd`, named `name`, for
/// the words `rest` under the group's context `parent` may give: a command is
/// parsed taking extra arguments and no interspersed ones; a group or a
/// collection makes its own context.
pub open spec fn chained_made(
    cmd: AnyCommand,
    name: Seq<char>,
    rest: Seq<Seq<char>>,
    parent: Context,
    r: Result<Context, ClickError>,
) -> bool {
    &&& r matches Ok(c) ==> c.wf()
    &&& match cmd {
        AnyCommand::Command(c) => group_made(c, name, rest, Some(parent), inherited_env(Some(parent)), r),
        _ => cmd.spec_makes(name, rest, Some(parent), r),
    }
}

/// A success carries nothing: it is `Ok(())`.
proof fn lemma_ok_unit(a: Result<(), ClickError>)
    requires
        a is Ok,
    ensures
        a == Ok::<(), ClickError>(()),
{
    let u: () = a->Ok_0;
    assert(u == ());
}

/// As many units as `n`: what the result callback gets, one per subcommand run.
pub open spec fn units(n: nat) -> Seq<()> {
    Seq::new(n, |i: int| ())
}

/// The subcommands a chain collected, each with its name, the words it was
/// parsed from and its context: the first is `(name, cmd, rest)`, and each
/// next one is what the extra words of the one before resolve to.
pub open spec fn chain_links<D: Dispatch>(
    d: D,
    ctx: Context,
    subs: Seq<(Seq<char>, AnyCommand, Seq<Seq<char>>, Context)>,
) -> bool {
    &&& forall|k: int| 0 <= k < subs.len() ==> chained_made(#[trigger] subs[k].1, subs[k].0, subs[k].2, ctx, Ok(subs[k].3))
    &&& forall|k: int|
        1 <= k < subs.len() ==> resolution(d.spec_table(), ctx.spec_resilient_parsing(), subs[k - 1].3.spec_args()) == Ok::<
            Option<(Seq<char>, AnyCommand, Seq<Seq<char>>)>,
            Seq<char>,
        >(Some((#[trigger] subs[k].0, subs[k].1, subs[k].2)))
}

/// Collecting the next subcommand of a chain from the words `rem` fails with `e`:
/// the first word names no command, or its context cannot be made, or it is an
/// unknown option.
pub open spec fn collect_error<D: Dispatch>(d: D, ctx: Context, rem: Seq<Seq<char>>, e: ClickError) -> bool {
    match resolution(d.spec_table(), ctx.spec_resilient_parsing(), rem) {
        Err(m) => e matches ClickError::UsageError { message: x, ctx: None } && x@ == m,
        Ok(Some((n, c, rest))) => chained_made(c, n, rest, ctx, Err(e)),
        Ok(None) => rem.len() > 0 && seq_starts_with(rem[0], "-"@) && !ctx.spec_resilient_parsing() && (
        e matches ClickError::UsageError { message: x, ctx: None } && x@ == "No such option: "@ + rem[0]),
    }
}

/// Collecting a chain ends after the context `last`: no words are left, or
/// they name no further command (and are no option), or there are more
/// subcommands than the group had words.
pub open spec fn collect_done<D: Dispatch>(d: D, ctx: Context, last: Context, count: nat) -> bool {
    let rem = last.spec_args();
    ||| rem.len() == 0
    ||| resolution(d.spec_table(), ctx.spec_resilient_parsing(), rem) is Ok && resolution(
        d.spec_table(),
        ctx.spec_resilient_parsing(),
        rem,
    )->Ok_0 is None && !(seq_starts_with(rem[0], "-"@) && !ctx.spec_resilient_parsing())
    ||| count == ctx.spec_args().len() + 1
}

/// Running the collected subcommands in order, stopping at the first error:
/// `runs` are their results; when all succeed, the result callback gets one
/// unit per subcommand.
pub open spec fn chain_ran(
    g: Group,
    ctx: Context,
    subs: Seq<(Seq<char>, AnyCommand, Seq<Seq<char>>, Context)>,
    runs: Seq<Result<(), ClickError>>,
    r: Result<(), ClickError>,
) -> bool {
    &&& runs.len() <= subs.len()
    &&& forall|k: int| 0 <= k < runs.len() ==> sub_runs(subs[k].1, subs[k].3, #[trigger] runs[k])
    &&& forall|k: int| 0 <= k < runs.len() - 1 ==> (#[trigger] runs[k]) is Ok
    &&& if runs.len() > 0 && runs.last() is Err {
        r == runs.last()
    } else {
        runs.len() == subs.len() && results_passed(g, ctx, units(subs.len()), r)
    }
}

/// A chain run from `(name, cmd, rest)`: the subcommands collected and run
/// in order, or the error that stopped the collecting.
pub open spec fn chain_runs<D: Dispatch>(
    d: D,
    ctx: Context,
    name: Seq<char>,
    cmd: AnyCommand,
    rest: Seq<Seq<char>>,
    r: Result<(), ClickError>,
) -> bool {
    exists|
        subs: Seq<(Seq<char>, AnyCommand, Seq<Seq<char>>, Context)>,
        stop: Option<ClickError>,
        runs: Seq<Result<(), ClickError>>,
    |
        #[trigger] chain_trace(d, ctx, name, cmd, rest, subs, stop, runs, r)
}

pub open spec fn chain_trace<D: Dispatch>(
    d: D,
    ctx: Context,
    name: Seq<char>,
    cmd: AnyCommand,
    rest: Seq<Seq<char>>,
    subs: Seq<(Seq<char>, AnyCommand, Seq<Seq<char>>, Context)>,
    stop: Option<ClickError>,
    runs: Seq<Result<(), ClickError>>,
    r: Result<(), ClickError>,
) -> bool {
    &&& subs.len() > 0 ==> (subs[0].0 == name && subs[0].1 == cmd && subs[0].2 == rest)
    &&& chain_links(d, ctx, subs)
    &&& match stop {
        Some(e) => r == Err::<(), ClickError>(e) && if subs.len() == 0 {
            chained_made(cmd, name, rest, ctx, Err(e))
        } else {
            collect_error(d, ctx, subs.last().3.spec_args(), e)
        },
        None => subs.len() > 0 && collect_done(d, ctx, subs.last().3, subs.len()) && chain_ran(
            d.spec_base(),
            ctx,
            subs,
            runs,
            r,
        ),
    }
}

/// The context a chained subcommand is parsed in: named, under the group's
/// context, taking extra arguments and no interspersed ones.
fn chained_context(cmd: &AnyCommand, name: &str, rest: Vec<String>, parent: &Arc<Context>) -> (r: Result<Context, ClickError>)
    requires
        parent.wf(),
        names_valid(parent.spec_help_option_names()),
    ensures
        chained_made(*cmd, name@, rest.deep_view(), **parent, r),
{
    match cmd {
        AnyCommand::Command(c) => {
            let builder = ContextBuilder::new().info_name(name).allow_extra_args(true).allow_interspersed_args(false).parent(
                share(parent),
            );
            proof {
                builder.lemma_built_prefix(name@);
            }
            let mut sub = builder.build();
            let ghost b = sub;
            let ghost av = rest.deep_view();
            proof {
                reveal(group_made);
                assert(made_context(b, name@, Some(**parent), true, false, false, inherited_env(Some(**parent))));
            }
            match c.parse_args(&mut sub, rest) {
                Ok(()) => Ok(sub),
                Err(e) => {
                    assert(parse_args_ok(*c, b, av, sub, Err::<(), ClickError>(e)));
                    Err(e)
                },
            }
        },
        other => other.make_context(name, rest, Some(share(parent))),
    }
}

/// What running a table of commands in `ctx` gives: a name that resolves to
/// no command is a usage error. With no name, a group that runs without a
/// subcommand runs its callback and then (if that succeeded) the result
/// callback with no results; otherwise, when a subcommand is required, it is
/// the usage error `Missing command.`, and else success. With a name, the
/// group's callback runs first (an error stops there); then the subcommand's
/// context is made under `ctx` from the words after the name and the
/// subcommand runs in it, and on success the result callback gets no results;
/// in a chain, each subcommand is collected from the words the one before left
/// over, and all run in order.
pub open spec fn dispatch_trace<D: Dispatch>(d: D, ctx: Context, r: Result<(), ClickError>) -> bool {
    let g = d.spec_base();
    match resolution(d.spec_table(), ctx.spec_resilient_parsing(), ctx.spec_args()) {
        Err(m) => r matches Err(ClickError::UsageError { message: x, ctx: None }) && x@ == m,
        Ok(None) => if g.invoke_without_command {
            exists|rg: Result<(), ClickError>|
                #[trigger] callback_runs(g.command, ctx, rg) && if rg is Err {
                    r == rg
                } else {
                    results_passed(g, ctx, units(0), r)
                }
        } else if g.subcommand_required && !ctx.spec_resilient_parsing() {
            r matches Err(ClickError::UsageError { message: x, ctx: None }) && x@ == "Missing command."@
        } else {
            r is Ok
        },
        Ok(Some((name, cmd, rest))) => exists|rg: Result<(), ClickError>|
            #[trigger] callback_runs(g.command, ctx, rg) && if rg is Err {
                r == rg
            } else if !g.chain {
                exists|m: Result<Context, ClickError>|
                    #[trigger] cmd.spec_makes(name, rest, Some(ctx), m) && match m {
                        Err(e) => r == Err::<(), ClickError>(e),
                        Ok(sc) => exists|rs: Result<(), ClickError>|
                            #[trigger] sub_runs(cmd, sc, rs) && if rs is Err {
                                r == rs
                            } else {
                                results_passed(g, ctx, units(0), r)
                            },
                    }
            } else {
                chain_runs(d, ctx, name, cmd, rest, r)
            },
    }
}

/// What running a table of commands in `ctx` gives, as far as it does not
/// rest on callbacks: a name that resolves to no command is a usage error; no
/// name, when a subcommand is required and no callback runs without one, is
/// the usage error `Missing command.`, and otherwise succeeds.
pub open spec fn dispatch_runs<D: Dispatch>(d: D, ctx: Context, r: Result<(), ClickError>) -> bool {
    let g = d.spec_base();
    match resolution(d.spec_table(), ctx.spec_resilient_parsing(), ctx.spec_args()) {
        Err(m) => r matches Err(ClickError::UsageError { message: x, ctx: None }) && x@ == m,
        Ok(None) => if g.invoke_without_command {
            true
        } else if g.subcommand_required && !ctx.spec_resilient_parsing() {
            r matches Err(ClickError::UsageError { message: x, ctx: None }) && x@ == "Missing command."@
        } else {
            r is Ok
        },
        Ok(Some(_)) => true,
    }
}

fn invoke_in<D: Dispatch>(d: &D, ctx: &Arc<Context>) -> (r: Result<(), ClickError>)
    requires
        d.dispatch_wf(),
        ctx.wf(),
        names_valid(ctx.spec_help_option_names()),
    ensures
        dispatch_trace(*d, **ctx, r),
        dispatch_runs(*d, **ctx, r),
{
    let g = d.base();
    let args = ctx.args();
    proof {
        assert(args@.map_values(|x: String| x@) =~= ctx.spec_args());
    }
    let resolved = match resolve_in(d, &**ctx, args) {
        Ok(x) => x,
        Err(e) => {
            return Err(e);
        },
    };
    match resolved {
        None => {
            if g.invoke_without_command {
                let res = g.command.invoke(&**ctx);
                if res.is_ok() {
                    let pr = process_result(g, &**ctx, Vec::new());
                    proof {
                        assert(units(0) =~= Seq::<()>::empty());
                        assert(callback_runs(g.command, **ctx, res));
                    }
                    match pr {
                        Ok(()) => {
                            proof {
                                lemma_ok_unit(res);
                                lemma_ok_unit(pr);
                                assert(results_passed(*g, **ctx, units(0), res));
                            }
                        },
                        Err(e) => {
                            return Err(e);
                        },
                    }
                }
                proof {
                    assert(callback_runs(g.command, **ctx, res));
                }
                return res;
            } else if g.subcommand_required && !ctx.resilient_parsing() {
                proof {
                    reveal_strlit("Missing command.");
                }
                return Err(ClickError::usage("Missing command."));
            } else {
                return Ok(());
            }
        },
        Some((name, cmd, rest)) => {
            let ghost name_v = name@;
            let ghost cmd_v = *cmd;
            let ghost rest_v = rest.deep_view();
            let rg = if g.command.callback.is_some() {
                g.command.invoke(&**ctx)
            } else {
                Ok(())
            };
            proof {
                assert(callback_runs(g.command, **ctx, rg));
            }
            match rg {
                Ok(()) => {},
                Err(e) => {
                    return Err(e);
                },
            }
            proof {
                lemma_ok_unit(rg);
                assert(callback_runs(g.command, **ctx, Ok(())));
            }
            if !g.chain {
                let m = cmd.make_context(name.as_str(), rest, Some(share(ctx)));
                proof {
                    assert(cmd_v.spec_makes(name_v, rest_v, Some(**ctx), m));
                }
                let sub = match m {
                    Ok(c) => c,
                    Err(e) => {
                        return Err(e);
                    },
                };
                let ghost sv = sub;
                let sub = Arc::new(sub);
                let res = run_sub(cmd, &sub);
                proof {
                    assert(sub_runs(cmd_v, sv, res));
                }
                close_shared(sub);
                if res.is_ok() {
                    let pr = process_result(g, &**ctx, Vec::new());
                    proof {
                        assert(units(0) =~= Seq::<()>::empty());
                    }
                    match pr {
                        Ok(()) => {
                            proof {
                                lemma_ok_unit(res);
                                lemma_ok_unit(pr);
                            }
                        },
                        Err(e) => {
                            return Err(e);
                        },
                    }
                }
                proof {
                    assert(cmd_v.spec_makes(name_v, rest_v, Some(**ctx), Ok(sv)));
                }
                res
            } else {
                let mut contexts: Vec<(Arc<Context>, &AnyCommand)> = Vec::new();
                let first = match chained_context(cmd, name.as_str(), rest, ctx) {
                    Ok(c) => c,
                    Err(e) => {
                        proof {
                            let ghost no_subs = Seq::<(Seq<char>, AnyCommand, Seq<Seq<char>>, Context)>::empty();
                            assert(chain_trace(*d, **ctx, name_v, cmd_v, rest_v, no_subs, Some(e), Seq::empty(), Err(e)));
                        }
                        return Err(e);
                    },
                };
                let ghost mut subs: Seq<(Seq<char>, AnyCommand, Seq<Seq<char>>, Context)> = seq![(name_v, cmd_v, rest_v, first)];
                let mut remaining = clone_strings(first.args());
                contexts.push((Arc::new(first), cmd));
                proof {
                    assert(chain_links(*d, **ctx, subs));
                }
                // Each round takes the name of a subcommand, so there are at most as
                // many rounds as arguments.
                let mut rounds: usize = args.len();
                let ghost mut ended = false;
                while remaining.len() > 0 && rounds > 0
                    invariant
                        d.dispatch_wf(),
                        ctx.wf(),
                        names_valid(ctx.spec_help_option_names()),
                        *g == d.spec_base(),
                        g.chain,
                        callback_runs(g.command, **ctx, Ok(())),
                        resolution(d.spec_table(), ctx.spec_resilient_parsing(), ctx.spec_args()) == Ok::<
                            Option<(Seq<char>, AnyCommand, Seq<Seq<char>>)>,
                            Seq<char>,
                        >(Some((name_v, cmd_v, rest_v))),
                        args@.len() == ctx.spec_args().len(),
                        subs.len() >= 1,
                        subs[0].0 == name_v && subs[0].1 == cmd_v && subs[0].2 == rest_v,
                        chain_links(*d, **ctx, subs),
                        remaining.deep_view() == subs.last().3.spec_args(),
                        contexts@.len() == subs.len(),
                        forall|k: int| 0 <= k < subs.len() ==> *(#[trigger] contexts@[k]).0 == subs[k].3 && *contexts@[k].1 == subs[k].1,
                        subs.len() + rounds == args@.len() + 1,
                        !ended,
                    ensures
                        subs.len() >= 1,
                        subs[0].0 == name_v && subs[0].1 == cmd_v && subs[0].2 == rest_v,
                        chain_links(*d, **ctx, subs),
                        contexts@.len() == subs.len(),
                        forall|k: int| 0 <= k < subs.len() ==> *(#[trigger] contexts@[k]).0 == subs[k].3 && *contexts@[k].1 == subs[k].1,
                        collect_done(*d, **ctx, subs.last().3, subs.len()),
                    decreases rounds,
                {
                    let ghost rem = remaining.deep_view();
                    proof {
                        assert(remaining@.map_values(|x: String| x@) =~= rem);
                    }
                    match resolve_in(d, &**ctx, remaining.as_slice()) {
                        Err(e) => {
                            proof {
                                assert(collect_error(*d, **ctx, subs.last().3.spec_args(), e));
                                assert(chain_trace(*d, **ctx, name_v, cmd_v, rest_v, subs, Some(e), Seq::empty(), Err(e)));
                            }
                            return Err(e);
                        },
                        Ok(Some((n2, c2, rest2))) => {
                            let ghost n2v = n2@;
                            let ghost c2v = *c2;
                            let ghost r2v = rest2.deep_view();
                            let sub = match chained_context(c2, n2.as_str(), rest2, ctx) {
                                Ok(c) => c,
                                Err(e) => {
                                    proof {
                                        assert(collect_error(*d, **ctx, subs.last().3.spec_args(), e));
                                        assert(chain_trace(*d, **ctx, name_v, cmd_v, rest_v, subs, Some(e), Seq::empty(), Err(e)));
                                    }
                                    return Err(e);
                                },
                            };
                            let ghost old_subs = subs;
                            proof {
                                subs = subs.push((n2v, c2v, r2v, sub));
                                lemma_push_facts(old_subs, (n2v, c2v, r2v, sub));
                                assert forall|k: int| 0 <= k < subs.len() implies chained_made(
                                    #[trigger] subs[k].1,
                                    subs[k].0,
                                    subs[k].2,
                                    **ctx,
                                    Ok(subs[k].3),
                                ) by {
                                    if k < old_subs.len() {
                                        assert(subs[k] == old_subs[k]);
                                    }
                                }
                                assert forall|k: int| 1 <= k < subs.len() implies resolution(
                                    d.spec_table(),
                                    ctx.spec_resilient_parsing(),
                                    subs[k - 1].3.spec_args(),
                                ) == Ok::<Option<(Seq<char>, AnyCommand, Seq<Seq<char>>)>, Seq<char>>(
                                    Some((#[trigger] subs[k].0, subs[k].1, subs[k].2)),
                                ) by {
                                    if k < old_subs.len() {
                                        assert(subs[k] == old_subs[k]);
                                        assert(subs[k - 1] == old_subs[k - 1]);
                                    } else {
                                        assert(subs[k - 1] == old_subs.last());
                                    }
                                }
                            }
                            remaining = clone_strings(sub.args());
                            rounds = rounds - 1;
                            let ghost oc = contexts@;
                            contexts.push((Arc::new(sub), c2));
                            proof {
                                lemma_push_facts(oc, contexts@.last());
                                assert(contexts@ == oc.push(contexts@.last()));
                                assert forall|k: int| 0 <= k < subs.len() implies *(#[trigger] contexts@[k]).0 == subs[k].3
                                    && *contexts@[k].1 == subs[k].1 by {
                                    if k < old_subs.len() {
                                        assert(contexts@[k] == oc[k]);
                                        assert(subs[k] == old_subs[k]);
                                    }
                                }
                                assert(remaining.deep_view() =~= subs.last().3.spec_args());
                            }
                        },
                        Ok(None) => {
                            proof {
                                reveal_strlit("-");
                            }
                            if remaining.len() > 0 && crate::text::starts_with(remaining[0].as_str(), "-")
                                && !ctx.resilient_parsing() {
                                let e = ClickError::usage(cat2("No such option: ", remaining[0].as_str()));
                                proof {
                                    reveal_strlit("No such option: ");
                                    assert(rem[0] == remaining@[0]@);
                                    assert(collect_error(*d, **ctx, subs.last().3.spec_args(), e));
                                    assert(chain_trace(*d, **ctx, name_v, cmd_v, rest_v, subs, Some(e), Seq::empty(), Err(e)));
                                }
                                return Err(e);
                            }
                            proof {
                                assert(rem[0] == remaining@[0]@);
                                assert(collect_done(*d, **ctx, subs.last().3, subs.len()));
                            }
                            break;
                        },
                    }
                }
                let mut results: Vec<()> = Vec::new();
                let mut pending = contexts;
                let ghost cg = pending@;
                let ghost mut runs: Seq<Result<(), ClickError>> = Seq::empty();
                while pending.len() > 0
                    invariant
                        ctx.wf(),
                        *g == d.spec_base(),
                        g.chain,
                        callback_runs(g.command, **ctx, Ok(())),
                        resolution(d.spec_table(), ctx.spec_resilient_parsing(), ctx.spec_args()) == Ok::<
                            Option<(Seq<char>, AnyCommand, Seq<Seq<char>>)>,
                            Seq<char>,
                        >(Some((name_v, cmd_v, rest_v))),
                        subs.len() >= 1,
                        subs[0].0 == name_v && subs[0].1 == cmd_v && subs[0].2 == rest_v,
                        chain_links(*d, **ctx, subs),
                        collect_done(*d, **ctx, subs.last().3, subs.len()),
                        cg.len() == subs.len(),
                        forall|k: int| 0 <= k < subs.len() ==> *(#[trigger] cg[k]).0 == subs[k].3 && *cg[k].1 == subs[k].1,
                        runs.len() <= subs.len(),
                        pending@ == cg.subrange(runs.len() as int, cg.len() as int),
                        results@ == units(runs.len()),
                        forall|k: int| 0 <= k < runs.len() ==> sub_runs(subs[k].1, subs[k].3, #[trigger] runs[k]),
                        forall|k: int| 0 <= k < runs.len() ==> (#[trigger] runs[k]) is Ok,
                    decreases pending@.len(),
                {
                    let ghost i: int = runs.len() as int;
                    let ghost op = pending@;
                    let (sc, c) = pending.remove(0);
                    proof {
                        assert(op[0] == cg[i as int]);
                        assert(pending@ =~= cg.subrange(i + 1, cg.len() as int));
                    }
                    let res = run_sub(c, &sc);
                    close_shared(sc);
                    let ghost old_runs = runs;
                    proof {
                        runs = runs.push(res);
                        lemma_push_facts(old_runs, res);
                    }
                    match res {
                        Ok(()) => {},
                        Err(e) => {
                            proof {
                                assert forall|k: int| 0 <= k < runs.len() - 1 implies (#[trigger] runs[k]) is Ok by {
                                    assert(runs[k] == old_runs[k]);
                                }
                                assert(chain_ran(d.spec_base(), **ctx, subs, runs, Err(e)));
                                assert(chain_trace(*d, **ctx, name_v, cmd_v, rest_v, subs, None, runs, Err(e)));
                            }
                            return Err(e);
                        },
                    }
                    results.push(());
                    proof {
                        assert(results@ =~= units(runs.len()));
                    }
                }
                proof {
                    assert(runs.len() == subs.len());
                }
                let pr = process_result(g, &**ctx, results);
                proof {
                    assert(chain_ran(d.spec_base(), **ctx, subs, runs, pr));
                    assert(chain_trace(*d, **ctx, name_v, cmd_v, rest_v, subs, None, runs, pr));
                    assert(chain_runs(*d, **ctx, name_v, cmd_v, rest_v, pr));
                }
                pr
            }
        },
    }
}

/// Run a subcommand in its context.
fn run_sub(cmd: &AnyCommand, sub: &Arc<Context>) -> (r: Result<(), ClickError>)
    ensures
        sub_runs(*cmd, **sub, r),
{
    match cmd {
        AnyCommand::Command(c) => run_in(c, sub),
        _ => {
            let d: &dyn CommandLike = cmd;
            run_in(d, sub)
        },
    }
}

/// What running a subcommand in the context made for it may give: a command
/// runs as `runs_in` says; a group or a collection runs through the
/// `CommandLike` object it is, as its own `invoke` states.
pub open spec fn sub_runs(cmd: AnyCommand, sub: Context, r: Result<(), ClickError>) -> bool {
    match cmd {
        AnyCommand::Command(c) => runs_in(&c, sub, r),
        _ => {
            let d: &dyn CommandLike = &cmd;
            runs_in(d, sub, r)
        },
    }
}

fn clone_strings(v: &[String]) -> (r: Vec<String>)
    ensures
        r.deep_view() == v@.map_values(|x: String| x@),
{
    let mut out: Vec<String> = Vec::new();
    let mut i: usize = 0;
    while i < v.len()
        invariant
            i <= v@.len(),
            out.deep_view() == v@.map_values(|x: String| x@).take(i as int),
        decreases v@.len() - i,
    {
        let ghost od = out.deep_view();
        out.push(v[i].clone());
        assert(out.deep_view() =~= od.push(v@[i as int]@));
        assert(v@.map_values(|x: String| x@).take(i + 1) =~= v@.map_values(|x: String| x@).take(i as int).push(v@[i as int]@));
        i = i + 1;
    }
    assert(v@.map_values(|x: String| x@).take(v@.len() as int) =~= v@.map_values(|x: String| x@));
    out
}

// =============================================================================
// Help of groups
// =============================================================================

/// The usage line of a group: the command's usage and the subcommand placeholder.
pub open spec fn group_usage(g: Group, ctx: Context) -> Seq<char> {
    usage_of(g.command, ctx) + seq![' '] + g.subcommand_metavar@
}

/// The lines of a group's help page, given its commands section.
pub open spec fn group_help_page(g: Group, ctx: Context, commands: Seq<char>) -> Seq<Seq<char>> {
    let c = g.command;
    let ol = opt_lines(c.options@) + match help_record_of(c, ctx) {
        Some((a, b)) => seq!["  "@ + a + "  "@ + b],
        None => Seq::<Seq<char>>::empty(),
    };
    seq![group_usage(g, ctx)] + (if c.help is Some {
        help_intro(c)
    } else {
        Seq::<Seq<char>>::empty()
    }) + section("Options:"@, ol) + (if commands.len() > 0 {
        seq![Seq::<char>::empty(), commands]
    } else {
        Seq::<Seq<char>>::empty()
    }) + match c.epilog {
        Some(e) => seq![Seq::<char>::empty(), e@],
        None => Seq::<Seq<char>>::empty(),
    }
}

fn group_usage_exec(g: &Group, ctx: &Context) -> (r: String)
    ensures
        r@ == group_usage(*g, *ctx),
{
    let u = g.command.get_usage(ctx);
    proof {
        reveal_strlit(" ");
    }
    cat3(u.as_str(), " ", g.subcommand_metavar.as_str())
}

/// The help page of a table of commands: the base group's page, with the
/// commands section listing the table's names in order.
pub open spec fn help_with_commands<D: Dispatch>(d: D, ctx: Context, r: Seq<char>) -> bool {
    exists|names: Seq<Seq<char>>|
        #[trigger] sorted_names_of(names, d.spec_table().dom()) && r == join_seq(
            group_help_page(d.spec_base(), ctx, commands_text(d.spec_table(), names)),
            "\n"@,
        )
}

fn help_with_commands_exec<D: Dispatch>(d: &D, ctx: &Context) -> (r: String)
    requires
        d.dispatch_wf(),
        names_valid(ctx.spec_help_option_names()),
    ensures
        help_with_commands(*d, *ctx, r@),
{
    let commands = format_in(d);
    let b = d.base();
    group_help_exec(b, ctx, commands)
}

impl Group {
    /// The help page: usage with the subcommand placeholder, help text, options
    /// and the commands section.
    pub fn get_help_with_commands(&self, ctx: &Context) -> (r: String)
        requires
            names_valid(ctx.spec_help_option_names()),
        ensures
            self.wf() ==> help_with_commands(*self, *ctx, r@),
            !self.wf() ==> r@ == join_seq(group_help_page(*self, *ctx, Seq::<char>::empty()), "\n"@),
    {
        if self.is_wf() {
            help_with_commands_exec(self, ctx)
        } else {
            group_help_exec(self, ctx, String::new())
        }
    }
}

impl CommandCollection {
    /// The help page: the base group's, with the commands of the base group and
    /// of every source.
    pub fn get_help_with_commands(&self, ctx: &Context) -> (r: String)
        requires
            names_valid(ctx.spec_help_option_names()),
        ensures
            self.wf() ==> help_with_commands(*self, *ctx, r@),
            !self.wf() ==> r@ == join_seq(group_help_page(self.base, *ctx, Seq::<char>::empty()), "\n"@),
    {
        if self.is_wf() {
            help_with_commands_exec(self, ctx)
        } else {
            group_help_exec(&self.base, ctx, String::new())
        }
    }
}

/// The help page of a group with the given commands section.
fn group_help_exec(g: &Group, ctx: &Context, commands: String) -> (r: String)
    requires
        g.command.add_help_option && g.command.help_option is None ==> names_valid(ctx.spec_help_option_names()),
    ensures
        r@ == join_seq(group_help_page(*g, *ctx, commands@), "\n"@),
{
    let c = &g.command;
    let page = c.get_help(ctx);
    let mut parts: Vec<String> = Vec::new();
    parts.push(group_usage_exec(g, ctx));
    proof {
        reveal_strlit(" ");
    }
    let mut intro: Vec<String> = Vec::new();
    if c.help.is_some() {
        intro = c.intro_lines();
    }
    assert(intro.deep_view() =~= (if c.help is Some {
        help_intro(*c)
    } else {
        Seq::<Seq<char>>::empty()
    }));
    assert(parts.deep_view() =~= seq![group_usage(*g, *ctx)]);
    crate::command::push_all(&mut parts, intro);
    let ol = c.option_and_help_lines(ctx);
    crate::command::section_exec(&mut parts, "Options:", ol);
    let ghost p2 = parts.deep_view();
    assert(p2 =~= seq![group_usage(*g, *ctx)] + (if c.help is Some {
        help_intro(*c)
    } else {
        Seq::<Seq<char>>::empty()
    }) + section("Options:"@, opt_lines(c.options@) + match help_record_of(*c, *ctx) {
        Some((a, b)) => seq!["  "@ + a + "  "@ + b],
        None => Seq::<Seq<char>>::empty(),
    }));
    if commands.unicode_len() > 0 {
        parts.push(String::new());
        parts.push(commands);
    }
    match &c.epilog {
        Some(e) => {
            parts.push(String::new());
            parts.push(e.clone());
        },
        None => {},
    }
    proof {
        reveal_strlit("Options:");
        reveal_strlit("\n");
        assert(parts.deep_view() =~= group_help_page(*g, *ctx, commands@));
    }
    join(&parts, "\n")
}

impl Group {
    /// Resolve the first argument to a registered subcommand.
    pub fn resolve_command<'a>(&'a self, ctx: &Context, args: &[String]) -> (r: Result<
        Option<(String, &'a AnyCommand, Vec<String>)>,
        ClickError,
    >)
        requires
            self.wf(),
        ensures
            resolved_as(r, resolution(self.spec_commands(), ctx.spec_resilient_parsing(), args@.map_values(|x: String| x@))),
    {
        resolve_in(self, ctx, args)
    }

    /// The commands section of the help page: each visible subcommand with its
    /// short help, sorted by name.
    pub fn format_commands(&self, ctx: &Context) -> (r: String)
        requires
            self.wf(),
        ensures
            exists|names: Seq<Seq<char>>| #[trigger] sorted_names_of(names, self.spec_commands().dom()) && r@ == commands_text(self.spec_commands(), names),
    {
        format_in(self)
    }
}

impl CommandLike for Group {
    open spec fn spec_makes(
        &self,
        info_name: Seq<char>,
        args: Seq<Seq<char>>,
        parent: Option<Context>,
        r: Result<Context, ClickError>,
    ) -> bool {
        group_made(self.command, info_name, args, parent, inherited_env(parent), r)
    }

    open spec fn spec_runs(&self, ctx: Context, r: Result<(), ClickError>) -> bool {
        if self.wf() {
            dispatch_runs(*self, ctx, r)
        } else {
            r is Ok
        }
    }

    open spec fn spec_main(&self, args: Seq<Seq<char>>, env: Map<Seq<char>, String>, r: Result<Option<String>, ClickError>) -> bool {
        exists|m: Result<Context, ClickError>|
            #[trigger] group_made(self.command, prog_name(self.command.name), args, None, env, m) && match m {
                Err(e) => r == Err::<Option<String>, ClickError>(e),
                Ok(c) => (r == Ok::<Option<String>, ClickError>(None) && self.spec_runs(c, Ok(()))) || (r matches Err(e)
                    && self.spec_runs(c, Err(e))),
            }
    }

    open spec fn spec_helps(&self, ctx: Context, r: Seq<char>) -> bool {
        if self.wf() {
            help_with_commands(*self, ctx, r)
        } else {
            r == join_seq(group_help_page(*self, ctx, Seq::<char>::empty()), "\n"@)
        }
    }

    open spec fn spec_usage(&self, ctx: Context) -> Seq<char> {
        group_usage(*self, ctx)
    }

    open spec fn spec_name(&self) -> Option<Seq<char>> {
        opt_view(self.command.name)
    }

    open spec fn spec_hidden(&self) -> bool {
        self.command.hidden
    }

    open spec fn spec_short_help(&self) -> Seq<char> {
        self.command.spec_short_help()
    }

    fn name(&self) -> (r: Option<&str>) {
        match &self.command.name {
            Some(n) => Some(n.as_str()),
            None => None,
        }
    }

    fn make_context(&self, info_name: &str, args: Vec<String>, parent: Option<Arc<Context>>) -> (r: Result<
        Context,
        ClickError,
    >) {
        group_context(&self.command, info_name, args, parent, None)
    }

    fn invoke(&self, ctx: &Arc<Context>) -> (r: Result<(), ClickError>)
        ensures
            self.wf() ==> dispatch_trace(*self, **ctx, r),
    {
        if self.is_wf() {
            invoke_in(self, ctx)
        } else {
            Ok(())
        }
    }

    fn main_env(&self, args: Vec<String>, env: StrMap<String>) -> (r: Result<Option<String>, ClickError>) {
        let prog = prog_name_exec(&self.command.name);
        let ctx = match group_context(&self.command, prog.as_str(), args, None, Some(env)) {
            Ok(c) => c,
            Err(e) => {
                return Err(e);
            },
        };
        let shared = Arc::new(ctx);
        proof {
            lemma_default_names_valid();
        }
        let r = self.invoke(&shared);
        let ghost rv = r;
        close_shared(shared);
        match r {
            Ok(()) => {
                proof {
                    lemma_ok_unit(rv);
                }
                Ok(None)
            },
            Err(e) => Err(e),
        }
    }

    fn get_help(&self, ctx: &Context) -> (r: String) {
        self.get_help_with_commands(ctx)
    }

    fn get_short_help(&self) -> (r: String) {
        self.command.get_short_help()
    }

    fn is_hidden(&self) -> (r: bool) {
        self.command.hidden
    }

    fn get_usage(&self, ctx: &Context) -> (r: String) {
        group_usage_exec(self, ctx)
    }
}

/// A group's context: named, under the parent, taking extra arguments and no
/// interspersed ones, with the group's own parameters parsed into it.
fn group_context(c: &Command, info_name: &str, args: Vec<String>, parent: Option<Arc<Context>>, env: Option<StrMap<String>>) -> (r: Result<
    Context,
    ClickError,
>)
    requires
        match parent {
            Some(p) => p.wf() && names_valid(p.spec_help_option_names()),
            None => true,
        },
    ensures
        r matches Ok(x) ==> x.wf() && names_valid(x.spec_help_option_names()),
        group_made(*c, info_name@, args.deep_view(), arc_view(parent), env_for(env, arc_view(parent)), r),
{
    let mut builder = ContextBuilder::new().info_name(info_name).allow_extra_args(true).allow_interspersed_args(false);
    match parent {
        Some(p) => {
            builder = builder.parent(p);
        },
        None => {},
    }
    match env {
        Some(e) => {
            if e.is_wf() {
                builder = builder.env(e);
            }
        },
        None => {},
    }
    proof {
        builder.lemma_built_prefix(info_name@);
    }
    let mut ctx = builder.build();
    let ghost b = ctx;
    proof {
        lemma_default_names_valid();
        assert(made_context(b, info_name@, arc_view(parent), true, false, false, env_for(env, arc_view(parent))));
    }
    let ghost av = args.deep_view();
    proof {
        reveal(group_made);
    }
    match c.parse_args(&mut ctx, args) {
        Ok(()) => Ok(ctx),
        Err(e) => {
            assert(parse_args_ok(*c, b, av, ctx, Err::<(), ClickError>(e)));
            Err(e)
        },
    }
}

// =============================================================================
// Collections
// =============================================================================

/// A group whose subcommands are looked up in it, then in each source group in
/// turn.
pub struct CommandCollection {
    pub base: Group,
    pub sources: Vec<Group>,
}

/// The subcommands of a base and its sources: the first that has a name wins.
pub open spec fn merged(base: Map<Seq<char>, AnyCommand>, sources: Seq<Group>) -> Map<Seq<char>, AnyCommand>
    decreases sources.len(),
{
    if sources.len() == 0 {
        base
    } else {
        sources.last().spec_commands().union_prefer_right(merged(base, sources.drop_last()))
    }
}

impl CommandCollection {
    /// A builder for a collection whose base group has the given name.
    pub fn new(name: &str) -> (r: CommandCollectionBuilder)
        ensures
            r.base.is_new_for(name@),
            r.sources@.len() == 0,
    {
        CommandCollectionBuilder::new(name)
    }

    pub open spec fn wf(&self) -> bool {
        &&& self.base.wf()
        &&& forall|i: int| 0 <= i < self.sources@.len() ==> (#[trigger] self.sources@[i]).wf()
    }

    pub open spec fn spec_commands(&self) -> Map<Seq<char>, AnyCommand> {
        merged(self.base.spec_commands(), self.sources@)
    }

    /// Add a group whose subcommands are looked up after the others.
    pub fn add_source(&mut self, group: Group)
        ensures
            final(self).base == old(self).base,
            final(self).sources@ == old(self).sources@.push(group),
    {
        self.sources.push(group);
    }

    /// The subcommand for `name`: the base group's, else the first source's.
    pub fn get_command(&self, name: &str) -> (r: Option<&AnyCommand>)
        requires
            self.wf(),
        ensures
            match r {
                Some(c) => self.spec_commands().contains_key(name@) && self.spec_commands()[name@] == *c,
                None => !self.spec_commands().contains_key(name@),
            },
    {
        let mut i: usize = 0;
        match self.base.get_command(name) {
            Some(c) => {
                proof {
                    lemma_merged_base(self.base.spec_commands(), self.sources@, name@);
                }
                return Some(c);
            },
            None => {},
        }
        while i < self.sources.len()
            invariant
                self.wf(),
                i <= self.sources@.len(),
                !merged(self.base.spec_commands(), self.sources@.take(i as int)).contains_key(name@),
            decreases self.sources@.len() - i,
        {
            assert(self.sources@.take(i + 1).drop_last() =~= self.sources@.take(i as int));
            assert(self.sources@[i as int].wf());
            match self.sources[i].get_command(name) {
                Some(c) => {
                    proof {
                        lemma_merged_prefix(self.base.spec_commands(), self.sources@, i + 1, name@);
                    }
                    return Some(c);
                },
                None => {},
            }
            i = i + 1;
        }
        assert(self.sources@.take(self.sources@.len() as int) =~= self.sources@);
        None
    }

    /// All the names, sorted, each once.
    pub fn list_commands(&self) -> (r: Vec<String>)
        requires
            self.wf(),
        ensures
            sorted_names_of(r.deep_view(), self.spec_commands().dom()),
    {
        let mut out = self.base.list_commands();
        let mut i: usize = 0;
        assert(self.sources@.take(0) =~= Seq::<Group>::empty());
        while i < self.sources.len()
            invariant
                self.wf(),
                i <= self.sources@.len(),
                sorted_names_of(out.deep_view(), merged(self.base.spec_commands(), self.sources@.take(i as int)).dom()),
            decreases self.sources@.len() - i,
        {
            assert(self.sources@[i as int].wf());
            let names = self.sources[i].list_commands();
            let mut k: usize = 0;
            let ghost before = out.deep_view().to_set();
            while k < names.len()
                invariant
                    k <= names@.len(),
                    strictly_sorted(out.deep_view()),
                    out.deep_view().to_set() == before.union(names.deep_view().take(k as int).to_set()),
                decreases names@.len() - k,
            {
                insert_sorted(&mut out, names[k].clone());
                proof {
                    assert(names.deep_view().take(k + 1) =~= names.deep_view().take(k as int).push(names@[k as int]@));
                    names.deep_view().take(k as int).lemma_push_to_set_commute(names@[k as int]@);
                    assert(out.deep_view().to_set() =~= before.union(names.deep_view().take(k + 1).to_set()));
                }
                k = k + 1;
            }
            proof {
                assert(names.deep_view().take(names@.len() as int) =~= names.deep_view());
                assert(self.sources@.take(i + 1).drop_last() =~= self.sources@.take(i as int));
                assert(self.sources@.take(i + 1).last() == self.sources@[i as int]);
                assert(out.deep_view().to_set() =~= merged(self.base.spec_commands(), self.sources@.take(i + 1)).dom());
            }
            i = i + 1;
        }
        assert(self.sources@.take(self.sources@.len() as int) =~= self.sources@);
        out
    }

    /// The commands section of the help page.
    fn format_commands(&self, ctx: &Context) -> (r: String)
        requires
            self.wf(),
        ensures
            exists|names: Seq<Seq<char>>| #[trigger] sorted_names_of(names, self.spec_commands().dom()) && r@ == commands_text(self.spec_commands(), names),
    {
        format_in(self)
    }
}

proof fn lemma_merged_base(base: Map<Seq<char>, AnyCommand>, sources: Seq<Group>, n: Seq<char>)
    requires
        base.contains_key(n),
    ensures
        merged(base, sources).contains_key(n),
        merged(base, sources)[n] == base[n],
    decreases sources.len(),
{
    if sources.len() > 0 {
        lemma_merged_base(base, sources.drop_last(), n);
    }
}

proof fn lemma_merged_prefix(base: Map<Seq<char>, AnyCommand>, sources: Seq<Group>, i: int, n: Seq<char>)
    requires
        0 < i <= sources.len(),
        !merged(base, sources.take(i - 1)).contains_key(n),
        sources[i - 1].spec_commands().contains_key(n),
    ensures
        merged(base, sources).contains_key(n),
        merged(base, sources)[n] == sources[i - 1].spec_commands()[n],
    decreases sources.len(),
{
    if sources.len() > i {
        assert(sources.drop_last().take(i - 1) =~= sources.take(i - 1));
        assert(sources.drop_last()[i - 1] == sources[i - 1]);
        lemma_merged_prefix(base, sources.drop_last(), i, n);
    } else {
        assert(sources.take(i - 1) =~= sources.drop_last());
    }
}

impl Dispatch for CommandCollection {
    open spec fn spec_table(&self) -> Map<Seq<char>, AnyCommand> {
        self.spec_commands()
    }

    open spec fn spec_base(&self) -> Group {
        self.base
    }

    open spec fn dispatch_wf(&self) -> bool {
        self.wf()
    }

    fn lookup(&self, name: &str) -> (r: Option<&AnyCommand>) {
        self.get_command(name)
    }

    fn base(&self) -> (r: &Group) {
        &self.base
    }

    fn names(&self) -> (r: Vec<String>) {
        self.list_commands()
    }
}

impl CommandLike for CommandCollection {
    open spec fn spec_makes(
        &self,
        info_name: Seq<char>,
        args: Seq<Seq<char>>,
        parent: Option<Context>,
        r: Result<Context, ClickError>,
    ) -> bool {
        group_made(self.base.command, info_name, args, parent, inherited_env(parent), r)
    }

    open spec fn spec_runs(&self, ctx: Context, r: Result<(), ClickError>) -> bool {
        if self.wf() {
            dispatch_runs(*self, ctx, r)
        } else {
            r is Ok
        }
    }

    open spec fn spec_main(&self, args: Seq<Seq<char>>, env: Map<Seq<char>, String>, r: Result<Option<String>, ClickError>) -> bool {
        exists|m: Result<Context, ClickError>|
            #[trigger] group_made(self.base.command, prog_name(self.base.command.name), args, None, env, m) && match m {
                Err(e) => r == Err::<Option<String>, ClickError>(e),
                Ok(c) => (r == Ok::<Option<String>, ClickError>(None) && self.spec_runs(c, Ok(()))) || (r matches Err(e)
                    && self.spec_runs(c, Err(e))),
            }
    }

    open spec fn spec_helps(&self, ctx: Context, r: Seq<char>) -> bool {
        if self.wf() {
            help_with_commands(*self, ctx, r)
        } else {
            r == join_seq(group_help_page(self.base, ctx, Seq::<char>::empty()), "\n"@)
        }
    }

    open spec fn spec_usage(&self, ctx: Context) -> Seq<char> {
        group_usage(self.base, ctx)
    }

    open spec fn spec_name(&self) -> Option<Seq<char>> {
        opt_view(self.base.command.name)
    }

    open spec fn spec_hidden(&self) -> bool {
        self.base.command.hidden
    }

    open spec fn spec_short_help(&self) -> Seq<char> {
        self.base.command.spec_short_help()
    }

    fn name(&self) -> (r: Option<&str>) {
        match &self.base.command.name {
            Some(n) => Some(n.as_str()),
            None => None,
        }
    }

    fn make_context(&self, info_name: &str, args: Vec<String>, parent: Option<Arc<Context>>) -> (r: Result<
        Context,
        ClickError,
    >) {
        group_context(&self.base.command, info_name, args, parent, None)
    }

    fn invoke(&self, ctx: &Arc<Context>) -> (r: Result<(), ClickError>)
        ensures
            self.wf() ==> dispatch_trace(*self, **ctx, r),
    {
        if self.is_wf() {
            invoke_in(self, ctx)
        } else {
            Ok(())
        }
    }

    fn main_env(&self, args: Vec<String>, env: StrMap<String>) -> (r: Result<Option<String>, ClickError>) {
        let prog = prog_name_exec(&self.base.command.name);
        let ctx = match group_context(&self.base.command, prog.as_str(), args, None, Some(env)) {
            Ok(c) => c,
            Err(e) => {
                return Err(e);
            },
        };
        let shared = Arc::new(ctx);
        proof {
            lemma_default_names_valid();
        }
        let r = self.invoke(&shared);
        let ghost rv = r;
        close_shared(shared);
        match r {
            Ok(()) => {
                proof {
                    lemma_ok_unit(rv);
                }
                Ok(None)
            },
            Err(e) => Err(e),
        }
    }

    fn get_help(&self, ctx: &Context) -> (r: String) {
        self.get_help_with_commands(ctx)
    }

    fn get_short_help(&self) -> (r: String) {
        self.base.command.get_short_help()
    }

    fn is_hidden(&self) -> (r: bool) {
        self.base.command.hidden
    }

    fn get_usage(&self, ctx: &Context) -> (r: String) {
        group_usage_exec(&self.base, ctx)
    }
}

impl CommandCollection {
    /// Whether the base group and every source keep their tables well formed.
    pub fn is_wf(&self) -> (r: bool)
        ensures
            r == self.wf(),
    {
        if !(self.base.commands.is_wf() && self.base.command_ids.is_wf()) {
            return false;
        }
        let mut i: usize = 0;
        while i < self.sources.len()
            invariant
                i <= self.sources@.len(),
                forall|j: int| 0 <= j < i ==> (#[trigger] self.sources@[j]).wf(),
            decreases self.sources@.len() - i,
        {
            if !(self.sources[i].commands.is_wf() && self.sources[i].command_ids.is_wf()) {
                return false;
            }
            i = i + 1;
        }
        true
    }
}

/// A builder for a collection.
pub struct CommandCollectionBuilder {
    pub base: GroupBuilder,
    pub sources: Vec<Group>,
}

impl CommandCollectionBuilder {
    pub fn new(name: &str) -> (r: Self)
        ensures
            r.base.is_new_for(name@),
            r.sources@.len() == 0,
    {
        CommandCollectionBuilder { base: GroupBuilder::new(name), sources: Vec::new() }
    }

    /// Add a group whose subcommands are looked up after the others.
    pub fn source(self, group: Group) -> (r: Self)
        ensures
            r == (CommandCollectionBuilder { sources: r.sources, ..self }),
            r.sources@ == self.sources@.push(group),
    {
        let mut s = self;
        s.sources.push(group);
        s
    }

    /// Register a subcommand in the base group.
    pub fn command<C: IntoCommand>(self, cmd: C) -> (r: Self)
        requires
            self.base.commands.wf(),
            self.base.command_ids.wf(),
            self.base.next_command_id < usize::MAX,
        ensures
            r.sources == self.sources,
            r.base.commands.wf() && r.base.command_ids.wf(),
            match cmd.spec_into().spec_name() {
                Some(n) => command_map(r.base.commands) == command_map(self.base.commands).insert(n, cmd.spec_into()),
                None => command_map(r.base.commands) == command_map(self.base.commands),
            },
    {
        let s = self;
        let base = s.base.command(cmd);
        CommandCollectionBuilder { base, sources: s.sources }
    }

    pub fn build(self) -> (r: CommandCollection)
        ensures
            r.sources == self.sources,
            r.base.commands == self.base.commands,
    {
        CommandCollection { base: self.base.build(), sources: self.sources }
    }
}

// =============================================================================
// Any subcommand
// =============================================================================

impl CommandLike for AnyCommand {
    open spec fn spec_makes(
        &self,
        info_name: Seq<char>,
        args: Seq<Seq<char>>,
        parent: Option<Context>,
        r: Result<Context, ClickError>,
    ) -> bool {
        match self {
            AnyCommand::Command(c) => CommandLike::spec_makes(c, info_name, args, parent, r),
            AnyCommand::Group(g) => CommandLike::spec_makes(g, info_name, args, parent, r),
            AnyCommand::Collection(c) => CommandLike::spec_makes(c, info_name, args, parent, r),
        }
    }

    open spec fn spec_runs(&self, ctx: Context, r: Result<(), ClickError>) -> bool {
        match self {
            AnyCommand::Command(c) => CommandLike::spec_runs(c, ctx, r),
            AnyCommand::Group(g) => CommandLike::spec_runs(g, ctx, r),
            AnyCommand::Collection(c) => CommandLike::spec_runs(c, ctx, r),
        }
    }

    open spec fn spec_main(&self, args: Seq<Seq<char>>, env: Map<Seq<char>, String>, r: Result<Option<String>, ClickError>) -> bool {
        match self {
            AnyCommand::Command(c) => CommandLike::spec_main(c, args, env, r),
            AnyCommand::Group(g) => CommandLike::spec_main(g, args, env, r),
            AnyCommand::Collection(c) => CommandLike::spec_main(c, args, env, r),
        }
    }

    open spec fn spec_helps(&self, ctx: Context, r: Seq<char>) -> bool {
        match self {
            AnyCommand::Command(c) => CommandLike::spec_helps(c, ctx, r),
            AnyCommand::Group(g) => CommandLike::spec_helps(g, ctx, r),
            AnyCommand::Collection(c) => CommandLike::spec_helps(c, ctx, r),
        }
    }

    open spec fn spec_usage(&self, ctx: Context) -> Seq<char> {
        match self {
            AnyCommand::Command(c) => CommandLike::spec_usage(c, ctx),
            AnyCommand::Group(g) => CommandLike::spec_usage(g, ctx),
            AnyCommand::Collection(c) => CommandLike::spec_usage(c, ctx),
        }
    }

    open spec fn spec_name(&self) -> Option<Seq<char>> {
        match self {
            AnyCommand::Command(c) => CommandLike::spec_name(c),
            AnyCommand::Group(g) => CommandLike::spec_name(g),
            AnyCommand::Collection(c) => CommandLike::spec_name(c),
        }
    }

    open spec fn spec_hidden(&self) -> bool {
        match self {
            AnyCommand::Command(c) => CommandLike::spec_hidden(c),
            AnyCommand::Group(g) => CommandLike::spec_hidden(g),
            AnyCommand::Collection(c) => CommandLike::spec_hidden(c),
        }
    }

    open spec fn spec_short_help(&self) -> Seq<char> {
        match self {
            AnyCommand::Command(c) => CommandLike::spec_short_help(c),
            AnyCommand::Group(g) => CommandLike::spec_short_help(g),
            AnyCommand::Collection(c) => CommandLike::spec_short_help(c),
        }
    }

    fn name(&self) -> (r: Option<&str>) {
        match self {
            AnyCommand::Command(c) => CommandLike::name(c),
            AnyCommand::Group(g) => CommandLike::name(g),
            AnyCommand::Collection(c) => CommandLike::name(c),
        }
    }

    fn make_context(&self, info_name: &str, args: Vec<String>, parent: Option<Arc<Context>>) -> (r: Result<
        Context,
        ClickError,
    >) {
        let ghost av = args.deep_view();
        match self {
            AnyCommand::Command(c) => {
                let r = CommandLike::make_context(c, info_name, args, parent);
                assert(command_made(*c, info_name@, av, arc_view(parent), r));
                assert(CommandLike::spec_makes(c, info_name@, av, arc_view(parent), r));
                assert(self.spec_makes(info_name@, av, arc_view(parent), r));
                r
            },
            AnyCommand::Group(g) => CommandLike::make_context(g, info_name, args, parent),
            AnyCommand::Collection(c) => CommandLike::make_context(c, info_name, args, parent),
        }
    }

    fn invoke(&self, ctx: &Arc<Context>) -> (r: Result<(), ClickError>) {
        match self {
            AnyCommand::Command(c) => CommandLike::invoke(c, ctx),
            AnyCommand::Group(g) => CommandLike::invoke(g, ctx),
            AnyCommand::Collection(c) => CommandLike::invoke(c, ctx),
        }
    }

    fn main_env(&self, args: Vec<String>, env: StrMap<String>) -> (r: Result<Option<String>, ClickError>) {
        match self {
            AnyCommand::Command(c) => CommandLike::main_env(c, args, env),
            AnyCommand::Group(g) => CommandLike::main_env(g, args, env),
            AnyCommand::Collection(c) => CommandLike::main_env(c, args, env),
        }
    }

    fn get_help(&self, ctx: &Context) -> (r: String) {
        match self {
            AnyCommand::Command(c) => CommandLike::get_help(c, ctx),
            AnyCommand::Group(g) => CommandLike::get_help(g, ctx),
            AnyCommand::Collection(c) => CommandLike::get_help(c, ctx),
        }
    }

    fn get_short_help(&self) -> (r: String) {
        match self {
            AnyCommand::Command(c) => CommandLike::get_short_help(c),
            AnyCommand::Group(g) => CommandLike::get_short_help(g),
            AnyCommand::Collection(c) => CommandLike::get_short_help(c),
        }
    }

    fn is_hidden(&self) -> (r: bool) {
        match self {
            AnyCommand::Command(c) => CommandLike::is_hidden(c),
            AnyCommand::Group(g) => CommandLike::is_hidden(g),
            AnyCommand::Collection(c) => CommandLike::is_hidden(c),
        }
    }

    fn get_usage(&self, ctx: &Context) -> (r: String) {
        match self {
            AnyCommand::Command(c) => CommandLike::get_usage(c, ctx),
            AnyCommand::Group(g) => CommandLike::get_usage(g, ctx),
            AnyCommand::Collection(c) => CommandLike::get_usage(c, ctx),
        }
    }
}


// =============================================================================
// Running other commands from a context
// =============================================================================

/// Run a command in a context made for it, if the context can run it.
fn run_in<C: CommandLike + ?Sized>(cmd: &C, sub: &Arc<Context>) -> (r: Result<(), ClickError>)
    ensures
        runs_in(cmd, **sub, r),
{
    if sub.is_wf() && crate::command::names_valid_exec(sub.help_option_names()) {
        cmd.invoke(sub)
    } else {
        Ok(())
    }
}

/// What running a command in a context made for it gives: the command's run
/// when the context can run it (it is well formed and its help names are
/// valid), else nothing fails.
pub open spec fn runs_in<C: CommandLike + ?Sized>(cmd: &C, sub: Context, r: Result<(), ClickError>) -> bool {
    if sub.wf() && names_valid(sub.spec_help_option_names()) {
        cmd.spec_runs(sub, r)
    } else {
        r is Ok
    }
}

pub open spec fn strings_view(v: Seq<String>) -> Seq<Seq<char>> {
    v.map_values(|x: String| x@)
}

/// The name a command runs under: its own, else `default`.
pub open spec fn run_name(name: Option<Seq<char>>, default: Seq<char>) -> Seq<char> {
    match name {
        Some(n) => n,
        None => default,
    }
}

impl Context {
    /// Run another command with the given arguments, in a child context of this one.
    pub fn invoke<C: CommandLike + ?Sized>(self: &Arc<Self>, cmd: &C, args: &[String]) -> (r: Result<(), ClickError>)
        requires
            self.wf(),
            names_valid(self.spec_help_option_names()),
        ensures
            exists|m: Result<Context, ClickError>|
                #[trigger] cmd.spec_makes(
                    run_name(cmd.spec_name(), "invoked"@),
                    strings_view(args@),
                    Some(**self),
                    m,
                ) && match m {
                    Err(e) => r == Err::<(), ClickError>(e),
                    Ok(c) => runs_in(cmd, c, r),
                },
    {
        proof {
            reveal_strlit("invoked");
        }
        let name = match cmd.name() {
            Some(n) => n,
            None => "invoked",
        };
        assert(name@ == run_name(cmd.spec_name(), "invoked"@));
        let argv = clone_strings(args);
        assert(argv.deep_view() == strings_view(args@));
        let parent = share(self);
        let made = cmd.make_context(name, argv, Some(parent));
        let ghost mv = made;
        assert(cmd.spec_makes(run_name(cmd.spec_name(), "invoked"@), strings_view(args@), Some(**self), mv));
        let child = match made {
            Ok(c) => c,
            Err(e) => {
                return Err(e);
            },
        };
        let child = Arc::new(child);
        let r = run_in(cmd, &child);
        close_shared(child);
        r
    }

    /// Run another command in a child context that has this context's values.
    pub fn forward<C: CommandLike + ?Sized>(self: &Arc<Self>, cmd: &C) -> (r: Result<(), ClickError>)
        requires
            self.wf(),
        ensures
            exists|c: Context|
                #[trigger] runs_in(cmd, c, r) && c.spec_info_name() == Some(run_name(cmd.spec_name(), "forwarded"@))
                    && c.spec_parent() == Some(**self) && c.spec_params().dom() == self.spec_params().dom() && (
                forall|k: Seq<char>| #[trigger]
                    c.spec_params().contains_key(k) ==> copy_of(c.spec_params()[k], self.spec_params()[k]))
                    && c.spec_sources() == self.spec_sources(),
    {
        proof {
            reveal_strlit("forwarded");
        }
        let name = match cmd.name() {
            Some(n) => n,
            None => "forwarded",
        };
        let mut child = ContextBuilder::new().info_name(name).parent(share(self)).build();
        child.copy_values_from(&**self);
        let child = Arc::new(child);
        let r = run_in(cmd, &child);
        close_shared(child);
        r
    }
}

} // verus!
