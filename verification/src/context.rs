//! The context of one command invocation: the parsed parameter values, leftover
//! arguments, settings inherited from the parent command, and cleanup callbacks.

use vstd::prelude::*;
use vstd::cell::invcell::InvCell;
use vstd::predicate::Predicate;
use std::sync::Arc;
use crate::error::{ClickError, IntoText, opt_view};
use crate::source::ParameterSource;
use crate::strmap::{StrMap, key_index, lemma_key_index_bounds};
use crate::types::{Value, FromValue, copy_of};
use crate::text::{cat3, join, join_seq, to_upper, upper_of, replace_char, replace_char_seq, str_of};

verus! {

/// The environment prefix of a child context named `name`: the parent's prefix,
/// an underscore and the name in environment form.
pub open spec fn child_prefix(parent: Option<Context>, name: Seq<char>) -> Option<Seq<char>> {
    match parent {
        Some(p) => match p.spec_auto_envvar_prefix() {
            Some(pp) => Some(pp + "_"@ + envvar_form(name)),
            None => None,
        },
        None => None,
    }
}

/// Something to run when a context is closed.
pub trait CloseCallback {
    fn run(&self);
}

/// Runs a user's cleanup closure; nothing is known of what it does.
#[verifier::external_body]
fn call_close<F: Fn()>(f: &F) {
    f()
}

impl<F: Fn()> CloseCallback for F {
    fn run(&self) {
        call_close(self)
    }
}

/// Any list of close callbacks may be registered.
pub struct AnyCallbacks;

impl Predicate<Vec<Box<dyn CloseCallback>>> for AnyCallbacks {
    open spec fn predicate(&self, v: Vec<Box<dyn CloseCallback>>) -> bool {
        true
    }
}

/// The context of one command invocation.
pub struct Context {
    parent: Option<Arc<Context>>,
    info_name: Option<String>,
    params: StrMap<Value>,
    args: Vec<String>,
    obj: Option<Value>,
    meta: StrMap<Value>,
    default_map: Option<StrMap<Value>>,
    invoked_subcommand: Option<String>,
    terminal_width: Option<usize>,
    max_content_width: Option<usize>,
    allow_extra_args: bool,
    allow_interspersed_args: bool,
    ignore_unknown_options: bool,
    help_option_names: Vec<String>,
    resilient_parsing: bool,
    auto_envvar_prefix: Option<String>,
    color: Option<bool>,
    show_default: Option<bool>,
    parameter_source: StrMap<ParameterSource>,
    close_callbacks: InvCell<Vec<Box<dyn CloseCallback>>, AnyCallbacks>,
    /// The environment variables parameters may read their values from.
    environ: StrMap<String>,
}

/// How `auto_envvar_prefix` spells a name: upper case, `-` as `_`.
pub open spec fn envvar_form(s: Seq<char>) -> Seq<char> {
    replace_char_seq(upper_of(s), '-', '_')
}

/// A name in the form of an environment variable: upper case, `-` as `_`.
pub fn envvar_form_pub(s: &str) -> (r: String)
    ensures
        r@ == envvar_form(s@),
{
    envvar_form_exec(s)
}

fn envvar_form_exec(s: &str) -> (r: String)
    ensures
        r@ == envvar_form(s@),
{
    let u = to_upper(s);
    replace_char(u.as_str(), '-', '_')
}

fn clone_values(m: &StrMap<Value>) -> (r: StrMap<Value>)
    requires
        m.wf(),
    ensures
        r.wf(),
        r.kv() == m.kv(),
        forall|k: Seq<char>| #[trigger] r.map().contains_key(k) <==> m.map().contains_key(k),
        forall|k: Seq<char>| #[trigger] r.map().contains_key(k) ==> copy_of(r.map()[k], m.map()[k]),
{
    let mut keys: Vec<String> = Vec::new();
    let mut vals: Vec<Value> = Vec::new();
    let mut i: usize = 0;
    while i < m.keys.len()
        invariant
            m.wf(),
            i <= m.keys@.len(),
            keys@.len() == i,
            vals@.len() == i,
            keys.deep_view() =~= m.kv().take(i as int),
            forall|j: int| 0 <= j < i ==> copy_of(#[trigger] vals@[j], m.vals@[j]),
        decreases m.keys@.len() - i,
    {
        let ghost od = keys.deep_view();
        keys.push(m.keys[i].clone());
        assert(keys.deep_view() =~= od.push(m.kv()[i as int]));
        vals.push(m.vals[i].duplicate());
        i = i + 1;
    }
    assert(m.kv().take(m.keys@.len() as int) =~= m.kv());
    let r = StrMap { keys, vals };
    proof {
        assert forall|k: Seq<char>| #[trigger] r.map().contains_key(k) implies copy_of(r.map()[k], m.map()[k]) by {
            crate::strmap::lemma_key_index_bounds(m.kv(), k);
        }
    }
    r
}

fn clone_strmap_strings(m: &StrMap<String>) -> (r: StrMap<String>)
    requires
        m.wf(),
    ensures
        r.wf(),
        r.map() == m.map(),
{
    let mut keys: Vec<String> = Vec::new();
    let mut vals: Vec<String> = Vec::new();
    let mut i: usize = 0;
    while i < m.keys.len()
        invariant
            m.wf(),
            i <= m.keys@.len(),
            keys.deep_view() =~= m.kv().take(i as int),
            vals@ =~= m.vals@.take(i as int),
        decreases m.keys@.len() - i,
    {
        let ghost od = keys.deep_view();
        keys.push(m.keys[i].clone());
        assert(keys.deep_view() =~= od.push(m.kv()[i as int]));
        vals.push(m.vals[i].clone());
        i = i + 1;
    }
    assert(m.kv().take(m.keys@.len() as int) =~= m.kv());
    assert(m.vals@.take(m.vals@.len() as int) =~= m.vals@);
    let r = StrMap { keys, vals };
    assert(r.map() =~= m.map());
    r
}

fn clone_strings(v: &Vec<String>) -> (r: Vec<String>)
    ensures
        r.deep_view() == v.deep_view(),
{
    let mut out: Vec<String> = Vec::new();
    let mut i: usize = 0;
    while i < v.len()
        invariant
            i <= v@.len(),
            out.deep_view() =~= v.deep_view().take(i as int),
        decreases v@.len() - i,
    {
        let ghost od = out.deep_view();
        out.push(v[i].clone());
        assert(out.deep_view() =~= od.push(v@[i as int]@));
        i = i + 1;
    }
    assert(v.deep_view().take(v@.len() as int) =~= v.deep_view());
    out
}

pub open spec fn opt_str_view(o: Option<&str>) -> Option<Seq<char>> {
    match o {
        Some(s) => Some(s@),
        None => None,
    }
}

impl Context {
    pub closed spec fn wf(&self) -> bool {
        &&& self.params.wf()
        &&& self.meta.wf()
        &&& self.parameter_source.wf()
        &&& self.environ.wf()
        &&& match self.default_map {
            Some(m) => m.wf(),
            None => true,
        }
    }

    /// The number of contexts above this one.
    pub closed spec fn depth(&self) -> nat
        decreases self,
    {
        match self.parent {
            Some(p) => 1 + p.depth(),
            None => 0,
        }
    }

    pub closed spec fn spec_parent(&self) -> Option<Context> {
        match self.parent {
            Some(p) => Some(*p),
            None => None,
        }
    }

    pub closed spec fn spec_info_name(&self) -> Option<Seq<char>> {
        opt_view(self.info_name)
    }

    /// The parameter values, by name.
    pub closed spec fn spec_params(&self) -> Map<Seq<char>, Value> {
        self.params.map()
    }

    pub closed spec fn spec_args(&self) -> Seq<Seq<char>> {
        self.args.deep_view()
    }

    pub closed spec fn spec_obj(&self) -> Option<Value> {
        self.obj
    }

    pub closed spec fn spec_meta(&self) -> Map<Seq<char>, Value> {
        self.meta.map()
    }

    pub closed spec fn spec_default_map(&self) -> Option<Map<Seq<char>, Value>> {
        match self.default_map {
            Some(m) => Some(m.map()),
            None => None,
        }
    }

    pub closed spec fn spec_invoked_subcommand(&self) -> Option<Seq<char>> {
        opt_view(self.invoked_subcommand)
    }

    pub closed spec fn spec_terminal_width(&self) -> Option<usize> {
        self.terminal_width
    }

    pub closed spec fn spec_max_content_width(&self) -> Option<usize> {
        self.max_content_width
    }

    pub closed spec fn spec_allow_extra_args(&self) -> bool {
        self.allow_extra_args
    }

    pub closed spec fn spec_allow_interspersed_args(&self) -> bool {
        self.allow_interspersed_args
    }

    pub closed spec fn spec_ignore_unknown_options(&self) -> bool {
        self.ignore_unknown_options
    }

    pub closed spec fn spec_help_option_names(&self) -> Seq<Seq<char>> {
        self.help_option_names.deep_view()
    }

    pub closed spec fn spec_resilient_parsing(&self) -> bool {
        self.resilient_parsing
    }

    pub closed spec fn spec_auto_envvar_prefix(&self) -> Option<Seq<char>> {
        opt_view(self.auto_envvar_prefix)
    }

    pub closed spec fn spec_color(&self) -> Option<bool> {
        self.color
    }

    pub closed spec fn spec_show_default(&self) -> Option<bool> {
        self.show_default
    }

    pub closed spec fn spec_sources(&self) -> Map<Seq<char>, ParameterSource> {
        self.parameter_source.map()
    }

    /// The environment the context reads from.
    pub closed spec fn spec_env(&self) -> Map<Seq<char>, String> {
        self.environ.map()
    }


    /// The path names of a context: its parent's, then its own name if it has
    /// one.
    pub proof fn lemma_path_names(&self)
        ensures
            self.path_names() == match self.spec_parent() {
                Some(p) => p.path_names(),
                None => Seq::<Seq<char>>::empty(),
            } + match self.spec_info_name() {
                Some(n) => seq![n],
                None => Seq::<Seq<char>>::empty(),
            },
    {
        let above = match self.parent {
            Some(p) => p.path_names(),
            None => Seq::<Seq<char>>::empty(),
        };
        assert(above + Seq::<Seq<char>>::empty() =~= above);
        match self.info_name {
            Some(n) => {
                assert(above.push(n@) =~= above + seq![n@]);
            },
            None => {},
        }
    }

    /// The info names from the root context down to this one, the missing ones
    /// left out.
    pub closed spec fn path_names(&self) -> Seq<Seq<char>>
        decreases self,
    {
        let above = match self.parent {
            Some(p) => p.path_names(),
            None => seq![],
        };
        match self.info_name {
            Some(n) => above.push(n@),
            None => above,
        }
    }

    /// A context with the defaults: no parent, no name, interspersed arguments
    /// allowed, `--help` as the help option.
    pub fn new() -> (r: Self)
        ensures
            r.wf(),
            r.spec_parent() is None,
            r.spec_info_name() is None,
            r.spec_params() == Map::<Seq<char>, Value>::empty(),
            r.spec_args() == Seq::<Seq<char>>::empty(),
            r.spec_obj() is None,
            r.spec_invoked_subcommand() is None,
            r.spec_terminal_width() is None,
            r.spec_max_content_width() is None,
            !r.spec_allow_extra_args(),
            r.spec_allow_interspersed_args(),
            !r.spec_ignore_unknown_options(),
            r.spec_help_option_names() == seq!["--help"@],
            !r.spec_resilient_parsing(),
            r.spec_auto_envvar_prefix() is None,
            r.spec_color() is None,
            r.spec_show_default() is None,
            r.spec_sources() == Map::<Seq<char>, ParameterSource>::empty(),
    {
        ContextBuilder::new().build()
    }

    pub fn parent(&self) -> (r: Option<&Arc<Context>>)
        ensures
            match r {
                Some(p) => self.spec_parent() == Some(**p),
                None => self.spec_parent() is None,
            },
    {
        match &self.parent {
            Some(p) => Some(p),
            None => None,
        }
    }

    pub fn info_name(&self) -> (r: Option<&str>)
        ensures
            opt_str_view(r) == self.spec_info_name(),
    {
        match &self.info_name {
            Some(n) => Some(n.as_str()),
            None => None,
        }
    }

    /// Take the parameter values (copies, same names) and their sources from
    /// another context.
    pub fn copy_values_from(&mut self, from: &Context)
        requires
            from.wf(),
            old(self).wf(),
        ensures
            final(self).wf(),
            final(self).spec_params().dom() == from.spec_params().dom(),
            forall|k: Seq<char>| #[trigger] final(self).spec_params().contains_key(k) ==> copy_of(
                final(self).spec_params()[k],
                from.spec_params()[k],
            ),
            final(self).spec_sources() == from.spec_sources(),
            final(self).spec_parent() == old(self).spec_parent(),
            final(self).spec_info_name() == old(self).spec_info_name(),
            final(self).spec_args() == old(self).spec_args(),
            final(self).spec_help_option_names() == old(self).spec_help_option_names(),
    {
        self.params = clone_values(&from.params);
        assert(self.params.map().dom() =~= from.params.map().dom());
        let mut keys: Vec<String> = Vec::new();
        let mut vals: Vec<ParameterSource> = Vec::new();
        let mut i: usize = 0;
        while i < from.parameter_source.keys.len()
            invariant
                from.parameter_source.wf(),
                i <= from.parameter_source.keys@.len(),
                keys.deep_view() == from.parameter_source.kv().take(i as int),
                vals@ == from.parameter_source.vals@.take(i as int),
            decreases from.parameter_source.keys@.len() - i,
        {
            let ghost ok = keys.deep_view();
            keys.push(from.parameter_source.keys[i].clone());
            vals.push(from.parameter_source.vals[i]);
            assert(keys.deep_view() =~= ok.push(from.parameter_source.keys@[i as int]@));
            assert(from.parameter_source.kv().take(i + 1) =~= from.parameter_source.kv().take(i as int).push(from.parameter_source.keys@[i as int]@));
            assert(vals@ =~= from.parameter_source.vals@.take(i + 1));
            i = i + 1;
        }
        assert(keys.deep_view() =~= from.parameter_source.kv());
        assert(vals@ =~= from.parameter_source.vals@);
        self.parameter_source = StrMap { keys, vals };
        assert(self.parameter_source.map() =~= from.parameter_source.map());
    }

    /// Whether the context is well formed.
    pub fn is_wf(&self) -> (r: bool)
        ensures
            r == self.wf(),
    {
        self.params.is_wf() && self.meta.is_wf() && self.parameter_source.is_wf() && self.environ.is_wf() && match &self.default_map {
            Some(m) => m.is_wf(),
            None => true,
        }
    }

    pub fn params(&self) -> (r: &StrMap<Value>)
        ensures
            r.map() == self.spec_params(),
            self.wf() ==> r.wf(),
    {
        &self.params
    }

    pub fn params_mut(&mut self) -> (r: &mut StrMap<Value>)
        ensures
            r.map() == old(self).spec_params(),
            final(self).spec_params() == final(r).map(),
            old(self).wf() ==> r.wf(),
            final(r).wf() ==> (old(self).wf() ==> final(self).wf()),
            final(self).spec_parent() == old(self).spec_parent(),
            final(self).spec_info_name() == old(self).spec_info_name(),
            final(self).spec_args() == old(self).spec_args(),
            final(self).spec_sources() == old(self).spec_sources(),
            final(self).spec_default_map() == old(self).spec_default_map(),
            final(self).spec_allow_extra_args() == old(self).spec_allow_extra_args(),
            final(self).spec_resilient_parsing() == old(self).spec_resilient_parsing(),
            final(self).spec_help_option_names() == old(self).spec_help_option_names(),
            final(self).spec_auto_envvar_prefix() == old(self).spec_auto_envvar_prefix(),
            final(self).spec_env() == old(self).spec_env(),
            final(self).path_names() == old(self).path_names(),
            final(self).spec_allow_interspersed_args() == old(self).spec_allow_interspersed_args(),
            final(self).spec_ignore_unknown_options() == old(self).spec_ignore_unknown_options(),
    {
        &mut self.params
    }

    /// The value of a parameter, if it has one of type `T`.
    pub fn get_param<T: FromValue>(&self, name: &str) -> (r: Option<&T>)
        requires
            self.wf(),
        ensures
            r is Some <==> (self.spec_params().contains_key(name@) && T::holds(self.spec_params()[name@])),
    {
        match self.params.get(name) {
            Some(v) => T::from_value(v),
            None => None,
        }
    }

    /// The arguments no parameter took.
    pub fn args(&self) -> (r: &[String])
        ensures
            r@.map_values(|x: String| x@) == self.spec_args(),
    {
        let r = self.args.as_slice();
        assert(r@.map_values(|x: String| x@) =~= self.args.deep_view());
        r
    }

    /// Append arguments to those no parameter took.
    pub fn extend_args(&mut self, more: Vec<String>)
        ensures
            final(self).spec_args() == old(self).spec_args() + more.deep_view(),
            final(self).spec_params() == old(self).spec_params(),
            final(self).spec_sources() == old(self).spec_sources(),
            final(self).spec_default_map() == old(self).spec_default_map(),
            final(self).spec_parent() == old(self).spec_parent(),
            final(self).spec_info_name() == old(self).spec_info_name(),
            final(self).spec_allow_extra_args() == old(self).spec_allow_extra_args(),
            final(self).spec_resilient_parsing() == old(self).spec_resilient_parsing(),
            final(self).spec_help_option_names() == old(self).spec_help_option_names(),
            final(self).spec_auto_envvar_prefix() == old(self).spec_auto_envvar_prefix(),
            final(self).spec_env() == old(self).spec_env(),
            final(self).path_names() == old(self).path_names(),
            final(self).spec_allow_interspersed_args() == old(self).spec_allow_interspersed_args(),
            final(self).spec_ignore_unknown_options() == old(self).spec_ignore_unknown_options(),
            old(self).wf() ==> final(self).wf(),
    {
        let mut a: Vec<String> = Vec::new();
        std::mem::swap(&mut a, &mut self.args);
        let ghost a0 = a.deep_view();
        let mut i: usize = 0;
        while i < more.len()
            invariant
                i <= more@.len(),
                a.deep_view() == a0 + more.deep_view().take(i as int),
            decreases more@.len() - i,
        {
            let ghost od = a.deep_view();
            a.push(more[i].clone());
            assert(a.deep_view() =~= od.push(more@[i as int]@));
            assert(more.deep_view().take(i + 1) =~= more.deep_view().take(i as int).push(more@[i as int]@));
            i = i + 1;
        }
        self.args = a;
        assert(more.deep_view().take(more@.len() as int) =~= more.deep_view());
    }

    pub fn args_mut(&mut self) -> (r: &mut Vec<String>)
        ensures
            r.deep_view() == old(self).spec_args(),
            final(self).spec_args() == final(r).deep_view(),
            final(self).spec_params() == old(self).spec_params(),
            final(self).spec_sources() == old(self).spec_sources(),
            final(self).spec_default_map() == old(self).spec_default_map(),
            old(self).wf() ==> final(self).wf(),
            final(self).spec_parent() == old(self).spec_parent(),
            final(self).spec_info_name() == old(self).spec_info_name(),
            final(self).spec_allow_extra_args() == old(self).spec_allow_extra_args(),
            final(self).spec_resilient_parsing() == old(self).spec_resilient_parsing(),
            final(self).spec_help_option_names() == old(self).spec_help_option_names(),
            final(self).spec_auto_envvar_prefix() == old(self).spec_auto_envvar_prefix(),
            final(self).spec_env() == old(self).spec_env(),
            final(self).path_names() == old(self).path_names(),
            final(self).spec_allow_interspersed_args() == old(self).spec_allow_interspersed_args(),
            final(self).spec_ignore_unknown_options() == old(self).spec_ignore_unknown_options(),
    {
        &mut self.args
    }

    /// The value of an environment variable, as the context sees the environment.
    pub fn env_var(&self, name: &str) -> (r: Option<&str>)
        requires
            self.wf(),
        ensures
            match r {
                Some(v) => self.spec_env().contains_key(name@) && self.spec_env()[name@]@ == v@,
                None => !self.spec_env().contains_key(name@),
            },
    {
        match self.environ.get(name) {
            Some(v) => Some(v.as_str()),
            None => None,
        }
    }

    /// The user object, if it is of type `T`.
    pub fn obj<T: FromValue>(&self) -> (r: Option<&T>)
        ensures
            r is Some <==> (self.spec_obj() matches Some(v) && T::holds(v)),
            r matches Some(x) ==> self.spec_obj() matches Some(v) && *x == T::of(v),
    {
        match &self.obj {
            Some(v) => T::from_value(v),
            None => None,
        }
    }

    /// Whether this context or one above has a user object of type `T`.
    pub closed spec fn obj_in_chain<T: FromValue>(&self) -> bool
        decreases self.depth(),
    {
        (self.obj matches Some(v) && T::holds(v)) || match self.parent {
            Some(p) => p.obj_in_chain::<T>(),
            None => false,
        }
    }

    /// The user object of type `T` of this context or the nearest one above
    /// that has one (meaningful where `obj_in_chain` holds).
    pub closed spec fn nearest_obj<T: FromValue>(&self) -> T
        decreases self.depth(),
    {
        if self.obj matches Some(v) && T::holds(v) {
            T::of(self.obj->0)
        } else {
            match self.parent {
                Some(p) => p.nearest_obj::<T>(),
                None => vstd::pervasive::arbitrary(),
            }
        }
    }

    /// The user object of type `T` of this context or the nearest one above.
    pub fn find_obj<T: FromValue>(&self) -> (r: Option<&T>)
        ensures
            r is Some <==> self.obj_in_chain::<T>(),
            r matches Some(x) ==> *x == self.nearest_obj::<T>(),
        decreases self.depth(),
    {
        match self.obj::<T>() {
            Some(o) => Some(o),
            None => match &self.parent {
                Some(p) => {
                    let pc: &Context = &**p;
                    assert(pc.depth() < self.depth());
                    pc.find_obj::<T>()
                },
                None => None,
            },
        }
    }

    pub fn set_obj(&mut self, obj: Value)
        ensures
            final(self).spec_obj() == Some(obj),
            final(self).spec_params() == old(self).spec_params(),
            old(self).wf() ==> final(self).wf(),
    {
        self.obj = Some(obj);
    }

    pub fn meta(&self) -> (r: &StrMap<Value>)
        ensures
            r.map() == self.spec_meta(),
    {
        &self.meta
    }

    pub fn meta_mut(&mut self) -> (r: &mut StrMap<Value>)
        ensures
            r.map() == old(self).spec_meta(),
            final(self).spec_meta() == final(r).map(),
            old(self).wf() ==> r.wf(),
            final(r).wf() ==> (old(self).wf() ==> final(self).wf()),
            final(self).spec_params() == old(self).spec_params(),
    {
        &mut self.meta
    }

    /// A metadata value, if it is of type `T`.
    pub fn get_meta<T: FromValue>(&self, key: &str) -> (r: Option<&T>)
        requires
            self.wf(),
        ensures
            r is Some <==> (self.spec_meta().contains_key(key@) && T::holds(self.spec_meta()[key@])),
    {
        match self.meta.get(key) {
            Some(v) => T::from_value(v),
            None => None,
        }
    }

    pub fn invoked_subcommand(&self) -> (r: Option<&str>)
        ensures
            opt_str_view(r) == self.spec_invoked_subcommand(),
    {
        match &self.invoked_subcommand {
            Some(n) => Some(n.as_str()),
            None => None,
        }
    }

    pub fn set_invoked_subcommand(&mut self, name: Option<String>)
        ensures
            final(self).spec_invoked_subcommand() == opt_view(name),
            final(self).spec_params() == old(self).spec_params(),
            final(self).spec_args() == old(self).spec_args(),
            old(self).wf() ==> final(self).wf(),
    {
        self.invoked_subcommand = name;
    }

    pub fn terminal_width(&self) -> (r: Option<usize>)
        ensures
            r == self.spec_terminal_width(),
    {
        self.terminal_width
    }

    pub fn max_content_width(&self) -> (r: Option<usize>)
        ensures
            r == self.spec_max_content_width(),
    {
        self.max_content_width
    }

    pub fn allow_extra_args(&self) -> (r: bool)
        ensures
            r == self.spec_allow_extra_args(),
    {
        self.allow_extra_args
    }

    pub fn allow_interspersed_args(&self) -> (r: bool)
        ensures
            r == self.spec_allow_interspersed_args(),
    {
        self.allow_interspersed_args
    }

    pub fn ignore_unknown_options(&self) -> (r: bool)
        ensures
            r == self.spec_ignore_unknown_options(),
    {
        self.ignore_unknown_options
    }

    pub fn help_option_names(&self) -> (r: &[String])
        ensures
            r@.map_values(|x: String| x@) == self.spec_help_option_names(),
    {
        let r = self.help_option_names.as_slice();
        assert(r@.map_values(|x: String| x@) =~= self.help_option_names.deep_view());
        r
    }

    pub fn resilient_parsing(&self) -> (r: bool)
        ensures
            r == self.spec_resilient_parsing(),
    {
        self.resilient_parsing
    }

    pub fn auto_envvar_prefix(&self) -> (r: Option<&str>)
        ensures
            opt_str_view(r) == self.spec_auto_envvar_prefix(),
    {
        match &self.auto_envvar_prefix {
            Some(n) => Some(n.as_str()),
            None => None,
        }
    }

    pub fn color(&self) -> (r: Option<bool>)
        ensures
            r == self.spec_color(),
    {
        self.color
    }

    pub fn show_default(&self) -> (r: Option<bool>)
        ensures
            r == self.spec_show_default(),
    {
        self.show_default
    }

    fn collect_path(&self, out: &mut Vec<String>)
        ensures
            final(out).deep_view() == old(out).deep_view() + self.path_names(),
        decreases self.depth(),
    {
        match &self.parent {
            Some(p) => {
                let pc: &Context = &**p;
                assert(pc.depth() < self.depth());
                pc.collect_path(out);
            },
            None => {
                assert(old(out).deep_view() + Seq::<Seq<char>>::empty() =~= old(out).deep_view());
            },
        }
        match &self.info_name {
            Some(n) => {
                let ghost od = out.deep_view();
                out.push(n.clone());
                assert(out.deep_view() =~= od.push(n@));
            },
            None => {},
        }
        assert(out.deep_view() =~= old(out).deep_view() + self.path_names());
    }

    /// The info names from the root down to this context, joined by spaces.
    pub fn command_path(&self) -> (r: String)
        ensures
            r@ == join_seq(self.path_names(), " "@),
    {
        let mut parts: Vec<String> = Vec::new();
        self.collect_path(&mut parts);
        assert(Seq::<Seq<char>>::empty() + self.path_names() =~= self.path_names());
        join(&parts, " ")
    }

    pub closed spec fn spec_root(&self) -> Context
        decreases self,
    {
        match self.parent {
            Some(p) => p.spec_root(),
            None => *self,
        }
    }

    /// The outermost context.
    pub fn find_root(&self) -> (r: &Context)
        ensures
            *r == self.spec_root(),
        decreases self.depth(),
    {
        match &self.parent {
            Some(p) => {
                let pc: &Context = &**p;
                assert(pc.depth() < self.depth());
                pc.find_root()
            },
            None => self,
        }
    }

    pub fn get_parameter_source(&self, name: &str) -> (r: Option<ParameterSource>)
        requires
            self.wf(),
        ensures
            match r {
                Some(s) => self.spec_sources().contains_key(name@) && self.spec_sources()[name@] == s,
                None => !self.spec_sources().contains_key(name@),
            },
    {
        match self.parameter_source.get(name) {
            Some(s) => Some(*s),
            None => None,
        }
    }

    pub fn set_parameter_source(&mut self, name: &str, source: ParameterSource)
        requires
            old(self).wf(),
        ensures
            final(self).wf(),
            final(self).spec_sources() == old(self).spec_sources().insert(name@, source),
            final(self).spec_params() == old(self).spec_params(),
            final(self).spec_args() == old(self).spec_args(),
            final(self).spec_parent() == old(self).spec_parent(),
            final(self).spec_info_name() == old(self).spec_info_name(),
            final(self).spec_default_map() == old(self).spec_default_map(),
            final(self).spec_allow_extra_args() == old(self).spec_allow_extra_args(),
            final(self).spec_resilient_parsing() == old(self).spec_resilient_parsing(),
            final(self).spec_help_option_names() == old(self).spec_help_option_names(),
            final(self).spec_auto_envvar_prefix() == old(self).spec_auto_envvar_prefix(),
            final(self).spec_env() == old(self).spec_env(),
            final(self).path_names() == old(self).path_names(),
            final(self).spec_allow_interspersed_args() == old(self).spec_allow_interspersed_args(),
            final(self).spec_ignore_unknown_options() == old(self).spec_ignore_unknown_options(),
    {
        self.parameter_source.insert(str_of(name), source);
    }

    /// A usage error with the message.
    pub fn fail(&self, message: &str) -> (r: ClickError)
        ensures
            r matches ClickError::UsageError { message: m, ctx: None } && m@ == message@,
    {
        ClickError::usage(message)
    }

    pub fn abort(&self) -> (r: ClickError)
        ensures
            r is Abort,
    {
        ClickError::abort()
    }

    pub fn exit(&self, code: i32) -> (r: ClickError)
        ensures
            r matches ClickError::Exit { code: c } && c == code,
    {
        ClickError::exit(code)
    }

    /// Register a callback to run when the context is closed. The callbacks
    /// are kept in a cell, so that a command's callback, which sees its
    /// context through a shared reference, can register one.
    pub fn call_on_close<F: Fn() + 'static>(&self, f: F) {
        let b: Box<dyn CloseCallback> = Box::new(f);
        let mut cbs = self.close_callbacks.replace(Vec::new());
        cbs.push(b);
        self.close_callbacks.set(cbs);
    }

    /// Run the registered callbacks, the last registered first; each runs once.
    pub fn close(&self) {
        let mut cbs = self.close_callbacks.replace(Vec::new());
        while cbs.len() > 0
            decreases cbs@.len(),
        {
            let cb = cbs.pop().unwrap();
            cb.run();
        }
    }

    /// The default of a parameter in the default map.
    pub fn lookup_default(&self, name: &str) -> (r: Option<&Value>)
        requires
            self.wf(),
        ensures
            match self.spec_default_map() {
                Some(m) => match r {
                    Some(v) => m.contains_key(name@) && m[name@] == *v,
                    None => !m.contains_key(name@),
                },
                None => r is None,
            },
    {
        match &self.default_map {
            Some(m) => m.get(name),
            None => None,
        }
    }

    /// Register `cleanup` to run when the context closes, then run `f` on the resource.
    pub fn with_resource<T, R, F: Fn(&T) -> R, C: Fn() + 'static>(&mut self, resource: T, f: F, cleanup: C) -> (r: R)
        ensures
            final(self).spec_params() == old(self).spec_params(),
            call_requires(f, (&resource,)) ==> call_ensures(f, (&resource,), r),
    {
        self.call_on_close(cleanup);
        call_with_resource(&f, &resource)
    }
}

/// Runs a user's closure on a resource (std's `Fn::call`): where the arguments meet the closure's own precondition, what comes back is
/// what the closure returns for it.
#[verifier::external_body]
fn call_with_resource<T, R, F: Fn(&T) -> R>(f: &F, resource: &T) -> (r: R)
    ensures
        call_requires(*f, (resource,)) ==> call_ensures(*f, (resource,), r),
{
    f(resource)
}

/// Builds a context, inheriting from its parent what is not set.
pub struct ContextBuilder {
    pub parent: Option<Arc<Context>>,
    pub info_name: Option<String>,
    pub obj: Option<Value>,
    pub auto_envvar_prefix: Option<String>,
    pub default_map: Option<StrMap<Value>>,
    pub terminal_width: Option<usize>,
    pub max_content_width: Option<usize>,
    pub resilient_parsing: bool,
    pub allow_extra_args: Option<bool>,
    pub allow_interspersed_args: Option<bool>,
    pub ignore_unknown_options: Option<bool>,
    pub help_option_names: Option<Vec<String>>,
    pub color: Option<bool>,
    pub show_default: Option<bool>,
    pub environ: Option<StrMap<String>>,
}

pub open spec fn or_opt<T>(a: Option<T>, b: Option<T>) -> Option<T> {
    match a {
        Some(x) => Some(x),
        None => b,
    }
}

impl ContextBuilder {
    pub open spec fn spec_parent(&self) -> Option<Context> {
        match self.parent {
            Some(p) => Some(*p),
            None => None,
        }
    }

    pub open spec fn spec_info_name(&self) -> Option<Seq<char>> {
        opt_view(self.info_name)
    }

    pub open spec fn spec_obj(&self) -> Option<Value> {
        self.obj
    }

    pub open spec fn spec_prefix(&self) -> Option<Seq<char>> {
        opt_view(self.auto_envvar_prefix)
    }

    pub open spec fn spec_has_default_map(&self) -> bool {
        self.default_map is Some
    }

    pub open spec fn spec_terminal_width(&self) -> Option<usize> {
        self.terminal_width
    }

    pub open spec fn spec_max_content_width(&self) -> Option<usize> {
        self.max_content_width
    }

    pub open spec fn spec_resilient_parsing(&self) -> bool {
        self.resilient_parsing
    }

    pub open spec fn spec_allow_extra_args(&self) -> Option<bool> {
        self.allow_extra_args
    }

    pub open spec fn spec_allow_interspersed_args(&self) -> Option<bool> {
        self.allow_interspersed_args
    }

    pub open spec fn spec_ignore_unknown_options(&self) -> Option<bool> {
        self.ignore_unknown_options
    }

    pub open spec fn spec_help_option_names(&self) -> Option<Seq<Seq<char>>> {
        match self.help_option_names {
            Some(v) => Some(v.deep_view()),
            None => None,
        }
    }

    pub open spec fn spec_color(&self) -> Option<bool> {
        self.color
    }

    pub open spec fn spec_show_default(&self) -> Option<bool> {
        self.show_default
    }

    /// Nothing set.
    pub fn new() -> (r: Self)
        ensures
            r.spec_parent() is None && r.spec_info_name() is None && r.spec_obj() is None && r.spec_prefix() is None
                && !r.spec_has_default_map() && r.spec_terminal_width() is None && r.spec_max_content_width() is None
                && !r.spec_resilient_parsing() && r.spec_allow_extra_args() is None
                && r.spec_allow_interspersed_args() is None && r.spec_ignore_unknown_options() is None
                && r.spec_help_option_names() is None && r.spec_color() is None && r.spec_show_default() is None,
            r.environ is None && r.auto_envvar_prefix is None && r.parent is None,
    {
        ContextBuilder {
            parent: None,
            info_name: None,
            obj: None,
            auto_envvar_prefix: None,
            default_map: None,
            terminal_width: None,
            max_content_width: None,
            resilient_parsing: false,
            allow_extra_args: None,
            allow_interspersed_args: None,
            ignore_unknown_options: None,
            help_option_names: None,
            color: None,
            show_default: None,
            environ: None,
        }
    }

    /// The environment the context reads parameter values from.
    pub fn env(self, vars: StrMap<String>) -> (r: Self)
        ensures
            r == (ContextBuilder { environ: Some(vars), ..self }),
    {
        let mut s = self;
        s.environ = Some(vars);
        s
    }

    pub fn parent(self, parent: Arc<Context>) -> (r: Self)
        ensures
            r == (ContextBuilder { parent: Some(parent), ..self }),
    {
        let mut s = self;
        s.parent = Some(parent);
        s
    }

    pub fn info_name<S: IntoText>(self, name: S) -> (r: Self)
        ensures
            r.spec_info_name() == Some(name.text()),
            r == (ContextBuilder { info_name: r.info_name, ..self }),
    {
        let mut s = self;
        s.info_name = Some(name.into_string());
        s
    }

    pub fn obj(self, obj: Value) -> (r: Self)
        ensures
            r == (ContextBuilder { obj: Some(obj), ..self }),
    {
        let mut s = self;
        s.obj = Some(obj);
        s
    }

    pub fn auto_envvar_prefix<S: IntoText>(self, prefix: S) -> (r: Self)
        ensures
            r.spec_prefix() == Some(prefix.text()),
            r == (ContextBuilder { auto_envvar_prefix: r.auto_envvar_prefix, ..self }),
    {
        let mut s = self;
        s.auto_envvar_prefix = Some(prefix.into_string());
        s
    }

    pub fn default_map(self, map: StrMap<Value>) -> (r: Self)
        ensures
            r == (ContextBuilder { default_map: Some(map), ..self }),
    {
        let mut s = self;
        s.default_map = Some(map);
        s
    }

    pub fn terminal_width(self, width: usize) -> (r: Self)
        ensures
            r == (ContextBuilder { terminal_width: Some(width), ..self }),
    {
        let mut s = self;
        s.terminal_width = Some(width);
        s
    }

    pub fn max_content_width(self, width: usize) -> (r: Self)
        ensures
            r == (ContextBuilder { max_content_width: Some(width), ..self }),
    {
        let mut s = self;
        s.max_content_width = Some(width);
        s
    }

    pub fn resilient_parsing(self, enabled: bool) -> (r: Self)
        ensures
            r == (ContextBuilder { resilient_parsing: enabled, ..self }),
    {
        let mut s = self;
        s.resilient_parsing = enabled;
        s
    }

    pub fn allow_extra_args(self, allow: bool) -> (r: Self)
        ensures
            r == (ContextBuilder { allow_extra_args: Some(allow), ..self }),
    {
        let mut s = self;
        s.allow_extra_args = Some(allow);
        s
    }

    pub fn allow_interspersed_args(self, allow: bool) -> (r: Self)
        ensures
            r == (ContextBuilder { allow_interspersed_args: Some(allow), ..self }),
    {
        let mut s = self;
        s.allow_interspersed_args = Some(allow);
        s
    }

    pub fn ignore_unknown_options(self, ignore: bool) -> (r: Self)
        ensures
            r == (ContextBuilder { ignore_unknown_options: Some(ignore), ..self }),
    {
        let mut s = self;
        s.ignore_unknown_options = Some(ignore);
        s
    }

    pub fn help_option_names(self, names: Vec<String>) -> (r: Self)
        ensures
            r.spec_help_option_names() == Some(names.deep_view()),
            r == (ContextBuilder { help_option_names: r.help_option_names, ..self }),
    {
        let mut s = self;
        s.help_option_names = Some(names);
        s
    }

    pub fn color(self, color: bool) -> (r: Self)
        ensures
            r == (ContextBuilder { color: Some(color), ..self }),
    {
        let mut s = self;
        s.color = Some(color);
        s
    }

    pub fn show_default(self, show: bool) -> (r: Self)
        ensures
            r == (ContextBuilder { show_default: Some(show), ..self }),
    {
        let mut s = self;
        s.show_default = Some(show);
        s
    }

    /// The prefix the built context gets: the given one normalized, else the
    /// parent's followed by this context's name.
    pub closed spec fn built_prefix(&self) -> Option<Seq<char>> {
        match self.auto_envvar_prefix {
            Some(p) => Some(envvar_form(p@)),
            None => match (self.parent, self.info_name) {
                (Some(par), Some(n)) => match par.auto_envvar_prefix {
                    Some(pp) => Some(pp@ + "_"@ + envvar_form(n@)),
                    None => None,
                },
                _ => None,
            },
        }
    }

    /// The prefix the built context gets, in full: the given one in
    /// environment form; else, for a named context under a parent, the
    /// parent's prefix, `_` and the name in environment form.
    pub proof fn lemma_prefix(&self)
        ensures
            self.built_prefix() == match self.auto_envvar_prefix {
                Some(p) => Some(envvar_form(p@)),
                None => match self.spec_info_name() {
                    Some(n) => child_prefix(self.spec_parent(), n),
                    None => None,
                },
            },
    {
    }

    pub proof fn lemma_built_prefix(&self, n: Seq<char>)
        requires
            self.auto_envvar_prefix is None,
            self.spec_info_name() == Some(n),
        ensures
            self.built_prefix() == child_prefix(self.spec_parent(), n),
    {
    }

    /// The context: settings not given are inherited from the parent (the
    /// widths, color, show-default, help option names and the object), or take
    /// their defaults.
    pub fn build(self) -> (r: Context)
        ensures
            r.wf(),
            r.spec_parent() == self.spec_parent(),
            r.spec_info_name() == self.spec_info_name(),
            r.spec_params() == Map::<Seq<char>, Value>::empty(),
            r.spec_args() == Seq::<Seq<char>>::empty(),
            r.spec_invoked_subcommand() is None,
            r.spec_sources() == Map::<Seq<char>, ParameterSource>::empty(),
            r.spec_allow_extra_args() == (self.spec_allow_extra_args() == Some(true)),
            r.spec_allow_interspersed_args() == (self.spec_allow_interspersed_args() != Some(false)),
            r.spec_ignore_unknown_options() == (self.spec_ignore_unknown_options() == Some(true)),
            r.spec_resilient_parsing() == self.spec_resilient_parsing(),
            r.spec_auto_envvar_prefix() == self.built_prefix(),
            match self.environ {
                Some(e) => e.wf() ==> r.spec_env() == e.map(),
                None => match self.spec_parent() {
                    Some(p) => p.wf() ==> r.spec_env() == p.spec_env(),
                    None => r.spec_env() == Map::<Seq<char>, String>::empty(),
                },
            },
            match self.spec_parent() {
                Some(p) => {
                    &&& r.spec_terminal_width() == or_opt(self.spec_terminal_width(), p.spec_terminal_width())
                    &&& r.spec_max_content_width() == or_opt(self.spec_max_content_width(), p.spec_max_content_width())
                    &&& r.spec_color() == or_opt(self.spec_color(), p.spec_color())
                    &&& r.spec_show_default() == or_opt(self.spec_show_default(), p.spec_show_default())
                    &&& r.spec_help_option_names() == match self.spec_help_option_names() {
                        Some(h) => h,
                        None => p.spec_help_option_names(),
                    }
                    &&& (self.spec_obj() is Some ==> r.spec_obj() == self.spec_obj())
                    &&& (self.spec_obj() is None ==> match p.spec_obj() {
                        Some(v) => r.spec_obj() matches Some(w) && copy_of(w, v),
                        None => r.spec_obj() is None,
                    })
                    &&& (p.wf() ==> r.spec_meta().dom() == p.spec_meta().dom() && forall|k: Seq<char>| #[trigger]
                        r.spec_meta().contains_key(k) ==> copy_of(r.spec_meta()[k], p.spec_meta()[k]))
                },
                None => {
                    &&& r.spec_terminal_width() == self.spec_terminal_width()
                    &&& r.spec_max_content_width() == self.spec_max_content_width()
                    &&& r.spec_color() == self.spec_color()
                    &&& r.spec_show_default() == self.spec_show_default()
                    &&& r.spec_help_option_names() == match self.spec_help_option_names() {
                        Some(h) => h,
                        None => seq!["--help"@],
                    }
                    &&& r.spec_obj() == self.spec_obj()
                    &&& r.spec_meta() == Map::<Seq<char>, Value>::empty()
                },
            },
    {
        let b = self;
        let default_names = {
            let mut v: Vec<String> = Vec::new();
            v.push(String::from_str("--help"));
            v
        };
        proof {
            assert(default_names.deep_view() =~= seq!["--help"@]);
        }
        let prefix = match &b.auto_envvar_prefix {
            Some(p) => Some(envvar_form_exec(p.as_str())),
            None => match (&b.parent, &b.info_name) {
                (Some(par), Some(n)) => match &par.auto_envvar_prefix {
                    Some(pp) => {
                        let nf = envvar_form_exec(n.as_str());
                        Some(cat3(pp.as_str(), "_", nf.as_str()))
                    },
                    None => None,
                },
                _ => None,
            },
        };
        let (terminal_width, max_content_width, color, show_default, help_option_names, obj, meta) = match &b.parent {
            Some(p) => {
                let names = match b.help_option_names {
                    Some(h) => h,
                    None => clone_strings(&p.help_option_names),
                };
                let obj = match b.obj {
                    Some(o) => Some(o),
                    None => match &p.obj {
                        Some(o) => Some(o.duplicate()),
                        None => None,
                    },
                };
                let meta = if p.meta.is_wf() {
                    clone_values(&p.meta)
                } else {
                    StrMap::new()
                };
                (
                    or_opt_exec(b.terminal_width, p.terminal_width),
                    or_opt_exec(b.max_content_width, p.max_content_width),
                    or_opt_exec(b.color, p.color),
                    or_opt_exec(b.show_default, p.show_default),
                    names,
                    obj,
                    meta,
                )
            },
            None => {
                let names = match b.help_option_names {
                    Some(h) => h,
                    None => default_names,
                };
                (b.terminal_width, b.max_content_width, b.color, b.show_default, names, b.obj, StrMap::new())
            },
        };
        let environ = match b.environ {
            Some(e) => if e.is_wf() {
                e
            } else {
                StrMap::new()
            },
            None => match &b.parent {
                Some(p) => if p.environ.is_wf() {
                    clone_strmap_strings(&p.environ)
                } else {
                    StrMap::new()
                },
                None => StrMap::new(),
            },
        };
        let default_map = match b.default_map {
            Some(m) => if m.is_wf() {
                Some(m)
            } else {
                Some(StrMap::new())
            },
            None => None,
        };
        Context {
            parent: b.parent,
            info_name: b.info_name,
            params: StrMap::new(),
            args: Vec::new(),
            obj,
            meta,
            default_map,
            invoked_subcommand: None,
            terminal_width,
            max_content_width,
            allow_extra_args: match b.allow_extra_args {
                Some(x) => x,
                None => false,
            },
            allow_interspersed_args: match b.allow_interspersed_args {
                Some(x) => x,
                None => true,
            },
            ignore_unknown_options: match b.ignore_unknown_options {
                Some(x) => x,
                None => false,
            },
            help_option_names,
            resilient_parsing: b.resilient_parsing,
            auto_envvar_prefix: prefix,
            color,
            show_default,
            parameter_source: StrMap::new(),
            close_callbacks: InvCell::new(Vec::new(), Ghost(AnyCallbacks)),
            environ,
        }
    }
}

fn or_opt_exec<T: Copy>(a: Option<T>, b: Option<T>) -> (r: Option<T>)
    ensures
        r == or_opt(a, b),
{
    match a {
        Some(x) => Some(x),
        None => b,
    }
}

} // verus!
