//! Options: named parameters such as `--name VALUE`, `-v`, `--flag`.

use vstd::prelude::*;
use crate::argument::{AnyTypeConverter, ParameterCallback, installs};
use crate::context::Context;
use crate::error::{ClickError, IntoText, opt_view};
use crate::parameter::{Nargs, Parameter, ParameterConfig, optvec_view};
use crate::types::{StringType, TypeConverter, Value};
use crate::text::{
    blen, utf8_len, cat2, cat3, cat5, join, join_seq, push_str, str_of, contains_char, starts_with, ends_with,
    replace_char, replace_char_seq, seq_starts_with, seq_ends_with,
};

verus! {

// =============================================================================
// Option names
// =============================================================================

pub open spec fn starts_two_dashes(s: Seq<char>) -> bool {
    s.len() >= 2 && s[0] == '-' && s[1] == '-'
}

/// What `parse_option_name` returns: the name without its dashes and whether it
/// is long, or why it is not a valid option name.
pub open spec fn spec_parse_option_name(s: Seq<char>) -> Result<(Seq<char>, bool), Seq<char>> {
    if starts_two_dashes(s) {
        let st = s.skip(2);
        if st.len() == 0 {
            Err("Long option name cannot be empty: '--'"@)
        } else if st[0] == '-' {
            Err("Long option name cannot start with dash: '"@ + s + "'"@)
        } else {
            Ok((st, true))
        }
    } else if s.len() > 0 && s[0] == '-' {
        let st = s.skip(1);
        if st.len() == 0 {
            Err("Short option name cannot be empty: '-'"@)
        } else if blen(st) != 1 {
            Err("Short option must be a single character: '"@ + s + "' (use '--"@ + st + "' for long options)"@)
        } else if st[0] == '-' {
            Err("Short option cannot be a dash: '"@ + s + "'"@)
        } else {
            Ok((st, false))
        }
    } else {
        Err("Option name must start with '-' or '--': '"@ + s + "'"@)
    }
}

fn is_single_byte(s: &str) -> (r: bool)
    ensures
        r == (blen(s@) == 1),
{
    let n = s.unicode_len();
    if n != 1 {
        proof {
            crate::text::lemma_blen_ge_len(s@);
            if n == 0 {
                assert(blen(s@) == 0);
            }
        }
        return false;
    }
    let c = s.get_char(0);
    proof {
        assert(s@ =~= seq![c]);
        assert(s@.drop_last() =~= Seq::<char>::empty());
        assert(blen(Seq::<char>::empty()) == 0);
    }
    crate::text::char_len_utf8(c) == 1
}

/// Parse an option name: `--name` is long, `-n` short (one character).
pub fn parse_option_name(name: &str) -> (r: Result<(String, bool), String>)
    ensures
        match spec_parse_option_name(name@) {
            Ok((n, l)) => r matches Ok((x, y)) && x@ == n && y == l,
            Err(m) => r matches Err(x) && x@ == m,
        },
{
    let n = name.unicode_len();
    if n >= 2 && name.get_char(0) == '-' && name.get_char(1) == '-' {
        let st = name.substring_char(2, n);
        assert(st@ =~= name@.skip(2));
        if st.unicode_len() == 0 {
            return Err(String::from_str("Long option name cannot be empty: '--'"));
        }
        if st.get_char(0) == '-' {
            return Err(cat3("Long option name cannot start with dash: '", name, "'"));
        }
        Ok((str_of(st), true))
    } else if n > 0 && name.get_char(0) == '-' {
        let st = name.substring_char(1, n);
        assert(st@ =~= name@.skip(1));
        if st.unicode_len() == 0 {
            return Err(String::from_str("Short option name cannot be empty: '-'"));
        }
        if !is_single_byte(st) {
            return Err(cat5("Short option must be a single character: '", name, "' (use '--", st, "' for long options)"));
        }
        if st.get_char(0) == '-' {
            return Err(cat3("Short option cannot be a dash: '", name, "'"));
        }
        Ok((str_of(st), false))
    } else {
        Err(cat3("Option name must start with '-' or '--': '", name, "'"))
    }
}

/// The long and short names among `ns` (in order), or the first error.
pub open spec fn spec_split_names(ns: Seq<Seq<char>>) -> Result<(Seq<Seq<char>>, Seq<Seq<char>>), Seq<char>>
    decreases ns.len(),
{
    if ns.len() == 0 {
        Ok((seq![], seq![]))
    } else {
        match spec_split_names(ns.drop_last()) {
            Err(e) => Err(e),
            Ok((l, s)) => match spec_parse_option_name(ns.last()) {
                Err(e) => Err(e),
                Ok((_, is_long)) => if is_long {
                    Ok((l.push(ns.last()), s))
                } else {
                    Ok((l, s.push(ns.last())))
                },
            },
        }
    }
}

/// What `split_option_names` returns: the long and short names, unless a name is
/// not valid or there is none.
pub open spec fn spec_split_option_names(ns: Seq<Seq<char>>) -> Result<(Seq<Seq<char>>, Seq<Seq<char>>), Seq<char>> {
    match spec_split_names(ns) {
        Err(e) => Err(e),
        Ok((l, s)) => if l.len() == 0 && s.len() == 0 {
            Err("At least one option name is required"@)
        } else {
            Ok((l, s))
        },
    }
}

pub open spec fn names_view(names: Seq<&str>) -> Seq<Seq<char>> {
    names.map_values(|x: &str| x@)
}

/// Split option names into the long ones and the short ones, each kept with its
/// dashes.
pub fn split_option_names(names: &[&str]) -> (r: Result<(Vec<String>, Vec<String>), String>)
    ensures
        match spec_split_option_names(names_view(names@)) {
            Ok((l, s)) => r matches Ok((x, y)) && x.deep_view() == l && y.deep_view() == s,
            Err(m) => r matches Err(x) && x@ == m,
        },
{
    let ghost nv = names_view(names@);
    let mut long: Vec<String> = Vec::new();
    let mut short: Vec<String> = Vec::new();
    let mut i: usize = 0;
    assert(nv.take(0) =~= Seq::<Seq<char>>::empty());
    assert(long.deep_view() =~= Seq::<Seq<char>>::empty());
    assert(short.deep_view() =~= Seq::<Seq<char>>::empty());
    while i < names.len()
        invariant
            i <= names@.len(),
            nv == names_view(names@),
            spec_split_names(nv.take(i as int)) == Ok::<(Seq<Seq<char>>, Seq<Seq<char>>), Seq<char>>(
                (long.deep_view(), short.deep_view()),
            ),
        decreases names@.len() - i,
    {
        assert(nv.take(i + 1).drop_last() =~= nv.take(i as int));
        assert(nv.take(i + 1).last() == names@[i as int]@);
        match parse_option_name(names[i]) {
            Err(e) => {
                proof {
                    lemma_split_names_err_prefix(nv, i + 1);
                }
                return Err(e);
            },
            Ok((_, is_long)) => {
                if is_long {
                    let ghost od = long.deep_view();
                    long.push(str_of(names[i]));
                    assert(long.deep_view() =~= od.push(names@[i as int]@));
                } else {
                    let ghost od = short.deep_view();
                    short.push(str_of(names[i]));
                    assert(short.deep_view() =~= od.push(names@[i as int]@));
                }
            },
        }
        i = i + 1;
    }
    assert(nv.take(names@.len() as int) =~= nv);
    if long.len() == 0 && short.len() == 0 {
        return Err(String::from_str("At least one option name is required"));
    }
    Ok((long, short))
}

/// An error in a prefix of the names is the error of all of them.
proof fn lemma_split_names_err_prefix(ns: Seq<Seq<char>>, k: int)
    requires
        0 <= k <= ns.len(),
        spec_split_names(ns.take(k)) is Err,
    ensures
        spec_split_names(ns) == spec_split_names(ns.take(k)),
    decreases ns.len() - k,
{
    if k < ns.len() {
        assert(ns.take(k + 1).drop_last() =~= ns.take(k));
        lemma_split_names_err_prefix(ns, k + 1);
    } else {
        assert(ns.take(k) =~= ns);
    }
}

/// Index of the longest string (in bytes), the last of the longest.
pub open spec fn last_longest(s: Seq<Seq<char>>) -> int
    decreases s.len(),
{
    if s.len() <= 1 {
        0
    } else {
        let m = last_longest(s.drop_last());
        if blen(s.last()) >= blen(s.drop_last()[m]) {
            s.len() - 1
        } else {
            m
        }
    }
}

proof fn lemma_last_longest_bound(s: Seq<Seq<char>>)
    requires
        s.len() > 0,
    ensures
        0 <= last_longest(s) < s.len(),
    decreases s.len(),
{
    if s.len() > 1 {
        lemma_last_longest_bound(s.drop_last());
    }
}

/// `s` without its leading dashes.
pub open spec fn strip_dashes(s: Seq<char>) -> Seq<char>
    decreases s.len(),
{
    if s.len() > 0 && s[0] == '-' {
        strip_dashes(s.drop_first())
    } else {
        s
    }
}

/// The parameter name of an option: its longest long name (else its first short
/// name) without dashes in front, other dashes made underscores.
pub open spec fn spec_param_name(long: Seq<Seq<char>>, short: Seq<Seq<char>>) -> Seq<char> {
    let src = if long.len() > 0 {
        strip_dashes(long[last_longest(long)])
    } else if short.len() > 0 {
        strip_dashes(short[0])
    } else {
        seq![]
    };
    replace_char_seq(src, '-', '_')
}

fn strip_dashes_exec(s: &str) -> (r: String)
    ensures
        r@ == strip_dashes(s@),
{
    let n = s.unicode_len();
    let mut i: usize = 0;
    assert(s@.skip(0) =~= s@);
    while i < n && s.get_char(i) == '-'
        invariant
            n == s@.len(),
            i <= n,
            strip_dashes(s@) == strip_dashes(s@.skip(i as int)),
        decreases n - i,
    {
        assert(s@.skip(i as int).drop_first() =~= s@.skip(i + 1));
        i = i + 1;
    }
    let r = s.substring_char(i, n);
    assert(r@ =~= s@.skip(i as int));
    str_of(r)
}

/// The parameter name of an option with the given long and short names.
pub fn derive_param_name(long: &Vec<String>, short: &Vec<String>) -> (r: String)
    ensures
        r@ == spec_param_name(long.deep_view(), short.deep_view()),
{
    let ghost lv = long.deep_view();
    let src = if long.len() > 0 {
        let mut best: usize = 0;
        let mut best_len = utf8_len(long[0].as_str());
        let mut i: usize = 1;
        while i < long.len()
            invariant
                lv == long.deep_view(),
                1 <= i <= lv.len(),
                best < i,
                best as int == last_longest(lv.take(i as int)),
                best_len == blen(lv[best as int]),
            decreases lv.len() - i,
        {
            assert(lv.take(i + 1).drop_last() =~= lv.take(i as int));
            assert(long@[i as int]@ == lv[i as int]);
            let l = utf8_len(long[i].as_str());
            if l >= best_len {
                best = i;
                best_len = l;
            }
            i = i + 1;
        }
        assert(lv.take(lv.len() as int) =~= lv);
        assert(long@[best as int]@ == lv[best as int]);
        strip_dashes_exec(long[best].as_str())
    } else if short.len() > 0 {
        strip_dashes_exec(short[0].as_str())
    } else {
        String::new()
    };
    replace_char(src.as_str(), '-', '_')
}

// =============================================================================
// Options
// =============================================================================

/// A named parameter.
pub struct ClickOption {
    pub config: ParameterConfig,
    pub long: Vec<String>,
    pub short: Vec<String>,
    /// Takes no value.
    pub is_flag: bool,
    /// `--flag/--no-flag`.
    pub is_bool_flag: bool,
    /// The value when the flag is given.
    pub flag_value: Option<String>,
    pub secondary_value: Option<String>,
    /// Counts how often it is given.
    pub count: bool,
    pub prompt: Option<String>,
    pub confirmation_prompt: bool,
    pub hide_input: bool,
    pub show_default: bool,
    pub show_envvar: bool,
    pub default: Option<String>,
    /// The type's name.
    pub kind_name: String,
    /// The type's placeholder.
    pub type_metavar: Option<String>,
    pub type_converter: Box<dyn AnyTypeConverter>,
    pub callback: Option<Box<dyn ParameterCallback>>,
}

/// The names of an option as help shows them: short ones first, then long.
pub open spec fn opts_seq(o: ClickOption) -> Seq<char> {
    join_seq(o.short.deep_view() + o.long.deep_view(), ", "@)
}

/// The placeholder of an option's value.
pub open spec fn option_metavar(o: ClickOption) -> Option<Seq<char>> {
    match o.config.metavar {
        Some(m) => Some(m@),
        None => match o.type_metavar {
            Some(mv) => if mv@.contains('|') && !(seq_starts_with(mv@, seq!['[']) && seq_ends_with(mv@, seq![']'])) {
                Some(seq!['['] + mv@ + seq![']'])
            } else {
                Some(mv@)
            },
            None => if o.kind_name@.len() > 0 {
                Some(o.kind_name@)
            } else {
                None
            },
        },
    }
}

/// The notes after an option's help: its environment variables, its default,
/// whether it is required.
pub open spec fn option_extras(o: ClickOption) -> Seq<Seq<char>> {
    let e1: Seq<Seq<char>> = if o.show_envvar && o.config.envvar is Some {
        seq!["env var: "@ + join_seq(optvec_view(o.config.envvar)->0, ", "@)]
    } else {
        seq![]
    };
    let e2 = if o.show_default && o.default is Some && opt_view(o.default)->0.len() > 0 {
        e1.push("default: "@ + opt_view(o.default)->0)
    } else {
        e1
    };
    if o.config.required {
        e2.push("required"@)
    } else {
        e2
    }
}

/// The two columns of an option's line in help.
pub open spec fn option_help_record(o: ClickOption) -> (Seq<char>, Seq<char>) {
    let names = opts_seq(o);
    let left = if !o.is_flag && !o.count && option_metavar(o) is Some {
        names + seq![' '] + option_metavar(o)->0
    } else {
        names
    };
    let help = match o.config.help {
        Some(h) => h@,
        None => Seq::<char>::empty(),
    };
    let ex = option_extras(o);
    let right = if ex.len() > 0 {
        if help.len() == 0 {
            seq!['['] + join_seq(ex, "; "@) + seq![']']
        } else {
            help + "  ["@ + join_seq(ex, "; "@) + seq![']']
        }
    } else {
        help
    };
    (left, right)
}

impl ClickOption {
    /// A builder for an option with the given names (with their dashes).
    pub fn new(names: &[&str]) -> (r: OptionBuilder)
        requires
            spec_split_option_names(names_view(names@)) is Ok,
        ensures
            r.is_new_for(names_view(names@)),
    {
        OptionBuilder::new(names)
    }

    /// All the option's names, short ones first, separated by commas.
    pub fn opts_string(&self) -> (r: String)
        ensures
            r@ == opts_seq(*self),
    {
        let mut parts: Vec<String> = Vec::new();
        let mut i: usize = 0;
        while i < self.short.len()
            invariant
                i <= self.short@.len(),
                parts.deep_view() =~= self.short.deep_view().take(i as int),
            decreases self.short@.len() - i,
        {
            let ghost od = parts.deep_view();
            parts.push(self.short[i].clone());
            assert(parts.deep_view() =~= od.push(self.short@[i as int]@));
            i = i + 1;
        }
        assert(self.short.deep_view().take(self.short@.len() as int) =~= self.short.deep_view());
        let mut j: usize = 0;
        while j < self.long.len()
            invariant
                j <= self.long@.len(),
                parts.deep_view() =~= self.short.deep_view() + self.long.deep_view().take(j as int),
            decreases self.long@.len() - j,
        {
            let ghost od = parts.deep_view();
            parts.push(self.long[j].clone());
            assert(parts.deep_view() =~= od.push(self.long@[j as int]@));
            j = j + 1;
        }
        assert(self.long.deep_view().take(self.long@.len() as int) =~= self.long.deep_view());
        join(&parts, ", ")
    }

    /// The first long name, else the first short name, else nothing.
    pub fn primary_opt(&self) -> (r: &str)
        ensures
            r@ == if self.long@.len() > 0 {
                self.long@[0]@
            } else if self.short@.len() > 0 {
                self.short@[0]@
            } else {
                Seq::<char>::empty()
            },
    {
        if self.long.len() > 0 {
            self.long[0].as_str()
        } else if self.short.len() > 0 {
            self.short[0].as_str()
        } else {
            proof {
                reveal_strlit("");
            }
            ""
        }
    }

    pub fn type_converter(&self) -> &dyn AnyTypeConverter {
        &*self.type_converter
    }

    /// Convert one value with the option's type.
    pub fn convert_any(&self, value: &str) -> (r: Result<Value, String>)
        ensures
            self.type_converter.converts_any(value@, r),
    {
        self.type_converter.convert_any(value)
    }

    /// Convert several values with the option's type.
    pub fn convert_multi(&self, values: &[String]) -> (r: Result<Value, String>)
        ensures
            match r {
                Ok(v) => v matches Value::List(items) && items@.len() == values@.len() && forall|k: int|
                    0 <= k < values@.len() ==> #[trigger] self.type_converter.converts_any(
                        values@[k]@,
                        Ok::<Value, String>(items@[k]),
                    ),
                Err(e) => exists|k: int|
                    0 <= k < values@.len() && #[trigger] self.type_converter.converts_any(values@[k]@, Err(e)),
            },
    {
        self.type_converter.convert_multi(values)
    }
}

impl Parameter for ClickOption {
    open spec fn spec_name(&self) -> Seq<char> {
        self.config.name@
    }

    open spec fn spec_nargs(&self) -> Nargs {
        self.config.nargs
    }

    open spec fn spec_multiple(&self) -> bool {
        self.config.multiple
    }

    open spec fn spec_required(&self) -> bool {
        self.config.required
    }

    open spec fn spec_expose_value(&self) -> bool {
        self.config.expose_value
    }

    open spec fn spec_hidden(&self) -> bool {
        self.config.hidden
    }

    open spec fn spec_eager(&self) -> bool {
        self.config.is_eager
    }

    /// All its names.
    open spec fn spec_human_name(&self) -> Seq<char> {
        opts_seq(*self)
    }

    fn name(&self) -> (r: &str) {
        self.config.name.as_str()
    }

    fn human_readable_name(&self) -> (r: String) {
        self.opts_string()
    }

    fn nargs(&self) -> (r: Nargs) {
        self.config.nargs
    }

    fn multiple(&self) -> (r: bool) {
        self.config.multiple
    }

    fn is_eager(&self) -> (r: bool) {
        self.config.is_eager
    }

    fn expose_value(&self) -> (r: bool) {
        self.config.expose_value
    }

    fn required(&self) -> (r: bool) {
        self.config.required
    }

    open spec fn spec_envvar(&self) -> Option<Seq<Seq<char>>> {
        match self.config.envvar {
            Some(v) => Some(v.deep_view()),
            None => None,
        }
    }

    open spec fn spec_help(&self) -> Option<Seq<char>> {
        opt_view(self.config.help)
    }

    fn envvar(&self) -> Option<&Vec<String>> {
        match &self.config.envvar {
            Some(v) => Some(v),
            None => None,
        }
    }

    fn help(&self) -> Option<&str> {
        match &self.config.help {
            Some(h) => Some(h.as_str()),
            None => None,
        }
    }

    fn hidden(&self) -> (r: bool) {
        self.config.hidden
    }

    fn get_metavar(&self) -> (r: Option<String>)
        ensures
            opt_view(r) == option_metavar(*self),
    {
        match &self.config.metavar {
            Some(m) => {
                return Some(m.clone());
            },
            None => {},
        }
        match &self.type_metavar {
            Some(mv) => {
                let bracketed = starts_with(mv.as_str(), "[") && ends_with(mv.as_str(), "]");
                proof {
                    reveal_strlit("[");
                    reveal_strlit("]");
                    assert("["@ =~= seq!['[']);
                    assert("]"@ =~= seq![']']);
                }
                if contains_char(mv.as_str(), '|') && !bracketed {
                    let mut r = String::new();
                    r.push('[');
                    push_str(&mut r, mv.as_str());
                    r.push(']');
                    assert(r@ =~= seq!['['] + mv@ + seq![']']);
                    return Some(r);
                }
                return Some(mv.clone());
            },
            None => {},
        }
        if self.kind_name.unicode_len() > 0 {
            return Some(self.kind_name.clone());
        }
        None
    }

    /// The names (and placeholder unless a flag or count), and the help with
    /// the notes in brackets.
    fn get_help_record(&self) -> (r: Option<(String, String)>)
        ensures
            self.config.hidden ==> r is None,
            !self.config.hidden ==> (r matches Some((a, b)) && a@ == option_help_record(*self).0 && b@
                == option_help_record(*self).1),
    {
        if self.config.hidden {
            return None;
        }
        let mut opt_str = self.opts_string();
        if !self.is_flag && !self.count {
            match self.get_metavar() {
                Some(m) => {
                    opt_str.push(' ');
                    push_str(&mut opt_str, m.as_str());
                },
                None => {},
            }
        }
        let mut help = match &self.config.help {
            Some(h) => h.clone(),
            None => String::new(),
        };
        let mut extras: Vec<String> = Vec::new();
        if self.show_envvar {
            match &self.config.envvar {
                Some(ev) => {
                    let j = join(ev, ", ");
                    extras.push(cat2("env var: ", j.as_str()));
                },
                None => {},
            }
        }
        let ghost e1 = extras.deep_view();
        if self.show_default {
            match &self.default {
                Some(d) => {
                    if d.unicode_len() > 0 {
                        extras.push(cat2("default: ", d.as_str()));
                    }
                },
                None => {},
            }
        }
        let ghost e2 = extras.deep_view();
        if self.config.required {
            extras.push(String::from_str("required"));
        }
        proof {
            let oe = option_extras(*self);
            assert(extras.deep_view() =~= oe);
        }
        if extras.len() > 0 {
            let extra_str = join(&extras, "; ");
            if help.unicode_len() == 0 {
                let mut h = String::new();
                h.push('[');
                push_str(&mut h, extra_str.as_str());
                h.push(']');
                help = h;
            } else {
                let mut h = help.clone();
                push_str(&mut h, "  [");
                push_str(&mut h, extra_str.as_str());
                h.push(']');
                help = h;
            }
        }
        proof {
            let rec = option_help_record(*self);
            assert(opt_str@ =~= rec.0);
            assert(help@ =~= rec.1);
            assert(!Parameter::spec_hidden(self));
        }
        Some((opt_str, help))
    }

    fn param_type_name(&self) -> (r: &str)
        ensures
            r@ == "option"@,
    {
        "option"
    }
}

// =============================================================================
// The builder
// =============================================================================

/// Builds an option.
pub struct OptionBuilder {
    pub long: Vec<String>,
    pub short: Vec<String>,
    pub name: String,
    pub help: Option<String>,
    pub is_flag: bool,
    pub is_bool_flag: bool,
    pub flag_value: Option<String>,
    pub secondary_value: Option<String>,
    pub count: bool,
    pub required: bool,
    pub default: Option<String>,
    pub envvar: Option<Vec<String>>,
    pub prompt: Option<String>,
    pub confirmation_prompt: bool,
    pub hide_input: bool,
    pub multiple: bool,
    pub hidden: bool,
    pub eager: bool,
    pub show_default: bool,
    pub show_envvar: bool,
    pub metavar: Option<String>,
    pub kind_name: String,
    pub type_metavar: Option<String>,
    pub type_converter: Option<Box<dyn AnyTypeConverter>>,
    pub nargs: Nargs,
    pub callback: Option<Box<dyn ParameterCallback>>,
}

impl OptionBuilder {
    /// A fresh builder for the names `ns`: the names split, the parameter name
    /// derived, text type, one value, nothing else set.
    pub open spec fn is_new_for(self, ns: Seq<Seq<char>>) -> bool {
        &&& spec_split_option_names(ns) matches Ok((l, s)) && self.long.deep_view() == l && self.short.deep_view() == s
        &&& self.name@ == spec_param_name(self.long.deep_view(), self.short.deep_view())
        &&& self.help is None && !self.is_flag && !self.is_bool_flag && self.flag_value is None
        &&& self.secondary_value is None && !self.count && !self.required && self.default is None
        &&& self.envvar is None && self.prompt is None && !self.confirmation_prompt && !self.hide_input
        &&& !self.multiple && !self.hidden && !self.eager && !self.show_default && !self.show_envvar
        &&& self.metavar is None && self.kind_name@ == "TEXT"@ && opt_view(self.type_metavar) == Some("TEXT"@)
        &&& self.type_converter is None && self.nargs == Nargs::Count(1) && self.callback is None
    }

    /// A builder for the names (which must be valid option names).
    pub fn new(names: &[&str]) -> (r: Self)
        requires
            spec_split_option_names(names_view(names@)) is Ok,
        ensures
            r.is_new_for(names_view(names@)),
    {
        let (long, short) = match split_option_names(names) {
            Ok(x) => x,
            Err(_) => {
                proof {
                    assert(false);
                }
                (Vec::new(), Vec::new())
            },
        };
        let name = derive_param_name(&long, &short);
        OptionBuilder {
            long,
            short,
            name,
            help: None,
            is_flag: false,
            is_bool_flag: false,
            flag_value: None,
            secondary_value: None,
            count: false,
            required: false,
            default: None,
            envvar: None,
            prompt: None,
            confirmation_prompt: false,
            hide_input: false,
            multiple: false,
            hidden: false,
            eager: false,
            show_default: false,
            show_envvar: false,
            metavar: None,
            kind_name: String::from_str("TEXT"),
            type_metavar: Some(String::from_str("TEXT")),
            type_converter: None,
            nargs: Nargs::Count(1),
            callback: None,
        }
    }

    pub fn help(self, help: &str) -> (r: Self)
        ensures
            opt_view(r.help) == Some(help@),
            r == (OptionBuilder { help: r.help, ..self }),
    {
        let mut s = self;
        s.help = Some(str_of(help));
        s
    }

    /// A flag: takes no value, gives `value` when present.
    pub fn flag(self, value: &str) -> (r: Self)
        ensures
            r.is_flag,
            opt_view(r.flag_value) == Some(value@),
            r == (OptionBuilder { is_flag: true, flag_value: r.flag_value, ..self }),
    {
        let mut s = self;
        s.is_flag = true;
        s.flag_value = Some(str_of(value));
        s
    }

    /// A boolean flag: `true` when present, `false` otherwise.
    pub fn bool_flag(self) -> (r: Self)
        ensures
            opt_view(r.flag_value) == Some("true"@),
            opt_view(r.secondary_value) == Some("false"@),
            r == (OptionBuilder {
                is_flag: true,
                is_bool_flag: true,
                flag_value: r.flag_value,
                secondary_value: r.secondary_value,
                ..self
            }),
    {
        let mut s = self;
        s.is_flag = true;
        s.is_bool_flag = true;
        s.flag_value = Some(String::from_str("true"));
        s.secondary_value = Some(String::from_str("false"));
        s
    }

    /// Count how often the option is given; the default is 0.
    pub fn count(self) -> (r: Self)
        ensures
            opt_view(r.default) == Some("0"@),
            r == (OptionBuilder { count: true, is_flag: true, default: r.default, ..self }),
    {
        let mut s = self;
        s.count = true;
        s.is_flag = true;
        s.default = Some(String::from_str("0"));
        s
    }

    pub fn required(self) -> (r: Self)
        ensures
            r == (OptionBuilder { required: true, ..self }),
    {
        let mut s = self;
        s.required = true;
        s
    }

    pub fn default<S: IntoText>(self, value: S) -> (r: Self)
        ensures
            opt_view(r.default) == Some(value.text()),
            r == (OptionBuilder { default: r.default, ..self }),
    {
        let mut s = self;
        s.default = Some(value.into_string());
        s
    }

    pub fn envvar(self, name: &str) -> (r: Self)
        ensures
            optvec_view(r.envvar) == Some(seq![name@]),
            r == (OptionBuilder { envvar: r.envvar, ..self }),
    {
        let mut s = self;
        let mut v: Vec<String> = Vec::new();
        v.push(str_of(name));
        assert(v.deep_view() =~= seq![name@]);
        s.envvar = Some(v);
        s
    }

    pub fn envvars(self, names: &[&str]) -> (r: Self)
        ensures
            optvec_view(r.envvar) == Some(names_view(names@)),
            r == (OptionBuilder { envvar: r.envvar, ..self }),
    {
        let mut s = self;
        let c = ParameterConfig::default().envvars(names);
        s.envvar = c.envvar;
        s
    }

    pub fn prompt(self, text: &str) -> (r: Self)
        ensures
            opt_view(r.prompt) == Some(text@),
            r == (OptionBuilder { prompt: r.prompt, ..self }),
    {
        let mut s = self;
        s.prompt = Some(str_of(text));
        s
    }

    pub fn confirmation_prompt(self, confirm: bool) -> (r: Self)
        ensures
            r == (OptionBuilder { confirmation_prompt: confirm, ..self }),
    {
        let mut s = self;
        s.confirmation_prompt = confirm;
        s
    }

    pub fn hide_input(self, hide: bool) -> (r: Self)
        ensures
            r == (OptionBuilder { hide_input: hide, ..self }),
    {
        let mut s = self;
        s.hide_input = hide;
        s
    }

    /// The option may be given several times; its values are collected.
    pub fn multiple(self) -> (r: Self)
        ensures
            r == (OptionBuilder { multiple: true, ..self }),
    {
        let mut s = self;
        s.multiple = true;
        s
    }

    /// A function applied to the value.
    pub fn callback<F: Fn(&Context, Value) -> Result<Value, ClickError> + 'static>(self, callback: F) -> (r: Self)
        ensures
            r == (OptionBuilder { callback: r.callback, ..self }),
            r.callback is Some,
    {
        let mut s = self;
        let b: Box<dyn ParameterCallback> = Box::new(callback);
        s.callback = Some(b);
        s
    }

    pub fn hidden(self) -> (r: Self)
        ensures
            r == (OptionBuilder { hidden: true, ..self }),
    {
        let mut s = self;
        s.hidden = true;
        s
    }

    pub fn eager(self) -> (r: Self)
        ensures
            r == (OptionBuilder { eager: true, ..self }),
    {
        let mut s = self;
        s.eager = true;
        s
    }

    pub fn show_default(self) -> (r: Self)
        ensures
            r == (OptionBuilder { show_default: true, ..self }),
    {
        let mut s = self;
        s.show_default = true;
        s
    }

    pub fn show_envvar(self) -> (r: Self)
        ensures
            r == (OptionBuilder { show_envvar: true, ..self }),
    {
        let mut s = self;
        s.show_envvar = true;
        s
    }

    pub fn metavar(self, metavar: &str) -> (r: Self)
        ensures
            opt_view(r.metavar) == Some(metavar@),
            r == (OptionBuilder { metavar: r.metavar, ..self }),
    {
        let mut s = self;
        s.metavar = Some(str_of(metavar));
        s
    }

    /// The option's type; its name and placeholder are taken from it.
    pub fn type_<T: TypeConverter + 'static>(self, type_: T) -> (r: Self)
        ensures
            r.long == self.long && r.short == self.short && r.name == self.name && r.help == self.help,
            r.is_flag == self.is_flag && r.count == self.count && r.default == self.default,
            r.nargs == self.nargs && r.multiple == self.multiple && r.required == self.required,
            r.type_converter matches Some(c) && installs(c, type_),
            r.kind_name@ == type_.spec_name(),
            r.type_metavar is Some == type_.spec_metavar() is Some,
            r.type_metavar matches Some(m) ==> m@ == type_.spec_metavar()->0,
            r == (OptionBuilder {
                kind_name: r.kind_name,
                type_metavar: r.type_metavar,
                type_converter: r.type_converter,
                ..self
            }),
    {
        let mut s = self;
        s.kind_name = str_of(TypeConverter::name(&type_));
        s.type_metavar = TypeConverter::get_metavar(&type_);
        let b: Box<dyn AnyTypeConverter> = Box::new(type_);
        s.type_converter = Some(b);
        s
    }

    /// The same as `type_`.
    pub fn type_any<T: TypeConverter + 'static>(self, type_: T) -> (r: Self)
        ensures
            r.long == self.long && r.short == self.short && r.name == self.name && r.help == self.help,
            r.is_flag == self.is_flag && r.count == self.count && r.default == self.default,
            r.nargs == self.nargs && r.multiple == self.multiple && r.required == self.required,
            r.type_converter matches Some(c) && installs(c, type_),
            r.kind_name@ == type_.spec_name(),
            r.type_metavar is Some == type_.spec_metavar() is Some,
            r.type_metavar matches Some(m) ==> m@ == type_.spec_metavar()->0,
            r == (OptionBuilder {
                kind_name: r.kind_name,
                type_metavar: r.type_metavar,
                type_converter: r.type_converter,
                ..self
            }),
    {
        self.type_(type_)
    }

    pub fn nargs(self, nargs: Nargs) -> (r: Self)
        ensures
            r == (OptionBuilder { nargs, ..self }),
    {
        let mut s = self;
        s.nargs = nargs;
        s
    }

    /// The option.
    pub fn build(self) -> (r: ClickOption)
        ensures
            r.config.name == self.name,
            r.config.nargs == self.nargs,
            r.config.multiple == self.multiple,
            r.config.is_eager == self.eager,
            r.config.expose_value,
            r.config.required == self.required,
            r.config.envvar == self.envvar,
            r.config.help == self.help,
            r.config.hidden == self.hidden,
            r.config.metavar == self.metavar,
            r.config.deprecated is None,
            r.long == self.long && r.short == self.short,
            r.is_flag == self.is_flag && r.is_bool_flag == self.is_bool_flag,
            r.flag_value == self.flag_value && r.secondary_value == self.secondary_value,
            r.count == self.count && r.prompt == self.prompt,
            r.confirmation_prompt == self.confirmation_prompt && r.hide_input == self.hide_input,
            r.show_default == self.show_default && r.show_envvar == self.show_envvar,
            r.default == self.default,
            r.kind_name == self.kind_name && r.type_metavar == self.type_metavar,
    {
        let s = self;
        let config = ParameterConfig {
            name: s.name,
            nargs: s.nargs,
            multiple: s.multiple,
            is_eager: s.eager,
            expose_value: true,
            required: s.required,
            envvar: s.envvar,
            help: s.help,
            hidden: s.hidden,
            metavar: s.metavar,
            deprecated: None,
        };
        let tc: Box<dyn AnyTypeConverter> = match s.type_converter {
            Some(t) => t,
            None => Box::new(StringType),
        };
        ClickOption {
            config,
            long: s.long,
            short: s.short,
            is_flag: s.is_flag,
            is_bool_flag: s.is_bool_flag,
            flag_value: s.flag_value,
            secondary_value: s.secondary_value,
            count: s.count,
            prompt: s.prompt,
            confirmation_prompt: s.confirmation_prompt,
            hide_input: s.hide_input,
            show_default: s.show_default,
            show_envvar: s.show_envvar,
            default: s.default,
            kind_name: s.kind_name,
            type_metavar: s.type_metavar,
            type_converter: tc,
            callback: s.callback,
        }
    }
}

/// The long names kept by a successful split are among the names given.
proof fn lemma_split_names_in(ns: Seq<Seq<char>>, x: Seq<char>, long: bool)
    requires
        spec_split_names(ns) is Ok,
        (if long { spec_split_names(ns)->Ok_0.0 } else { spec_split_names(ns)->Ok_0.1 }).contains(x),
    ensures
        ns.contains(x),
    decreases ns.len(),
{
    if ns.len() > 0 {
        let (l, s) = spec_split_names(ns.drop_last())->Ok_0;
        if (if long { l } else { s }).contains(x) {
            lemma_split_names_in(ns.drop_last(), x, long);
            let k = choose|k: int| 0 <= k < ns.drop_last().len() && ns.drop_last()[k] == x;
            assert(ns[k] == x);
        } else {
            assert(ns[ns.len() - 1] == x);
        }
    }
}

} // verus!
