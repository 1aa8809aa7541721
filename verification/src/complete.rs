//! Ready-made completions from fixed lists.

use vstd::prelude::*;
use crate::context::Context;
use crate::types::CompletionItem;
use crate::argument::ShellCompleteCallback;
use crate::text::{contains_str, seq_contains_seq, to_lower, lower_of, starts_with, seq_starts_with, str_of, cat3};
use crate::completion::after_last;

verus! {

/// Completes with the values that contain what was typed.
pub struct Items {
    pub values: &'static [&'static str],
}

/// Completes with the values (each with its help) whose value or help contains
/// what was typed.
pub struct ItemsWithHelp {
    pub values: &'static [(&'static str, &'static str)],
}

/// The completion has this help.
pub open spec fn help_is(c: CompletionItem, h: Seq<char>) -> bool {
    c.help matches Some(x) && x@ == h
}

/// Completion from a fixed list of values.
pub fn items(values: &'static [&'static str]) -> (r: Items)
    ensures
        r.values == values,
{
    Items { values }
}

/// Completion from a fixed list of values with help.
pub fn items_with_help(values: &'static [(&'static str, &'static str)]) -> (r: ItemsWithHelp)
    ensures
        r.values == values,
{
    ItemsWithHelp { values }
}

impl Items {
    /// The values that contain `incomplete`, in order, as plain completions.
    pub fn matching(&self, incomplete: &str) -> (r: Vec<CompletionItem>)
        ensures
            r@.map_values(|c: CompletionItem| c.value@) == self.values@.map_values(|v: &str| v@).filter(
                |v: Seq<char>| seq_contains_seq(v, incomplete@),
            ),
            forall|k: int| 0 <= k < r@.len() ==> (#[trigger] r@[k]).completion_type@ == "plain"@ && r@[k].help is None,
    {
        let ghost vs = self.values@.map_values(|v: &str| v@);
        let mut out: Vec<CompletionItem> = Vec::new();
        let mut i: usize = 0;
        while i < self.values.len()
            invariant
                i <= self.values@.len(),
                vs == self.values@.map_values(|v: &str| v@),
                out@.map_values(|c: CompletionItem| c.value@) == vs.take(i as int).filter(
                    |v: Seq<char>| seq_contains_seq(v, incomplete@),
                ),
                forall|k: int| 0 <= k < out@.len() ==> (#[trigger] out@[k]).completion_type@ == "plain"@ && out@[k].help is None,
            decreases self.values@.len() - i,
        {
            let v = self.values[i];
            let ghost before = out@.map_values(|c: CompletionItem| c.value@);
            proof {
                reveal(Seq::filter);
                assert(vs.take(i + 1).drop_last() =~= vs.take(i as int));
            }
            if contains_str(v, incomplete) {
                let item = CompletionItem::new(v);
                out.push(item);
                assert(out@.map_values(|c: CompletionItem| c.value@) =~= before.push(v@));
            } else {
                assert(out@.map_values(|c: CompletionItem| c.value@) =~= before);
            }
            i = i + 1;
        }
        assert(vs.take(self.values@.len() as int) =~= vs);
        out
    }
}

impl ShellCompleteCallback for Items {
    open spec fn spec_returns(&self, ctx: Context, incomplete: &str, r: Vec<CompletionItem>) -> bool {
        &&& r@.map_values(|c: CompletionItem| c.value@) == self.values@.map_values(|v: &str| v@).filter(
            |v: Seq<char>| seq_contains_seq(v, incomplete@),
        )
        &&& forall|k: int| 0 <= k < r@.len() ==> (#[trigger] r@[k]).completion_type@ == "plain"@ && r@[k].help is None
    }

    fn complete(&self, ctx: &Context, incomplete: &str) -> (r: Vec<CompletionItem>) {
        self.matching(incomplete)
    }
}

/// An entry of a list with help, as text.
pub open spec fn entry_view(p: (&str, &str)) -> (Seq<char>, Seq<char>) {
    (p.0@, p.1@)
}

/// The entries whose value or help contains `incomplete`, in order.
pub open spec fn entries_matching(values: Seq<(&str, &str)>, incomplete: Seq<char>) -> Seq<(Seq<char>, Seq<char>)> {
    values.map_values(|p: (&str, &str)| entry_view(p)).filter(
        |e: (Seq<char>, Seq<char>)| seq_contains_seq(e.0, incomplete) || seq_contains_seq(e.1, incomplete),
    )
}

/// A completion with help, as its value and its help.
pub open spec fn item_entry(c: CompletionItem) -> (Seq<char>, Seq<char>) {
    (
        c.value@,
        match c.help {
            Some(h) => h@,
            None => Seq::<char>::empty(),
        },
    )
}

impl ItemsWithHelp {
    /// The entries whose value or help contains `incomplete`, in order, as
    /// completions with help.
    pub fn matching(&self, incomplete: &str) -> (r: Vec<CompletionItem>)
        ensures
            r@.map_values(|c: CompletionItem| item_entry(c)) == entries_matching(self.values@, incomplete@),
            forall|k: int| 0 <= k < r@.len() ==> (#[trigger] r@[k]).completion_type@ == "plain"@ && r@[k].help is Some,
    {
        let ghost es = self.values@.map_values(|p: (&str, &str)| entry_view(p));
        let mut out: Vec<CompletionItem> = Vec::new();
        let mut i: usize = 0;
        while i < self.values.len()
            invariant
                i <= self.values@.len(),
                es == self.values@.map_values(|p: (&str, &str)| entry_view(p)),
                out@.map_values(|c: CompletionItem| item_entry(c)) == es.take(i as int).filter(
                    |e: (Seq<char>, Seq<char>)| seq_contains_seq(e.0, incomplete@) || seq_contains_seq(e.1, incomplete@),
                ),
                forall|k: int| 0 <= k < out@.len() ==> (#[trigger] out@[k]).completion_type@ == "plain"@ && out@[k].help is Some,
            decreases self.values@.len() - i,
        {
            let (v, h) = self.values[i];
            let ghost before = out@.map_values(|c: CompletionItem| item_entry(c));
            proof {
                reveal(Seq::filter);
                assert(es.take(i + 1).drop_last() =~= es.take(i as int));
                assert(es[i as int] == (v@, h@));
            }
            if contains_str(v, incomplete) || contains_str(h, incomplete) {
                let item = CompletionItem::new(v).with_help(h);
                out.push(item);
                assert(out@.map_values(|c: CompletionItem| item_entry(c)) =~= before.push((v@, h@)));
            } else {
                assert(out@.map_values(|c: CompletionItem| item_entry(c)) =~= before);
            }
            i = i + 1;
        }
        assert(es.take(self.values@.len() as int) =~= es);
        out
    }
}

impl ShellCompleteCallback for ItemsWithHelp {
    open spec fn spec_returns(&self, ctx: Context, incomplete: &str, r: Vec<CompletionItem>) -> bool {
        &&& r@.map_values(|c: CompletionItem| item_entry(c)) == entries_matching(self.values@, incomplete@)
        &&& forall|k: int| 0 <= k < r@.len() ==> (#[trigger] r@[k]).completion_type@ == "plain"@ && r@[k].help is Some
    }

    fn complete(&self, ctx: &Context, incomplete: &str) -> (r: Vec<CompletionItem>) {
        self.matching(incomplete)
    }
}

/// The environment variable names that contain what was typed, case ignored.
pub open spec fn env_var_matches(names: Seq<Seq<char>>, incomplete: Seq<char>) -> Seq<Seq<char>> {
    names.filter(|n: Seq<char>| seq_contains_seq(lower_of(n), lower_of(incomplete)))
}

/// Completion of environment variable names: those of `names` (the variables
/// set) that contain what was typed, case ignored.
pub fn env_vars(names: &Vec<String>, incomplete: &str) -> (r: Vec<CompletionItem>)
    ensures
        r@.map_values(|c: CompletionItem| c.value@) == env_var_matches(names.deep_view(), incomplete@),
{
    let needle = to_lower(incomplete);
    let mut out: Vec<CompletionItem> = Vec::new();
    let mut i: usize = 0;
    while i < names.len()
        invariant
            i <= names@.len(),
            needle@ == lower_of(incomplete@),
            out@.map_values(|c: CompletionItem| c.value@) == env_var_matches(names.deep_view().take(i as int), incomplete@),
        decreases names@.len() - i,
    {
        proof {
            reveal(Seq::filter);
            assert(names.deep_view().take(i + 1).drop_last() =~= names.deep_view().take(i as int));
        }
        let ghost before = out@.map_values(|c: CompletionItem| c.value@);
        let key = to_lower(names[i].as_str());
        if contains_str(key.as_str(), needle.as_str()) {
            out.push(CompletionItem::new(names[i].as_str()));
            assert(out@.map_values(|c: CompletionItem| c.value@) =~= before.push(names@[i as int]@));
        } else {
            assert(out@.map_values(|c: CompletionItem| c.value@) =~= before);
        }
        i = i + 1;
    }
    assert(names.deep_view().take(names@.len() as int) =~= names.deep_view());
    out
}

/// The directory whose entries complete what was typed: the part before the
/// last separator, when that part is not empty (`None`: the current
/// directory).
pub open spec fn spec_directory_base(incomplete: Seq<char>, sep: char) -> Option<Seq<char>> {
    let tail = after_last(incomplete, sep);
    if tail.len() < incomplete.len() && tail.len() + 1 < incomplete.len() {
        Some(incomplete.take(incomplete.len() - tail.len() - 1))
    } else {
        None
    }
}

/// The start of the entry's name that was typed.
pub open spec fn spec_directory_prefix(incomplete: Seq<char>, sep: char) -> Seq<char> {
    if spec_directory_base(incomplete, sep) is Some {
        after_last(incomplete, sep)
    } else {
        incomplete
    }
}

proof fn lemma_after_last_len(s: Seq<char>, c: char)
    ensures
        after_last(s, c).len() <= s.len(),
        after_last(s, c).len() < s.len() ==> s[s.len() - after_last(s, c).len() - 1] == c,
        after_last(s, c) == s.skip(s.len() - after_last(s, c).len()),
    decreases s.len(),
{
    if s.len() > 0 && s.last() != c {
        lemma_after_last_len(s.drop_last(), c);
        let t = after_last(s.drop_last(), c);
        assert(s.drop_last().skip(s.len() - 1 - t.len()).push(s.last()) =~= s.skip(s.len() - 1 - t.len()));
    } else if s.len() > 0 {
        assert(s.skip(s.len() as int) =~= Seq::<char>::empty());
    } else {
        assert(s.skip(0) =~= s);
    }
}

/// The directory to list for a completion of directories.
pub fn directory_base(incomplete: &str, sep: char) -> (r: Option<String>)
    ensures
        opt_seq(r) == spec_directory_base(incomplete@, sep),
{
    let tail = crate::completion::after_last_str(incomplete, sep);
    let n = incomplete.unicode_len();
    let t = tail.unicode_len();
    proof {
        lemma_after_last_len(incomplete@, sep);
    }
    if t < n && t + 1 < n {
        Some(crate::completion::take_str(incomplete, n - t - 1))
    } else {
        None
    }
}

pub open spec fn opt_seq(o: Option<String>) -> Option<Seq<char>> {
    match o {
        Some(s) => Some(s@),
        None => None,
    }
}

/// What a directory entry completes to: its name, after the base directory
/// and a separator when there is one other than `.`.
pub open spec fn directory_value(base: Option<Seq<char>>, sep: char, name: Seq<char>) -> Seq<char> {
    match base {
        Some(b) => if b == "."@ {
            name
        } else {
            b + seq![sep] + name
        },
        None => name,
    }
}

/// Completion of directories: of `dir_names` (the directories inside the
/// directory `directory_base` names), those whose name starts with what was
/// typed after the last separator.
pub fn directories(incomplete: &str, sep: char, dir_names: &Vec<String>) -> (r: Vec<CompletionItem>)
    ensures
        r@.map_values(|c: CompletionItem| c.value@) == dir_names.deep_view().filter(
            |n: Seq<char>| seq_starts_with(n, spec_directory_prefix(incomplete@, sep)),
        ).map_values(|n: Seq<char>| directory_value(spec_directory_base(incomplete@, sep), sep, n)),
{
    let base = directory_base(incomplete, sep);
    let prefix = match &base {
        Some(_) => crate::completion::after_last_str(incomplete, sep),
        None => str_of(incomplete),
    };
    let ghost b = opt_seq(base);
    let ghost p = prefix@;
    let ghost names = dir_names.deep_view();
    let mut out: Vec<CompletionItem> = Vec::new();
    let mut i: usize = 0;
    while i < dir_names.len()
        invariant
            i <= names.len(),
            names == dir_names.deep_view(),
            b == opt_seq(base),
            p == prefix@,
            out@.map_values(|c: CompletionItem| c.value@) == names.take(i as int).filter(
                |n: Seq<char>| seq_starts_with(n, p),
            ).map_values(|n: Seq<char>| directory_value(b, sep, n)),
        decreases names.len() - i,
    {
        proof {
            reveal(Seq::filter);
            assert(names.take(i + 1).drop_last() =~= names.take(i as int));
        }
        let ghost before = out@.map_values(|c: CompletionItem| c.value@);
        let name = dir_names[i].as_str();
        if starts_with(name, prefix.as_str()) {
            proof {
                reveal_strlit(".");
            }
            let value = match &base {
                Some(d) => if crate::text::str_eq(d.as_str(), ".") {
                    str_of(name)
                } else {
                    let mut s = String::new();
                    s.push(sep);
                    cat3(d.as_str(), s.as_str(), name)
                },
                None => str_of(name),
            };
            out.push(CompletionItem::new(value.as_str()));
            proof {
                let f0 = names.take(i as int).filter(|n: Seq<char>| seq_starts_with(n, p));
                assert(names.take(i + 1).filter(|n: Seq<char>| seq_starts_with(n, p)) == f0.push(names[i as int]));
                assert(f0.push(names[i as int]).map_values(|n: Seq<char>| directory_value(b, sep, n)) =~= f0.map_values(
                    |n: Seq<char>| directory_value(b, sep, n),
                ).push(directory_value(b, sep, names[i as int])));
            }
            assert(out@.map_values(|c: CompletionItem| c.value@) =~= before.push(value@));
        } else {
            assert(out@.map_values(|c: CompletionItem| c.value@) =~= before);
        }
        i = i + 1;
    }
    assert(names.take(names.len() as int) =~= names);
    out
}

} // verus!
