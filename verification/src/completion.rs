//! Shell completion: the scripts that hook a program into bash, zsh or fish,
//! the words the shell hands over, and the completions offered for them.

use vstd::prelude::*;
use crate::command::Command;
use crate::group::{AnyCommand, CommandCollection, CommandLike, Group, sorted_names_of};
use crate::types::CompletionItem;
use crate::error::opt_view;
use crate::text::{
    cat2, cat3, str_of, replace_all, replaced, replace_char, replace_char_seq, split_whitespace, words, parse_usize,
    parse_usize_seq, seq_starts_with, starts_with,
};

verus! {

/// The words before the one being completed, and that one.
pub struct CompletionArgs {
    pub args: Vec<String>,
    pub incomplete: String,
}

impl CompletionArgs {
    /// No words.
    pub fn default() -> (r: Self)
        ensures
            r.args@.len() == 0,
            r.incomplete@.len() == 0,
    {
        CompletionArgs { args: Vec::new(), incomplete: String::new() }
    }
}

/// The name of a program's completion function: `_`, the name with `-` as `_`,
/// `_completion`.
pub open spec fn completion_func(prog_name: Seq<char>) -> Seq<char> {
    "_"@ + replace_char_seq(prog_name, '-', '_') + "_completion"@
}

/// A shell's completion script: the template with the program's name, its
/// completion function and the variable that asks for completion filled in.
pub open spec fn source_for(template: Seq<char>, prog_name: Seq<char>, complete_var: Seq<char>) -> Seq<char> {
    replaced(
        replaced(replaced(template, "%(prog_name)s"@, prog_name), "%(complete_func)s"@, completion_func(prog_name)),
        "%(complete_var)s"@,
        complete_var,
    )
}

/// The words `from..to` of `ws`, clipped to what there is.
pub open spec fn word_range(ws: Seq<Seq<char>>, from: int, to: int) -> Seq<Seq<char>> {
    if to <= from || from >= ws.len() {
        seq![]
    } else if to > ws.len() {
        ws.subrange(from, ws.len() as int)
    } else {
        ws.subrange(from, to)
    }
}

/// The word at `cword` (when `0 < cword < len`), else nothing.
pub open spec fn word_at(ws: Seq<Seq<char>>, cword: int) -> Seq<char> {
    if 0 < cword < ws.len() {
        ws[cword]
    } else {
        seq![]
    }
}

fn word_range_exec(ws: &Vec<String>, from: usize, to: usize) -> (r: Vec<String>)
    ensures
        r.deep_view() == word_range(ws.deep_view(), from as int, to as int),
{
    let mut out: Vec<String> = Vec::new();
    if to <= from || from >= ws.len() {
        assert(out.deep_view() =~= word_range(ws.deep_view(), from as int, to as int));
        return out;
    }
    let end = if to > ws.len() {
        ws.len()
    } else {
        to
    };
    let mut i = from;
    while i < end
        invariant
            from <= i <= end <= ws@.len(),
            out.deep_view() == ws.deep_view().subrange(from as int, i as int),
        decreases end - i,
    {
        let ghost od = out.deep_view();
        out.push(ws[i].clone());
        assert(out.deep_view() =~= od.push(ws@[i as int]@));
        assert(ws.deep_view().subrange(from as int, i + 1) =~= ws.deep_view().subrange(from as int, i as int).push(
            ws@[i as int]@,
        ));
        i = i + 1;
    }
    out
}

fn word_at_exec(ws: &Vec<String>, cword: usize) -> (r: String)
    ensures
        r@ == word_at(ws.deep_view(), cword as int),
{
    if cword > 0 && cword < ws.len() {
        ws[cword].clone()
    } else {
        String::new()
    }
}

/// How a shell is hooked up and talked to.
pub trait ShellComplete {
    spec fn spec_name(&self) -> Seq<char>;

    spec fn spec_template(&self) -> Seq<char>;

    spec fn spec_format(&self, item: CompletionItem) -> Seq<char>;

    /// The words the shell hands over, given `COMP_WORDS` and `COMP_CWORD`.
    spec fn spec_args(&self, comp_words: Seq<char>, comp_cword: Seq<char>) -> (Seq<Seq<char>>, Seq<char>);

    fn name(&self) -> (r: &str)
        ensures
            r@ == self.spec_name(),
    ;

    fn source_template(&self) -> (r: &str)
        ensures
            r@ == self.spec_template(),
    ;

    /// The completed words and the one being completed, from the values of
    /// `COMP_WORDS` and `COMP_CWORD` (empty when unset).
    fn get_completion_args(&self, comp_words: &str, comp_cword: &str) -> (r: CompletionArgs)
        ensures
            (r.args.deep_view(), r.incomplete@) == self.spec_args(comp_words@, comp_cword@),
    ;

    /// One completion as the shell reads it.
    fn format_completion(&self, item: &CompletionItem) -> (r: String)
        ensures
            r@ == self.spec_format(*item),
    ;

    /// The script that hooks the program into the shell.
    fn get_source(&self, prog_name: &str, complete_var: &str) -> (r: String)
        ensures
            r@ == source_for(self.spec_template(), prog_name@, complete_var@),
    {
        let func = cat3("_", replace_char(prog_name, '-', '_').as_str(), "_completion");
        proof {
            reveal_strlit("_");
            reveal_strlit("_completion");
            reveal_strlit("%(prog_name)s");
            reveal_strlit("%(complete_func)s");
            reveal_strlit("%(complete_var)s");
        }
        let a = replace_all(self.source_template(), "%(prog_name)s", prog_name);
        let b = replace_all(a.as_str(), "%(complete_func)s", func.as_str());
        replace_all(b.as_str(), "%(complete_var)s", complete_var)
    }
}

/// Bash: words up to the one before the current, the current one completed.
pub struct BashComplete;

/// Zsh: words up to the current one, values with their help.
pub struct ZshComplete;

/// Fish: every word but the program's, the current token given apart.
pub struct FishComplete;

/// The index of the current word: `COMP_CWORD` as a number, else 0.
pub open spec fn cword(s: Seq<char>) -> int {
    match parse_usize_seq(s) {
        Some(n) => n as int,
        None => 0,
    }
}

fn cword_exec(s: &str) -> (r: usize)
    ensures
        r == cword(s@),
{
    match parse_usize(s) {
        Some(n) => n,
        None => 0,
    }
}

impl ShellComplete for BashComplete {
    open spec fn spec_name(&self) -> Seq<char> {
        "bash"@
    }

    open spec fn spec_template(&self) -> Seq<char> {
        bash_template()
    }

    open spec fn spec_format(&self, item: CompletionItem) -> Seq<char> {
        item.value@
    }

    open spec fn spec_args(&self, comp_words: Seq<char>, comp_cword: Seq<char>) -> (Seq<Seq<char>>, Seq<char>) {
        let ws = words(comp_words);
        let c = cword(comp_cword);
        (word_range(ws, 1, if c >= 1 { c - 1 } else { 0 }), word_at(ws, c))
    }

    fn name(&self) -> (r: &str) {
        "bash"
    }

    fn source_template(&self) -> (r: &str) {
        bash_template_exec()
    }

    fn get_completion_args(&self, comp_words: &str, comp_cword: &str) -> (r: CompletionArgs) {
        let ws = split_whitespace(comp_words);
        let c = cword_exec(comp_cword);
        let upto = if c >= 1 {
            c - 1
        } else {
            0
        };
        CompletionArgs { args: word_range_exec(&ws, 1, upto), incomplete: word_at_exec(&ws, c) }
    }

    fn format_completion(&self, item: &CompletionItem) -> (r: String) {
        item.value.clone()
    }
}

impl ShellComplete for ZshComplete {
    open spec fn spec_name(&self) -> Seq<char> {
        "zsh"@
    }

    open spec fn spec_template(&self) -> Seq<char> {
        zsh_template()
    }

    open spec fn spec_format(&self, item: CompletionItem) -> Seq<char> {
        match item.help {
            Some(h) => if h@.len() > 0 {
                item.value@ + seq![':'] + h@
            } else {
                item.value@ + ":_"@
            },
            None => item.value@ + ":_"@,
        }
    }

    open spec fn spec_args(&self, comp_words: Seq<char>, comp_cword: Seq<char>) -> (Seq<Seq<char>>, Seq<char>) {
        let ws = words(comp_words);
        let c = cword(comp_cword);
        (word_range(ws, 1, c), word_at(ws, c))
    }

    fn name(&self) -> (r: &str) {
        "zsh"
    }

    fn source_template(&self) -> (r: &str) {
        zsh_template_exec()
    }

    fn get_completion_args(&self, comp_words: &str, comp_cword: &str) -> (r: CompletionArgs) {
        let ws = split_whitespace(comp_words);
        let c = cword_exec(comp_cword);
        CompletionArgs { args: word_range_exec(&ws, 1, c), incomplete: word_at_exec(&ws, c) }
    }

    fn format_completion(&self, item: &CompletionItem) -> (r: String) {
        proof {
            reveal_strlit(":_");
            reveal_strlit(":");
        }
        match &item.help {
            Some(h) => if h.unicode_len() > 0 {
                cat3(item.value.as_str(), ":", h.as_str())
            } else {
                cat2(item.value.as_str(), ":_")
            },
            None => cat2(item.value.as_str(), ":_"),
        }
    }
}

impl ShellComplete for FishComplete {
    open spec fn spec_name(&self) -> Seq<char> {
        "fish"@
    }

    open spec fn spec_template(&self) -> Seq<char> {
        fish_template()
    }

    open spec fn spec_format(&self, item: CompletionItem) -> Seq<char> {
        item.completion_type@ + seq![','] + item.value@
    }

    open spec fn spec_args(&self, comp_words: Seq<char>, comp_cword: Seq<char>) -> (Seq<Seq<char>>, Seq<char>) {
        let ws = words(comp_words);
        (word_range(ws, 1, ws.len() as int), comp_cword)
    }

    fn name(&self) -> (r: &str) {
        "fish"
    }

    fn source_template(&self) -> (r: &str) {
        fish_template_exec()
    }

    fn get_completion_args(&self, comp_words: &str, comp_cword: &str) -> (r: CompletionArgs) {
        let ws = split_whitespace(comp_words);
        let n = ws.len();
        CompletionArgs { args: word_range_exec(&ws, 1, n), incomplete: str_of(comp_cword) }
    }

    fn format_completion(&self, item: &CompletionItem) -> (r: String) {
        proof {
            reveal_strlit(",");
        }
        cat3(item.completion_type.as_str(), ",", item.value.as_str())
    }
}

/// The bash script template.
pub closed spec fn bash_template() -> Seq<char> {
    "\n%(complete_func)s() {\n    local IFS=$'\\n'\n    COMPREPLY=( $( env COMP_WORDS=\"${COMP_WORDS[*]}\" \\\n                   COMP_CWORD=$COMP_CWORD \\\n                   %(complete_var)s=bash_complete \\\n                   %(prog_name)s ) )\n    return 0\n}\n\n%(complete_func)s_setup() {\n    complete -o default -F %(complete_func)s %(prog_name)s\n}\n\n%(complete_func)s_setup\n"@
}

fn bash_template_exec() -> (r: &'static str)
    ensures
        r@ == bash_template(),
{
    "\n%(complete_func)s() {\n    local IFS=$'\\n'\n    COMPREPLY=( $( env COMP_WORDS=\"${COMP_WORDS[*]}\" \\\n                   COMP_CWORD=$COMP_CWORD \\\n                   %(complete_var)s=bash_complete \\\n                   %(prog_name)s ) )\n    return 0\n}\n\n%(complete_func)s_setup() {\n    complete -o default -F %(complete_func)s %(prog_name)s\n}\n\n%(complete_func)s_setup\n"
}

/// The zsh script template.
pub closed spec fn zsh_template() -> Seq<char> {
    "\n#compdef %(prog_name)s\n\n%(complete_func)s() {\n    local -a completions\n    local -a completions_with_descriptions\n    local -a response\n    (( ! $+commands[%(prog_name)s] )) && return 1\n\n    response=(\"${(@f)$(env COMP_WORDS=\"${words[*]}\" COMP_CWORD=$((CURRENT-1)) %(complete_var)s=zsh_complete %(prog_name)s)}\")\n\n    for key descr in ${(kv)response}; do\n        if [[ \"$descr\" == \"_\" ]]; then\n            completions+=(\"$key\")\n        else\n            completions_with_descriptions+=(\"$key\":\"$descr\")\n        fi\n    done\n\n    if [ -n \"$completions_with_descriptions\" ]; then\n        _describe -V unsorted completions_with_descriptions -U\n    fi\n\n    if [ -n \"$completions\" ]; then\n        compadd -U -V unsorted -a completions\n    fi\n}\n\nif [[ $zsh_eval_context[-1] == loadautofun ]]; then\n    %(complete_func)s \"$@\"\nelse\n    compdef %(complete_func)s %(prog_name)s\nfi\n"@
}

fn zsh_template_exec() -> (r: &'static str)
    ensures
        r@ == zsh_template(),
{
    "\n#compdef %(prog_name)s\n\n%(complete_func)s() {\n    local -a completions\n    local -a completions_with_descriptions\n    local -a response\n    (( ! $+commands[%(prog_name)s] )) && return 1\n\n    response=(\"${(@f)$(env COMP_WORDS=\"${words[*]}\" COMP_CWORD=$((CURRENT-1)) %(complete_var)s=zsh_complete %(prog_name)s)}\")\n\n    for key descr in ${(kv)response}; do\n        if [[ \"$descr\" == \"_\" ]]; then\n            completions+=(\"$key\")\n        else\n            completions_with_descriptions+=(\"$key\":\"$descr\")\n        fi\n    done\n\n    if [ -n \"$completions_with_descriptions\" ]; then\n        _describe -V unsorted completions_with_descriptions -U\n    fi\n\n    if [ -n \"$completions\" ]; then\n        compadd -U -V unsorted -a completions\n    fi\n}\n\nif [[ $zsh_eval_context[-1] == loadautofun ]]; then\n    %(complete_func)s \"$@\"\nelse\n    compdef %(complete_func)s %(prog_name)s\nfi\n"
}

/// The fish script template.
pub closed spec fn fish_template() -> Seq<char> {
    "\nfunction %(complete_func)s\n    set -l response (env %(complete_var)s=fish_complete COMP_WORDS=(commandline -cp) COMP_CWORD=(commandline -t) %(prog_name)s)\n\n    for completion in $response\n        set -l metadata (string split \",\" -- $completion)\n\n        if [ $metadata[1] = \"dir\" ]\n            __fish_complete_directories $metadata[2]\n        else if [ $metadata[1] = \"file\" ]\n            __fish_complete_path $metadata[2]\n        else if [ $metadata[1] = \"plain\" ]\n            echo $metadata[2]\n        end\n    end\nend\n\ncomplete -c %(prog_name)s -f -a \"(%(complete_func)s)\"\n"@
}

fn fish_template_exec() -> (r: &'static str)
    ensures
        r@ == fish_template(),
{
    "\nfunction %(complete_func)s\n    set -l response (env %(complete_var)s=fish_complete COMP_WORDS=(commandline -cp) COMP_CWORD=(commandline -t) %(prog_name)s)\n\n    for completion in $response\n        set -l metadata (string split \",\" -- $completion)\n\n        if [ $metadata[1] = \"dir\" ]\n            __fish_complete_directories $metadata[2]\n        else if [ $metadata[1] = \"file\" ]\n            __fish_complete_path $metadata[2]\n        else if [ $metadata[1] = \"plain\" ]\n            echo $metadata[2]\n        end\n    end\nend\n\ncomplete -c %(prog_name)s -f -a \"(%(complete_func)s)\"\n"
}


/// The completion support for a shell, by its name in any case.
pub fn get_completion_class(shell: &str) -> (r: Option<Box<dyn ShellComplete>>)
    ensures
        r is Some <==> (crate::text::lower_of(shell@) == "bash"@ || crate::text::lower_of(shell@) == "zsh"@
            || crate::text::lower_of(shell@) == "fish"@),
        r matches Some(b) ==> b.spec_name() == crate::text::lower_of(shell@),
{
    let l = crate::text::to_lower(shell);
    proof {
        reveal_strlit("bash");
        reveal_strlit("zsh");
        reveal_strlit("fish");
    }
    if crate::text::str_eq(l.as_str(), "bash") {
        Some(Box::new(BashComplete))
    } else if crate::text::str_eq(l.as_str(), "zsh") {
        Some(Box::new(ZshComplete))
    } else if crate::text::str_eq(l.as_str(), "fish") {
        Some(Box::new(FishComplete))
    } else {
        None
    }
}

/// The supported shells.
pub fn list_shells() -> (r: Vec<&'static str>)
    ensures
        r@.map_values(|s: &str| s@) == seq!["bash"@, "zsh"@, "fish"@],
{
    let mut v: Vec<&'static str> = Vec::new();
    v.push("bash");
    v.push("zsh");
    v.push("fish");
    assert(v@.map_values(|s: &str| s@) =~= seq!["bash"@, "zsh"@, "fish"@]);
    v
}

/// What asks a program for completion: the environment variable it reads.
pub struct CompletionOption {
    pub complete_var: String,
}

/// The option that asks for completion through `complete_var`.
pub fn make_completion_option(complete_var: &str) -> (r: CompletionOption)
    ensures
        r.complete_var@ == complete_var@,
{
    CompletionOption { complete_var: str_of(complete_var) }
}

/// The part of `s` before its first `c`, if it has one.
/// The shell a completion request names: the value's first `_`-separated
/// piece (all of it when it has no `_`).
pub fn request_shell(value: &str) -> (r: String)
    ensures
        r@ == match before_first(value@, '_') {
            Some(p) => p,
            None => value@,
        },
{
    match before_first_exec(value, '_') {
        Some(p) => p,
        None => str_of(value),
    }
}

pub open spec fn before_first(s: Seq<char>, c: char) -> Option<Seq<char>>
    decreases s.len(),
{
    if s.len() == 0 {
        None
    } else if s[0] == c {
        Some(Seq::<char>::empty())
    } else {
        match before_first(s.drop_first(), c) {
            Some(p) => Some(seq![s[0]] + p),
            None => None,
        }
    }
}

proof fn lemma_before_first(s: Seq<char>, c: char, k: int)
    requires
        0 <= k <= s.len(),
        forall|j: int| 0 <= j < k ==> s[j] != c,
    ensures
        k < s.len() && s[k] == c ==> before_first(s, c) == Some(s.take(k)),
        k == s.len() ==> before_first(s, c) is None,
    decreases k,
{
    if k > 0 {
        lemma_before_first(s.drop_first(), c, k - 1);
        if k < s.len() && s[k] == c {
            assert(seq![s[0]] + s.drop_first().take(k - 1) =~= s.take(k));
        }
    } else if s.len() > 0 {
        assert(s.take(0) =~= Seq::<char>::empty());
    }
}

/// The part of `s` after its last `c` (all of `s` when it has none).
pub open spec fn after_last(s: Seq<char>, c: char) -> Seq<char>
    decreases s.len(),
{
    if s.len() == 0 {
        s
    } else if s.last() == c {
        Seq::<char>::empty()
    } else {
        after_last(s.drop_last(), c).push(s.last())
    }
}

proof fn lemma_after_last(s: Seq<char>, c: char, k: int)
    requires
        0 <= k <= s.len(),
        forall|j: int| k <= j < s.len() ==> s[j] != c,
    ensures
        k > 0 && s[k - 1] == c ==> after_last(s, c) == s.skip(k),
        k == 0 ==> after_last(s, c) == s,
    decreases s.len() - k,
{
    if k < s.len() {
        lemma_after_last(s.drop_last(), c, k);
        if k > 0 && s[k - 1] == c {
            assert(s.drop_last().skip(k).push(s.last()) =~= s.skip(k));
        } else if k == 0 {
            assert(s.drop_last().push(s.last()) =~= s);
        }
    } else if k > 0 {
        assert(s.skip(k) =~= Seq::<char>::empty());
    }
}

fn before_first_exec(s: &str, c: char) -> (r: Option<String>)
    ensures
        opt_view(r) == before_first(s@, c),
{
    let v = crate::text::to_chars(s);
    let mut k: usize = 0;
    while k < v.len() && v[k] != c
        invariant
            k <= v@.len(),
            v@ == s@,
            forall|j: int| 0 <= j < k ==> v@[j] != c,
        decreases v@.len() - k,
    {
        k = k + 1;
    }
    proof {
        lemma_before_first(s@, c, k as int);
        assert(v@.subrange(0, k as int) =~= v@.take(k as int));
    }
    if k == v.len() {
        None
    } else {
        Some(chars_between(&v, 0, k))
    }
}

fn chars_between(v: &Vec<char>, lo: usize, hi: usize) -> (r: String)
    requires
        lo <= hi <= v@.len(),
    ensures
        r@ == v@.subrange(lo as int, hi as int),
{
    let mut out = String::new();
    let mut i = lo;
    while i < hi
        invariant
            lo <= i <= hi <= v@.len(),
            out@ == v@.subrange(lo as int, i as int),
        decreases hi - i,
    {
        out.push(v[i]);
        assert(v@.subrange(lo as int, i + 1) =~= v@.subrange(lo as int, i as int).push(v@[i as int]));
        i = i + 1;
    }
    out
}

fn after_last_exec(s: &str, c: char) -> (r: String)
    ensures
        r@ == after_last(s@, c),
{
    let v = crate::text::to_chars(s);
    let mut k: usize = v.len();
    while k > 0 && v[k - 1] != c
        invariant
            k <= v@.len(),
            v@ == s@,
            forall|j: int| k <= j < v@.len() ==> v@[j] != c,
        decreases k,
    {
        k = k - 1;
    }
    proof {
        lemma_after_last(s@, c, k as int);
    }
    let r = chars_between(&v, k, v.len());
    assert(v@.subrange(k as int, v@.len() as int) =~= v@.skip(k as int));
    r
}

/// The part of `s` after its last `c`.
pub fn after_last_str(s: &str, c: char) -> (r: String)
    ensures
        r@ == after_last(s@, c),
{
    after_last_exec(s, c)
}

/// The first `n` characters of `s`.
pub fn take_str(s: &str, n: usize) -> (r: String)
    requires
        n <= s@.len(),
    ensures
        r@ == s@.take(n as int),
{
    let v = crate::text::to_chars(s);
    let r = chars_between(&v, 0, n);
    assert(v@.subrange(0, n as int) =~= s@.take(n as int));
    r
}

/// The supported shell that a `SHELL` value names (by its last path part).
pub open spec fn spec_detect_shell(shell: Option<Seq<char>>) -> Option<Seq<char>> {
    match shell {
        Some(s) => {
            let n = after_last(s, '/');
            if n == "bash"@ || n == "zsh"@ || n == "fish"@ {
                Some(n)
            } else {
                None
            }
        },
        None => None,
    }
}

/// The supported shell named by the value of `SHELL`, if any.
pub fn detect_shell(shell: Option<&str>) -> (r: Option<String>)
    ensures
        opt_view(r) == spec_detect_shell(opt_str(shell)),
{
    match shell {
        Some(s) => {
            let n = after_last_exec(s, '/');
            proof {
                reveal_strlit("bash");
                reveal_strlit("zsh");
                reveal_strlit("fish");
            }
            if crate::text::str_eq(n.as_str(), "bash") || crate::text::str_eq(n.as_str(), "zsh")
                || crate::text::str_eq(n.as_str(), "fish") {
                Some(n)
            } else {
                None
            }
        },
        None => None,
    }
}

pub open spec fn opt_str(o: Option<&str>) -> Option<Seq<char>> {
    match o {
        Some(s) => Some(s@),
        None => None,
    }
}

/// What a completion request asks for.
#[derive(Debug, PartialEq, Eq)]
pub enum CompletionAction {
    /// Print the script that hooks the program into the shell.
    Source { shell: String },
    /// Print the completions for the words the shell handed over.
    Complete { shell: String },
}

impl CompletionOption {
    /// Whether completion is asked for: the variable is set (`value` is its
    /// value in the environment).
    pub fn is_completion_requested(&self, value: Option<&str>) -> (r: bool)
        ensures
            r == value is Some,
    {
        value.is_some()
    }

    /// The shell a request names: what comes before the first `_` of the value
    /// (as in `bash_complete`), when there is a `_`.
    pub fn get_completion_shell(&self, value: Option<&str>) -> (r: Option<String>)
        ensures
            opt_view(r) == match value {
                Some(v) => before_first(v@, '_'),
                None => None,
            },
    {
        match value {
            Some(v) => before_first_exec(v, '_'),
            None => None,
        }
    }

    /// Whether the request is for the script: the value ends with `_source`.
    pub fn is_source_request(&self, value: Option<&str>) -> (r: bool)
        ensures
            r == match value {
                Some(v) => crate::text::seq_ends_with(v@, "_source"@),
                None => false,
            },
    {
        match value {
            Some(v) => crate::text::ends_with(v, "_source"),
            None => false,
        }
    }

    /// What to do for a request: nothing (`None`) when there is none or it
    /// names no shell, else print the script or the completions.
    pub fn handle_completion(&self, value: Option<&str>) -> (r: Option<CompletionAction>)
        ensures
            match value {
                None => r is None,
                Some(v) => match before_first(v@, '_') {
                    None => r is None,
                    Some(sh) => if crate::text::seq_ends_with(v@, "_source"@) {
                        r matches Some(CompletionAction::Source { shell }) && shell@ == sh
                    } else {
                        r matches Some(CompletionAction::Complete { shell }) && shell@ == sh
                    },
                },
            },
    {
        if !self.is_completion_requested(value) {
            return None;
        }
        match self.get_completion_shell(value) {
            Some(shell) => if self.is_source_request(value) {
                Some(CompletionAction::Source { shell })
            } else {
                Some(CompletionAction::Complete { shell })
            },
            None => None,
        }
    }
}

/// The option names that start with `incomplete`, each with the option's help.
pub open spec fn option_values(os: Seq<crate::option::ClickOption>, incomplete: Seq<char>) -> Seq<Seq<char>>
    decreases os.len(),
{
    if os.len() == 0 {
        seq![]
    } else {
        let o = os.last();
        option_values(os.drop_last(), incomplete) + o.long.deep_view().filter(|n: Seq<char>| seq_starts_with(n, incomplete))
            + o.short.deep_view().filter(|n: Seq<char>| seq_starts_with(n, incomplete))
    }
}

fn names_with_prefix(names: &Vec<String>, incomplete: &str, help: &Option<String>, out: &mut Vec<CompletionItem>)
    ensures
        final(out)@.map_values(|c: CompletionItem| c.value@) == old(out)@.map_values(|c: CompletionItem| c.value@)
            + names.deep_view().filter(|n: Seq<char>| seq_starts_with(n, incomplete@)),
{
    let mut i: usize = 0;
    let ghost o0 = out@.map_values(|c: CompletionItem| c.value@);
    while i < names.len()
        invariant
            i <= names@.len(),
            out@.map_values(|c: CompletionItem| c.value@) == o0 + names.deep_view().take(i as int).filter(
                |n: Seq<char>| seq_starts_with(n, incomplete@),
            ),
        decreases names@.len() - i,
    {
        proof {
            reveal(Seq::filter);
            assert(names.deep_view().take(i + 1).drop_last() =~= names.deep_view().take(i as int));
        }
        let ghost before = out@.map_values(|c: CompletionItem| c.value@);
        if starts_with(names[i].as_str(), incomplete) {
            let mut item = CompletionItem::new(names[i].as_str());
            match help {
                Some(h) => {
                    item = item.with_help(h.as_str());
                },
                None => {},
            }
            out.push(item);
            assert(out@.map_values(|c: CompletionItem| c.value@) =~= before.push(names@[i as int]@));
        } else {
            assert(out@.map_values(|c: CompletionItem| c.value@) =~= before);
        }
        i = i + 1;
    }
    assert(names.deep_view().take(names@.len() as int) =~= names.deep_view());
}

/// The completions of a command's options: each name that starts with what was
/// typed, then `--help` when it does.
fn get_option_completions(cmd: &Command, incomplete: &str) -> (r: Vec<CompletionItem>)
    ensures
        r@.map_values(|c: CompletionItem| c.value@) == option_values(cmd.options@, incomplete@) + if seq_starts_with(
            "--help"@,
            incomplete@,
        ) {
            seq!["--help"@]
        } else {
            Seq::<Seq<char>>::empty()
        },
{
    let mut out: Vec<CompletionItem> = Vec::new();
    let mut i: usize = 0;
    assert(cmd.options@.take(0) =~= Seq::<crate::option::ClickOption>::empty());
    assert(out@.map_values(|c: CompletionItem| c.value@) =~= Seq::<Seq<char>>::empty());
    while i < cmd.options.len()
        invariant
            i <= cmd.options@.len(),
            out@.map_values(|c: CompletionItem| c.value@) == option_values(cmd.options@.take(i as int), incomplete@),
        decreases cmd.options@.len() - i,
    {
        let o = &cmd.options[i];
        assert(cmd.options@.take(i + 1).drop_last() =~= cmd.options@.take(i as int));
        names_with_prefix(&o.long, incomplete, &o.config.help, &mut out);
        names_with_prefix(&o.short, incomplete, &o.config.help, &mut out);
        i = i + 1;
    }
    assert(cmd.options@.take(cmd.options@.len() as int) =~= cmd.options@);
    proof {
        reveal_strlit("--help");
        reveal_strlit("Show this message and exit.");
    }
    let ghost before = out@.map_values(|c: CompletionItem| c.value@);
    if starts_with("--help", incomplete) {
        out.push(CompletionItem::new("--help").with_help("Show this message and exit."));
        assert(out@.map_values(|c: CompletionItem| c.value@) =~= before.push("--help"@));
    } else {
        assert(out@.map_values(|c: CompletionItem| c.value@) =~= before + Seq::<Seq<char>>::empty());
    }
    out
}

/// A command, a group or a collection, seen for completion.
pub enum CmdRef<'a> {
    Command(&'a Command),
    Group(&'a Group),
    Collection(&'a CommandCollection),
}

/// What completions can be computed for.
pub trait AsCommandRef {
    spec fn spec_ref(&self) -> CmdRef<'_>;

    fn command_ref(&self) -> (r: CmdRef<'_>)
        ensures
            r == self.spec_ref(),
    ;
}

impl AsCommandRef for Command {
    open spec fn spec_ref(&self) -> CmdRef<'_> {
        CmdRef::Command(self)
    }

    fn command_ref(&self) -> (r: CmdRef<'_>) {
        CmdRef::Command(self)
    }
}

impl AsCommandRef for Group {
    open spec fn spec_ref(&self) -> CmdRef<'_> {
        CmdRef::Group(self)
    }

    fn command_ref(&self) -> (r: CmdRef<'_>) {
        CmdRef::Group(self)
    }
}

impl AsCommandRef for CommandCollection {
    open spec fn spec_ref(&self) -> CmdRef<'_> {
        CmdRef::Collection(self)
    }

    fn command_ref(&self) -> (r: CmdRef<'_>) {
        CmdRef::Collection(self)
    }
}

impl AsCommandRef for AnyCommand {
    open spec fn spec_ref(&self) -> CmdRef<'_> {
        match self {
            AnyCommand::Command(c) => CmdRef::Command(c),
            AnyCommand::Group(g) => CmdRef::Group(g),
            AnyCommand::Collection(c) => CmdRef::Collection(c),
        }
    }

    fn command_ref(&self) -> (r: CmdRef<'_>) {
        match self {
            AnyCommand::Command(c) => CmdRef::Command(c),
            AnyCommand::Group(g) => CmdRef::Group(g),
            AnyCommand::Collection(c) => CmdRef::Collection(c),
        }
    }
}

/// The options' completions of a command for `incomplete`: its option names
/// that start with it, then `--help` if that does.
pub open spec fn option_completion_values(c: Command, incomplete: Seq<char>) -> Seq<Seq<char>> {
    option_values(c.options@, incomplete) + if seq_starts_with("--help"@, incomplete) {
        seq!["--help"@]
    } else {
        Seq::<Seq<char>>::empty()
    }
}

/// The command a reference stands for.
pub open spec fn ref_command(c: CmdRef<'_>) -> AnyCommand {
    match c {
        CmdRef::Command(x) => AnyCommand::Command(*x),
        CmdRef::Group(x) => AnyCommand::Group(*x),
        CmdRef::Collection(x) => AnyCommand::Collection(*x),
    }
}

/// Whether `vals` are the completions of `c` for the words `args` already typed
/// and the word `incomplete` being typed: a command completes its options; in
/// a group, a first word that names a subcommand hands the rest over to it;
/// else the group's subcommand names (in sorted order) that start with
/// `incomplete`, followed by the group's options when `incomplete` starts with
/// `-` or no name matched; a collection completes nothing.
pub open spec fn completes(c: AnyCommand, args: Seq<Seq<char>>, incomplete: Seq<char>, vals: Seq<Seq<char>>) -> bool
    decreases args.len(),
{
    match c {
        AnyCommand::Command(cm) => vals == option_completion_values(cm, incomplete),
        AnyCommand::Group(g) => if !g.wf() {
            vals == option_completion_values(g.command, incomplete)
        } else if args.len() > 0 && g.spec_commands().contains_key(args[0]) {
            completes(g.spec_commands()[args[0]], args.drop_first(), incomplete, vals)
        } else {
            exists|names: Seq<Seq<char>>|
                #[trigger] sorted_names_of(names, g.spec_commands().dom()) && {
                    let subs = names.filter(|n: Seq<char>| seq_starts_with(n, incomplete));
                    vals == subs + if seq_starts_with(incomplete, "-"@) || subs.len() == 0 {
                        option_completion_values(g.command, incomplete)
                    } else {
                        Seq::<Seq<char>>::empty()
                    }
                }
        },
        AnyCommand::Collection(_) => vals == Seq::<Seq<char>>::empty(),
    }
}

/// The completions for what was typed: in a group, a known first word hands
/// over to that subcommand; else the subcommands that start with it; and the
/// options when it starts with `-` or nothing else matched.
pub fn get_completions<C: AsCommandRef + ?Sized>(cmd: &C, prog_name: &str, args: &[String], incomplete: &str) -> (r: Vec<
    CompletionItem,
>)
    ensures
        completes(
            ref_command(cmd.spec_ref()),
            args@.map_values(|x: String| x@),
            incomplete@,
            r@.map_values(|x: CompletionItem| x.value@),
        ),
    decreases args@.len(),
{
    let ghost av = args@.map_values(|x: String| x@);
    let ghost inc = incomplete@;
    let ghost pred = |n: Seq<char>| seq_starts_with(n, inc);
    proof {
        reveal_strlit("-");
    }
    let view = cmd.command_ref();
    match view {
        CmdRef::Command(c) => {
            return get_option_completions(c, incomplete);
        },
        CmdRef::Collection(_) => {
            let out: Vec<CompletionItem> = Vec::new();
            assert(out@.map_values(|x: CompletionItem| x.value@) =~= Seq::<Seq<char>>::empty());
            return out;
        },
        CmdRef::Group(g) => {
            if !g.is_wf() {
                return get_option_completions(&g.command, incomplete);
            }
            if args.len() > 0 {
                match g.get_command(args[0].as_str()) {
                    Some(sub) => {
                        let mut rest: Vec<String> = Vec::new();
                        let mut i: usize = 1;
                        while i < args.len()
                            invariant
                                1 <= i <= args@.len(),
                                av == args@.map_values(|x: String| x@),
                                rest@.map_values(|x: String| x@) == av.subrange(1, i as int),
                            decreases args@.len() - i,
                        {
                            let ghost od = rest@.map_values(|x: String| x@);
                            rest.push(args[i].clone());
                            assert(rest@.map_values(|x: String| x@) =~= od.push(av[i as int]));
                            assert(av.subrange(1, i + 1) =~= av.subrange(1, i as int).push(av[i as int]));
                            i = i + 1;
                        }
                        assert(av.subrange(1, av.len() as int) =~= av.drop_first());
                        let r = get_completions::<AnyCommand>(sub, args[0].as_str(), rest.as_slice(), incomplete);
                        proof {
                            assert(ref_command(sub.spec_ref()) == *sub);
                            assert(rest@.map_values(|x: String| x@) == av.drop_first());
                        }
                        return r;
                    },
                    None => {},
                }
            }
            let names = g.list_commands();
            let ghost nv = names.deep_view();
            let mut out: Vec<CompletionItem> = Vec::new();
            let mut i: usize = 0;
            while i < names.len()
                invariant
                    g.wf(),
                    i <= names@.len(),
                    nv == names.deep_view(),
                    pred == (|n: Seq<char>| seq_starts_with(n, inc)),
                    inc == incomplete@,
                    out@.map_values(|x: CompletionItem| x.value@) == nv.take(i as int).filter(pred),
                decreases names@.len() - i,
            {
                let ghost before = out@.map_values(|x: CompletionItem| x.value@);
                proof {
                    assert(nv.take(i + 1) =~= nv.take(i as int).push(nv[i as int]));
                    nv.take(i as int).lemma_filter_push(nv[i as int], pred);
                }
                if starts_with(names[i].as_str(), incomplete) {
                    let mut item = CompletionItem::new(names[i].as_str());
                    match g.get_command(names[i].as_str()) {
                        Some(sub) => {
                            let h = sub.get_short_help();
                            if h.unicode_len() > 0 {
                                item = item.with_help(h);
                            }
                        },
                        None => {},
                    }
                    out.push(item);
                    assert(out@.map_values(|x: CompletionItem| x.value@) =~= before.push(nv[i as int]));
                } else {
                    assert(out@.map_values(|x: CompletionItem| x.value@) =~= before);
                }
                i = i + 1;
            }
            assert(nv.take(nv.len() as int) =~= nv);
            let ghost subs = nv.filter(pred);
            if starts_with(incomplete, "-") || out.len() == 0 {
                let mut more = get_option_completions(&g.command, incomplete);
                let ghost before = out@;
                let ghost mo = more@;
                out.append(&mut more);
                assert(out@.map_values(|x: CompletionItem| x.value@) =~= before.map_values(|x: CompletionItem| x.value@)
                    + mo.map_values(|x: CompletionItem| x.value@));
                proof {
                    assert(sorted_names_of(nv, g.spec_commands().dom()));
                }
                return out;
            }
            proof {
                assert(out@.map_values(|x: CompletionItem| x.value@) =~= subs + Seq::<Seq<char>>::empty());
                assert(sorted_names_of(nv, g.spec_commands().dom()));
            }
            out
        },
    }
}

} // verus!
