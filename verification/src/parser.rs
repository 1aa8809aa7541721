//! Low-level argument parsing.
//!
//! - `--` ends option parsing; the remaining arguments are positional
//! - Short options can be grouped: `-abc` = `-a -b -c`
//! - Short option with value: `-nfoo` or `-n foo`
//! - Long option with value: `--name=foo` or `--name foo`
//!
//! Each step of the parser has a specification function of the same name with a
//! `spec_` prefix; the executable code is proved to compute it.

use vstd::prelude::*;
use crate::error::{ClickError, opt_view, optv_view};
use crate::strmap::{StrMap, key_index, lemma_key_index_bounds};
use crate::text::{
    blen, cat2, cat3, cat5, char_is_alphanumeric, char_len_utf8, char_width, chars_to_string,
    dec_digits, int_to_dec, i64_to_string, str_eq, str_of, to_chars, unicode_alphanumeric,
};

verus! {

/// Special nargs value for an optional value (zero or one).
pub const NARGS_OPTIONAL: i32 = -2;

/// Action to perform when an option is encountered.
#[derive(Debug, Clone, Copy, PartialEq, Eq, Default, Structural)]
pub enum OptionAction {
    /// Store a single value (default).
    #[default]
    Store,
    /// Store a constant value (for flags).
    StoreConst,
    /// Append value to a list.
    Append,
    /// Append a constant to a list.
    AppendConst,
    /// Count occurrences.
    Count,
}

/// A parsed value from the command line.
#[derive(Debug, Clone, PartialEq)]
pub enum ParsedValue {
    /// A single string value.
    Single(String),
    /// Multiple string values (for append or multi-valued options).
    Multiple(Vec<String>),
    /// A count of occurrences.
    Count(usize),
    /// A boolean flag value.
    Flag(bool),
    /// Value was not set.
    Unset,
    /// An option whose value may be omitted was given without one.
    FlagNeedsValue,
}

/// The mathematical form of a `ParsedValue`.
pub enum PV {
    Single(Seq<char>),
    Multiple(Seq<Seq<char>>),
    Count(nat),
    Flag(bool),
    Unset,
    FlagNeedsValue,
}

impl View for ParsedValue {
    type V = PV;

    open spec fn view(&self) -> PV {
        match self {
            ParsedValue::Single(s) => PV::Single(s@),
            ParsedValue::Multiple(v) => PV::Multiple(v.deep_view()),
            ParsedValue::Count(n) => PV::Count(*n as nat),
            ParsedValue::Flag(b) => PV::Flag(*b),
            ParsedValue::Unset => PV::Unset,
            ParsedValue::FlagNeedsValue => PV::FlagNeedsValue,
        }
    }
}

pub open spec fn pvs(v: Seq<ParsedValue>) -> Seq<PV> {
    v.map_values(|x: ParsedValue| x@)
}

pub open spec fn pv_map(m: Map<Seq<char>, ParsedValue>) -> Map<Seq<char>, PV> {
    m.map_values(|x: ParsedValue| x@)
}

impl ParsedValue {
    /// Check if the value is unset.
    pub fn is_unset(&self) -> (r: bool)
        ensures
            r == (self@ is Unset),
    {
        match self {
            ParsedValue::Unset => true,
            _ => false,
        }
    }

    /// Get as a single string, if applicable.
    pub fn as_single(&self) -> (r: Option<&str>)
        ensures
            match self@ {
                PV::Single(s) => r matches Some(x) && x@ == s,
                _ => r is None,
            },
    {
        match self {
            ParsedValue::Single(s) => Some(s.as_str()),
            _ => None,
        }
    }

    /// Get as multiple strings, if applicable.
    pub fn as_multiple(&self) -> (r: Option<&[String]>)
        ensures
            match self {
                ParsedValue::Multiple(v) => r matches Some(x) && x@ == v@,
                _ => r is None,
            },
    {
        match self {
            ParsedValue::Multiple(v) => Some(v.as_slice()),
            _ => None,
        }
    }

    /// Get as a count, if applicable.
    pub fn as_count(&self) -> (r: Option<usize>)
        ensures
            match self {
                ParsedValue::Count(n) => r == Some(*n),
                _ => r is None,
            },
    {
        match self {
            ParsedValue::Count(n) => Some(*n),
            _ => None,
        }
    }

    /// Get as a flag, if applicable.
    pub fn as_flag(&self) -> (r: Option<bool>)
        ensures
            match self {
                ParsedValue::Flag(b) => r == Some(*b),
                _ => r is None,
            },
    {
        match self {
            ParsedValue::Flag(b) => Some(*b),
            _ => None,
        }
    }
}

/// The values a parse produced, by destination name.
pub type ValueMap = StrMap<ParsedValue>;

/// Result type for parsing: (options, remaining args, parameter order).
pub type ParseResult = Result<(ValueMap, Vec<String>, Vec<String>), ClickError>;

/// The errors the parser raises, by their texts.
pub enum PErr {
    NoSuchOption(Seq<char>, Option<Seq<Seq<char>>>),
    BadOptionUsage(Seq<char>, Seq<char>),
    BadArgumentUsage(Seq<char>),
    Usage(Seq<char>),
    Other,
}

pub open spec fn err_view(e: ClickError) -> PErr {
    match e {
        ClickError::NoSuchOption { option_name, possibilities, ctx: None } =>
            PErr::NoSuchOption(option_name@, optv_view(possibilities)),
        ClickError::BadOptionUsage { option_name, message, ctx: None } =>
            PErr::BadOptionUsage(option_name@, message@),
        ClickError::BadArgumentUsage { message, ctx: None } => PErr::BadArgumentUsage(message@),
        ClickError::UsageError { message, ctx: None } => PErr::Usage(message@),
        _ => PErr::Other,
    }
}

// =============================================================================
// split_opt
// =============================================================================

/// What `split_opt` returns: the option prefix and the name after it.
pub open spec fn spec_split_opt(s: Seq<char>) -> Option<(Seq<char>, Seq<char>)> {
    if s.len() == 0 {
        None
    } else if unicode_alphanumeric(s[0]) {
        None
    } else if s.len() >= 2 && s[0] == '-' && s[1] == '-' {
        if s.len() == 2 {
            None
        } else {
            Some((s.take(2), s.skip(2)))
        }
    } else if blen(s) >= 2 {
        Some((s.take(1), s.skip(1)))
    } else {
        None
    }
}

/// The inputs on which `split_opt` slices at byte 2 without cutting a character.
pub open spec fn split_safe(s: Seq<char>) -> bool {
    ||| blen(s) < 2
    ||| unicode_alphanumeric(s[0])
    ||| char_width(s[0]) == 2
    ||| (char_width(s[0]) == 1 && char_width(s[1]) == 1)
}

pub open spec fn pair_view(r: Option<(&str, &str)>) -> Option<(Seq<char>, Seq<char>)> {
    match r {
        Some((a, b)) => Some((a@, b@)),
        None => None,
    }
}

proof fn lemma_blen_ge2(s: Seq<char>)
    requires
        s.len() > 0,
    ensures
        blen(s) >= 2 <==> (s.len() >= 2 || char_width(s[0]) >= 2),
    decreases s.len(),
{
    crate::text::lemma_blen_ge_len(s);
    if s.len() == 1 {
        assert(s.drop_last().len() == 0);
        assert(blen(s.drop_last()) == 0);
        assert(s.last() == s[0]);
    } else {
        crate::text::lemma_blen_ge_len(s.drop_last());
    }
}

fn split_opt_any(opt: &str) -> (r: Option<(&str, &str)>)
    ensures
        pair_view(r) == spec_split_opt(opt@),
{
    let n = opt.unicode_len();
    if n == 0 {
        return None;
    }
    let first = opt.get_char(0);
    if char_is_alphanumeric(first) {
        return None;
    }
    if n >= 2 && first == '-' && opt.get_char(1) == '-' {
        if n == 2 {
            return None;
        }
        return Some((opt.substring_char(0, 2), opt.substring_char(2, n)));
    }
    proof {
        lemma_blen_ge2(opt@);
    }
    if n >= 2 || char_len_utf8(first) >= 2 {
        Some((opt.substring_char(0, 1), opt.substring_char(1, n)))
    } else {
        None
    }
}

/// Split an option string into its prefix and name.
///
/// `split_opt("--name") == Some(("--", "name"))`, `split_opt("-n") == Some(("-", "n"))`,
/// `split_opt("name") == None`, `split_opt("-") == None`.
pub fn split_opt(opt: &str) -> (r: Option<(&str, &str)>)
    requires
        split_safe(opt@),
    ensures
        pair_view(r) == spec_split_opt(opt@),
{
    split_opt_any(opt)
}

// =============================================================================
// Edit distance and close matches
// =============================================================================

pub open spec fn min3(a: nat, b: nat, c: nat) -> nat {
    if a <= b && a <= c {
        a
    } else if b <= c {
        b
    } else {
        c
    }
}

/// The Levenshtein distance between two strings.
pub open spec fn lev(a: Seq<char>, b: Seq<char>) -> nat
    decreases a.len() + b.len(),
{
    if a.len() == 0 {
        b.len()
    } else if b.len() == 0 {
        a.len()
    } else {
        min3(
            lev(a.drop_last(), b) + 1,
            lev(a, b.drop_last()) + 1,
            lev(a.drop_last(), b.drop_last()) + if a.last() == b.last() { 0nat } else { 1nat },
        )
    }
}

pub proof fn lemma_lev_bound(a: Seq<char>, b: Seq<char>)
    ensures
        lev(a, b) <= a.len() + b.len(),
    decreases a.len() + b.len(),
{
    if a.len() > 0 && b.len() > 0 {
        lemma_lev_bound(a.drop_last(), b);
    }
}

/// The Levenshtein edit distance between two strings.
pub fn edit_distance(a: &str, b: &str) -> (r: usize)
    requires
        a@.len() + b@.len() < usize::MAX,
    ensures
        r == lev(a@, b@),
{
    let a_chars = to_chars(a);
    let b_chars = to_chars(b);
    let m = a_chars.len();
    let n = b_chars.len();
    if m == 0 {
        return n;
    }
    if n == 0 {
        return m;
    }
    let mut prev: Vec<usize> = Vec::new();
    let mut j: usize = 0;
    while j <= n
        invariant
            j <= n + 1,
            n == b@.len(),
            n < usize::MAX,
            prev@.len() == j,
            forall|k: int| 0 <= k < j ==> prev@[k] == k,
        decreases n + 1 - j,
    {
        prev.push(j);
        j = j + 1;
    }
    assert forall|k: int| 0 <= k <= n implies prev@[k] == lev(a@.take(0), b@.take(k)) by {
        assert(a@.take(0).len() == 0);
    }
    let mut i: usize = 1;
    while i <= m
        invariant
            1 <= i <= m + 1,
            m == a@.len(),
            n == b@.len(),
            a_chars@ == a@,
            b_chars@ == b@,
            m + n < usize::MAX,
            prev@.len() == n + 1,
            forall|k: int| 0 <= k <= n ==> prev@[k] == lev(a@.take(i - 1), b@.take(k)),
        decreases m + 1 - i,
    {
        let mut curr: Vec<usize> = Vec::new();
        proof {
            assert(b@.take(0).len() == 0);
        }
        curr.push(i);
        let mut jj: usize = 1;
        while jj <= n
            invariant
                1 <= i <= m,
                1 <= jj <= n + 1,
                m == a@.len(),
                n == b@.len(),
                a_chars@ == a@,
                b_chars@ == b@,
                m + n < usize::MAX,
                prev@.len() == n + 1,
                forall|k: int| 0 <= k <= n ==> prev@[k] == lev(a@.take(i - 1), b@.take(k)),
                curr@.len() == jj,
                forall|k: int| 0 <= k < jj ==> curr@[k] == lev(a@.take(i as int), b@.take(k)),
            decreases n + 1 - jj,
        {
            let ghost ai = a@.take(i as int);
            let ghost bj = b@.take(jj as int);
            proof {
                assert(ai.drop_last() =~= a@.take(i - 1));
                assert(bj.drop_last() =~= b@.take(jj - 1));
                assert(ai.last() == a@[i - 1]);
                assert(bj.last() == b@[jj - 1]);
                lemma_lev_bound(a@.take(i - 1), bj);
                lemma_lev_bound(ai, b@.take(jj - 1));
                lemma_lev_bound(a@.take(i - 1), b@.take(jj - 1));
            }
            let cost: usize = if a_chars[i - 1] == b_chars[jj - 1] { 0 } else { 1 };
            let del = prev[jj] + 1;
            let ins = curr[jj - 1] + 1;
            let sub = prev[jj - 1] + cost;
            let mut best = del;
            if ins < best {
                best = ins;
            }
            if sub < best {
                best = sub;
            }
            proof {
                assert(best == min3(del as nat, ins as nat, sub as nat));
            }
            curr.push(best);
            jj = jj + 1;
        }
        prev = curr;
        i = i + 1;
    }
    proof {
        assert(a@.take(m as int) =~= a@);
        assert(b@.take(n as int) =~= b@);
    }
    prev[n]
}

/// Whether `p` lies at distance exactly `d` from `word` (both within the machine's
/// length range).
pub open spec fn at_distance(word: Seq<char>, p: Seq<char>, d: nat) -> bool {
    word.len() + p.len() < usize::MAX && lev(word, p) == d
}

/// The possibilities at distance `d`, in their order.
pub open spec fn matches_at(word: Seq<char>, poss: Seq<Seq<char>>, d: nat) -> Seq<Seq<char>>
    decreases poss.len(),
{
    if poss.len() == 0 {
        seq![]
    } else if at_distance(word, poss.last(), d) {
        matches_at(word, poss.drop_last(), d).push(poss.last())
    } else {
        matches_at(word, poss.drop_last(), d)
    }
}

/// What `get_close_matches` returns: the possibilities at distance at most 2, the
/// nearest first (stable among equals), at most `max` of them.
pub open spec fn close_matches(word: Seq<char>, poss: Seq<Seq<char>>, max: nat) -> Seq<Seq<char>> {
    let all = matches_at(word, poss, 0) + matches_at(word, poss, 1) + matches_at(word, poss, 2);
    if all.len() <= max {
        all
    } else {
        all.take(max as int)
    }
}

fn matches_at_exec(word: &str, poss: &Vec<String>, dists: &Vec<Option<usize>>, d: usize) -> (r: Vec<String>)
    requires
        dists@.len() == poss@.len(),
        forall|i: int| 0 <= i < poss@.len() ==> match #[trigger] dists@[i] {
            Some(x) => word@.len() + poss@[i]@.len() < usize::MAX && x == lev(word@, poss@[i]@),
            None => word@.len() + poss@[i]@.len() >= usize::MAX,
        },
    ensures
        r.deep_view() == matches_at(word@, poss.deep_view(), d as nat),
{
    let mut out: Vec<String> = Vec::new();
    let mut i: usize = 0;
    while i < poss.len()
        invariant
            i <= poss@.len(),
            dists@.len() == poss@.len(),
            forall|k: int| 0 <= k < poss@.len() ==> match #[trigger] dists@[k] {
                Some(x) => word@.len() + poss@[k]@.len() < usize::MAX && x == lev(word@, poss@[k]@),
                None => word@.len() + poss@[k]@.len() >= usize::MAX,
            },
            out.deep_view() =~= matches_at(word@, poss.deep_view().subrange(0, i as int), d as nat),
        decreases poss@.len() - i,
    {
        let ghost sub = poss.deep_view().subrange(0, i + 1);
        proof {
            assert(sub.drop_last() =~= poss.deep_view().subrange(0, i as int));
            assert(sub.last() == poss@[i as int]@);
        }
        let hit = match dists[i] {
            Some(x) => x == d,
            None => false,
        };
        if hit {
            let ghost od = out.deep_view();
            out.push(poss[i].clone());
            assert(out.deep_view() =~= od.push(poss@[i as int]@));
        }
        i = i + 1;
    }
    assert(poss.deep_view().subrange(0, poss@.len() as int) =~= poss.deep_view());
    out
}

fn close_matches_exec(word: &str, poss: &Vec<String>, max_matches: usize) -> (r: Vec<String>)
    ensures
        r.deep_view() == close_matches(word@, poss.deep_view(), max_matches as nat),
{
    let wl = word.unicode_len();
    let mut dists: Vec<Option<usize>> = Vec::new();
    let mut i: usize = 0;
    while i < poss.len()
        invariant
            i <= poss@.len(),
            wl == word@.len(),
            dists@.len() == i,
            forall|k: int| 0 <= k < i ==> match #[trigger] dists@[k] {
                Some(x) => word@.len() + poss@[k]@.len() < usize::MAX && x == lev(word@, poss@[k]@),
                None => word@.len() + poss@[k]@.len() >= usize::MAX,
            },
        decreases poss@.len() - i,
    {
        let pl = poss[i].unicode_len();
        if pl < usize::MAX - wl {
            dists.push(Some(edit_distance(word, poss[i].as_str())));
        } else {
            dists.push(None);
        }
        i = i + 1;
    }
    let mut m0 = matches_at_exec(word, poss, &dists, 0);
    let mut m1 = matches_at_exec(word, poss, &dists, 1);
    let mut m2 = matches_at_exec(word, poss, &dists, 2);
    let ghost all = m0.deep_view() + m1.deep_view() + m2.deep_view();
    let ghost d0 = m0.deep_view();
    let ghost d1 = m1.deep_view();
    let ghost d2 = m2.deep_view();
    m0.append(&mut m1);
    m0.append(&mut m2);
    assert(m0.deep_view() =~= all);
    let mut out: Vec<String> = Vec::new();
    let mut k: usize = 0;
    while k < m0.len() && k < max_matches
        invariant
            k <= m0@.len(),
            k <= max_matches,
            m0.deep_view() == all,
            out.deep_view() =~= all.take(k as int),
        decreases m0@.len() - k,
    {
        let ghost od = out.deep_view();
        out.push(m0[k].clone());
        proof {
            assert(out.deep_view() =~= od.push(m0@[k as int]@));
            assert(all[k as int] == m0@[k as int]@);
            assert(all.take(k + 1) =~= all.take(k as int).push(all[k as int]));
        }
        k = k + 1;
    }
    proof {
        assert(all.len() == m0@.len());
        if all.len() <= max_matches {
            assert(all.take(all.len() as int) =~= all);
        }
    }
    out
}

/// Find close matches to a string from a list of possibilities: those at edit
/// distance at most 2, sorted by distance (stable), at most `max_matches` of them.
pub fn get_close_matches(word: &str, possibilities: &[&str], max_matches: usize) -> (r: Vec<String>)
    ensures
        r.deep_view() == close_matches(word@, possibilities@.map_values(|p: &str| p@), max_matches as nat),
{
    let mut poss: Vec<String> = Vec::new();
    let mut i: usize = 0;
    while i < possibilities.len()
        invariant
            i <= possibilities@.len(),
            poss.deep_view() =~= possibilities@.subrange(0, i as int).map_values(|p: &str| p@),
        decreases possibilities@.len() - i,
    {
        let ghost od = poss.deep_view();
        poss.push(str_of(possibilities[i]));
        proof {
            assert(poss.deep_view() =~= od.push(possibilities@[i as int]@));
            assert(possibilities@.subrange(0, i + 1).map_values(|p: &str| p@) =~= possibilities@.subrange(
                0,
                i as int,
            ).map_values(|p: &str| p@).push(possibilities@[i as int]@));
        }
        i = i + 1;
    }
    assert(possibilities@.subrange(0, i as int) =~= possibilities@);
    close_matches_exec(word, &poss, max_matches)
}


// =============================================================================
// unpack_args
// =============================================================================

/// Sum of the required counts (the positive nargs) in `ns`.
pub open spec fn count_required(ns: Seq<i32>) -> int
    decreases ns.len(),
{
    if ns.len() == 0 {
        0
    } else {
        count_required(ns.drop_last()) + if ns.last() > 0 { ns.last() as int } else { 0 }
    }
}

pub open spec fn min_int(a: int, b: int) -> int {
    if a <= b {
        a
    } else {
        b
    }
}

/// One pass of `unpack_args` over the nargs specifications: values are taken from the
/// front of `args` until a variadic specification is met (`star`), and from the back
/// after it.
pub open spec fn unpack_loop(args: Seq<Seq<char>>, ns: Seq<i32>, res: Seq<PV>, star: Option<int>) -> Result<
    (Seq<Seq<char>>, Seq<PV>, Option<int>),
    (),
>
    decreases ns.len(),
{
    if ns.len() == 0 {
        Ok((args, res, star))
    } else {
        let back = star is Some;
        let n = if back { ns.last() } else { ns[0] };
        let rest = if back { ns.drop_last() } else { ns.drop_first() };
        if n == 1 || (n == NARGS_OPTIONAL && args.len() > count_required(rest)) {
            if args.len() == 0 {
                unpack_loop(args, rest, res.push(PV::Unset), star)
            } else if back {
                unpack_loop(args.drop_last(), rest, res.push(PV::Single(args.last())), star)
            } else {
                unpack_loop(args.drop_first(), rest, res.push(PV::Single(args[0])), star)
            }
        } else if n == NARGS_OPTIONAL {
            unpack_loop(args, rest, res.push(PV::Unset), star)
        } else if n > 1 {
            let k = min_int(n as int, args.len() as int);
            let vals = if back { args.subrange(args.len() - k, args.len() as int) } else { args.take(k) };
            let args2 = if back { args.take(args.len() - k) } else { args.skip(k) };
            let v = if k == 0 { PV::Unset } else { PV::Multiple(vals) };
            unpack_loop(args2, rest, res.push(v), star)
        } else if n == -1 {
            if back {
                Err(())
            } else {
                unpack_loop(args, rest, res.push(PV::Unset), Some(res.len() as int))
            }
        } else {
            unpack_loop(args, rest, res, star)
        }
    }
}

/// What `unpack_args` returns: the values for each specification and the arguments
/// left over; `Err` when two specifications are variadic.
pub open spec fn spec_unpack(args: Seq<Seq<char>>, ns: Seq<i32>) -> Result<(Seq<PV>, Seq<Seq<char>>), ()> {
    match unpack_loop(args, ns, seq![], None) {
        Err(()) => Err(()),
        Ok((rem, res, star)) => match star {
            None => Ok((res, rem)),
            Some(p) => {
                let res2 = res.update(p, PV::Multiple(rem));
                Ok((res2.take(p + 1) + res2.skip(p + 1).reverse(), seq![]))
            },
        },
    }
}

pub open spec fn star_ok(star: Option<int>, len: int) -> bool {
    match star {
        Some(p) => 0 <= p < len,
        None => true,
    }
}

proof fn lemma_unpack_loop_star(args: Seq<Seq<char>>, ns: Seq<i32>, res: Seq<PV>, star: Option<int>)
    requires
        star_ok(star, res.len() as int),
    ensures
        unpack_loop(args, ns, res, star) matches Ok((rem, r2, s2)) ==> star_ok(s2, r2.len() as int)
            && r2.len() >= res.len() && (star is Some ==> s2 == star && rem.len() <= args.len()),
    decreases ns.len(),
{
    if ns.len() > 0 {
        let back = star is Some;
        let n = if back { ns.last() } else { ns[0] };
        let rest = if back { ns.drop_last() } else { ns.drop_first() };
        if n == 1 || (n == NARGS_OPTIONAL && args.len() > count_required(rest)) {
            if args.len() == 0 {
                lemma_unpack_loop_star(args, rest, res.push(PV::Unset), star);
            } else if back {
                lemma_unpack_loop_star(args.drop_last(), rest, res.push(PV::Single(args.last())), star);
            } else {
                lemma_unpack_loop_star(args.drop_first(), rest, res.push(PV::Single(args[0])), star);
            }
        } else if n == NARGS_OPTIONAL {
            lemma_unpack_loop_star(args, rest, res.push(PV::Unset), star);
        } else if n > 1 {
            let k = min_int(n as int, args.len() as int);
            let vals = if back { args.subrange(args.len() - k, args.len() as int) } else { args.take(k) };
            let args2 = if back { args.take(args.len() - k) } else { args.skip(k) };
            let v = if k == 0 { PV::Unset } else { PV::Multiple(vals) };
            lemma_unpack_loop_star(args2, rest, res.push(v), star);
        } else if n == -1 {
            if !back {
                lemma_unpack_loop_star(args, rest, res.push(PV::Unset), Some(res.len() as int));
            }
        } else {
            lemma_unpack_loop_star(args, rest, res, star);
        }
    }
}

fn count_required_exec(ns: &[i32], lo: usize, hi: usize) -> (r: u128)
    requires
        lo <= hi <= ns@.len(),
    ensures
        r == count_required(ns@.subrange(lo as int, hi as int)),
{
    let mut acc: u128 = 0;
    let mut j: usize = lo;
    assert(ns@.subrange(lo as int, lo as int).len() == 0);
    while j < hi
        invariant
            lo <= j <= hi <= ns@.len(),
            acc == count_required(ns@.subrange(lo as int, j as int)),
            acc <= (j - lo) * 2147483647,
        decreases hi - j,
    {
        assert(ns@.subrange(lo as int, j + 1).drop_last() =~= ns@.subrange(lo as int, j as int));
        if ns[j] > 0 {
            acc = acc + ns[j] as u128;
        }
        j = j + 1;
    }
    acc
}

fn clone_range(args: &[String], lo: usize, hi: usize) -> (r: Vec<String>)
    requires
        lo <= hi <= args@.len(),
    ensures
        r.deep_view() == args.deep_view().subrange(lo as int, hi as int),
{
    let mut out: Vec<String> = Vec::new();
    let mut i: usize = lo;
    while i < hi
        invariant
            lo <= i <= hi <= args@.len(),
            out.deep_view() =~= args.deep_view().subrange(lo as int, i as int),
        decreases hi - i,
    {
        let ghost od = out.deep_view();
        out.push(args[i].clone());
        assert(out.deep_view() =~= od.push(args@[i as int]@));
        i = i + 1;
    }
    out
}

/// Unpack arguments according to nargs specifications.
///
/// `1` or `n > 1` takes that many values, `-1` takes all the remaining ones,
/// `NARGS_OPTIONAL` takes one if more are left than the later specifications
/// require, `0` takes none. Missing values are `Unset`.
pub fn unpack_args(args: &[String], nargs_spec: &[i32]) -> (r: Result<(Vec<ParsedValue>, Vec<String>), ClickError>)
    ensures
        match spec_unpack(args.deep_view(), nargs_spec@) {
            Ok((vals, rem)) => r matches Ok((v, rm)) && pvs(v@) == vals && rm.deep_view() == rem,
            Err(()) => r matches Err(e) && err_view(e) == PErr::Usage("Cannot have more than one variadic argument."@),
        },
{
    let ghost av = args.deep_view();
    let ghost ns = nargs_spec@;
    let mut lo: usize = 0;
    let mut hi: usize = args.len();
    let mut nlo: usize = 0;
    let mut nhi: usize = nargs_spec.len();
    let mut result: Vec<ParsedValue> = Vec::new();
    let mut star: Option<usize> = None;
    let ghost target = unpack_loop(av, ns, seq![], None);
    assert(av.subrange(0, av.len() as int) =~= av);
    assert(ns.subrange(0, ns.len() as int) =~= ns);
    assert(pvs(result@) =~= seq![]);
    while nlo < nhi
        invariant
            av == args.deep_view(),
            ns == nargs_spec@,
            av.len() == args@.len(),
            lo <= hi <= args@.len(),
            nlo <= nhi <= ns.len(),
            star_ok(star_view(star), result@.len() as int),
            target == unpack_loop(av, ns, seq![], None),
            unpack_loop(av.subrange(lo as int, hi as int), ns.subrange(nlo as int, nhi as int), pvs(result@), star_view(star))
                == target,
        decreases nhi - nlo,
    {
        let ghost a0 = av.subrange(lo as int, hi as int);
        let ghost n0 = ns.subrange(nlo as int, nhi as int);
        let ghost r0 = pvs(result@);
        let back = star.is_some();
        let n: i32;
        if back {
            nhi = nhi - 1;
            n = nargs_spec[nhi];
            assert(n0.drop_last() =~= ns.subrange(nlo as int, nhi as int));
        } else {
            nlo = nlo + 1;
            n = nargs_spec[nlo - 1];
            assert(n0.drop_first() =~= ns.subrange(nlo as int, nhi as int));
        }
        let take_one = if n == 1 {
            true
        } else if n == NARGS_OPTIONAL {
            let req = count_required_exec(nargs_spec, nlo, nhi);
            ((hi - lo) as u128) > req
        } else {
            false
        };
        if take_one {
            if lo < hi {
                if back {
                    hi = hi - 1;
                    assert(a0.drop_last() =~= av.subrange(lo as int, hi as int));
                    result.push(ParsedValue::Single(args[hi].clone()));
                } else {
                    lo = lo + 1;
                    assert(a0.drop_first() =~= av.subrange(lo as int, hi as int));
                    result.push(ParsedValue::Single(args[lo - 1].clone()));
                }
            } else {
                result.push(ParsedValue::Unset);
            }
            assert(pvs(result@) =~= r0.push(result@.last()@));
        } else if n == NARGS_OPTIONAL {
            result.push(ParsedValue::Unset);
            assert(pvs(result@) =~= r0.push(PV::Unset));
        } else if n > 1 {
            let avail = hi - lo;
            let k: usize = if (n as usize) < avail { n as usize } else { avail };
            let vals: Vec<String>;
            if back {
                vals = clone_range(args, hi - k, hi);
                assert(a0.subrange(a0.len() - k, a0.len() as int) =~= av.subrange(hi - k, hi as int));
                assert(a0.take(a0.len() - k) =~= av.subrange(lo as int, hi - k));
                hi = hi - k;
            } else {
                vals = clone_range(args, lo, lo + k);
                assert(a0.take(k as int) =~= av.subrange(lo as int, lo + k));
                assert(a0.skip(k as int) =~= av.subrange(lo + k, hi as int));
                lo = lo + k;
            }
            if k == 0 {
                result.push(ParsedValue::Unset);
            } else {
                result.push(ParsedValue::Multiple(vals));
            }
            assert(pvs(result@) =~= r0.push(result@.last()@));
        } else if n == -1 {
            if back {
                return Err(ClickError::usage("Cannot have more than one variadic argument."));
            }
            star = Some(result.len());
            result.push(ParsedValue::Unset);
            assert(pvs(result@) =~= r0.push(PV::Unset));
        }
    }
    proof {
        assert(ns.subrange(nlo as int, nhi as int).len() == 0);
        lemma_unpack_loop_star(av, ns, seq![], None);
    }
    let remaining = clone_range(args, lo, hi);
    match star {
        None => Ok((result, remaining)),
        Some(pos) => {
            let ghost rv = pvs(result@);
            let ghost rem = remaining.deep_view();
            result.set(pos, ParsedValue::Multiple(remaining));
            let ghost res2 = pvs(result@);
            assert(res2 =~= rv.update(pos as int, PV::Multiple(rem)));
            let mut tail: Vec<ParsedValue> = Vec::new();
            while result.len() > pos + 1
                invariant
                    pos < result@.len() <= res2.len(),
                    pvs(result@) =~= res2.take(result@.len() as int),
                    pvs(tail@) =~= res2.subrange(result@.len() as int, res2.len() as int).reverse(),
                decreases result@.len(),
            {
                let ghost l = result@.len() as int;
                let ghost oldr = result@;
                assert(pvs(oldr)[l - 1] == oldr[l - 1]@);
                assert(res2.take(l)[l - 1] == res2[l - 1]);
                let x = result.pop().unwrap();
                proof {
                    assert(pvs(result@) =~= res2.take(l - 1));
                    assert(x@ == res2[l - 1]);
                    assert(res2.subrange(l - 1, res2.len() as int).reverse() =~= res2.subrange(
                        l,
                        res2.len() as int,
                    ).reverse().push(res2[l - 1]));
                }
                let ghost ot = pvs(tail@);
                tail.push(x);
                assert(pvs(tail@) =~= ot.push(x@));
            }
            let ghost front = pvs(result@);
            let ghost back = pvs(tail@);
            result.append(&mut tail);
            assert(pvs(result@) =~= front + back);
            assert(res2.skip(pos + 1) =~= res2.subrange(pos + 1, res2.len() as int));
            Ok((result, Vec::new()))
        },
    }
}

pub open spec fn star_view(s: Option<usize>) -> Option<int> {
    match s {
        Some(p) => Some(p as int),
        None => None,
    }
}


// =============================================================================
// OptionParser
// =============================================================================

/// An option as the parser knows it.
#[derive(Debug)]
pub struct ParserOption {
    /// The canonical name for this option.
    pub name: String,
    /// Short option forms (e.g., ["-n", "-N"]).
    pub short_opts: Vec<String>,
    /// Long option forms (e.g., ["--name"]).
    pub long_opts: Vec<String>,
    /// Action to perform when this option is encountered.
    pub action: OptionAction,
    /// Number of arguments: 1 = single, -1 = variadic, 0 = flag, -2 = optional.
    pub nargs: i32,
    /// Constant value for StoreConst/AppendConst actions.
    pub const_value: Option<String>,
    /// Destination key in the parsed results.
    pub dest: String,
    /// Whether the value may be omitted.
    pub flag_needs_value: bool,
}

pub open spec fn takes_value(o: ParserOption) -> bool {
    o.action == OptionAction::Store || o.action == OptionAction::Append
}

/// A positional argument as the parser knows it.
#[derive(Debug)]
pub struct ParserArgument {
    pub name: String,
    /// Number of values to consume: 1 = single, -1 = variadic.
    pub nargs: i32,
    pub dest: String,
}

/// A function applied to option names before they are matched.
pub trait TokenNormalizer {
    /// Whether normalizing `t` may give `u`.
    spec fn spec_normalizes(&self, t: Seq<char>, u: Seq<char>) -> bool;

    fn normalize(&self, s: &str) -> (r: String)
        ensures
            self.spec_normalizes(s@, r@),
    ;
}

/// Calls a user's normalization closure (std's `Fn::call`): where the arguments meet the closure's own precondition, what comes back is
/// what the closure returns for `s`.
#[verifier::external_body]
fn call_normalizer<F: Fn(&str) -> String>(f: &F, s: &str) -> (r: String)
    ensures
        call_requires(*f, (s,)) ==> call_ensures(*f, (s,), r),
{
    f(s)
}

impl<F: Fn(&str) -> String> TokenNormalizer for F {
    open spec fn spec_normalizes(&self, t: Seq<char>, u: Seq<char>) -> bool {
        exists|s: &str, r: String|
            #![trigger s@, r@]
            s@ == t && r@ == u && (call_requires(*self, (s,)) ==> call_ensures(*self, (s,), r))
    }

    fn normalize(&self, s: &str) -> (r: String) {
        let r = call_normalizer(self, s);
        assert(s@ == s@ && r@ == r@ && (call_requires(*self, (s,)) ==> call_ensures(*self, (s,), r)));
        r
    }
}

/// The parser's state, by its mathematical parts.
pub struct PState {
    pub opts: Map<Seq<char>, PV>,
    pub largs: Seq<Seq<char>>,
    pub rargs: Seq<Seq<char>>,
    pub order: Seq<Seq<char>>,
}

pub struct ParsingState {
    pub opts: ValueMap,
    pub largs: Vec<String>,
    pub rargs: Vec<String>,
    pub order: Vec<String>,
}

impl ParsingState {
    pub open spec fn wf(&self) -> bool {
        self.opts.wf()
    }

    pub open spec fn view(&self) -> PState {
        PState {
            opts: pv_map(self.opts.map()),
            largs: self.largs.deep_view(),
            rargs: self.rargs.deep_view(),
            order: self.order.deep_view(),
        }
    }
}

/// The key under which an append option used without a value is recorded.
pub open spec fn fnv_key(dest: Seq<char>) -> Seq<char> {
    "__click_internal_flag_needs_value_"@ + dest
}

pub open spec fn sat_inc(n: nat) -> nat {
    if n < usize::MAX {
        n + 1
    } else {
        n
    }
}

/// The state after `option` is applied with `value`.
pub open spec fn spec_process_option(o: ParserOption, v: PV, st: PState) -> PState {
    let d = o.dest@;
    let opts = st.opts;
    let new_opts = match o.action {
        OptionAction::Store => opts.insert(d, v),
        OptionAction::StoreConst => opts.insert(
            d,
            match o.const_value {
                Some(c) => PV::Single(c@),
                None => PV::Flag(true),
            },
        ),
        OptionAction::Append => {
            let o1 = if opts.contains_key(d) { opts } else { opts.insert(d, PV::Multiple(seq![])) };
            match o1[d] {
                PV::Multiple(vs) => match v {
                    PV::Single(s) => o1.insert(d, PV::Multiple(vs.push(s))),
                    PV::Multiple(w) => o1.insert(d, PV::Multiple(vs + w)),
                    PV::FlagNeedsValue => o1.insert(fnv_key(d), PV::Flag(true)),
                    _ => o1,
                },
                _ => o1,
            }
        },
        OptionAction::AppendConst => {
            let o1 = if opts.contains_key(d) { opts } else { opts.insert(d, PV::Multiple(seq![])) };
            match o1[d] {
                PV::Multiple(vs) => match o.const_value {
                    Some(c) => o1.insert(d, PV::Multiple(vs.push(c@))),
                    None => o1,
                },
                _ => o1,
            }
        },
        OptionAction::Count => {
            let o1 = if opts.contains_key(d) { opts } else { opts.insert(d, PV::Count(0)) };
            match o1[d] {
                PV::Count(n) => o1.insert(d, PV::Count(sat_inc(n))),
                _ => o1,
            }
        },
    };
    PState { opts: new_opts, largs: st.largs, rargs: st.rargs, order: st.order.push(d) }
}

pub open spec fn requires_msg(name: Seq<char>, n: i32) -> Seq<char> {
    if n == 1 {
        "Option '"@ + name + "' requires an argument."@
    } else {
        "Option '"@ + name + "' requires "@ + int_to_dec(n as int) + " arguments."@
    }
}

pub open spec fn rel_state(sp: Result<PState, PErr>, r: Result<(), ClickError>, st: PState) -> bool {
    match sp {
        Ok(s) => r is Ok && st == s,
        Err(e) => r matches Err(x) && err_view(x) == e,
    }
}

/// Total length of the arguments still to process, each counted one more.
pub open spec fn weight(r: Seq<Seq<char>>) -> nat
    decreases r.len(),
{
    if r.len() == 0 {
        0
    } else {
        r[0].len() + 1 + weight(r.drop_first())
    }
}

proof fn lemma_weight_skip(r: Seq<Seq<char>>, k: int)
    requires
        0 <= k <= r.len(),
    ensures
        weight(r.skip(k)) <= weight(r),
    decreases k,
{
    if k > 0 {
        assert(r.skip(k) =~= r.drop_first().skip(k - 1));
        lemma_weight_skip(r.drop_first(), k - 1);
    } else {
        assert(r.skip(0) =~= r);
    }
}

proof fn lemma_weight_cons(v: Seq<char>, r: Seq<Seq<char>>)
    ensures
        weight(seq![v] + r) == v.len() + 1 + weight(r),
{
    assert((seq![v] + r).drop_first() =~= r);
}

pub open spec fn with_rargs(st: PState, r: Seq<Seq<char>>) -> PState {
    PState { opts: st.opts, largs: st.largs, rargs: r, order: st.order }
}

pub open spec fn with_largs(st: PState, l: Seq<Seq<char>>) -> PState {
    PState { opts: st.opts, largs: l, rargs: st.rargs, order: st.order }
}

/// Index of the first `=` in `s`.
pub open spec fn first_eq(s: Seq<char>) -> Option<int>
    decreases s.len(),
{
    if s.len() == 0 {
        None
    } else if s[0] == '=' {
        Some(0)
    } else {
        match first_eq(s.drop_first()) {
            Some(i) => Some(i + 1),
            None => None,
        }
    }
}

/// Whether `o` is a short option name (one-byte prefix, one-byte name).
pub open spec fn is_short_name(o: Seq<char>) -> bool {
    spec_split_opt(o) matches Some((p, v)) && blen(p) == 1 && blen(v) == 1
}

pub open spec fn is_long_name(o: Seq<char>) -> bool {
    spec_split_opt(o) is Some && !is_short_name(o)
}

pub open spec fn filter_names(os: Seq<Seq<char>>, short: bool) -> Seq<Seq<char>>
    decreases os.len(),
{
    if os.len() == 0 {
        seq![]
    } else {
        let rest = filter_names(os.drop_last(), short);
        if (short && is_short_name(os.last())) || (!short && is_long_name(os.last())) {
            rest.push(os.last())
        } else {
            rest
        }
    }
}

/// The prefixes an option name adds: the first character of its prefix, and the
/// prefix itself when it is two bytes long.
pub open spec fn name_prefixes(o: Seq<char>) -> Set<Seq<char>> {
    match spec_split_opt(o) {
        Some((p, _)) => if blen(p) == 2 {
            set![seq![p[0]], p]
        } else {
            set![seq![p[0]]]
        },
        None => Set::empty(),
    }
}

pub open spec fn prefixes_of(os: Seq<Seq<char>>) -> Set<Seq<char>>
    decreases os.len(),
{
    if os.len() == 0 {
        Set::empty()
    } else {
        prefixes_of(os.drop_last()).union(name_prefixes(os.last()))
    }
}

/// The main option parser.
pub struct OptionParser {
    allow_interspersed_args: bool,
    ignore_unknown_options: bool,
    options: Vec<ParserOption>,
    short_opt: StrMap<usize>,
    long_opt: StrMap<usize>,
    opt_prefixes: Vec<String>,
    args: Vec<ParserArgument>,
    token_normalize_func: Option<Box<dyn TokenNormalizer>>,
}

/// The option name of an option-like argument: before the first `=`.
pub open spec fn long_part(arg: Seq<char>) -> Seq<char> {
    match first_eq(arg) {
        Some(p) => arg.take(p),
        None => arg,
    }
}

/// The value given with an option-like argument: after the first `=`.
pub open spec fn explicit_part(arg: Seq<char>) -> Option<Seq<char>> {
    match first_eq(arg) {
        Some(p) => Some(arg.skip(p + 1)),
        None => None,
    }
}

impl OptionParser {
    pub closed spec fn wf(&self) -> bool {
        &&& self.short_opt.wf()
        &&& self.long_opt.wf()
        &&& forall|k: Seq<char>| #[trigger] self.short_opt.map().contains_key(k) ==> self.short_opt.map()[k]
            < self.options@.len()
        &&& forall|k: Seq<char>| #[trigger] self.long_opt.map().contains_key(k) ==> self.long_opt.map()[k]
            < self.options@.len()
    }

    /// No normalization function is set: option names are matched as written.
    pub closed spec fn no_norm(&self) -> bool {
        self.token_normalize_func is None
    }

    /// What an option string `opt` may become before it is matched: itself
    /// without a normalization function or without a prefix; else its prefix
    /// followed by what the function may make of the name.
    pub closed spec fn norm_step(&self, opt: Seq<char>, out: Seq<char>) -> bool {
        match self.token_normalize_func {
            None => out == opt,
            Some(f) => match spec_split_opt(opt) {
                Some((p, name)) => p.len() <= out.len() && out.subrange(0, p.len() as int) == p && f.spec_normalizes(
                    name,
                    out.subrange(p.len() as int, out.len() as int),
                ),
                None => out == opt,
            },
        }
    }

    pub closed spec fn spec_interspersed(&self) -> bool {
        self.allow_interspersed_args
    }

    pub closed spec fn spec_ignore_unknown(&self) -> bool {
        self.ignore_unknown_options
    }

    /// The prefixes that mark an option.
    pub closed spec fn prefix_set(&self) -> Set<Seq<char>> {
        self.opt_prefixes.deep_view().to_set()
    }

    /// Short option name to the index of its option.
    pub closed spec fn short_map(&self) -> Map<Seq<char>, usize> {
        self.short_opt.map()
    }

    /// Long option name to the index of its option.
    pub closed spec fn long_map(&self) -> Map<Seq<char>, usize> {
        self.long_opt.map()
    }

    pub closed spec fn spec_options(&self) -> Seq<ParserOption> {
        self.options@
    }

    pub closed spec fn spec_args(&self) -> Seq<ParserArgument> {
        self.args@
    }

    pub closed spec fn spec_find_short(&self, k: Seq<char>) -> Option<ParserOption> {
        if self.short_opt.map().contains_key(k) {
            Some(self.options@[self.short_opt.map()[k] as int])
        } else {
            None
        }
    }

    pub closed spec fn spec_find_long(&self, k: Seq<char>) -> Option<ParserOption> {
        if self.long_opt.map().contains_key(k) {
            Some(self.options@[self.long_opt.map()[k] as int])
        } else {
            None
        }
    }

    /// Whether an argument looks like an option: its first character is a known
    /// prefix and it is longer than one byte.
    pub closed spec fn spec_looks_like(&self, s: Seq<char>) -> bool {
        s.len() > 0 && self.prefix_set().contains(seq![s[0]]) && blen(s) > 1
    }

    pub closed spec fn spec_get_value(&self, name: Seq<char>, o: ParserOption, st: PState) -> Result<
        (PV, PState),
        PErr,
    > {
        let n = o.nargs;
        let r = st.rargs;
        if n == NARGS_OPTIONAL {
            if r.len() > 0 && self.spec_looks_like(r[0]) && o.flag_needs_value {
                Ok((PV::FlagNeedsValue, st))
            } else if r.len() == 0 && o.flag_needs_value {
                Ok((PV::FlagNeedsValue, st))
            } else if r.len() > 0 {
                Ok((PV::Single(r[0]), with_rargs(st, r.drop_first())))
            } else {
                Ok((PV::Unset, st))
            }
        } else if n <= 0 {
            Ok((PV::Unset, st))
        } else if r.len() < n {
            if o.flag_needs_value {
                Ok((PV::FlagNeedsValue, st))
            } else {
                Err(PErr::BadOptionUsage(name, requires_msg(name, n)))
            }
        } else if n == 1 {
            if o.flag_needs_value && self.spec_looks_like(r[0]) {
                Ok((PV::FlagNeedsValue, st))
            } else {
                Ok((PV::Single(r[0]), with_rargs(st, r.drop_first())))
            }
        } else {
            Ok((PV::Multiple(r.take(n as int)), with_rargs(st, r.skip(n as int))))
        }
    }

    pub closed spec fn spec_match_long(&self, opt: Seq<char>, explicit: Option<Seq<char>>, st: PState) -> Result<
        PState,
        PErr,
    > {
        match self.spec_find_long(opt) {
            None => {
                let cm = close_matches(opt, self.long_opt.kv(), 3);
                Err(PErr::NoSuchOption(opt, if cm.len() == 0 { None } else { Some(cm) }))
            },
            Some(o) => if takes_value(o) {
                let st1 = match explicit {
                    Some(v) => with_rargs(st, seq![v] + st.rargs),
                    None => st,
                };
                match self.spec_get_value(opt, o, st1) {
                    Ok((v, st2)) => Ok(spec_process_option(o, v, st2)),
                    Err(e) => Err(e),
                }
            } else if explicit is Some {
                Err(PErr::BadOptionUsage(opt, "Option '"@ + opt + "' does not take a value."@))
            } else {
                Ok(spec_process_option(o, PV::Unset, st))
            },
        }
    }

    pub closed spec fn spec_short_finish(&self, prefix: char, unknown: Seq<char>, st: PState) -> PState {
        if self.ignore_unknown_options && unknown.len() > 0 {
            with_largs(st, st.largs.push(seq![prefix] + unknown))
        } else {
            st
        }
    }

    /// Grouped short options `arg[i..]`, the unknown ones so far in `unknown`.
    pub closed spec fn spec_short_loop(&self, arg: Seq<char>, i: int, unknown: Seq<char>, st: PState) -> Result<
        PState,
        PErr,
    >
        decreases arg.len() - i,
    {
        if i >= arg.len() || i < 1 {
            Ok(self.spec_short_finish(arg[0], unknown, st))
        } else {
            let ch = arg[i];
            let opt = seq![arg[0], ch];
            match self.spec_find_short(opt) {
                None => if self.ignore_unknown_options {
                    self.spec_short_loop(arg, i + 1, unknown.push(ch), st)
                } else {
                    Err(PErr::NoSuchOption(opt, None))
                },
                Some(o) => if takes_value(o) {
                    let st1 = if i + 1 < arg.len() {
                        with_rargs(st, seq![arg.skip(i + 1)] + st.rargs)
                    } else {
                        st
                    };
                    match self.spec_get_value(opt, o, st1) {
                        Ok((v, st2)) => Ok(self.spec_short_finish(arg[0], unknown, spec_process_option(o, v, st2))),
                        Err(e) => Err(e),
                    }
                } else {
                    self.spec_short_loop(arg, i + 1, unknown, spec_process_option(o, PV::Unset, st))
                },
            }
        }
    }

    /// One option-like argument (already taken off the remaining arguments).
    pub closed spec fn spec_process_opts(&self, arg: Seq<char>, st: PState) -> Result<PState, PErr> {
        let (long_opt, explicit) = match first_eq(arg) {
            Some(p) => (arg.take(p), Some(arg.skip(p + 1))),
            None => (arg, None),
        };
        match self.spec_match_long(long_opt, explicit, st) {
            Ok(s) => Ok(s),
            Err(e) => match e {
                PErr::NoSuchOption(_, _) => {
                    if spec_split_opt(arg) matches Some((p, _)) && blen(p) == 1 {
                        self.spec_short_loop(arg, 1, seq![], st)
                    } else if self.ignore_unknown_options {
                        Ok(with_largs(st, st.largs.push(arg)))
                    } else {
                        Err(e)
                    }
                },
                _ => Err(e),
            },
        }
    }

    /// The option phase: arguments are taken from the front until `--`, the end,
    /// or (without interspersed arguments) the first positional argument.
    pub closed spec fn spec_opts_loop(&self, st: PState) -> Result<PState, PErr>
        decreases weight(st.rargs),
    {
        if st.rargs.len() == 0 {
            Ok(st)
        } else {
            let arg = st.rargs[0];
            let st1 = with_rargs(st, st.rargs.drop_first());
            if arg == "--"@ {
                Ok(st1)
            } else if self.spec_looks_like(arg) {
                match self.spec_process_opts(arg, st1) {
                    Ok(s2) => if weight(s2.rargs) < weight(st.rargs) {
                        self.spec_opts_loop(s2)
                    } else {
                        Ok(s2)
                    },
                    Err(e) => Err(e),
                }
            } else if self.allow_interspersed_args {
                self.spec_opts_loop(with_largs(st1, st1.largs.push(arg)))
            } else {
                Ok(st)
            }
        }
    }

    /// Storing the unpacked positional values from argument `idx` on.
    pub closed spec fn spec_store_args(
        &self,
        idx: int,
        parsed: Seq<PV>,
        opts: Map<Seq<char>, PV>,
        order: Seq<Seq<char>>,
    ) -> Result<(Map<Seq<char>, PV>, Seq<Seq<char>>), PErr>
        decreases self.spec_args().len() - idx,
    {
        if idx >= self.args@.len() || idx < 0 {
            Ok((opts, order))
        } else {
            let d = self.args@[idx];
            if idx < parsed.len() {
                let v = parsed[idx];
                if d.nargs > 1 && (v matches PV::Multiple(vals) && vals.len() < d.nargs) {
                    Err(
                        PErr::BadArgumentUsage(
                            "Argument '"@ + d.dest@ + "' takes "@ + int_to_dec(d.nargs as int) + " values."@,
                        ),
                    )
                } else {
                    self.spec_store_args(
                        idx + 1,
                        parsed,
                        opts.insert(d.dest@, v),
                        if v is Unset { order } else { order.push(d.dest@) },
                    )
                }
            } else {
                self.spec_store_args(idx + 1, parsed, opts.insert(d.dest@, PV::Unset), order)
            }
        }
    }

    pub closed spec fn spec_nargs(&self) -> Seq<i32> {
        self.args@.map_values(|a: ParserArgument| a.nargs)
    }

    /// The positional phase.
    pub closed spec fn spec_args_phase(&self, st: PState) -> Result<PState, PErr> {
        match spec_unpack(st.largs + st.rargs, self.spec_nargs()) {
            Err(()) => Err(PErr::Usage("Cannot have more than one variadic argument."@)),
            Ok((parsed, remaining)) => match self.spec_store_args(0, parsed, st.opts, st.order) {
                Err(e) => Err(e),
                Ok((opts, order)) => Ok(PState { opts, largs: remaining, rargs: seq![], order }),
            },
        }
    }

    /// What `parse_args` computes: the option phase, then the positional phase.
    pub closed spec fn spec_parse(&self, args: Seq<Seq<char>>) -> Result<PState, PErr> {
        let st0 = PState { opts: Map::empty(), largs: seq![], rargs: args, order: seq![] };
        match self.spec_opts_loop(st0) {
            Err(e) => Err(e),
            Ok(st1) => self.spec_args_phase(st1),
        }
    }

    /// What grouped short options `arg[i..]` may give when each option name is
    /// first normalized (`norm_step`): as `spec_short_loop`, with each name
    /// replaced by one the normalization may give.
    pub closed spec fn short_loop_rel(&self, arg: Seq<char>, i: int, unknown: Seq<char>, st: PState, out: Result<
        PState,
        PErr,
    >) -> bool
        decreases arg.len() - i,
    {
        if i >= arg.len() || i < 1 {
            out == Ok::<PState, PErr>(self.spec_short_finish(arg[0], unknown, st))
        } else {
            let ch = arg[i];
            let raw = seq![arg[0], ch];
            exists|opt: Seq<char>|
                #[trigger] self.norm_step(raw, opt) && match self.spec_find_short(opt) {
                    None => if self.ignore_unknown_options {
                        self.short_loop_rel(arg, i + 1, unknown.push(ch), st, out)
                    } else {
                        out == Err::<PState, PErr>(PErr::NoSuchOption(opt, None))
                    },
                    Some(o) => if takes_value(o) {
                        let st1 = if i + 1 < arg.len() {
                            with_rargs(st, seq![arg.skip(i + 1)] + st.rargs)
                        } else {
                            st
                        };
                        match self.spec_get_value(opt, o, st1) {
                            Ok((v, st2)) => out == Ok::<PState, PErr>(
                                self.spec_short_finish(arg[0], unknown, spec_process_option(o, v, st2)),
                            ),
                            Err(e) => out == Err::<PState, PErr>(e),
                        }
                    } else {
                        self.short_loop_rel(arg, i + 1, unknown, spec_process_option(o, PV::Unset, st), out)
                    },
                }
        }
    }

    /// What one option-like argument may give with normalized names: as
    /// `spec_process_opts`.
    pub closed spec fn process_opts_rel(&self, arg: Seq<char>, st: PState, out: Result<PState, PErr>) -> bool {
        exists|norm: Seq<char>|
            #[trigger] self.norm_step(long_part(arg), norm) && match self.spec_match_long(norm, explicit_part(arg), st) {
                Ok(s) => out == Ok::<PState, PErr>(s),
                Err(e) => match e {
                    PErr::NoSuchOption(_, _) => {
                        if spec_split_opt(arg) matches Some((p, _)) && blen(p) == 1 {
                            self.short_loop_rel(arg, 1, seq![], st, out)
                        } else if self.ignore_unknown_options {
                            out == Ok::<PState, PErr>(with_largs(st, st.largs.push(arg)))
                        } else {
                            out == Err::<PState, PErr>(e)
                        }
                    },
                    _ => out == Err::<PState, PErr>(e),
                },
            }
    }

    /// What the option phase may give with normalized names: as `spec_opts_loop`.
    pub closed spec fn opts_loop_rel(&self, st: PState, out: Result<PState, PErr>) -> bool
        decreases weight(st.rargs),
    {
        if st.rargs.len() == 0 {
            out == Ok::<PState, PErr>(st)
        } else {
            let arg = st.rargs[0];
            let st1 = with_rargs(st, st.rargs.drop_first());
            if arg == "--"@ {
                out == Ok::<PState, PErr>(st1)
            } else if self.spec_looks_like(arg) {
                exists|m: Result<PState, PErr>|
                    #[trigger] self.process_opts_rel(arg, st1, m) && match m {
                        Ok(s2) => if weight(s2.rargs) < weight(st.rargs) {
                            self.opts_loop_rel(s2, out)
                        } else {
                            out == Ok::<PState, PErr>(s2)
                        },
                        Err(e) => out == Err::<PState, PErr>(e),
                    }
            } else if self.allow_interspersed_args {
                proof {
                    lemma_weight_drop_first(st.rargs);
                }
                self.opts_loop_rel(with_largs(st1, st1.largs.push(arg)), out)
            } else {
                out == Ok::<PState, PErr>(st)
            }
        }
    }

    /// What parsing `args` may give when a normalization function is set: the
    /// option phase with each option name replaced by one the function may
    /// give, then the positional phase.
    pub closed spec fn parse_rel(&self, args: Seq<Seq<char>>, out: Result<PState, PErr>) -> bool {
        let st0 = PState { opts: Map::empty(), largs: seq![], rargs: args, order: seq![] };
        exists|m: Result<PState, PErr>|
            #[trigger] self.opts_loop_rel(st0, m) && match m {
                Err(e) => out == Err::<PState, PErr>(e),
                Ok(st1) => out == self.spec_args_phase(st1),
            }
    }

    proof fn lemma_short_rel_plain(&self, arg: Seq<char>, i: int, unknown: Seq<char>, st: PState, out: Result<PState, PErr>)
        requires
            self.no_norm(),
        ensures
            self.short_loop_rel(arg, i, unknown, st, out) <==> out == self.spec_short_loop(arg, i, unknown, st),
        decreases arg.len() - i,
    {
        if !(i >= arg.len() || i < 1) {
            let ch = arg[i];
            let raw = seq![arg[0], ch];
            assert(self.norm_step(raw, raw));
            match self.spec_find_short(raw) {
                None => if self.ignore_unknown_options {
                    self.lemma_short_rel_plain(arg, i + 1, unknown.push(ch), st, out);
                },
                Some(o) => if !takes_value(o) {
                    self.lemma_short_rel_plain(arg, i + 1, unknown, spec_process_option(o, PV::Unset, st), out);
                },
            }
        }
    }

    proof fn lemma_opts_rel_plain(&self, arg: Seq<char>, st: PState, out: Result<PState, PErr>)
        requires
            self.no_norm(),
        ensures
            self.process_opts_rel(arg, st, out) <==> out == self.spec_process_opts(arg, st),
    {
        assert(self.norm_step(long_part(arg), long_part(arg)));
        self.lemma_short_rel_plain(arg, 1, seq![], st, out);
    }

    proof fn lemma_loop_rel_plain(&self, st: PState, out: Result<PState, PErr>)
        requires
            self.no_norm(),
        ensures
            self.opts_loop_rel(st, out) <==> out == self.spec_opts_loop(st),
        decreases weight(st.rargs),
    {
        if st.rargs.len() > 0 {
            let arg = st.rargs[0];
            let st1 = with_rargs(st, st.rargs.drop_first());
            lemma_weight_drop_first(st.rargs);
            if arg != "--"@ {
                if self.spec_looks_like(arg) {
                    let m = self.spec_process_opts(arg, st1);
                    self.lemma_opts_rel_plain(arg, st1, m);
                    assert forall|m2: Result<PState, PErr>| #[trigger] self.process_opts_rel(arg, st1, m2) implies m2 == m by {
                        self.lemma_opts_rel_plain(arg, st1, m2);
                    }
                    if let Ok(s2) = m {
                        if weight(s2.rargs) < weight(st.rargs) {
                            self.lemma_loop_rel_plain(s2, out);
                        }
                    }
                } else if self.allow_interspersed_args {
                    self.lemma_loop_rel_plain(with_largs(st1, st1.largs.push(arg)), out);
                }
            }
        }
    }

    /// Without a normalization function, the parse with normalized names is
    /// the parse: `parse_rel` holds exactly of `spec_parse`.
    pub proof fn law_parse_rel_without_normalizer(&self, args: Seq<Seq<char>>, out: Result<PState, PErr>)
        requires
            self.no_norm(),
        ensures
            self.parse_rel(args, out) <==> out == self.spec_parse(args),
    {
        let st0 = PState { opts: Map::empty(), largs: seq![], rargs: args, order: seq![] };
        let m = self.spec_opts_loop(st0);
        self.lemma_loop_rel_plain(st0, m);
        assert forall|m2: Result<PState, PErr>| #[trigger] self.opts_loop_rel(st0, m2) implies m2 == m by {
            self.lemma_loop_rel_plain(st0, m2);
        }
    }

    /// Everything after a leading `--` is positional: the parse is the positional
    /// phase alone, run on the rest, with no option seen.
    pub proof fn law_double_dash_makes_rest_positional(&self, rest: Seq<Seq<char>>)
        ensures
            self.spec_parse(seq!["--"@] + rest) == self.spec_args_phase(
                PState { opts: Map::empty(), largs: seq![], rargs: rest, order: seq![] },
            ),
    {
        let args = seq!["--"@] + rest;
        let st0 = PState { opts: Map::empty(), largs: seq![], rargs: args, order: seq![] };
        assert(args[0] == "--"@);
        assert(args.drop_first() =~= rest);
        assert(with_rargs(st0, args.drop_first()) == PState {
            opts: Map::empty(),
            largs: seq![],
            rargs: rest,
            order: seq![],
        });
    }

    /// Create a new option parser with default settings.
    pub fn new() -> (r: Self)
        ensures
            r.wf(),
            r.no_norm(),
            r.spec_interspersed(),
            !r.spec_ignore_unknown(),
            r.short_map() == Map::<Seq<char>, usize>::empty(),
            r.long_map() == Map::<Seq<char>, usize>::empty(),
            r.prefix_set() == set!["-"@, "--"@],
            r.spec_args().len() == 0,
            r.spec_options().len() == 0,
    {
        let mut opt_prefixes: Vec<String> = Vec::new();
        opt_prefixes.push(String::from_str("-"));
        opt_prefixes.push(String::from_str("--"));
        let r = OptionParser {
            allow_interspersed_args: true,
            ignore_unknown_options: false,
            options: Vec::new(),
            short_opt: StrMap::new(),
            long_opt: StrMap::new(),
            opt_prefixes,
            args: Vec::new(),
            token_normalize_func: None,
        };
        proof {
            assert(r.opt_prefixes.deep_view() =~= seq!["-"@, "--"@]);
            assert(r.opt_prefixes.deep_view().to_set() =~= set!["-"@, "--"@]) by {
                assert forall|x: Seq<char>| r.opt_prefixes.deep_view().to_set().contains(x) <==> (x == "-"@ || x == "--"@) by {
                    if x == "--"@ {
                        assert(r.opt_prefixes.deep_view()[1] == x);
                    }
                    if x == "-"@ {
                        assert(r.opt_prefixes.deep_view()[0] == x);
                    }
                }
            }
        }
        r
    }

    /// Set whether to allow interspersed positional arguments.
    pub fn allow_interspersed_args(self, allow: bool) -> (r: Self)
        requires
            self.wf(),
        ensures
            r.wf(),
            r.spec_interspersed() == allow,
            r.spec_ignore_unknown() == self.spec_ignore_unknown(),
            r.no_norm() == self.no_norm(),
            r.short_map() == self.short_map(),
            r.long_map() == self.long_map(),
            r.prefix_set() == self.prefix_set(),
            r.spec_options() == self.spec_options(),
            r.spec_args() == self.spec_args(),
    {
        let mut s = self;
        s.allow_interspersed_args = allow;
        s
    }

    /// Set whether to ignore unknown options.
    pub fn ignore_unknown_options(self, ignore: bool) -> (r: Self)
        requires
            self.wf(),
        ensures
            r.wf(),
            r.spec_ignore_unknown() == ignore,
            r.spec_interspersed() == self.spec_interspersed(),
            r.no_norm() == self.no_norm(),
            r.short_map() == self.short_map(),
            r.long_map() == self.long_map(),
            r.prefix_set() == self.prefix_set(),
            r.spec_options() == self.spec_options(),
            r.spec_args() == self.spec_args(),
    {
        let mut s = self;
        s.ignore_unknown_options = ignore;
        s
    }

    /// Set a token normalization function, applied to option names for matching.
    pub fn token_normalize_func<F: Fn(&str) -> String + 'static>(self, func: F) -> (r: Self)
        requires
            self.wf(),
        ensures
            r.wf(),
            !r.no_norm(),
            r.spec_interspersed() == self.spec_interspersed(),
            r.spec_ignore_unknown() == self.spec_ignore_unknown(),
            r.short_map() == self.short_map(),
            r.long_map() == self.long_map(),
            r.prefix_set() == self.prefix_set(),
            r.spec_options() == self.spec_options(),
            r.spec_args() == self.spec_args(),
    {
        let mut s = self;
        s.token_normalize_func = Some(Box::new(func));
        s
    }

    /// Normalize an option string with the normalization function, if set.
    fn normalize_opt(&self, opt: &str) -> (r: String)
        ensures
            self.no_norm() ==> r@ == opt@,
            self.norm_step(opt@, r@),
    {
        match &self.token_normalize_func {
            Some(f) => match split_opt_any(opt) {
                Some((prefix, name)) => {
                    let n = f.normalize(name);
                    let r = cat2(prefix, n.as_str());
                    proof {
                        assert(spec_split_opt(opt@) == Some((prefix@, name@)));
                        assert(f.spec_normalizes(name@, n@));
                        assert(r@ == prefix@ + n@);
                        assert(r@.subrange(0, prefix@.len() as int) =~= prefix@);
                        assert(r@.subrange(prefix@.len() as int, r@.len() as int) =~= n@);
                    }
                    r
                },
                None => str_of(opt),
            },
            None => str_of(opt),
        }
    }

    fn has_prefix(&self, p: &str) -> (r: bool)
        ensures
            r == self.prefix_set().contains(p@),
    {
        let mut i: usize = 0;
        while i < self.opt_prefixes.len()
            invariant
                i <= self.opt_prefixes@.len(),
                forall|j: int| 0 <= j < i ==> self.opt_prefixes@[j]@ != p@,
            decreases self.opt_prefixes@.len() - i,
        {
            if str_eq(self.opt_prefixes[i].as_str(), p) {
                assert(self.opt_prefixes.deep_view()[i as int] == p@);
                return true;
            }
            i = i + 1;
        }
        proof {
            if self.opt_prefixes.deep_view().to_set().contains(p@) {
                let k = choose|k: int| 0 <= k < self.opt_prefixes.deep_view().len() && self.opt_prefixes.deep_view()[k] == p@;
                assert(self.opt_prefixes@[k]@ == p@);
            }
        }
        false
    }

    fn add_prefix(&mut self, p: String)
        requires
            old(self).wf(),
        ensures
            final(self).wf(),
            final(self).prefix_set() == old(self).prefix_set().insert(p@),
            final(self).short_map() == old(self).short_map(),
            final(self).long_map() == old(self).long_map(),
            final(self).spec_options() == old(self).spec_options(),
            final(self).spec_args() == old(self).spec_args(),
            final(self).no_norm() == old(self).no_norm(),
            final(self).spec_interspersed() == old(self).spec_interspersed(),
            final(self).spec_ignore_unknown() == old(self).spec_ignore_unknown(),
    {
        if !self.has_prefix(p.as_str()) {
            let ghost od = self.opt_prefixes.deep_view();
            let ghost pv = p@;
            self.opt_prefixes.push(p);
            assert(self.opt_prefixes.deep_view() =~= od + seq![pv]);
            proof {
                Seq::lemma_to_set_insert_commutes(od, pv);
            }
            assert(self.prefix_set() =~= old(self).prefix_set().insert(pv));
        } else {
            assert(self.prefix_set() =~= old(self).prefix_set().insert(p@));
        }
    }

    fn looks_like_option(&self, s: &str) -> (r: bool)
        ensures
            r == self.spec_looks_like(s@),
    {
        let n = s.unicode_len();
        if n == 0 {
            return false;
        }
        let first = s.get_char(0);
        let mut p = String::new();
        p.push(first);
        assert(p@ =~= seq![s@[0]]);
        if !self.has_prefix(p.as_str()) {
            return false;
        }
        proof {
            lemma_blen_ge2(s@);
        }
        n >= 2 || char_len_utf8(first) >= 2
    }

    /// Add a positional argument to the parser.
    pub fn add_argument(&mut self, dest: &str, nargs: i32)
        requires
            old(self).wf(),
        ensures
            final(self).wf(),
            final(self).spec_args().len() == old(self).spec_args().len() + 1,
            final(self).spec_args().drop_last() == old(self).spec_args(),
            final(self).spec_args().last().dest@ == dest@,
            final(self).spec_args().last().name@ == dest@,
            final(self).spec_args().last().nargs == nargs,
            final(self).short_map() == old(self).short_map(),
            final(self).long_map() == old(self).long_map(),
            final(self).prefix_set() == old(self).prefix_set(),
            final(self).spec_options() == old(self).spec_options(),
            final(self).no_norm() == old(self).no_norm(),
            final(self).spec_interspersed() == old(self).spec_interspersed(),
            final(self).spec_ignore_unknown() == old(self).spec_ignore_unknown(),
    {
        self.args.push(ParserArgument { name: str_of(dest), nargs, dest: str_of(dest) });
        assert(self.args@.drop_last() =~= old(self).args@);
    }
}


// =============================================================================
// Helpers of the parsing steps
// =============================================================================

fn chars_range(v: &Vec<char>, lo: usize, hi: usize) -> (r: String)
    requires
        lo <= hi <= v@.len(),
    ensures
        r@ == v@.subrange(lo as int, hi as int),
{
    let mut s = String::new();
    let mut i = lo;
    while i < hi
        invariant
            lo <= i <= hi <= v@.len(),
            s@ =~= v@.subrange(lo as int, i as int),
        decreases hi - i,
    {
        s.push(v[i]);
        i = i + 1;
    }
    s
}

fn find_eq(v: &Vec<char>) -> (r: Option<usize>)
    ensures
        match r {
            Some(p) => first_eq(v@) == Some(p as int) && p < v@.len(),
            None => first_eq(v@) is None,
        },
{
    let mut i: usize = 0;
    assert(v@.skip(0) =~= v@);
    while i < v.len()
        invariant
            i <= v@.len(),
            forall|k: int| 0 <= k < i ==> v@[k] != '=',
            first_eq(v@) == match first_eq(v@.skip(i as int)) {
                Some(p) => Some(p + i),
                None => None,
            },
        decreases v@.len() - i,
    {
        assert(v@.skip(i as int).drop_first() =~= v@.skip(i + 1));
        if v[i] == '=' {
            return Some(i);
        }
        i = i + 1;
    }
    assert(v@.skip(i as int).len() == 0);
    None
}

fn blen_equals(s: &str, k: usize) -> (r: bool)
    ensures
        r == (blen(s@) == k),
{
    let n = s.unicode_len();
    let mut acc: usize = 0;
    let mut i: usize = 0;
    while i < n
        invariant
            n == s@.len(),
            i <= n,
            acc == blen(s@.take(i as int)),
            acc <= k,
        decreases n - i,
    {
        let c = s.get_char(i);
        let w = char_len_utf8(c);
        proof {
            assert(s@.take(i + 1) =~= s@.take(i as int).push(c));
            crate::text::lemma_blen_push(s@.take(i as int), c);
            assert(s@ =~= s@.take(i + 1) + s@.skip(i + 1));
            crate::text::lemma_blen_add(s@.take(i + 1), s@.skip(i + 1));
        }
        if w > k - acc {
            return false;
        }
        acc = acc + w;
        i = i + 1;
    }
    assert(s@.take(n as int) =~= s@);
    acc == k
}

fn clone_strings(v: &Vec<String>) -> (r: Vec<String>)
    ensures
        r.deep_view() == v.deep_view(),
{
    let mut out: Vec<String> = Vec::new();
    let mut i: usize = 0;
    while i < v.len()
        invariant
            i <= v@.len(),
            out.deep_view() =~= v.deep_view().take(i as int),
        decreases v@.len() - i,
    {
        let ghost od = out.deep_view();
        out.push(v[i].clone());
        assert(out.deep_view() =~= od.push(v@[i as int]@));
        i = i + 1;
    }
    assert(v.deep_view().take(v@.len() as int) =~= v.deep_view());
    out
}

impl ParsedValue {
    /// A copy of this value.
    pub fn duplicate(&self) -> (r: ParsedValue)
        ensures
            r@ == self@,
    {
        match self {
            ParsedValue::Single(s) => ParsedValue::Single(s.clone()),
            ParsedValue::Multiple(v) => ParsedValue::Multiple(clone_strings(v)),
            ParsedValue::Count(n) => ParsedValue::Count(*n),
            ParsedValue::Flag(b) => ParsedValue::Flag(*b),
            ParsedValue::Unset => ParsedValue::Unset,
            ParsedValue::FlagNeedsValue => ParsedValue::FlagNeedsValue,
        }
    }
}

fn takes_value_exec(a: OptionAction) -> (r: bool)
    ensures
        r == (a == OptionAction::Store || a == OptionAction::Append),
{
    match a {
        OptionAction::Store => true,
        OptionAction::Append => true,
        _ => false,
    }
}

proof fn lemma_pv_map_insert(m: Map<Seq<char>, ParsedValue>, k: Seq<char>, v: ParsedValue)
    ensures
        pv_map(m.insert(k, v)) == pv_map(m).insert(k, v@),
{
    assert(pv_map(m.insert(k, v)) =~= pv_map(m).insert(k, v@));
}

proof fn lemma_weight_drop_first(r: Seq<Seq<char>>)
    requires
        r.len() > 0,
    ensures
        weight(r) == r[0].len() + 1 + weight(r.drop_first()),
{
}

impl OptionParser {
    /// Add an option to the parser.
    pub fn add_option(
        &mut self,
        opts: &[&str],
        dest: &str,
        action: OptionAction,
        nargs: i32,
        const_value: Option<&str>,
    )
        requires
            old(self).wf(),
        ensures
            final(self).wf(),
            final(self).spec_options().len() == old(self).spec_options().len() + 1,
            final(self).spec_options().drop_last() == old(self).spec_options(),
            ({
                let o = final(self).spec_options().last();
                &&& o.dest@ == dest@
                &&& o.action == action
                &&& o.nargs == nargs
                &&& opt_view(o.const_value) == match const_value {
                    Some(c) => Some(c@),
                    None => None,
                }
                &&& !o.flag_needs_value
            }),
            old(self).no_norm() ==> final(self).registered(old(self), opts@.map_values(|x: &str| x@), dest@),
            final(self).spec_args() == old(self).spec_args(),
            final(self).no_norm() == old(self).no_norm(),
            final(self).spec_interspersed() == old(self).spec_interspersed(),
            final(self).spec_ignore_unknown() == old(self).spec_ignore_unknown(),
    {
        self.add_option_ex(opts, dest, action, nargs, const_value, false);
    }

    /// What adding the option names `os` (with destination `dest`) does to the tables:
    /// the short and long names map to the new option, and their prefixes are known.
    pub open spec fn registered(&self, old: &Self, os: Seq<Seq<char>>, dest: Seq<char>) -> bool {
        let o = self.spec_options().last();
        let idx = (self.spec_options().len() - 1) as usize;
        let shorts = filter_names(os, true);
        let longs = filter_names(os, false);
        &&& o.short_opts.deep_view() == shorts
        &&& o.long_opts.deep_view() == longs
        &&& o.name@ == if longs.len() > 0 {
            longs[0]
        } else if shorts.len() > 0 {
            shorts[0]
        } else {
            dest
        }
        &&& self.short_map() == old.short_map().union_prefer_right(
            Map::new(|k: Seq<char>| shorts.contains(k), |k: Seq<char>| idx),
        )
        &&& self.long_map() == old.long_map().union_prefer_right(
            Map::new(|k: Seq<char>| longs.contains(k), |k: Seq<char>| idx),
        )
        &&& self.prefix_set() == old.prefix_set().union(prefixes_of(os))
    }

    /// Add an option to the parser; when `flag_needs_value` is set, the value may be
    /// omitted.
    pub fn add_option_ex(
        &mut self,
        opts: &[&str],
        dest: &str,
        action: OptionAction,
        nargs: i32,
        const_value: Option<&str>,
        flag_needs_value: bool,
    )
        requires
            old(self).wf(),
        ensures
            final(self).wf(),
            final(self).spec_options().len() == old(self).spec_options().len() + 1,
            final(self).spec_options().drop_last() == old(self).spec_options(),
            ({
                let o = final(self).spec_options().last();
                &&& o.dest@ == dest@
                &&& o.action == action
                &&& o.nargs == nargs
                &&& opt_view(o.const_value) == match const_value {
                    Some(c) => Some(c@),
                    None => None,
                }
                &&& o.flag_needs_value == flag_needs_value
            }),
            old(self).no_norm() ==> final(self).registered(old(self), opts@.map_values(|x: &str| x@), dest@),
            final(self).spec_args() == old(self).spec_args(),
            final(self).no_norm() == old(self).no_norm(),
            final(self).spec_interspersed() == old(self).spec_interspersed(),
            final(self).spec_ignore_unknown() == old(self).spec_ignore_unknown(),
    {
        let ghost os = opts@.map_values(|x: &str| x@);
        let mut norm: Vec<String> = Vec::new();
        let mut i: usize = 0;
        while i < opts.len()
            invariant
                i <= opts@.len(),
                os == opts@.map_values(|x: &str| x@),
                norm@.len() == i,
                self.no_norm() ==> norm.deep_view() =~= os.take(i as int),
            decreases opts@.len() - i,
        {
            let ghost od = norm.deep_view();
            let n = self.normalize_opt(opts[i]);
            norm.push(n);
            assert(norm.deep_view() =~= od.push(norm@[i as int]@));
            i = i + 1;
        }
        assert(os.take(opts@.len() as int) =~= os);
        let ghost nv = norm.deep_view();
        let mut short_opts: Vec<String> = Vec::new();
        let mut long_opts: Vec<String> = Vec::new();
        let mut j: usize = 0;
        while j < norm.len()
            invariant
                j <= norm@.len(),
                nv == norm.deep_view(),
                self.wf(),
                short_opts.deep_view() =~= filter_names(nv.take(j as int), true),
                long_opts.deep_view() =~= filter_names(nv.take(j as int), false),
                self.prefix_set() == old(self).prefix_set().union(prefixes_of(nv.take(j as int))),
                self.short_map() == old(self).short_map(),
                self.long_map() == old(self).long_map(),
                self.spec_options() == old(self).spec_options(),
                self.spec_args() == old(self).spec_args(),
                self.no_norm() == old(self).no_norm(),
                self.spec_interspersed() == old(self).spec_interspersed(),
                self.spec_ignore_unknown() == old(self).spec_ignore_unknown(),
            decreases norm@.len() - j,
        {
            let ghost tk = nv.take(j + 1);
            proof {
                assert(tk.drop_last() =~= nv.take(j as int));
                assert(tk.last() == norm@[j as int]@);
            }
            let ghost pre = self.prefix_set();
            match split_opt_any(norm[j].as_str()) {
                Some((prefix, value)) => {
                    let mut first = String::new();
                    first.push(prefix.get_char(0));
                    let ghost fv = first@;
                    self.add_prefix(first);
                    let two = blen_equals(prefix, 2);
                    if two {
                        self.add_prefix(str_of(prefix));
                    }
                    proof {
                        assert(fv =~= seq![prefix@[0]]);
                        assert(self.prefix_set() =~= pre.union(name_prefixes(tk.last())));
                    }
                    if blen_equals(prefix, 1) && blen_equals(value, 1) {
                        let ghost od = short_opts.deep_view();
                        short_opts.push(norm[j].clone());
                        assert(short_opts.deep_view() =~= od.push(tk.last()));
                    } else {
                        let ghost od = long_opts.deep_view();
                        long_opts.push(norm[j].clone());
                        assert(long_opts.deep_view() =~= od.push(tk.last()));
                    }
                },
                None => {
                    assert(name_prefixes(tk.last()) =~= Set::<Seq<char>>::empty());
                    assert(self.prefix_set() =~= pre.union(name_prefixes(tk.last())));
                },
            }
            j = j + 1;
        }
        assert(nv.take(norm@.len() as int) =~= nv);
        let name = if long_opts.len() > 0 {
            long_opts[0].clone()
        } else if short_opts.len() > 0 {
            short_opts[0].clone()
        } else {
            str_of(dest)
        };
        proof {
            if long_opts@.len() > 0 {
                assert(long_opts.deep_view()[0] == long_opts@[0]@);
            }
            if short_opts@.len() > 0 {
                assert(short_opts.deep_view()[0] == short_opts@[0]@);
            }
        }
        let idx = self.options.len();
        let ghost sv = short_opts.deep_view();
        let ghost lv = long_opts.deep_view();
        let mut k: usize = 0;
        while k < short_opts.len()
            invariant
                k <= short_opts@.len(),
                sv == short_opts.deep_view(),
                idx == self.options@.len(),
                self.short_opt.wf(),
                forall|x: Seq<char>| #[trigger] self.short_opt.map().contains_key(x) ==> self.short_opt.map()[x] <= idx,
                self.short_opt.map() == old(self).short_map().union_prefer_right(
                    Map::new(|x: Seq<char>| sv.take(k as int).contains(x), |x: Seq<char>| idx),
                ),
                self.long_map() == old(self).long_map(),
                self.long_opt.wf(),
                forall|x: Seq<char>| #[trigger] self.long_opt.map().contains_key(x) ==> self.long_opt.map()[x] <= idx,
                self.spec_options() == old(self).spec_options(),
                self.spec_args() == old(self).spec_args(),
                self.no_norm() == old(self).no_norm(),
                self.spec_interspersed() == old(self).spec_interspersed(),
                self.spec_ignore_unknown() == old(self).spec_ignore_unknown(),
                self.prefix_set() == old(self).prefix_set().union(prefixes_of(nv)),
            decreases short_opts@.len() - k,
        {
            let ghost before = self.short_opt.map();
            self.short_opt.insert(short_opts[k].clone(), idx);
            proof {
                assert(sv[k as int] == short_opts@[k as int]@);
                lemma_take_contains(sv, k as int);
                lemma_union_step(old(self).short_map(), sv, k as int, idx, before, self.short_opt.map());
                assert(self.short_opt.map() =~= old(self).short_map().union_prefer_right(
                    Map::new(|x: Seq<char>| sv.take(k + 1).contains(x), |x: Seq<char>| idx),
                ));
            }
            k = k + 1;
        }
        assert(sv.take(short_opts@.len() as int) =~= sv);
        let mut k2: usize = 0;
        while k2 < long_opts.len()
            invariant
                k2 <= long_opts@.len(),
                lv == long_opts.deep_view(),
                idx == self.options@.len(),
                self.long_opt.wf(),
                forall|x: Seq<char>| #[trigger] self.long_opt.map().contains_key(x) ==> self.long_opt.map()[x] <= idx,
                self.long_opt.map() == old(self).long_map().union_prefer_right(
                    Map::new(|x: Seq<char>| lv.take(k2 as int).contains(x), |x: Seq<char>| idx),
                ),
                self.short_opt.wf(),
                forall|x: Seq<char>| #[trigger] self.short_opt.map().contains_key(x) ==> self.short_opt.map()[x] <= idx,
                self.short_opt.map() == old(self).short_map().union_prefer_right(
                    Map::new(|x: Seq<char>| sv.contains(x), |x: Seq<char>| idx),
                ),
                self.spec_options() == old(self).spec_options(),
                self.spec_args() == old(self).spec_args(),
                self.no_norm() == old(self).no_norm(),
                self.spec_interspersed() == old(self).spec_interspersed(),
                self.spec_ignore_unknown() == old(self).spec_ignore_unknown(),
                self.prefix_set() == old(self).prefix_set().union(prefixes_of(nv)),

            decreases long_opts@.len() - k2,
        {
            let ghost before = self.long_opt.map();
            self.long_opt.insert(long_opts[k2].clone(), idx);
            proof {
                assert(lv[k2 as int] == long_opts@[k2 as int]@);
                lemma_take_contains(lv, k2 as int);
                lemma_union_step(old(self).long_map(), lv, k2 as int, idx, before, self.long_opt.map());
                assert(self.long_opt.map() =~= old(self).long_map().union_prefer_right(
                    Map::new(|x: Seq<char>| lv.take(k2 + 1).contains(x), |x: Seq<char>| idx),
                ));
            }
            k2 = k2 + 1;
        }
        assert(lv.take(long_opts@.len() as int) =~= lv);
        let cv = match const_value {
            Some(c) => Some(str_of(c)),
            None => None,
        };
        self.options.push(ParserOption {
            name,
            short_opts,
            long_opts,
            action,
            nargs,
            const_value: cv,
            dest: str_of(dest),
            flag_needs_value,
        });
        assert(self.options@.drop_last() =~= old(self).options@);
    }
}

proof fn lemma_take_contains(s: Seq<Seq<char>>, k: int)
    requires
        0 <= k < s.len(),
    ensures
        forall|x: Seq<char>| s.take(k + 1).contains(x) <==> (s.take(k).contains(x) || x == s[k]),
{
    let t1 = s.take(k + 1);
    let t0 = s.take(k);
    assert forall|x: Seq<char>| t1.contains(x) <==> (t0.contains(x) || x == s[k]) by {
        if t1.contains(x) {
            let t = choose|t: int| 0 <= t < t1.len() && #[trigger] t1[t] == x;
            if t < k {
                assert(t0[t] == x);
            }
        }
        if t0.contains(x) {
            let t = choose|t: int| 0 <= t < t0.len() && #[trigger] t0[t] == x;
            assert(t1[t] == x);
        }
        if x == s[k] {
            assert(t1[k] == x);
        }
    }
}

proof fn lemma_union_step(
    base: Map<Seq<char>, usize>,
    s: Seq<Seq<char>>,
    k: int,
    idx: usize,
    before: Map<Seq<char>, usize>,
    after: Map<Seq<char>, usize>,
)
    requires
        0 <= k < s.len(),
        before == base.union_prefer_right(Map::new(|x: Seq<char>| s.take(k).contains(x), |x: Seq<char>| idx)),
        after == before.insert(s[k], idx),
    ensures
        after == base.union_prefer_right(Map::new(|x: Seq<char>| s.take(k + 1).contains(x), |x: Seq<char>| idx)),
{
    lemma_take_contains(s, k);
    let n1 = Map::new(|x: Seq<char>| s.take(k).contains(x), |x: Seq<char>| idx);
    let n2 = Map::new(|x: Seq<char>| s.take(k + 1).contains(x), |x: Seq<char>| idx);
    let m2 = base.union_prefer_right(n2);
    assert forall|x: Seq<char>| after.dom().contains(x) <==> m2.dom().contains(x) by {
        assert(n1.dom().contains(x) <==> s.take(k).contains(x));
        assert(n2.dom().contains(x) <==> s.take(k + 1).contains(x));
    }
    assert(after.dom() =~= m2.dom());
    assert forall|x: Seq<char>| #[trigger] after.contains_key(x) implies after[x] == m2[x] by {
        assert(n1.dom().contains(x) <==> s.take(k).contains(x));
        assert(n2.dom().contains(x) <==> s.take(k + 1).contains(x));
        if x != s[k] && !s.take(k).contains(x) {
            assert(!s.take(k + 1).contains(x));
        }
    }
    assert(after =~= m2);
}

/// Takes the first element of a vector of strings.
fn pop_front(v: &mut Vec<String>) -> (r: String)
    requires
        old(v)@.len() > 0,
    ensures
        r@ == old(v).deep_view()[0],
        final(v).deep_view() == old(v).deep_view().drop_first(),
{
    let r = v.remove(0);
    assert(v.deep_view() =~= old(v).deep_view().drop_first());
    r
}

/// Puts a string in front of a vector of strings.
fn push_front(v: &mut Vec<String>, s: String)
    ensures
        final(v).deep_view() == seq![s@] + old(v).deep_view(),
{
    let ghost sv = s@;
    v.insert(0, s);
    assert(v.deep_view() =~= seq![sv] + old(v).deep_view());
}

fn requires_message(name: &str, n: i32) -> (r: String)
    ensures
        r@ == requires_msg(name@, n),
{
    if n == 1 {
        cat3("Option '", name, "' requires an argument.")
    } else {
        let d = i64_to_string(n as i64);
        cat5("Option '", name, "' requires ", d.as_str(), " arguments.")
    }
}

impl OptionParser {
    /// Take the value of `option` from the front of the remaining arguments.
    fn get_value_from_state(&self, option_name: &str, option: &ParserOption, state: &mut ParsingState) -> (r:
        Result<ParsedValue, ClickError>)
        requires
            old(state).wf(),
        ensures
            final(state).wf(),
            match self.spec_get_value(option_name@, *option, old(state)@) {
                Ok((v, s)) => r matches Ok(x) && x@ == v && final(state)@ == s,
                Err(e) => r matches Err(x) && err_view(x) == e,
            },
            weight(final(state)@.rargs) <= weight(old(state)@.rargs),
    {
        let nargs = option.nargs;
        proof {
            if old(state).rargs@.len() > 0 {
                lemma_weight_drop_first(old(state)@.rargs);
            }
        }
        if nargs == NARGS_OPTIONAL {
            if state.rargs.len() > 0 {
                let looks = self.looks_like_option(state.rargs[0].as_str());
                assert(state.rargs.deep_view()[0] == state.rargs@[0]@);
                if looks && option.flag_needs_value {
                    return Ok(ParsedValue::FlagNeedsValue);
                }
            } else if option.flag_needs_value {
                return Ok(ParsedValue::FlagNeedsValue);
            }
            if state.rargs.len() > 0 {
                let v = pop_front(&mut state.rargs);
                return Ok(ParsedValue::Single(v));
            } else {
                return Ok(ParsedValue::Unset);
            }
        }
        if nargs <= 0 {
            return Ok(ParsedValue::Unset);
        }
        if state.rargs.len() < nargs as usize {
            if option.flag_needs_value {
                return Ok(ParsedValue::FlagNeedsValue);
            }
            let msg = requires_message(option_name, nargs);
            return Err(ClickError::bad_option_usage(option_name, msg));
        }
        if nargs == 1 {
            if option.flag_needs_value {
                let looks = self.looks_like_option(state.rargs[0].as_str());
                assert(state.rargs.deep_view()[0] == state.rargs@[0]@);
                if looks {
                    return Ok(ParsedValue::FlagNeedsValue);
                }
            }
            let v = pop_front(&mut state.rargs);
            Ok(ParsedValue::Single(v))
        } else {
            let ghost old_r = state.rargs.deep_view();
            let mut rest = state.rargs.split_off(nargs as usize);
            std::mem::swap(&mut rest, &mut state.rargs);
            proof {
                assert(rest.deep_view() =~= old_r.take(nargs as int));
                assert(state.rargs.deep_view() =~= old_r.skip(nargs as int));
                lemma_weight_skip(old_r, nargs as int);
            }
            Ok(ParsedValue::Multiple(rest))
        }
    }

    /// Apply `option` with `value` to the state.
    fn process_option(&self, option: &ParserOption, value: ParsedValue, state: &mut ParsingState)
        requires
            old(state).wf(),
        ensures
            final(state).wf(),
            final(state)@ == spec_process_option(*option, value@, old(state)@),
    {
        let ghost st = old(state)@;
        let ghost d = option.dest@;
        match option.action {
            OptionAction::Store => {
                let ghost vv = value;
                state.opts.insert(option.dest.clone(), value);
                proof {
                    lemma_pv_map_insert(old(state).opts.map(), d, vv);
                }
            },
            OptionAction::StoreConst => {
                let cv = match &option.const_value {
                    Some(c) => ParsedValue::Single(c.clone()),
                    None => ParsedValue::Flag(true),
                };
                let ghost vv = cv;
                state.opts.insert(option.dest.clone(), cv);
                proof {
                    lemma_pv_map_insert(old(state).opts.map(), d, vv);
                }
            },
            OptionAction::Append => {
                let ev: Vec<String> = Vec::new();
                assert(ev.deep_view() =~= Seq::<Seq<char>>::empty());
                let dflt = ParsedValue::Multiple(ev);
                let ghost dg = dflt;
                let idx = state.opts.entry_index(option.dest.as_str(), dflt);
                let ghost m1 = state.opts.map();
                proof {
                    if !old(state).opts.map().contains_key(d) {
                        lemma_pv_map_insert(old(state).opts.map(), d, dg);
                    }
                }
                let cur = state.opts.set_entry(idx, ParsedValue::Unset);
                let ghost m2 = state.opts.map();
                assert(key_index(state.opts.kv(), d) == idx);
                match cur {
                    ParsedValue::Multiple(mut vec) => {
                        let ghost vs = vec.deep_view();
                        match value {
                            ParsedValue::Single(s) => {
                                let ghost sv = s@;
                                vec.push(s);
                                assert(vec.deep_view() =~= vs.push(sv));
                                let ghost nv = ParsedValue::Multiple(vec);
                                state.opts.set_entry(idx, ParsedValue::Multiple(vec));
                                proof {
                                    assert(state.opts.map() =~= m1.insert(d, nv));
                                    lemma_pv_map_insert(m1, d, nv);
                                }
                            },
                            ParsedValue::Multiple(mut w) => {
                                let ghost wv = w.deep_view();
                                vec.append(&mut w);
                                assert(vec.deep_view() =~= vs + wv);
                                let ghost nv = ParsedValue::Multiple(vec);
                                state.opts.set_entry(idx, ParsedValue::Multiple(vec));
                                proof {
                                    assert(state.opts.map() =~= m1.insert(d, nv));
                                    lemma_pv_map_insert(m1, d, nv);
                                }
                            },
                            ParsedValue::FlagNeedsValue => {
                                state.opts.set_entry(idx, ParsedValue::Multiple(vec));
                                assert(state.opts.map() =~= m1);
                                let key = cat2("__click_internal_flag_needs_value_", option.dest.as_str());
                                state.opts.insert(key, ParsedValue::Flag(true));
                                proof {
                                    lemma_pv_map_insert(m1, fnv_key(d), ParsedValue::Flag(true));
                                }
                            },
                            _ => {
                                state.opts.set_entry(idx, ParsedValue::Multiple(vec));
                                assert(state.opts.map() =~= m1);
                            },
                        }
                    },
                    other => {
                        state.opts.set_entry(idx, other);
                        assert(state.opts.map() =~= m1);
                    },
                }
            },
            OptionAction::AppendConst => {
                let ev: Vec<String> = Vec::new();
                assert(ev.deep_view() =~= Seq::<Seq<char>>::empty());
                let dflt = ParsedValue::Multiple(ev);
                let ghost dg = dflt;
                let idx = state.opts.entry_index(option.dest.as_str(), dflt);
                let ghost m1 = state.opts.map();
                proof {
                    if !old(state).opts.map().contains_key(d) {
                        lemma_pv_map_insert(old(state).opts.map(), d, dg);
                    }
                }
                let cur = state.opts.set_entry(idx, ParsedValue::Unset);
                assert(key_index(state.opts.kv(), d) == idx);
                match cur {
                    ParsedValue::Multiple(mut vec) => {
                        let ghost vs = vec.deep_view();
                        match &option.const_value {
                            Some(c) => {
                                vec.push(c.clone());
                                assert(vec.deep_view() =~= vs.push(c@));
                            },
                            None => {},
                        }
                        let ghost nv = ParsedValue::Multiple(vec);
                        state.opts.set_entry(idx, ParsedValue::Multiple(vec));
                        proof {
                            assert(state.opts.map() =~= m1.insert(d, nv));
                            lemma_pv_map_insert(m1, d, nv);
                            if option.const_value is None {
                                assert(pv_map(m1).insert(d, nv@) =~= pv_map(m1));
                            }
                        }
                    },
                    other => {
                        state.opts.set_entry(idx, other);
                        assert(state.opts.map() =~= m1);
                    },
                }
            },
            OptionAction::Count => {
                let idx = state.opts.entry_index(option.dest.as_str(), ParsedValue::Count(0));
                let ghost m1 = state.opts.map();
                proof {
                    if !old(state).opts.map().contains_key(d) {
                        lemma_pv_map_insert(old(state).opts.map(), d, ParsedValue::Count(0));
                    }
                }
                let cur = state.opts.set_entry(idx, ParsedValue::Unset);
                assert(key_index(state.opts.kv(), d) == idx);
                match cur {
                    ParsedValue::Count(n) => {
                        let n2 = if n < usize::MAX { n + 1 } else { n };
                        let ghost nv = ParsedValue::Count(n2);
                        state.opts.set_entry(idx, ParsedValue::Count(n2));
                        proof {
                            assert(state.opts.map() =~= m1.insert(d, nv));
                            lemma_pv_map_insert(m1, d, nv);
                        }
                    },
                    other => {
                        state.opts.set_entry(idx, other);
                        assert(state.opts.map() =~= m1);
                    },
                }
            },
        }
        let ghost od = state.order.deep_view();
        state.order.push(option.dest.clone());
        assert(state.order.deep_view() =~= od.push(d));
    }
}

pub open spec fn explicit_weight(e: Option<Seq<char>>) -> nat {
    match e {
        Some(v) => v.len() + 1,
        None => 0,
    }
}

impl OptionParser {
    /// Match a long option name, with the value given after `=` if any.
    fn match_long_opt(&self, opt: &str, explicit_value: Option<String>, state: &mut ParsingState) -> (r: Result<
        (),
        ClickError,
    >)
        requires
            self.wf(),
            old(state).wf(),
        ensures
            final(state).wf(),
            rel_state(self.spec_match_long(opt@, opt_view(explicit_value), old(state)@), r, final(state)@),
            self.spec_find_long(opt@) is None ==> final(state)@ == old(state)@,
            r is Ok ==> weight(final(state)@.rargs) <= weight(old(state)@.rargs) + explicit_weight(
                opt_view(explicit_value),
            ),
    {
        let i = match self.long_opt.get(opt) {
            Some(i) => *i,
            None => {
                let poss = close_matches_exec(opt, &self.long_opt.keys, 3);
                if poss.len() == 0 {
                    return Err(ClickError::no_such_option(opt));
                } else {
                    return Err(ClickError::no_such_option_with_suggestions(opt, poss));
                }
            },
        };
        let option = &self.options[i];
        if takes_value_exec(option.action) {
            let ghost st1 = match opt_view(explicit_value) {
                Some(v) => with_rargs(old(state)@, seq![v] + old(state)@.rargs),
                None => old(state)@,
            };
            match explicit_value {
                Some(val) => {
                    push_front(&mut state.rargs, val);
                    proof {
                        lemma_weight_cons(opt_view(explicit_value)->0, old(state)@.rargs);
                    }
                },
                None => {},
            }
            assert(state@ == st1);
            let value = match self.get_value_from_state(opt, option, state) {
                Ok(v) => v,
                Err(e) => {
                    return Err(e);
                },
            };
            self.process_option(option, value, state);
            Ok(())
        } else if explicit_value.is_some() {
            let msg = cat3("Option '", opt, "' does not take a value.");
            Err(ClickError::bad_option_usage(opt, msg))
        } else {
            self.process_option(option, ParsedValue::Unset, state);
            Ok(())
        }
    }

    /// Match grouped short options in `arg`.
    fn match_short_opt(&self, arg: &str, state: &mut ParsingState) -> (r: Result<(), ClickError>)
        requires
            self.wf(),
            old(state).wf(),
            arg@.len() > 0,
        ensures
            final(state).wf(),
            self.no_norm() ==> rel_state(self.spec_short_loop(arg@, 1, seq![], old(state)@), r, final(state)@),
            exists|out: Result<PState, PErr>|
                #[trigger] self.short_loop_rel(arg@, 1, seq![], old(state)@, out) && rel_state(out, r, final(state)@),
            r is Ok ==> weight(final(state)@.rargs) <= weight(old(state)@.rargs) + arg@.len(),
    {
        let chars = to_chars(arg);
        let n = chars.len();
        let prefix = chars[0];
        let ghost a = arg@;
        let mut unknown: Vec<char> = Vec::new();
        let mut i: usize = 1;
        let mut done = false;
        while i < n && !done
            invariant
                self.wf(),
                state.wf(),
                chars@ == a,
                a == arg@,
                n == a.len(),
                prefix == a[0],
                1 <= i,
                !done ==> i <= n,
                self.no_norm() ==> (if done {
                    self.spec_short_loop(a, 1, seq![], old(state)@) == Ok::<PState, PErr>(
                        self.spec_short_finish(a[0], unknown@, state@),
                    )
                } else {
                    self.spec_short_loop(a, 1, seq![], old(state)@) == self.spec_short_loop(a, i as int, unknown@, state@)
                }),
                weight(state@.rargs) <= weight(old(state)@.rargs) + (if done { a.len() } else { 0 }),
                done ==> self.short_loop_rel(a, 1, seq![], old(state)@, Ok(self.spec_short_finish(a[0], unknown@, state@))),
                !done ==> forall|out: Result<PState, PErr>|
                    #[trigger] self.short_loop_rel(a, i as int, unknown@, state@, out) ==> self.short_loop_rel(
                        a,
                        1,
                        seq![],
                        old(state)@,
                        out,
                    ),
            decreases n - i, (if done { 0int } else { 1int }),
        {
            let ch = chars[i];
            let mut raw = String::new();
            raw.push(prefix);
            raw.push(ch);
            assert(raw@ =~= seq![a[0], a[i as int]]);
            let opt = self.normalize_opt(raw.as_str());
            let ghost gi = i;
            let ghost st_i = state@;
            let ghost unk_i = unknown@;
            let ghost rv = raw@;
            assert(self.norm_step(rv, opt@));
            assert(rv == seq![a[0], a[gi as int]]);
            i = i + 1;
            match self.short_opt.get(opt.as_str()) {
                None => {
                    if self.ignore_unknown_options {
                        unknown.push(ch);
                        proof {
                            assert forall|out: Result<PState, PErr>|
                                #[trigger] self.short_loop_rel(a, i as int, unknown@, state@, out) implies self.short_loop_rel(
                                a,
                                1,
                                seq![],
                                old(state)@,
                                out,
                            ) by {
                                assert(self.spec_find_short(opt@) is None);
                                assert(self.short_loop_rel(a, gi as int, unk_i, st_i, out));
                            }
                        }
                    } else {
                        assert(self.no_norm() ==> self.spec_short_loop(a, gi as int, unk_i, st_i) == Err::<
                            PState,
                            PErr,
                        >(PErr::NoSuchOption(opt@, None)));
                        let e = ClickError::no_such_option(opt.as_str());
                        proof {
                            let out = Err::<PState, PErr>(PErr::NoSuchOption(opt@, None));
                            assert(self.spec_find_short(opt@) is None);
                            assert(self.short_loop_rel(a, gi as int, unk_i, st_i, out));
                            assert(self.short_loop_rel(a, 1, seq![], old(state)@, out));
                            assert(rel_state(out, Err::<(), ClickError>(e), state@));
                        }
                        return Err(e);
                    }
                },
                Some(k) => {
                    let option = &self.options[*k];
                    if takes_value_exec(option.action) {
                        if i < n {
                            let value = chars_range(&chars, i, n);
                            proof {
                                assert(value@ =~= a.skip(gi + 1));
                                lemma_weight_cons(value@, state@.rargs);
                            }
                            push_front(&mut state.rargs, value);
                        }
                        let ghost st1 = state@;
                        assert(self.no_norm() ==> st1 == if gi + 1 < a.len() {
                            with_rargs(st_i, seq![a.skip(gi + 1)] + st_i.rargs)
                        } else {
                            st_i
                        });
                        let v = match self.get_value_from_state(opt.as_str(), option, state) {
                            Ok(v) => v,
                            Err(e) => {
                                assert(self.no_norm() ==> self.spec_short_loop(a, gi as int, unk_i, st_i)
                                    == match self.spec_get_value(opt@, *option, st1) {
                                    Ok((v, st2)) => Ok(self.spec_short_finish(a[0], unk_i, spec_process_option(*option, v, st2))),
                                    Err(e) => Err(e),
                                });
                                proof {
                                    let out = Err::<PState, PErr>(err_view(e));
                                    assert(self.spec_find_short(opt@) == Some(*option));
                                    assert(self.short_loop_rel(a, gi as int, unk_i, st_i, out));
                                    assert(self.short_loop_rel(a, 1, seq![], old(state)@, out));
                                }
                                return Err(e);
                            },
                        };
                        self.process_option(option, v, state);
                        done = true;
                        proof {
                            let out = Ok::<PState, PErr>(self.spec_short_finish(a[0], unknown@, state@));
                            assert(self.spec_find_short(opt@) == Some(*option));
                            assert(self.short_loop_rel(a, gi as int, unk_i, st_i, out));
                        }
                    } else {
                        self.process_option(option, ParsedValue::Unset, state);
                        proof {
                            assert forall|out: Result<PState, PErr>|
                                #[trigger] self.short_loop_rel(a, i as int, unknown@, state@, out) implies self.short_loop_rel(
                                a,
                                1,
                                seq![],
                                old(state)@,
                                out,
                            ) by {
                                assert(self.spec_find_short(opt@) == Some(*option));
                                assert(self.short_loop_rel(a, gi as int, unk_i, st_i, out));
                            }
                        }
                    }
                },
            }
        }
        let ghost pre = state@;
        proof {
            if !done {
                assert(self.short_loop_rel(a, i as int, unknown@, state@, Ok(self.spec_short_finish(a[0], unknown@, state@))));
            }
        }
        if self.ignore_unknown_options && unknown.len() > 0 {
            let mut combined = String::new();
            combined.push(prefix);
            let mut k: usize = 0;
            while k < unknown.len()
                invariant
                    k <= unknown@.len(),
                    combined@ =~= seq![prefix] + unknown@.take(k as int),
                decreases unknown@.len() - k,
            {
                combined.push(unknown[k]);
                assert(unknown@.take(k + 1) =~= unknown@.take(k as int).push(unknown@[k as int]));
                k = k + 1;
            }
            assert(unknown@.take(unknown@.len() as int) =~= unknown@);
            let ghost ol = state.largs.deep_view();
            let ghost cv = combined@;
            state.largs.push(combined);
            assert(state.largs.deep_view() =~= ol.push(cv));
        }
        proof {
            assert(state@ == self.spec_short_finish(a[0], unknown@, pre));
            let out = Ok::<PState, PErr>(state@);
            assert(self.short_loop_rel(arg@, 1, seq![], old(state)@, out));
        }
        Ok(())
    }
}

impl OptionParser {
    /// Process one option-like argument.
    fn process_opts(&self, arg: &str, state: &mut ParsingState) -> (r: Result<(), ClickError>)
        requires
            self.wf(),
            old(state).wf(),
        ensures
            final(state).wf(),
            self.no_norm() ==> rel_state(self.spec_process_opts(arg@, old(state)@), r, final(state)@),
            exists|out: Result<PState, PErr>|
                #[trigger] self.process_opts_rel(arg@, old(state)@, out) && rel_state(out, r, final(state)@),
            r is Ok ==> weight(final(state)@.rargs) <= weight(old(state)@.rargs) + arg@.len(),
    {
        let chars = to_chars(arg);
        let n = chars.len();
        let (long_opt, explicit) = match find_eq(&chars) {
            Some(p) => {
                let l = chars_range(&chars, 0, p);
                let e = chars_range(&chars, p + 1, n);
                assert(l@ =~= arg@.take(p as int));
                assert(e@ =~= arg@.skip(p + 1));
                (l, Some(e))
            },
            None => (str_of(arg), None),
        };
        let norm = self.normalize_opt(long_opt.as_str());
        let ghost ev = opt_view(explicit);
        let ghost lo = long_opt@;
        assert(lo == (match first_eq(arg@) {
            Some(p) => arg@.take(p),
            None => arg@,
        }));
        assert(ev == (match first_eq(arg@) {
            Some(p) => Some(arg@.skip(p + 1)),
            None => None::<Seq<char>>,
        }));
        assert(self.no_norm() ==> self.spec_process_opts(arg@, old(state)@) == match self.spec_match_long(norm@, ev, old(state)@) {
            Ok(s) => Ok(s),
            Err(e) => match e {
                PErr::NoSuchOption(_, _) => {
                    if spec_split_opt(arg@) matches Some((p, _)) && blen(p) == 1 {
                        self.spec_short_loop(arg@, 1, seq![], old(state)@)
                    } else if self.ignore_unknown_options {
                        Ok(with_largs(old(state)@, old(state)@.largs.push(arg@)))
                    } else {
                        Err(e)
                    }
                },
                _ => Err(e),
            },
        });
        proof {
            assert(explicit_weight(ev) <= arg@.len());
        }
        let ghost st0 = state@;
        let ghost nv = norm@;
        assert(lo == long_part(arg@));
        assert(ev == explicit_part(arg@));
        assert(self.norm_step(long_part(arg@), nv));
        let res = self.match_long_opt(norm.as_str(), explicit, state);
        proof {
            let sp = self.spec_match_long(nv, ev, st0);
            if !(sp matches Err(PErr::NoSuchOption(_, _))) {
                assert(self.process_opts_rel(arg@, st0, sp));
            }
        }
        match res {
            Ok(()) => Ok(()),
            Err(e) => match e {
                ClickError::NoSuchOption { .. } => {
                    assert(self.spec_find_long(norm@) is None);
                    assert(state@ == old(state)@);
                    match split_opt_any(arg) {
                        Some((prefix, _)) => {
                            if blen_equals(prefix, 1) {
                                assert(arg@.len() > 0);
                                let r = self.match_short_opt(arg, state);
                                assert(self.no_norm() ==> self.spec_process_opts(arg@, old(state)@) == self.spec_short_loop(arg@, 1, seq![], old(state)@));
                                proof {
                                    let out = choose|out: Result<PState, PErr>|
                                        #[trigger] self.short_loop_rel(arg@, 1, seq![], old(state)@, out) && rel_state(out, r, state@);
                                    assert(self.process_opts_rel(arg@, old(state)@, out));
                                }
                                return r;
                            }
                        },
                        None => {},
                    }
                    if self.ignore_unknown_options {
                        let ghost ol = state.largs.deep_view();
                        state.largs.push(str_of(arg));
                        assert(state.largs.deep_view() =~= ol.push(arg@));
                        proof {
                            let out = Ok::<PState, PErr>(with_largs(st0, st0.largs.push(arg@)));
                            assert(self.process_opts_rel(arg@, old(state)@, out));
                        }
                        return Ok(());
                    }
                    proof {
                        let out = Err::<PState, PErr>(err_view(e));
                        assert(self.process_opts_rel(arg@, old(state)@, out));
                    }
                    Err(e)
                },
                other => Err(other),
            },
        }
    }

    /// The option phase of parsing.
    fn process_args_for_options(&self, state: &mut ParsingState) -> (r: Result<(), ClickError>)
        requires
            self.wf(),
            old(state).wf(),
        ensures
            final(state).wf(),
            self.no_norm() ==> rel_state(self.spec_opts_loop(old(state)@), r, final(state)@),
            exists|out: Result<PState, PErr>|
                #[trigger] self.opts_loop_rel(old(state)@, out) && rel_state(out, r, final(state)@),
    {
        while state.rargs.len() > 0
            invariant
                self.wf(),
                state.wf(),
                self.no_norm() ==> self.spec_opts_loop(old(state)@) == self.spec_opts_loop(state@),
                forall|out: Result<PState, PErr>|
                    #[trigger] self.opts_loop_rel(state@, out) ==> self.opts_loop_rel(old(state)@, out),
            decreases weight(state@.rargs),
        {
            let ghost st = state@;
            proof {
                lemma_weight_drop_first(st.rargs);
            }
            let arg = pop_front(&mut state.rargs);
            let ghost st1 = state@;
            if str_eq(arg.as_str(), "--") {
                proof {
                    reveal_strlit("--");
                    assert(self.opts_loop_rel(st, Ok::<PState, PErr>(st1)));
                }
                return Ok(());
            }
            if self.looks_like_option(arg.as_str()) {
                match self.process_opts(arg.as_str(), state) {
                    Ok(()) => {
                        proof {
                            let m = choose|m: Result<PState, PErr>|
                                #[trigger] self.process_opts_rel(arg@, st1, m) && rel_state(m, Ok::<(), ClickError>(()), state@);
                            assert(m == Ok::<PState, PErr>(state@));
                            assert(weight(state@.rargs) < weight(st.rargs));
                            assert forall|out: Result<PState, PErr>|
                                #[trigger] self.opts_loop_rel(state@, out) implies self.opts_loop_rel(old(state)@, out) by {
                                assert(self.opts_loop_rel(st, out));
                            }
                        }
                    },
                    Err(e) => {
                        proof {
                            let m = choose|m: Result<PState, PErr>|
                                #[trigger] self.process_opts_rel(arg@, st1, m) && rel_state(m, Err::<(), ClickError>(e), state@);
                            assert(m == Err::<PState, PErr>(err_view(e)));
                            assert(self.opts_loop_rel(st, m));
                        }
                        return Err(e);
                    },
                }
            } else if self.allow_interspersed_args {
                let ghost ol = state.largs.deep_view();
                state.largs.push(arg);
                assert(state.largs.deep_view() =~= ol.push(st.rargs[0]));
                proof {
                    assert forall|out: Result<PState, PErr>|
                        #[trigger] self.opts_loop_rel(state@, out) implies self.opts_loop_rel(old(state)@, out) by {
                        assert(self.opts_loop_rel(st, out));
                    }
                }
            } else {
                push_front(&mut state.rargs, arg);
                assert(state.rargs.deep_view() =~= st.rargs);
                proof {
                    assert(self.opts_loop_rel(st, Ok::<PState, PErr>(st)));
                }
                return Ok(());
            }
        }
        proof {
            assert(self.opts_loop_rel(state@, Ok::<PState, PErr>(state@)));
        }
        Ok(())
    }

    /// The positional phase of parsing.
    fn process_args_for_args(&self, state: &mut ParsingState) -> (r: Result<(), ClickError>)
        requires
            self.wf(),
            old(state).wf(),
        ensures
            final(state).wf(),
            rel_state(self.spec_args_phase(old(state)@), r, final(state)@),
    {
        let mut all_args: Vec<String> = Vec::new();
        all_args.append(&mut state.largs);
        all_args.append(&mut state.rargs);
        assert(all_args.deep_view() =~= old(state)@.largs + old(state)@.rargs);
        let mut nargs_spec: Vec<i32> = Vec::new();
        let mut j: usize = 0;
        while j < self.args.len()
            invariant
                j <= self.args@.len(),
                nargs_spec@ =~= self.spec_nargs().take(j as int),
            decreases self.args@.len() - j,
        {
            nargs_spec.push(self.args[j].nargs);
            assert(self.spec_nargs().take(j + 1) =~= self.spec_nargs().take(j as int).push(self.args@[j as int].nargs));
            j = j + 1;
        }
        assert(self.spec_nargs().take(self.args@.len() as int) =~= self.spec_nargs());
        let (parsed, remaining) = match unpack_args(all_args.as_slice(), nargs_spec.as_slice()) {
            Ok(x) => x,
            Err(e) => {
                return Err(e);
            },
        };
        let ghost pp = pvs(parsed@);
        let mut idx: usize = 0;
        while idx < self.args.len()
            invariant
                idx <= self.args@.len(),
                state.wf(),
                pp == pvs(parsed@),
                self.spec_args_phase(old(state)@) == match self.spec_store_args(idx as int, pp, state@.opts, state@.order) {
                    Err(e) => Err(e),
                    Ok((opts, order)) => Ok(PState { opts, largs: remaining.deep_view(), rargs: seq![], order }),
                },
            decreases self.args@.len() - idx,
        {
            let d = &self.args[idx];
            if idx < parsed.len() {
                let value = &parsed[idx];
                assert(pp[idx as int] == value@);
                if d.nargs > 1 {
                    match value {
                        ParsedValue::Multiple(vals) => {
                            if vals.len() < d.nargs as usize {
                                let n = i64_to_string(d.nargs as i64);
                                let msg = cat5("Argument '", d.dest.as_str(), "' takes ", n.as_str(), " values.");
                                return Err(ClickError::bad_argument_usage(msg));
                            }
                        },
                        _ => {},
                    }
                }
                let v = value.duplicate();
                let unset = v.is_unset();
                let ghost vg = v;
                let ghost before = state.opts.map();
                state.opts.insert(d.dest.clone(), v);
                proof {
                    lemma_pv_map_insert(before, d.dest@, vg);
                }
                if !unset {
                    let ghost od = state.order.deep_view();
                    state.order.push(d.dest.clone());
                    assert(state.order.deep_view() =~= od.push(d.dest@));
                }
            } else {
                let ghost before = state.opts.map();
                state.opts.insert(d.dest.clone(), ParsedValue::Unset);
                proof {
                    lemma_pv_map_insert(before, d.dest@, ParsedValue::Unset);
                }
            }
            idx = idx + 1;
        }
        state.largs = remaining;
        state.rargs = Vec::new();
        assert(state.rargs.deep_view() =~= Seq::<Seq<char>>::empty());
        Ok(())
    }

    /// Parse command line arguments: options first, then positional arguments.
    /// Returns the values by destination, the arguments left over, and the order in
    /// which parameters were seen.
    pub fn parse_args(&self, args: Vec<String>) -> (r: ParseResult)
        requires
            self.wf(),
        ensures
            self.no_norm() ==> match self.spec_parse(args.deep_view()) {
                Ok(s) => r matches Ok((opts, largs, order)) && opts.wf() && pv_map(opts.map()) == s.opts
                    && largs.deep_view() == s.largs && order.deep_view() == s.order,
                Err(e) => r matches Err(x) && err_view(x) == e,
            },
            r matches Ok((opts, _, _)) ==> opts.wf(),
            exists|out: Result<PState, PErr>|
                #[trigger] self.parse_rel(args.deep_view(), out) && match out {
                    Ok(s) => r matches Ok((opts, largs, order)) && opts.wf() && pv_map(opts.map()) == s.opts
                        && largs.deep_view() == s.largs && order.deep_view() == s.order,
                    Err(e) => r matches Err(x) && err_view(x) == e,
                },
    {
        let ghost av = args.deep_view();
        let mut state = ParsingState { opts: StrMap::new(), largs: Vec::new(), rargs: args, order: Vec::new() };
        proof {
            assert(state.largs.deep_view() =~= Seq::<Seq<char>>::empty());
            assert(state.order.deep_view() =~= Seq::<Seq<char>>::empty());
            assert(pv_map(state.opts.map()) =~= Map::<Seq<char>, PV>::empty());
        }
        let ghost st0 = state@;
        assert(st0 == PState { opts: Map::empty(), largs: seq![], rargs: av, order: seq![] });
        let r1 = self.process_args_for_options(&mut state);
        let ghost m = choose|m: Result<PState, PErr>| #[trigger] self.opts_loop_rel(st0, m) && rel_state(m, r1, state@);
        match r1 {
            Ok(()) => {},
            Err(e) => {
                proof {
                    assert(self.parse_rel(av, m));
                }
                return Err(e);
            },
        }
        let ghost st1 = state@;
        let r2 = self.process_args_for_args(&mut state);
        proof {
            assert(m == Ok::<PState, PErr>(st1));
            assert(self.parse_rel(av, self.spec_args_phase(st1)));
        }
        match r2 {
            Ok(()) => {},
            Err(e) => {
                return Err(e);
            },
        }
        Ok((state.opts, state.largs, state.order))
    }
}

} // verus!
