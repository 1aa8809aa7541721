//! Properties of the library as a whole, proved over the specifications its
//! functions state.

use vstd::prelude::*;
use crate::text::{join_seq, dec_digits, digit_char};
use crate::types::{IntRange, tuple_result, TupleElementType, Value};
use crate::source::{ParameterSource, precedence};
use crate::termui::{Color, code_if, styled, style_codes, stripped, after_sequence, is_ascii_letter, reset_seq};
use crate::parser::{lev, min3, PV, spec_unpack, unpack_loop, count_required, min_int, NARGS_OPTIONAL};
use crate::command::{Command, help_page, usage_of, opt_lines, help_record_of, help_intro, section, arg_lines};
use crate::option::{ClickOption, option_help_record};
use crate::text::{seq_ends_with, seq_contains_seq, seq_has_at};
use crate::context::Context;
use crate::group::{Dispatch, AnyCommand, CommandLike, commands_text, group_help_page, group_usage, visible, sorted_names_of};
use crate::text::seq_starts_with;
use crate::parser::{OptionAction, ParserOption, PState, spec_process_option};
use crate::types::{BoolType, TypeConverter, bool_word};
use crate::text::{lower_of, trim_seq, is_ws, words, words_from, lines, lines_from, strip_cr, lemma_blen_ge_len, blen, lemma_blen_add};
use crate::formatting::{WrapState, wrap_word, wrap_words, wrap_break, wrap_lines, wrap_spec};
use crate::completion::{completes, option_values};

verus! {

// =============================================================================
// Styling and stripping
// =============================================================================

/// No character of `s` is an ASCII letter.
pub open spec fn no_letters(s: Seq<char>) -> bool {
    forall|i: int| 0 <= i < s.len() ==> !is_ascii_letter(#[trigger] s[i])
}

/// `s` holds no escape character.
pub open spec fn no_escape(s: Seq<char>) -> bool {
    forall|i: int| 0 <= i < s.len() ==> #[trigger] s[i] != '\x1b'
}

proof fn lemma_dec_digits_no_letters(n: nat)
    ensures
        no_letters(dec_digits(n)),
    decreases n,
{
    if n >= 10 {
        lemma_dec_digits_no_letters(n / 10);
        let d = digit_char(n % 10);
        assert(48 <= (48 + n % 10) < 58);
        assert(!is_ascii_letter(d));
        assert forall|i: int| 0 <= i < dec_digits(n).len() implies !is_ascii_letter(#[trigger] dec_digits(n)[i]) by {
            if i < dec_digits(n / 10).len() {
                assert(dec_digits(n)[i] == dec_digits(n / 10)[i]);
            }
        }
    } else {
        assert(!is_ascii_letter(digit_char(n)));
    }
}

proof fn lemma_join_no_letters(parts: Seq<Seq<char>>, sep: Seq<char>)
    requires
        no_letters(sep),
        forall|k: int| 0 <= k < parts.len() ==> no_letters(#[trigger] parts[k]),
    ensures
        no_letters(join_seq(parts, sep)),
    decreases parts.len(),
{
    if parts.len() > 1 {
        lemma_join_no_letters(parts.drop_last(), sep);
        let a = join_seq(parts.drop_last(), sep);
        let l = parts.last();
        assert(no_letters(l));
        assert forall|i: int| 0 <= i < (a + sep + l).len() implies !is_ascii_letter(#[trigger] (a + sep + l)[i]) by {
            if i < a.len() {
            } else if i < a.len() + sep.len() {
                assert((a + sep + l)[i] == sep[i - a.len()]);
            } else {
                assert((a + sep + l)[i] == l[i - a.len() - sep.len()]);
            }
        }
    } else if parts.len() == 1 {
        assert(no_letters(parts[0]));
    }
}

/// Every code of `codes` is free of letters.
pub open spec fn codes_no_letters(codes: Seq<Seq<char>>) -> bool {
    forall|k: int| 0 <= k < codes.len() ==> no_letters(#[trigger] codes[k])
}

proof fn lemma_codes_add(a: Seq<Seq<char>>, b: Seq<Seq<char>>)
    requires
        codes_no_letters(a),
        codes_no_letters(b),
    ensures
        codes_no_letters(a + b),
{
    assert forall|k: int| 0 <= k < (a + b).len() implies no_letters(#[trigger] (a + b)[k]) by {
        if k < a.len() {
            assert((a + b)[k] == a[k]);
        } else {
            assert((a + b)[k] == b[k - a.len()]);
        }
    }
}

proof fn lemma_code_if(on: bool, c: Seq<char>)
    requires
        no_letters(c),
    ensures
        codes_no_letters(code_if(on, c)),
{
}

proof fn lemma_color_code(c: Option<Color>, bg: bool)
    ensures
        codes_no_letters(
            match c {
                Some(x) => seq![dec_digits((if bg { x.spec_fg() + 10 } else { x.spec_fg() as int }) as nat)],
                None => seq![],
            },
        ),
{
    match c {
        Some(x) => lemma_dec_digits_no_letters((if bg { x.spec_fg() + 10 } else { x.spec_fg() as int }) as nat),
        None => {},
    }
}

#[verifier::rlimit(40)]
proof fn lemma_style_codes_no_letters(
    fg: Option<Color>,
    bg: Option<Color>,
    bold: bool,
    dim: bool,
    underline: bool,
    overline: bool,
    italic: bool,
    blink: bool,
    strikethrough: bool,
)
    ensures
        codes_no_letters(style_codes(fg, bg, bold, dim, underline, overline, italic, blink, strikethrough)),
{
    let c1 = code_if(bold, seq!['1']);
    let c2 = code_if(dim, seq!['2']);
    let c3 = code_if(italic, seq!['3']);
    let c4 = code_if(underline, seq!['4']);
    let c5 = code_if(blink, seq!['5']);
    let c6 = code_if(overline, seq!['5', '3']);
    let c7 = code_if(strikethrough, seq!['9']);
    let f = match fg {
        Some(c) => seq![dec_digits(c.spec_fg() as nat)],
        None => seq![],
    };
    let b = match bg {
        Some(c) => seq![dec_digits((c.spec_fg() + 10) as nat)],
        None => seq![],
    };
    assert(no_letters(seq!['1']) && no_letters(seq!['2']) && no_letters(seq!['3']) && no_letters(seq!['4']));
    assert(no_letters(seq!['5']) && no_letters(seq!['5', '3']) && no_letters(seq!['9']));
    lemma_code_if(bold, seq!['1']);
    lemma_code_if(dim, seq!['2']);
    lemma_code_if(italic, seq!['3']);
    lemma_code_if(underline, seq!['4']);
    lemma_code_if(blink, seq!['5']);
    lemma_code_if(overline, seq!['5', '3']);
    lemma_code_if(strikethrough, seq!['9']);
    lemma_color_code(fg, false);
    lemma_color_code(bg, true);
    assert(f == match fg {
        Some(x) => seq![dec_digits((if false { x.spec_fg() + 10 } else { x.spec_fg() as int }) as nat)],
        None => seq![],
    });
    lemma_codes_add(c1, c2);
    lemma_codes_add(c1 + c2, c3);
    lemma_codes_add(c1 + c2 + c3, c4);
    lemma_codes_add(c1 + c2 + c3 + c4, c5);
    lemma_codes_add(c1 + c2 + c3 + c4 + c5, c6);
    lemma_codes_add(c1 + c2 + c3 + c4 + c5 + c6, c7);
    lemma_codes_add(c1 + c2 + c3 + c4 + c5 + c6 + c7, f);
    lemma_codes_add(c1 + c2 + c3 + c4 + c5 + c6 + c7 + f, b);
}

proof fn lemma_after_sequence_skips(j: Seq<char>, rest: Seq<char>)
    requires
        no_letters(j),
    ensures
        after_sequence(j + seq!['m'] + rest) == rest,
    decreases j.len(),
{
    if j.len() == 0 {
        assert(j + seq!['m'] + rest =~= seq!['m'] + rest);
        assert((seq!['m'] + rest).drop_first() =~= rest);
    } else {
        assert(!is_ascii_letter(j[0]));
        assert((j + seq!['m'] + rest).drop_first() =~= j.drop_first() + seq!['m'] + rest);
        lemma_after_sequence_skips(j.drop_first(), rest);
    }
}

proof fn lemma_stripped_plain(t: Seq<char>, tail: Seq<char>)
    requires
        no_escape(t),
    ensures
        stripped(t + tail) == t + stripped(tail),
    decreases t.len(),
{
    if t.len() == 0 {
        assert(t + tail =~= tail);
        assert(t + stripped(tail) =~= stripped(tail));
    } else {
        assert(t[0] != '\x1b');
        assert((t + tail)[0] == t[0]);
        assert((t + tail).drop_first() =~= t.drop_first() + tail);
        lemma_stripped_plain(t.drop_first(), tail);
        assert(t + stripped(tail) =~= seq![t[0]] + (t.drop_first() + stripped(tail)));
    }
}

proof fn lemma_strip_styled(text: Seq<char>, codes: Seq<Seq<char>>, reset: bool)
    requires
        no_escape(text),
        codes_no_letters(codes),
    ensures
        stripped(styled(text, codes, reset)) == text,
{
    let tail: Seq<char> = if reset {
        reset_seq()
    } else {
        seq![]
    };
    if codes.len() == 0 {
        lemma_stripped_plain(text, seq![]);
        assert(text + seq![] =~= text);
        assert(stripped(seq![]) =~= seq![]);
        assert(text + stripped(seq![]) =~= text);
    } else {
        let j = join_seq(codes, seq![';']);
        assert(no_letters(seq![';']));
        lemma_join_no_letters(codes, seq![';']);
        let s = seq!['\x1b', '['] + j + seq!['m'] + text + tail;
        assert(styled(text, codes, reset) == s);
        assert(s.skip(2) =~= j + seq!['m'] + (text + tail));
        lemma_after_sequence_skips(j, text + tail);
        assert(s[0] == '\x1b' && s[1] == '[');
        lemma_stripped_plain(text, tail);
        if reset {
            let r = reset_seq();
            assert(r.skip(2) =~= seq!['0'] + seq!['m'] + seq![]);
            assert(no_letters(seq!['0']));
            lemma_after_sequence_skips(seq!['0'], seq![]);
            assert(stripped(seq![]) =~= seq![]);
            assert(stripped(r) =~= seq![]);
        } else {
            assert(stripped(tail) =~= seq![]);
        }
        assert(text + stripped(tail) =~= text);
    }
}

/// Removing the escape sequences from a styled text gives the text back, for
/// every style and every text that holds no escape character itself.
pub proof fn law_strip_undoes_style(
    text: Seq<char>,
    fg: Option<Color>,
    bg: Option<Color>,
    bold: bool,
    dim: bool,
    underline: bool,
    overline: bool,
    italic: bool,
    blink: bool,
    strikethrough: bool,
    reset: bool,
)
    requires
        no_escape(text),
    ensures
        stripped(styled(text, style_codes(fg, bg, bold, dim, underline, overline, italic, blink, strikethrough), reset))
            == text,
{
    lemma_style_codes_no_letters(fg, bg, bold, dim, underline, overline, italic, blink, strikethrough);
    lemma_strip_styled(
        text,
        style_codes(fg, bg, bold, dim, underline, overline, italic, blink, strikethrough),
        reset,
    );
}

proof fn lemma_stripped_no_escape(s: Seq<char>)
    ensures
        no_escape(stripped(s)),
    decreases s.len(),
{
    if s.len() > 0 {
        if s[0] == '\x1b' {
            if s.len() > 1 && s[1] == '[' {
                crate::termui::lemma_after_sequence_len(s.skip(2));
                lemma_stripped_no_escape(after_sequence(s.skip(2)));
            } else {
                lemma_stripped_no_escape(s.drop_first());
            }
        } else {
            lemma_stripped_no_escape(s.drop_first());
            let r = seq![s[0]] + stripped(s.drop_first());
            assert forall|i: int| 0 <= i < r.len() implies #[trigger] r[i] != '\x1b' by {
                if i > 0 {
                    assert(r[i] == stripped(s.drop_first())[i - 1]);
                }
            }
        }
    }
}

/// Removing escape sequences twice removes no more than doing it once.
pub proof fn law_strip_is_idempotent(s: Seq<char>)
    ensures
        stripped(stripped(s)) == stripped(s),
{
    lemma_stripped_no_escape(s);
    lemma_stripped_plain(stripped(s), seq![]);
    assert(stripped(s) + seq![] =~= stripped(s));
    assert(stripped(seq![]) =~= seq![]);
    assert(stripped(s) + stripped(seq![]) =~= stripped(s));
}

// =============================================================================
// Integer ranges
// =============================================================================

/// Some integer lies in the range.
pub open spec fn range_has_values(r: IntRange) -> bool {
    exists|v: i64| !r.below(v) && !r.above(v)
}

/// Every integer a range accepts lies in it: out-of-range input is refused or,
/// when clamping, moved into the range. (A range holding no integer at all is
/// left out: there clamping has nowhere to go.)
pub proof fn law_range_accepts_only_members(r: IntRange, value: Seq<char>, n: i64)
    requires
        r.spec_convert(value) == Ok::<i64, Seq<char>>(n),
        range_has_values(r),
    ensures
        !r.below(n),
        !r.above(n),
{
    let w = choose|v: i64| !r.below(v) && !r.above(v);
    assert(!r.below(w) && !r.above(w));
}

// =============================================================================
// Tuples
// =============================================================================

/// A tuple that converts gives exactly one value per element type, in order.
pub proof fn law_tuple_gives_one_value_per_element(
    types: Seq<TupleElementType>,
    vals: Seq<Seq<char>>,
    out: Result<Vec<Value>, String>,
)
    requires
        tuple_result(types, vals, out),
        out is Ok,
    ensures
        out->Ok_0@.len() == types.len(),
        vals.len() == types.len(),
{
}

// =============================================================================
// Sources of values
// =============================================================================

/// A value the user gave (on the command line or at a prompt) takes precedence
/// over one from any other source, and the environment over both defaults.
pub proof fn law_user_input_takes_precedence(a: ParameterSource, b: ParameterSource)
    ensures
        (a == ParameterSource::CommandLine || a == ParameterSource::Prompt) && !(b == ParameterSource::CommandLine
            || b == ParameterSource::Prompt) ==> precedence(a) > precedence(b),
        a == ParameterSource::Environment && (b == ParameterSource::DefaultMap || b == ParameterSource::Default)
            ==> precedence(a) > precedence(b),
        precedence(ParameterSource::DefaultMap) > precedence(ParameterSource::Default),
{
}

// =============================================================================
// Edit distance
// =============================================================================

/// The edit distance is symmetric: turning `a` into `b` costs what turning
/// `b` into `a` does.
pub proof fn law_edit_distance_symmetric(a: Seq<char>, b: Seq<char>)
    ensures
        lev(a, b) == lev(b, a),
    decreases a.len() + b.len(),
{
    if a.len() > 0 && b.len() > 0 {
        law_edit_distance_symmetric(a.drop_last(), b);
        law_edit_distance_symmetric(a, b.drop_last());
        law_edit_distance_symmetric(a.drop_last(), b.drop_last());
    }
}

/// The edit distance of two strings is zero exactly when they are equal.
pub proof fn law_edit_distance_zero(a: Seq<char>, b: Seq<char>)
    ensures
        lev(a, b) == 0 <==> a == b,
    decreases a.len() + b.len(),
{
    if a.len() > 0 && b.len() > 0 {
        law_edit_distance_zero(a.drop_last(), b.drop_last());
        if a == b {
            assert(a.drop_last() == b.drop_last());
        }
        if lev(a, b) == 0 {
            assert(lev(a.drop_last(), b.drop_last()) == 0 && a.last() == b.last());
            assert(a =~= a.drop_last().push(a.last()));
            assert(b =~= b.drop_last().push(b.last()));
        }
    } else if a.len() == 0 && b.len() == 0 {
        assert(a =~= b);
    }
}

// =============================================================================
// Help pages
// =============================================================================

/// A command's help page starts with its usage line.
pub proof fn law_help_starts_with_usage(c: Command, ctx: Context)
    ensures
        help_page(c, ctx).len() > 0,
        help_page(c, ctx)[0] == usage_of(c, ctx),
{
}

/// Some of the names is that of a command that is not hidden.
pub open spec fn some_visible(m: Map<Seq<char>, AnyCommand>, names: Seq<Seq<char>>) -> bool {
    exists|i: int| 0 <= i < names.len() && !m[#[trigger] names[i]].spec_hidden()
}

proof fn lemma_visible_nonempty(m: Map<Seq<char>, AnyCommand>, names: Seq<Seq<char>>)
    ensures
        visible(m, names).len() > 0 <==> some_visible(m, names),
    decreases names.len(),
{
    if names.len() > 0 {
        let init = names.drop_last();
        lemma_visible_nonempty(m, init);
        if some_visible(m, init) {
            let i = choose|i: int| 0 <= i < init.len() && !m[#[trigger] init[i]].spec_hidden();
            assert(names[i] == init[i]);
        }
        if some_visible(m, names) {
            let i = choose|i: int| 0 <= i < names.len() && !m[#[trigger] names[i]].spec_hidden();
            if i < names.len() - 1 {
                assert(init[i] == names[i]);
            }
        }
        if !m[names.last()].spec_hidden() {
            assert(!m[names[names.len() - 1]].spec_hidden());
        }
    }
}

proof fn lemma_join_starts(parts: Seq<Seq<char>>, sep: Seq<char>)
    requires
        parts.len() > 0,
    ensures
        seq_starts_with(join_seq(parts, sep), parts[0]),
    decreases parts.len(),
{
    if parts.len() > 1 {
        let init = parts.drop_last();
        lemma_join_starts(init, sep);
        assert(init[0] == parts[0]);
        let j = join_seq(init, sep);
        let k = parts[0].len() as int;
        assert(join_seq(parts, sep) == j + sep + parts.last());
        assert((j + sep + parts.last()).subrange(0, k) =~= j.subrange(0, k));
    } else {
        assert(parts[0].subrange(0, parts[0].len() as int) =~= parts[0]);
    }
}

/// A group's help page starts with its usage line, and has a commands section
/// exactly when one of its commands is not hidden; the section starts with
/// `Commands:`.
pub proof fn law_group_help_structure<D: Dispatch>(d: D, ctx: Context, names: Seq<Seq<char>>)
    requires
        sorted_names_of(names, d.spec_table().dom()),
    ensures
        ({
            let commands = commands_text(d.spec_table(), names);
            let page = group_help_page(d.spec_base(), ctx, commands);
            &&& page.len() > 0
            &&& page[0] == group_usage(d.spec_base(), ctx)
            &&& (commands.len() > 0 <==> some_visible(d.spec_table(), names))
            &&& commands.len() > 0 ==> seq_starts_with(commands, "Commands:"@) && page.contains(commands)
        }),
{
    let m = d.spec_table();
    lemma_visible_nonempty(m, names);
    let vis = visible(m, names);
    let commands = commands_text(m, names);
    let g = d.spec_base();
    if vis.len() > 0 {
        let parts = seq!["Commands:"@] + vis.map_values(|n: Seq<char>| crate::group::command_line(m, crate::group::max_blen(vis), n));
        lemma_join_starts(parts, "\n"@);
        assert(parts[0] == "Commands:"@);
        reveal_strlit("Commands:");
        assert(commands.len() > 0);
        let page = group_help_page(g, ctx, commands);
        let c = g.command;
        let ol = crate::command::opt_lines(c.options@) + match crate::command::help_record_of(c, ctx) {
            Some((a, b)) => seq!["  "@ + a + "  "@ + b],
            None => Seq::<Seq<char>>::empty(),
        };
        let head = seq![group_usage(g, ctx)] + (if c.help is Some {
            crate::command::help_intro(c)
        } else {
            Seq::<Seq<char>>::empty()
        }) + crate::command::section("Options:"@, ol);
        let tail = match c.epilog {
            Some(e) => seq![Seq::<char>::empty(), e@],
            None => Seq::<Seq<char>>::empty(),
        };
        assert(page == head + seq![Seq::<char>::empty(), commands] + tail);
        assert(page[(head.len() + 1) as int] == commands);
        assert(page.contains(commands));
    }
}

// =============================================================================
// Unpacking arguments
// =============================================================================

/// The words a list of unpacked values holds, in order.
pub open spec fn pv_words(vals: Seq<PV>) -> Seq<Seq<char>>
    decreases vals.len(),
{
    if vals.len() == 0 {
        seq![]
    } else {
        pv_words(vals.drop_last()) + match vals.last() {
            PV::Single(w) => seq![w],
            PV::Multiple(ws) => ws,
            _ => Seq::<Seq<char>>::empty(),
        }
    }
}

proof fn lemma_pv_words_add(a: Seq<PV>, b: Seq<PV>)
    ensures
        pv_words(a + b) == pv_words(a) + pv_words(b),
    decreases b.len(),
{
    if b.len() == 0 {
        assert(a + b =~= a);
        assert(pv_words(a) + pv_words(b) =~= pv_words(a));
    } else {
        lemma_pv_words_add(a, b.drop_last());
        assert((a + b).drop_last() =~= a + b.drop_last());
        assert((a + b).last() == b.last());
        assert(pv_words(a + b) =~= pv_words(a) + pv_words(b));
    }
}

proof fn lemma_pv_words_one(v: PV)
    ensures
        pv_words(seq![v]) == match v {
            PV::Single(w) => seq![w],
            PV::Multiple(ws) => ws,
            _ => Seq::<Seq<char>>::empty(),
        },
{
    assert(seq![v].drop_last() =~= Seq::<PV>::empty());
    assert(pv_words(Seq::<PV>::empty()) + pv_words(seq![v]) =~= pv_words(seq![v]));
}

/// The values a step takes and the words it leaves: the words left, followed by
/// those taken, are the words before (from the back).
proof fn lemma_unpack_back(args: Seq<Seq<char>>, ns: Seq<i32>, res: Seq<PV>, p: int)
    ensures
        unpack_loop(args, ns, res, Some(p)) matches Ok((rem, r2, s2)) ==> r2.len() >= res.len() && r2.take(
            res.len() as int,
        ) == res && rem + pv_words(r2.skip(res.len() as int).reverse()) == args && s2 == Some(p),
    decreases ns.len(),
{
    if ns.len() == 0 {
        assert(res.skip(res.len() as int).reverse() =~= Seq::<PV>::empty());
        assert(res.take(res.len() as int) =~= res);
        assert(args + pv_words(Seq::<PV>::empty()) =~= args);
    } else {
        let n = ns.last();
        let rest = ns.drop_last();
        if n == 1 || (n == NARGS_OPTIONAL && args.len() > count_required(rest)) {
            if args.len() == 0 {
                lemma_unpack_back(args, rest, res.push(PV::Unset), p);
                lemma_back_step(args, args, rest, res, PV::Unset, p);
            } else {
                lemma_unpack_back(args.drop_last(), rest, res.push(PV::Single(args.last())), p);
                assert(args.drop_last() + seq![args.last()] =~= args);
                lemma_back_step(args, args.drop_last(), rest, res, PV::Single(args.last()), p);
            }
        } else if n == NARGS_OPTIONAL {
            lemma_unpack_back(args, rest, res.push(PV::Unset), p);
            lemma_back_step(args, args, rest, res, PV::Unset, p);
        } else if n > 1 {
            let k = min_int(n as int, args.len() as int);
            let vals = args.subrange(args.len() - k, args.len() as int);
            let args2 = args.take(args.len() - k);
            let v = if k == 0 { PV::Unset } else { PV::Multiple(vals) };
            lemma_unpack_back(args2, rest, res.push(v), p);
            assert(args2 + vals =~= args);
            if k == 0 {
                assert(args2 =~= args);
            }
            lemma_back_step(args, args2, rest, res, v, p);
        } else if n == -1 {
        } else {
            lemma_unpack_back(args, rest, res, p);
        }
    }
}

/// One step from the back: the value `v` was taken, leaving `args2`.
proof fn lemma_back_step(args: Seq<Seq<char>>, args2: Seq<Seq<char>>, rest: Seq<i32>, res: Seq<PV>, v: PV, p: int)
    requires
        args2 + match v {
            PV::Single(w) => seq![w],
            PV::Multiple(ws) => ws,
            _ => Seq::<Seq<char>>::empty(),
        } == args,
        unpack_loop(args2, rest, res.push(v), Some(p)) matches Ok((rem, r2, s2)) ==> r2.len() >= res.len() + 1
            && r2.take(res.len() + 1 as int) == res.push(v) && rem + pv_words(r2.skip(res.len() + 1 as int).reverse()) == args2
            && s2 == Some(p),
    ensures
        unpack_loop(args2, rest, res.push(v), Some(p)) matches Ok((rem, r2, s2)) ==> r2.len() >= res.len() && r2.take(
            res.len() as int,
        ) == res && rem + pv_words(r2.skip(res.len() as int).reverse()) == args && s2 == Some(p),
{
    if let Ok((rem, r2, s2)) = unpack_loop(args2, rest, res.push(v), Some(p)) {
        let l = res.len() as int;
        assert(r2.take(l) =~= res.push(v).take(l));
        assert(res.push(v).take(l) =~= res);
        assert(r2[l] == res.push(v)[l]);
        let tail = r2.skip(l + 1).reverse();
        assert(r2.skip(l).reverse() =~= tail + seq![v]);
        lemma_pv_words_add(tail, seq![v]);
        lemma_pv_words_one(v);
        assert(rem + pv_words(r2.skip(l).reverse()) =~= (rem + pv_words(tail)) + match v {
            PV::Single(w) => seq![w],
            PV::Multiple(ws) => ws,
            _ => Seq::<Seq<char>>::empty(),
        });
    }
}

/// The words a value holds.
pub open spec fn one_words(v: PV) -> Seq<Seq<char>> {
    match v {
        PV::Single(w) => seq![w],
        PV::Multiple(ws) => ws,
        _ => Seq::<Seq<char>>::empty(),
    }
}

/// One step from the front: the value `v` was taken, leaving `args2`.
proof fn lemma_front_step(args: Seq<Seq<char>>, args2: Seq<Seq<char>>, rest: Seq<i32>, res: Seq<PV>, v: PV)
    requires
        one_words(v) + args2 == args,
        unpack_loop(args2, rest, res.push(v), None) matches Ok((rem, r2, s2)) ==> front_done(res.push(v), args2, rem, r2, s2),
    ensures
        unpack_loop(args2, rest, res.push(v), None) matches Ok((rem, r2, s2)) ==> front_done(res, args, rem, r2, s2),
{
    if let Ok((rem, r2, s2)) = unpack_loop(args2, rest, res.push(v), None) {
        assert(res.push(v).drop_last() =~= res);
        assert(pv_words(res.push(v)) == pv_words(res) + one_words(v));
        assert(pv_words(res.push(v)) + args2 =~= pv_words(res) + (one_words(v) + args2));
    }
}

/// What the front pass leaves: without a variadic value, the values and the
/// words left are the words before; with one at `p`, the values before it, the
/// words left and the values after it (taken from the back) are.
pub open spec fn front_done(res: Seq<PV>, args: Seq<Seq<char>>, rem: Seq<Seq<char>>, r2: Seq<PV>, s2: Option<int>) -> bool {
    match s2 {
        None => pv_words(r2) + rem == pv_words(res) + args,
        Some(p) => res.len() <= p < r2.len() && r2[p] == PV::Unset && pv_words(r2.take(p)) + rem + pv_words(
            r2.skip(p + 1).reverse(),
        ) == pv_words(res) + args,
    }
}

proof fn lemma_unpack_front(args: Seq<Seq<char>>, ns: Seq<i32>, res: Seq<PV>)
    ensures
        unpack_loop(args, ns, res, None) matches Ok((rem, r2, s2)) ==> front_done(res, args, rem, r2, s2),
    decreases ns.len(),
{
    if ns.len() == 0 {
    } else {
        let n = ns[0];
        let rest = ns.drop_first();
        if n == 1 || (n == NARGS_OPTIONAL && args.len() > count_required(rest)) {
            if args.len() == 0 {
                lemma_unpack_front(args, rest, res.push(PV::Unset));
                lemma_front_step(args, args, rest, res, PV::Unset);
            } else {
                lemma_unpack_front(args.drop_first(), rest, res.push(PV::Single(args[0])));
                assert(seq![args[0]] + args.drop_first() =~= args);
                lemma_front_step(args, args.drop_first(), rest, res, PV::Single(args[0]));
            }
        } else if n == NARGS_OPTIONAL {
            lemma_unpack_front(args, rest, res.push(PV::Unset));
            lemma_front_step(args, args, rest, res, PV::Unset);
        } else if n > 1 {
            let k = min_int(n as int, args.len() as int);
            let vals = args.take(k);
            let args2 = args.skip(k);
            let v = if k == 0 { PV::Unset } else { PV::Multiple(vals) };
            lemma_unpack_front(args2, rest, res.push(v));
            assert(vals + args2 =~= args);
            if k == 0 {
                assert(args2 =~= args);
            }
            lemma_front_step(args, args2, rest, res, v);
        } else if n == -1 {
            let r1 = res.push(PV::Unset);
            lemma_unpack_back(args, rest, r1, res.len() as int);
            if let Ok((rem, r2, s2)) = unpack_loop(args, rest, r1, Some(res.len() as int)) {
                let p = res.len() as int;
                assert(r2.take(p + 1) == r1);
                assert(r2[p] == r1[p]);
                assert(r2.take(p) =~= r1.take(p));
                assert(r1.take(p) =~= res);
                assert(pv_words(r2.take(p)) + rem + pv_words(r2.skip(p + 1).reverse()) =~= pv_words(res) + (rem
                    + pv_words(r2.skip(p + 1).reverse())));
            }
        } else {
            lemma_unpack_front(args, rest, res);
        }
    }
}

/// Unpacking loses and invents no word: the words of the values, followed by
/// the words left over, are the words given.
pub proof fn law_unpack_keeps_words(args: Seq<Seq<char>>, ns: Seq<i32>)
    ensures
        spec_unpack(args, ns) matches Ok((vals, rem)) ==> pv_words(vals) + rem == args,
{
    lemma_unpack_front(args, ns, seq![]);
    assert(pv_words(Seq::<PV>::empty()) + args =~= args);
    if let Ok((rem, r2, s2)) = unpack_loop(args, ns, seq![], None) {
        if let Some(p) = s2 {
            let res2 = r2.update(p, PV::Multiple(rem));
            assert(res2.take(p + 1) =~= r2.take(p).push(PV::Multiple(rem)));
            assert(res2.skip(p + 1) =~= r2.skip(p + 1));
            let vals = res2.take(p + 1) + res2.skip(p + 1).reverse();
            lemma_pv_words_add(res2.take(p + 1), res2.skip(p + 1).reverse());
            lemma_pv_words_add(r2.take(p), seq![PV::Multiple(rem)]);
            lemma_pv_words_one(PV::Multiple(rem));
            assert(r2.take(p).push(PV::Multiple(rem)) =~= r2.take(p) + seq![PV::Multiple(rem)]);
            assert(pv_words(vals) + Seq::<Seq<char>>::empty() =~= pv_words(r2.take(p)) + rem + pv_words(
                r2.skip(p + 1).reverse(),
            ));
        }
    }
}

// =============================================================================
// Help layout
// =============================================================================

/// The help line of an option: its names and its help, each indented by two.
pub open spec fn option_line(o: ClickOption) -> Seq<char> {
    "  "@ + option_help_record(o).0 + "  "@ + option_help_record(o).1
}

proof fn lemma_opt_lines(os: Seq<ClickOption>)
    ensures
        forall|k: int| 0 <= k < os.len() && !os[k].config.hidden ==> opt_lines(os).contains(#[trigger] option_line(os[k])),
        forall|l: Seq<char>| #[trigger] opt_lines(os).contains(l) ==> exists|k: int|
            0 <= k < os.len() && !os[k].config.hidden && l == option_line(os[k]),
    decreases os.len(),
{
    if os.len() > 0 {
        let init = os.drop_last();
        lemma_opt_lines(init);
        let rest = opt_lines(init);
        assert forall|k: int| 0 <= k < os.len() && !os[k].config.hidden implies opt_lines(os).contains(
            #[trigger] option_line(os[k]),
        ) by {
            if k < os.len() - 1 {
                assert(init[k] == os[k]);
                assert(opt_lines(init).contains(option_line(init[k])));
                let j = choose|j: int| 0 <= j < rest.len() && rest[j] == option_line(init[k]);
                if !os.last().config.hidden {
                    assert(rest.push(option_line(os.last()))[j] == rest[j]);
                }
            } else {
                assert(rest.push(option_line(os.last()))[rest.len() as int] == option_line(os[k]));
            }
        }
        assert forall|l: Seq<char>| #[trigger] opt_lines(os).contains(l) implies exists|k: int|
            0 <= k < os.len() && !os[k].config.hidden && l == option_line(os[k]) by {
            let j = choose|j: int| 0 <= j < opt_lines(os).len() && opt_lines(os)[j] == l;
            if j < rest.len() {
                assert(opt_lines(os)[j] == rest[j]);
                assert(rest.contains(l));
                let k = choose|k: int| 0 <= k < init.len() && !init[k].config.hidden && l == option_line(init[k]);
                assert(init[k] == os[k]);
            } else {
                assert(l == option_line(os[os.len() - 1]));
            }
        }
    }
}

proof fn lemma_join_two(x: Seq<char>, y: Seq<char>, sep: Seq<char>)
    ensures
        join_seq(seq![x, y], sep) == x + sep + y,
{
    assert(seq![x, y].drop_last() =~= seq![x]);
    assert(join_seq(seq![x], sep) == x);
}

proof fn lemma_join_append(a: Seq<Seq<char>>, b: Seq<Seq<char>>, sep: Seq<char>)
    requires
        a.len() > 0,
        b.len() > 0,
    ensures
        join_seq(a + b, sep) == join_seq(a, sep) + sep + join_seq(b, sep),
    decreases b.len(),
{
    assert((a + b).drop_last() =~= a + b.drop_last());
    if b.len() == 1 {
        assert((a + b).drop_last() =~= a);
    } else {
        lemma_join_append(a, b.drop_last(), sep);
    }
}

/// A command's help page: the usage line first; in the options section one
/// line `  names  help` for each option that is not hidden, and no other
/// option line; and, with an epilog, the text ends with an empty line and the
/// epilog.
pub proof fn law_help_layout(c: Command, ctx: Context)
    ensures
        help_page(c, ctx)[0] == usage_of(c, ctx),
        forall|k: int|
            0 <= k < c.options@.len() && !c.options@[k].config.hidden ==> help_page(c, ctx).contains(
                #[trigger] option_line(c.options@[k]),
            ),
        forall|l: Seq<char>| #[trigger] opt_lines(c.options@).contains(l) ==> exists|k: int|
            0 <= k < c.options@.len() && !c.options@[k].config.hidden && l == option_line(c.options@[k]),
        c.epilog matches Some(e) ==> seq_ends_with(join_seq(help_page(c, ctx), "\n"@), "\n\n"@ + e@),
{
    lemma_opt_lines(c.options@);
    let ol = opt_lines(c.options@) + match help_record_of(c, ctx) {
        Some((a, b)) => seq!["  "@ + a + "  "@ + b],
        None => Seq::<Seq<char>>::empty(),
    };
    let head = seq![usage_of(c, ctx)] + help_intro(c);
    let opts = section("Options:"@, ol);
    let rest = section("Arguments:"@, arg_lines(c.arguments@)) + match c.epilog {
        Some(e) => seq![Seq::<char>::empty(), e@],
        None => Seq::<Seq<char>>::empty(),
    };
    let page = help_page(c, ctx);
    assert(page =~= head + opts + rest);
    assert forall|k: int| 0 <= k < c.options@.len() && !c.options@[k].config.hidden implies page.contains(
        #[trigger] option_line(c.options@[k]),
    ) by {
        let l = option_line(c.options@[k]);
        assert(opt_lines(c.options@).contains(l));
        let j = choose|j: int| 0 <= j < opt_lines(c.options@).len() && opt_lines(c.options@)[j] == l;
        assert(ol[j] == l);
        assert(opts[j + 2] == l);
        assert(page[head.len() + j + 2] == l);
    }
    if let Some(e) = c.epilog {
        let n = page.len();
        assert(page[n - 1] == e@ && page[n - 2] == Seq::<char>::empty());
        let front = page.subrange(0, n - 2);
        assert(front.len() > 0);
        assert(page =~= front + seq![Seq::<char>::empty(), e@]);
        lemma_join_append(front, seq![Seq::<char>::empty(), e@], "\n"@);
        lemma_join_two(Seq::<char>::empty(), e@, "\n"@);
        let whole = join_seq(page, "\n"@);
        reveal_strlit("\n");
        reveal_strlit("\n\n");
        assert(whole =~= join_seq(front, "\n"@) + ("\n\n"@ + e@));
        assert(whole.subrange(whole.len() - ("\n\n"@ + e@).len(), whole.len() as int) =~= "\n\n"@ + e@);
    }
}

/// A group's help text (as `get_help_with_commands` gives it) starts with the
/// group's usage line; when one of its commands is not hidden, the commands
/// section follows an empty line (`\n\n` then the section, which starts with
/// `Commands:`); when none is, there is no commands section.
#[verifier::rlimit(50)]
pub proof fn law_group_help_text<D: Dispatch>(d: D, ctx: Context, r: Seq<char>, names: Seq<Seq<char>>)
    requires
        sorted_names_of(names, d.spec_table().dom()),
        r == join_seq(group_help_page(d.spec_base(), ctx, commands_text(d.spec_table(), names)), "\n"@),
    ensures
        seq_starts_with(r, group_usage(d.spec_base(), ctx)),
        some_visible(d.spec_table(), names) ==> seq_starts_with(commands_text(d.spec_table(), names), "Commands:"@)
            && seq_contains_seq(r, "\n\n"@ + commands_text(d.spec_table(), names)),
        !some_visible(d.spec_table(), names) ==> commands_text(d.spec_table(), names).len() == 0,
{
    law_group_help_structure(d, ctx, names);
    let g = d.spec_base();
    let commands = commands_text(d.spec_table(), names);
    let page = group_help_page(g, ctx, commands);
    lemma_join_starts(page, "\n"@);
    if commands.len() > 0 {
        let c = g.command;
        let ol = crate::command::opt_lines(c.options@) + match crate::command::help_record_of(c, ctx) {
            Some((a, b)) => seq!["  "@ + a + "  "@ + b],
            None => Seq::<Seq<char>>::empty(),
        };
        let head = seq![group_usage(g, ctx)] + (if c.help is Some {
            crate::command::help_intro(c)
        } else {
            Seq::<Seq<char>>::empty()
        }) + crate::command::section("Options:"@, ol);
        let tail = match c.epilog {
            Some(e) => seq![Seq::<char>::empty(), e@],
            None => Seq::<Seq<char>>::empty(),
        };
        let mid = seq![Seq::<char>::empty(), commands];
        assert(page =~= head + (mid + tail));
        lemma_join_append(head, mid + tail, "\n"@);
        reveal_strlit("\n");
        reveal_strlit("\n\n");
        let jh = join_seq(head, "\n"@);
        let after = if tail.len() > 0 {
            lemma_join_append(mid, tail, "\n"@);
            "\n"@ + join_seq(tail, "\n"@)
        } else {
            assert(mid + tail =~= mid);
            Seq::<char>::empty()
        };
        lemma_join_two(Seq::<char>::empty(), commands, "\n"@);
        assert(join_seq(mid + tail, "\n"@) =~= "\n"@ + commands + after);
        assert(r =~= jh + ("\n\n"@ + commands) + after);
        let i = jh.len() as int;
        assert(r.subrange(i, i + ("\n\n"@ + commands).len()) =~= "\n\n"@ + commands);
        assert(seq_has_at(r, "\n\n"@ + commands, i));
    }
    assert(seq_starts_with(r, page[0]));
}

// =============================================================================
// Parsing: a stored option keeps its last value
// =============================================================================

/// An option that stores its value maps its destination to the value just
/// given, whatever the destination held before, and leaves every other
/// destination as it was.
pub proof fn law_store_keeps_latest_value(o: ParserOption, v: PV, st: PState)
    requires
        o.action == OptionAction::Store,
    ensures
        spec_process_option(o, v, st).opts.contains_key(o.dest@),
        spec_process_option(o, v, st).opts[o.dest@] == v,
        forall|k: Seq<char>| k != o.dest@ ==> (#[trigger] spec_process_option(o, v, st).opts.contains_key(k)
            == st.opts.contains_key(k)),
        forall|k: Seq<char>| k != o.dest@ && st.opts.contains_key(k) ==> #[trigger] spec_process_option(o, v, st).opts[k]
            == st.opts[k],
{
}

/// Given twice, an option that stores its value ends with the second value:
/// the last occurrence wins.
pub proof fn law_store_last_occurrence_wins(o: ParserOption, first: PV, second: PV, st: PState)
    requires
        o.action == OptionAction::Store,
    ensures
        spec_process_option(o, second, spec_process_option(o, first, st)).opts[o.dest@] == second,
{
    law_store_keeps_latest_value(o, first, st);
    law_store_keeps_latest_value(o, second, spec_process_option(o, first, st));
}

/// A flag that stores a constant maps its destination to that constant (or to
/// `true` when it has none), whatever was there before.
pub proof fn law_store_const_sets_constant(o: ParserOption, v: PV, st: PState)
    requires
        o.action == OptionAction::StoreConst,
    ensures
        spec_process_option(o, v, st).opts[o.dest@] == match o.const_value {
            Some(c) => PV::Single(c@),
            None => PV::Flag(true),
        },
{
}

/// An option that appends adds the value given after the values already
/// collected for its destination, keeping them in order; the first one starts
/// the list.
pub proof fn law_append_adds_at_end(o: ParserOption, x: Seq<char>, st: PState)
    requires
        o.action == OptionAction::Append,
        !st.opts.contains_key(o.dest@) || st.opts[o.dest@] is Multiple,
    ensures
        spec_process_option(o, PV::Single(x), st).opts[o.dest@] == PV::Multiple(
            if st.opts.contains_key(o.dest@) { st.opts[o.dest@]->Multiple_0 } else { seq![] }.push(x),
        ),
{
}

/// A counting option raises its destination's count by one; the first
/// occurrence counts one.
pub proof fn law_count_adds_one(o: ParserOption, v: PV, st: PState, n: nat)
    requires
        o.action == OptionAction::Count,
        st.opts.contains_key(o.dest@) ==> st.opts[o.dest@] == PV::Count(n),
        !st.opts.contains_key(o.dest@) ==> n == 0,
        n < usize::MAX,
    ensures
        spec_process_option(o, v, st).opts[o.dest@] == PV::Count(n + 1),
{
}

// =============================================================================
// Booleans
// =============================================================================

/// The words read as true.
pub open spec fn true_words() -> Seq<Seq<char>> {
    seq!["1"@, "true"@, "yes"@, "on"@, "t"@, "y"@]
}

/// The words read as false.
pub open spec fn false_words() -> Seq<Seq<char>> {
    seq!["0"@, "false"@, "no"@, "off"@, "f"@, "n"@, ""@]
}

/// Each of `1, true, yes, on, t, y` reads as true, each of `0, false, no, off,
/// f, n` and the empty word as false, and no other word reads as a boolean.
pub proof fn law_bool_words(w: Seq<char>)
    ensures
        true_words().contains(w) <==> bool_word(w) == Some(true),
        false_words().contains(w) <==> bool_word(w) == Some(false),
        bool_word(w) is None <==> !true_words().contains(w) && !false_words().contains(w),
{
    reveal_strlit("1");
    reveal_strlit("true");
    reveal_strlit("yes");
    reveal_strlit("on");
    reveal_strlit("t");
    reveal_strlit("y");
    reveal_strlit("0");
    reveal_strlit("false");
    reveal_strlit("no");
    reveal_strlit("off");
    reveal_strlit("f");
    reveal_strlit("n");
    reveal_strlit("");
    let tw = true_words();
    let fw = false_words();
    if tw.contains(w) {
        let k = choose|k: int| 0 <= k < tw.len() && tw[k] == w;
        assert(w == "1"@ || w == "true"@ || w == "yes"@ || w == "on"@ || w == "t"@ || w == "y"@) by {
            assert(k == 0 || k == 1 || k == 2 || k == 3 || k == 4 || k == 5);
        }
    }
    if fw.contains(w) {
        let k = choose|k: int| 0 <= k < fw.len() && fw[k] == w;
        assert(w == "0"@ || w == "false"@ || w == "no"@ || w == "off"@ || w == "f"@ || w == "n"@ || w == ""@) by {
            assert(k == 0 || k == 1 || k == 2 || k == 3 || k == 4 || k == 5 || k == 6);
        }
        assert("1"@[0] == '1' && "true"@.len() == 4 && "yes"@.len() == 3 && "on"@[0] == 'o' && "t"@[0] == 't' && "y"@[0] == 'y');
        assert("yes"@[0] == 'y' && "on"@.len() == 2 && "1"@.len() == 1 && "t"@.len() == 1 && "y"@.len() == 1);
        if w == "0"@ { assert(w[0] == '0' && w.len() == 1); }
        else if w == "false"@ { assert(w.len() == 5); }
        else if w == "no"@ { assert(w[0] == 'n' && w.len() == 2); }
        else if w == "off"@ { assert(w[0] == 'o' && w.len() == 3); }
        else if w == "f"@ { assert(w[0] == 'f' && w.len() == 1); }
        else if w == "n"@ { assert(w[0] == 'n' && w.len() == 1); }
        else { assert(w.len() == 0); }
        assert(w != "1"@ && w != "true"@ && w != "yes"@ && w != "on"@ && w != "t"@ && w != "y"@);
    }
    if bool_word(w) == Some(true) {
        if w == "1"@ { assert(tw[0] == w); }
        else if w == "true"@ { assert(tw[1] == w); }
        else if w == "yes"@ { assert(tw[2] == w); }
        else if w == "on"@ { assert(tw[3] == w); }
        else if w == "t"@ { assert(tw[4] == w); }
        else { assert(tw[5] == w); }
    }
    if bool_word(w) == Some(false) {
        if w == "0"@ { assert(fw[0] == w); }
        else if w == "false"@ { assert(fw[1] == w); }
        else if w == "no"@ { assert(fw[2] == w); }
        else if w == "off"@ { assert(fw[3] == w); }
        else if w == "f"@ { assert(fw[4] == w); }
        else if w == "n"@ { assert(fw[5] == w); }
        else { assert(fw[6] == w); }
    }
}

/// A value whose trimmed, lower-cased word is one of the false words converts
/// to `false`, one of the true words to `true`.
pub proof fn law_bool_conversion(input: Seq<char>, out: Result<Value, String>)
    requires
        BoolType.converts(input, out),
    ensures
        false_words().contains(lower_of(trim_seq(input))) ==> out == Ok::<Value, String>(Value::Bool(false)),
        true_words().contains(lower_of(trim_seq(input))) ==> out == Ok::<Value, String>(Value::Bool(true)),
{
    law_bool_words(lower_of(trim_seq(input)));
}

// =============================================================================
// Colours
// =============================================================================

/// The foreground codes are the standard ANSI ones: black, red, green,
/// yellow, blue, magenta, cyan and white are 30 to 37 in that order, their
/// bright forms 90 to 97, and the reset 39; a background code is ten more.
pub proof fn law_ansi_color_codes()
    ensures
        Color::Black.spec_fg() == 30,
        Color::Red.spec_fg() == 31,
        Color::Green.spec_fg() == 32,
        Color::Yellow.spec_fg() == 33,
        Color::Blue.spec_fg() == 34,
        Color::Magenta.spec_fg() == 35,
        Color::Cyan.spec_fg() == 36,
        Color::White.spec_fg() == 37,
        Color::BrightBlack.spec_fg() == 90,
        Color::BrightRed.spec_fg() == 91,
        Color::BrightGreen.spec_fg() == 92,
        Color::BrightYellow.spec_fg() == 93,
        Color::BrightBlue.spec_fg() == 94,
        Color::BrightMagenta.spec_fg() == 95,
        Color::BrightCyan.spec_fg() == 96,
        Color::BrightWhite.spec_fg() == 97,
        Color::Reset.spec_fg() == 39,
{
}

// =============================================================================
// Completion of options
// =============================================================================

/// Every name of an option, long or short, that starts with `incomplete` is
/// among the option completions.
proof fn lemma_option_values_complete(os: Seq<ClickOption>, incomplete: Seq<char>, i: int, n: Seq<char>)
    requires
        0 <= i < os.len(),
        os[i].long.deep_view().contains(n) || os[i].short.deep_view().contains(n),
        seq_starts_with(n, incomplete),
    ensures
        option_values(os, incomplete).contains(n),
    decreases os.len(),
{
    let pre = option_values(os.drop_last(), incomplete);
    let o = os.last();
    let lf = o.long.deep_view().filter(|x: Seq<char>| seq_starts_with(x, incomplete));
    let sf = o.short.deep_view().filter(|x: Seq<char>| seq_starts_with(x, incomplete));
    assert(option_values(os, incomplete) == pre + lf + sf);
    if i < os.len() - 1 {
        assert(os.drop_last()[i] == os[i]);
        lemma_option_values_complete(os.drop_last(), incomplete, i, n);
        let k = choose|k: int| 0 <= k < pre.len() && pre[k] == n;
        assert((pre + lf + sf)[k] == n);
    } else if o.long.deep_view().contains(n) {
        let j = choose|j: int| 0 <= j < o.long.deep_view().len() && o.long.deep_view()[j] == n;
        o.long.deep_view().lemma_filter_contains(|x: Seq<char>| seq_starts_with(x, incomplete), j);
        let k = choose|k: int| 0 <= k < lf.len() && lf[k] == n;
        assert((pre + lf + sf)[pre.len() + k] == n);
    } else {
        let j = choose|j: int| 0 <= j < o.short.deep_view().len() && o.short.deep_view()[j] == n;
        o.short.deep_view().lemma_filter_contains(|x: Seq<char>| seq_starts_with(x, incomplete), j);
        let k = choose|k: int| 0 <= k < sf.len() && sf[k] == n;
        assert((pre + lf + sf)[pre.len() + lf.len() + k] == n);
    }
}

/// Every option completion starts with `incomplete`.
proof fn lemma_option_values_sound(os: Seq<ClickOption>, incomplete: Seq<char>)
    ensures
        forall|k: int| 0 <= k < option_values(os, incomplete).len()
            ==> seq_starts_with(#[trigger] option_values(os, incomplete)[k], incomplete),
    decreases os.len(),
{
    if os.len() > 0 {
        lemma_option_values_sound(os.drop_last(), incomplete);
        let pre = option_values(os.drop_last(), incomplete);
        let o = os.last();
        let lf = o.long.deep_view().filter(|x: Seq<char>| seq_starts_with(x, incomplete));
        let sf = o.short.deep_view().filter(|x: Seq<char>| seq_starts_with(x, incomplete));
        assert(option_values(os, incomplete) == pre + lf + sf);
        assert forall|k: int| 0 <= k < (pre + lf + sf).len() implies seq_starts_with(#[trigger] (pre + lf + sf)[k], incomplete) by {
            if k < pre.len() {
                assert(seq_starts_with(pre[k], incomplete));
            } else if k < pre.len() + lf.len() {
                o.long.deep_view().lemma_filter_pred(|x: Seq<char>| seq_starts_with(x, incomplete), k - pre.len());
                assert((pre + lf + sf)[k] == lf[k - pre.len()]);
            } else {
                let j = k - pre.len() - lf.len();
                o.short.deep_view().lemma_filter_pred(|x: Seq<char>| seq_starts_with(x, incomplete), j);
                assert((pre + lf + sf)[k] == sf[j]);
            }
        }
    }
}

/// The completions of a command for a word being typed hold every option
/// name of the command, long or short, that starts with the word, and nothing
/// that does not start with it.
pub proof fn law_option_names_completed(c: Command, args: Seq<Seq<char>>, incomplete: Seq<char>, vals: Seq<Seq<char>>)
    requires
        completes(AnyCommand::Command(c), args, incomplete, vals),
    ensures
        forall|i: int, n: Seq<char>|
            #![trigger vals.contains(n), c.options@[i]]
            0 <= i < c.options@.len() && (c.options@[i].long.deep_view().contains(n)
                || c.options@[i].short.deep_view().contains(n)) && seq_starts_with(n, incomplete)
            ==> vals.contains(n),
        forall|k: int| 0 <= k < vals.len() ==> seq_starts_with(#[trigger] vals[k], incomplete),
{
    let ov = option_values(c.options@, incomplete);
    reveal_strlit("--help");
    let h = if seq_starts_with("--help"@, incomplete) { seq!["--help"@] } else { Seq::<Seq<char>>::empty() };
    assert(vals == ov + h);
    assert forall|i: int, n: Seq<char>|
        #![trigger vals.contains(n), c.options@[i]]
        0 <= i < c.options@.len() && (c.options@[i].long.deep_view().contains(n)
            || c.options@[i].short.deep_view().contains(n)) && seq_starts_with(n, incomplete)
        implies vals.contains(n) by {
        lemma_option_values_complete(c.options@, incomplete, i, n);
        let k = choose|k: int| 0 <= k < ov.len() && ov[k] == n;
        assert((ov + h)[k] == n);
    }
    lemma_option_values_sound(c.options@, incomplete);
    assert forall|k: int| 0 <= k < vals.len() implies seq_starts_with(#[trigger] vals[k], incomplete) by {
        if k < ov.len() {
            assert(vals[k] == ov[k]);
        } else {
            assert(vals[k] == "--help"@);
        }
    }
}

// =============================================================================
// Wrapping keeps the words
// =============================================================================

/// A nonempty run of characters with no whitespace in it.
pub open spec fn is_word(w: Seq<char>) -> bool {
    w.len() > 0 && forall|i: int| 0 <= i < w.len() ==> !is_ws(#[trigger] w[i])
}

/// The words of each line, one line after another.
pub open spec fn words_of_lines(ls: Seq<Seq<char>>) -> Seq<Seq<char>>
    decreases ls.len(),
{
    if ls.len() == 0 {
        seq![]
    } else {
        words(ls[0]) + words_of_lines(ls.drop_first())
    }
}

/// Splitting at a whitespace character: the words before it, then those after.
proof fn lemma_words_from_split(s: Seq<char>, cur: Seq<char>, k: int)
    requires
        0 <= k < s.len(),
        is_ws(s[k]),
    ensures
        words_from(s, cur) == words_from(s.take(k), cur) + words_from(s.skip(k + 1), seq![]),
    decreases k,
{
    if k == 0 {
        assert(s.take(0) =~= Seq::<char>::empty());
        assert(s.skip(1) =~= s.drop_first());
        if cur.len() == 0 {
            assert(words_from(s.take(0), cur) =~= Seq::<Seq<char>>::empty());
            assert(words_from(s, cur) =~= Seq::<Seq<char>>::empty() + words_from(s.skip(1), seq![]));
        }
    } else {
        let t = s.drop_first();
        assert(t.skip(k) =~= s.skip(k + 1));
        assert(s.take(k).drop_first() =~= t.take(k - 1));
        assert(s.take(k)[0] == s[0]);
        if is_ws(s[0]) {
            lemma_words_from_split(t, seq![], k - 1);
            let a = words_from(t.take(k - 1), seq![]);
            let b = words_from(t.skip(k), seq![]);
            if cur.len() == 0 {
            } else {
                assert(seq![cur] + (a + b) =~= (seq![cur] + a) + b);
            }
        } else {
            lemma_words_from_split(t, cur.push(s[0]), k - 1);
        }
    }
}

/// The words of `a`, a whitespace character, then `b`, are those of `a` then
/// those of `b`.
proof fn lemma_words_concat(a: Seq<char>, c: char, b: Seq<char>)
    requires
        is_ws(c),
    ensures
        words(a + seq![c] + b) == words(a) + words(b),
{
    let s = a + seq![c] + b;
    lemma_words_from_split(s, seq![], a.len() as int);
    assert(s.take(a.len() as int) =~= a);
    assert(s.skip(a.len() as int + 1) =~= b);
}

proof fn lemma_words_from_word(w: Seq<char>, cur: Seq<char>)
    requires
        forall|i: int| 0 <= i < w.len() ==> !is_ws(#[trigger] w[i]),
    ensures
        words_from(w, cur) == if (cur + w).len() == 0 { Seq::<Seq<char>>::empty() } else { seq![cur + w] },
    decreases w.len(),
{
    if w.len() == 0 {
        assert(cur + w =~= cur);
    } else {
        assert(!is_ws(w[0]));
        let t = w.drop_first();
        assert forall|i: int| 0 <= i < t.len() implies !is_ws(#[trigger] t[i]) by {
            assert(t[i] == w[i + 1]);
        }
        lemma_words_from_word(t, cur.push(w[0]));
        assert(cur.push(w[0]) + t =~= cur + w);
    }
}

/// A word's only word is itself.
proof fn lemma_words_of_word(w: Seq<char>)
    requires
        is_word(w),
    ensures
        words(w) == seq![w],
{
    lemma_words_from_word(w, seq![]);
    assert(Seq::<char>::empty() + w =~= w);
}

/// Every word found is a word.
proof fn lemma_words_from_are_words(s: Seq<char>, cur: Seq<char>)
    requires
        forall|i: int| 0 <= i < cur.len() ==> !is_ws(#[trigger] cur[i]),
    ensures
        forall|k: int| 0 <= k < words_from(s, cur).len() ==> is_word(#[trigger] words_from(s, cur)[k]),
    decreases s.len(),
{
    if s.len() == 0 {
        if cur.len() > 0 {
            assert(words_from(s, cur) == seq![cur]);
            assert(is_word(cur));
            assert(words_from(s, cur)[0] == cur);
        } else {
            assert(words_from(s, cur) == Seq::<Seq<char>>::empty());
        }
    } else if is_ws(s[0]) {
        lemma_words_from_are_words(s.drop_first(), seq![]);
        if cur.len() == 0 {
            assert(words_from(s, cur) == words_from(s.drop_first(), seq![]));
        }
        if cur.len() > 0 {
            assert(words_from(s, cur) == seq![cur] + words_from(s.drop_first(), seq![]));
            let rest = words_from(s.drop_first(), seq![]);
            assert forall|k: int| 0 <= k < (seq![cur] + rest).len() implies is_word(#[trigger] (seq![cur] + rest)[k]) by {
                if k > 0 {
                    assert((seq![cur] + rest)[k] == rest[k - 1]);
                }
            }
        }
    } else {
        let c2 = cur.push(s[0]);
        assert forall|i: int| 0 <= i < c2.len() implies !is_ws(#[trigger] c2[i]) by {
            if i < cur.len() {
                assert(c2[i] == cur[i]);
            }
        }
        lemma_words_from_are_words(s.drop_first(), c2);
        assert(words_from(s, cur) == words_from(s.drop_first(), c2));
    }
}

/// What has been written so far ends a line or is empty, and a line counted
/// as empty holds nothing.
pub open spec fn wrap_ok(st: WrapState) -> bool {
    &&& (st.cw == 0 ==> st.cur.len() == 0)
    &&& (st.done.len() == 0 || st.done.last() == '\n')
}

pub open spec fn wrap_out(st: WrapState) -> Seq<char> {
    st.done + st.cur
}

/// The words of finished text that ends a line are its words before the break.
proof fn lemma_words_done(done: Seq<char>, w: Seq<char>)
    requires
        done.len() == 0 || done.last() == '\n',
    ensures
        words(done + w) == words(done) + words(w),
{
    if done.len() == 0 {
        assert(done + w =~= w);
        assert(words(done) =~= Seq::<Seq<char>>::empty());
        assert(words(done) + words(w) =~= words(w));
    } else {
        let d = done.drop_last();
        assert(done + w =~= d + seq!['\n'] + w);
        assert(done =~= d + seq!['\n'] + Seq::<char>::empty());
        lemma_words_concat(d, '\n', w);
        lemma_words_concat(d, '\n', Seq::<char>::empty());
        assert(words(Seq::<char>::empty()) =~= Seq::<Seq<char>>::empty());
        assert(words(d) + Seq::<Seq<char>>::empty() =~= words(d));
    }
}

proof fn lemma_wrap_word_keeps(w: Seq<char>, width: nat, st: WrapState)
    requires
        is_word(w),
        wrap_ok(st),
    ensures
        wrap_ok(wrap_word(w, width, st)),
        words(wrap_out(wrap_word(w, width, st))) == words(wrap_out(st)).push(w),
{
    lemma_blen_ge_len(w);
    lemma_words_of_word(w);
    let n = wrap_word(w, width, st);
    if st.cw == 0 {
        assert(st.cur =~= Seq::<char>::empty());
        assert(wrap_out(n) =~= st.done + w);
        assert(wrap_out(st) =~= st.done + Seq::<char>::empty());
        lemma_words_done(st.done, w);
        lemma_words_done(st.done, Seq::<char>::empty());
        assert(words(Seq::<char>::empty()) =~= Seq::<Seq<char>>::empty());
        assert(words(st.done) + Seq::<Seq<char>>::empty() =~= words(st.done));
        assert(words(st.done) + seq![w] =~= words(st.done).push(w));
    } else if st.cw + 1 + crate::text::blen(w) <= width {
        assert(wrap_out(n) =~= (st.done + st.cur) + seq![' '] + w);
        lemma_words_concat(st.done + st.cur, ' ', w);
        assert(words(wrap_out(st)) + seq![w] =~= words(wrap_out(st)).push(w));
    } else {
        assert(wrap_out(n) =~= (st.done + st.cur) + seq!['\n'] + w);
        lemma_words_concat(st.done + st.cur, '\n', w);
        assert(words(wrap_out(st)) + seq![w] =~= words(wrap_out(st)).push(w));
        assert(n.done.last() == '\n');
    }
}

proof fn lemma_wrap_words_keeps(ws: Seq<Seq<char>>, width: nat, st: WrapState)
    requires
        forall|k: int| 0 <= k < ws.len() ==> is_word(#[trigger] ws[k]),
        wrap_ok(st),
    ensures
        wrap_ok(wrap_words(ws, width, st)),
        words(wrap_out(wrap_words(ws, width, st))) == words(wrap_out(st)) + ws,
    decreases ws.len(),
{
    if ws.len() == 0 {
        assert(words(wrap_out(st)) + ws =~= words(wrap_out(st)));
    } else {
        let st1 = wrap_word(ws[0], width, st);
        lemma_wrap_word_keeps(ws[0], width, st);
        let t = ws.drop_first();
        assert forall|k: int| 0 <= k < t.len() implies is_word(#[trigger] t[k]) by {
            assert(t[k] == ws[k + 1]);
        }
        lemma_wrap_words_keeps(t, width, st1);
        assert(words(wrap_out(st)).push(ws[0]) + t =~= words(wrap_out(st)) + ws);
    }
}

proof fn lemma_wrap_break_keeps(st: WrapState)
    requires
        wrap_ok(st),
    ensures
        wrap_ok(wrap_break(st)),
        words(wrap_out(wrap_break(st))) == words(wrap_out(st)),
{
    let e = Seq::<char>::empty();
    assert(words(e) =~= Seq::<Seq<char>>::empty());
    if st.done.len() > 0 || st.cur.len() > 0 {
        if st.cur.len() > 0 {
            assert(wrap_out(wrap_break(st)) =~= (st.done + st.cur) + seq!['\n'] + e);
            lemma_words_concat(st.done + st.cur, '\n', e);
            assert(words(st.done + st.cur) + words(e) =~= words(st.done + st.cur));
        } else {
            assert(wrap_out(wrap_break(st)) =~= st.done + seq!['\n'] + e);
            assert(wrap_out(st) =~= st.done);
            lemma_words_concat(st.done, '\n', e);
            assert(words(st.done) + words(e) =~= words(st.done));
        }
    }
}

proof fn lemma_wrap_lines_keeps(ls: Seq<Seq<char>>, width: nat, st: WrapState)
    requires
        wrap_ok(st),
    ensures
        wrap_ok(wrap_lines(ls, width, st)),
        words(wrap_out(wrap_lines(ls, width, st))) == words(wrap_out(st)) + words_of_lines(ls),
    decreases ls.len(),
{
    if ls.len() == 0 {
        assert(words(wrap_out(st)) + words_of_lines(ls) =~= words(wrap_out(st)));
    } else {
        let b = wrap_break(st);
        lemma_wrap_break_keeps(st);
        lemma_words_from_are_words(ls[0], seq![]);
        lemma_wrap_words_keeps(words(ls[0]), width, b);
        let st1 = wrap_words(words(ls[0]), width, b);
        lemma_wrap_lines_keeps(ls.drop_first(), width, st1);
        assert(words(wrap_out(st)) + words(ls[0]) + words_of_lines(ls.drop_first())
            =~= words(wrap_out(st)) + words_of_lines(ls));
    }
}

proof fn lemma_strip_cr_words(l: Seq<char>)
    ensures
        words(strip_cr(l)) == words(l),
{
    if l.len() > 0 && l.last() == '\r' {
        let d = l.drop_last();
        let e = Seq::<char>::empty();
        assert(l =~= d + seq!['\r'] + e);
        lemma_words_concat(d, '\r', e);
        assert(words(e) =~= Seq::<Seq<char>>::empty());
        assert(words(d) + words(e) =~= words(d));
    }
}

/// The words of the lines of `cur + s` are the words of `cur + s`.
proof fn lemma_words_of_lines_from(s: Seq<char>, cur: Seq<char>)
    ensures
        words_of_lines(lines_from(s, cur)) == words(cur + s),
    decreases s.len(),
{
    if s.len() == 0 {
        assert(cur + s =~= cur);
        if cur.len() == 0 {
            assert(words(cur) =~= Seq::<Seq<char>>::empty());
        } else {
            let ls = seq![cur];
            assert(lines_from(s, cur) == ls);
            assert(ls.drop_first() =~= Seq::<Seq<char>>::empty());
            assert(words_of_lines(ls.drop_first()) == Seq::<Seq<char>>::empty());
            assert(words_of_lines(ls) == words(cur) + words_of_lines(ls.drop_first()));
            assert(words(cur) + Seq::<Seq<char>>::empty() =~= words(cur));
        }
    } else if s[0] == '\n' {
        let t = s.drop_first();
        lemma_words_of_lines_from(t, seq![]);
        assert(Seq::<char>::empty() + t =~= t);
        lemma_strip_cr_words(cur);
        let ls = seq![strip_cr(cur)] + lines_from(t, seq![]);
        assert(lines_from(s, cur) == ls);
        assert(ls[0] == strip_cr(cur));
        assert(ls.drop_first() =~= lines_from(t, seq![]));
        assert(words_of_lines(ls) == words(ls[0]) + words_of_lines(ls.drop_first()));
        assert(cur + s =~= cur + seq!['\n'] + t);
        lemma_words_concat(cur, '\n', t);
    } else {
        lemma_words_of_lines_from(s.drop_first(), cur.push(s[0]));
        assert(cur.push(s[0]) + s.drop_first() =~= cur + s);
    }
}

/// Wrapping moves words between lines but keeps them: the words of the wrapped
/// text are the words of the text, in the same order, whatever the width.
pub proof fn law_wrap_keeps_words(text: Seq<char>, width: nat)
    ensures
        words(wrap_spec(text, width)) == words(text),
{
    if width > 0 {
        let st0 = WrapState { done: seq![], cur: seq![], cw: 0 };
        lemma_wrap_lines_keeps(lines(text), width, st0);
        assert(wrap_out(st0) =~= Seq::<char>::empty());
        assert(words(Seq::<char>::empty()) =~= Seq::<Seq<char>>::empty());
        lemma_words_of_lines_from(text, seq![]);
        assert(Seq::<char>::empty() + text =~= text);
        assert(Seq::<Seq<char>>::empty() + words_of_lines(lines(text)) =~= words_of_lines(lines(text)));
    }
}

// =============================================================================
// Wrapping keeps lines within the width
// =============================================================================

/// `t` holds a whitespace character.
pub open spec fn has_ws(t: Seq<char>) -> bool {
    exists|k: int| 0 <= k < t.len() && is_ws(#[trigger] t[k])
}

/// Every stretch of `s` without a line break that holds whitespace is at most
/// `width` bytes: a line wider than that is a single word.
pub open spec fn fits_width(s: Seq<char>, width: nat) -> bool {
    forall|i: int, j: int|
        0 <= i <= j <= s.len() && !(#[trigger] s.subrange(i, j)).contains('\n') && has_ws(s.subrange(i, j))
        ==> blen(s.subrange(i, j)) <= width
}

proof fn lemma_fits_concat(a: Seq<char>, b: Seq<char>, width: nat)
    requires
        fits_width(a, width),
        fits_width(b, width),
        a.len() == 0 || a.last() == '\n',
    ensures
        fits_width(a + b, width),
{
    let s = a + b;
    assert forall|i: int, j: int|
        0 <= i <= j <= s.len() && !(#[trigger] s.subrange(i, j)).contains('\n') && has_ws(s.subrange(i, j))
        implies blen(s.subrange(i, j)) <= width by {
        if j <= a.len() {
            assert(s.subrange(i, j) =~= a.subrange(i, j));
        } else if i >= a.len() {
            assert(s.subrange(i, j) =~= b.subrange(i - a.len(), j - a.len()));
        } else {
            let k = a.len() - 1 - i;
            assert(s.subrange(i, j)[k] == '\n');
        }
    }
}

proof fn lemma_fits_break(a: Seq<char>, width: nat)
    requires
        fits_width(a, width),
    ensures
        fits_width(a + seq!['\n'], width),
{
    let s = a + seq!['\n'];
    assert forall|i: int, j: int|
        0 <= i <= j <= s.len() && !(#[trigger] s.subrange(i, j)).contains('\n') && has_ws(s.subrange(i, j))
        implies blen(s.subrange(i, j)) <= width by {
        if j <= a.len() {
            assert(s.subrange(i, j) =~= a.subrange(i, j));
        } else {
            if i < j {
                assert(s.subrange(i, j)[j - 1 - i] == '\n');
            }
        }
    }
}

proof fn lemma_fits_narrow(c: Seq<char>, width: nat)
    requires
        blen(c) <= width,
    ensures
        fits_width(c, width),
{
    assert forall|i: int, j: int|
        0 <= i <= j <= c.len() && !(#[trigger] c.subrange(i, j)).contains('\n') && has_ws(c.subrange(i, j))
        implies blen(c.subrange(i, j)) <= width by {
        assert(c =~= c.take(i) + c.subrange(i, j) + c.skip(j));
        lemma_blen_add(c.take(i) + c.subrange(i, j), c.skip(j));
        lemma_blen_add(c.take(i), c.subrange(i, j));
    }
}

proof fn lemma_fits_word(c: Seq<char>, width: nat)
    requires
        is_word(c),
    ensures
        fits_width(c, width),
{
    assert forall|i: int, j: int|
        0 <= i <= j <= c.len() && !(#[trigger] c.subrange(i, j)).contains('\n') && has_ws(c.subrange(i, j))
        implies blen(c.subrange(i, j)) <= width by {
        let k = choose|k: int| 0 <= k < c.subrange(i, j).len() && is_ws(#[trigger] c.subrange(i, j)[k]);
        assert(c.subrange(i, j)[k] == c[i + k]);
    }
}

/// The text done fits and ends a line; the line being filled is as wide as
/// counted, has no break, and fits unless it is one word.
pub open spec fn wrap_fits(st: WrapState, width: nat) -> bool {
    &&& fits_width(st.done, width)
    &&& (st.done.len() == 0 || st.done.last() == '\n')
    &&& st.cw == blen(st.cur)
    &&& !st.cur.contains('\n')
    &&& (st.cw <= width || is_word(st.cur))
}

proof fn lemma_cur_fits(st: WrapState, width: nat)
    requires
        wrap_fits(st, width),
    ensures
        fits_width(st.cur, width),
{
    if st.cw <= width {
        lemma_fits_narrow(st.cur, width);
    } else {
        lemma_fits_word(st.cur, width);
    }
}

proof fn lemma_close_line(st: WrapState, width: nat)
    requires
        wrap_fits(st, width),
    ensures
        fits_width(st.done + st.cur + seq!['\n'], width),
        (st.done + st.cur + seq!['\n']).last() == '\n',
{
    lemma_cur_fits(st, width);
    lemma_fits_concat(st.done, st.cur, width);
    lemma_fits_break(st.done + st.cur, width);
}

proof fn lemma_word_no_break(w: Seq<char>)
    requires
        is_word(w),
    ensures
        !w.contains('\n'),
{
    if w.contains('\n') {
        let k = choose|k: int| 0 <= k < w.len() && w[k] == '\n';
        assert(!is_ws(w[k]));
    }
}

proof fn lemma_wrap_word_fits(w: Seq<char>, width: nat, st: WrapState)
    requires
        is_word(w),
        wrap_fits(st, width),
    ensures
        wrap_fits(wrap_word(w, width, st), width),
{
    lemma_blen_ge_len(st.cur);
    lemma_word_no_break(w);
    if st.cw == 0 {
        assert(st.cur + w =~= w);
    } else if st.cw + 1 + blen(w) <= width {
        let c = st.cur + seq![' '] + w;
        lemma_blen_add(st.cur + seq![' '], w);
        lemma_blen_add(st.cur, seq![' ']);
        assert(seq![' '].drop_last() =~= Seq::<char>::empty());
        assert(seq![' '].last() == ' ');
        assert(blen(Seq::<char>::empty()) == 0);
        assert((' ' as u32) == 32);
        assert(crate::text::char_width(' ') == 1);
        assert(blen(seq![' ']) == 1);
        if c.contains('\n') {
            let k = choose|k: int| 0 <= k < c.len() && c[k] == '\n';
            if k < st.cur.len() {
                assert(st.cur[k] == '\n');
            } else if k > st.cur.len() {
                assert(w[k - st.cur.len() - 1] == '\n');
            }
        }
    } else {
        lemma_close_line(st, width);
    }
}

proof fn lemma_wrap_words_fits(ws: Seq<Seq<char>>, width: nat, st: WrapState)
    requires
        forall|k: int| 0 <= k < ws.len() ==> is_word(#[trigger] ws[k]),
        wrap_fits(st, width),
    ensures
        wrap_fits(wrap_words(ws, width, st), width),
    decreases ws.len(),
{
    if ws.len() > 0 {
        lemma_wrap_word_fits(ws[0], width, st);
        let t = ws.drop_first();
        assert forall|k: int| 0 <= k < t.len() implies is_word(#[trigger] t[k]) by {
            assert(t[k] == ws[k + 1]);
        }
        lemma_wrap_words_fits(t, width, wrap_word(ws[0], width, st));
    }
}

proof fn lemma_wrap_break_fits(st: WrapState, width: nat)
    requires
        wrap_fits(st, width),
    ensures
        wrap_fits(wrap_break(st), width),
{
    if st.done.len() > 0 || st.cur.len() > 0 {
        if st.cur.len() > 0 {
            lemma_close_line(st, width);
            assert(!Seq::<char>::empty().contains('\n'));
        } else {
            lemma_fits_break(st.done, width);
        }
    }
}

proof fn lemma_wrap_lines_fits(ls: Seq<Seq<char>>, width: nat, st: WrapState)
    requires
        wrap_fits(st, width),
    ensures
        wrap_fits(wrap_lines(ls, width, st), width),
    decreases ls.len(),
{
    if ls.len() > 0 {
        lemma_wrap_break_fits(st, width);
        lemma_words_from_are_words(ls[0], seq![]);
        lemma_wrap_words_fits(words(ls[0]), width, wrap_break(st));
        lemma_wrap_lines_fits(ls.drop_first(), width, wrap_words(words(ls[0]), width, wrap_break(st)));
    }
}

/// Wrapping to a positive width leaves no line wider than the width unless
/// that line is a single word: every stretch of the result without a line
/// break that holds whitespace fits in `width` bytes.
pub proof fn law_wrap_fits_width(text: Seq<char>, width: nat)
    requires
        width > 0,
    ensures
        fits_width(wrap_spec(text, width), width),
{
    let st0 = WrapState { done: seq![], cur: seq![], cw: 0 };
    assert(!st0.cur.contains('\n'));
    assert forall|i: int, j: int|
        0 <= i <= j <= st0.done.len() && !(#[trigger] st0.done.subrange(i, j)).contains('\n') && has_ws(st0.done.subrange(i, j))
        implies blen(st0.done.subrange(i, j)) <= width by {
        assert(st0.done.subrange(i, j) =~= Seq::<char>::empty());
    }
    lemma_wrap_lines_fits(lines(text), width, st0);
    let st = wrap_lines(lines(text), width, st0);
    lemma_cur_fits(st, width);
    lemma_fits_concat(st.done, st.cur, width);
}

} // verus!
