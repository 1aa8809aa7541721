//! Help text formatting: word wrapping, indentation and two-column definition
//! lists, to a given width.

use vstd::prelude::*;
use crate::text::{
    to_chars, ends_with, seq_ends_with, char_width,
    lemma_lines_blen, lemma_words_blen,
    blen, char_len_utf8, lines, words, split_lines, split_whitespace, repeat_seq, repeat_char,
    push_str, str_of, parse_usize, parse_usize_seq, str_eq, lemma_blen_push, lemma_blen_add,
    byte_len,
};

verus! {

/// The width used when none is known.
pub const DEFAULT_WIDTH: usize = 80;

/// The narrowest width a formatter accepts.
pub const MIN_WIDTH: usize = 40;

/// Indentation of the terms of a definition list.
pub const DEFINITION_INDENT: usize = 2;

/// Spaces between a term and its description.
pub const DEFINITION_SPACING: usize = 2;

/// Terms longer than this have their description on the next line.
pub const MAX_TERM_WIDTH: usize = 24;

// =============================================================================
// Word wrapping
// =============================================================================

/// The state of wrapping: the text done, the line being filled, and its width.
pub struct WrapState {
    pub done: Seq<char>,
    pub cur: Seq<char>,
    pub cw: nat,
}

/// One word added to the line being filled, or to a new line when it does not fit.
pub open spec fn wrap_word(w: Seq<char>, width: nat, st: WrapState) -> WrapState {
    if st.cw == 0 {
        WrapState { done: st.done, cur: st.cur + w, cw: blen(w) }
    } else if st.cw + 1 + blen(w) <= width {
        WrapState { done: st.done, cur: st.cur + seq![' '] + w, cw: st.cw + 1 + blen(w) }
    } else {
        WrapState { done: st.done + st.cur + seq!['\n'], cur: w, cw: blen(w) }
    }
}

pub open spec fn wrap_words(ws: Seq<Seq<char>>, width: nat, st: WrapState) -> WrapState
    decreases ws.len(),
{
    if ws.len() == 0 {
        st
    } else {
        wrap_words(ws.drop_first(), width, wrap_word(ws[0], width, st))
    }
}

/// A line break of the input: the line being filled is finished first.
pub open spec fn wrap_break(st: WrapState) -> WrapState {
    if st.done.len() > 0 || st.cur.len() > 0 {
        if st.cur.len() > 0 {
            WrapState { done: st.done + st.cur + seq!['\n'], cur: seq![], cw: 0 }
        } else {
            WrapState { done: st.done + seq!['\n'], cur: st.cur, cw: st.cw }
        }
    } else {
        st
    }
}

pub open spec fn wrap_lines(ls: Seq<Seq<char>>, width: nat, st: WrapState) -> WrapState
    decreases ls.len(),
{
    if ls.len() == 0 {
        st
    } else {
        wrap_lines(ls.drop_first(), width, wrap_words(words(ls[0]), width, wrap_break(st)))
    }
}

/// What `wrap_text` returns: the words of each line joined by single spaces, a
/// new line begun where the next word would pass `width` bytes, and the input's
/// line breaks kept. A width of zero leaves the text as it is.
pub open spec fn wrap_spec(text: Seq<char>, width: nat) -> Seq<char> {
    if width == 0 {
        text
    } else {
        let st = wrap_lines(lines(text), width, WrapState { done: seq![], cur: seq![], cw: 0 });
        st.done + st.cur
    }
}

proof fn lemma_skip_first<A>(s: Seq<A>, i: int)
    requires
        0 <= i < s.len(),
    ensures
        s.skip(i).drop_first() == s.skip(i + 1),
        s.skip(i)[0] == s[i],
{
    assert(s.skip(i).drop_first() =~= s.skip(i + 1));
}

/// Wrap text to fit within `width` bytes per line, keeping its line breaks and
/// breaking only between words.
pub fn wrap_text(text: &str, width: usize) -> (r: String)
    requires
        blen(text@) <= usize::MAX,
    ensures
        r@ == wrap_spec(text@, width as nat),
{
    if width == 0 {
        return str_of(text);
    }
    let ls = split_lines(text);
    let ghost lv = ls.deep_view();
    let ghost init = WrapState { done: seq![], cur: seq![], cw: 0 };
    let mut result = String::new();
    let mut current = String::new();
    let mut cw: usize = 0;
    let mut i: usize = 0;
    assert(lv.skip(0) =~= lv);
    proof {
        lemma_lines_blen(text@);
    }
    while i < ls.len()
        invariant
            lv == ls.deep_view(),
            lv == lines(text@),
            i <= lv.len(),
            width > 0,
            blen(text@) <= usize::MAX,
            forall|k: int| 0 <= k < lv.len() ==> blen(#[trigger] lv[k]) <= blen(text@),
            wrap_lines(lv, width as nat, init) == wrap_lines(
                lv.skip(i as int),
                width as nat,
                WrapState { done: result@, cur: current@, cw: cw as nat },
            ),
        decreases lv.len() - i,
    {
        proof {
            lemma_skip_first(lv, i as int);
        }
        let ghost st0 = WrapState { done: result@, cur: current@, cw: cw as nat };
        if result.unicode_len() > 0 || current.unicode_len() > 0 {
            if current.unicode_len() > 0 {
                push_str(&mut result, current.as_str());
                current = String::new();
                cw = 0;
            }
            result.push('\n');
        }
        proof {
            let wb = wrap_break(st0);
            assert(result@ =~= wb.done);
            assert(current@ =~= wb.cur);
        }
        let ws = split_whitespace(ls[i].as_str());
        let ghost wv = ws.deep_view();
        assert(ls@[i as int]@ == lv[i as int]);
        let mut j: usize = 0;
        assert(wv.skip(0) =~= wv);
        proof {
            lemma_words_blen(lv[i as int]);
            assert(blen(lv[i as int]) <= blen(text@));
        }
        while j < ws.len()
            invariant
                i < lv.len(),
                wv == ws.deep_view(),
                wv == words(lv[i as int]),
                j <= wv.len(),
                width > 0,
                forall|k: int| 0 <= k < wv.len() ==> blen(#[trigger] wv[k]) <= usize::MAX,
                wrap_words(wv, width as nat, wrap_break(st0)) == wrap_words(
                    wv.skip(j as int),
                    width as nat,
                    WrapState { done: result@, cur: current@, cw: cw as nat },
                ),
            decreases wv.len() - j,
        {
            proof {
                lemma_skip_first(wv, j as int);
            }
            let w = &ws[j];
            assert(w@ == wv[j as int]);
            let ghost stj = WrapState { done: result@, cur: current@, cw: cw as nat };
            let wl = byte_len(w.as_str());
            if cw == 0 {
                push_str(&mut current, w.as_str());
                cw = wl;
            } else if (cw as u128) + 1 + (wl as u128) <= (width as u128) {
                current.push(' ');
                push_str(&mut current, w.as_str());
                cw = cw + 1 + wl;
            } else {
                push_str(&mut result, current.as_str());
                result.push('\n');
                current = String::new();
                push_str(&mut current, w.as_str());
                cw = wl;
            }
            proof {
                let nx = wrap_word(wv[j as int], width as nat, stj);
                assert(result@ =~= nx.done);
                assert(current@ =~= nx.cur);
            }
            j = j + 1;
        }
        i = i + 1;
    }
    push_str(&mut result, current.as_str());
    result
}

// =============================================================================
// Lines and paragraphs
// =============================================================================

/// Each line preceded by `ind` and followed by a line break.
pub open spec fn indent_lines(ls: Seq<Seq<char>>, ind: Seq<char>) -> Seq<char>
    decreases ls.len(),
{
    if ls.len() == 0 {
        seq![]
    } else {
        ind + ls[0] + seq!['\n'] + indent_lines(ls.drop_first(), ind)
    }
}

/// Appends each line of `ls`, preceded by `ind` and followed by a line break.
fn push_indented_lines(buf: &mut String, ls: &Vec<String>, ind: &str)
    ensures
        final(buf)@ == old(buf)@ + indent_lines(ls.deep_view(), ind@),
{
    let ghost lv = ls.deep_view();
    let mut i: usize = 0;
    assert(lv.skip(0) =~= lv);
    assert(buf@ + indent_lines(lv, ind@) =~= old(buf)@ + indent_lines(lv, ind@));
    while i < ls.len()
        invariant
            lv == ls.deep_view(),
            i <= lv.len(),
            buf@ + indent_lines(lv.skip(i as int), ind@) == old(buf)@ + indent_lines(lv, ind@),
        decreases lv.len() - i,
    {
        proof {
            lemma_skip_first(lv, i as int);
        }
        let ghost b0 = buf@;
        push_str(buf, ind);
        push_str(buf, ls[i].as_str());
        buf.push('\n');
        assert(ls@[i as int]@ == lv[i as int]);
        assert(buf@ + indent_lines(lv.skip(i + 1), ind@) =~= b0 + indent_lines(lv.skip(i as int), ind@));
        i = i + 1;
    }
    assert(lv.skip(lv.len() as int) =~= Seq::<Seq<char>>::empty());
    assert(buf@ =~= buf@ + indent_lines(lv.skip(i as int), ind@));
}

/// The pieces of `s` between occurrences of a blank line (`"\n\n"`), continuing a
/// piece begun: what `str::split("\n\n")` yields.
pub open spec fn para_split(s: Seq<char>, cur: Seq<char>) -> Seq<Seq<char>>
    decreases s.len(),
{
    if s.len() == 0 {
        seq![cur]
    } else if s.len() >= 2 && s[0] == '\n' && s[1] == '\n' {
        seq![cur] + para_split(s.skip(2), seq![])
    } else {
        para_split(s.drop_first(), cur.push(s[0]))
    }
}

proof fn lemma_para_split_blen(s: Seq<char>, cur: Seq<char>)
    ensures
        forall|k: int| 0 <= k < para_split(s, cur).len() ==> blen(#[trigger] para_split(s, cur)[k]) <= blen(cur) + blen(s),
    decreases s.len(),
{
    assert(blen(Seq::<char>::empty()) == 0);
    if s.len() == 0 {
        assert(para_split(s, cur) == seq![cur]);
    } else if s.len() >= 2 && s[0] == '\n' && s[1] == '\n' {
        lemma_para_split_blen(s.skip(2), seq![]);
        let r = para_split(s.skip(2), seq![]);
        assert(para_split(s, cur) == seq![cur] + r);
        assert(s =~= s.take(2) + s.skip(2));
        lemma_blen_add(s.take(2), s.skip(2));
        assert forall|k: int| 0 <= k < para_split(s, cur).len() implies blen(#[trigger] para_split(s, cur)[k]) <= blen(cur) + blen(s) by {
            if k > 0 {
                assert(para_split(s, cur)[k] == r[k - 1]);
            }
        }
    } else {
        lemma_para_split_blen(s.drop_first(), cur.push(s[0]));
        lemma_blen_push(cur, s[0]);
        assert(s =~= seq![s[0]] + s.drop_first());
        lemma_blen_add(seq![s[0]], s.drop_first());
        assert(seq![s[0]].drop_last() =~= Seq::<char>::empty());
        assert(blen(seq![s[0]]) == char_width(s[0]));
        assert(para_split(s, cur) == para_split(s.drop_first(), cur.push(s[0])));
    }
}

proof fn lemma_para_split_nonempty(s: Seq<char>, cur: Seq<char>)
    ensures
        para_split(s, cur).len() > 0,
    decreases s.len(),
{
    if s.len() >= 2 && s[0] == '\n' && s[1] == '\n' {
        lemma_para_split_nonempty(s.skip(2), seq![]);
    } else if s.len() > 0 {
        lemma_para_split_nonempty(s.drop_first(), cur.push(s[0]));
    }
}

fn split_paragraphs(text: &str) -> (r: Vec<String>)
    ensures
        r.deep_view() == para_split(text@, seq![]),
{
    let chars = to_chars(text);
    let n = chars.len();
    let mut out: Vec<String> = Vec::new();
    let mut cur = String::new();
    let mut i: usize = 0;
    assert(text@.skip(0) =~= text@);
    assert(out.deep_view() + para_split(text@, seq![]) =~= para_split(text@, seq![]));
    assert(cur@ =~= seq![]);
    while i < n
        invariant
            chars@ == text@,
            n == text@.len(),
            i <= n,
            out.deep_view() + para_split(text@.skip(i as int), cur@) == para_split(text@, seq![]),
        decreases n - i,
    {
        let ghost rest = text@.skip(i as int);
        let ghost od = out.deep_view();
        let ghost oc = cur@;
        if i + 1 < n && chars[i] == '\n' && chars[i + 1] == '\n' {
            out.push(cur);
            cur = String::new();
            assert(rest.skip(2) =~= text@.skip(i + 2));
            assert(out.deep_view() =~= od.push(oc));
            assert(out.deep_view() + para_split(text@.skip(i + 2), cur@) =~= od + (seq![oc] + para_split(rest.skip(2), seq![])));
            i = i + 2;
        } else {
            cur.push(chars[i]);
            assert(rest.drop_first() =~= text@.skip(i + 1));
            i = i + 1;
        }
    }
    assert(text@.skip(n as int) =~= Seq::<char>::empty());
    let ghost od = out.deep_view();
    let ghost oc = cur@;
    out.push(cur);
    assert(out.deep_view() =~= od + seq![oc]);
    out
}

pub open spec fn para_block(p: Seq<char>, mw: nat, ind: Seq<char>) -> Seq<char> {
    indent_lines(lines(wrap_spec(p, mw)), ind)
}

/// The paragraphs after the first, each preceded by a blank line.
pub open spec fn paras_tail(ps: Seq<Seq<char>>, mw: nat, ind: Seq<char>) -> Seq<char>
    decreases ps.len(),
{
    if ps.len() == 0 {
        seq![]
    } else {
        seq!['\n'] + para_block(ps[0], mw, ind) + paras_tail(ps.drop_first(), mw, ind)
    }
}

/// What `write_paragraph` appends: each paragraph wrapped to `mw` and indented,
/// paragraphs separated by a blank line.
pub open spec fn paragraph_text(text: Seq<char>, mw: nat, ind: Seq<char>) -> Seq<char> {
    let ps = para_split(text, seq![]);
    para_block(ps[0], mw, ind) + paras_tail(ps.drop_first(), mw, ind)
}

// =============================================================================
// Definition lists
// =============================================================================

pub open spec fn desc_indent() -> Seq<char> {
    repeat_seq(' ', (DEFINITION_INDENT + MAX_TERM_WIDTH + DEFINITION_SPACING) as nat)
}

pub open spec fn sat_sub(a: nat, b: nat) -> nat {
    if a >= b {
        (a - b) as nat
    } else {
        0
    }
}

/// The lines of one definition-list entry.
pub open spec fn def_item(term: Seq<char>, desc: Seq<char>, width: nat) -> Seq<char> {
    let dw = sat_sub(width, (DEFINITION_INDENT + MAX_TERM_WIDTH + DEFINITION_SPACING) as nat);
    let ls = lines(wrap_spec(desc, dw));
    repeat_seq(' ', DEFINITION_INDENT as nat) + term + if blen(term) <= MAX_TERM_WIDTH && desc.len() > 0 {
        repeat_seq(' ', (MAX_TERM_WIDTH - blen(term) + DEFINITION_SPACING) as nat) + if ls.len() > 0 {
            ls[0] + seq!['\n'] + indent_lines(ls.drop_first(), desc_indent())
        } else {
            seq![]
        }
    } else if desc.len() > 0 {
        seq!['\n'] + indent_lines(ls, desc_indent())
    } else {
        seq!['\n']
    }
}

pub open spec fn def_list(items: Seq<(Seq<char>, Seq<char>)>, width: nat) -> Seq<char>
    decreases items.len(),
{
    if items.len() == 0 {
        seq![]
    } else {
        def_item(items[0].0, items[0].1, width) + def_list(items.drop_first(), width)
    }
}

pub open spec fn pair_views(items: Seq<(&str, &str)>) -> Seq<(Seq<char>, Seq<char>)> {
    items.map_values(|p: (&str, &str)| (p.0@, p.1@))
}

pub open spec fn string_pair_views(items: Seq<(String, String)>) -> Seq<(Seq<char>, Seq<char>)> {
    items.map_values(|p: (String, String)| (p.0@, p.1@))
}

/// Appends one entry of a definition list.
fn push_def_item(buf: &mut String, term: &str, desc: &str, width: usize)
    requires
        blen(term@) <= usize::MAX,
        blen(desc@) <= usize::MAX,
    ensures
        final(buf)@ == old(buf)@ + def_item(term@, desc@, width as nat),
{
    let desc_ind = repeat_char(' ', DEFINITION_INDENT + MAX_TERM_WIDTH + DEFINITION_SPACING);
    let dw = if width >= DEFINITION_INDENT + MAX_TERM_WIDTH + DEFINITION_SPACING {
        width - (DEFINITION_INDENT + MAX_TERM_WIDTH + DEFINITION_SPACING)
    } else {
        0
    };
    let base = repeat_char(' ', DEFINITION_INDENT);
    let ghost b0 = buf@;
    push_str(buf, base.as_str());
    push_str(buf, term);
    let tl = byte_len(term);
    let dl = desc.unicode_len();
    if tl <= MAX_TERM_WIDTH && dl > 0 {
        let pad = repeat_char(' ', MAX_TERM_WIDTH - tl + DEFINITION_SPACING);
        push_str(buf, pad.as_str());
        let wrapped = wrap_text(desc, dw);
        let ls = split_lines(wrapped.as_str());
        let ghost lv = ls.deep_view();
        let ghost b1 = buf@;
        if ls.len() > 0 {
            push_str(buf, ls[0].as_str());
            buf.push('\n');
            let mut rest: Vec<String> = Vec::new();
            let mut k: usize = 1;
            while k < ls.len()
                invariant
                    1 <= k <= lv.len(),
                    lv == ls.deep_view(),
                    rest.deep_view() =~= lv.subrange(1, k as int),
                decreases lv.len() - k,
            {
                let ghost od = rest.deep_view();
                rest.push(ls[k].clone());
                assert(rest.deep_view() =~= od.push(lv[k as int]));
                k = k + 1;
            }
            assert(lv.subrange(1, lv.len() as int) =~= lv.drop_first());
            push_indented_lines(buf, &rest, desc_ind.as_str());
            assert(ls@[0]@ == lv[0]);
        }
        assert(buf@ =~= b0 + def_item(term@, desc@, width as nat));
    } else if dl > 0 {
        buf.push('\n');
        let wrapped = wrap_text(desc, dw);
        let ls = split_lines(wrapped.as_str());
        push_indented_lines(buf, &ls, desc_ind.as_str());
        assert(buf@ =~= b0 + def_item(term@, desc@, width as nat));
    } else {
        buf.push('\n');
        assert(buf@ =~= b0 + def_item(term@, desc@, width as nat));
    }
}

// =============================================================================
// The formatter
// =============================================================================

/// Help text formatter: accumulates usage lines, headings, wrapped paragraphs and
/// definition lists, to a width.
#[derive(Debug)]
pub struct HelpFormatter {
    width: usize,
    indent: usize,
    buffer: String,
    current_col: usize,
}

/// The width a formatter uses when asked for `w`: the default below the minimum.
pub open spec fn effective_width(w: nat) -> nat {
    if w < MIN_WIDTH {
        DEFAULT_WIDTH as nat
    } else {
        w
    }
}

/// What the environment says of the terminal's width: `COLUMNS` when it is a
/// number of at least the minimum width, else the default width for a few known
/// terminal programs.
pub open spec fn env_width(columns: Option<Seq<char>>, term_program: Option<Seq<char>>) -> Option<usize> {
    let from_cols = match columns {
        Some(c) => match parse_usize_seq(c) {
            Some(w) => if w >= MIN_WIDTH {
                Some(w)
            } else {
                None
            },
            None => None,
        },
        None => None,
    };
    if from_cols is Some {
        from_cols
    } else {
        match term_program {
            Some(t) => if t == "vscode"@ || t == "iTerm.app"@ || t == "Apple_Terminal"@ || t == "Hyper"@ {
                Some(DEFAULT_WIDTH)
            } else {
                None
            },
            None => None,
        }
    }
}

pub open spec fn optstr_view(o: Option<&str>) -> Option<Seq<char>> {
    match o {
        Some(s) => Some(s@),
        None => None,
    }
}

/// The terminal width given the values of `COLUMNS` and `TERM_PROGRAM`, if known.
pub fn detect_terminal_width(columns: Option<&str>, term_program: Option<&str>) -> (r: Option<usize>)
    ensures
        r == env_width(optstr_view(columns), optstr_view(term_program)),
{
    match columns {
        Some(c) => match parse_usize(c) {
            Some(w) => {
                if w >= MIN_WIDTH {
                    return Some(w);
                }
            },
            None => {},
        },
        None => {},
    }
    match term_program {
        Some(t) => {
            if str_eq(t, "vscode") || str_eq(t, "iTerm.app") || str_eq(t, "Apple_Terminal") || str_eq(t, "Hyper") {
                Some(DEFAULT_WIDTH)
            } else {
                None
            }
        },
        None => None,
    }
}

/// The terminal width given the values of `COLUMNS` and `TERM_PROGRAM`, with the
/// default width when they say nothing.
pub fn get_terminal_width(columns: Option<&str>, term_program: Option<&str>) -> (r: usize)
    ensures
        r == match env_width(optstr_view(columns), optstr_view(term_program)) {
            Some(w) => w,
            None => DEFAULT_WIDTH,
        },
{
    match detect_terminal_width(columns, term_program) {
        Some(w) => w,
        None => DEFAULT_WIDTH,
    }
}

impl HelpFormatter {
    pub closed spec fn spec_width(&self) -> nat {
        self.width as nat
    }

    pub closed spec fn spec_indent(&self) -> nat {
        self.indent as nat
    }

    /// The text accumulated so far.
    pub closed spec fn text(&self) -> Seq<char> {
        self.buffer@
    }

    /// The column after the text written last.
    pub closed spec fn column(&self) -> nat {
        self.current_col as nat
    }

    /// A formatter of the given width (the default width below the minimum).
    pub fn new(width: usize) -> (r: Self)
        ensures
            r.spec_width() == effective_width(width as nat),
            r.spec_indent() == 0,
            r.text() == Seq::<char>::empty(),
            r.column() == 0,
    {
        let w = if width < MIN_WIDTH {
            DEFAULT_WIDTH
        } else {
            width
        };
        HelpFormatter { width: w, indent: 0, buffer: String::new(), current_col: 0 }
    }

    /// A formatter as wide as the terminal, given the values of `COLUMNS` and
    /// `TERM_PROGRAM`.
    pub fn detect_width(columns: Option<&str>, term_program: Option<&str>) -> (r: Self)
        ensures
            r.spec_width() == effective_width(
                match env_width(optstr_view(columns), optstr_view(term_program)) {
                    Some(w) => w as nat,
                    None => DEFAULT_WIDTH as nat,
                },
            ),
            r.spec_indent() == 0,
            r.text() == Seq::<char>::empty(),
    {
        let w = get_terminal_width(columns, term_program);
        Self::new(w)
    }

    /// The help text accumulated so far.
    pub fn get_help(&self) -> (r: &str)
        ensures
            r@ == self.text(),
    {
        self.buffer.as_str()
    }

    /// The help text, consuming the formatter.
    pub fn into_help(self) -> (r: String)
        ensures
            r@ == self.text(),
    {
        self.buffer
    }

    pub fn width(&self) -> (r: usize)
        ensures
            r == self.spec_width(),
    {
        self.width
    }

    pub fn set_indent(&mut self, indent: usize)
        ensures
            final(self).spec_indent() == indent,
            final(self).spec_width() == old(self).spec_width(),
            final(self).text() == old(self).text(),
            final(self).column() == old(self).column(),
    {
        self.indent = indent;
    }

    pub fn indent(&mut self, amount: usize)
        requires
            old(self).spec_indent() + amount <= usize::MAX,
        ensures
            final(self).spec_indent() == old(self).spec_indent() + amount,
            final(self).spec_width() == old(self).spec_width(),
            final(self).text() == old(self).text(),
            final(self).column() == old(self).column(),
    {
        self.indent = self.indent + amount;
    }

    /// Decrease the indentation, not below zero.
    pub fn dedent(&mut self, amount: usize)
        ensures
            final(self).spec_indent() == sat_sub(old(self).spec_indent(), amount as nat),
            final(self).spec_width() == old(self).spec_width(),
            final(self).text() == old(self).text(),
            final(self).column() == old(self).column(),
    {
        self.indent = if self.indent >= amount {
            self.indent - amount
        } else {
            0
        };
    }

    pub fn write_blank(&mut self)
        ensures
            final(self).text() == old(self).text() + seq!['\n'],
            final(self).column() == 0,
            final(self).spec_width() == old(self).spec_width(),
            final(self).spec_indent() == old(self).spec_indent(),
    {
        self.buffer.push('\n');
        self.current_col = 0;
    }

    /// Write text as it is; the column becomes the byte length of its last line.
    pub fn write_raw(&mut self, text: &str)
        requires
            blen(text@) <= usize::MAX,
            !text@.contains('\n') ==> old(self).column() + blen(text@) <= usize::MAX,
        ensures
            final(self).text() == old(self).text() + text@,
            final(self).column() == if text@.contains('\n') {
                blen(text@.skip(last_newline(text@) + 1))
            } else {
                old(self).column() + blen(text@)
            },
            final(self).spec_width() == old(self).spec_width(),
            final(self).spec_indent() == old(self).spec_indent(),
    {
        push_str(&mut self.buffer, text);
        let chars = to_chars(text);
        let mut i = chars.len();
        while i > 0 && chars[i - 1] != '\n'
            invariant
                chars@ == text@,
                i <= chars@.len(),
                forall|k: int| i <= k < chars@.len() ==> chars@[k] != '\n',
            decreases i,
        {
            i = i - 1;
        }
        proof {
            lemma_last_newline(text@, i as int);
            assert(text@ =~= text@.take(i as int) + text@.skip(i as int));
            lemma_blen_add(text@.take(i as int), text@.skip(i as int));
        }
        if i == 0 {
            let n = byte_len(text);
            self.current_col = self.current_col + n;
        } else {
            let tail = crate::text::chars_to_string(&chars.as_slice()[i..chars.len()]);
            assert(tail@ =~= text@.skip(i as int));
            self.current_col = byte_len(tail.as_str());
        }
    }

    /// Write each line of `text` at the current indentation.
    pub fn write(&mut self, text: &str)
        ensures
            final(self).text() == old(self).text() + indent_lines(lines(text@), repeat_seq(' ', old(self).spec_indent())),
            final(self).column() == 0,
            final(self).spec_width() == old(self).spec_width(),
            final(self).spec_indent() == old(self).spec_indent(),
    {
        let ind = repeat_char(' ', self.indent);
        let ls = split_lines(text);
        push_indented_lines(&mut self.buffer, &ls, ind.as_str());
        self.current_col = 0;
    }

    /// Write a usage line: `Usage: prog args`.
    pub fn write_usage(&mut self, prog: &str, args: &str)
        ensures
            final(self).text() == old(self).text() + "Usage: "@ + prog@ + (if args@.len() > 0 {
                seq![' '] + args@
            } else {
                seq![]
            }) + seq!['\n'],
            final(self).column() == 0,
            final(self).spec_width() == old(self).spec_width(),
            final(self).spec_indent() == old(self).spec_indent(),
    {
        let ghost b0 = self.buffer@;
        push_str(&mut self.buffer, "Usage: ");
        push_str(&mut self.buffer, prog);
        if args.unicode_len() > 0 {
            self.buffer.push(' ');
            push_str(&mut self.buffer, args);
        }
        self.buffer.push('\n');
        self.current_col = 0;
        assert(self.buffer@ =~= b0 + "Usage: "@ + prog@ + (if args@.len() > 0 {
            seq![' '] + args@
        } else {
            seq![]
        }) + seq!['\n']);
    }

    /// Write a section heading, after a blank line unless there is one already.
    pub fn write_heading(&mut self, heading: &str)
        ensures
            final(self).text() == old(self).text() + (if old(self).text().len() > 0 && !seq_ends_with(
                old(self).text(),
                "\n\n"@,
            ) {
                seq!['\n']
            } else {
                seq![]
            }) + heading@ + ":\n"@,
            final(self).column() == 0,
            final(self).spec_width() == old(self).spec_width(),
            final(self).spec_indent() == old(self).spec_indent(),
    {
        let ghost b0 = self.buffer@;
        if self.buffer.unicode_len() > 0 && !ends_with(self.buffer.as_str(), "\n\n") {
            self.buffer.push('\n');
        }
        let ghost b1 = self.buffer@;
        push_str(&mut self.buffer, heading);
        push_str(&mut self.buffer, ":\n");
        self.current_col = 0;
        assert(self.buffer@ =~= b1 + heading@ + ":\n"@);
    }

    /// Write text wrapped to the width left after the indentation, paragraph by
    /// paragraph (they are separated by a blank line).
    pub fn write_paragraph(&mut self, text: &str)
        requires
            blen(text@) <= usize::MAX,
        ensures
            final(self).text() == old(self).text() + if text@.len() == 0 {
                Seq::<char>::empty()
            } else {
                paragraph_text(
                    text@,
                    sat_sub(old(self).spec_width(), old(self).spec_indent()),
                    repeat_seq(' ', old(self).spec_indent()),
                )
            },
            text@.len() > 0 ==> final(self).column() == 0,
            text@.len() == 0 ==> final(self).column() == old(self).column(),
            final(self).spec_width() == old(self).spec_width(),
            final(self).spec_indent() == old(self).spec_indent(),
    {
        if text.unicode_len() == 0 {
            assert(self.buffer@ =~= old(self).buffer@ + Seq::<char>::empty());
            return;
        }
        let mw = if self.width >= self.indent {
            self.width - self.indent
        } else {
            0
        };
        let ind = repeat_char(' ', self.indent);
        let ps = split_paragraphs(text);
        let ghost pv = ps.deep_view();
        proof {
            lemma_para_split_blen(text@, seq![]);
            assert(blen(Seq::<char>::empty()) == 0);
        }
        let ghost b0 = self.buffer@;
        let mut i: usize = 0;
        proof {
            lemma_para_split_nonempty(text@, seq![]);
        }
        while i < ps.len()
            invariant
                pv == ps.deep_view(),
                pv == para_split(text@, seq![]),
                pv.len() > 0,
                i <= pv.len(),
                blen(text@) <= usize::MAX,
                forall|k: int| 0 <= k < pv.len() ==> blen(#[trigger] pv[k]) <= blen(text@),
                i == 0 ==> self.buffer@ == b0,
                self.width == old(self).width,
                self.indent == old(self).indent,
                mw == sat_sub(self.width as nat, self.indent as nat),
                ind@ == repeat_seq(' ', self.indent as nat),
                i > 0 ==> self.buffer@ + paras_tail(pv.skip(i as int), mw as nat, ind@) == b0 + paragraph_text(text@, mw as nat, ind@),
            decreases pv.len() - i,
        {
            let ghost bi = self.buffer@;
            if i > 0 {
                self.buffer.push('\n');
                proof {
                    lemma_skip_first(pv, i as int);
                }
            }
            assert(ps@[i as int]@ == pv[i as int]);
            let wrapped = wrap_text(ps[i].as_str(), mw);
            let ls = split_lines(wrapped.as_str());
            push_indented_lines(&mut self.buffer, &ls, ind.as_str());
            proof {
                if i == 0 {
                    assert(pv.skip(1) =~= pv.drop_first());
                    assert(self.buffer@ + paras_tail(pv.skip(1), mw as nat, ind@) =~= b0 + paragraph_text(text@, mw as nat, ind@));
                } else {
                    assert(self.buffer@ + paras_tail(pv.skip(i + 1), mw as nat, ind@) =~= bi + paras_tail(pv.skip(i as int), mw as nat, ind@));
                }
            }
            i = i + 1;
        }
        assert(pv.skip(pv.len() as int) =~= Seq::<Seq<char>>::empty());
        assert(self.buffer@ =~= self.buffer@ + paras_tail(pv.skip(i as int), mw as nat, ind@));
        self.current_col = 0;
    }

    /// Write two-column entries: a term, then its description wrapped beside it,
    /// or on the next lines when the term is too long.
    pub fn write_definition_list(&mut self, items: &[(&str, &str)])
        requires
            forall|k: int| 0 <= k < items@.len() ==> blen((#[trigger] items@[k]).0@) <= usize::MAX && blen(items@[k].1@) <= usize::MAX,
        ensures
            final(self).text() == old(self).text() + def_list(pair_views(items@), old(self).spec_width()),
            final(self).column() == 0,
            final(self).spec_width() == old(self).spec_width(),
            final(self).spec_indent() == old(self).spec_indent(),
    {
        let ghost pv = pair_views(items@);
        let ghost b0 = self.buffer@;
        let mut i: usize = 0;
        assert(pv.skip(0) =~= pv);
        while i < items.len()
            invariant
                pv == pair_views(items@),
                i <= items@.len(),
                forall|k: int| 0 <= k < items@.len() ==> blen((#[trigger] items@[k]).0@) <= usize::MAX && blen(items@[k].1@) <= usize::MAX,
                self.buffer@ + def_list(pv.skip(i as int), self.width as nat) == b0 + def_list(pv, self.width as nat),
                self.width == old(self).width,
                self.indent == old(self).indent,
            decreases items@.len() - i,
        {
            proof {
                lemma_skip_first(pv, i as int);
            }
            let ghost bi = self.buffer@;
            let (term, desc) = items[i];
            push_def_item(&mut self.buffer, term, desc, self.width);
            assert(self.buffer@ + def_list(pv.skip(i + 1), self.width as nat) =~= bi + def_list(pv.skip(i as int), self.width as nat));
            i = i + 1;
        }
        assert(pv.skip(pv.len() as int) =~= Seq::<(Seq<char>, Seq<char>)>::empty());
        assert(self.buffer@ =~= self.buffer@ + def_list(pv.skip(i as int), self.width as nat));
        self.current_col = 0;
    }

    /// Write a definition list given as owned strings.
    pub fn write_definition_list_strings(&mut self, items: &[(String, String)])
        requires
            forall|k: int| 0 <= k < items@.len() ==> blen((#[trigger] items@[k]).0@) <= usize::MAX && blen(items@[k].1@) <= usize::MAX,
        ensures
            final(self).text() == old(self).text() + def_list(string_pair_views(items@), old(self).spec_width()),
            final(self).column() == 0,
            final(self).spec_width() == old(self).spec_width(),
            final(self).spec_indent() == old(self).spec_indent(),
    {
        let ghost pv = string_pair_views(items@);
        let ghost b0 = self.buffer@;
        let mut i: usize = 0;
        assert(pv.skip(0) =~= pv);
        while i < items.len()
            invariant
                pv == string_pair_views(items@),
                i <= items@.len(),
                forall|k: int| 0 <= k < items@.len() ==> blen((#[trigger] items@[k]).0@) <= usize::MAX && blen(items@[k].1@) <= usize::MAX,
                self.buffer@ + def_list(pv.skip(i as int), self.width as nat) == b0 + def_list(pv, self.width as nat),
                self.width == old(self).width,
                self.indent == old(self).indent,
            decreases items@.len() - i,
        {
            proof {
                lemma_skip_first(pv, i as int);
            }
            let ghost bi = self.buffer@;
            let item = &items[i];
            push_def_item(&mut self.buffer, item.0.as_str(), item.1.as_str(), self.width);
            assert(self.buffer@ + def_list(pv.skip(i + 1), self.width as nat) =~= bi + def_list(pv.skip(i as int), self.width as nat));
            i = i + 1;
        }
        assert(pv.skip(pv.len() as int) =~= Seq::<(Seq<char>, Seq<char>)>::empty());
        assert(self.buffer@ =~= self.buffer@ + def_list(pv.skip(i as int), self.width as nat));
        self.current_col = 0;
    }
}

/// Index of the last line break in `s`.
pub open spec fn last_newline(s: Seq<char>) -> int
    decreases s.len(),
{
    if s.len() == 0 {
        -1
    } else if s.last() == '\n' {
        s.len() - 1
    } else {
        last_newline(s.drop_last())
    }
}

proof fn lemma_last_newline(s: Seq<char>, i: int)
    requires
        0 <= i <= s.len(),
        forall|k: int| i <= k < s.len() ==> s[k] != '\n',
        i > 0 ==> s[i - 1] == '\n',
    ensures
        i > 0 ==> last_newline(s) == i - 1 && s.contains('\n'),
        i == 0 ==> !s.contains('\n'),
    decreases s.len(),
{
    if s.len() > 0 && i < s.len() {
        lemma_last_newline(s.drop_last(), i);
    }
    if i > 0 {
        assert(s[i - 1] == '\n');
    }
}

// =============================================================================
// Other helpers
// =============================================================================

/// A rule of `width` copies of `c`.
pub fn make_rule(c: char, width: usize) -> (r: String)
    ensures
        r@ == repeat_seq(c, width as nat),
{
    repeat_char(c, width)
}

/// Whether `b` bytes into `s` is the boundary between two characters.
pub open spec fn is_char_boundary(s: Seq<char>, b: nat) -> bool {
    exists|k: int| 0 <= k <= s.len() && blen(s.take(k)) == b
}

/// Text cut to `max_width` bytes, its end replaced by `...`, when it is longer;
/// just `...` when `max_width` is at most 3.
pub fn truncate_text(text: &str, max_width: usize) -> (r: String)
    requires
        blen(text@) <= usize::MAX,
        blen(text@) > max_width > 3 ==> is_char_boundary(text@, (max_width - 3) as nat),
    ensures
        blen(text@) <= max_width ==> r@ == text@,
        blen(text@) > max_width && max_width <= 3 ==> r@ == "..."@,
        blen(text@) > max_width > 3 ==> exists|k: int| 0 <= k <= text@.len() && blen(#[trigger] text@.take(k)) == max_width - 3 && r@ == text@.take(k) + "..."@,
{
    let n = byte_len(text);
    if n <= max_width {
        return str_of(text);
    }
    if max_width <= 3 {
        return String::from_str("...");
    }
    let target = max_width - 3;
    let chars = to_chars(text);
    let mut acc: usize = 0;
    let mut i: usize = 0;
    while acc < target && i < chars.len()
        invariant
            chars@ == text@,
            i <= chars@.len(),
            acc == blen(text@.take(i as int)),
            acc <= target,
            target == max_width - 3,
            is_char_boundary(text@, target as nat),
        decreases chars@.len() - i,
    {
        let w = char_len_utf8(chars[i]);
        proof {
            assert(text@.take(i + 1) =~= text@.take(i as int).push(chars@[i as int]));
            lemma_blen_push(text@.take(i as int), chars@[i as int]);
        }
        if w > target - acc {
            proof {
                lemma_no_boundary(text@, i as int, target as nat);
            }
            assert(false);
        }
        acc = acc + w;
        i = i + 1;
    }
    proof {
        if acc < target {
            assert(i == chars@.len());
            assert(text@.take(i as int) =~= text@);
        }
    }
    let mut r = crate::text::chars_to_string(&chars.as_slice()[0..i]);
    assert(r@ =~= text@.take(i as int));
    push_str(&mut r, "...");
    r
}

proof fn lemma_blen_take_mono(s: Seq<char>, a: int, b: int)
    requires
        0 <= a <= b <= s.len(),
    ensures
        blen(s.take(a)) <= blen(s.take(b)),
        a < b ==> blen(s.take(a)) < blen(s.take(b)),
    decreases b - a,
{
    if a < b {
        lemma_blen_take_mono(s, a, b - 1);
        assert(s.take(b) =~= s.take(b - 1).push(s[b - 1]));
        lemma_blen_push(s.take(b - 1), s[b - 1]);
    }
}

/// Between the prefix ending at `i` and the next one, no boundary at `t`.
proof fn lemma_no_boundary(s: Seq<char>, i: int, t: nat)
    requires
        0 <= i < s.len(),
        blen(s.take(i)) < t < blen(s.take(i + 1)),
    ensures
        !is_char_boundary(s, t),
{
    if is_char_boundary(s, t) {
        let k = choose|k: int| 0 <= k <= s.len() && blen(s.take(k)) == t;
        if k <= i {
            lemma_blen_take_mono(s, k, i);
        } else {
            lemma_blen_take_mono(s, i + 1, k);
        }
    }
}

/// The lines of `text` wrapped to `width`.
pub fn split_into_lines(text: &str, width: usize) -> (r: Vec<String>)
    requires
        blen(text@) <= usize::MAX,
    ensures
        r.deep_view() == lines(wrap_spec(text@, width as nat)),
{
    let w = wrap_text(text, width);
    split_lines(w.as_str())
}

} // verus!
