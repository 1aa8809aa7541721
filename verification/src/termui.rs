//! Terminal helpers that compute text: colors and styles as ANSI escape codes,
//! removing those codes, answers to yes/no questions, and progress bars.

use vstd::prelude::*;
use std::time::Instant;
use crate::error::{ClickError, opt_view};
use crate::text::{dec_digits, join, join_seq, repeat_seq, repeat_char, str_of, u64_to_string, usize_to_string, push_str, str_eq, parse_usize, parse_usize_seq};

verus! {

// =============================================================================
// Colors and styles
// =============================================================================

/// Terminal colors.
#[derive(Debug, Clone, Copy, PartialEq, Eq, Structural)]
pub enum Color {
    Black,
    Red,
    Green,
    Yellow,
    Blue,
    Magenta,
    Cyan,
    White,
    BrightBlack,
    BrightRed,
    BrightGreen,
    BrightYellow,
    BrightBlue,
    BrightMagenta,
    BrightCyan,
    BrightWhite,
    Reset,
}

pub const BLACK: Color = Color::Black;
pub const RED: Color = Color::Red;
pub const GREEN: Color = Color::Green;
pub const YELLOW: Color = Color::Yellow;
pub const BLUE: Color = Color::Blue;
pub const MAGENTA: Color = Color::Magenta;
pub const CYAN: Color = Color::Cyan;
pub const WHITE: Color = Color::White;
pub const BRIGHT_BLACK: Color = Color::BrightBlack;
pub const BRIGHT_RED: Color = Color::BrightRed;
pub const BRIGHT_GREEN: Color = Color::BrightGreen;
pub const BRIGHT_YELLOW: Color = Color::BrightYellow;
pub const BRIGHT_BLUE: Color = Color::BrightBlue;
pub const BRIGHT_MAGENTA: Color = Color::BrightMagenta;
pub const BRIGHT_CYAN: Color = Color::BrightCyan;
pub const BRIGHT_WHITE: Color = Color::BrightWhite;
pub const RESET: Color = Color::Reset;

impl Color {
    /// The ANSI code of the color as foreground: 30 to 37, 90 to 97, 39 to reset.
    pub open spec fn spec_fg(self) -> u8 {
        match self {
            Color::Black => 30,
            Color::Red => 31,
            Color::Green => 32,
            Color::Yellow => 33,
            Color::Blue => 34,
            Color::Magenta => 35,
            Color::Cyan => 36,
            Color::White => 37,
            Color::BrightBlack => 90,
            Color::BrightRed => 91,
            Color::BrightGreen => 92,
            Color::BrightYellow => 93,
            Color::BrightBlue => 94,
            Color::BrightMagenta => 95,
            Color::BrightCyan => 96,
            Color::BrightWhite => 97,
            Color::Reset => 39,
        }
    }

    pub fn fg_code(self) -> (r: u8)
        ensures
            r == self.spec_fg(),
    {
        match self {
            Color::Black => 30,
            Color::Red => 31,
            Color::Green => 32,
            Color::Yellow => 33,
            Color::Blue => 34,
            Color::Magenta => 35,
            Color::Cyan => 36,
            Color::White => 37,
            Color::BrightBlack => 90,
            Color::BrightRed => 91,
            Color::BrightGreen => 92,
            Color::BrightYellow => 93,
            Color::BrightBlue => 94,
            Color::BrightMagenta => 95,
            Color::BrightCyan => 96,
            Color::BrightWhite => 97,
            Color::Reset => 39,
        }
    }

    /// The ANSI code of the color as background: ten more than as foreground.
    pub fn bg_code(self) -> (r: u8)
        ensures
            r == self.spec_fg() + 10,
    {
        match self {
            Color::Black => 40,
            Color::Red => 41,
            Color::Green => 42,
            Color::Yellow => 43,
            Color::Blue => 44,
            Color::Magenta => 45,
            Color::Cyan => 46,
            Color::White => 47,
            Color::BrightBlack => 100,
            Color::BrightRed => 101,
            Color::BrightGreen => 102,
            Color::BrightYellow => 103,
            Color::BrightBlue => 104,
            Color::BrightMagenta => 105,
            Color::BrightCyan => 106,
            Color::BrightWhite => 107,
            Color::Reset => 49,
        }
    }
}

/// `code` when `on`, else nothing.
pub open spec fn code_if(on: bool, code: Seq<char>) -> Seq<Seq<char>> {
    if on {
        seq![code]
    } else {
        seq![]
    }
}

/// The style codes in order: bold 1, dim 2, italic 3, underline 4, blink 5,
/// overline 53, strikethrough 9, then the colors.
pub open spec fn style_codes(
    fg: Option<Color>,
    bg: Option<Color>,
    bold: bool,
    dim: bool,
    underline: bool,
    overline: bool,
    italic: bool,
    blink: bool,
    strikethrough: bool,
) -> Seq<Seq<char>> {
    code_if(bold, seq!['1']) + code_if(dim, seq!['2']) + code_if(italic, seq!['3']) + code_if(underline, seq!['4'])
        + code_if(blink, seq!['5']) + code_if(overline, seq!['5', '3']) + code_if(strikethrough, seq!['9'])
        + match fg {
        Some(c) => seq![dec_digits(c.spec_fg() as nat)],
        None => seq![],
    } + match bg {
        Some(c) => seq![dec_digits((c.spec_fg() + 10) as nat)],
        None => seq![],
    }
}

/// The escape sequence that resets every style.
pub open spec fn reset_seq() -> Seq<char> {
    seq!['\x1b', '[', '0', 'm']
}

/// Text with a style: unchanged without codes, else the codes joined by `;` in
/// an escape sequence, the text, and a reset when asked.
pub open spec fn styled(text: Seq<char>, codes: Seq<Seq<char>>, reset: bool) -> Seq<char> {
    if codes.len() == 0 {
        text
    } else {
        seq!['\x1b', '['] + join_seq(codes, seq![';']) + seq!['m'] + text + if reset {
            reset_seq()
        } else {
            seq![]
        }
    }
}

fn push_code(codes: &mut Vec<String>, on: bool, code: &str)
    ensures
        final(codes).deep_view() == old(codes).deep_view() + code_if(on, code@),
{
    if on {
        let ghost od = codes.deep_view();
        codes.push(str_of(code));
        assert(codes.deep_view() =~= od + code_if(on, code@));
    } else {
        assert(codes.deep_view() =~= old(codes).deep_view() + code_if(on, code@));
    }
}

/// The codes of the flags, in order.
pub open spec fn flag_codes(
    bold: bool,
    dim: bool,
    underline: bool,
    overline: bool,
    italic: bool,
    blink: bool,
    strikethrough: bool,
) -> Seq<Seq<char>> {
    code_if(bold, seq!['1']) + code_if(dim, seq!['2']) + code_if(italic, seq!['3']) + code_if(underline, seq!['4'])
        + code_if(blink, seq!['5']) + code_if(overline, seq!['5', '3']) + code_if(strikethrough, seq!['9'])
}

/// The codes of the colors.
pub open spec fn color_codes(fg: Option<Color>, bg: Option<Color>) -> Seq<Seq<char>> {
    let a: Seq<Seq<char>> = match fg {
        Some(c) => seq![dec_digits(c.spec_fg() as nat)],
        None => seq![],
    };
    let b: Seq<Seq<char>> = match bg {
        Some(c) => seq![dec_digits((c.spec_fg() + 10) as nat)],
        None => seq![],
    };
    a + b
}

fn flag_codes_exec(
    bold: bool,
    dim: bool,
    underline: bool,
    overline: bool,
    italic: bool,
    blink: bool,
    strikethrough: bool,
) -> (r: Vec<String>)
    ensures
        r.deep_view() == flag_codes(bold, dim, underline, overline, italic, blink, strikethrough),
{
    proof {
        reveal_strlit("1");
        reveal_strlit("2");
        reveal_strlit("3");
        reveal_strlit("4");
        reveal_strlit("5");
        reveal_strlit("53");
        reveal_strlit("9");
    }
    assert("1"@ =~= seq!['1'] && "2"@ =~= seq!['2'] && "3"@ =~= seq!['3'] && "4"@ =~= seq!['4']);
    assert("5"@ =~= seq!['5'] && "53"@ =~= seq!['5', '3'] && "9"@ =~= seq!['9']);
    let mut codes: Vec<String> = Vec::new();
    assert(codes.deep_view() =~= Seq::<Seq<char>>::empty());
    push_code(&mut codes, bold, "1");
    assert(codes.deep_view() =~= code_if(bold, seq!['1']));
    push_code(&mut codes, dim, "2");
    push_code(&mut codes, italic, "3");
    push_code(&mut codes, underline, "4");
    push_code(&mut codes, blink, "5");
    push_code(&mut codes, overline, "53");
    push_code(&mut codes, strikethrough, "9");
    codes
}

fn push_color_codes(codes: &mut Vec<String>, fg: Option<Color>, bg: Option<Color>)
    ensures
        final(codes).deep_view() == old(codes).deep_view() + color_codes(fg, bg),
{
    let ghost c7 = codes.deep_view();
    match fg {
        Some(c) => {
            let t = u64_to_string(c.fg_code() as u64);
            codes.push(t);
            assert(codes.deep_view() =~= c7.push(dec_digits(c.spec_fg() as nat)));
        },
        None => {
            assert(codes.deep_view() =~= c7 + Seq::<Seq<char>>::empty());
        },
    }
    let ghost c8 = codes.deep_view();
    match bg {
        Some(c) => {
            let t = u64_to_string(c.bg_code() as u64);
            codes.push(t);
            assert(codes.deep_view() =~= c8.push(dec_digits((c.spec_fg() + 10) as nat)));
        },
        None => {},
    }
    assert(codes.deep_view() =~= c7 + color_codes(fg, bg));
}

/// The style codes.
fn style_codes_exec(
    fg: Option<Color>,
    bg: Option<Color>,
    bold: bool,
    dim: bool,
    underline: bool,
    overline: bool,
    italic: bool,
    blink: bool,
    strikethrough: bool,
) -> (r: Vec<String>)
    ensures
        r.deep_view() == style_codes(fg, bg, bold, dim, underline, overline, italic, blink, strikethrough),
{
    let mut codes = flag_codes_exec(bold, dim, underline, overline, italic, blink, strikethrough);
    push_color_codes(&mut codes, fg, bg);
    proof {
        let f = flag_codes(bold, dim, underline, overline, italic, blink, strikethrough);
        let a = match fg {
            Some(c) => seq![dec_digits(c.spec_fg() as nat)],
            None => Seq::<Seq<char>>::empty(),
        };
        let b = match bg {
            Some(c) => seq![dec_digits((c.spec_fg() + 10) as nat)],
            None => Seq::<Seq<char>>::empty(),
        };
        assert(f + (a + b) =~= f + a + b);
    }
    codes
}

/// Text with ANSI styles.
pub fn style(
    text: &str,
    fg: Option<Color>,
    bg: Option<Color>,
    bold: bool,
    dim: bool,
    underline: bool,
    overline: bool,
    italic: bool,
    blink: bool,
    strikethrough: bool,
    reset: bool,
) -> (r: String)
    ensures
        r@ == styled(text@, style_codes(fg, bg, bold, dim, underline, overline, italic, blink, strikethrough), reset),
{
    let codes = style_codes_exec(fg, bg, bold, dim, underline, overline, italic, blink, strikethrough);

    if codes.len() == 0 {
        return str_of(text);
    }
    let mut out = String::new();
    out.push('\x1b');
    out.push('[');
    proof {
        reveal_strlit(";");
        assert(";"@ =~= seq![';']);
    }
    let j = join(&codes, ";");
    assert(j@ == join_seq(codes.deep_view(), seq![';']));
    push_str(&mut out, j.as_str());
    out.push('m');
    push_str(&mut out, text);
    if reset {
        out.push('\x1b');
        out.push('[');
        out.push('0');
        out.push('m');
    }
    assert(out@ =~= styled(text@, codes.deep_view(), reset));
    out
}

// =============================================================================
// Removing escape codes
// =============================================================================

pub open spec fn is_ascii_letter(c: char) -> bool {
    ('a' <= c && c <= 'z') || ('A' <= c && c <= 'Z')
}

/// What follows an escape sequence's `ESC [`: everything after its first letter,
/// or nothing when it has none.
pub open spec fn after_sequence(s: Seq<char>) -> Seq<char>
    decreases s.len(),
{
    if s.len() == 0 {
        s
    } else if is_ascii_letter(s[0]) {
        s.drop_first()
    } else {
        after_sequence(s.drop_first())
    }
}

pub proof fn lemma_after_sequence_len(s: Seq<char>)
    ensures
        after_sequence(s).len() <= s.len(),
    decreases s.len(),
{
    if s.len() > 0 && !is_ascii_letter(s[0]) {
        lemma_after_sequence_len(s.drop_first());
    }
}

/// The text without escape sequences: each `ESC [ ... letter` goes, and so does
/// a lone `ESC`.
pub open spec fn stripped(s: Seq<char>) -> Seq<char>
    decreases s.len(),
{
    if s.len() == 0 {
        seq![]
    } else if s[0] == '\x1b' {
        if s.len() > 1 && s[1] == '[' {
            proof {
                lemma_after_sequence_len(s.skip(2));
            }
            stripped(after_sequence(s.skip(2)))
        } else {
            stripped(s.drop_first())
        }
    } else {
        seq![s[0]] + stripped(s.drop_first())
    }
}

/// Remove ANSI escape sequences.
pub fn strip_ansi_codes(text: &str) -> (r: String)
    ensures
        r@ == stripped(text@),
{
    let n = text.unicode_len();
    let mut out = String::new();
    let mut i: usize = 0;
    assert(text@.skip(0) =~= text@);
    while i < n
        invariant
            n == text@.len(),
            i <= n,
            stripped(text@) == out@ + stripped(text@.skip(i as int)),
        decreases n - i,
    {
        let ghost rest = text@.skip(i as int);
        let c = text.get_char(i);
        assert(rest[0] == c);
        if c == '\x1b' {
            if i + 1 < n && text.get_char(i + 1) == '[' {
                assert(rest[1] == '[');
                assert(rest.skip(2) =~= text@.skip(i + 2));
                let mut j: usize = i + 2;
                assert(text@.skip(j as int) =~= rest.skip(2));
                while j < n && !(('a' <= text.get_char(j) && text.get_char(j) <= 'z') || ('A' <= text.get_char(j)
                    && text.get_char(j) <= 'Z'))
                    invariant
                        n == text@.len(),
                        i + 2 <= j <= n,
                        after_sequence(rest.skip(2)) == after_sequence(text@.skip(j as int)),
                    decreases n - j,
                {
                    assert(text@.skip(j as int).drop_first() =~= text@.skip(j + 1));
                    j = j + 1;
                }
                if j < n {
                    assert(text@.skip(j as int).drop_first() =~= text@.skip(j + 1));
                    i = j + 1;
                } else {
                    assert(text@.skip(j as int) =~= Seq::<char>::empty());
                    i = n;
                }
            } else {
                assert(rest.drop_first() =~= text@.skip(i + 1));
                i = i + 1;
            }
        } else {
            let ghost o = out@;
            out.push(c);
            assert(rest.drop_first() =~= text@.skip(i + 1));
            assert(out@ + stripped(text@.skip(i + 1)) =~= o + (seq![c] + stripped(rest.drop_first())));
            i = i + 1;
        }
    }
    assert(text@.skip(n as int) =~= Seq::<char>::empty());
    assert(out@ + Seq::<char>::empty() =~= out@);
    out
}

// =============================================================================
// Yes or no
// =============================================================================

/// What `confirm` shows after its question: which answer is the default.
pub open spec fn confirm_suffix(default: Option<bool>) -> Seq<char> {
    match default {
        Some(true) => " [Y/n]: "@,
        Some(false) => " [y/N]: "@,
        None => " [y/n]: "@,
    }
}

/// The question `confirm` asks.
pub fn confirm_prompt(text: &str, default: Option<bool>) -> (r: String)
    ensures
        r@ == text@ + confirm_suffix(default),
{
    let suffix = match default {
        Some(true) => " [Y/n]: ",
        Some(false) => " [y/N]: ",
        None => " [y/n]: ",
    };
    crate::text::cat2(text, suffix)
}

/// The answer a reply gives (compared in lower case): nothing replied takes the
/// default.
pub open spec fn confirm_answer(reply: Seq<char>, lowered: Seq<char>, default: Option<bool>) -> Option<bool> {
    if reply.len() == 0 {
        default
    } else if lowered == "y"@ || lowered == "yes"@ {
        Some(true)
    } else if lowered == "n"@ || lowered == "no"@ {
        Some(false)
    } else {
        None
    }
}

/// What one reply to `confirm` leads to: the answer, the abort a refusal causes
/// when asked, or `None` to ask again.
pub fn confirm_reply(reply: &str, default: Option<bool>, abort: bool) -> (r: Option<Result<bool, ClickError>>)
    ensures
        match confirm_answer(reply@, crate::text::lower_of(reply@), default) {
            Some(true) => r == Some(Ok::<bool, ClickError>(true)),
            Some(false) => if abort {
                r matches Some(Err(ClickError::Abort))
            } else {
                r == Some(Ok::<bool, ClickError>(false))
            },
            None => r is None,
        },
{
    let lowered = crate::text::to_lower(reply);
    proof {
        reveal_strlit("y");
        reveal_strlit("yes");
        reveal_strlit("n");
        reveal_strlit("no");
    }
    let answer = if reply.unicode_len() == 0 {
        default
    } else if crate::text::str_eq(lowered.as_str(), "y") || crate::text::str_eq(lowered.as_str(), "yes") {
        Some(true)
    } else if crate::text::str_eq(lowered.as_str(), "n") || crate::text::str_eq(lowered.as_str(), "no") {
        Some(false)
    } else {
        None
    };
    match answer {
        Some(true) => Some(Ok(true)),
        Some(false) => if abort {
            Some(Err(ClickError::Abort))
        } else {
            Some(Ok(false))
        },
        None => None,
    }
}

/// The question `prompt` asks: the text, the default in brackets when there is
/// one, then a colon.
pub fn prompt_text(text: &str, default: Option<&str>) -> (r: String)
    ensures
        r@ == match default {
            Some(d) => text@ + " ["@ + d@ + "]: "@,
            None => text@ + ": "@,
        },
{
    match default {
        Some(d) => crate::text::cat4(text, " [", d, "]: "),
        None => crate::text::cat2(text, ": "),
    }
}

/// What one reply to `prompt` leads to, before its value is converted.
#[derive(Debug, Clone, Copy, PartialEq, Eq, Structural)]
pub enum PromptReply {
    /// Nothing was typed: the default is the answer.
    UseDefault,
    /// Nothing was typed and there is no default: ask again.
    Required,
    /// The reply is the value to convert.
    Value,
}

/// What a reply that was typed leads to once converted: the error shown before
/// asking again (the converter's message, or the two entries differing when
/// the value had to be typed twice), or `None` when the value is taken.
pub fn prompt_retry_message(conversion_error: Option<&str>, input: &str, repeated: Option<&str>) -> (r: Option<String>)
    ensures
        match conversion_error {
            Some(m) => r matches Some(x) && x@ == "Error: "@ + m@,
            None => match repeated {
                Some(a) => if a@ == input@ {
                    r is None
                } else {
                    r matches Some(x) && x@ == "Error: The two entered values do not match."@
                },
                None => r is None,
            },
        },
{
    match conversion_error {
        Some(m) => {
            proof {
                reveal_strlit("Error: ");
            }
            Some(crate::text::cat2("Error: ", m))
        },
        None => match repeated {
            Some(a) => if crate::text::str_eq(a, input) {
                None
            } else {
                Some(String::from_str("Error: The two entered values do not match."))
            },
            None => None,
        },
    }
}

/// The step a reply leads to: an empty reply takes the default, or is asked
/// again without one; anything else is converted.
pub fn prompt_reply(reply: &str, has_default: bool) -> (r: PromptReply)
    ensures
        r == if reply@.len() == 0 {
            if has_default {
                PromptReply::UseDefault
            } else {
                PromptReply::Required
            }
        } else {
            PromptReply::Value
        },
{
    if reply.unicode_len() == 0 {
        if has_default {
            PromptReply::UseDefault
        } else {
            PromptReply::Required
        }
    } else {
        PromptReply::Value
    }
}

/// Whether to write colors: as forced, else when the stream is a terminal.
pub fn should_use_color(color: Option<bool>, stream_is_tty: bool) -> (r: bool)
    ensures
        r == match color {
            Some(c) => c,
            None => stream_is_tty,
        },
{
    match color {
        Some(c) => c,
        None => stream_is_tty,
    }
}

/// A line as read, without its line ending: one `\n`, then one `\r` before it.
pub open spec fn without_newline(line: Seq<char>) -> Seq<char> {
    if line.len() > 0 && line.last() == '\n' {
        let l = line.drop_last();
        if l.len() > 0 && l.last() == '\r' {
            l.drop_last()
        } else {
            l
        }
    } else {
        line
    }
}

/// Remove the line ending from a line that was read.
pub fn trim_newline(line: &str) -> (r: String)
    ensures
        r@ == without_newline(line@),
{
    let v = crate::text::to_chars(line);
    let mut end = v.len();
    if end > 0 && v[end - 1] == '\n' {
        end = end - 1;
        if end > 0 && v[end - 1] == '\r' {
            end = end - 1;
        }
    }
    let mut out = String::new();
    let mut i: usize = 0;
    while i < end
        invariant
            i <= end <= v@.len(),
            v@ == line@,
            out@ == v@.take(i as int),
        decreases end - i,
    {
        out.push(v[i]);
        assert(v@.take(i + 1) =~= v@.take(i as int).push(v@[i as int]));
        i = i + 1;
    }
    proof {
        let l = line@;
        if l.len() > 0 && l.last() == '\n' {
            let d = l.drop_last();
            if d.len() > 0 && d.last() == '\r' {
                assert(d.drop_last() =~= v@.take(end as int));
            } else {
                assert(d =~= v@.take(end as int));
            }
        } else {
            assert(l =~= v@.take(end as int));
        }
    }
    out
}

// =============================================================================
// Progress bars
// =============================================================================

#[verifier::external_type_specification]
#[verifier::external_body]
pub struct ExInstant(Instant);

/// `Instant::now`: the current time.
#[verifier::external_body]
fn now() -> Instant {
    Instant::now()
}

/// `Instant::elapsed` and `Duration::as_millis`: the whole milliseconds since
/// `start`. It depends on the clock, so nothing is stated of it.
#[verifier::external_body]
fn elapsed_ms(start: &Instant) -> u128 {
    start.elapsed().as_millis()
}

/// A progress bar: how far along a known length the work is.
pub struct ProgressBar {
    pub length: usize,
    pub position: usize,
    pub label: Option<String>,
    pub show_eta: bool,
    pub show_percent: bool,
    pub show_pos: bool,
    /// Width of the bar in characters.
    pub width: usize,
    pub start_time: Instant,
    pub finished: bool,
}

/// `a / b` rounded to the nearest integer, ties to the even one.
pub open spec fn div_round_even(a: nat, b: nat) -> nat
    recommends
        b > 0,
{
    let q = a / b;
    let r = a % b;
    if 2 * r > b {
        q + 1
    } else if 2 * r < b {
        q
    } else if q % 2 == 1 {
        q + 1
    } else {
        q
    }
}

/// The whole percentage done.
pub open spec fn percent(pos: nat, len: nat) -> nat {
    if len > 0 {
        div_round_even(pos * 100, len)
    } else {
        0
    }
}

/// The number of filled cells.
pub open spec fn filled(pos: nat, len: nat, width: nat) -> nat {
    if len > 0 {
        pos * width / len
    } else {
        0
    }
}

/// Right-aligned in three places.
pub open spec fn pad3(s: Seq<char>) -> Seq<char> {
    if s.len() < 3 {
        repeat_seq(' ', (3 - s.len()) as nat) + s
    } else {
        s
    }
}

/// Two digits, with a leading zero.
pub open spec fn two_digits(n: nat) -> Seq<char> {
    if n < 10 {
        seq!['0'] + dec_digits(n)
    } else {
        dec_digits(n)
    }
}

/// The time left, from the time spent so far: `eta MM:SS`, or `eta Hh MMm` from
/// an hour.
pub open spec fn eta_text(remaining: nat, pos: nat, elapsed_ms: nat) -> Seq<char> {
    let secs = remaining * elapsed_ms / (pos * 1000);
    if secs < 3600 {
        "eta "@ + two_digits(secs / 60) + seq![':'] + two_digits(secs % 60)
    } else {
        "eta "@ + dec_digits(secs / 3600) + "h "@ + two_digits((secs % 3600) / 60) + seq!['m']
    }
}

impl ProgressBar {
    pub open spec fn wf(&self) -> bool {
        self.position <= self.length
    }

    /// The parts of the bar's line: label, bar, percentage, position and time left.
    pub open spec fn spec_parts(&self, elapsed: nat) -> Seq<Seq<char>> {
        let f = filled(self.position as nat, self.length as nat, self.width as nat);
        (match self.label {
            Some(l) => seq![l@],
            None => Seq::<Seq<char>>::empty(),
        }) + seq![seq!['['] + repeat_seq('#', f) + repeat_seq('-', (self.width - f) as nat) + seq![']']] + (if self.show_percent {
            seq![pad3(dec_digits(percent(self.position as nat, self.length as nat))) + seq!['%']]
        } else {
            Seq::<Seq<char>>::empty()
        }) + (if self.show_pos {
            seq![dec_digits(self.position as nat) + seq!['/'] + dec_digits(self.length as nat)]
        } else {
            Seq::<Seq<char>>::empty()
        }) + (if self.show_eta && self.position > 0 && !self.finished {
            seq![eta_text((self.length - self.position) as nat, self.position as nat, elapsed)]
        } else {
            Seq::<Seq<char>>::empty()
        })
    }

    /// A bar at the start of the work.
    pub fn new(length: usize, label: Option<&str>, show_eta: bool, show_percent: bool, show_pos: bool, width: usize) -> (r: Self)
        ensures
            r.wf(),
            r.length == length && r.position == 0 && !r.finished,
            opt_view(r.label) == match label {
                Some(l) => Some(l@),
                None => None::<Seq<char>>,
            },
            r.show_eta == show_eta && r.show_percent == show_percent && r.show_pos == show_pos && r.width == width,
    {
        ProgressBar {
            length,
            position: 0,
            label: match label {
                Some(l) => Some(str_of(l)),
                None => None,
            },
            show_eta,
            show_percent,
            show_pos,
            width,
            start_time: now(),
            finished: false,
        }
    }

    /// Advance by `n` items, up to the length; a finished bar stays.
    pub fn update(&mut self, n: usize)
        requires
            old(self).wf(),
        ensures
            final(self).wf(),
            final(self).position == if old(self).finished {
                old(self).position as int
            } else if old(self).position + n < old(self).length {
                old(self).position + n
            } else {
                old(self).length as int
            },
            final(self).length == old(self).length && final(self).finished == old(self).finished,
            final(self).width == old(self).width && final(self).label == old(self).label,
    {
        if self.finished {
            return;
        }
        if n < self.length - self.position {
            self.position = self.position + n;
        } else {
            self.position = self.length;
        }
    }

    /// Move to `pos`, up to the length; a finished bar stays.
    pub fn set_position(&mut self, pos: usize)
        requires
            old(self).wf(),
        ensures
            final(self).wf(),
            final(self).position == if old(self).finished {
                old(self).position
            } else if pos < old(self).length {
                pos
            } else {
                old(self).length
            },
            final(self).length == old(self).length && final(self).finished == old(self).finished,
            final(self).width == old(self).width && final(self).label == old(self).label,
    {
        if self.finished {
            return;
        }
        self.position = if pos < self.length {
            pos
        } else {
            self.length
        };
    }

    /// Mark the work done: at the end, finished.
    pub fn finish(&mut self)
        ensures
            final(self).position == old(self).length,
            final(self).finished,
            final(self).length == old(self).length,
            final(self).width == old(self).width && final(self).label == old(self).label,
    {
        if self.finished {
            self.position = self.length;
            return;
        }
        self.position = self.length;
        self.finished = true;
    }

    /// One step of iterating with the bar: an item came, so advance by one; or
    /// the items ran out, so finish.
    pub fn advance(&mut self, got_item: bool)
        requires
            old(self).wf(),
        ensures
            final(self).wf(),
            got_item ==> final(self).position == if old(self).finished {
                old(self).position as int
            } else if old(self).position + 1 < old(self).length {
                old(self).position + 1
            } else {
                old(self).length as int
            },
            got_item ==> final(self).finished == old(self).finished,
            !got_item ==> final(self).finished && final(self).position == old(self).length,
            final(self).length == old(self).length,
    {
        if got_item {
            self.update(1);
        } else {
            self.finish();
        }
    }

    /// The bar's line with the given time spent, in milliseconds.
    pub fn render_at(&self, elapsed: u64) -> (r: String)
        requires
            self.wf(),
        ensures
            r@ == join_seq(self.spec_parts(elapsed as nat), seq![' ']),
    {
        let mut parts: Vec<String> = Vec::new();
        match &self.label {
            Some(l) => {
                parts.push(l.clone());
            },
            None => {},
        }
        let ghost p0 = parts.deep_view();
        assert(p0 =~= match self.label {
            Some(l) => seq![l@],
            None => Seq::<Seq<char>>::empty(),
        });
        let p = self.position as u128;
        let len = self.length as u128;
        let w = self.width as u128;
        let ghost fv = filled(self.position as nat, self.length as nat, self.width as nat);
        let f: usize = if self.length > 0 {
            assert((p as int) * (w as int) / (len as int) <= w as int) by (nonlinear_arith)
                requires
                    p <= len,
                    len > 0,
            ;
            assert((p as int) * (w as int) <= 0xffff_ffff_ffff_ffff * 0xffff_ffff_ffff_ffff) by (nonlinear_arith)
                requires
                    p <= 0xffff_ffff_ffff_ffff,
                    w <= 0xffff_ffff_ffff_ffff,
            ;
            ((p * w) / len) as usize
        } else {
            0
        };
        assert(f == fv);
        let mut bar = String::new();
        bar.push('[');
        push_str(&mut bar, repeat_char('#', f).as_str());
        push_str(&mut bar, repeat_char('-', self.width - f).as_str());
        bar.push(']');
        assert(bar@ =~= seq!['['] + repeat_seq('#', fv) + repeat_seq('-', (self.width - fv) as nat) + seq![']']);
        parts.push(bar);
        let ghost p1 = parts.deep_view();
        if self.show_percent {
            assert((p as int) * 100 <= 0xffff_ffff_ffff_ffff * 100) by (nonlinear_arith)
                requires
                    p <= 0xffff_ffff_ffff_ffff,
            ;
            let pc: u128 = if self.length > 0 {
                let a = p * 100;
                let q = a / len;
                let rem = a % len;
                if 2 * rem > len {
                    q + 1
                } else if 2 * rem < len {
                    q
                } else if q % 2 == 1 {
                    q + 1
                } else {
                    q
                }
            } else {
                0
            };
            assert(pc == percent(self.position as nat, self.length as nat));
            let mut digits = String::new();
            crate::text::push_decimal_wide(&mut digits, pc);
            assert(digits@ =~= dec_digits(pc as nat));
            let mut t = String::new();
            let dl = digits.unicode_len();
            if dl < 3 {
                t = repeat_char(' ', 3 - dl);
            }
            push_str(&mut t, digits.as_str());
            t.push('%');
            assert(t@ =~= pad3(dec_digits(percent(self.position as nat, self.length as nat))) + seq!['%']);
            parts.push(t);
        }
        let ghost p2 = parts.deep_view();
        if self.show_pos {
            let mut t = usize_to_string(self.position);
            t.push('/');
            push_str(&mut t, usize_to_string(self.length).as_str());
            assert(t@ =~= dec_digits(self.position as nat) + seq!['/'] + dec_digits(self.length as nat));
            parts.push(t);
        }
        let ghost p3 = parts.deep_view();
        if self.show_eta && self.position > 0 && !self.finished {
            let remaining = (self.length - self.position) as u128;
            assert((remaining as int) * (elapsed as int) <= 0xffff_ffff_ffff_ffff * 0xffff_ffff_ffff_ffff) by (nonlinear_arith)
                requires
                    remaining <= 0xffff_ffff_ffff_ffff,
                    elapsed <= 0xffff_ffff_ffff_ffff,
            ;
            let secs = remaining * (elapsed as u128) / (p * 1000);
            let t = eta_exec(secs);
            assert(t@ =~= eta_text((self.length - self.position) as nat, self.position as nat, elapsed as nat));
            parts.push(t);
        }
        assert(parts.deep_view() =~= self.spec_parts(elapsed as nat));
        proof {
            reveal_strlit(" ");
            assert(" "@ =~= seq![' ']);
        }
        join(&parts, " ")
    }

    /// The bar's line now.
    pub fn render(&self) -> (r: String)
        requires
            self.wf(),
        ensures
            exists|e: u64| r@ == join_seq(self.spec_parts(e as nat), seq![' ']),
    {
        let ms = elapsed_ms(&self.start_time);
        let e: u64 = if ms > 0xffff_ffff_ffff_ffffu128 {
            u64::MAX
        } else {
            ms as u64
        };
        self.render_at(e)
    }
}

fn two_digits_exec(n: u64) -> (r: String)
    ensures
        r@ == two_digits(n as nat),
{
    if n < 10 {
        let mut s = String::new();
        s.push('0');
        push_str(&mut s, u64_to_string(n).as_str());
        s
    } else {
        u64_to_string(n)
    }
}

fn eta_exec(secs: u128) -> (r: String)
    ensures
        secs < 3600 ==> r@ == "eta "@ + two_digits(secs as nat / 60) + seq![':'] + two_digits(secs as nat % 60),
        secs >= 3600 ==> r@ == "eta "@ + dec_digits(secs as nat / 3600) + "h "@
            + two_digits((secs as nat % 3600) / 60) + seq!['m'],
{
    proof {
        reveal_strlit("eta ");
        reveal_strlit("h ");
    }
    let mut s = String::new();
    push_str(&mut s, "eta ");
    if secs < 3600 {
        push_str(&mut s, two_digits_exec((secs / 60) as u64).as_str());
        s.push(':');
        push_str(&mut s, two_digits_exec((secs % 60) as u64).as_str());
    } else {
        crate::text::push_decimal_wide(&mut s, secs / 3600);
        push_str(&mut s, "h ");
        push_str(&mut s, two_digits_exec(((secs % 3600) / 60) as u64).as_str());
        s.push('m');
    }
    s
}

/// The bar shown while iterating over `items` items: `length` when given, else
/// the number of items; with time left, percentage and position, 30 wide.
pub fn progressbar(items: usize, length: Option<usize>, label: Option<&str>) -> (r: ProgressBar)
    ensures
        r.wf(),
        r.length == match length {
            Some(n) => n,
            None => items,
        },
        r.position == 0 && !r.finished,
        r.show_eta && r.show_percent && r.show_pos && r.width == 30,
        opt_view(r.label) == match label {
            Some(l) => Some(l@),
            None => None::<Seq<char>>,
        },
{
    let len = match length {
        Some(n) => n,
        None => items,
    };
    ProgressBar::new(len, label, true, true, true, 30)
}

/// Whether a stream counts as a terminal, as far as the environment tells:
/// not under CI (`CI` or `GITHUB_ACTIONS` set) or with `TERM=dumb`; yes with
/// another non-empty `TERM`, with `TERM_PROGRAM`, or with `TTY` or `SSH_TTY`
/// set. `None`: the operating system must be asked.
pub open spec fn spec_tty_from_env(ci: bool, term: Option<Seq<char>>, term_program: bool, tty_var: bool) -> Option<bool> {
    if ci {
        Some(false)
    } else if term matches Some(t) && t == "dumb"@ {
        Some(false)
    } else if term matches Some(t) && t.len() > 0 {
        Some(true)
    } else if term_program || tty_var {
        Some(true)
    } else {
        None
    }
}

/// The terminal decision the environment allows (see `spec_tty_from_env`).
pub fn tty_from_env(ci: bool, term: Option<&str>, term_program: bool, tty_var: bool) -> (r: Option<bool>)
    ensures
        r == spec_tty_from_env(ci, opt_str_seq(term), term_program, tty_var),
{
    if ci {
        return Some(false);
    }
    proof {
        reveal_strlit("dumb");
    }
    match term {
        Some(t) => {
            if str_eq(t, "dumb") {
                return Some(false);
            }
            if t.unicode_len() > 0 {
                return Some(true);
            }
        },
        None => {},
    }
    if term_program || tty_var {
        Some(true)
    } else {
        None
    }
}

pub open spec fn opt_str_seq(o: Option<&str>) -> Option<Seq<char>> {
    match o {
        Some(s) => Some(s@),
        None => None,
    }
}

/// The terminal size that `COLUMNS` and `LINES` give, when both are positive
/// numbers.
pub open spec fn spec_size_from_env(cols: Option<Seq<char>>, rows: Option<Seq<char>>) -> Option<(usize, usize)> {
    match (cols, rows) {
        (Some(c), Some(r)) => match (parse_usize_seq(c), parse_usize_seq(r)) {
            (Some(w), Some(h)) => if w > 0 && h > 0 {
                Some((w, h))
            } else {
                None
            },
            _ => None,
        },
        _ => None,
    }
}

/// The terminal size from the environment, if it gives one.
pub fn size_from_env(cols: Option<&str>, rows: Option<&str>) -> (r: Option<(usize, usize)>)
    ensures
        r == spec_size_from_env(opt_str_seq(cols), opt_str_seq(rows)),
{
    match (cols, rows) {
        (Some(c), Some(r)) => match (parse_usize(c), parse_usize(r)) {
            (Some(w), Some(h)) => if w > 0 && h > 0 {
                Some((w, h))
            } else {
                None
            },
            _ => None,
        },
        _ => None,
    }
}

} // verus!
