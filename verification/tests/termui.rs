//! Tests of the termui module.

#[allow(unused_imports)]
use std::sync::Arc;
use click::termui::{BLACK, BLUE, BRIGHT_BLACK, BRIGHT_BLUE, BRIGHT_CYAN, BRIGHT_GREEN, BRIGHT_MAGENTA, BRIGHT_RED, BRIGHT_WHITE, BRIGHT_YELLOW, CYAN, Color, GREEN, MAGENTA, ProgressBar, RED, RESET, WHITE, YELLOW, strip_ansi_codes, style};
use click::termui::{progressbar, prompt_reply, prompt_text, should_use_color, size_from_env, trim_newline, tty_from_env, confirm_prompt, confirm_reply, PromptReply};
#[allow(unused_imports)]
use click::parameter::Parameter;
#[allow(unused_imports)]
use click::argument::AnyTypeConverter;
#[allow(unused_imports)]
use click::types::{TypeConverter, FromValue};
#[allow(unused_imports)]
use click::group::CommandLike;
#[allow(unused_imports)]
use click::completion::ShellComplete;

#[test]
fn test_color_codes() {
    assert_eq!(Color::Red.fg_code(), 31);
    assert_eq!(Color::Red.bg_code(), 41);
    assert_eq!(Color::BrightGreen.fg_code(), 92);
    assert_eq!(Color::BrightGreen.bg_code(), 102);
    assert_eq!(Color::Reset.fg_code(), 39);
    assert_eq!(Color::Reset.bg_code(), 49);
}

#[test]
fn test_style_basic() {
    let styled = style(
        "hello", None, None, false, false, false, false, false, false, false, false,
    );
    assert_eq!(styled, "hello");
}

#[test]
fn test_style_with_color() {
    let styled = style(
        "hello",
        Some(Color::Red),
        None,
        false,
        false,
        false,
        false,
        false,
        false,
        false,
        true,
    );
    assert_eq!(styled, "\x1b[31mhello\x1b[0m");
}

#[test]
fn test_style_bold() {
    let styled = style(
        "hello", None, None, true, false, false, false, false, false, false, true,
    );
    assert_eq!(styled, "\x1b[1mhello\x1b[0m");
}

#[test]
fn test_style_multiple() {
    let styled = style(
        "hello",
        Some(Color::Green),
        Some(Color::Black),
        true,
        false,
        true,
        false,
        false,
        false,
        false,
        true,
    );
    // Should have: bold (1), underline (4), fg green (32), bg black (40)
    assert!(styled.starts_with("\x1b["));
    assert!(styled.contains("1"));
    assert!(styled.contains("4"));
    assert!(styled.contains("32"));
    assert!(styled.contains("40"));
    assert!(styled.ends_with("\x1b[0m"));
}

#[test]
fn test_strip_ansi_codes() {
    let styled = "\x1b[31mhello\x1b[0m world";
    let stripped = strip_ansi_codes(styled);
    assert_eq!(stripped, "hello world");

    let plain = "no codes here";
    assert_eq!(strip_ansi_codes(plain), "no codes here");
}

#[test]
fn test_strip_ansi_codes_complex() {
    let styled = "\x1b[1;31;40mcomplex\x1b[0m";
    let stripped = strip_ansi_codes(styled);
    assert_eq!(stripped, "complex");
}

#[test]
fn test_progress_bar_render() {
    let bar = ProgressBar::new(100, Some("Test"), false, true, true, 20);
    let output = bar.render();
    assert!(output.contains("Test"));
    assert!(output.contains("["));
    assert!(output.contains("]"));
    assert!(output.contains("0/100"));
    assert!(output.contains("0%"));
}

#[test]
fn test_progress_bar_update() {
    let mut bar = ProgressBar::new(100, None, false, true, false, 10);
    bar.update(50);
    let output = bar.render();
    assert!(output.contains("50%"));
}

#[test]
fn test_progress_bar_finish() {
    let mut bar = ProgressBar::new(100, None, false, true, false, 10);
    bar.finish();
    let output = bar.render();
    assert!(output.contains("100%"));
    assert!(bar.finished);
}

#[test]
fn test_progress_bar_zero_length() {
    let bar = ProgressBar::new(0, None, false, true, false, 10);
    let output = bar.render();
    assert!(output.contains("0%"));
}

#[test]
fn test_color_constants() {
    assert_eq!(BLACK, Color::Black);
    assert_eq!(RED, Color::Red);
    assert_eq!(GREEN, Color::Green);
    assert_eq!(YELLOW, Color::Yellow);
    assert_eq!(BLUE, Color::Blue);
    assert_eq!(MAGENTA, Color::Magenta);
    assert_eq!(CYAN, Color::Cyan);
    assert_eq!(WHITE, Color::White);
    assert_eq!(BRIGHT_BLACK, Color::BrightBlack);
    assert_eq!(BRIGHT_RED, Color::BrightRed);
    assert_eq!(BRIGHT_GREEN, Color::BrightGreen);
    assert_eq!(BRIGHT_YELLOW, Color::BrightYellow);
    assert_eq!(BRIGHT_BLUE, Color::BrightBlue);
    assert_eq!(BRIGHT_MAGENTA, Color::BrightMagenta);
    assert_eq!(BRIGHT_CYAN, Color::BrightCyan);
    assert_eq!(BRIGHT_WHITE, Color::BrightWhite);
    assert_eq!(RESET, Color::Reset);
}

#[test]
fn test_style_all_options() {
    let styled = style(
        "test",
        Some(Color::Blue),
        Some(Color::White),
        true,  // bold
        true,  // dim
        true,  // underline
        true,  // overline
        true,  // italic
        true,  // blink
        true,  // strikethrough
        true,  // reset
    );
    assert!(styled.starts_with("\x1b["));
    assert!(styled.contains("1")); // bold
    assert!(styled.contains("2")); // dim
    assert!(styled.contains("3")); // italic
    assert!(styled.contains("4")); // underline
    assert!(styled.contains("5")); // blink
    assert!(styled.contains("9")); // strikethrough
    assert!(styled.contains("53")); // overline
    assert!(styled.contains("34")); // blue fg
    assert!(styled.contains("47")); // white bg
    assert!(styled.ends_with("\x1b[0m"));
}

#[test]
fn test_style_no_reset() {
    let styled = style(
        "hello",
        Some(Color::Red),
        None,
        false,
        false,
        false,
        false,
        false,
        false,
        false,
        false,
    );
    assert!(styled.starts_with("\x1b[31m"));
    assert!(!styled.ends_with("\x1b[0m"));
}

#[test]
fn test_prompt_helpers() {
    assert_eq!(prompt_text("Name", None), "Name: ");
    assert_eq!(prompt_text("Name", Some("bob")), "Name [bob]: ");
    assert_eq!(prompt_reply("", true), PromptReply::UseDefault);
    assert_eq!(prompt_reply("", false), PromptReply::Required);
    assert_eq!(prompt_reply("x", false), PromptReply::Value);
    assert_eq!(trim_newline("abc\r\n"), "abc");
    assert_eq!(trim_newline("abc\n"), "abc");
    assert_eq!(trim_newline("abc"), "abc");
    assert_eq!(trim_newline("abc\r"), "abc\r");
}

#[test]
fn test_confirm_helpers() {
    assert_eq!(confirm_prompt("Go on?", Some(true)), "Go on? [Y/n]: ");
    assert_eq!(confirm_prompt("Go on?", None), "Go on? [y/n]: ");
    assert_eq!(confirm_reply("YES", None, false).unwrap().unwrap(), true);
    assert_eq!(confirm_reply("", Some(false), false).unwrap().unwrap(), false);
    assert!(confirm_reply("n", None, true).unwrap().is_err());
    assert!(confirm_reply("maybe", None, false).is_none());
    assert!(confirm_reply("", None, false).is_none());
}

#[test]
fn test_terminal_from_env() {
    assert_eq!(tty_from_env(true, Some("xterm"), true, true), Some(false));
    assert_eq!(tty_from_env(false, Some("dumb"), true, false), Some(false));
    assert_eq!(tty_from_env(false, Some("xterm"), false, false), Some(true));
    assert_eq!(tty_from_env(false, Some(""), false, true), Some(true));
    assert_eq!(tty_from_env(false, None, false, false), None);
    assert_eq!(size_from_env(Some("120"), Some("40")), Some((120, 40)));
    assert_eq!(size_from_env(Some("0"), Some("40")), None);
    assert_eq!(size_from_env(Some("x"), Some("40")), None);
    assert_eq!(size_from_env(None, Some("40")), None);
    assert!(should_use_color(Some(true), false));
    assert!(!should_use_color(Some(false), true));
    assert!(should_use_color(None, true));
}

#[test]
fn test_progressbar_advance() {
    let mut bar = progressbar(3, None, Some("Work"));
    assert_eq!(bar.length, 3);
    bar.advance(true);
    bar.advance(true);
    assert_eq!(bar.position, 2);
    assert!(!bar.finished);
    bar.advance(false);
    assert!(bar.finished);
    assert_eq!(bar.position, 3);
    let bar = progressbar(3, Some(10), None);
    assert_eq!(bar.length, 10);
    assert!(bar.render_at(0).contains("0/10"));
}

#[test]
fn test_strip_undoes_style_and_is_idempotent() {
    let text = "plain words";
    let styled = style(text, Some(Color::Green), Some(Color::Black), true, true, true, true, true, true, true, true);
    assert_eq!(strip_ansi_codes(&styled), text);
    let once = strip_ansi_codes("\x1b[1mA\x1b[0m\x1bB");
    assert_eq!(strip_ansi_codes(&once), once);
}
