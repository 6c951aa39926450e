use libcosyc::pretty::{from_env, supports_colour, Colour, Decoration, PrettyPrinter, Style};
use libcosyc::text::{decimal_string, decimal_width, safe_sub, saturating_add};

#[test]
fn plain_text_is_written_as_it_is() {
    let mut printer = PrettyPrinter::new(false);
    let mut out = String::new();
    printer.write(&mut out, "let x = 'a' + \"b\\n\";");
    assert_eq!(out, "let x = 'a' + \"b\\n\";");
    assert_eq!(printer.column(), 20);
}

#[test]
fn control_characters_are_escaped() {
    let mut printer = PrettyPrinter::new(false);
    let mut out = String::new();
    printer.write(&mut out, "a\u{7}b\u{1b}[0m");
    assert_eq!(out, "a\\u{7}b\\u{1b}[0m");
    assert_eq!(printer.column(), 16);
}

#[test]
fn whitespace_becomes_a_space() {
    let mut printer = PrettyPrinter::new(false);
    let mut out = String::new();
    printer.write(&mut out, "a\tb\u{a0}c");
    assert_eq!(out, "a b c");
    assert_eq!(printer.column(), 5);
}

#[test]
fn every_line_break_is_one_newline() {
    let mut printer = PrettyPrinter::new(false);
    let mut out = String::new();
    printer.write(&mut out, "a\r\nb\rc\nd\n\re");
    assert_eq!(out, "a\nb\nc\nd\n\ne");
    assert_eq!(printer.column(), 1);
}

#[test]
fn line_break_across_two_writes_counts_twice() {
    let mut printer = PrettyPrinter::new(false);
    let mut out = String::new();
    printer.write(&mut out, "a\r");
    printer.write(&mut out, "\nb");
    assert_eq!(out, "a\n\nb");
}

#[test]
fn indentation_is_written_before_the_next_character() {
    let mut printer = PrettyPrinter::new(false);
    let mut out = String::new();
    printer.indent_push(4);
    printer.write(&mut out, "a\n\nb");
    assert_eq!(out, "    a\n\n    b");
    assert_eq!(printer.column(), 5);
    printer.write(&mut out, "\n");
    assert_eq!(printer.column(), 0);
    printer.indent_pop();
    printer.write(&mut out, "c");
    assert_eq!(out, "    a\n\n    b\nc");
}

#[test]
fn indentation_comes_before_quotes_and_spaces() {
    let mut printer = PrettyPrinter::new(false);
    let mut out = String::new();
    printer.indent_push(2);
    printer.write(&mut out, "a\n'b'\n c");
    assert_eq!(out, "  a\n  'b'\n   c");
}

#[test]
fn stash_aligns_continuation_lines() {
    let mut printer = PrettyPrinter::new(false);
    let mut out = String::new();
    printer.write(&mut out, "error: ");
    assert_eq!(printer.indent_stash(), 7);
    assert_eq!(printer.indent(), 7);
    printer.write(&mut out, "first\nsecond");
    printer.indent_pop();
    assert_eq!(printer.indent(), 0);
    printer.write(&mut out, "\nthird");
    assert_eq!(out, "error: first\n       second\nthird");
}

#[test]
fn pop_without_push_gives_no_indentation() {
    let mut printer = PrettyPrinter::default();
    printer.indent_pop();
    assert_eq!(printer.indent(), 0);
    printer.indent_push(3);
    printer.indent_push(5);
    printer.indent_pop();
    assert_eq!(printer.indent(), 3);
    printer.indent_pop();
    assert_eq!(printer.indent(), 0);
    printer.indent_pop();
    assert_eq!(printer.indent(), 0);
}

#[test]
fn skip_and_repeat_move_the_column() {
    let mut printer = PrettyPrinter::new(false);
    let mut out = String::new();
    printer.skip(&mut out, 3);
    printer.repeat(&mut out, 4, '^');
    printer.repeat(&mut out, 0, '-');
    assert_eq!(out, "   ^^^^");
    assert_eq!(printer.column(), 7);
    printer.writeln(&mut out);
    assert_eq!(printer.column(), 0);
    printer.indent_push(2);
    printer.repeat(&mut out, 1, '\'');
    assert_eq!(out, "   ^^^^\n  '");
    assert_eq!(printer.column(), 3);
}

#[test]
fn styles_are_left_out_without_colour() {
    let mut printer = PrettyPrinter::new(false);
    assert!(!printer.use_colour());
    let mut out = String::new();
    printer.write_style(&mut out, Colour::Red.decorated(Decoration::Bold));
    printer.write_style_fg(&mut out, Colour::Red);
    printer.write_style_bg(&mut out, Colour::Red);
    printer.clear_style(&mut out);
    assert_eq!(out, "");
}

#[test]
fn styles_are_one_sequence() {
    let mut printer = PrettyPrinter::new(true);
    assert!(printer.use_colour());
    let mut out = String::new();
    printer.write_style(&mut out, Colour::BrightRed.decorated(Decoration::Bold));
    assert_eq!(out, "\x1B[0;1;91m");
    out.clear();
    printer.write_style(&mut out, Style::default());
    assert_eq!(out, "\x1B[0m");
    out.clear();
    printer.write_style(&mut out, Style::from(Colour::BrightCyan));
    assert_eq!(out, "\x1B[0;96m");
    out.clear();
    printer.write_style(&mut out, Style::from(Decoration::Underline));
    assert_eq!(out, "\x1B[0;4m");
    out.clear();
    printer.write_style(&mut out, Colour::Grey.with_bg(Colour::Blue));
    assert_eq!(out, "\x1B[0;37;44m");
    out.clear();
    printer.write_style(&mut out, Decoration::Italic.with_bg(Colour::BrightGreen));
    assert_eq!(out, "\x1B[0;3;102m");
    out.clear();
    printer.write_style(
        &mut out,
        Decoration::Strikethrough.with_fg(Colour::Yellow).with_bg(Colour::Black),
    );
    assert_eq!(out, "\x1B[9;33;40m");
    assert_eq!(printer.column(), 0);
}

#[test]
fn a_style_stays_until_the_next_one() {
    let mut printer = PrettyPrinter::new(true);
    let mut out = String::new();
    printer.write_style(&mut out, Style::from(Colour::Red));
    printer.write(&mut out, "a\nb");
    printer.skip(&mut out, 1);
    printer.write(&mut out, "c");
    assert_eq!(out, "\x1B[0;31ma\nb c");
    assert_eq!(printer.column(), 3);
}

#[test]
fn single_parameters() {
    let mut printer = PrettyPrinter::new(true);
    let mut out = String::new();
    printer.write_style_fg(&mut out, Colour::Magenta);
    printer.write_style_bg(&mut out, Colour::Magenta);
    printer.clear_style(&mut out);
    assert_eq!(out, "\x1B[35m\x1B[45m\x1B[0m");
}

#[test]
fn style_builders() {
    let style = Style::default().decorated(Decoration::Dimmed).with_fg(Colour::Cyan);
    assert_eq!(
        style,
        Style { decoration: Some(Decoration::Dimmed), bg: None, fg: Some(Colour::Cyan) }
    );
    assert_eq!(style.decoration_number(), Some(2));
    assert_eq!(style.fg_number(), Some(36));
    assert_eq!(style.bg_number(), None);
    assert_eq!(style.with_bg(Colour::BrightGrey).bg_number(), Some(107));
    assert_eq!(Colour::Black.code(), 30);
    assert_eq!(Colour::BrightGrey.code(), 97);
    assert_eq!(Decoration::Reversed.code(), 7);
    assert_eq!(Decoration::Hidden.with_fg(Colour::Green), Colour::Green.decorated(Decoration::Hidden));
}

#[test]
fn decimal_numbers() {
    assert_eq!(decimal_string(0), "0");
    assert_eq!(decimal_string(7), "7");
    assert_eq!(decimal_string(10), "10");
    assert_eq!(decimal_string(9075), "9075");
    assert_eq!(decimal_string(usize::MAX), usize::MAX.to_string());
    assert_eq!(decimal_width(0), 1);
    assert_eq!(decimal_width(9), 1);
    assert_eq!(decimal_width(10), 2);
    assert_eq!(decimal_width(9999), 4);
    assert_eq!(decimal_width(10000), 5);
    assert_eq!(decimal_width(usize::MAX), usize::MAX.to_string().len());
}

#[test]
fn arithmetic_that_stops_at_the_ends() {
    assert_eq!(safe_sub(5, 3), 2);
    assert_eq!(safe_sub(3, 5), 0);
    assert_eq!(saturating_add(2, 3), 5);
    assert_eq!(saturating_add(usize::MAX, 3), usize::MAX);
}

#[test]
fn colour_is_for_terminals() {
    assert!(!supports_colour(false, None, false));
    assert!(!supports_colour(false, Some("1"), false));
    assert!(supports_colour(true, None, false));
}

#[test]
fn the_environment_decides_on_colour() {
    assert!(!supports_colour(true, None, true));
    assert!(supports_colour(true, Some("1"), true));
    assert!(supports_colour(true, Some(""), true));
    assert!(!supports_colour(true, Some("0"), true));
    assert!(!supports_colour(true, Some("0"), false));
    assert!(supports_colour(true, Some("00"), false));
}

#[test]
fn printer_for_a_terminal() {
    assert!(from_env(true, true, None, false).use_colour());
    assert!(!from_env(false, true, None, false).use_colour());
    assert!(!from_env(true, false, None, false).use_colour());
    assert!(!from_env(true, true, None, true).use_colour());
    assert_eq!(from_env(true, true, None, false).column(), 0);
}
