use libcosyc::lines::{find_line, find_line_and_col, find_line_and_col_span, str_get_lines};
use libcosyc::source::SourceFile;
use libcosyc::span::{Location, Span};

#[test]
fn lines_of_three_lines() {
    let lines = str_get_lines("a\nbb\nccc");
    assert_eq!(lines, vec![Span::new(0..1), Span::new(2..4), Span::new(5..8)]);
}

#[test]
fn find_line_of_three_lines() {
    let file = SourceFile::new(0, String::from("a\nbb\nccc"));
    assert_eq!(file.find_line(0), 1);
    assert_eq!(file.find_line(2), 2);
    assert_eq!(file.find_line(5), 3);
    assert_eq!(file.find_line_and_col(5), (3, 1));
}

#[test]
fn every_offset_of_three_lines() {
    let file = SourceFile::new(0, String::from("a\nbb\nccc"));
    let expected = [(1, 1), (1, 2), (2, 1), (2, 2), (2, 3), (3, 1), (3, 2), (3, 3), (3, 4)];
    for (pos, at) in expected.iter().enumerate() {
        assert_eq!(file.find_line_and_col(pos), *at);
    }
    // behind the text: still the last line
    assert_eq!(file.find_line(100), 3);
    assert_eq!(file.find_line_and_col(100), (3, 96));
}

#[test]
fn empty_text_has_one_empty_line() {
    assert_eq!(str_get_lines(""), vec![Span::new(0..0)]);
    let file = SourceFile::new(3, String::new());
    assert_eq!(file.find_line(0), 1);
    assert_eq!(file.find_line_and_col(0), (1, 1));
}

#[test]
fn trailing_terminator_gives_a_last_empty_line() {
    assert_eq!(str_get_lines("ab\n"), vec![Span::new(0..2), Span::new(3..3)]);
    assert_eq!(str_get_lines("\n"), vec![Span::new(0..0), Span::new(1..1)]);
}

#[test]
fn carriage_return_line_feed_is_one_terminator() {
    let lines = str_get_lines("ab\r\ncd\rE\n\rf");
    assert_eq!(
        lines,
        vec![
            Span::new(0..2),
            Span::new(4..6),
            Span::new(7..8),
            Span::new(9..9),
            Span::new(10..11),
        ]
    );
    // an offset inside `\r\n` belongs to the line that it ends
    assert_eq!(find_line(&lines, 2), 1);
    assert_eq!(find_line(&lines, 3), 1);
    assert_eq!(find_line(&lines, 4), 2);
}

#[test]
fn line_feed_carriage_return_is_two_terminators() {
    assert_eq!(
        str_get_lines("a\n\rb"),
        vec![Span::new(0..1), Span::new(2..2), Span::new(3..4)]
    );
}

#[test]
fn multibyte_text_is_indexed_by_bytes() {
    let lines = str_get_lines("é\nü");
    assert_eq!(lines, vec![Span::new(0..2), Span::new(3..5)]);
    assert_eq!(find_line_and_col(&lines, 3), (2, 1));
}

#[test]
fn line_spans_by_number() {
    let file = SourceFile::new(0, String::from("a\nbb\nccc"));
    assert_eq!(file.find_line_span(0), None);
    assert_eq!(file.find_line_span(1), Some(&Span::new(0..1)));
    assert_eq!(file.find_line_span(3), Some(&Span::new(5..8)));
    assert_eq!(file.find_line_span(4), None);
    assert_eq!(file.lines().len(), 3);
    assert_eq!(file.src(), "a\nbb\nccc");
    assert_eq!(file.id(), 0);
}

#[test]
fn span_within_one_line() {
    let file = SourceFile::new(0, String::from("a\nbb\nccc"));
    assert_eq!(file.find_line_and_col_span(&Span::new(5..7)), ((3, 1), (3, 3)));
}

#[test]
fn span_that_takes_in_a_terminator_ends_on_its_line() {
    let file = SourceFile::new(0, String::from("a\nbb\nccc"));
    // `bb\n`: the end is the first column of line 3
    assert_eq!(file.find_line_and_col_span(&Span::new(2..5)), ((2, 1), (2, 3)));
    // `a\nbb\n`
    assert_eq!(file.find_line_and_col_span(&Span::new(0..5)), ((1, 1), (2, 3)));
    let lines = str_get_lines("a\nbb\nccc");
    assert_eq!(find_line_and_col_span(&lines, &Span::new(0..2)), ((1, 1), (1, 2)));
}

#[test]
fn span_over_two_lines() {
    let file = SourceFile::new(0, String::from("foo(\n  bar)"));
    assert_eq!(file.find_line_and_col_span(&Span::new(3..11)), ((1, 4), (2, 7)));
}

#[test]
fn empty_span_at_a_line_start_stays_there() {
    let file = SourceFile::new(0, String::from("a\nbb\nccc"));
    assert_eq!(file.find_line_and_col_span(&Span::new(2..2)), ((2, 1), (2, 1)));
}

#[test]
fn file_makes_locations() {
    let file = SourceFile::new(9, String::from("abc"));
    assert_eq!(
        file.location(&Span::new(1..2)),
        Location { span: Span::new(1..2), file_id: 9 }
    );
}
