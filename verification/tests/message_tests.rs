use libcosyc::message::{Message, TextFragment};
use libcosyc::source::SourceMap;
use libcosyc::span::{Location, Span};

fn files_with(path: &str, source: &str) -> SourceMap {
    let mut files = SourceMap::new();
    files.load_file(path, Ok(String::from(source))).unwrap();
    files
}

#[test]
fn template_without_holes_is_its_own_text() {
    let files = SourceMap::new();
    let message = Message::new("nothing to fill in");
    assert_eq!(message.show(&files), "nothing to fill in");
}

#[test]
fn holes_are_filled_in_order() {
    let files = SourceMap::new();
    let message = Message::new("expected {} but got {}")
        .with_arg(TextFragment::text("`)`"))
        .with_arg(TextFragment::text("`]`"));
    assert_eq!(message.show(&files), "expected `)` but got `]`");
}

#[test]
fn holes_without_arguments_stay() {
    let files = SourceMap::new();
    let message = Message::new("{} and {} and {}").with_arg(TextFragment::text("one"));
    assert_eq!(message.show(&files), "one and {} and {}");
}

#[test]
fn arguments_without_holes_are_left_out() {
    let files = SourceMap::new();
    let message = Message::new("no hole")
        .with_arg(TextFragment::text("one"))
        .with_arg(TextFragment::text("two"));
    assert_eq!(message.show(&files), "no hole");
}

#[test]
fn braces_that_are_no_hole_stay() {
    let files = SourceMap::new();
    let message = Message::new("{{}} { } }{ {").with_arg(TextFragment::text("x"));
    assert_eq!(message.show(&files), "{x} { } }{ {");
}

#[test]
fn code_fragment_quotes_the_source() {
    let files = files_with("main.cy", "let `x` = 1");
    let location = Location { span: Span::new(4..7), file_id: 0 };
    let message = Message::new("unknown name {}").with_arg(TextFragment::Code(location));
    assert_eq!(message.show(&files), "unknown name `x`");
    assert_eq!(TextFragment::from(location).show(&files), "`x`");
}

#[test]
fn code_fragment_of_an_unknown_file_is_empty() {
    let files = SourceMap::new();
    let location = Location { span: Span::new(4..7), file_id: 0 };
    let message = Message::new("unknown name {}!").with_arg(TextFragment::Code(location));
    assert_eq!(message.show(&files), "unknown name !");
}

#[test]
fn write_to_string_counts_bytes() {
    let files = files_with("main.cy", "é = 1");
    let location = Location { span: Span::new(0..2), file_id: 0 };
    let message = Message::new("ü: {}{}")
        .with_arg(TextFragment::Code(location))
        .with_arg(TextFragment::text("!"));
    let mut dest = String::from("so far, ");
    assert_eq!(message.write_to_string(&files, &mut dest), 7);
    assert_eq!(dest, "so far, ü: é!");
    let mut dest = String::new();
    assert_eq!(TextFragment::text("añb").write_to_string(&files, &mut dest), 4);
    assert_eq!(dest, "añb");
}
