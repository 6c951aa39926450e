use libcosyc::span::{Located, Location, SourceRef, Span};

#[test]
fn empty_span_has_no_length() {
    let span = Span::new(5..5);
    assert!(span.is_empty());
    assert_eq!(span.len(), 0);
}

#[test]
fn inverted_span_is_empty() {
    let span = Span::new(7..3);
    assert!(span.is_empty());
    assert_eq!(span.len(), 0);
}

#[test]
fn span_length_is_end_minus_start() {
    let span = Span::new(3..10);
    assert!(!span.is_empty());
    assert_eq!(span.len(), 7);
}

#[test]
fn shrink_by_nothing_changes_nothing() {
    let span = Span::new(5..5);
    assert_eq!(span.shrink(0, 0), span);
}

#[test]
fn shrink_strips_delimiters() {
    // a raw identifier between backticks
    let span = Span::new(10..17);
    assert_eq!(span.shrink(1, 1), Span::new(11..16));
    assert_eq!(span.shrink(2, 0), Span::new(12..17));
}

#[test]
fn join_covers_both_spans() {
    let a = Span::new(2..5);
    let b = Span::new(4..9);
    assert_eq!(a.join(&b), Span::new(2..9));
    assert_eq!(b.join(&a), Span::new(2..9));
}

#[test]
fn join_of_disjoint_spans_covers_the_gap() {
    let a = Span::new(0..1);
    let b = Span::new(20..30);
    assert_eq!(a.join(&b), Span::new(0..30));
    assert_eq!(b.join(&a), a.join(&b));
}

#[test]
fn diff_is_the_overlap() {
    let a = Span::new(2..5);
    let b = Span::new(4..9);
    assert_eq!(a.diff(&b), Span::new(4..5));
    assert_eq!(b.diff(&a), Span::new(4..5));
}

#[test]
fn diff_of_disjoint_spans_is_empty() {
    let a = Span::new(0..2);
    let b = Span::new(5..9);
    assert!(a.diff(&b).is_empty());
}

#[test]
fn slice_cuts_the_bytes_of_the_span() {
    let src = "let `x` = 1";
    assert_eq!(Span::new(4..7).slice(src), "`x`");
    assert_eq!(Span::new(4..7).shrink(1, 1).slice(src), "x");
    assert_eq!(Span::new(0..0).slice(src), "");
    assert_eq!(Span::new(0..src.len()).slice(src), src);
}

#[test]
fn try_slice_refuses_what_does_not_fit() {
    let src = "héllo";
    assert_eq!(Span::new(0..1).try_slice(src), Some("h"));
    assert_eq!(Span::new(1..3).try_slice(src), Some("é"));
    // inside the two bytes of `é`
    assert_eq!(Span::new(1..2).try_slice(src), None);
    assert_eq!(Span::new(2..3).try_slice(src), None);
    // behind the end
    assert_eq!(Span::new(3..7).try_slice(src), None);
    // inverted
    assert_eq!(Span::new(3..1).try_slice(src), None);
    assert!(Span::new(0..6).fits_in(src));
    assert!(!Span::new(0..7).fits_in(src));
}

#[test]
fn location_is_plain_data() {
    let location = Location { span: Span::new(1..2), file_id: 7 };
    assert_eq!(location.file_id, 7);
    assert_eq!(location.span, Span::new(1..2));
    let located = Located { value: 3u8, loc: location };
    assert_eq!(located.loc, location);
    let source_ref = SourceRef { value: "x", loc: location };
    assert_eq!(source_ref.value, "x");
}

#[test]
fn raw_form_of_a_location() {
    let location = Location { span: Span::new(12..345), file_id: 6 };
    assert_eq!(location.show(), "<[12..345] file 6>");
}
