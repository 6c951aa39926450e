use libcosyc::error::{Diagnostic, IssueManager, IssueStats, Label, Note, Severity};
use libcosyc::message::{Message, TextFragment};
use libcosyc::pretty::Colour;
use libcosyc::source::SourceMap;
use libcosyc::span::{Location, Span};

fn here() -> Location {
    Location { span: Span::new(0..1), file_id: 0 }
}

#[test]
fn severities_are_ordered() {
    assert!(Severity::Info < Severity::Warning);
    assert!(Severity::Warning < Severity::Fatal);
    assert!(Severity::Fatal < Severity::Bug);
    assert_eq!(Severity::Info.rank(), 0);
    assert_eq!(Severity::Warning.rank(), 1);
    assert_eq!(Severity::Fatal.rank(), 2);
    assert_eq!(Severity::Bug.rank(), 3);
    assert_eq!(Severity::default(), Severity::Fatal);
}

#[test]
fn severities_have_names_and_colours() {
    assert_eq!(Severity::Info.as_str(), "info");
    assert_eq!(Severity::Warning.as_str(), "warning");
    assert_eq!(Severity::Fatal.as_str(), "error");
    assert_eq!(Severity::Bug.as_str(), "bug");
    assert_eq!(Severity::Info.as_colour(), Colour::BrightBlue);
    assert_eq!(Severity::Warning.as_colour(), Colour::Yellow);
    assert_eq!(Severity::Fatal.as_colour(), Colour::BrightRed);
    assert_eq!(Severity::Bug.as_colour(), Colour::Magenta);
}

#[test]
fn new_diagnostics_are_blank() {
    for diag in [Diagnostic::info(), Diagnostic::warning(), Diagnostic::error()] {
        assert!(diag.message.is_none());
        assert!(diag.primary_labels.is_empty());
        assert!(diag.secondary_labels.is_empty());
        assert!(diag.notes.is_empty());
    }
    assert_eq!(Diagnostic::info().severity, Severity::Info);
    assert_eq!(Diagnostic::warning().severity, Severity::Warning);
    assert_eq!(Diagnostic::error().severity, Severity::Fatal);
    assert_eq!(Diagnostic::new(Severity::Warning).severity, Severity::Warning);
}

#[test]
fn bugs_ask_to_be_reported() {
    let files = SourceMap::new();
    let diag = Diagnostic::bug();
    assert_eq!(diag.severity, Severity::Bug);
    assert!(diag.message.is_none());
    assert_eq!(diag.notes.len(), 1);
    assert_eq!(
        diag.notes[0].caption.show(&files),
        "likely caused by a bug in the compiler, please report the issue:\nhttps://github.com/katsaii/cosy-lang/issues"
    );
}

#[test]
fn unimplemented_names_the_feature() {
    let files = SourceMap::new();
    let diag = Diagnostic::unimplemented("closures");
    assert_eq!(diag.severity, Severity::Bug);
    assert_eq!(diag.message.unwrap().show(&files), "'closures' is unimplemented");
    assert_eq!(diag.notes.len(), 1);
}

#[test]
fn unreachable_has_its_message() {
    let files = SourceMap::new();
    let diag = Diagnostic::unreachable();
    assert_eq!(diag.severity, Severity::Bug);
    assert_eq!(
        diag.message.unwrap().show(&files),
        "encountered an unreachable compiler state"
    );
    assert_eq!(diag.notes.len(), 1);
}

#[test]
fn builder_keeps_what_it_is_given_in_order() {
    let files = SourceMap::new();
    let second = Location { span: Span::new(5..9), file_id: 2 };
    let diag = Diagnostic::warning()
        .message(Message::new("unused variable"))
        .label(Label::new(here()))
        .label(Label::new(second).with_caption(Message::new("declared here")))
        .label_other(Label::new(second))
        .note(Note::new().with_caption(Message::new("first")))
        .note(Note::new().with_caption(Message::new("second")));
    assert_eq!(diag.severity, Severity::Warning);
    assert_eq!(diag.message.unwrap().show(&files), "unused variable");
    assert_eq!(diag.primary_labels.len(), 2);
    assert_eq!(diag.primary_labels[0].location, here());
    assert!(diag.primary_labels[0].caption.is_none());
    assert_eq!(diag.primary_labels[1].location, second);
    assert_eq!(
        diag.primary_labels[1].caption.as_ref().unwrap().show(&files),
        "declared here"
    );
    assert_eq!(diag.secondary_labels.len(), 1);
    assert_eq!(diag.secondary_labels[0].location, second);
    assert_eq!(diag.notes.len(), 2);
    assert_eq!(diag.notes[0].caption.show(&files), "first");
    assert_eq!(diag.notes[1].caption.show(&files), "second");
}

#[test]
fn empty_note_has_an_empty_caption() {
    let files = SourceMap::new();
    assert_eq!(Note::new().caption.show(&files), "");
}

#[test]
fn report_appends_in_order() {
    let files = SourceMap::new();
    let mut issues = IssueManager::new();
    assert!(!issues.has_messages());
    Diagnostic::warning().message(Message::new("one")).report(&mut issues);
    Diagnostic::error().message(Message::new("two")).report(&mut issues);
    Diagnostic::warning().message(Message::new("one")).report(&mut issues);
    assert!(issues.has_messages());
    assert_eq!(issues.errors.len(), 3);
    let texts: Vec<String> =
        issues.errors.iter().map(|diag| diag.message.as_ref().unwrap().show(&files)).collect();
    assert_eq!(texts, vec!["one", "two", "one"]);
}

#[test]
fn warnings_alone_are_no_errors() {
    let mut issues = IssueManager::default();
    assert!(!issues.has_errors());
    Diagnostic::warning().report(&mut issues);
    Diagnostic::info().report(&mut issues);
    Diagnostic::warning().report(&mut issues);
    assert!(!issues.has_errors());
    assert!(issues.has_messages());
}

#[test]
fn fatal_and_bug_are_errors() {
    let mut issues = IssueManager::new();
    Diagnostic::warning().report(&mut issues);
    Diagnostic::error().report(&mut issues);
    assert!(issues.has_errors());
    let mut issues = IssueManager::new();
    Diagnostic::bug().report(&mut issues);
    Diagnostic::warning().report(&mut issues);
    assert!(issues.has_errors());
}

#[test]
fn no_statistics_without_diagnostics() {
    assert_eq!(IssueManager::new().error_stats(), None);
}

#[test]
fn statistics_count_each_severity() {
    let mut issues = IssueManager::new();
    Diagnostic::warning().report(&mut issues);
    Diagnostic::error().report(&mut issues);
    Diagnostic::info().report(&mut issues);
    Diagnostic::warning().report(&mut issues);
    Diagnostic::error().report(&mut issues);
    Diagnostic::warning().report(&mut issues);
    let stats = issues.error_stats().unwrap();
    assert_eq!(
        stats,
        IssueStats { max_severity: Severity::Fatal, infos: 1, warnings: 3, errors: 2, bugs: 0 }
    );
    assert_eq!(stats.total(), 6);
    Diagnostic::bug().report(&mut issues);
    let stats = issues.error_stats().unwrap();
    assert_eq!(stats.max_severity, Severity::Bug);
    assert_eq!(stats.bugs, 1);
    assert_eq!(stats.total(), 7);
}

#[test]
fn statistics_of_infos_alone() {
    let mut issues = IssueManager::new();
    Diagnostic::info().report(&mut issues);
    let stats = issues.error_stats().unwrap();
    assert_eq!(
        stats,
        IssueStats { max_severity: Severity::Info, infos: 1, warnings: 0, errors: 0, bugs: 0 }
    );
}

#[test]
fn fragments_of_text() {
    let files = SourceMap::new();
    assert_eq!(TextFragment::text("abc").show(&files), "abc");
}

#[test]
fn files_that_rendering_needs() {
    let mut issues = IssueManager::new();
    assert_eq!(issues.cited_files(), Vec::<u64>::new());
    let at = |file_id| Location { span: Span::new(0..1), file_id };
    Diagnostic::warning()
        .message(
            Message::new("{} {} {}")
                .with_arg(TextFragment::Code(at(1)))
                .with_arg(TextFragment::text("text"))
                .with_arg(TextFragment::Code(at(2))),
        )
        .label(Label::new(at(3)).with_caption(Message::new("{}").with_arg(TextFragment::Code(at(4)))))
        .label(Label::new(at(5)))
        .label_other(Label::new(at(1)))
        .note(Note::new().with_caption(Message::new("{}").with_arg(TextFragment::Code(at(6)))))
        .report(&mut issues);
    Diagnostic::error().label(Label::new(at(7))).report(&mut issues);
    assert_eq!(issues.cited_files(), vec![1, 2, 3, 4, 5, 1, 6, 7]);
    let mut files = vec![9];
    issues.errors[1].push_files(&mut files);
    assert_eq!(files, vec![9, 7]);
}
