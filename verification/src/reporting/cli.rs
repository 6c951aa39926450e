//! The rich renderer: each diagnostic with its message, an excerpt of the
//! source for each label with the span underlined, and its notes.
//!
//! ```txt
//! error: message
//!   >>> file.cy:3:9
//! 3 |   let x = foo(
//!   :  _________^
//! 4 | |     bar)
//!   ' |________^ caption
//! note: something to know
//! ```

use vstd::prelude::*;
use vstd::string::*;
use vstd::utf8::*;
use crate::error::{Diagnostic, IssueManager, IssueStats, Label, Note};
use crate::lines::{line_and_col_span_at, line_spans};
use crate::pretty::{
    is_plain_text, is_settled, lemma_put_plain_settled, lemma_repeat_settled, Colour, Decoration,
    Layout, Page, PrettyPrinter, Style,
};
use crate::reporting::{
    bold, faint, headline, headline_message, render_issues, session, write_headline,
    write_headline_message, write_message, RenderError, Rendered, Renderer,
};
use crate::source::{GetFileResult, Registry, SourceFile, SourceMap};
use crate::span::Span;
use crate::text::{
    decimal, decimal_string, decimal_width, run, safe_sub, sat_add, saturating_add,
};

verus! {

/// Renders diagnostic information in a pretty format.
pub struct CliRenderer(pub PrettyPrinter);

/// The text of one line of a source text.
pub open spec fn line_text(src: Seq<char>, line: Span) -> Seq<char> {
    line.spec_slice(src)
}

/// `a - b`, or zero where `b` is the larger.
pub open spec fn minus(a: int, b: int) -> nat {
    if a < b {
        0
    } else {
        (a - b) as nat
    }
}

/// The gutter of an excerpt line: `text`, set to the right in `margin`
/// columns, and a bar.
pub open spec fn gutter(page: Page, margin: nat, text: Seq<char>) -> Page {
    page.skip(minus(margin as int, text.len() as int)).style(faint()).put(text).put(
        " | "@,
    ).style(Style::plain())
}

/// The gutter of the last line of an excerpt: `margin` empty columns and a
/// tick.
pub open spec fn gutter_end(page: Page, margin: nat) -> Page {
    page.skip(margin).style(faint()).put(" ' "@).style(Style::plain())
}

/// The underline of a span within one line: it starts under the first
/// column of the span and is as long as the span, and at least one mark
/// long.
pub open spec fn underline_one(
    page: Page,
    margin: nat,
    start: (usize, usize),
    end: (usize, usize),
    highlight: Style,
    mark: char,
) -> Page {
    let length = minus(end.1 as int, start.1 as int);
    gutter_end(page, margin).skip(sat_add(2, minus(start.1 as int, 1)) as nat).style(
        highlight,
    ).repeat(
        if length < 1 {
            1
        } else {
            length
        },
        mark,
    )
}

/// The bracket of a span that ends on a later line than it starts: a row
/// that runs from the gutter to a mark under the first column of the span,
/// the last line of the span behind a bar, and a row that runs from the bar
/// to a mark under the last column of the span.
pub open spec fn underline_two(
    page: Page,
    src: Seq<char>,
    margin: nat,
    start: (usize, usize),
    end: (usize, usize),
    highlight: Style,
    mark: char,
) -> Page {
    let lines = line_spans(encode_utf8(src));
    let opened = gutter(page, margin, ":"@).style(highlight).skip(1).repeat(
        start.1 as nat,
        '_',
    ).repeat(1, mark).put("\n"@);
    let last = gutter(opened, margin, decimal(end.0 as nat)).style(highlight).put("| "@).style(
        Style::plain(),
    ).put(line_text(src, lines[end.0 - 1])).put("\n"@);
    gutter_end(last, margin).style(highlight).put("|"@).repeat(
        minus(end.1 as int, 1),
        '_',
    ).repeat(1, mark)
}

/// Whether the content of the file that `label` points into is known but
/// not in memory.
pub open spec fn lacks_content(label: Label, files: Registry) -> bool {
    files.knows(label.location.file_id) && files.content(label.location.file_id) is None
}

/// Whether an excerpt is rendered for `label`: the content of its file is
/// in memory.
pub open spec fn has_excerpt(label: Label, files: Registry) -> bool {
    &&& files.content(label.location.file_id) is Some
    &&& label.location.span.start < usize::MAX
    &&& label.location.span.end < usize::MAX
}

/// The excerpt for one label: the place of the label, the first line of its
/// span with its number in the gutter, the underline, and the caption
/// behind the underline.
#[verifier::opaque]
pub open spec fn excerpt(page: Page, label: Label, files: Registry, highlight: Style, mark: char) -> Page {
    let src = files.content(label.location.file_id)->0;
    let lines = line_spans(encode_utf8(src));
    let (start, end) = line_and_col_span_at(lines, label.location.span);
    let margin = decimal(end.0 as nat).len();
    let titled = page.put("\n"@).skip(margin).style(faint()).put(">>> "@).put(
        label.location.spec_show_path(files),
    ).style(Style::plain()).put("\n"@);
    let first = gutter(titled, margin, decimal(start.0 as nat)).skip(2).put(
        line_text(src, lines[start.0 - 1]),
    ).put("\n"@);
    let underlined = if start.0 == end.0 {
        underline_one(first, margin, start, end, highlight, mark)
    } else {
        underline_two(first, src, margin, start, end, highlight, mark)
    };
    let captioned = match label.caption {
        Some(caption) => underlined.put(" "@).put(caption.spec_text(files)),
        None => underlined,
    };
    captioned.style(Style::plain())
}

/// What rendering one label makes of a page. A label into a file that the
/// source map does not know is passed over. Rendering fails at a label into
/// a known file whose content is not in memory.
pub open spec fn rich_label(page: Page, label: Label, files: Registry, highlight: Style, mark: char) -> Rendered {
    if lacks_content(label, files) {
        Rendered { page, result: Err(RenderError { file_id: label.location.file_id }) }
    } else if has_excerpt(label, files) {
        Rendered { page: excerpt(page, label, files, highlight, mark), result: Ok(()) }
    } else {
        Rendered { page, result: Ok(()) }
    }
}

/// What rendering the first `n` of `labels` makes of a page. Rendering stops
/// at the first label that fails.
pub open spec fn rich_labels(
    page: Page,
    labels: Seq<Label>,
    files: Registry,
    highlight: Style,
    mark: char,
    n: nat,
) -> Rendered
    decreases n,
{
    if n == 0 {
        Rendered { page, result: Ok(()) }
    } else {
        let before = rich_labels(page, labels, files, highlight, mark, (n - 1) as nat);
        if before.result is Ok {
            rich_label(before.page, labels[n - 1], files, highlight, mark)
        } else {
            before
        }
    }
}

/// One note: on a line of its own, the word `note` and the caption.
pub open spec fn rich_note(page: Page, note: Note, files: Registry) -> Page {
    page.style(bold(Colour::BrightGreen)).put("\nnote"@).style(Style::plain()).put(": "@).put(
        note.caption.spec_text(files),
    )
}

/// The first `n` of `notes`.
pub open spec fn rich_notes(page: Page, notes: Seq<Note>, files: Registry, n: nat) -> Page
    decreases n,
{
    if n == 0 {
        page
    } else {
        rich_note(rich_notes(page, notes, files, (n - 1) as nat), notes[n - 1], files)
    }
}

/// What rendering one diagnostic makes of a page: the severity and the
/// message, the excerpts of the primary labels marked with `^` in the colour
/// of the severity, those of the secondary labels marked with `-` in blue,
/// the notes, and an empty line.
pub open spec fn rich(page: Page, diag: Diagnostic, files: Registry) -> Rendered {
    let named = headline(page, diag.severity);
    let told = match diag.message {
        Some(message) => headline_message(named, message, files),
        None => named,
    };
    let primary = rich_labels(
        told,
        diag.primary_labels@,
        files,
        bold(diag.severity.spec_colour()),
        '^',
        diag.primary_labels@.len(),
    );
    if primary.result is Err {
        primary
    } else {
        let secondary = rich_labels(
            primary.page,
            diag.secondary_labels@,
            files,
            bold(Colour::BrightBlue),
            '-',
            diag.secondary_labels@.len(),
        );
        if secondary.result is Err {
            secondary
        } else {
            Rendered {
                page: rich_notes(secondary.page, diag.notes@, files, diag.notes@.len()).put(
                    "\n\n"@,
                ),
                result: Ok(()),
            }
        }
    }
}

/// The number of diagnostics that the statistics show.
pub open spec fn shown_total(stats: IssueStats) -> usize {
    sat_add(
        sat_add(sat_add(stats.infos, stats.warnings as nat), stats.errors as nat),
        stats.bugs as nat,
    )
}

/// The line of statistics: the worst severity in its colour, and the number
/// of diagnostics.
pub open spec fn summary(page: Page, stats: IssueStats) -> Page {
    page.style(bold(stats.max_severity.spec_colour())).put(stats.max_severity.spec_str()).style(
        Style::plain(),
    ).put(": displayed "@).put(decimal(shown_total(stats) as nat)).put(" message(s)\n"@)
}

fn write_gutter(printer: &mut PrettyPrinter, out: &mut String, margin: usize, text: &str)
    ensures
        final(printer).on(final(out)@) == gutter(
            old(printer).on(old(out)@),
            margin as nat,
            text@,
        ),
{
    printer.skip(out, safe_sub(margin, text.unicode_len()));
    printer.write_style(out, Style { decoration: None, bg: None, fg: Some(Colour::BrightCyan) });
    printer.write(out, text);
    printer.write(out, " | ");
    printer.write_style(out, Style::default());
}

fn write_gutter_end(printer: &mut PrettyPrinter, out: &mut String, margin: usize)
    ensures
        final(printer).on(final(out)@) == gutter_end(old(printer).on(old(out)@), margin as nat),
{
    printer.skip(out, margin);
    printer.write_style(out, Style { decoration: None, bg: None, fg: Some(Colour::BrightCyan) });
    printer.write(out, " ' ");
    printer.write_style(out, Style::default());
}

fn write_line(printer: &mut PrettyPrinter, out: &mut String, file: &SourceFile, line: usize)
    requires
        1 <= line <= file.spec_lines().len(),
    ensures
        final(printer).on(final(out)@) == old(printer).on(old(out)@).put(
            line_text(file@.src, file.spec_lines()[line - 1]),
        ),
{
    let span = file.find_line_span(line).unwrap();
    printer.write(out, span.slice(file.src()));
}

fn write_underline_one(
    printer: &mut PrettyPrinter,
    out: &mut String,
    margin: usize,
    start: (usize, usize),
    end: (usize, usize),
    highlight: Style,
    mark: char,
)
    requires
        mark != '\n',
        mark != '\r',
    ensures
        final(printer).on(final(out)@) == underline_one(
            old(printer).on(old(out)@),
            margin as nat,
            start,
            end,
            highlight,
            mark,
        ),
{
    let offset = safe_sub(start.1, 1);
    let span = safe_sub(end.1, start.1);
    let length: usize = if span < 1 {
        1
    } else {
        span
    };
    write_gutter_end(printer, out, margin);
    printer.skip(out, saturating_add(2, offset));
    printer.write_style(out, highlight);
    printer.repeat(out, length, mark);
}

fn write_underline_two(
    printer: &mut PrettyPrinter,
    out: &mut String,
    file: &SourceFile,
    margin: usize,
    start: (usize, usize),
    end: (usize, usize),
    highlight: Style,
    mark: char,
)
    requires
        mark != '\n',
        mark != '\r',
        1 <= end.0 <= file.spec_lines().len(),
    ensures
        final(printer).on(final(out)@) == underline_two(
            old(printer).on(old(out)@),
            file@.src,
            margin as nat,
            start,
            end,
            highlight,
            mark,
        ),
{
    write_gutter(printer, out, margin, ":");
    printer.write_style(out, highlight);
    printer.skip(out, 1);
    printer.repeat(out, start.1, '_');
    printer.repeat(out, 1, mark);
    printer.write(out, "\n");
    let number = decimal_string(end.0);
    write_gutter(printer, out, margin, number.as_str());
    printer.write_style(out, highlight);
    printer.write(out, "| ");
    printer.write_style(out, Style::default());
    write_line(printer, out, file, end.0);
    printer.write(out, "\n");
    write_gutter_end(printer, out, margin);
    printer.write_style(out, highlight);
    printer.write(out, "|");
    printer.repeat(out, safe_sub(end.1, 1), '_');
    printer.repeat(out, 1, mark);
}

/// Renders the excerpt for one label.
fn write_label(
    printer: &mut PrettyPrinter,
    out: &mut String,
    label: &Label,
    files: &SourceMap,
    highlight: Style,
    mark: char,
) -> (result: Result<(), RenderError>)
    requires
        mark != '\n',
        mark != '\r',
    ensures
        ({
            let done = rich_label(old(printer).on(old(out)@), *label, files@, highlight, mark);
            &&& final(printer).on(final(out)@) == done.page
            &&& result == done.result
        }),
{
    let file = match files.get_existing_file(label.location.file_id) {
        GetFileResult::Found(_, file) => file,
        GetFileResult::ErrNotInManifest => {
            return Ok(());
        },
        GetFileResult::ErrNotResident(_) => {
            return Err(RenderError { file_id: label.location.file_id });
        },
    };
    let span = label.location.span;
    if span.start == usize::MAX || span.end == usize::MAX {
        return Ok(());
    }
    reveal(excerpt);
    let (start, end) = file.find_line_and_col_span(&span);
    let margin = decimal_width(end.0);
    printer.write(out, "\n");
    printer.skip(out, margin);
    printer.write_style(out, Style { decoration: None, bg: None, fg: Some(Colour::BrightCyan) });
    printer.write(out, ">>> ");
    let place = label.location.show_path(files);
    printer.write(out, place.as_str());
    printer.write_style(out, Style::default());
    printer.write(out, "\n");
    let number = decimal_string(start.0);
    write_gutter(printer, out, margin, number.as_str());
    printer.skip(out, 2);
    write_line(printer, out, file, start.0);
    printer.write(out, "\n");
    if start.0 == end.0 {
        write_underline_one(printer, out, margin, start, end, highlight, mark);
    } else {
        write_underline_two(printer, out, file, margin, start, end, highlight, mark);
    }
    if let Some(caption) = &label.caption {
        printer.write(out, " ");
        write_message(printer, out, caption, files);
    }
    printer.write_style(out, Style::default());
    Ok(())
}

fn write_labels(
    printer: &mut PrettyPrinter,
    out: &mut String,
    labels: &Vec<Label>,
    files: &SourceMap,
    highlight: Style,
    mark: char,
) -> (result: Result<(), RenderError>)
    requires
        mark != '\n',
        mark != '\r',
    ensures
        ({
            let done = rich_labels(
                old(printer).on(old(out)@),
                labels@,
                files@,
                highlight,
                mark,
                labels@.len(),
            );
            &&& final(printer).on(final(out)@) == done.page
            &&& result == done.result
        }),
{
    let ghost start = printer.on(out@);
    let mut i: usize = 0;
    while i < labels.len()
        invariant
            i <= labels.len(),
            mark != '\n',
            mark != '\r',
            start == old(printer).on(old(out)@),
            rich_labels(start, labels@, files@, highlight, mark, i as nat) == (Rendered {
                page: printer.on(out@),
                result: Ok(()),
            }),
        decreases labels.len() - i,
    {
        let ghost before = printer.on(out@);
        let outcome = write_label(printer, out, &labels[i], files, highlight, mark);
        proof {
            let done = rich_label(before, labels@[i as int], files@, highlight, mark);
            assert(rich_labels(start, labels@, files@, highlight, mark, (i + 1) as nat) == done);
        }
        match outcome {
            Ok(()) => {
                proof {
                    let done = rich_label(before, labels@[i as int], files@, highlight, mark);
                    assert(done.result is Ok);
                    assert(done.result->Ok_0 == ());
                    assert(done.result == Ok::<(), RenderError>(()));
                    assert(done == Rendered { page: done.page, result: done.result });
                }
            },
            Err(error) => {
                proof {
                    lemma_labels_stop(
                        start,
                        labels@,
                        files@,
                        highlight,
                        mark,
                        (i + 1) as nat,
                        labels@.len(),
                    );
                }
                return Err(error);
            },
        }
        i = i + 1;
    }
    Ok(())
}

/// Once a label has failed, the labels behind it change nothing.
pub proof fn lemma_labels_stop(
    page: Page,
    labels: Seq<Label>,
    files: Registry,
    highlight: Style,
    mark: char,
    n: nat,
    m: nat,
)
    requires
        n <= m,
        rich_labels(page, labels, files, highlight, mark, n).result is Err,
    ensures
        rich_labels(page, labels, files, highlight, mark, m) == rich_labels(
            page,
            labels,
            files,
            highlight,
            mark,
            n,
        ),
    decreases m,
{
    if n < m {
        lemma_labels_stop(page, labels, files, highlight, mark, n, (m - 1) as nat);
    }
}

/// Whether the content of no file that `labels` point into is missing.
pub open spec fn all_at_hand(labels: Seq<Label>, files: Registry) -> bool {
    forall|i: int| 0 <= i < labels.len() ==> !lacks_content(#[trigger] labels[i], files)
}

/// Rendering the first `n` labels succeeds exactly where none of them
/// points into a known file whose content is missing.
pub proof fn lemma_labels_succeed(
    page: Page,
    labels: Seq<Label>,
    files: Registry,
    highlight: Style,
    mark: char,
    n: nat,
)
    requires
        n <= labels.len(),
    ensures
        rich_labels(page, labels, files, highlight, mark, n).result is Ok <==> all_at_hand(
            labels.take(n as int),
            files,
        ),
    decreases n,
{
    let first = labels.take(n as int);
    if n > 0 {
        let fewer = labels.take(n - 1);
        lemma_labels_succeed(page, labels, files, highlight, mark, (n - 1) as nat);
        if all_at_hand(first, files) {
            assert forall|i: int| 0 <= i < fewer.len() implies !lacks_content(
                #[trigger] fewer[i],
                files,
            ) by {
                assert(fewer[i] == first[i]);
            }
            assert(first[n - 1] == labels[n - 1]);
        } else {
            let bad = choose|i: int| 0 <= i < first.len() && lacks_content(#[trigger] first[i], files);
            if bad < n - 1 {
                assert(fewer[bad] == first[bad]);
            } else {
                assert(first[bad] == labels[n - 1]);
            }
        }
        if rich_labels(page, labels, files, highlight, mark, n).result is Ok {
            assert forall|i: int| 0 <= i < first.len() implies !lacks_content(
                #[trigger] first[i],
                files,
            ) by {
                if i < n - 1 {
                    assert(first[i] == fewer[i]);
                } else {
                    assert(first[i] == labels[n - 1]);
                }
            }
        }
    }
}

/// Rendering a diagnostic succeeds exactly where none of its labels points
/// into a known file whose content is missing. Labels into files that the
/// source map does not know never make it fail.
pub proof fn lemma_rich_succeeds(page: Page, diag: Diagnostic, files: Registry)
    ensures
        rich(page, diag, files).result is Ok <==> all_at_hand(diag.primary_labels@, files)
            && all_at_hand(diag.secondary_labels@, files),
{
    let named = headline(page, diag.severity);
    let told = match diag.message {
        Some(message) => headline_message(named, message, files),
        None => named,
    };
    let highlight = bold(diag.severity.spec_colour());
    let primary = rich_labels(
        told,
        diag.primary_labels@,
        files,
        highlight,
        '^',
        diag.primary_labels@.len(),
    );
    lemma_labels_succeed(
        told,
        diag.primary_labels@,
        files,
        highlight,
        '^',
        diag.primary_labels@.len(),
    );
    assert(diag.primary_labels@.take(diag.primary_labels@.len() as int) =~= diag.primary_labels@);
    lemma_labels_succeed(
        primary.page,
        diag.secondary_labels@,
        files,
        bold(Colour::BrightBlue),
        '-',
        diag.secondary_labels@.len(),
    );
    assert(diag.secondary_labels@.take(diag.secondary_labels@.len() as int)
        =~= diag.secondary_labels@);
}

fn write_note(printer: &mut PrettyPrinter, out: &mut String, note: &Note, files: &SourceMap)
    ensures
        final(printer).on(final(out)@) == rich_note(old(printer).on(old(out)@), *note, files@),
{
    printer.write_style(out, Colour::BrightGreen.decorated(Decoration::Bold));
    printer.write(out, "\nnote");
    printer.write_style(out, Style::default());
    printer.write(out, ": ");
    write_message(printer, out, &note.caption, files);
}

/// Renders one diagnostic with its excerpts and notes.
pub fn write_diagnostic(
    printer: &mut PrettyPrinter,
    out: &mut String,
    diag: &Diagnostic,
    files: &SourceMap,
) -> (result: Result<(), RenderError>)
    ensures
        ({
            let done = rich(old(printer).on(old(out)@), *diag, files@);
            &&& final(printer).on(final(out)@) == done.page
            &&& result == done.result
        }),
{
    write_headline(printer, out, diag.severity);
    if let Some(message) = &diag.message {
        write_headline_message(printer, out, message, files);
    }
    let highlight = diag.severity.as_colour().decorated(Decoration::Bold);
    match write_labels(printer, out, &diag.primary_labels, files, highlight, '^') {
        Ok(()) => {},
        Err(error) => {
            return Err(error);
        },
    }
    let other = Colour::BrightBlue.decorated(Decoration::Bold);
    match write_labels(printer, out, &diag.secondary_labels, files, other, '-') {
        Ok(()) => {},
        Err(error) => {
            return Err(error);
        },
    }
    let ghost start = printer.on(out@);
    let mut i: usize = 0;
    while i < diag.notes.len()
        invariant
            i <= diag.notes.len(),
            printer.on(out@) == rich_notes(start, diag.notes@, files@, i as nat),
        decreases diag.notes.len() - i,
    {
        write_note(printer, out, &diag.notes[i], files);
        i = i + 1;
    }
    printer.write(out, "\n\n");
    Ok(())
}

/// Renders the line of statistics.
pub fn write_stats(printer: &mut PrettyPrinter, out: &mut String, stats: &IssueStats)
    ensures
        final(printer).on(final(out)@) == summary(old(printer).on(old(out)@), *stats),
{
    let total = saturating_add(
        saturating_add(saturating_add(stats.infos, stats.warnings), stats.errors),
        stats.bugs,
    );
    printer.write_style(out, stats.max_severity.as_colour().decorated(Decoration::Bold));
    printer.write(out, stats.max_severity.as_str());
    printer.write_style(out, Style::default());
    printer.write(out, ": displayed ");
    let number = decimal_string(total);
    printer.write(out, number.as_str());
    printer.write(out, " message(s)\n");
}

impl Renderer for CliRenderer {
    open spec fn layout(&self) -> Layout {
        self.0@
    }

    open spec fn diagnostic(page: Page, diag: Diagnostic, files: Registry) -> Rendered {
        rich(page, diag, files)
    }

    open spec fn statistics(page: Page, stats: IssueStats) -> Rendered {
        Rendered { page: summary(page, stats), result: Ok(()) }
    }

    fn render_diagnostic(&mut self, out: &mut String, diag: &Diagnostic, files: &SourceMap) -> (result:
        Result<(), RenderError>) {
        write_diagnostic(&mut self.0, out, diag, files)
    }

    fn render_stats(&mut self, out: &mut String, stats: &IssueStats) -> (result: Result<
        (),
        RenderError,
    >) {
        write_stats(&mut self.0, out, stats);
        Ok(())
    }
}

/// Renders every diagnostic of `issues` with its excerpts and notes, in the
/// order of arrival, and then, if there was any, the line of statistics.
/// Rendering stops at the first failure.
pub fn write_errors(
    printer: &mut PrettyPrinter,
    out: &mut String,
    files: &SourceMap,
    issues: &IssueManager,
) -> (result: Result<(), RenderError>)
    ensures
        ({
            let done = session::<CliRenderer>(
                old(printer).on(old(out)@),
                issues.errors@,
                files@,
            );
            &&& final(printer).on(final(out)@) == done.page
            &&& result == done.result
        }),
{
    let mut renderer = CliRenderer(PrettyPrinter::new(false));
    std::mem::swap(printer, &mut renderer.0);
    let result = render_issues(&mut renderer, out, files, issues);
    std::mem::swap(printer, &mut renderer.0);
    result
}

/// Without colour, the gutter of an excerpt line is its text set to the
/// right in `margin` columns and a bar, wherever these characters are
/// written as they are.
pub proof fn lemma_gutter_plain(page: Page, margin: nat, text: Seq<char>)
    requires
        !page.layout.colour,
        is_settled(page),
        is_plain_text(text),
        is_plain_text(" | "@),
    ensures
        gutter(page, margin, text).text == page.text + run(
            minus(margin as int, text.len() as int),
            ' ',
        ) + text + " | "@,
        !gutter(page, margin, text).layout.pending,
        !gutter(page, margin, text).layout.colour,
        gutter(page, margin, text).layout.indent == page.layout.indent,
{
    let padded = page.skip(minus(margin as int, text.len() as int));
    lemma_repeat_settled(page, minus(margin as int, text.len() as int), ' ');
    let numbered = padded.put(text);
    lemma_put_plain_settled(padded, text);
    lemma_put_plain_settled(numbered, " | "@);
}

/// Without colour, in the excerpt of a span within one line the source row
/// and the underline row start alike: behind `margin` columns, three for the
/// bar or the tick, and two more. So the first mark stands under the first
/// column of the span, and there are as many marks as the span has columns,
/// and at least one.
pub proof fn lemma_single_line_rows(
    page: Page,
    margin: nat,
    number: Seq<char>,
    line: Seq<char>,
    start: (usize, usize),
    end: (usize, usize),
    highlight: Style,
    mark: char,
)
    requires
        !page.layout.colour,
        is_settled(page),
        page.layout.indent == 0,
        number.len() <= margin,
        1 <= start.1 < usize::MAX - 2,
        is_plain_text(number),
        is_plain_text(line),
        is_plain_text(" | "@),
        is_plain_text(" ' "@),
    ensures
        ({
            let source_row = gutter(page, margin, number).skip(2).put(line);
            let under_row = underline_one(source_row.newline(), margin, start, end, highlight, mark);
            let marks = if end.1 <= start.1 {
                1
            } else {
                (end.1 - start.1) as nat
            };
            &&& source_row.text == page.text + run((margin - number.len()) as nat, ' ') + number
                + " | "@ + run(2, ' ') + line
            &&& under_row.text == source_row.text + seq!['\n'] + run(margin, ' ') + " ' "@ + run(
                2,
                ' ',
            ) + run((start.1 - 1) as nat, ' ') + run(marks, mark)
        }),
{
    let framed = gutter(page, margin, number);
    lemma_gutter_plain(page, margin, number);
    let spaced = framed.skip(2);
    lemma_repeat_settled(framed, 2, ' ');
    let source_row = spaced.put(line);
    lemma_put_plain_settled(spaced, line);
    assert(source_row.text =~= page.text + run((margin - number.len()) as nat, ' ') + number
        + " | "@ + run(2, ' ') + line);

    let next = source_row.newline();
    let marks: nat = if end.1 <= start.1 {
        1
    } else {
        (end.1 - start.1) as nat
    };
    let offset = (start.1 - 1) as nat;
    let ticked_skip = next.skip(margin);
    lemma_repeat_settled(next, margin, ' ');
    let ticked = ticked_skip.put(" ' "@);
    lemma_put_plain_settled(ticked_skip, " ' "@);
    assert(ticked == gutter_end(next, margin));
    let moved = ticked.skip(sat_add(2, offset) as nat);
    lemma_repeat_settled(ticked, sat_add(2, offset) as nat, ' ');
    assert(run(sat_add(2, offset) as nat, ' ') =~= run(2, ' ') + run(offset, ' '));
    let under_row = moved.repeat(marks, mark);
    lemma_repeat_settled(moved, marks, mark);
    assert(under_row == underline_one(next, margin, start, end, highlight, mark));
    assert(under_row.text =~= source_row.text + seq!['\n'] + run(margin, ' ') + " ' "@ + run(
        2,
        ' ',
    ) + run(offset, ' ') + run(marks, mark));
}

/// Without colour, the bracket of a span over several lines is drawn in
/// three rows. The first holds a colon in the gutter, then one space, as
/// many underscores as the column at which the span starts, and one mark:
/// a source row starts behind the gutter and two more columns, so the mark
/// stands under the first column of the span. The second is the last line
/// of the span with its number in the gutter, behind a bar and a space. The
/// third holds a tick in the gutter, then a bar, one underscore less than
/// the column at which the span ends, and one mark: the mark stands under
/// the last column of the span.
pub proof fn lemma_two_line_rows(
    page: Page,
    src: Seq<char>,
    margin: nat,
    start: (usize, usize),
    end: (usize, usize),
    highlight: Style,
    mark: char,
)
    requires
        !page.layout.colour,
        is_settled(page),
        page.layout.indent == 0,
        1 <= margin,
        decimal(end.0 as nat).len() <= margin,
        1 <= end.1,
        is_plain_text(":"@),
        is_plain_text(" | "@),
        is_plain_text("| "@),
        is_plain_text("|"@),
        is_plain_text(" ' "@),
        is_plain_text(decimal(end.0 as nat)),
        is_plain_text(line_text(src, line_spans(encode_utf8(src))[end.0 - 1])),
    ensures
        ({
            let number = decimal(end.0 as nat);
            let line = line_text(src, line_spans(encode_utf8(src))[end.0 - 1]);
            let opened = page.text + run((margin - 1) as nat, ' ') + ":"@ + " | "@ + run(1, ' ')
                + run(start.1 as nat, '_') + run(1, mark) + seq!['\n'];
            let last = opened + run((margin - number.len()) as nat, ' ') + number + " | "@ + "| "@
                + line + seq!['\n'];
            underline_two(page, src, margin, start, end, highlight, mark).text == last + run(
                margin,
                ' ',
            ) + " ' "@ + "|"@ + run((end.1 - 1) as nat, '_') + run(1, mark)
        }),
{
    reveal_strlit(":");
    reveal_strlit("\n");
    let number = decimal(end.0 as nat);
    let line = line_text(src, line_spans(encode_utf8(src))[end.0 - 1]);
    let newline = "\n"@;
    assert(newline.len() == 1 && newline[0] == '\n');

    let framed = gutter(page, margin, ":"@);
    lemma_gutter_plain(page, margin, ":"@);
    let moved = framed.skip(1);
    lemma_repeat_settled(framed, 1, ' ');
    let drawn = moved.repeat(start.1 as nat, '_');
    lemma_repeat_settled(moved, start.1 as nat, '_');
    let marked = drawn.repeat(1, mark);
    lemma_repeat_settled(drawn, 1, mark);
    assert(marked.put_prefix(newline, 0) == marked);
    let opened = marked.put(newline);
    assert(opened == marked.newline());
    assert(opened.text =~= page.text + run((margin - 1) as nat, ' ') + ":"@ + " | "@ + run(1, ' ')
        + run(start.1 as nat, '_') + run(1, mark) + seq!['\n']);

    let numbered = gutter(opened, margin, number);
    lemma_gutter_plain(opened, margin, number);
    let barred = numbered.put("| "@);
    lemma_put_plain_settled(numbered, "| "@);
    let shown = barred.put(line);
    lemma_put_plain_settled(barred, line);
    assert(shown.put_prefix(newline, 0) == shown);
    let last = shown.put(newline);
    assert(last == shown.newline());
    assert(last.text =~= opened.text + run((margin - number.len()) as nat, ' ') + number + " | "@
        + "| "@ + line + seq!['\n']);

    let ticked_skip = last.skip(margin);
    lemma_repeat_settled(last, margin, ' ');
    let ticked = ticked_skip.put(" ' "@);
    lemma_put_plain_settled(ticked_skip, " ' "@);
    assert(ticked == gutter_end(last, margin));
    let closing = ticked.put("|"@);
    lemma_put_plain_settled(ticked, "|"@);
    let ruled = closing.repeat((end.1 - 1) as nat, '_');
    lemma_repeat_settled(closing, (end.1 - 1) as nat, '_');
    let closed = ruled.repeat(1, mark);
    lemma_repeat_settled(ruled, 1, mark);
    assert(closed == underline_two(page, src, margin, start, end, highlight, mark));
    assert(closed.text =~= last.text + run(margin, ' ') + " ' "@ + "|"@ + run(
        (end.1 - 1) as nat,
        '_',
    ) + run(1, mark));
}

} // verus!
