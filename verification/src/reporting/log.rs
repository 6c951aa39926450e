//! The compact renderer: one line for each diagnostic, made for logs that a
//! program reads.
//!
//! ```txt
//! error: message >>> file1.cy:row:col, file2.cy:row:col
//! ```

use vstd::prelude::*;
use vstd::string::*;
use crate::error::{Diagnostic, IssueManager, IssueStats, Label};
use crate::pretty::{
    is_plain_text, is_settled, lemma_plain_parts, lemma_put_plain_settled, Colour, Layout, Page,
    PrettyPrinter, Style,
};
use crate::reporting::{
    diagnostics, faint, headline, headline_message, write_headline, write_headline_message,
    RenderError, Rendered, Renderer,
};
use crate::source::{Registry, SourceMap};

verus! {

/// Renders diagnostic information on a single line: the severity, the
/// message, and the places of the primary labels. Secondary labels and notes
/// are left out.
pub struct LogRenderer(pub PrettyPrinter);

/// The places of the first `n` of `labels`, separated by commas.
pub open spec fn places(page: Page, labels: Seq<Label>, files: Registry, n: nat) -> Page
    decreases n,
{
    if n == 0 {
        page
    } else {
        let before = places(page, labels, files, (n - 1) as nat);
        let separated = if n == 1 {
            before
        } else {
            before.put(", "@)
        };
        separated.put(labels[n - 1].location.spec_show_path(files))
    }
}

/// The line of one diagnostic: `<severity>: <message> >>> <place>, <place>`
/// and a line break. The part from `>>>` on is left out where there is no
/// primary label.
pub open spec fn line(page: Page, diag: Diagnostic, files: Registry) -> Page {
    let named = headline(page, diag.severity);
    let told = match diag.message {
        Some(message) => headline_message(named, message, files).put(" "@),
        None => named,
    };
    let placed = if diag.primary_labels@.len() > 0 {
        places(
            told.style(faint()).put(">>> "@),
            diag.primary_labels@,
            files,
            diag.primary_labels@.len(),
        ).style(Style::plain())
    } else {
        told
    };
    placed.put("\n"@)
}

/// Renders one diagnostic on one line.
pub fn write_diagnostic(
    printer: &mut PrettyPrinter,
    out: &mut String,
    diag: &Diagnostic,
    files: &SourceMap,
)
    ensures
        final(printer).on(final(out)@) == line(old(printer).on(old(out)@), *diag, files@),
{
    write_headline(printer, out, diag.severity);
    if let Some(message) = &diag.message {
        write_headline_message(printer, out, message, files);
        printer.write(out, " ");
    }
    if diag.primary_labels.len() > 0 {
        printer.write_style(out, Style { decoration: None, bg: None, fg: Some(Colour::BrightCyan) });
        printer.write(out, ">>> ");
        let ghost start = printer.on(out@);
        let mut i: usize = 0;
        while i < diag.primary_labels.len()
            invariant
                i <= diag.primary_labels.len(),
                printer.on(out@) == places(start, diag.primary_labels@, files@, i as nat),
            decreases diag.primary_labels.len() - i,
        {
            if i > 0 {
                printer.write(out, ", ");
            }
            let place = diag.primary_labels[i].location.show_path(files);
            printer.write(out, place.as_str());
            i = i + 1;
        }
        printer.write_style(out, Style::default());
    }
    printer.write(out, "\n");
}

/// What rendering the first `n` of `errors` on one line each makes of a
/// page.
pub open spec fn lines(page: Page, errors: Seq<Diagnostic>, files: Registry, n: nat) -> Page
    decreases n,
{
    if n == 0 {
        page
    } else {
        line(lines(page, errors, files, (n - 1) as nat), errors[n - 1], files)
    }
}

/// Renders every diagnostic of `issues` on a line of its own, in the order
/// of arrival.
pub fn write_errors(
    printer: &mut PrettyPrinter,
    out: &mut String,
    files: &SourceMap,
    issues: &IssueManager,
)
    ensures
        final(printer).on(final(out)@) == lines(
            old(printer).on(old(out)@),
            issues.errors@,
            files@,
            issues.errors@.len(),
        ),
{
    let ghost start = printer.on(out@);
    let mut i: usize = 0;
    while i < issues.errors.len()
        invariant
            i <= issues.errors.len(),
            printer.on(out@) == lines(start, issues.errors@, files@, i as nat),
        decreases issues.errors.len() - i,
    {
        write_diagnostic(printer, out, &issues.errors[i], files);
        i = i + 1;
    }
}

impl Renderer for LogRenderer {
    open spec fn layout(&self) -> Layout {
        self.0@
    }

    open spec fn diagnostic(page: Page, diag: Diagnostic, files: Registry) -> Rendered {
        Rendered { page: line(page, diag, files), result: Ok(()) }
    }

    open spec fn statistics(page: Page, stats: IssueStats) -> Rendered {
        Rendered { page, result: Ok(()) }
    }

    fn render_diagnostic(&mut self, out: &mut String, diag: &Diagnostic, files: &SourceMap) -> (result:
        Result<(), RenderError>) {
        write_diagnostic(&mut self.0, out, diag, files);
        Ok(())
    }

    fn render_stats(&mut self, out: &mut String, stats: &IssueStats) -> (result: Result<
        (),
        RenderError,
    >) {
        Ok(())
    }
}

/// The compact renderer never fails, and a session rendered by it is the
/// lines of its diagnostics.
pub proof fn lemma_log_session(page: Page, errors: Seq<Diagnostic>, files: Registry, n: nat)
    ensures
        diagnostics::<LogRenderer>(page, errors, files, n) == (Rendered {
            page: lines(page, errors, files, n),
            result: Ok(()),
        }),
    decreases n,
{
    if n > 0 {
        lemma_log_session(page, errors, files, (n - 1) as nat);
    }
}

/// The line of a diagnostic with a message and one primary label, without
/// its line break: `<severity>: <message> >>> <path>:<line>:<column>`.
pub open spec fn plain_line(diag: Diagnostic, files: Registry) -> Seq<char> {
    diag.severity.spec_str() + ": "@ + diag.message->0.spec_text(files) + " "@ + ">>> "@
        + diag.primary_labels@[0].location.spec_show_path(files)
}

/// Without colour, a diagnostic with a message and one primary label is
/// rendered as exactly one line, `<severity>: <message> >>> <place>` and a
/// line break, wherever all of these characters are written as they are.
/// The printer is left at the start of the next line.
pub proof fn lemma_line_of_plain_text(page: Page, diag: Diagnostic, files: Registry)
    requires
        !page.layout.colour,
        is_settled(page),
        diag.message is Some,
        diag.primary_labels@.len() == 1,
        is_plain_text(plain_line(diag, files)),
    ensures
        line(page, diag, files).text == page.text + plain_line(diag, files) + seq!['\n'],
        line(page, diag, files).layout == (Layout { column: 0, pending: true, ..page.layout }),
{
    let name = diag.severity.spec_str();
    let colon = ": "@;
    let message = diag.message->0.spec_text(files);
    let space = " "@;
    let arrow = ">>> "@;
    let place = diag.primary_labels@[0].location.spec_show_path(files);
    lemma_plain_parts(name + colon + message + space + arrow, place);
    lemma_plain_parts(name + colon + message + space, arrow);
    lemma_plain_parts(name + colon + message, space);
    lemma_plain_parts(name + colon, message);
    lemma_plain_parts(name, colon);

    let named_only = page.put(name);
    lemma_put_plain_settled(page, name);
    let named = named_only.put(colon);
    lemma_put_plain_settled(named_only, colon);
    assert(named == headline(page, diag.severity));

    let stashed = named.indent_stash();
    assert(is_settled(stashed));
    let told_inner = stashed.put(message);
    lemma_put_plain_settled(stashed, message);
    let popped = told_inner.indent_pop();
    assert(stashed.layout.stack.drop_last() =~= named.layout.stack);
    assert(popped.layout.indent == named.layout.indent);
    assert(popped.layout.stack == named.layout.stack);
    assert(popped == headline_message(named, diag.message->0, files));
    assert(is_settled(popped));
    let told = popped.put(space);
    lemma_put_plain_settled(popped, space);

    let pointed = told.put(arrow);
    lemma_put_plain_settled(told, arrow);
    let placed = pointed.put(place);
    lemma_put_plain_settled(pointed, place);
    assert(placed == places(pointed, diag.primary_labels@, files, 1)) by {
        assert(places(pointed, diag.primary_labels@, files, 0) == pointed);
    }

    reveal_strlit("\n");
    let end = "\n"@;
    assert(end.len() == 1 && end[0] == '\n');
    assert(placed.put_prefix(end, 0) == placed);
    assert(placed.put(end) == placed.newline());
    assert(line(page, diag, files) == placed.newline());
    assert(placed.text =~= page.text + plain_line(diag, files));
    assert(placed.newline().text =~= page.text + plain_line(diag, files) + seq!['\n']);
}

} // verus!
