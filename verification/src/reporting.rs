//! Rendering of the diagnostics of a session as text.
//!
//! A renderer appends to a `String` and moves a printer along. What it
//! writes is specified as a step from one [`Page`] to the next, so that the
//! text of a whole session is the text of its diagnostics, one after the
//! other, followed by a line of statistics.


pub mod cli;
pub mod log;

use vstd::prelude::*;
use vstd::string::*;
use crate::error::{Diagnostic, IssueManager, IssueStats, Severity};
use crate::message::{Message, TextFragment};
use crate::pretty::{Colour, Decoration, Layout, Page, PrettyPrinter, Style};
use crate::source::{FileData, Registry, SourceMap};
use crate::span::FileId;

verus! {

/// What one run of the compiler works on: the files it has loaded and the
/// diagnostics it has reported.
pub struct Session {
    /// Stores all files managed by a compiler session.
    pub files: SourceMap,
    /// Stores any diagnostic information reported by the compiler tools.
    pub issues: IssueManager,
}

/// Why rendering stopped: the content of a file that a label points into is
/// known to the source map but not in memory.
#[derive(Debug, Clone, Copy, PartialEq, Eq, Structural)]
pub struct RenderError {
    /// The file whose content is missing.
    pub file_id: FileId,
}

/// How far rendering came: the page it left, and whether it stopped early.
pub ghost struct Rendered {
    pub page: Page,
    pub result: Result<(), RenderError>,
}

/// The style of a severity and other headings: the colour `colour`, bold.
pub open spec fn bold(colour: Colour) -> Style {
    Style { decoration: Some(Decoration::Bold), bg: None, fg: Some(colour) }
}

/// The style of the text of a message: bold, in no colour of its own.
pub open spec fn emphasis() -> Style {
    Style { decoration: Some(Decoration::Bold), bg: None, fg: None }
}

/// The style of gutters and paths.
pub open spec fn faint() -> Style {
    Style { decoration: None, bg: None, fg: Some(Colour::BrightCyan) }
}

/// The start of every rendered diagnostic: the name of the severity in its
/// colour, then a colon and a space.
pub open spec fn headline(page: Page, severity: Severity) -> Page {
    page.style(bold(severity.spec_colour())).put(severity.spec_str()).style(Style::plain()).put(
        ": "@,
    )
}

/// The text of a message in bold. Its lines after the first are indented to
/// the column at which the message starts.
pub open spec fn headline_message(page: Page, message: Message, files: Registry) -> Page {
    page.indent_stash().style(emphasis()).put(message.spec_text(files)).style(
        Style::plain(),
    ).indent_pop()
}

/// Any valid diagnostics renderer must satisfy this trait.
pub trait Renderer: Sized {
    /// The state of the renderer's printer.
    spec fn layout(&self) -> Layout;

    /// What rendering `diag` makes of a page.
    spec fn diagnostic(page: Page, diag: Diagnostic, files: Registry) -> Rendered;

    /// What rendering the statistics of a session makes of a page.
    spec fn statistics(page: Page, stats: IssueStats) -> Rendered;

    /// Renders one diagnostic.
    fn render_diagnostic(&mut self, out: &mut String, diag: &Diagnostic, files: &SourceMap) -> (result:
        Result<(), RenderError>)
        ensures
            ({
                let done = Self::diagnostic(
                    Page { layout: old(self).layout(), text: old(out)@ },
                    *diag,
                    files@,
                );
                &&& (Page { layout: final(self).layout(), text: final(out)@ }) == done.page
                &&& result == done.result
            }),
    ;

    /// Renders the statistics of a session.
    fn render_stats(&mut self, out: &mut String, stats: &IssueStats) -> (result: Result<
        (),
        RenderError,
    >)
        ensures
            ({
                let done = Self::statistics(
                    Page { layout: old(self).layout(), text: old(out)@ },
                    *stats,
                );
                &&& (Page { layout: final(self).layout(), text: final(out)@ }) == done.page
                &&& result == done.result
            }),
    ;
}

/// Renders all of the issues reported by a compiler session: each
/// diagnostic in the order of its arrival and then, if there was any, the
/// statistics. Rendering stops at the first failure.
pub fn render_session<R: Renderer>(renderer: &mut R, out: &mut String, sess: &Session) -> (result:
    Result<(), RenderError>)
    ensures
        ({
            let done = session::<R>(
                Page { layout: old(renderer).layout(), text: old(out)@ },
                sess.issues.errors@,
                sess.files@,
            );
            &&& (Page { layout: final(renderer).layout(), text: final(out)@ }) == done.page
            &&& result == done.result
        }),
{
    render_issues(renderer, out, &sess.files, &sess.issues)
}

/// Renders the diagnostics of `issues` against the files of `files`: each
/// diagnostic in the order of its arrival and then, if there was any, the
/// statistics. Rendering stops at the first failure.
pub fn render_issues<R: Renderer>(
    renderer: &mut R,
    out: &mut String,
    files: &SourceMap,
    issues: &IssueManager,
) -> (result: Result<(), RenderError>)
    ensures
        ({
            let done = session::<R>(
                Page { layout: old(renderer).layout(), text: old(out)@ },
                issues.errors@,
                files@,
            );
            &&& (Page { layout: final(renderer).layout(), text: final(out)@ }) == done.page
            &&& result == done.result
        }),
{
    let ghost start = Page { layout: renderer.layout(), text: out@ };
    let mut i: usize = 0;
    while i < issues.errors.len()
        invariant
            i <= issues.errors.len(),
            start == (Page { layout: old(renderer).layout(), text: old(out)@ }),
            diagnostics::<R>(start, issues.errors@, files@, i as nat) == (Rendered {
                page: Page { layout: renderer.layout(), text: out@ },
                result: Ok(()),
            }),
        decreases issues.errors.len() - i,
    {
        let ghost before = Page { layout: renderer.layout(), text: out@ };
        let outcome = renderer.render_diagnostic(out, &issues.errors[i], files);
        proof {
            let done = R::diagnostic(before, issues.errors@[i as int], files@);
            assert(diagnostics::<R>(start, issues.errors@, files@, (i + 1) as nat) == done);
        }
        match outcome {
            Ok(()) => {
                proof {
                    let done = R::diagnostic(before, issues.errors@[i as int], files@);
                    assert(done.result is Ok);
                    assert(done.result->Ok_0 == ());
                    assert(done.result == Ok::<(), RenderError>(()));
                    assert(done == Rendered { page: done.page, result: done.result });
                }
            },
            Err(error) => {
                proof {
                    lemma_diagnostics_stop::<R>(
                        start,
                        issues.errors@,
                        files@,
                        (i + 1) as nat,
                        issues.errors@.len(),
                    );
                }
                return Err(error);
            },
        }
        i = i + 1;
    }
    match issues.error_stats() {
        Some(stats) => {
            proof {
                lemma_stats_of(issues.errors@, stats);
            }
            renderer.render_stats(out, &stats)
        },
        None => Ok(()),
    }
}

/// Statistics that count each severity rightly and name the worst one are
/// the statistics of the diagnostics.
pub proof fn lemma_stats_of(errors: Seq<Diagnostic>, stats: IssueStats)
    requires
        stats.infos == crate::error::count_of(errors, Severity::Info),
        stats.warnings == crate::error::count_of(errors, Severity::Warning),
        stats.errors == crate::error::count_of(errors, Severity::Fatal),
        stats.bugs == crate::error::count_of(errors, Severity::Bug),
        crate::error::is_max_severity(errors, stats.max_severity),
    ensures
        stats == stats_of(errors),
{
    let max = stats_of(errors).max_severity;
    assert(crate::error::is_max_severity(errors, max));
    let w = choose|w: int| 0 <= w < errors.len() && (#[trigger] errors[w]).severity == max;
    let v = choose|v: int|
        0 <= v < errors.len() && (#[trigger] errors[v]).severity == stats.max_severity;
    assert(errors[w].severity.spec_rank() <= stats.max_severity.spec_rank());
    assert(errors[v].severity.spec_rank() <= max.spec_rank());
}

/// What rendering the first `n` of `errors` makes of a page. Rendering stops
/// at the first diagnostic that fails.
pub open spec fn diagnostics<R: Renderer>(
    page: Page,
    errors: Seq<Diagnostic>,
    files: Registry,
    n: nat,
) -> Rendered
    decreases n,
{
    if n == 0 {
        Rendered { page, result: Ok(()) }
    } else {
        let before = diagnostics::<R>(page, errors, files, (n - 1) as nat);
        if before.result is Ok {
            R::diagnostic(before.page, errors[n - 1], files)
        } else {
            before
        }
    }
}

/// The statistics of the diagnostics `errors`, which are not empty: how many
/// there are of each severity, and the worst severity among them.
pub open spec fn stats_of(errors: Seq<Diagnostic>) -> IssueStats {
    IssueStats {
        max_severity: choose|max: Severity| crate::error::is_max_severity(errors, max),
        infos: crate::error::count_of(errors, Severity::Info) as usize,
        warnings: crate::error::count_of(errors, Severity::Warning) as usize,
        errors: crate::error::count_of(errors, Severity::Fatal) as usize,
        bugs: crate::error::count_of(errors, Severity::Bug) as usize,
    }
}

/// What rendering a session makes of a page: every diagnostic in the order
/// of its arrival and then, if there was any, the statistics.
pub open spec fn session<R: Renderer>(page: Page, errors: Seq<Diagnostic>, files: Registry) -> Rendered {
    let done = diagnostics::<R>(page, errors, files, errors.len());
    if done.result is Ok && errors.len() > 0 {
        R::statistics(done.page, stats_of(errors))
    } else {
        done
    }
}

/// Once a diagnostic has failed, the diagnostics behind it change nothing.
pub proof fn lemma_diagnostics_stop<R: Renderer>(
    page: Page,
    errors: Seq<Diagnostic>,
    files: Registry,
    n: nat,
    m: nat,
)
    requires
        n <= m,
        diagnostics::<R>(page, errors, files, n).result is Err,
    ensures
        diagnostics::<R>(page, errors, files, m) == diagnostics::<R>(page, errors, files, n),
    decreases m,
{
    if n < m {
        lemma_diagnostics_stop::<R>(page, errors, files, n, (m - 1) as nat);
    }
}

impl Session {
    /// Creates a session without files and diagnostics.
    pub fn new() -> (sess: Session)
        ensures
            sess.files@.entries.len() == 0,
            sess.files@.wf(),
            sess.issues.errors@.len() == 0,
    {
        Session { files: SourceMap::new(), issues: IssueManager::new() }
    }

    /// Takes in what was read from `path`. Where reading failed, a
    /// diagnostic of the severity `Fatal` is reported, which names the path
    /// and carries what the system said; the source map stays as it is.
    pub fn load_file(&mut self, path: &str, read: Result<String, String>) -> (file: Option<
        FileData,
    >)
        ensures
            match read {
                Ok(src) => {
                    &&& final(self).files@ == old(self).files@.load(path@, src@)
                    &&& final(self).issues.errors@ == old(self).issues.errors@
                    &&& file is Some
                    &&& file->0.id == old(self).files@.id_for(path@)
                    &&& file->0.src@ == src@
                    &&& file->0.modified == old(self).files@.modifies(path@, src@)
                },
                Err(reason) => {
                    &&& final(self).files@ == old(self).files@
                    &&& file is None
                    &&& final(self).issues.errors@.len() == old(self).issues.errors@.len() + 1
                    &&& final(self).issues.errors@.drop_last() == old(self).issues.errors@
                    &&& is_load_failure(final(self).issues.errors@.last(), path@, reason@)
                },
            },
            old(self).files@.wf() && old(self).files@.entries.len() < u64::MAX
                ==> final(self).files@.wf(),
    {
        match self.files.load_file(path, read) {
            Ok(file) => Some(file),
            Err(reason) => {
                let diag = load_failure(path, reason);
                diag.report(&mut self.issues);
                assert(self.issues.errors@.drop_last() =~= old(self).issues.errors@);
                None
            },
        }
    }
}

/// The exit status of a run: 2 where the diagnostics could not be written
/// out, else 1 where one of them is an error, else 0.
pub open spec fn exit_status(errors: Seq<Diagnostic>, written: bool) -> u8 {
    if !written {
        2
    } else if crate::error::any_error(errors) {
        1
    } else {
        0
    }
}

/// Returns the exit status of a run, given whether its diagnostics were
/// written out. A failure to write them out weighs more than the errors
/// among them.
pub fn exit_code(issues: &IssueManager, written: bool) -> (code: u8)
    ensures
        code == exit_status(issues.errors@, written),
{
    if !written {
        2
    } else if issues.has_errors() {
        1
    } else {
        0
    }
}

/// Whether `diag` is the diagnostic for a file at `path` that could not be
/// read for the given reason.
pub open spec fn is_load_failure(diag: Diagnostic, path: Seq<char>, reason: Seq<char>) -> bool {
    &&& diag.severity == Severity::Fatal
    &&& diag.message is Some
    &&& diag.message->0.template@ == "failed to load file `{}`: {}"@
    &&& diag.message->0.args@.len() == 2
    &&& diag.message->0.args@[0] is Text
    &&& diag.message->0.args@[0]->Text_0@ == path
    &&& diag.message->0.args@[1] is Text
    &&& diag.message->0.args@[1]->Text_0@ == reason
    &&& diag.primary_labels@.len() == 0
    &&& diag.secondary_labels@.len() == 0
    &&& diag.notes@.len() == 0
}

/// Returns the diagnostic for a file at `path` that could not be read.
pub fn load_failure(path: &str, reason: String) -> (diag: Diagnostic)
    ensures
        is_load_failure(diag, path@, reason@),
{
    Diagnostic::error().message(
        Message::new("failed to load file `{}`: {}").with_arg(TextFragment::text(path)).with_arg(
            TextFragment::Text(reason),
        ),
    )
}

/// Writes the start of a rendered diagnostic: the name of the severity in
/// its colour, then a colon and a space.
pub(crate) fn write_headline(printer: &mut PrettyPrinter, out: &mut String, severity: Severity)
    ensures
        final(printer).on(final(out)@) == headline(old(printer).on(old(out)@), severity),
{
    printer.write_style(out, severity.as_colour().decorated(Decoration::Bold));
    printer.write(out, severity.as_str());
    printer.write_style(out, Style::default());
    printer.write(out, ": ");
}

/// Writes the text of a message in bold.
pub(crate) fn write_headline_message(
    printer: &mut PrettyPrinter,
    out: &mut String,
    message: &Message,
    files: &SourceMap,
)
    ensures
        final(printer).on(final(out)@) == headline_message(
            old(printer).on(old(out)@),
            *message,
            files@,
        ),
{
    let _ = printer.indent_stash();
    printer.write_style(out, Style { decoration: Some(Decoration::Bold), bg: None, fg: None });
    write_message(printer, out, message, files);
    printer.write_style(out, Style::default());
    printer.indent_pop();
}

/// Writes the text of a message.
pub(crate) fn write_message(
    printer: &mut PrettyPrinter,
    out: &mut String,
    message: &Message,
    files: &SourceMap,
)
    ensures
        final(printer).on(final(out)@) == old(printer).on(old(out)@).put(
            message.spec_text(files@),
        ),
{
    let text = message.show(files);
    printer.write(out, text.as_str());
}

} // verus!
