//! Diagnostics: what went wrong, how badly, and where. A diagnostic is put
//! together step by step and then handed to an [`IssueManager`], which keeps
//! every diagnostic in the order of its arrival.

use vstd::prelude::*;
use vstd::string::*;
use crate::message::{Message, TextFragment};
use crate::pretty::Colour;
use crate::span::{FileId, Location};

verus! {

/// How bad a diagnostic is. The order is that of the declaration:
/// `Info < Warning < Fatal < Bug`.
#[derive(Debug, Clone, Copy, PartialEq, Eq, PartialOrd, Ord, Structural)]
pub enum Severity {
    /// Something worth knowing.
    Info,
    /// Advice that never fails a build.
    Warning,
    /// An error in what the user wrote.
    Fatal,
    /// An internal invariant of the compiler was broken.
    Bug,
}

/// Indicates where an error occurred with an optional annotation.
#[derive(Debug)]
pub struct Label {
    /// The location where the error occurred in the source file.
    pub location: Location,
    /// The caption to use (if any) when displaying the error information.
    pub caption: Option<Message>,
}

/// Notes additional information as part of a diagnostic.
#[derive(Debug)]
pub struct Note {
    /// The note caption.
    pub caption: Message,
}

/// Represents all information about an error encountered by the compiler.
#[derive(Debug)]
pub struct Diagnostic {
    /// The severity of this error.
    pub severity: Severity,
    /// A brief description of the error.
    pub message: Option<Message>,
    /// Point at the code which directly caused the error.
    pub primary_labels: Vec<Label>,
    /// Point at code which may be relevant to the error, such as the other
    /// places where a variable is used.
    pub secondary_labels: Vec<Label>,
    /// Additional notes about the error, displayed at the bottom of the error
    /// message.
    pub notes: Vec<Note>,
}

/// Maintains a list of errors that occurred during compilation.
#[derive(Debug)]
pub struct IssueManager {
    /// Every diagnostic reported so far, in the order of arrival.
    pub errors: Vec<Diagnostic>,
}

/// Stores error statistics, such as error frequency.
#[derive(Debug, Clone, Copy, PartialEq, Eq, Structural)]
pub struct IssueStats {
    /// The max error class reached by the compiler.
    pub max_severity: Severity,
    /// The number of infos encountered.
    pub infos: usize,
    /// The number of warnings encountered.
    pub warnings: usize,
    /// The number of fatal errors encountered.
    pub errors: usize,
    /// The number of compiler bugs encountered.
    pub bugs: usize,
}

impl Severity {
    /// The place of the severity in the order, from zero for `Info`.
    pub open spec fn spec_rank(self) -> int {
        match self {
            Severity::Info => 0,
            Severity::Warning => 1,
            Severity::Fatal => 2,
            Severity::Bug => 3,
        }
    }

    /// Whether a diagnostic of this severity counts as an error: it is
    /// `Fatal` or worse.
    pub open spec fn is_error(self) -> bool {
        self.spec_rank() >= Severity::Fatal.spec_rank()
    }

    /// The word that stands for the severity in rendered output.
    pub open spec fn spec_str(self) -> Seq<char> {
        match self {
            Severity::Info => "info"@,
            Severity::Warning => "warning"@,
            Severity::Fatal => "error"@,
            Severity::Bug => "bug"@,
        }
    }

    /// The colour in which the severity is rendered.
    pub open spec fn spec_colour(self) -> Colour {
        match self {
            Severity::Info => Colour::BrightBlue,
            Severity::Warning => Colour::Yellow,
            Severity::Fatal => Colour::BrightRed,
            Severity::Bug => Colour::Magenta,
        }
    }

    /// Returns the place of this severity in the order, from zero for
    /// `Info`.
    pub fn rank(&self) -> (rank: u8)
        ensures
            rank == self.spec_rank(),
    {
        match self {
            Severity::Info => 0,
            Severity::Warning => 1,
            Severity::Fatal => 2,
            Severity::Bug => 3,
        }
    }

    /// Returns the string representation of this severity.
    pub fn as_str(&self) -> (name: &'static str)
        ensures
            name@ == self.spec_str(),
    {
        match self {
            Severity::Info => "info",
            Severity::Warning => "warning",
            Severity::Fatal => "error",
            Severity::Bug => "bug",
        }
    }

    /// Returns the colour of this severity.
    pub fn as_colour(&self) -> (colour: Colour)
        ensures
            colour == self.spec_colour(),
    {
        match self {
            Severity::Info => Colour::BrightBlue,
            Severity::Warning => Colour::Yellow,
            Severity::Fatal => Colour::BrightRed,
            Severity::Bug => Colour::Magenta,
        }
    }
}

impl Default for Severity {
    fn default() -> (severity: Severity)
        ensures
            severity == Severity::Fatal,
    {
        Severity::Fatal
    }
}

impl Label {
    /// Creates a new label from this source location, without a caption.
    pub fn new(location: Location) -> (label: Label)
        ensures
            label.location == location,
            label.caption is None,
    {
        Label { location, caption: None }
    }

    /// Consumes this label, returning a new label with the given caption.
    pub fn with_caption(self, caption: Message) -> (label: Label)
        ensures
            label.location == self.location,
            label.caption == Some(caption),
    {
        Label { location: self.location, caption: Some(caption) }
    }
}

impl Note {
    /// Creates a note with an empty caption.
    pub fn new() -> (note: Note)
        ensures
            note.caption.template@ == ""@,
            note.caption.args@ == Seq::<TextFragment>::empty(),
    {
        Note { caption: Message::new("") }
    }

    /// Consumes this note, returning a new note with the given caption.
    pub fn with_caption(self, caption: Message) -> (note: Note)
        ensures
            note.caption == caption,
    {
        Note { caption }
    }
}

/// The note that every diagnostic of the severity `Bug` starts with.
pub open spec fn bug_note() -> Seq<char> {
    "likely caused by a bug in the compiler, please report the issue:\nhttps://github.com/katsaii/cosy-lang/issues"@
}

impl Diagnostic {
    /// Whether the diagnostic is as `new` makes it for its severity: without
    /// message and labels, and with the one note on reporting where the
    /// severity is `Bug`.
    pub open spec fn is_blank(self) -> bool {
        &&& self.message is None
        &&& self.primary_labels@.len() == 0
        &&& self.secondary_labels@.len() == 0
        &&& if self.severity == Severity::Bug {
            &&& self.notes@.len() == 1
            &&& self.notes@[0].caption.template@ == bug_note()
            &&& self.notes@[0].caption.args@.len() == 0
        } else {
            self.notes@.len() == 0
        }
    }

    /// Creates an empty diagnostic with this severity. A diagnostic of the
    /// severity `Bug` starts with a note that asks for the bug to be
    /// reported.
    pub fn new(severity: Severity) -> (diag: Diagnostic)
        ensures
            diag.severity == severity,
            diag.is_blank(),
    {
        let diag = Diagnostic {
            severity,
            message: None,
            primary_labels: Vec::new(),
            secondary_labels: Vec::new(),
            notes: Vec::new(),
        };
        match severity {
            Severity::Bug => diag.note(
                Note {
                    caption: Message::new(
                        "likely caused by a bug in the compiler, please report the issue:\nhttps://github.com/katsaii/cosy-lang/issues",
                    ),
                },
            ),
            _ => diag,
        }
    }

    /// Creates an empty info message.
    pub fn info() -> (diag: Diagnostic)
        ensures
            diag.severity == Severity::Info,
            diag.is_blank(),
    {
        Diagnostic::new(Severity::Info)
    }

    /// Creates an empty warning message.
    pub fn warning() -> (diag: Diagnostic)
        ensures
            diag.severity == Severity::Warning,
            diag.is_blank(),
    {
        Diagnostic::new(Severity::Warning)
    }

    /// Creates an empty error message, of the severity `Fatal`.
    pub fn error() -> (diag: Diagnostic)
        ensures
            diag.severity == Severity::Fatal,
            diag.is_blank(),
    {
        Diagnostic::new(Severity::Fatal)
    }

    /// Creates an empty bug message.
    pub fn bug() -> (diag: Diagnostic)
        ensures
            diag.severity == Severity::Bug,
            diag.is_blank(),
    {
        Diagnostic::new(Severity::Bug)
    }

    /// Creates a bug message which says that `feature` is not yet
    /// implemented.
    pub fn unimplemented(feature: &str) -> (diag: Diagnostic)
        ensures
            diag.severity == Severity::Bug,
            diag.message is Some,
            diag.message->0.template@ == "'{}' is unimplemented"@,
            diag.message->0.args@.len() == 1,
            diag.message->0.args@[0] is Text,
            diag.message->0.args@[0]->Text_0@ == feature@,
            (Diagnostic { message: None, ..diag }).is_blank(),
    {
        Diagnostic::bug().message(
            Message::new("'{}' is unimplemented").with_arg(TextFragment::text(feature)),
        )
    }

    /// Creates a bug message which says that unreachable code was reached.
    pub fn unreachable() -> (diag: Diagnostic)
        ensures
            diag.severity == Severity::Bug,
            diag.message is Some,
            diag.message->0.template@ == "encountered an unreachable compiler state"@,
            diag.message->0.args@.len() == 0,
            (Diagnostic { message: None, ..diag }).is_blank(),
    {
        Diagnostic::bug().message(Message::new("encountered an unreachable compiler state"))
    }

    /// Sets the description of this diagnostic. A diagnostic has at most one
    /// message.
    pub fn message(self, message: Message) -> (diag: Diagnostic)
        requires
            self.message is None,
        ensures
            diag == (Diagnostic { message: Some(message), ..self }),
    {
        let mut diag = self;
        diag.message = Some(message);
        diag
    }

    /// Inserts a new primary label into this diagnostic.
    pub fn label(self, label: Label) -> (diag: Diagnostic)
        ensures
            diag.severity == self.severity,
            diag.message == self.message,
            diag.primary_labels@ == self.primary_labels@.push(label),
            diag.secondary_labels == self.secondary_labels,
            diag.notes == self.notes,
    {
        let mut diag = self;
        diag.primary_labels.push(label);
        diag
    }

    /// Inserts a new secondary label into this diagnostic.
    pub fn label_other(self, label: Label) -> (diag: Diagnostic)
        ensures
            diag.severity == self.severity,
            diag.message == self.message,
            diag.primary_labels == self.primary_labels,
            diag.secondary_labels@ == self.secondary_labels@.push(label),
            diag.notes == self.notes,
    {
        let mut diag = self;
        diag.secondary_labels.push(label);
        diag
    }

    /// Adds a new note to the end of this diagnostic. Notes carry additional
    /// information that has no source location of its own.
    pub fn note(self, note: Note) -> (diag: Diagnostic)
        ensures
            diag.severity == self.severity,
            diag.message == self.message,
            diag.primary_labels == self.primary_labels,
            diag.secondary_labels == self.secondary_labels,
            diag.notes@ == self.notes@.push(note),
    {
        let mut diag = self;
        diag.notes.push(note);
        diag
    }

    /// Consumes this diagnostic and appends it to the issues reported so
    /// far.
    pub fn report(self, issues: &mut IssueManager)
        ensures
            final(issues).errors@ == old(issues).errors@.push(self),
    {
        issues.errors.push(self);
    }
}

/// The number of diagnostics of the given severity among `errors`.
pub open spec fn count_of(errors: Seq<Diagnostic>, severity: Severity) -> nat
    decreases errors.len(),
{
    if errors.len() == 0 {
        0
    } else {
        count_of(errors.drop_last(), severity) + if errors.last().severity == severity {
            1nat
        } else {
            0nat
        }
    }
}

/// Whether `max` is the worst severity among `errors`: one of them has it,
/// and none is worse.
pub open spec fn is_max_severity(errors: Seq<Diagnostic>, max: Severity) -> bool {
    &&& exists|i: int| 0 <= i < errors.len() && (#[trigger] errors[i]).severity == max
    &&& forall|i: int|
        0 <= i < errors.len() ==> (#[trigger] errors[i]).severity.spec_rank() <= max.spec_rank()
}

/// Whether one of `errors` counts as an error.
pub open spec fn any_error(errors: Seq<Diagnostic>) -> bool {
    exists|i: int| 0 <= i < errors.len() && (#[trigger] errors[i]).severity.is_error()
}

impl IssueManager {
    /// Creates an issue manager without diagnostics.
    pub fn new() -> (issues: IssueManager)
        ensures
            issues.errors@.len() == 0,
    {
        IssueManager { errors: Vec::new() }
    }

    /// Returns whether any messages occurred, regardless of their severity.
    pub fn has_messages(&self) -> (any: bool)
        ensures
            any == (self.errors@.len() > 0),
    {
        self.errors.len() > 0
    }

    /// Returns whether errors occurred: whether a diagnostic of the severity
    /// `Fatal` or worse was reported.
    pub fn has_errors(&self) -> (any: bool)
        ensures
            any == any_error(self.errors@),
    {
        let mut i: usize = 0;
        while i < self.errors.len()
            invariant
                i <= self.errors.len(),
                forall|k: int| 0 <= k < i ==> !(#[trigger] self.errors@[k]).severity.is_error(),
            decreases self.errors.len() - i,
        {
            if self.errors[i].severity.rank() >= 2 {
                return true;
            }
            i = i + 1;
        }
        false
    }

    /// Returns the statistics for the diagnostics that were reported: how
    /// many there are of each severity, and the worst severity among them.
    /// There are none to give where nothing was reported.
    pub fn error_stats(&self) -> (stats: Option<IssueStats>)
        ensures
            stats is Some <==> self.errors@.len() > 0,
            stats is Some ==> {
                let stats = stats->0;
                &&& stats.infos == count_of(self.errors@, Severity::Info)
                &&& stats.warnings == count_of(self.errors@, Severity::Warning)
                &&& stats.errors == count_of(self.errors@, Severity::Fatal)
                &&& stats.bugs == count_of(self.errors@, Severity::Bug)
                &&& stats.spec_total() == self.errors@.len()
                &&& is_max_severity(self.errors@, stats.max_severity)
            },
    {
        if !self.has_messages() {
            return None;
        }
        let mut stats = IssueStats {
            max_severity: self.errors[0].severity,
            infos: 0,
            warnings: 0,
            errors: 0,
            bugs: 0,
        };
        let mut i: usize = 0;
        assert(self.errors@.take(0) =~= Seq::<Diagnostic>::empty());
        while i < self.errors.len()
            invariant
                0 < self.errors.len(),
                i <= self.errors.len(),
                stats.infos == count_of(self.errors@.take(i as int), Severity::Info),
                stats.warnings == count_of(self.errors@.take(i as int), Severity::Warning),
                stats.errors == count_of(self.errors@.take(i as int), Severity::Fatal),
                stats.bugs == count_of(self.errors@.take(i as int), Severity::Bug),
                stats.infos + stats.warnings + stats.errors + stats.bugs == i,
                i == 0 ==> stats.max_severity == self.errors@[0].severity,
                i > 0 ==> is_max_severity(self.errors@.take(i as int), stats.max_severity),
            decreases self.errors.len() - i,
        {
            let severity = self.errors[i].severity;
            let ghost seen = self.errors@.take(i as int);
            let ghost next = self.errors@.take(i + 1);
            let ghost before = stats.max_severity;
            assert(next.drop_last() =~= seen);
            assert(next.last() == self.errors@[i as int]);
            match severity {
                Severity::Info => {
                    stats.infos = stats.infos + 1;
                },
                Severity::Warning => {
                    stats.warnings = stats.warnings + 1;
                },
                Severity::Fatal => {
                    stats.errors = stats.errors + 1;
                },
                Severity::Bug => {
                    stats.bugs = stats.bugs + 1;
                },
            }
            if severity.rank() > stats.max_severity.rank() {
                stats.max_severity = severity;
            }
            proof {
                assert forall|k: int| 0 <= k < next.len() implies (
                #[trigger] next[k]).severity.spec_rank() <= stats.max_severity.spec_rank() by {
                    if k < i {
                        assert(seen[k] == next[k]);
                    }
                }
                if stats.max_severity == severity {
                    assert(next[i as int].severity == stats.max_severity);
                } else {
                    let w = choose|w: int| 0 <= w < seen.len() && (#[trigger] seen[w]).severity
                        == before;
                    assert(next[w].severity == stats.max_severity);
                }
            }
            i = i + 1;
        }
        assert(self.errors@.take(i as int) =~= self.errors@);
        Some(stats)
    }
}

impl Default for IssueManager {
    fn default() -> (issues: IssueManager)
        ensures
            issues.errors@.len() == 0,
    {
        IssueManager::new()
    }
}

impl IssueStats {
    /// The total number of diagnostics counted.
    pub open spec fn spec_total(self) -> int {
        self.infos + self.warnings + self.errors + self.bugs
    }

    /// Returns the total number of messages that occurred.
    pub fn total(&self) -> (total: usize)
        requires
            self.spec_total() <= usize::MAX,
        ensures
            total == self.spec_total(),
    {
        self.infos + self.warnings + self.errors + self.bugs
    }
}

/// Issues that hold nothing worse than warnings hold no error.
pub proof fn lemma_warnings_are_no_errors(errors: Seq<Diagnostic>)
    requires
        forall|i: int|
            0 <= i < errors.len() ==> (#[trigger] errors[i]).severity.spec_rank()
                <= Severity::Warning.spec_rank(),
    ensures
        !any_error(errors),
{
}

/// There is an error among the issues exactly where their worst severity is
/// `Fatal` or `Bug`.
pub proof fn lemma_errors_iff_max_is_error(errors: Seq<Diagnostic>, max: Severity)
    requires
        is_max_severity(errors, max),
    ensures
        any_error(errors) <==> max.is_error(),
{
    if max.is_error() {
        let w = choose|w: int| 0 <= w < errors.len() && (#[trigger] errors[w]).severity == max;
        assert(errors[w].severity.is_error());
    }
}

/// Reporting one more diagnostic keeps every earlier one in its place, and
/// there is an error afterwards exactly where there was one before or the
/// new diagnostic is one.
pub proof fn lemma_report_keeps_order(errors: Seq<Diagnostic>, diag: Diagnostic)
    ensures
        errors.push(diag).len() == errors.len() + 1,
        forall|i: int| 0 <= i < errors.len() ==> errors.push(diag)[i] == errors[i],
        errors.push(diag).last() == diag,
        any_error(errors.push(diag)) <==> any_error(errors) || diag.severity.is_error(),
{
    let after = errors.push(diag);
    if any_error(errors) {
        let w = choose|w: int| 0 <= w < errors.len() && (#[trigger] errors[w]).severity.is_error();
        assert(after[w].severity.is_error());
    }
    if diag.severity.is_error() {
        assert(after[errors.len() as int].severity.is_error());
    }
    if any_error(after) {
        let w = choose|w: int| 0 <= w < after.len() && (#[trigger] after[w]).severity.is_error();
        if w < errors.len() {
            assert(errors[w].severity.is_error());
        }
    }
}

/// The files that the first `n` arguments of `message` quote source code
/// from, in order.
pub open spec fn message_files(message: Message, n: nat) -> Seq<FileId>
    decreases n,
{
    if n == 0 {
        Seq::empty()
    } else {
        let before = message_files(message, (n - 1) as nat);
        match message.args@[n - 1] {
            TextFragment::Code(location) => before.push(location.file_id),
            TextFragment::Text(_) => before,
        }
    }
}

/// The files that a message quotes source code from, if there is a
/// message.
pub open spec fn caption_files(caption: Option<Message>) -> Seq<FileId> {
    match caption {
        Some(message) => message_files(message, message.args@.len()),
        None => Seq::empty(),
    }
}

/// The files that the first `n` of `labels` need: for each label the file it
/// points into, and then the files that its caption quotes from.
pub open spec fn label_files(labels: Seq<Label>, n: nat) -> Seq<FileId>
    decreases n,
{
    if n == 0 {
        Seq::empty()
    } else {
        label_files(labels, (n - 1) as nat).push(labels[n - 1].location.file_id) + caption_files(
            labels[n - 1].caption,
        )
    }
}

/// The files that the first `n` of `notes` quote source code from.
pub open spec fn note_files(notes: Seq<Note>, n: nat) -> Seq<FileId>
    decreases n,
{
    if n == 0 {
        Seq::empty()
    } else {
        note_files(notes, (n - 1) as nat) + caption_files(Some(notes[n - 1].caption))
    }
}

/// The files whose content is needed to render `diag`: those of its
/// message, of its primary and its secondary labels, and of its notes, in
/// this order. A file is listed as often as it is needed.
pub open spec fn diagnostic_files(diag: Diagnostic) -> Seq<FileId> {
    caption_files(diag.message) + label_files(diag.primary_labels@, diag.primary_labels@.len())
        + label_files(diag.secondary_labels@, diag.secondary_labels@.len()) + note_files(
        diag.notes@,
        diag.notes@.len(),
    )
}

/// The files whose content is needed to render the first `n` of `errors`.
pub open spec fn cited_files(errors: Seq<Diagnostic>, n: nat) -> Seq<FileId>
    decreases n,
{
    if n == 0 {
        Seq::empty()
    } else {
        cited_files(errors, (n - 1) as nat) + diagnostic_files(errors[n - 1])
    }
}

fn push_message_files(message: &Message, files: &mut Vec<FileId>)
    ensures
        final(files)@ == old(files)@ + caption_files(Some(*message)),
{
    let mut i: usize = 0;
    assert(files@ =~= old(files)@ + message_files(*message, 0));
    while i < message.args.len()
        invariant
            i <= message.args.len(),
            files@ == old(files)@ + message_files(*message, i as nat),
        decreases message.args.len() - i,
    {
        match &message.args[i] {
            TextFragment::Code(location) => {
                files.push(location.file_id);
            },
            TextFragment::Text(_) => {},
        }
        i = i + 1;
        assert(files@ =~= old(files)@ + message_files(*message, i as nat));
    }
}

fn push_label_files(labels: &Vec<Label>, files: &mut Vec<FileId>)
    ensures
        final(files)@ == old(files)@ + label_files(labels@, labels@.len()),
{
    let mut i: usize = 0;
    assert(files@ =~= old(files)@ + label_files(labels@, 0));
    while i < labels.len()
        invariant
            i <= labels.len(),
            files@ == old(files)@ + label_files(labels@, i as nat),
        decreases labels.len() - i,
    {
        files.push(labels[i].location.file_id);
        match &labels[i].caption {
            Some(caption) => {
                push_message_files(caption, files);
            },
            None => {},
        }
        i = i + 1;
        assert(files@ =~= old(files)@ + label_files(labels@, i as nat));
    }
}

impl Diagnostic {
    /// Appends to `files` the files whose content is needed to render this
    /// diagnostic.
    pub fn push_files(&self, files: &mut Vec<FileId>)
        ensures
            final(files)@ == old(files)@ + diagnostic_files(*self),
    {
        match &self.message {
            Some(message) => {
                push_message_files(message, files);
            },
            None => {},
        }
        push_label_files(&self.primary_labels, files);
        push_label_files(&self.secondary_labels, files);
        let ghost start = files@;
        let mut i: usize = 0;
        assert(files@ =~= start + note_files(self.notes@, 0));
        while i < self.notes.len()
            invariant
                i <= self.notes.len(),
                files@ == start + note_files(self.notes@, i as nat),
            decreases self.notes.len() - i,
        {
            push_message_files(&self.notes[i].caption, files);
            i = i + 1;
            assert(files@ =~= start + note_files(self.notes@, i as nat));
        }
        assert(files@ =~= old(files)@ + diagnostic_files(*self));
    }
}

impl IssueManager {
    /// Returns the files whose content is needed to render the diagnostics
    /// reported so far, in the order in which rendering needs them.
    pub fn cited_files(&self) -> (files: Vec<FileId>)
        ensures
            files@ == cited_files(self.errors@, self.errors@.len()),
    {
        let mut files: Vec<FileId> = Vec::new();
        let mut i: usize = 0;
        while i < self.errors.len()
            invariant
                i <= self.errors.len(),
                files@ == cited_files(self.errors@, i as nat),
            decreases self.errors.len() - i,
        {
            self.errors[i].push_files(&mut files);
            i = i + 1;
        }
        files
    }
}

/// The file of every label of a diagnostic is among the files that the
/// diagnostic needs.
pub proof fn lemma_label_files_cited(labels: Seq<Label>, n: nat, k: int)
    requires
        0 <= k < n <= labels.len(),
    ensures
        label_files(labels, n).contains(labels[k].location.file_id),
    decreases n,
{
    let before = label_files(labels, (n - 1) as nat);
    let own = before.push(labels[n - 1].location.file_id);
    let all = own + caption_files(labels[n - 1].caption);
    if k == n - 1 {
        assert(all[before.len() as int] == labels[k].location.file_id);
    } else {
        lemma_label_files_cited(labels, (n - 1) as nat, k);
        let at = choose|at: int| 0 <= at < before.len() && before[at] == labels[k].location.file_id;
        assert(all[at] == labels[k].location.file_id);
    }
}

} // verus!
