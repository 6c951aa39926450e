//! A small stateful printer for terminal text: it tracks the current
//! column, indents lazily after a line break, escapes control characters and
//! emits ANSI styles.
//!
//! The printer itself holds no text. Every operation appends to a `String`
//! that the caller passes in, and is specified as a step from one [`Page`]
//! to the next.

use vstd::prelude::*;
use vstd::string::*;
use vstd::std_specs::convert::FromSpecImpl;
use crate::text::{
    decimal, escape_debug, escape_debug_chars, is_whitespace_char, push_decimal, push_run, run,
    sat_add, saturating_add, str_eq,
};

verus! {

/// ANSI terminal colours.
#[derive(Debug, Clone, Copy, PartialEq, Eq, Structural)]
pub enum Colour {
    Black,
    Red,
    Green,
    Yellow,
    Blue,
    Magenta,
    Cyan,
    Grey,
    BrightBlack,
    BrightRed,
    BrightGreen,
    BrightYellow,
    BrightBlue,
    BrightMagenta,
    BrightCyan,
    BrightGrey,
}

/// ANSI terminal text decorations.
#[derive(Debug, Clone, Copy, PartialEq, Eq, Structural)]
pub enum Decoration {
    Bold,
    Dimmed,
    Italic,
    Underline,
    Blink,
    Reversed,
    Hidden,
    Strikethrough,
}

/// A combination of an optional decoration, foreground colour and background
/// colour.
#[derive(Debug, Clone, Copy, PartialEq, Eq, Structural)]
pub struct Style {
    pub decoration: Option<Decoration>,
    pub bg: Option<Colour>,
    pub fg: Option<Colour>,
}

impl Colour {
    /// The SGR parameter that selects this colour as the foreground; the
    /// background parameter is ten more.
    pub open spec fn spec_code(self) -> usize {
        match self {
            Colour::Black => 30,
            Colour::Red => 31,
            Colour::Green => 32,
            Colour::Yellow => 33,
            Colour::Blue => 34,
            Colour::Magenta => 35,
            Colour::Cyan => 36,
            Colour::Grey => 37,
            Colour::BrightBlack => 90,
            Colour::BrightRed => 91,
            Colour::BrightGreen => 92,
            Colour::BrightYellow => 93,
            Colour::BrightBlue => 94,
            Colour::BrightMagenta => 95,
            Colour::BrightCyan => 96,
            Colour::BrightGrey => 97,
        }
    }

    /// Returns the SGR parameter that selects this colour as the foreground.
    pub fn code(self) -> (code: usize)
        ensures
            code == self.spec_code(),
    {
        match self {
            Colour::Black => 30,
            Colour::Red => 31,
            Colour::Green => 32,
            Colour::Yellow => 33,
            Colour::Blue => 34,
            Colour::Magenta => 35,
            Colour::Cyan => 36,
            Colour::Grey => 37,
            Colour::BrightBlack => 90,
            Colour::BrightRed => 91,
            Colour::BrightGreen => 92,
            Colour::BrightYellow => 93,
            Colour::BrightBlue => 94,
            Colour::BrightMagenta => 95,
            Colour::BrightCyan => 96,
            Colour::BrightGrey => 97,
        }
    }

    /// This colour as the foreground of a decorated style.
    pub fn decorated(self, decoration: Decoration) -> (style: Style)
        ensures
            style == (Style { decoration: Some(decoration), bg: None, fg: Some(self) }),
    {
        Style { decoration: Some(decoration), bg: None, fg: Some(self) }
    }

    /// This colour as the foreground on the background `colour`.
    pub fn with_bg(self, colour: Colour) -> (style: Style)
        ensures
            style == (Style { decoration: None, bg: Some(colour), fg: Some(self) }),
    {
        Style { decoration: None, bg: Some(colour), fg: Some(self) }
    }
}

impl Decoration {
    /// The SGR parameter that selects this decoration.
    pub open spec fn spec_code(self) -> usize {
        match self {
            Decoration::Bold => 1,
            Decoration::Dimmed => 2,
            Decoration::Italic => 3,
            Decoration::Underline => 4,
            Decoration::Blink => 5,
            Decoration::Reversed => 7,
            Decoration::Hidden => 8,
            Decoration::Strikethrough => 9,
        }
    }

    /// Returns the SGR parameter that selects this decoration.
    pub fn code(self) -> (code: usize)
        ensures
            code == self.spec_code(),
    {
        match self {
            Decoration::Bold => 1,
            Decoration::Dimmed => 2,
            Decoration::Italic => 3,
            Decoration::Underline => 4,
            Decoration::Blink => 5,
            Decoration::Reversed => 7,
            Decoration::Hidden => 8,
            Decoration::Strikethrough => 9,
        }
    }

    /// This decoration with the foreground `colour`.
    pub fn with_fg(self, colour: Colour) -> (style: Style)
        ensures
            style == (Style { decoration: Some(self), bg: None, fg: Some(colour) }),
    {
        Style { decoration: Some(self), bg: None, fg: Some(colour) }
    }

    /// This decoration on the background `colour`.
    pub fn with_bg(self, colour: Colour) -> (style: Style)
        ensures
            style == (Style { decoration: Some(self), bg: Some(colour), fg: None }),
    {
        Style { decoration: Some(self), bg: Some(colour), fg: None }
    }
}

impl Style {
    /// The style that resets every attribute.
    pub open spec fn plain() -> Style {
        Style { decoration: None, bg: None, fg: None }
    }

    /// One more SGR parameter: a semicolon and the number, or nothing.
    pub open spec fn parameter(code: Option<usize>) -> Seq<char> {
        match code {
            Some(n) => seq![';'] + decimal(n as nat),
            None => Seq::empty(),
        }
    }

    /// The parameters of an SGR sequence for the given numbers: where all
    /// three are present they are listed alone, otherwise they follow a
    /// leading reset.
    pub open spec fn parameter_list(
        decoration: Option<usize>,
        fg: Option<usize>,
        bg: Option<usize>,
    ) -> Seq<char> {
        if decoration is Some && fg is Some && bg is Some {
            decimal(decoration->0 as nat) + Self::parameter(fg) + Self::parameter(bg)
        } else {
            seq!['0'] + Self::parameter(decoration) + Self::parameter(fg) + Self::parameter(bg)
        }
    }

    /// The number that selects the decoration, if there is one.
    pub open spec fn decoration_code(self) -> Option<usize> {
        match self.decoration {
            Some(d) => Some(d.spec_code()),
            None => None,
        }
    }

    /// The number that selects the foreground colour, if there is one.
    pub open spec fn fg_code(self) -> Option<usize> {
        match self.fg {
            Some(c) => Some(c.spec_code()),
            None => None,
        }
    }

    /// The number that selects the background colour, if there is one.
    pub open spec fn bg_code(self) -> Option<usize> {
        match self.bg {
            Some(c) => Some((c.spec_code() + 10) as usize),
            None => None,
        }
    }

    /// The parameters of the SGR sequence that selects this style.
    pub open spec fn parameters(self) -> Seq<char> {
        Self::parameter_list(self.decoration_code(), self.fg_code(), self.bg_code())
    }

    /// The ANSI SGR sequence `ESC [ <n> ; <n> ... m` that selects this style.
    pub open spec fn sgr(self) -> Seq<char> {
        seq!['\x1B', '['] + self.parameters() + seq!['m']
    }

    /// Returns the number that selects the decoration, if there is one.
    pub fn decoration_number(self) -> (code: Option<usize>)
        ensures
            code == self.decoration_code(),
    {
        match self.decoration {
            Some(d) => Some(d.code()),
            None => None,
        }
    }

    /// Returns the number that selects the foreground colour, if there is
    /// one.
    pub fn fg_number(self) -> (code: Option<usize>)
        ensures
            code == self.fg_code(),
    {
        match self.fg {
            Some(c) => Some(c.code()),
            None => None,
        }
    }

    /// Returns the number that selects the background colour, if there is
    /// one.
    pub fn bg_number(self) -> (code: Option<usize>)
        ensures
            code == self.bg_code(),
    {
        match self.bg {
            Some(c) => Some(c.code() + 10),
            None => None,
        }
    }

    /// Returns this style with its decoration replaced.
    pub fn decorated(self, decoration: Decoration) -> (style: Style)
        ensures
            style == (Style { decoration: Some(decoration), ..self }),
    {
        Style { decoration: Some(decoration), bg: self.bg, fg: self.fg }
    }

    /// Returns this style with its foreground colour replaced.
    pub fn with_fg(self, colour: Colour) -> (style: Style)
        ensures
            style == (Style { fg: Some(colour), ..self }),
    {
        Style { decoration: self.decoration, bg: self.bg, fg: Some(colour) }
    }

    /// Returns this style with its background colour replaced.
    pub fn with_bg(self, colour: Colour) -> (style: Style)
        ensures
            style == (Style { bg: Some(colour), ..self }),
    {
        Style { decoration: self.decoration, bg: Some(colour), fg: self.fg }
    }
}

impl Default for Style {
    fn default() -> (style: Style)
        ensures
            style == Style::plain(),
    {
        Style { decoration: None, bg: None, fg: None }
    }
}

impl From<Colour> for Style {
    fn from(colour: Colour) -> (style: Style) {
        Style { decoration: None, bg: None, fg: Some(colour) }
    }
}

impl FromSpecImpl<Colour> for Style {
    open spec fn obeys_from_spec() -> bool {
        true
    }

    open spec fn from_spec(colour: Colour) -> Style {
        Style { decoration: None, bg: None, fg: Some(colour) }
    }
}

impl From<Decoration> for Style {
    fn from(decoration: Decoration) -> (style: Style) {
        Style { decoration: Some(decoration), bg: None, fg: None }
    }
}

impl FromSpecImpl<Decoration> for Style {
    open spec fn obeys_from_spec() -> bool {
        true
    }

    open spec fn from_spec(decoration: Decoration) -> Style {
        Style { decoration: Some(decoration), bg: None, fg: None }
    }
}

/// The state of a printer between two operations.
pub ghost struct Layout {
    /// The number of characters on the current line, escape sequences not
    /// counted. It stops at the largest `usize`.
    pub column: usize,
    /// The number of spaces that start each new line.
    pub indent: usize,
    /// The indentations that `indent_pop` restores, the latest last.
    pub stack: Seq<usize>,
    /// Whether the indentation of the current line is still to be written.
    pub pending: bool,
    /// Whether styles are emitted at all.
    pub colour: bool,
}

/// A printer's state together with the text written so far.
pub ghost struct Page {
    pub layout: Layout,
    pub text: Seq<char>,
}

impl Page {
    /// Appends `s` as it is and advances the column by its length.
    pub open spec fn raw(self, s: Seq<char>) -> Page {
        Page {
            layout: Layout { column: sat_add(self.layout.column, s.len()), ..self.layout },
            text: self.text + s,
        }
    }

    /// Writes the indentation of the current line if it is still pending.
    pub open spec fn indented(self) -> Page {
        if self.layout.pending {
            Page { layout: Layout { pending: false, ..self.layout }, text: self.text }.raw(
                run(self.layout.indent as nat, ' '),
            )
        } else {
            self
        }
    }

    /// Ends the current line: the column returns to zero and the next line's
    /// indentation becomes pending.
    pub open spec fn newline(self) -> Page {
        Page {
            layout: Layout { column: 0, pending: true, ..self.layout },
            text: self.text.push('\n'),
        }
    }

    /// How a character that is no line break is written: quotes and the
    /// backslash as they are, other whitespace as one space, and everything
    /// else in its debug-escaped form.
    pub open spec fn written(c: char) -> Seq<char> {
        if c == '\'' || c == '"' || c == '\\' {
            seq![c]
        } else if is_whitespace_char(c) {
            seq![' ']
        } else {
            escape_debug_chars(c)
        }
    }

    /// Writes one character `c` of a text, where `prev` is the character
    /// before it (`'\0'` at the start of the text).
    ///
    /// `\r\n`, `\r` and `\n` each end the line once. Any other character is
    /// written behind the pending indentation.
    pub open spec fn put_char(self, prev: char, c: char) -> Page {
        if c == '\n' && prev == '\r' {
            self
        } else if c == '\n' || c == '\r' {
            self.newline()
        } else {
            self.indented().raw(Self::written(c))
        }
    }

    /// The character that stands before position `k` of `text`.
    pub open spec fn before(text: Seq<char>, k: int) -> char {
        if k <= 0 {
            '\0'
        } else {
            text[k - 1]
        }
    }

    /// Writes the first `k` characters of `text`.
    pub open spec fn put_prefix(self, text: Seq<char>, k: nat) -> Page
        decreases k,
    {
        if k == 0 {
            self
        } else {
            self.put_prefix(text, (k - 1) as nat).put_char(
                Self::before(text, k - 1),
                text[k - 1],
            )
        }
    }

    /// Writes `text`, escaped.
    pub open spec fn put(self, text: Seq<char>) -> Page {
        self.put_prefix(text, text.len())
    }

    /// Writes `n` copies of `c` as they are, after the pending indentation.
    pub open spec fn repeat(self, n: nat, c: char) -> Page {
        self.indented().raw(run(n, c))
    }

    /// Writes `n` spaces, after the pending indentation.
    pub open spec fn skip(self, n: nat) -> Page {
        self.repeat(n, ' ')
    }

    /// Appends `code` where styles are emitted. The column does not move.
    pub open spec fn escape(self, code: Seq<char>) -> Page {
        if self.layout.colour {
            Page { text: self.text + code, ..self }
        } else {
            self
        }
    }

    /// Selects `style` for the text that follows.
    pub open spec fn style(self, style: Style) -> Page {
        self.escape(style.sgr())
    }

    /// Emits the SGR sequence with the single parameter `val`.
    pub open spec fn ansi(self, val: nat) -> Page {
        self.escape(seq!['\x1B', '['] + decimal(val) + seq!['m'])
    }

    /// Makes `n` the indentation and remembers the one before.
    pub open spec fn indent_push(self, n: usize) -> Page {
        Page { layout: self.layout.pushed(n), ..self }
    }

    /// Makes the current column the indentation.
    pub open spec fn indent_stash(self) -> Page {
        Page { layout: self.layout.stashed(), ..self }
    }

    /// Restores the indentation before the latest push, or none where
    /// nothing was pushed.
    pub open spec fn indent_pop(self) -> Page {
        Page { layout: self.layout.popped(), ..self }
    }
}

impl Layout {
    /// The layout with `n` as the indentation, and the one before
    /// remembered.
    pub open spec fn pushed(self, n: usize) -> Layout {
        Layout { indent: n, stack: self.stack.push(self.indent), ..self }
    }

    /// The layout with the current column as the indentation.
    pub open spec fn stashed(self) -> Layout {
        self.pushed(self.column)
    }

    /// The layout with the indentation before the latest push, or with none
    /// where nothing was pushed.
    pub open spec fn popped(self) -> Layout {
        if self.stack.len() > 0 {
            Layout { indent: self.stack.last(), stack: self.stack.drop_last(), ..self }
        } else {
            Layout { indent: 0, ..self }
        }
    }
}

/// Appends one more SGR parameter to `out`: a semicolon and the number.
fn push_parameter(out: &mut String, code: Option<usize>)
    ensures
        final(out)@ == old(out)@ + Style::parameter(code),
{
    match code {
        Some(n) => {
            out.push(';');
            push_decimal(out, n);
            assert(out@ =~= old(out)@ + (seq![';'] + decimal(n as nat)));
        },
        None => {
            assert(out@ =~= old(out)@ + Seq::<char>::empty());
        },
    }
}

/// Appends the parameters of an SGR sequence to `out`.
fn push_parameter_list(
    out: &mut String,
    decoration: Option<usize>,
    fg: Option<usize>,
    bg: Option<usize>,
)
    ensures
        final(out)@ == old(out)@ + Style::parameter_list(decoration, fg, bg),
{
    if decoration.is_some() && fg.is_some() && bg.is_some() {
        push_decimal(out, decoration.unwrap());
    } else {
        out.push('0');
        push_parameter(out, decoration);
        assert(out@ =~= old(out)@ + (seq!['0'] + Style::parameter(decoration)));
    }
    let ghost head = out@;
    push_parameter(out, fg);
    push_parameter(out, bg);
    assert(out@ =~= head + Style::parameter(fg) + Style::parameter(bg));
    assert(out@ =~= old(out)@ + Style::parameter_list(decoration, fg, bg));
}

/// Appends the SGR sequence that selects `style` to `out`.
fn push_sgr(out: &mut String, style: Style)
    ensures
        final(out)@ == old(out)@ + style.sgr(),
{
    let decoration = style.decoration_number();
    let fg = style.fg_number();
    let bg = style.bg_number();
    out.push('\x1B');
    out.push('[');
    push_parameter_list(out, decoration, fg, bg);
    out.push('m');
    assert(out@ =~= old(out)@ + (seq!['\x1B', '['] + Style::parameter_list(decoration, fg, bg)
        + seq!['m']));
}

/// Assists with pretty printing tasks.
pub struct PrettyPrinter {
    column: usize,
    indent: usize,
    indent_stack: Vec<usize>,
    do_indent: bool,
    use_colour: bool,
}

impl View for PrettyPrinter {
    type V = Layout;

    closed spec fn view(&self) -> Layout {
        Layout {
            column: self.column,
            indent: self.indent,
            stack: self.indent_stack@,
            pending: self.do_indent,
            colour: self.use_colour,
        }
    }
}

impl PrettyPrinter {
    /// The page that this printer makes of the text `text` written so far.
    pub open spec fn on(&self, text: Seq<char>) -> Page {
        Page { layout: self@, text }
    }

    /// Creates a printer at the start of a line, without indentation.
    pub fn new(use_colour: bool) -> (printer: PrettyPrinter)
        ensures
            printer@ == (Layout {
                column: 0,
                indent: 0,
                stack: Seq::empty(),
                pending: true,
                colour: use_colour,
            }),
    {
        PrettyPrinter {
            column: 0,
            indent: 0,
            indent_stack: Vec::new(),
            do_indent: true,
            use_colour,
        }
    }

    /// Returns the number of characters written on the current line.
    pub fn column(&self) -> (column: usize)
        ensures
            column == self@.column,
    {
        self.column
    }

    /// Returns the number of spaces that start each new line.
    pub fn indent(&self) -> (indent: usize)
        ensures
            indent == self@.indent,
    {
        self.indent
    }

    /// Returns whether styles are emitted.
    pub fn use_colour(&self) -> (colour: bool)
        ensures
            colour == self@.colour,
    {
        self.use_colour
    }

    fn write_raw(&mut self, out: &mut String, text: &str)
        ensures
            final(self).on(final(out)@) == old(self).on(old(out)@).raw(text@),
    {
        out.append(text);
        let n: usize = text.unicode_len();
        self.column = saturating_add(self.column, n);
    }

    fn write_raw_char(&mut self, out: &mut String, chr: char)
        ensures
            final(self).on(final(out)@) == old(self).on(old(out)@).raw(seq![chr]),
    {
        out.push(chr);
        self.column = saturating_add(self.column, 1);
        assert(out@ =~= old(out)@ + seq![chr]);
    }

    fn write_char(&mut self, out: &mut String, prev: char, chr: char)
        ensures
            final(self).on(final(out)@) == old(self).on(old(out)@).put_char(prev, chr),
    {
        if chr == '\n' && prev == '\r' {
            // the line break was written when the `\r` came
        } else if chr == '\n' || chr == '\r' {
            self.writeln(out);
        } else if chr == '\'' || chr == '"' || chr == '\\' {
            self.ensure_indented(out);
            self.write_raw_char(out, chr);
        } else if chr.is_whitespace() {
            self.ensure_indented(out);
            self.write_raw_char(out, ' ');
        } else {
            self.ensure_indented(out);
            let escaped = escape_debug(chr);
            self.write_raw(out, escaped.as_str());
        }
    }

    /// Writes a string to the output, sanitising any escape codes.
    pub fn write(&mut self, out: &mut String, text: &str)
        ensures
            final(self).on(final(out)@) == old(self).on(old(out)@).put(text@),
    {
        let mut prev: char = '\0';
        for chr in it: text.chars()
            invariant
                it.seq() == text@,
                prev == Page::before(text@, it.index() as int),
                self.on(out@) == old(self).on(old(out)@).put_prefix(text@, it.index() as nat),
        {
            self.write_char(out, prev, chr);
            prev = chr;
        }
    }

    /// Sets the foreground colour of the text that follows.
    pub fn write_style_fg(&mut self, out: &mut String, fg: Colour)
        ensures
            final(self).on(final(out)@) == old(self).on(old(out)@).ansi(fg.spec_code() as nat),
    {
        self.write_ansi(out, fg.code())
    }

    /// Sets the background colour of the text that follows.
    pub fn write_style_bg(&mut self, out: &mut String, bg: Colour)
        ensures
            final(self).on(final(out)@) == old(self).on(old(out)@).ansi((bg.spec_code() + 10) as nat),
    {
        self.write_ansi(out, bg.code() + 10)
    }

    /// Sets the style of the text that follows: one SGR sequence for the
    /// decoration, the foreground and the background together. Does nothing
    /// unless this printer uses colour. A style stays in force until the next
    /// one is written.
    pub fn write_style(&mut self, out: &mut String, style: Style)
        ensures
            final(self).on(final(out)@) == old(self).on(old(out)@).style(style),
    {
        if !self.use_colour {
            return ;
        }
        push_sgr(out, style);
    }

    /// Clears the current style.
    pub fn clear_style(&mut self, out: &mut String)
        ensures
            final(self).on(final(out)@) == old(self).on(old(out)@).ansi(0),
    {
        self.write_ansi(out, 0)
    }

    fn write_ansi(&mut self, out: &mut String, val: usize)
        ensures
            final(self).on(final(out)@) == old(self).on(old(out)@).ansi(val as nat),
    {
        if !self.use_colour {
            return ;
        }
        out.push('\x1B');
        out.push('[');
        push_decimal(out, val);
        out.push('m');
        assert(out@ =~= old(out)@ + (seq!['\x1B', '['] + decimal(val as nat) + seq!['m']));
    }

    /// Ends the current line. The next line is indented once something is
    /// written to it.
    pub fn writeln(&mut self, out: &mut String)
        ensures
            final(self).on(final(out)@) == old(self).on(old(out)@).newline(),
    {
        out.push('\n');
        self.column = 0;
        self.do_indent = true;
    }

    /// Writes `n` spaces.
    pub fn skip(&mut self, out: &mut String, n: usize)
        ensures
            final(self).on(final(out)@) == old(self).on(old(out)@).skip(n as nat),
    {
        self.repeat(out, n, ' ')
    }

    /// Writes the character `chr` `n` times, as it is.
    pub fn repeat(&mut self, out: &mut String, n: usize, chr: char)
        requires
            chr != '\n',
            chr != '\r',
        ensures
            final(self).on(final(out)@) == old(self).on(old(out)@).repeat(n as nat, chr),
    {
        self.ensure_indented(out);
        push_run(out, n, chr);
        self.column = saturating_add(self.column, n);
    }

    fn ensure_indented(&mut self, out: &mut String)
        ensures
            final(self).on(final(out)@) == old(self).on(old(out)@).indented(),
    {
        if self.do_indent {
            push_run(out, self.indent, ' ');
            self.column = saturating_add(self.column, self.indent);
            self.do_indent = false;
        }
    }

    /// Makes the current column the indentation of the lines that follow,
    /// and returns it. The indentation before is restored by `indent_pop`.
    pub fn indent_stash(&mut self) -> (indent: usize)
        ensures
            final(self)@ == old(self)@.stashed(),
            indent == old(self)@.column,
    {
        self.indent_push(self.column);
        self.indent
    }

    /// Makes `n` the indentation of the lines that follow. The indentation
    /// before is restored by `indent_pop`.
    pub fn indent_push(&mut self, n: usize)
        ensures
            final(self)@ == old(self)@.pushed(n),
    {
        self.indent_stack.push(self.indent);
        self.indent = n;
    }

    /// Restores the indentation before the latest `indent_push` or
    /// `indent_stash`. Without one, the indentation becomes zero.
    pub fn indent_pop(&mut self)
        ensures
            final(self)@ == old(self)@.popped(),
    {
        match self.indent_stack.pop() {
            Some(indent) => {
                self.indent = indent;
            },
            None => {
                self.indent = 0;
            },
        }
    }
}

impl Default for PrettyPrinter {
    fn default() -> (printer: PrettyPrinter)
        ensures
            printer@ == (Layout {
                column: 0,
                indent: 0,
                stack: Seq::empty(),
                pending: true,
                colour: false,
            }),
    {
        PrettyPrinter::new(false)
    }
}

/// Whether the terminal is to be written to in colour: it is a terminal,
/// and the environment asks for colour. `CLICOLOR_FORCE` decides where it is
/// set, for colour unless it is `0`; otherwise `NO_COLOR` decides, against
/// colour where it is set.
pub open spec fn wants_colour(
    is_terminal: bool,
    clicolor_force: Option<Seq<char>>,
    no_color: bool,
) -> bool {
    is_terminal && match clicolor_force {
        Some(value) => value != "0"@,
        None => !no_color,
    }
}

/// Returns whether the terminal is to be written to in colour, given
/// whether the output is a terminal, the value of `CLICOLOR_FORCE` if it is
/// set, and whether `NO_COLOR` is set.
pub fn supports_colour(is_terminal: bool, clicolor_force: Option<&str>, no_color: bool) -> (colour:
    bool)
    ensures
        colour == wants_colour(
            is_terminal,
            match clicolor_force {
                Some(value) => Some(value@),
                None => None,
            },
            no_color,
        ),
{
    if !is_terminal {
        return false;
    }
    match clicolor_force {
        Some(value) => !str_eq(value, "0"),
        None => !no_color,
    }
}

/// Creates a printer for a terminal: it uses colour where the caller wants
/// it and the terminal is to be written to in colour.
pub fn from_env(
    use_colour: bool,
    is_terminal: bool,
    clicolor_force: Option<&str>,
    no_color: bool,
) -> (printer: PrettyPrinter)
    ensures
        printer@ == (Layout {
            column: 0,
            indent: 0,
            stack: Seq::empty(),
            pending: true,
            colour: use_colour && wants_colour(
                is_terminal,
                match clicolor_force {
                    Some(value) => Some(value@),
                    None => None,
                },
                no_color,
            ),
        }),
{
    let supported = supports_colour(is_terminal, clicolor_force, no_color);
    PrettyPrinter::new(supported && use_colour)
}

/// Whether a character is written as it is: it is no line break, and
/// escaping leaves it alone.
pub open spec fn is_plain(c: char) -> bool {
    c != '\n' && c != '\r' && Page::written(c) == seq![c]
}

/// Whether every character of a text is written as it is.
pub open spec fn is_plain_text(text: Seq<char>) -> bool {
    forall|i: int| 0 <= i < text.len() ==> is_plain(#[trigger] text[i])
}

impl Page {
    /// Appends `text` as it is behind the pending indentation, or does
    /// nothing for an empty text.
    pub open spec fn append(self, text: Seq<char>) -> Page {
        if text.len() == 0 {
            self
        } else {
            self.indented().raw(text)
        }
    }
}

/// Appending one text and then another appends both.
pub proof fn lemma_raw_twice(page: Page, one: Seq<char>, other: Seq<char>)
    ensures
        page.raw(one).raw(other) == page.raw(one + other),
{
    assert(page.text + one + other =~= page.text + (one + other));
}

/// Appending a text behind the pending indentation and then another
/// appends both behind the indentation.
pub proof fn lemma_append_twice(page: Page, one: Seq<char>, other: Seq<char>)
    ensures
        page.append(one).append(other) == page.append(one + other),
{
    if one.len() == 0 {
        assert(one + other =~= other);
    } else if other.len() == 0 {
        assert(one + other =~= one);
    } else {
        lemma_raw_twice(page.indented(), one, other);
    }
}

/// Text whose characters are all written as they are is appended behind the
/// pending indentation, unchanged.
pub proof fn lemma_put_plain(page: Page, text: Seq<char>)
    requires
        is_plain_text(text),
    ensures
        page.put(text) == page.append(text),
{
    lemma_put_plain_prefix(page, text, text.len());
    assert(text.take(text.len() as int) =~= text);
}

/// The first `k` characters of a text whose characters are all written as
/// they are, are appended behind the pending indentation, unchanged.
pub proof fn lemma_put_plain_prefix(page: Page, text: Seq<char>, k: nat)
    requires
        is_plain_text(text),
        k <= text.len(),
    ensures
        page.put_prefix(text, k) == page.append(text.take(k as int)),
    decreases k,
{
    if k > 0 {
        let before = text.take(k - 1);
        lemma_put_plain_prefix(page, text, (k - 1) as nat);
        assert(is_plain(text[k - 1]));
        assert(page.append(before).put_char(Page::before(text, k - 1), text[k - 1])
            == page.append(before).append(seq![text[k - 1]]));
        lemma_append_twice(page, before, seq![text[k - 1]]);
        assert(before + seq![text[k - 1]] =~= text.take(k as int));
    }
}

/// Writing a text in two pieces is writing it in one, unless a `\r\n` is
/// torn apart.
pub proof fn lemma_put_twice(page: Page, one: Seq<char>, other: Seq<char>)
    requires
        !(one.len() > 0 && other.len() > 0 && one.last() == '\r' && other[0] == '\n'),
    ensures
        page.put(one).put(other) == page.put(one + other),
{
    lemma_put_twice_prefix(page, one, other, other.len());
    assert((one + other).len() == one.len() + other.len());
}

/// The first `k` characters of the second of two pieces of a text are
/// written as if the text were in one piece, unless a `\r\n` is torn apart.
pub proof fn lemma_put_twice_prefix(page: Page, one: Seq<char>, other: Seq<char>, k: nat)
    requires
        !(one.len() > 0 && other.len() > 0 && one.last() == '\r' && other[0] == '\n'),
        k <= other.len(),
    ensures
        page.put(one).put_prefix(other, k) == page.put_prefix(one + other, one.len() + k),
    decreases k,
{
    let whole = one + other;
    if k == 0 {
        lemma_put_prefix_of(page, one, whole, one.len());
    } else {
        lemma_put_twice_prefix(page, one, other, (k - 1) as nat);
        let at = one.len() + k - 1;
        assert(whole[at] == other[k - 1]);
        let before_whole = Page::before(whole, at);
        let before_other = Page::before(other, k - 1);
        if k == 1 {
            // the character before is the last of the first piece, or none
            if one.len() > 0 {
                assert(before_whole == one.last());
            }
            assert(page.put(one).put_char(before_other, other[0]) == page.put(one).put_char(
                before_whole,
                other[0],
            ));
        } else {
            assert(before_whole == other[k - 2]);
        }
    }
}

/// The first `k` characters of a text are written the same way whatever
/// follows them.
pub proof fn lemma_put_prefix_of(page: Page, text: Seq<char>, longer: Seq<char>, k: nat)
    requires
        k <= text.len() <= longer.len(),
        forall|i: int| 0 <= i < text.len() ==> text[i] == longer[i],
    ensures
        page.put_prefix(text, k) == page.put_prefix(longer, k),
    decreases k,
{
    if k > 0 {
        lemma_put_prefix_of(page, text, longer, (k - 1) as nat);
        assert(Page::before(text, k - 1) == Page::before(longer, k - 1));
    }
}

/// Whether a page is at rest: where the indentation of the line is still
/// pending, nothing stands on the line and there is nothing to indent by.
pub open spec fn is_settled(page: Page) -> bool {
    page.layout.pending ==> page.layout.indent == 0 && page.layout.column == 0
}

/// On a page at rest, text whose characters are all written as they are is
/// added to the text of the page and to nothing else; the column moves by
/// its length.
pub proof fn lemma_put_plain_settled(page: Page, text: Seq<char>)
    requires
        is_plain_text(text),
        is_settled(page),
    ensures
        page.put(text).text == page.text + text,
        page.put(text).layout == (Layout {
            column: sat_add(page.layout.column, text.len()),
            pending: page.layout.pending && text.len() == 0,
            ..page.layout
        }),
        is_settled(page.put(text)),
{
    lemma_put_plain(page, text);
    if text.len() == 0 {
        assert(page.text + text =~= page.text);
    } else if page.layout.pending {
        assert(run(0, ' ') =~= Seq::<char>::empty());
        assert(page.text + run(0, ' ') + text =~= page.text + text);
    }
}

/// Parts of a text whose characters are all written as they are, are such
/// texts themselves.
pub proof fn lemma_plain_parts(one: Seq<char>, other: Seq<char>)
    ensures
        is_plain_text(one + other) <==> is_plain_text(one) && is_plain_text(other),
{
    let whole = one + other;
    if is_plain_text(whole) {
        assert forall|i: int| 0 <= i < one.len() implies is_plain(#[trigger] one[i]) by {
            assert(whole[i] == one[i]);
        }
        assert forall|i: int| 0 <= i < other.len() implies is_plain(#[trigger] other[i]) by {
            assert(whole[one.len() + i] == other[i]);
        }
    }
    if is_plain_text(one) && is_plain_text(other) {
        assert forall|i: int| 0 <= i < whole.len() implies is_plain(#[trigger] whole[i]) by {
            if i < one.len() {
                assert(whole[i] == one[i]);
            } else {
                assert(whole[i] == other[i - one.len()]);
            }
        }
    }
}

/// On a page at rest, skipped columns are spaces added to the text of the
/// page and to nothing else; the column moves by their number.
pub proof fn lemma_repeat_settled(page: Page, n: nat, c: char)
    requires
        is_settled(page),
    ensures
        page.repeat(n, c).text == page.text + run(n, c),
        page.repeat(n, c).layout == (Layout {
            column: sat_add(page.layout.column, n),
            pending: false,
            ..page.layout
        }),
        is_settled(page.repeat(n, c)),
{
    if page.layout.pending {
        assert(run(0, ' ') =~= Seq::<char>::empty());
        assert(page.text + run(0, ' ') + run(n, c) =~= page.text + run(n, c));
    }
    assert(run(n, c).len() == n);
}

} // verus!
