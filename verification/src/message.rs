//! Messages: a fixed template with holes, and the fragments that fill them.
//!
//! A fragment is either a piece of text or a location, which stands for the
//! source text it points at. That text is looked up only when the message is
//! written out, so a message can quote source code long after the location
//! was taken.

use vstd::prelude::*;
use vstd::string::*;
use vstd::utf8::*;
use vstd::std_specs::convert::FromSpecImpl;
use crate::source::{GetFileResult, Registry, SourceMap};
use crate::span::Location;
use crate::text::{lemma_encode_utf8_concat, str_chars, str_size};

verus! {

/// Represents a string or piece of source code.
#[derive(Debug)]
pub enum TextFragment {
    Text(String),
    Code(Location),
}

/// Represents a complete message that may contain source information.
#[derive(Debug)]
pub struct Message {
    /// The text of the message, in which each `{}` stands for the next
    /// argument.
    pub template: &'static str,
    /// The arguments that are inserted into the template, in order.
    pub args: Vec<TextFragment>,
}

impl TextFragment {
    /// The text that the fragment stands for: its own, or the source text
    /// that its location points at.
    pub open spec fn spec_text(self, files: Registry) -> Seq<char> {
        match self {
            TextFragment::Text(text) => text@,
            TextFragment::Code(location) => location.spec_quote(files),
        }
    }

    /// Creates a fragment that holds a copy of `text`.
    pub fn text(text: &str) -> (fragment: TextFragment)
        ensures
            fragment is Text,
            fragment->Text_0@ == text@,
    {
        TextFragment::Text(text.to_owned())
    }

    /// Returns the contents of this text fragment as a string.
    pub fn show<'a>(&'a self, files: &'a SourceMap) -> (text: &'a str)
        ensures
            text@ == self.spec_text(files@),
    {
        match self {
            TextFragment::Text(text) => text.as_str(),
            TextFragment::Code(location) => {
                match files.get_existing_file(location.file_id) {
                    GetFileResult::Found(_, file) => {
                        match location.span.try_slice(file.src()) {
                            Some(piece) => piece,
                            None => empty_str(),
                        }
                    },
                    _ => empty_str(),
                }
            },
        }
    }

    /// Copies the contents of this text fragment to the end of `dest`, and
    /// returns the number of bytes written.
    pub fn write_to_string(&self, source_map: &SourceMap, dest: &mut String) -> (written: usize)
        ensures
            final(dest)@ == old(dest)@ + self.spec_text(source_map@),
            written == encode_utf8(self.spec_text(source_map@)).len(),
    {
        match self {
            TextFragment::Text(text) => {
                dest.append(text.as_str());
                str_size(text.as_str())
            },
            TextFragment::Code(location) => location.write_to_string(source_map, dest),
        }
    }
}

/// Returns the empty string.
fn empty_str() -> (text: &'static str)
    ensures
        text@ == Seq::<char>::empty(),
{
    let text = "";
    proof {
        reveal_strlit("");
    }
    assert(text@ =~= Seq::<char>::empty());
    text
}

impl From<Location> for TextFragment {
    fn from(location: Location) -> (fragment: TextFragment) {
        TextFragment::Code(location)
    }
}

impl FromSpecImpl<Location> for TextFragment {
    open spec fn obeys_from_spec() -> bool {
        true
    }

    open spec fn from_spec(location: Location) -> TextFragment {
        TextFragment::Code(location)
    }
}

impl Message {
    /// Whether a hole starts at position `i` of the template.
    pub open spec fn hole_at(self, i: int) -> bool {
        &&& 0 <= i
        &&& i + 1 < self.template@.len()
        &&& self.template@[i] == '{'
        &&& self.template@[i + 1] == '}'
    }

    /// What fills the hole number `k`: the text of the argument with that
    /// number, or the hole itself where the arguments have run out.
    pub open spec fn filling(self, files: Registry, k: int) -> Seq<char> {
        if 0 <= k < self.args@.len() {
            self.args@[k].spec_text(files)
        } else {
            seq!['{', '}']
        }
    }

    /// The text of the template from position `i` on, where the next hole
    /// has the number `k`.
    pub open spec fn expand_from(self, files: Registry, i: int, k: int) -> Seq<char>
        decreases self.template@.len() - i,
    {
        if i < 0 || i >= self.template@.len() {
            Seq::empty()
        } else if self.hole_at(i) {
            self.filling(files, k) + self.expand_from(files, i + 2, k + 1)
        } else {
            seq![self.template@[i]] + self.expand_from(files, i + 1, k)
        }
    }

    /// The text of the message: the template with its holes filled from left
    /// to right by the arguments.
    pub open spec fn spec_text(self, files: Registry) -> Seq<char> {
        self.expand_from(files, 0, 0)
    }

    /// Creates a new message from a given template, without arguments.
    pub fn new(template: &'static str) -> (message: Message)
        ensures
            message.template == template,
            message.args@ == Seq::<TextFragment>::empty(),
    {
        Message { template, args: Vec::new() }
    }

    /// Consumes this message, returning a new message with the given
    /// argument appended to its arguments.
    pub fn with_arg(self, arg: TextFragment) -> (message: Message)
        ensures
            message.template == self.template,
            message.args@ == self.args@.push(arg),
    {
        let mut message = self;
        message.args.push(arg);
        message
    }

    /// Returns the contents of this message as a string.
    pub fn show(&self, files: &SourceMap) -> (text: String)
        ensures
            text@ == self.spec_text(files@),
    {
        let mut text = String::new();
        let _ = self.write_to_string(files, &mut text);
        assert(text@ =~= self.spec_text(files@));
        text
    }

    /// Copies the contents of this message to the end of `dest`, and returns
    /// the number of bytes written.
    pub fn write_to_string(&self, source_map: &SourceMap, dest: &mut String) -> (written: usize)
        ensures
            final(dest)@ == old(dest)@ + self.spec_text(source_map@),
            written == encode_utf8(self.spec_text(source_map@)).len(),
    {
        let template = str_chars(self.template);
        let before: usize = str_size(dest.as_str());
        let mut i: usize = 0;
        let mut k: usize = 0;
        assert(dest@ + self.expand_from(source_map@, 0, 0) =~= old(dest)@ + self.spec_text(
            source_map@,
        ));
        while i < template.len()
            invariant
                template@ == self.template@,
                i <= template@.len(),
                2 * k <= i,
                dest@ + self.expand_from(source_map@, i as int, k as int) == old(dest)@
                    + self.spec_text(source_map@),
            decreases template@.len() - i,
        {
            let ghost head = dest@;
            let ghost rest = self.expand_from(source_map@, i as int, k as int);
            if template[i] == '{' && i + 1 < template.len() && template[i + 1] == '}' {
                assert(self.hole_at(i as int));
                if k < self.args.len() {
                    let _ = self.args[k].write_to_string(source_map, dest);
                } else {
                    dest.push('{');
                    dest.push('}');
                    assert(dest@ =~= head + seq!['{', '}']);
                }
                assert(dest@ == head + self.filling(source_map@, k as int));
                i = i + 2;
                k = k + 1;
                assert(dest@ + self.expand_from(source_map@, i as int, k as int) =~= head
                    + rest);
            } else {
                assert(!self.hole_at(i as int));
                dest.push(template[i]);
                i = i + 1;
                assert(dest@ + self.expand_from(source_map@, i as int, k as int) =~= head
                    + rest);
            }
        }
        assert(dest@ =~= old(dest)@ + self.spec_text(source_map@));
        let after: usize = str_size(dest.as_str());
        proof {
            lemma_encode_utf8_concat(old(dest)@, self.spec_text(source_map@));
        }
        after - before
    }
}

/// A template without holes is its own text, whatever the arguments.
pub proof fn lemma_no_holes(message: Message, files: Registry, from: int)
    requires
        0 <= from <= message.template@.len(),
        forall|i: int| from <= i < message.template@.len() ==> !message.hole_at(i),
    ensures
        forall|k: int| #[trigger]
            message.expand_from(files, from, k) == message.template@.subrange(
                from,
                message.template@.len() as int,
            ),
    decreases message.template@.len() - from,
{
    let template = message.template@;
    assert forall|k: int| #[trigger]
        message.expand_from(files, from, k) == template.subrange(from, template.len() as int) by {
        if from < template.len() {
            lemma_no_holes(message, files, from + 1);
            assert(!message.hole_at(from));
            assert(message.expand_from(files, from + 1, k) == template.subrange(
                from + 1,
                template.len() as int,
            ));
            assert(seq![template[from]] + template.subrange(from + 1, template.len() as int)
                =~= template.subrange(from, template.len() as int));
        } else {
            assert(template.subrange(from, template.len() as int) =~= Seq::<char>::empty());
        }
    }
}

/// The text of a message does not depend on the files where none of its
/// arguments quotes source code.
pub proof fn lemma_text_without_code(message: Message, one: Registry, other: Registry, from: int, k: int)
    requires
        forall|i: int| 0 <= i < message.args@.len() ==> (#[trigger] message.args@[i]) is Text,
    ensures
        message.expand_from(one, from, k) == message.expand_from(other, from, k),
    decreases message.template@.len() - from,
{
    if 0 <= from < message.template@.len() {
        if message.hole_at(from) {
            lemma_text_without_code(message, one, other, from + 2, k + 1);
            if 0 <= k < message.args@.len() {
                assert(message.args@[k] is Text);
            }
        } else {
            lemma_text_without_code(message, one, other, from + 1, k);
        }
    }
}

} // verus!
