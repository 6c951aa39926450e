//! The registry of source files: which paths are known under which handle,
//! what was last seen of their content, and the content itself while it is
//! held in memory.
//!
//! Reading files is left to the caller. The registry is handed what was
//! read, decides whether that is news, and keeps the content and its line
//! index for later lookups.

use vstd::prelude::*;
use vstd::string::*;
use vstd::utf8::*;
use crate::lines::{
    find_line, find_line_and_col, find_line_and_col_span, is_line_index, is_line_of,
    lemma_line_fits, line_at, line_and_col_at, line_and_col_span_at, line_spans, str_get_lines,
};
use crate::span::{FileId, Location, Span};
use crate::text::{decimal, push_decimal, push_decimal_u64, str_eq};

verus! {

/// The 64-bit hash that the standard library's default hasher gives to a
/// text.
pub uninterp spec fn content_hash(text: Seq<char>) -> u64;

/// `BuildHasher::hash_one` on the standard library's `DefaultHasher`: the
/// hash of a text. Every such hasher starts from the same state, so the hash
/// depends on the text alone; it is given the name [`content_hash`] here.
#[verifier::external_body]
pub(crate) fn str_get_hash(s: &str) -> (hash: u64)
    ensures
        hash == content_hash(s@),
{
    std::hash::BuildHasher::hash_one(
        &std::hash::BuildHasherDefault::<std::hash::DefaultHasher>::default(),
        s,
    )
}

/// A source file whose content is in memory, together with its line index.
pub struct SourceFile {
    id: FileId,
    src: String,
    lines: Vec<Span>,
}

/// What is known of a [`SourceFile`]: its handle and its text. The line
/// index follows from the text.
pub ghost struct FileView {
    pub id: FileId,
    pub src: Seq<char>,
}

impl View for SourceFile {
    type V = FileView;

    closed spec fn view(&self) -> FileView {
        FileView { id: self.id, src: self.src@ }
    }
}

impl SourceFile {
    #[verifier::type_invariant]
    closed spec fn inv(&self) -> bool {
        &&& self.lines@ == line_spans(encode_utf8(self.src@))
        &&& encode_utf8(self.src@).len() <= usize::MAX
        &&& is_line_index(self.lines@)
    }

    /// The line index of the file.
    pub open spec fn spec_lines(&self) -> Seq<Span> {
        line_spans(encode_utf8(self@.src))
    }

    /// Takes ownership of a text and computes its line index.
    pub fn new(id: FileId, src: String) -> (file: SourceFile)
        ensures
            file@ == (FileView { id, src: src@ }),
    {
        let lines = str_get_lines(src.as_str());
        SourceFile { id, src, lines }
    }

    /// Returns the handle of this file.
    pub fn id(&self) -> (id: FileId)
        ensures
            id == self@.id,
    {
        self.id
    }

    /// Returns the complete source code.
    pub fn src(&self) -> (src: &str)
        ensures
            src@ == self@.src,
    {
        self.src.as_str()
    }

    /// Returns the spans of the lines of the source code, in order.
    pub fn lines(&self) -> (lines: &Vec<Span>)
        ensures
            lines@ == self.spec_lines(),
            is_line_index(lines@),
    {
        proof {
            use_type_invariant(self);
        }
        &self.lines
    }

    /// Creates a new location from a given span, in the current source file.
    pub fn location(&self, span: &Span) -> (location: Location)
        ensures
            location == (Location { span: *span, file_id: self@.id }),
    {
        Location { span: *span, file_id: self.id }
    }

    /// Searches the line index for the line that holds the offset `pos`,
    /// and returns its number, counted from one.
    pub fn find_line(&self, pos: usize) -> (line: usize)
        ensures
            is_line_of(self.spec_lines(), pos, line as int),
            line == line_at(self.spec_lines(), pos),
    {
        proof {
            use_type_invariant(self);
        }
        find_line(&self.lines, pos)
    }

    /// Converts a line number, counted from one, into the span of that
    /// line. There is none for the number zero or one behind the last line.
    /// The span of a line can always be sliced out of the source code.
    pub fn find_line_span(&self, line: usize) -> (span: Option<&Span>)
        ensures
            span is Some <==> 1 <= line <= self.spec_lines().len(),
            span is Some ==> *span->0 == self.spec_lines()[line - 1],
            span is Some ==> span->0.fits(self@.src),
    {
        proof {
            use_type_invariant(self);
        }
        if line >= 1 && line <= self.lines.len() {
            proof {
                lemma_line_fits(self@.src, line - 1);
            }
            Some(&self.lines[line - 1])
        } else {
            None
        }
    }

    /// Converts a byte offset to its line and column, both counted from one.
    pub fn find_line_and_col(&self, pos: usize) -> (at: (usize, usize))
        requires
            pos < usize::MAX,
        ensures
            at == line_and_col_at(self.spec_lines(), pos),
            is_line_of(self.spec_lines(), pos, at.0 as int),
    {
        proof {
            use_type_invariant(self);
        }
        find_line_and_col(&self.lines, pos)
    }

    /// Converts both ends of a span to line and column. An end on the first
    /// column of a later line than the start is moved back to the end of the
    /// line before it.
    pub fn find_line_and_col_span(&self, span: &Span) -> (ends: ((usize, usize), (usize, usize)))
        requires
            span.start < usize::MAX,
            span.end < usize::MAX,
        ensures
            ends == line_and_col_span_at(self.spec_lines(), *span),
            1 <= ends.0.0 <= self.spec_lines().len(),
            1 <= ends.1.0 <= self.spec_lines().len(),
    {
        proof {
            use_type_invariant(self);
        }
        find_line_and_col_span(&self.lines, span)
    }
}

/// What the manifest records of one file: where it lies, and the hash and
/// the length in bytes of the content last seen there.
#[derive(Debug)]
pub struct FileMeta {
    pub path: String,
    pub hash: u64,
    pub size: usize,
}

/// What a [`FileMeta`] stands for.
pub ghost struct MetaView {
    pub path: Seq<char>,
    pub hash: u64,
    pub size: usize,
}

impl View for FileMeta {
    type V = MetaView;

    open spec fn view(&self) -> MetaView {
        MetaView { path: self.path@, hash: self.hash, size: self.size }
    }
}

/// Whether no path occurs twice among `metas`.
pub open spec fn distinct_paths(metas: Seq<MetaView>) -> bool {
    forall|i: int, j: int|
        0 <= i < metas.len() && 0 <= j < metas.len() && i != j ==> (#[trigger] metas[i]).path
            != (#[trigger] metas[j]).path
}

/// The first handle from `from` on under which `path` is recorded in
/// `metas`, if there is one.
pub open spec fn position_from(metas: Seq<MetaView>, path: Seq<char>, from: int) -> Option<
    FileId,
>
    decreases metas.len() - from,
{
    if from < 0 || from >= metas.len() {
        None
    } else if metas[from].path == path {
        Some(from as FileId)
    } else {
        position_from(metas, path, from + 1)
    }
}

/// The handle under which `path` is recorded in `metas`, if it is: the
/// first one, should there be several.
pub open spec fn position_of(metas: Seq<MetaView>, path: Seq<char>) -> Option<FileId> {
    position_from(metas, path, 0)
}

/// A path that is found is recorded under the handle found and under none
/// from `from` up to it; a path that is not found is recorded under no
/// handle from `from` on.
pub proof fn lemma_position_from(metas: Seq<MetaView>, path: Seq<char>, from: int)
    requires
        0 <= from,
        metas.len() <= u64::MAX,
    ensures
        match position_from(metas, path, from) {
            Some(id) => {
                &&& from <= id < metas.len()
                &&& metas[id as int].path == path
                &&& forall|k: int| from <= k < id ==> (#[trigger] metas[k]).path != path
            },
            None => forall|k: int| from <= k < metas.len() ==> (#[trigger] metas[k]).path != path,
        },
    decreases metas.len() - from,
{
    if from < metas.len() && metas[from].path != path {
        lemma_position_from(metas, path, from + 1);
    }
}

/// The record of every file ever loaded: entry `i` describes the file with
/// the handle `i`, and no two entries share a path. This is the part of a
/// source map that outlives a session.
pub struct Manifest {
    entries: Vec<FileMeta>,
}

impl View for Manifest {
    type V = Seq<MetaView>;

    closed spec fn view(&self) -> Seq<MetaView> {
        self.entries@.map_values(|meta: FileMeta| meta@)
    }
}

impl Manifest {
    /// No two handles stand for the same path.
    pub open spec fn wf(&self) -> bool {
        distinct_paths(self@)
    }

    /// Creates a manifest without entries.
    pub fn new() -> (manifest: Manifest)
        ensures
            manifest@ == Seq::<MetaView>::empty(),
            manifest.wf(),
    {
        let manifest = Manifest { entries: Vec::new() };
        assert(manifest@ =~= Seq::<MetaView>::empty());
        manifest
    }

    /// Returns the number of entries, which is also the handle that the next
    /// new file gets.
    pub fn next_id(&self) -> (next: FileId)
        ensures
            next == self@.len(),
            next <= usize::MAX,
    {
        self.entries.len() as u64
    }

    /// Returns metadata about the file with the given handle.
    pub fn get(&self, file_id: FileId) -> (meta: Option<&FileMeta>)
        ensures
            meta is Some <==> file_id < self@.len(),
            meta is Some ==> meta->0@ == self@[file_id as int],
            meta is Some ==> file_id < usize::MAX,
    {
        if file_id < self.entries.len() as u64 {
            Some(&self.entries[file_id as usize])
        } else {
            None
        }
    }

    /// Returns the handle under which `path` is recorded, if it is.
    pub fn find(&self, path: &str) -> (file_id: Option<FileId>)
        ensures
            file_id == position_of(self@, path@),
            file_id is Some ==> file_id->0 < self@.len(),
    {
        let mut i: usize = 0;
        while i < self.entries.len()
            invariant
                i <= self.entries.len(),
                self@.len() == self.entries.len(),
                position_of(self@, path@) == position_from(self@, path@, i as int),
            decreases self.entries.len() - i,
        {
            if str_eq(self.entries[i].path.as_str(), path) {
                return Some(i as u64);
            }
            i = i + 1;
        }
        None
    }

    /// Records one more file, and returns its handle.
    pub(crate) fn insert(&mut self, path: String, hash: u64, size: usize) -> (file_id: FileId)
        ensures
            file_id == old(self)@.len(),
            final(self)@ == old(self)@.push(MetaView { path: path@, hash, size }),
    {
        let file_id = self.entries.len() as u64;
        self.entries.push(FileMeta { path, hash, size });
        assert(self@ =~= old(self)@.push(MetaView { path: path@, hash, size }));
        file_id
    }

    /// Replaces the hash and the length recorded for a known file.
    pub(crate) fn update(&mut self, file_id: FileId, hash: u64, size: usize)
        requires
            file_id < old(self)@.len(),
        ensures
            final(self)@ == old(self)@.update(
                file_id as int,
                MetaView { path: old(self)@[file_id as int].path, hash, size },
            ),
    {
        assert(old(self)@.len() == old(self).entries@.len());
        let index = file_id as usize;
        let path = self.entries[index].path.clone();
        self.entries.set(index, FileMeta { path, hash, size });
        assert(self.entries@[index as int]@ == (MetaView {
            path: old(self)@[file_id as int].path,
            hash,
            size,
        }));
        assert(self@ =~= old(self)@.update(
            file_id as int,
            MetaView { path: old(self)@[file_id as int].path, hash, size },
        ));
    }
}

/// What a source map knows of one file.
pub ghost struct FileEntry {
    /// The path that the file was loaded from.
    pub path: Seq<char>,
    /// The hash of the content last loaded.
    pub hash: u64,
    /// The length in bytes of the content last loaded.
    pub size: usize,
    /// The content, while it is held in memory.
    pub content: Option<Seq<char>>,
}

/// What a source map stands for: entry `i` describes the file with the
/// handle `i`.
pub ghost struct Registry {
    pub entries: Seq<FileEntry>,
}

impl Registry {
    /// What the registry records for good, without the contents.
    pub open spec fn metas(self) -> Seq<MetaView> {
        self.entries.map_values(
            |e: FileEntry| MetaView { path: e.path, hash: e.hash, size: e.size },
        )
    }

    /// No two handles stand for the same path.
    pub open spec fn wf(self) -> bool {
        distinct_paths(self.metas())
    }

    /// Whether a file was ever given the handle `id`.
    pub open spec fn knows(self, id: FileId) -> bool {
        id < self.entries.len()
    }

    /// The content of the file `id`, if the handle is known and the content
    /// is in memory.
    pub open spec fn content(self, id: FileId) -> Option<Seq<char>> {
        if self.knows(id) {
            self.entries[id as int].content
        } else {
            None
        }
    }

    /// The handle of `path`, if it was ever loaded.
    pub open spec fn find(self, path: Seq<char>) -> Option<FileId> {
        position_of(self.metas(), path)
    }

    /// The entry of a file that was just loaded from `path` with the
    /// content `src`.
    pub open spec fn fresh(path: Seq<char>, src: Seq<char>) -> FileEntry {
        FileEntry {
            path,
            hash: content_hash(src),
            size: encode_utf8(src).len() as usize,
            content: Some(src),
        }
    }

    /// The handle that `path` has once it is loaded: the one it has
    /// already, or the next free one.
    pub open spec fn id_for(self, path: Seq<char>) -> FileId {
        match self.find(path) {
            Some(id) => id,
            None => self.entries.len() as FileId,
        }
    }

    /// Whether loading `src` from `path` is news: the path is new, or the
    /// hash or the length of `src` differs from what is recorded.
    pub open spec fn modifies(self, path: Seq<char>, src: Seq<char>) -> bool {
        match self.find(path) {
            Some(id) => {
                let entry = self.entries[id as int];
                let fresh = Self::fresh(path, src);
                entry.hash != fresh.hash || entry.size != fresh.size
            },
            None => true,
        }
    }

    /// The registry after `src` was loaded from `path`: the entry of the
    /// path holds what was loaded, and a new path gets the next handle.
    pub open spec fn load(self, path: Seq<char>, src: Seq<char>) -> Registry {
        match self.find(path) {
            Some(id) => Registry {
                entries: self.entries.update(id as int, Self::fresh(path, src)),
            },
            None => Registry { entries: self.entries.push(Self::fresh(path, src)) },
        }
    }

    /// The registry after the content `src` of the known file `id` was
    /// brought back into memory.
    pub open spec fn restore(self, id: FileId, src: Seq<char>) -> Registry {
        if self.knows(id) {
            Registry {
                entries: self.entries.update(
                    id as int,
                    FileEntry { content: Some(src), ..self.entries[id as int] },
                ),
            }
        } else {
            self
        }
    }
}

/// Maps file handles to source files.
pub struct SourceMap {
    manifest: Manifest,
    files: Vec<Option<SourceFile>>,
}

/// The outcome of asking a source map for a file by its handle.
pub enum GetFileResult<'a> {
    /// The path and the content of the file.
    Found(&'a str, &'a SourceFile),
    /// No file was ever given this handle.
    ErrNotInManifest,
    /// The file is known, but its content is not in memory: it has to be
    /// read again from this path.
    ErrNotResident(&'a str),
}

/// The outcome of loading a file into a source map.
#[derive(Debug)]
pub enum LoadFileResult {
    /// The file is new or its content has changed.
    Loaded(FileId),
    /// The file is known and its content is what it was.
    OkUnchanged(FileId),
    /// The file could not be read; this is what the system said.
    ErrIo(String),
}

/// A file as it comes out of loading: its handle, its content, and whether
/// the content is news.
#[derive(Debug)]
pub struct FileData {
    pub id: FileId,
    pub src: String,
    pub modified: bool,
}

impl FileData {
    /// Creates a new location from a given span, in the current source file.
    pub fn location(&self, span: &Span) -> (location: Location)
        ensures
            location == (Location { span: *span, file_id: self.id }),
    {
        Location { span: *span, file_id: self.id }
    }
}

impl View for SourceMap {
    type V = Registry;

    closed spec fn view(&self) -> Registry {
        Registry {
            entries: Seq::new(
                self.manifest@.len(),
                |i: int|
                    FileEntry {
                        path: self.manifest@[i].path,
                        hash: self.manifest@[i].hash,
                        size: self.manifest@[i].size,
                        content: if i < self.files@.len() {
                            match self.files@[i] {
                                Some(file) => if file@.id == i {
                                    Some(file@.src)
                                } else {
                                    None
                                },
                                None => None,
                            }
                        } else {
                            None
                        },
                    },
            ),
        }
    }
}

impl SourceMap {
    /// Creates a new blank source map.
    pub fn new() -> (map: SourceMap)
        ensures
            map@.entries.len() == 0,
            map@.wf(),
    {
        let map = SourceMap { manifest: Manifest::new(), files: Vec::new() };
        assert(map@.metas() =~= Seq::<MetaView>::empty());
        map
    }

    /// Creates a source map that knows the files of `manifest`, none of
    /// them in memory yet.
    pub fn from_manifest(manifest: Manifest) -> (map: SourceMap)
        ensures
            map@.metas() == manifest@,
            map@.wf() == manifest.wf(),
            forall|id: FileId| map@.content(id) is None,
    {
        let map = SourceMap { manifest, files: Vec::new() };
        assert(map@.metas() =~= manifest@);
        map
    }

    /// Returns the record that outlives the session.
    pub fn manifest(&self) -> (manifest: &Manifest)
        ensures
            manifest@ == self@.metas(),
    {
        proof {
            assert(self@.metas() =~= self.manifest@);
        }
        &self.manifest
    }

    /// Returns the handle under which `path` was loaded, if it was.
    pub fn find(&self, path: &str) -> (file_id: Option<FileId>)
        ensures
            file_id == self@.find(path@),
            file_id is Some ==> self@.knows(file_id->0),
    {
        proof {
            assert(self@.metas() =~= self.manifest@);
        }
        self.manifest.find(path)
    }

    /// Returns the file with this handle if its content is in memory.
    ///
    /// Where the handle is known but the content is not in memory, the
    /// result names the path to read it from: [`SourceMap::add_file`] brings
    /// the content back.
    pub fn get_existing_file<'a>(&'a self, file_id: FileId) -> (result: GetFileResult<'a>)
        ensures
            match result {
                GetFileResult::Found(path, file) => {
                    &&& self@.knows(file_id)
                    &&& path@ == self@.entries[file_id as int].path
                    &&& self@.content(file_id) == Some(file@.src)
                    &&& file@.id == file_id
                },
                GetFileResult::ErrNotInManifest => !self@.knows(file_id),
                GetFileResult::ErrNotResident(path) => {
                    &&& self@.knows(file_id)
                    &&& path@ == self@.entries[file_id as int].path
                    &&& self@.content(file_id) is None
                },
            },
    {
        let meta = match self.manifest.get(file_id) {
            Some(meta) => meta,
            None => {
                return GetFileResult::ErrNotInManifest;
            },
        };
        let path = meta.path.as_str();
        let index = file_id as usize;
        if index < self.files.len() {
            match &self.files[index] {
                Some(file) => {
                    if file.id() == file_id {
                        GetFileResult::Found(path, file)
                    } else {
                        GetFileResult::ErrNotResident(path)
                    }
                },
                None => GetFileResult::ErrNotResident(path),
            }
        } else {
            GetFileResult::ErrNotResident(path)
        }
    }

    /// Keeps the content `src` of the known file `file_id` in memory, in
    /// place of what was held of it. Returns whether the handle is known;
    /// nothing changes where it is not.
    pub fn add_file(&mut self, file_id: FileId, src: String) -> (known: bool)
        ensures
            known == old(self)@.knows(file_id),
            final(self)@ == old(self)@.restore(file_id, src@),
            final(self)@.metas() == old(self)@.metas(),
    {
        if file_id >= self.manifest.next_id() {
            assert(self@.metas() =~= old(self)@.metas());
            return false;
        }
        let index = file_id as usize;
        let ghost target = old(self)@.restore(file_id, src@);
        while self.files.len() <= index
            invariant
                self.manifest == old(self).manifest,
                self.files@.len() >= old(self).files@.len(),
                forall|i: int|
                    0 <= i < old(self).files@.len() ==> self.files@[i] == old(self).files@[i],
                forall|i: int|
                    old(self).files@.len() <= i < self.files@.len() ==> self.files@[i] is None,
            decreases index + 1 - self.files.len(),
        {
            self.files.push(None);
        }
        self.files.set(index, Some(SourceFile::new(file_id, src)));
        assert(self@.entries.len() == target.entries.len());
        assert forall|i: int| 0 <= i < self@.entries.len() implies self@.entries[i]
            == target.entries[i] by {
            if i != index {
                if i < old(self).files@.len() {
                    assert(self.files@[i] == old(self).files@[i]);
                } else if i < self.files@.len() {
                    assert(self.files@[i] is None);
                }
            }
        }
        assert(self@.entries =~= target.entries);
        assert(self@.metas() =~= old(self)@.metas());
        true
    }

    /// Takes in what was read from `path`, and says whether it is news.
    ///
    /// A path that was never loaded gets the next free handle. A known path
    /// keeps its handle; its content is news where its hash or its length
    /// differs from what was last recorded. Either way the record and the
    /// content in memory are brought up to date. Where reading failed,
    /// nothing changes and no handle is given out.
    pub fn load_file_if_new_or_modified(
        &mut self,
        path: &str,
        read: Result<String, String>,
    ) -> (result: LoadFileResult)
        ensures
            match read {
                Ok(src) => {
                    &&& final(self)@ == old(self)@.load(path@, src@)
                    &&& result == if old(self)@.modifies(path@, src@) {
                        LoadFileResult::Loaded(old(self)@.id_for(path@))
                    } else {
                        LoadFileResult::OkUnchanged(old(self)@.id_for(path@))
                    }
                },
                Err(reason) => {
                    &&& final(self)@ == old(self)@
                    &&& result == LoadFileResult::ErrIo(reason)
                },
            },
            old(self)@.wf() && old(self)@.entries.len() < u64::MAX ==> final(self)@.wf(),
    {
        proof {
            assert(self@.metas() =~= self.manifest@);
            if read is Ok && self@.wf() && self@.entries.len() < u64::MAX {
                lemma_load_keeps_paths(self@, path@, read->Ok_0@);
            }
        }
        let src = match read {
            Ok(src) => src,
            Err(reason) => {
                return LoadFileResult::ErrIo(reason);
            },
        };
        let hash = str_get_hash(src.as_str());
        let size: usize = src.as_str().as_bytes().len();
        let next = self.manifest.next_id();
        match self.manifest.find(path) {
            Some(file_id) => {
                let known = self.manifest.get(file_id).unwrap();
                let modified = known.hash != hash || known.size != size;
                proof {
                    lemma_position_from(self.manifest@, path@, 0);
                }
                self.manifest.update(file_id, hash, size);
                let ghost mid = self@;
                assert(mid.entries.len() == old(self)@.entries.len());
                assert forall|i: int| 0 <= i < mid.entries.len() && i != file_id implies
                    mid.entries[i] == old(self)@.entries[i] by {}
                let _ = self.add_file(file_id, src);
                proof {
                    let target = old(self)@.load(path@, src@);
                    assert(self@ == mid.restore(file_id, src@));
                    assert(self@.entries.len() == target.entries.len());
                    assert forall|i: int| 0 <= i < self@.entries.len() implies self@.entries[i]
                        == target.entries[i] by {}
                    assert(self@.entries =~= target.entries);
                }
                if modified {
                    LoadFileResult::Loaded(file_id)
                } else {
                    LoadFileResult::OkUnchanged(file_id)
                }
            },
            None => {
                let file_id = self.manifest.insert(path.to_owned(), hash, size);
                let ghost mid = self@;
                assert(mid.entries.len() == old(self)@.entries.len() + 1);
                assert forall|i: int| 0 <= i < old(self)@.entries.len() implies mid.entries[i]
                    == old(self)@.entries[i] by {}
                let _ = self.add_file(file_id, src);
                proof {
                    let target = old(self)@.load(path@, src@);
                    assert(self@ == mid.restore(file_id, src@));
                    assert(self@.entries.len() == target.entries.len());
                    assert forall|i: int| 0 <= i < self@.entries.len() implies self@.entries[i]
                        == target.entries[i] by {}
                    assert(self@.entries =~= target.entries);
                }
                LoadFileResult::Loaded(file_id)
            },
        }
    }

    /// Takes in what was read from `path`, and returns the file with its
    /// handle and content whether or not it is news.
    pub fn load_file(&mut self, path: &str, read: Result<String, String>) -> (result: Result<
        FileData,
        String,
    >)
        ensures
            match read {
                Ok(src) => {
                    &&& final(self)@ == old(self)@.load(path@, src@)
                    &&& result is Ok
                    &&& result->Ok_0.id == old(self)@.id_for(path@)
                    &&& result->Ok_0.src@ == src@
                    &&& result->Ok_0.modified == old(self)@.modifies(path@, src@)
                },
                Err(reason) => {
                    &&& final(self)@ == old(self)@
                    &&& result == Err::<FileData, String>(reason)
                },
            },
            old(self)@.wf() && old(self)@.entries.len() < u64::MAX ==> final(self)@.wf(),
    {
        let copy = match &read {
            Ok(src) => Some(src.clone()),
            Err(_) => None,
        };
        match self.load_file_if_new_or_modified(path, read) {
            LoadFileResult::Loaded(id) => Ok(FileData { id, src: copy.unwrap(), modified: true }),
            LoadFileResult::OkUnchanged(id) => Ok(
                FileData { id, src: copy.unwrap(), modified: false },
            ),
            LoadFileResult::ErrIo(reason) => Err(reason),
        }
    }
}

impl Default for SourceMap {
    fn default() -> (map: SourceMap)
        ensures
            map@.entries.len() == 0,
            map@.wf(),
    {
        SourceMap::new()
    }
}

impl Location {
    /// The raw form of a location, `<[start..end] file id>`, for when its
    /// file cannot be looked up.
    pub open spec fn spec_show(self) -> Seq<char> {
        seq!['<', '['] + decimal(self.span.start as nat) + seq!['.', '.'] + decimal(
            self.span.end as nat,
        ) + "] file "@ + decimal(self.file_id as nat) + seq!['>']
    }

    /// Whether the start of the location can be given as a line and column:
    /// the content of its file is in memory.
    pub open spec fn resolves(self, files: Registry) -> bool {
        files.content(self.file_id) is Some && self.span.start < usize::MAX
    }

    /// The line and column, both counted from one, at which the location
    /// starts in its file.
    pub open spec fn spec_line_and_col(self, files: Registry) -> (usize, usize) {
        line_and_col_at(
            line_spans(encode_utf8(files.content(self.file_id)->0)),
            self.span.start,
        )
    }

    /// The form `path:line:column` of a location that resolves, and its raw
    /// form otherwise.
    pub open spec fn spec_show_path(self, files: Registry) -> Seq<char> {
        if self.resolves(files) {
            let at = self.spec_line_and_col(files);
            files.entries[self.file_id as int].path + seq![':'] + decimal(at.0 as nat) + seq![
                ':',
            ] + decimal(at.1 as nat)
        } else {
            self.spec_show()
        }
    }

    /// The source text that the location points at. It is empty where the
    /// content of the file is not in memory or the span does not fit it.
    pub open spec fn spec_quote(self, files: Registry) -> Seq<char> {
        match files.content(self.file_id) {
            Some(src) => if self.span.fits(src) {
                self.span.spec_slice(src)
            } else {
                Seq::empty()
            },
            None => Seq::empty(),
        }
    }

    /// Returns the raw form of this location, `<[start..end] file id>`.
    pub fn show(&self) -> (text: String)
        ensures
            text@ == self.spec_show(),
    {
        let mut text = String::new();
        text.push('<');
        text.push('[');
        push_decimal(&mut text, self.span.start);
        text.push('.');
        text.push('.');
        push_decimal(&mut text, self.span.end);
        text.append("] file ");
        push_decimal_u64(&mut text, self.file_id);
        text.push('>');
        assert(text@ =~= self.spec_show());
        text
    }

    /// Returns the place a location points to in the format
    /// `path:line:column`. Falls back to the raw form of the location where
    /// the file is not known to `source_map` or its content is not in
    /// memory.
    pub fn show_path(&self, source_map: &SourceMap) -> (text: String)
        ensures
            text@ == self.spec_show_path(source_map@),
    {
        match source_map.get_existing_file(self.file_id) {
            GetFileResult::Found(path, file) => {
                if self.span.start < usize::MAX {
                    let at = file.find_line_and_col(self.span.start);
                    let mut text = String::new();
                    text.append(path);
                    text.push(':');
                    push_decimal(&mut text, at.0);
                    text.push(':');
                    push_decimal(&mut text, at.1);
                    assert(text@ =~= self.spec_show_path(source_map@));
                    text
                } else {
                    self.show()
                }
            },
            _ => self.show(),
        }
    }

    /// Copies the source text that this location points at to the end of
    /// `dest`, and returns the number of bytes written. Nothing is written
    /// where the content of the file is not in memory or the span does not
    /// fit it.
    pub fn write_to_string(&self, source_map: &SourceMap, dest: &mut String) -> (written: usize)
        ensures
            final(dest)@ == old(dest)@ + self.spec_quote(source_map@),
            written == encode_utf8(self.spec_quote(source_map@)).len(),
    {
        match source_map.get_existing_file(self.file_id) {
            GetFileResult::Found(_, file) => {
                match self.span.try_slice(file.src()) {
                    Some(piece) => {
                        dest.append(piece);
                        piece.as_bytes().len()
                    },
                    None => {
                        assert(dest@ =~= old(dest)@ + Seq::<char>::empty());
                        0
                    },
                }
            },
            _ => {
                assert(dest@ =~= old(dest)@ + Seq::<char>::empty());
                0
            },
        }
    }
}

/// A path that is recorded under `id`, and under no handle before it, is
/// found there.
pub proof fn lemma_position_is(metas: Seq<MetaView>, path: Seq<char>, id: int)
    requires
        0 <= id < metas.len() <= u64::MAX,
        metas[id].path == path,
        forall|k: int| 0 <= k < id ==> (#[trigger] metas[k]).path != path,
    ensures
        position_of(metas, path) == Some(id as FileId),
{
    lemma_position_from(metas, path, 0);
}

/// Loading keeps the handles apart: where no two handles stood for the same
/// path before, none do afterwards. Handles that exist keep their path, and
/// a new path gets the next free handle.
pub proof fn lemma_load_keeps_paths(files: Registry, path: Seq<char>, src: Seq<char>)
    requires
        files.wf(),
        files.entries.len() < u64::MAX,
    ensures
        files.load(path, src).wf(),
        files.load(path, src).entries.len() >= files.entries.len(),
        forall|id: FileId|
            files.knows(id) ==> files.load(path, src).knows(id) && files.load(
                path,
                src,
            ).entries[id as int].path == files.entries[id as int].path,
        files.find(path) is None ==> files.id_for(path) == files.entries.len(),
        files.load(path, src).find(path) == Some(files.id_for(path)),
        files.load(path, src).content(files.id_for(path)) == Some(src),
{
    let after = files.load(path, src);
    let id = files.id_for(path);
    lemma_position_from(files.metas(), path, 0);
    assert(after.entries[id as int].path == path);
    assert forall|k: int| 0 <= k < after.entries.len() && k != id implies (
    #[trigger] after.metas()[k]).path == files.metas()[k].path by {}
    assert forall|i: int, j: int|
        0 <= i < after.metas().len() && 0 <= j < after.metas().len() && i != j implies (
    #[trigger] after.metas()[i]).path != (#[trigger] after.metas()[j]).path by {
        if i != id && j != id {
            assert(files.metas()[i].path != files.metas()[j].path);
        } else if i == id {
            assert(after.metas()[j].path == files.metas()[j].path);
            if files.find(path) is Some {
                assert(files.metas()[i].path != files.metas()[j].path);
            }
        } else {
            assert(after.metas()[i].path == files.metas()[i].path);
            if files.find(path) is Some {
                assert(files.metas()[i].path != files.metas()[j].path);
            }
        }
    }
    assert forall|k: int| 0 <= k < id implies (#[trigger] after.metas()[k]).path != path by {
        assert(after.metas()[k].path == files.metas()[k].path);
    }
    lemma_position_is(after.metas(), path, id as int);
}

/// Loading the same content from the same path a second time is no news:
/// the path keeps its handle, and the registry stays as the first load left
/// it.
pub proof fn lemma_load_twice(files: Registry, path: Seq<char>, src: Seq<char>)
    requires
        files.wf(),
        files.entries.len() < u64::MAX,
    ensures
        !files.load(path, src).modifies(path, src),
        files.load(path, src).id_for(path) == files.id_for(path),
        files.load(path, src).load(path, src) == files.load(path, src),
{
    let once = files.load(path, src);
    let id = files.id_for(path);
    lemma_load_keeps_paths(files, path, src);
    lemma_position_from(files.metas(), path, 0);
    assert(once.find(path) == Some(id));
    assert(once.entries[id as int] == Registry::fresh(path, src));
    assert(once.load(path, src).entries =~= once.entries);
}

/// Loading content whose hash or length differs from what is recorded for a
/// known path is news, and leaves the hash and the length of the new content
/// in the record.
pub proof fn lemma_load_changed(files: Registry, path: Seq<char>, src: Seq<char>)
    requires
        files.wf(),
        files.entries.len() < u64::MAX,
        files.find(path) is Some,
        ({
            let known = files.entries[files.id_for(path) as int];
            known.hash != content_hash(src) || known.size != encode_utf8(src).len() as usize
        }),
    ensures
        files.modifies(path, src),
        files.load(path, src).entries[files.id_for(path) as int].hash == content_hash(src),
        files.load(path, src).entries[files.id_for(path) as int].size == encode_utf8(
            src,
        ).len() as usize,
{
    lemma_position_from(files.metas(), path, 0);
}

} // verus!
