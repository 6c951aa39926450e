//! Saving and loading the manifest of a source map.
//!
//! Only the manifest is persisted, never the content of a file: for each
//! path its handle, for each handle its path with the hash and the length of
//! the content last seen, and the next free handle. The bytes are those of
//! `bincode` in its standard configuration. What is decoded is checked
//! before it is believed: a manifest that contradicts itself counts as
//! absent.

use vstd::prelude::*;
use vstd::string::*;
use crate::source::{distinct_paths, Manifest, MetaView, SourceMap};
use crate::span::FileId;
use crate::text::str_eq;

verus! {

/// For each path the handle of the file loaded from it.
pub type PathIds = Vec<(String, u64)>;

/// For each handle the path of the file, and the hash and the length in
/// bytes of the content last seen.
pub type Entries = Vec<(u64, (String, u64, u64))>;

/// The error that `bincode` reports when a value cannot be encoded.
#[verifier::external_type_specification]
#[verifier::external_body]
pub struct ExEncodeError(bincode::error::EncodeError);

/// The error that `bincode` reports when bytes cannot be decoded.
#[verifier::external_type_specification]
#[verifier::external_body]
pub struct ExDecodeError(bincode::error::DecodeError);

/// The bytes that `bincode` encodes the three parts of a manifest to, in
/// its standard configuration; `None` where it reports an error.
pub uninterp spec fn encoded_manifest(
    path_to_id: Seq<(Seq<char>, u64)>,
    id_to_entry: Seq<(u64, (Seq<char>, u64, u64))>,
    next_id: u64,
) -> Option<Seq<u8>>;

/// The three parts of a manifest that `bincode` decodes from the start of
/// `bytes`, in its standard configuration with a limit of 64 MiB; `None`
/// where it reports an error.
pub uninterp spec fn decoded_manifest(bytes: Seq<u8>) -> Option<
    (Seq<(Seq<char>, u64)>, Seq<(u64, (Seq<char>, u64, u64))>, u64),
>;

/// What a list of paths and handles stands for.
pub open spec fn path_ids_view(paths: Seq<(String, u64)>) -> Seq<(Seq<char>, u64)> {
    paths.map_values(|pair: (String, u64)| (pair.0@, pair.1))
}

/// What a list of handles and entries stands for.
pub open spec fn entries_view(entries: Seq<(u64, (String, u64, u64))>) -> Seq<
    (u64, (Seq<char>, u64, u64)),
> {
    entries.map_values(
        |pair: (u64, (String, u64, u64))| (pair.0, (pair.1.0@, pair.1.1, pair.1.2)),
    )
}

/// `bincode::encode_to_vec` on the three parts of a manifest, taken as one
/// tuple, in the standard configuration. It succeeds or fails by the parts
/// alone, and so do the bytes that it gives; this outcome is given the name
/// [`encoded_manifest`] here.
#[verifier::external_body]
fn encode_parts(path_to_id: &PathIds, id_to_entry: &Entries, next_id: u64) -> (result: Result<
    Vec<u8>,
    bincode::error::EncodeError,
>)
    ensures
        match result {
            Ok(bytes) => encoded_manifest(
                path_ids_view(path_to_id@),
                entries_view(id_to_entry@),
                next_id,
            ) == Some(bytes@),
            Err(_) => encoded_manifest(
                path_ids_view(path_to_id@),
                entries_view(id_to_entry@),
                next_id,
            ) is None,
        },
{
    bincode::encode_to_vec((path_to_id, id_to_entry, next_id), bincode::config::standard())
}

/// `bincode::decode_from_slice` for the three parts of a manifest, taken as
/// one tuple, in the standard configuration with a limit of 64 MiB on what
/// is read. It succeeds or fails by the bytes alone, and what it decodes is
/// given the name [`decoded_manifest`] here. Bytes behind the tuple are
/// ignored.
#[verifier::external_body]
fn decode_parts(bytes: &[u8]) -> (result: Result<(PathIds, Entries, u64), bincode::error::DecodeError>)
    ensures
        match result {
            Ok(parts) => decoded_manifest(bytes@) == Some(
                (path_ids_view(parts.0@), entries_view(parts.1@), parts.2),
            ),
            Err(_) => decoded_manifest(bytes@) is None,
        },
{
    let config = bincode::config::standard().with_limit::<67108864>();
    match bincode::decode_from_slice::<(PathIds, Entries, u64), _>(bytes, config) {
        Ok((parts, _)) => Ok(parts),
        Err(error) => Err(error),
    }
}

/// The three parts that a manifest is saved as: every path with its
/// handle, every handle with its entry, both in the order of the handles,
/// and the next free handle.
pub open spec fn parts_of(metas: Seq<MetaView>) -> (
    Seq<(Seq<char>, u64)>,
    Seq<(u64, (Seq<char>, u64, u64))>,
    u64,
) {
    (
        Seq::new(metas.len(), |i: int| (metas[i].path, i as u64)),
        Seq::new(metas.len(), |i: int| (i as u64, (metas[i].path, metas[i].hash, metas[i].size as u64))),
        metas.len() as u64,
    )
}

/// The first place from `from` on at which `entries` describes the handle
/// `id`.
pub open spec fn entry_from(entries: Seq<(u64, (Seq<char>, u64, u64))>, id: u64, from: int) -> Option<
    int,
>
    decreases entries.len() - from,
{
    if from < 0 || from >= entries.len() {
        None
    } else if entries[from].0 == id {
        Some(from)
    } else {
        entry_from(entries, id, from + 1)
    }
}

/// Whether `paths` gives the handle `id` to `path`.
pub open spec fn lists(paths: Seq<(Seq<char>, u64)>, path: Seq<char>, id: u64) -> bool {
    exists|j: int| 0 <= j < paths.len() && #[trigger] paths[j] == (path, id)
}

/// What `entries` says of the file with the handle `id`.
pub open spec fn meta_of(entries: Seq<(u64, (Seq<char>, u64, u64))>, id: u64) -> MetaView {
    let entry = entries[entry_from(entries, id, 0)->0].1;
    MetaView { path: entry.0, hash: entry.1, size: entry.2 as usize }
}

/// The manifest that `entries` describes for the handles below `next_id`.
pub open spec fn metas_of(entries: Seq<(u64, (Seq<char>, u64, u64))>, next_id: u64) -> Seq<MetaView> {
    Seq::new(next_id as nat, |id: int| meta_of(entries, id as u64))
}

/// Whether `entries` and `paths` agree on the file with the handle `id`:
/// the handle has an entry, the length there fits this machine, and the path
/// there is given this handle.
pub open spec fn agrees(
    paths: Seq<(Seq<char>, u64)>,
    entries: Seq<(u64, (Seq<char>, u64, u64))>,
    id: u64,
) -> bool {
    &&& entry_from(entries, id, 0) is Some
    &&& entries[entry_from(entries, id, 0)->0].1.2 <= usize::MAX
    &&& lists(paths, entries[entry_from(entries, id, 0)->0].1.0, id)
}

/// Whether three parts make a manifest: there are as many paths and entries
/// as there are handles, every handle below the next free one is agreed on,
/// and no path belongs to two handles.
pub open spec fn consistent(
    paths: Seq<(Seq<char>, u64)>,
    entries: Seq<(u64, (Seq<char>, u64, u64))>,
    next_id: u64,
) -> bool {
    &&& paths.len() == next_id
    &&& entries.len() == next_id
    &&& forall|id: u64| 0 <= id < next_id ==> #[trigger] agrees(paths, entries, id)
    &&& distinct_paths(metas_of(entries, next_id))
}

/// An entry that is found describes the handle, and none before it does; an
/// entry that is not found does not exist.
pub proof fn lemma_entry_from(entries: Seq<(u64, (Seq<char>, u64, u64))>, id: u64, from: int)
    requires
        0 <= from,
    ensures
        match entry_from(entries, id, from) {
            Some(k) => from <= k < entries.len() && entries[k].0 == id && forall|j: int|
                from <= j < k ==> (#[trigger] entries[j]).0 != id,
            None => forall|j: int| from <= j < entries.len() ==> (#[trigger] entries[j]).0 != id,
        },
    decreases entries.len() - from,
{
    if from < entries.len() && entries[from].0 != id {
        lemma_entry_from(entries, id, from + 1);
    }
}

/// The parts that a manifest is saved as make that manifest again.
pub proof fn lemma_parts_roundtrip(metas: Seq<MetaView>)
    requires
        distinct_paths(metas),
        metas.len() <= usize::MAX,
    ensures
        consistent(parts_of(metas).0, parts_of(metas).1, parts_of(metas).2),
        metas_of(parts_of(metas).1, parts_of(metas).2) == metas,
{
    let (paths, entries, next_id) = parts_of(metas);
    assert forall|id: u64| 0 <= id < next_id implies #[trigger] agrees(paths, entries, id)
        && meta_of(entries, id) == metas[id as int] by {
        lemma_entry_from(entries, id, 0);
        assert(entries[id as int].0 == id);
        let k = entry_from(entries, id, 0)->0;
        assert(k == id);
        assert(paths[id as int] == (metas[id as int].path, id));
    }
    assert forall|i: int| 0 <= i < metas.len() implies metas_of(entries, next_id)[i]
        == metas[i] by {
        assert(agrees(paths, entries, i as u64));
        assert(meta_of(entries, i as u64) == metas[i]);
    }
    assert(metas_of(entries, next_id) =~= metas);
}

/// Returns the three parts that `manifest` is saved as.
pub fn to_parts(manifest: &Manifest) -> (parts: (PathIds, Entries, u64))
    ensures
        (path_ids_view(parts.0@), entries_view(parts.1@), parts.2) == parts_of(manifest@),
{
    let next_id = manifest.next_id();
    let mut paths: PathIds = Vec::new();
    let mut entries: Entries = Vec::new();
    let mut id: u64 = 0;
    while id < next_id
        invariant
            id <= next_id,
            next_id == manifest@.len(),
            paths@.len() == id,
            entries@.len() == id,
            forall|i: int|
                0 <= i < id ==> (#[trigger] paths@[i]).0@ == manifest@[i].path && paths@[i].1 == i,
            forall|i: int|
                0 <= i < id ==> {
                    &&& (#[trigger] entries@[i]).0 == i
                    &&& entries@[i].1.0@ == manifest@[i].path
                    &&& entries@[i].1.1 == manifest@[i].hash
                    &&& entries@[i].1.2 == manifest@[i].size as u64
                },
        decreases next_id - id,
    {
        let meta = manifest.get(id).unwrap();
        paths.push((meta.path.clone(), id));
        entries.push((id, (meta.path.clone(), meta.hash, meta.size as u64)));
        id = id + 1;
    }
    assert(path_ids_view(paths@) =~= parts_of(manifest@).0);
    assert(entries_view(entries@) =~= parts_of(manifest@).1);
    (paths, entries, next_id)
}

/// Returns the first place from `from` on at which `entries` describes the
/// handle `id`.
fn find_entry(entries: &Entries, id: u64) -> (place: Option<usize>)
    ensures
        match place {
            Some(k) => entry_from(entries_view(entries@), id, 0) == Some(k as int),
            None => entry_from(entries_view(entries@), id, 0) is None,
        },
{
    let mut k: usize = 0;
    while k < entries.len()
        invariant
            k <= entries.len(),
            entries_view(entries@).len() == entries@.len(),
            entry_from(entries_view(entries@), id, 0) == entry_from(
                entries_view(entries@),
                id,
                k as int,
            ),
        decreases entries.len() - k,
    {
        if entries[k].0 == id {
            return Some(k);
        }
        k = k + 1;
    }
    None
}

/// Returns whether `paths` gives the handle `id` to `path`.
fn is_listed(paths: &PathIds, path: &str, id: u64) -> (listed: bool)
    ensures
        listed == lists(path_ids_view(paths@), path@, id),
{
    let mut j: usize = 0;
    while j < paths.len()
        invariant
            j <= paths.len(),
            path_ids_view(paths@).len() == paths@.len(),
            forall|i: int| 0 <= i < j ==> #[trigger] path_ids_view(paths@)[i] != (path@, id),
        decreases paths.len() - j,
    {
        if paths[j].1 == id && str_eq(paths[j].0.as_str(), path) {
            assert(path_ids_view(paths@)[j as int] == (path@, id));
            return true;
        }
        j = j + 1;
    }
    false
}

/// Makes a manifest of three parts if they are consistent.
pub fn from_parts(paths: &PathIds, entries: &Entries, next_id: u64) -> (manifest: Option<Manifest>)
    ensures
        manifest is Some <==> consistent(path_ids_view(paths@), entries_view(entries@), next_id),
        manifest is Some ==> manifest->0@ == metas_of(entries_view(entries@), next_id),
        manifest is Some ==> manifest->0.wf(),
{
    let ghost listed = path_ids_view(paths@);
    let ghost described = entries_view(entries@);
    if paths.len() as u64 != next_id || entries.len() as u64 != next_id {
        return None;
    }
    let mut manifest = Manifest::new();
    let mut id: u64 = 0;
    while id < next_id
        invariant
            id <= next_id,
            listed == path_ids_view(paths@),
            described == entries_view(entries@),
            listed.len() == next_id,
            described.len() == next_id,
            manifest@.len() == id,
            forall|i: int| 0 <= i < id ==> #[trigger] manifest@[i] == meta_of(described, i as u64),
            forall|i: u64| 0 <= i < id ==> #[trigger] agrees(listed, described, i),
            distinct_paths(manifest@),
        decreases next_id - id,
    {
        let place = match find_entry(entries, id) {
            Some(place) => place,
            None => {
                assert(!agrees(listed, described, id));
                return None;
            },
        };
        proof {
            lemma_entry_from(described, id, 0);
        }
        let entry = &entries[place].1;
        if entry.2 > usize::MAX as u64 {
            assert(!agrees(listed, described, id));
            return None;
        }
        if !is_listed(paths, entry.0.as_str(), id) {
            assert(!agrees(listed, described, id));
            return None;
        }
        match manifest.find(entry.0.as_str()) {
            Some(other) => {
                proof {
                    crate::source::lemma_position_from(manifest@, entry.0@, 0);
                    let metas = metas_of(described, next_id);
                    assert(metas[other as int] == manifest@[other as int]);
                    assert(metas[id as int] == meta_of(described, id));
                    assert(metas[other as int].path == metas[id as int].path);
                }
                return None;
            },
            None => {},
        }
        let ghost before = manifest@;
        proof {
            crate::source::lemma_position_from(before, entry.0@, 0);
        }
        let _ = manifest.insert(entry.0.clone(), entry.1, entry.2 as usize);
        proof {
            assert(manifest@[id as int] == meta_of(described, id));
            assert forall|i: int, j: int|
                0 <= i < manifest@.len() && 0 <= j < manifest@.len() && i != j implies (
            #[trigger] manifest@[i]).path != (#[trigger] manifest@[j]).path by {
                if i < id && j < id {
                    assert(before[i].path != before[j].path);
                } else if i < id {
                    assert(before[i].path != entry.0@);
                } else {
                    assert(before[j].path != entry.0@);
                }
            }
        }
        id = id + 1;
    }
    assert(manifest@ =~= metas_of(described, next_id));
    Some(manifest)
}

/// The outcome of saving the manifest of a source map.
pub enum SaveManifestResult {
    /// The bytes to write.
    Saved(Vec<u8>),
    /// The manifest could not be encoded.
    ErrBincode(bincode::error::EncodeError),
}

/// The outcome of loading a source map from a saved manifest.
pub enum LoadManifestResult {
    /// A source map that knows the files of the manifest, none of them in
    /// memory yet.
    Loaded(SourceMap),
    /// The manifest could not be read; this is what the system said.
    ErrIo(String),
    /// The bytes are not those of a manifest.
    ErrBincode(bincode::error::DecodeError),
    /// The bytes are those of a manifest that contradicts itself.
    ErrInvalid,
}

/// Says what becomes of the bytes of an encoded manifest, or of the error
/// in their place.
pub fn saved(encoded: Result<Vec<u8>, bincode::error::EncodeError>) -> (result: SaveManifestResult)
    ensures
        match encoded {
            Ok(bytes) => result is Saved && result->Saved_0 == bytes,
            Err(error) => result is ErrBincode && result->ErrBincode_0 == error,
        },
{
    match encoded {
        Ok(bytes) => SaveManifestResult::Saved(bytes),
        Err(error) => SaveManifestResult::ErrBincode(error),
    }
}

/// Says what becomes of the parts of a decoded manifest, or of the error
/// in their place: parts that are consistent make a source map, and parts
/// that are not make none.
pub fn loaded(decoded: Result<(PathIds, Entries, u64), bincode::error::DecodeError>) -> (result:
    LoadManifestResult)
    ensures
        match decoded {
            Ok(parts) => if consistent(
                path_ids_view(parts.0@),
                entries_view(parts.1@),
                parts.2,
            ) {
                &&& result is Loaded
                &&& result->Loaded_0@.metas() == metas_of(entries_view(parts.1@), parts.2)
                &&& result->Loaded_0@.wf()
                &&& forall|id: FileId| result->Loaded_0@.content(id) is None
            } else {
                result is ErrInvalid
            },
            Err(error) => result is ErrBincode && result->ErrBincode_0 == error,
        },
{
    match decoded {
        Ok(parts) => match from_parts(&parts.0, &parts.1, parts.2) {
            Some(manifest) => LoadManifestResult::Loaded(SourceMap::from_manifest(manifest)),
            None => LoadManifestResult::ErrInvalid,
        },
        Err(error) => LoadManifestResult::ErrBincode(error),
    }
}

impl SourceMap {
    /// Encodes the manifest of this source map, for writing it to a file:
    /// every path with its handle, every handle with its path and the hash
    /// and the length of the content last seen, and the next free handle.
    /// The contents of the files are not part of it. The result holds the
    /// bytes that `bincode` gives for these three parts, or its error where
    /// it reports one.
    pub fn save_manifest(&self) -> (result: SaveManifestResult)
        ensures
            match encoded_manifest(
                parts_of(self@.metas()).0,
                parts_of(self@.metas()).1,
                parts_of(self@.metas()).2,
            ) {
                Some(bytes) => result is Saved && result->Saved_0@ == bytes,
                None => result is ErrBincode,
            },
    {
        let parts = to_parts(self.manifest());
        saved(encode_parts(&parts.0, &parts.1, parts.2))
    }

    /// Makes a source map of what was read from a manifest file. The source
    /// map knows the files of the manifest; their content is not in memory.
    pub fn load_manifest(read: Result<Vec<u8>, String>) -> (result: LoadManifestResult)
        ensures
            match read {
                Ok(bytes) => match decoded_manifest(bytes@) {
                    Some(parts) => if consistent(parts.0, parts.1, parts.2) {
                        &&& result is Loaded
                        &&& result->Loaded_0@.metas() == metas_of(parts.1, parts.2)
                        &&& result->Loaded_0@.wf()
                        &&& forall|id: FileId| result->Loaded_0@.content(id) is None
                    } else {
                        result is ErrInvalid
                    },
                    None => result is ErrBincode,
                },
                Err(reason) => result is ErrIo && result->ErrIo_0 == reason,
            },
    {
        match read {
            Ok(bytes) => loaded(decode_parts(bytes.as_slice())),
            Err(reason) => LoadManifestResult::ErrIo(reason),
        }
    }
}

} // verus!
