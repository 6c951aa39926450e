use libcosyc::paths::{resolve_absolute_path, resolve_relative_path};
use libcosyc::persist::{from_parts, loaded, saved, to_parts, LoadManifestResult, SaveManifestResult};
use libcosyc::source::SourceMap;

fn two_files() -> SourceMap {
    let mut files = SourceMap::new();
    files.load_file("src/a.cy", Ok(String::from("one"))).unwrap();
    files.load_file("src/b.cy", Ok(String::from("three"))).unwrap();
    files
}

#[test]
fn parts_of_a_manifest() {
    let files = two_files();
    let (paths, entries, next_id) = to_parts(files.manifest());
    assert_eq!(next_id, 2);
    assert_eq!(paths, vec![(String::from("src/a.cy"), 0), (String::from("src/b.cy"), 1)]);
    assert_eq!(entries.len(), 2);
    assert_eq!(entries[0].0, 0);
    assert_eq!(entries[0].1 .0, "src/a.cy");
    assert_eq!(entries[0].1 .1, files.manifest().get(0).unwrap().hash);
    assert_eq!(entries[0].1 .2, 3);
    assert_eq!(entries[1].0, 1);
    assert_eq!(entries[1].1 .2, 5);
}

#[test]
fn parts_make_the_manifest_again() {
    let files = two_files();
    let (paths, entries, next_id) = to_parts(files.manifest());
    let manifest = from_parts(&paths, &entries, next_id).unwrap();
    assert_eq!(manifest.next_id(), 2);
    assert_eq!(manifest.find("src/b.cy"), Some(1));
    assert_eq!(manifest.get(1).unwrap().size, 5);
    assert_eq!(manifest.get(0).unwrap().hash, files.manifest().get(0).unwrap().hash);
}

#[test]
fn parts_in_any_order() {
    let paths = vec![(String::from("b"), 1), (String::from("a"), 0)];
    let entries = vec![(1, (String::from("b"), 11, 2)), (0, (String::from("a"), 10, 1))];
    let manifest = from_parts(&paths, &entries, 2).unwrap();
    assert_eq!(manifest.get(0).unwrap().path, "a");
    assert_eq!(manifest.get(0).unwrap().hash, 10);
    assert_eq!(manifest.get(1).unwrap().path, "b");
    assert_eq!(manifest.get(1).unwrap().size, 2);
}

#[test]
fn parts_that_contradict_each_other() {
    let a = || String::from("a");
    let b = || String::from("b");
    // the next handle is not the number of entries
    assert!(from_parts(&vec![(a(), 0)], &vec![(0, (a(), 1, 1))], 2).is_none());
    assert!(from_parts(&vec![(a(), 0)], &vec![(0, (a(), 1, 1))], 0).is_none());
    // a handle without entry
    assert!(from_parts(
        &vec![(a(), 0), (b(), 1)],
        &vec![(0, (a(), 1, 1)), (2, (b(), 1, 1))],
        2
    )
    .is_none());
    // a handle twice
    assert!(from_parts(
        &vec![(a(), 0), (b(), 1)],
        &vec![(0, (a(), 1, 1)), (0, (b(), 1, 1))],
        2
    )
    .is_none());
    // the path of an entry under another handle
    assert!(from_parts(
        &vec![(a(), 1), (b(), 0)],
        &vec![(0, (a(), 1, 1)), (1, (b(), 1, 1))],
        2
    )
    .is_none());
    // a path that no entry has
    assert!(from_parts(&vec![(b(), 0)], &vec![(0, (a(), 1, 1))], 1).is_none());
    // one path under two handles
    assert!(from_parts(
        &vec![(a(), 0), (a(), 1)],
        &vec![(0, (a(), 1, 1)), (1, (a(), 1, 1))],
        2
    )
    .is_none());
    // and the empty manifest is fine
    assert!(from_parts(&vec![], &vec![], 0).is_some());
}

#[test]
fn saved_manifest_has_the_bytes_of_the_schema() {
    let mut files = SourceMap::new();
    files.load_file("a", Ok(String::from("xy"))).unwrap();
    let hash = files.manifest().get(0).unwrap().hash;
    let saved = match files.save_manifest() {
        SaveManifestResult::Saved(bytes) => bytes,
        _ => panic!("a manifest of one file can be encoded"),
    };
    let mut expected = vec![1, 1, b'a', 0, 1, 0, 1, b'a'];
    expected.extend(bincode::encode_to_vec(hash, bincode::config::standard()).unwrap());
    expected.extend([2, 1]);
    assert_eq!(saved, expected);
}

#[test]
fn saved_manifest_loads_again() {
    let files = two_files();
    let saved = match files.save_manifest() {
        SaveManifestResult::Saved(bytes) => bytes,
        _ => panic!("a manifest of two files can be encoded"),
    };
    let again = match SourceMap::load_manifest(Ok(saved)) {
        LoadManifestResult::Loaded(files) => files,
        _ => panic!("what was saved can be loaded"),
    };
    assert_eq!(again.manifest().next_id(), 2);
    assert_eq!(again.find("src/a.cy"), Some(0));
    assert_eq!(again.find("src/b.cy"), Some(1));
    for id in 0..2 {
        let before = files.manifest().get(id).unwrap();
        let after = again.manifest().get(id).unwrap();
        assert_eq!(before.path, after.path);
        assert_eq!(before.hash, after.hash);
        assert_eq!(before.size, after.size);
    }
}

#[test]
fn manifest_that_cannot_be_read() {
    match SourceMap::load_manifest(Err(String::from("denied"))) {
        LoadManifestResult::ErrIo(reason) => assert_eq!(reason, "denied"),
        _ => panic!("reading failed"),
    }
}

#[test]
fn bytes_that_are_no_manifest() {
    assert!(matches!(
        SourceMap::load_manifest(Ok(vec![])),
        LoadManifestResult::ErrBincode(_)
    ));
    assert!(matches!(
        SourceMap::load_manifest(Ok(vec![1, 2, 0xff, 0xfe])),
        LoadManifestResult::ErrBincode(_)
    ));
    // a length that no file could hold
    assert!(matches!(
        SourceMap::load_manifest(Ok(vec![0xfd, 0xff, 0xff, 0xff, 0xff, 0xff, 0xff, 0xff, 0xff])),
        LoadManifestResult::ErrBincode(_)
    ));
}

#[test]
fn bytes_of_a_manifest_that_contradicts_itself() {
    // no paths, no entries, but one handle given out
    assert!(matches!(
        SourceMap::load_manifest(Ok(vec![0, 0, 1])),
        LoadManifestResult::ErrInvalid
    ));
    assert!(matches!(
        SourceMap::load_manifest(Ok(vec![0, 0, 0])),
        LoadManifestResult::Loaded(_)
    ));
}

#[test]
fn outcomes_are_passed_on() {
    assert!(matches!(saved(Ok(vec![1, 2])), SaveManifestResult::Saved(bytes) if bytes == [1, 2]));
    assert!(matches!(
        saved(Err(bincode::error::EncodeError::UnexpectedEnd)),
        SaveManifestResult::ErrBincode(bincode::error::EncodeError::UnexpectedEnd)
    ));
    assert!(matches!(
        loaded(Ok((vec![], vec![], 0))),
        LoadManifestResult::Loaded(_)
    ));
    assert!(matches!(
        loaded(Ok((vec![], vec![], 3))),
        LoadManifestResult::ErrInvalid
    ));
    let error = bincode::decode_from_slice::<u64, _>(&[], bincode::config::standard()).unwrap_err();
    assert!(matches!(loaded(Err(error)), LoadManifestResult::ErrBincode(_)));
}

#[test]
fn canonical_path_is_taken() {
    assert_eq!(
        resolve_absolute_path(
            "main.cy",
            Some(String::from("/work/main.cy")),
            false,
            Some(String::from("/elsewhere"))
        ),
        Some(String::from("/work/main.cy"))
    );
}

#[test]
fn absolute_path_without_canonical_form_stays() {
    assert_eq!(
        resolve_absolute_path("/gone/main.cy", None, true, Some(String::from("/work"))),
        None
    );
}

#[test]
fn relative_path_is_joined_and_cleaned() {
    assert_eq!(
        resolve_absolute_path("./src//../main.cy", None, false, Some(String::from("/work/dir"))),
        Some(String::from("/work/dir/main.cy"))
    );
    assert_eq!(
        resolve_absolute_path("../main.cy", None, false, Some(String::from("/work/dir"))),
        Some(String::from("/work/main.cy"))
    );
    assert_eq!(resolve_absolute_path("main.cy", None, false, None), None);
}

#[test]
fn path_relative_to_the_working_directory() {
    assert_eq!(
        resolve_relative_path("/work/dir/src/main.cy", Some(String::from("/work/dir"))),
        Some(String::from("src/main.cy"))
    );
    assert_eq!(
        resolve_relative_path("/work/main.cy", Some(String::from("/work/dir"))),
        Some(String::from("../main.cy"))
    );
    assert_eq!(resolve_relative_path("main.cy", Some(String::from("/work/dir"))), None);
    assert_eq!(resolve_relative_path("/work/main.cy", None), None);
}
