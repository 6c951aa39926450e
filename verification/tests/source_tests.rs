use libcosyc::source::{FileData, GetFileResult, LoadFileResult, Manifest, SourceMap};
use libcosyc::span::{Location, Span};

fn loaded(source: &str) -> Result<String, String> {
    Ok(String::from(source))
}

#[test]
fn new_map_knows_nothing() {
    let files = SourceMap::new();
    assert!(matches!(files.get_existing_file(0), GetFileResult::ErrNotInManifest));
    assert_eq!(files.find("main.cy"), None);
    assert_eq!(files.manifest().next_id(), 0);
}

#[test]
fn first_load_gives_the_next_handle() {
    let mut files = SourceMap::new();
    assert!(matches!(
        files.load_file_if_new_or_modified("a.cy", loaded("one")),
        LoadFileResult::Loaded(0)
    ));
    assert!(matches!(
        files.load_file_if_new_or_modified("b.cy", loaded("two")),
        LoadFileResult::Loaded(1)
    ));
    assert_eq!(files.find("a.cy"), Some(0));
    assert_eq!(files.find("b.cy"), Some(1));
    assert_eq!(files.find("c.cy"), None);
    assert_eq!(files.manifest().next_id(), 2);
}

#[test]
fn loading_the_same_content_twice_is_no_news() {
    let mut files = SourceMap::new();
    let first = files.load_file("main.cy", loaded("fn main() = 1")).unwrap();
    assert_eq!(first.id, 0);
    assert!(first.modified);
    assert_eq!(first.src, "fn main() = 1");
    let second = files.load_file("main.cy", loaded("fn main() = 1")).unwrap();
    assert_eq!(second.id, 0);
    assert!(!second.modified);
    assert_eq!(second.src, "fn main() = 1");
    assert_eq!(files.manifest().next_id(), 1);
}

#[test]
fn changing_one_byte_is_news() {
    let mut files = SourceMap::new();
    files.load_file("main.cy", loaded("fn main() = 1")).unwrap();
    let before = files.manifest().get(0).unwrap().hash;
    let again = files.load_file("main.cy", loaded("fn main() = 2")).unwrap();
    assert_eq!(again.id, 0);
    assert!(again.modified);
    let after = files.manifest().get(0).unwrap().hash;
    assert_ne!(before, after);
    match files.get_existing_file(0) {
        GetFileResult::Found(path, file) => {
            assert_eq!(path, "main.cy");
            assert_eq!(file.src(), "fn main() = 2");
        }
        _ => panic!("the file is in memory"),
    }
    // and the content as it is now is no news any more
    assert!(matches!(
        files.load_file_if_new_or_modified("main.cy", loaded("fn main() = 2")),
        LoadFileResult::OkUnchanged(0)
    ));
}

#[test]
fn changed_length_is_news() {
    let mut files = SourceMap::new();
    files.load_file("main.cy", loaded("abc")).unwrap();
    let again = files.load_file("main.cy", loaded("abcd")).unwrap();
    assert!(again.modified);
    let meta = files.manifest().get(0).unwrap();
    assert_eq!(meta.size, 4);
    assert_eq!(meta.path, "main.cy");
}

#[test]
fn the_hash_is_not_the_length_or_the_text() {
    let mut files = SourceMap::new();
    files.load_file("a.cy", loaded("abc")).unwrap();
    files.load_file("b.cy", loaded("abd")).unwrap();
    let a = files.manifest().get(0).unwrap().hash;
    let b = files.manifest().get(1).unwrap().hash;
    assert_ne!(a, b);
    files.load_file("c.cy", loaded("abc")).unwrap();
    assert_eq!(files.manifest().get(2).unwrap().hash, a);
}

#[test]
fn failed_read_gives_out_no_handle() {
    let mut files = SourceMap::new();
    let result = files.load_file_if_new_or_modified(
        "missing.cy",
        Err(String::from("No such file or directory (os error 2)")),
    );
    match result {
        LoadFileResult::ErrIo(reason) => {
            assert_eq!(reason, "No such file or directory (os error 2)")
        }
        _ => panic!("reading failed"),
    }
    assert_eq!(files.manifest().next_id(), 0);
    assert_eq!(files.find("missing.cy"), None);
    let result = files.load_file("missing.cy", Err(String::from("denied")));
    assert_eq!(result.unwrap_err(), "denied");
}

#[test]
fn failed_read_of_a_known_file_changes_nothing() {
    let mut files = SourceMap::new();
    files.load_file("main.cy", loaded("abc")).unwrap();
    let hash = files.manifest().get(0).unwrap().hash;
    assert!(files.load_file("main.cy", Err(String::from("gone"))).is_err());
    assert_eq!(files.manifest().get(0).unwrap().hash, hash);
    assert!(matches!(files.get_existing_file(0), GetFileResult::Found(_, _)));
}

#[test]
fn files_of_a_manifest_are_not_in_memory() {
    let mut files = SourceMap::new();
    files.load_file("a.cy", loaded("one")).unwrap();
    files.load_file("b.cy", loaded("two")).unwrap();
    let saved = match files.save_manifest() {
        libcosyc::persist::SaveManifestResult::Saved(bytes) => bytes,
        _ => panic!("a manifest of two files can be encoded"),
    };
    let mut files = match SourceMap::load_manifest(Ok(saved)) {
        libcosyc::persist::LoadManifestResult::Loaded(files) => files,
        _ => panic!("what was saved can be loaded"),
    };
    match files.get_existing_file(1) {
        GetFileResult::ErrNotResident(path) => assert_eq!(path, "b.cy"),
        _ => panic!("the content was not saved"),
    }
    assert!(matches!(files.get_existing_file(2), GetFileResult::ErrNotInManifest));
    // bringing the content back
    assert!(files.add_file(1, String::from("two")));
    match files.get_existing_file(1) {
        GetFileResult::Found(path, file) => {
            assert_eq!(path, "b.cy");
            assert_eq!(file.src(), "two");
            assert_eq!(file.id(), 1);
        }
        _ => panic!("the content was added"),
    }
    assert!(matches!(files.get_existing_file(0), GetFileResult::ErrNotResident(_)));
    assert!(!files.add_file(2, String::from("three")));
    // the unchanged file is no news in the next session
    assert!(matches!(
        files.load_file_if_new_or_modified("a.cy", loaded("one")),
        LoadFileResult::OkUnchanged(0)
    ));
    assert!(matches!(
        files.load_file_if_new_or_modified("b.cy", loaded("2")),
        LoadFileResult::Loaded(1)
    ));
}

#[test]
fn manifest_lookup() {
    let manifest = Manifest::new();
    assert_eq!(manifest.next_id(), 0);
    assert!(manifest.get(0).is_none());
    assert_eq!(manifest.find("a"), None);
}

#[test]
fn file_data_makes_locations() {
    let data = FileData { id: 4, src: String::from("abc"), modified: true };
    assert_eq!(
        data.location(&Span::new(0..1)),
        Location { span: Span::new(0..1), file_id: 4 }
    );
}

#[test]
fn show_path_gives_line_and_column() {
    let mut files = SourceMap::new();
    files.load_file("dir/main.cy", loaded("a\nbb\nccc")).unwrap();
    let location = Location { span: Span::new(6..7), file_id: 0 };
    assert_eq!(location.show_path(&files), "dir/main.cy:3:2");
    let location = Location { span: Span::new(0..0), file_id: 0 };
    assert_eq!(location.show_path(&files), "dir/main.cy:1:1");
}

#[test]
fn show_path_falls_back_to_the_raw_form() {
    let files = SourceMap::new();
    let location = Location { span: Span::new(6..7), file_id: 3 };
    assert_eq!(location.show_path(&files), "<[6..7] file 3>");
}

#[test]
fn write_to_string_quotes_the_source() {
    let mut files = SourceMap::new();
    files.load_file("main.cy", loaded("let `x` = 1")).unwrap();
    let mut dest = String::from("> ");
    let location = Location { span: Span::new(4..7), file_id: 0 };
    assert_eq!(location.write_to_string(&files, &mut dest), 3);
    assert_eq!(dest, "> `x`");
    // a span that does not fit the file writes nothing
    let location = Location { span: Span::new(4..70), file_id: 0 };
    assert_eq!(location.write_to_string(&files, &mut dest), 0);
    // nor does an unknown file
    let location = Location { span: Span::new(4..7), file_id: 1 };
    assert_eq!(location.write_to_string(&files, &mut dest), 0);
    assert_eq!(dest, "> `x`");
}
