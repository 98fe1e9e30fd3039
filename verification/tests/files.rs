use video_preview::files::{
    copied_message, directory_exists, file_exists, list_directory, moved_message, preview_text, require_directory, require_existing, require_file,
    require_preview_size, require_source, require_vacant, EntryAttributes, FileInfo, InputError,
    PathStatus, RawEntry, PREVIEW_LIMIT,
};
use video_preview::greet;

const MISSING: PathStatus = PathStatus { exists: false, is_file: false, is_dir: false };
const FILE: PathStatus = PathStatus { exists: true, is_file: true, is_dir: false };
const DIRECTORY: PathStatus = PathStatus { exists: true, is_file: false, is_dir: true };
const OTHER: PathStatus = PathStatus { exists: true, is_file: false, is_dir: false };

#[test]
fn a_regular_file_is_admitted() {
    assert!(require_file("a.mp4", &FILE).is_ok());
}

#[test]
fn a_missing_path_is_refused_as_missing() {
    match require_file("a.mp4", &MISSING) {
        Err(InputError::FileMissing { path }) => assert_eq!(path, "a.mp4"),
        other => panic!("{:?}", other),
    }
    let odd = PathStatus { exists: false, is_file: true, is_dir: true };
    assert!(matches!(require_file("a.mp4", &odd), Err(InputError::FileMissing { .. })));
    assert!(matches!(require_directory("d", &odd), Err(InputError::DirectoryMissing { .. })));
    assert!(matches!(require_source("s", &odd), Err(InputError::SourceMissing { .. })));
}

#[test]
fn what_is_no_regular_file_is_refused() {
    match require_file("/tmp", &DIRECTORY) {
        Err(InputError::NotAFile { path }) => assert_eq!(path, "/tmp"),
        other => panic!("{:?}", other),
    }
    assert!(matches!(require_file("/dev/null", &OTHER), Err(InputError::NotAFile { .. })));
}

#[test]
fn only_a_directory_is_listed() {
    assert!(require_directory("/tmp", &DIRECTORY).is_ok());
    match require_directory("a.mp4", &FILE) {
        Err(InputError::NotADirectory { path }) => assert_eq!(path, "a.mp4"),
        other => panic!("{:?}", other),
    }
    assert!(matches!(require_directory("x", &MISSING), Err(InputError::DirectoryMissing { .. })));
}

#[test]
fn a_file_is_moved_only_to_a_free_place() {
    assert!(require_vacant("b.mp4", &MISSING).is_ok());
    match require_vacant("b.mp4", &FILE) {
        Err(InputError::DestinationExists { path }) => assert_eq!(path, "b.mp4"),
        other => panic!("{:?}", other),
    }
    assert!(matches!(require_vacant("d", &DIRECTORY), Err(InputError::DestinationExists { .. })));
}

#[test]
fn previews_stop_at_fifty_mebibytes() {
    assert_eq!(PREVIEW_LIMIT, 50 * 1024 * 1024);
    assert!(require_preview_size(0).is_ok());
    assert!(require_preview_size(PREVIEW_LIMIT).is_ok());
    match require_preview_size(PREVIEW_LIMIT + 1) {
        Err(InputError::TooLarge { size }) => assert_eq!(size, PREVIEW_LIMIT + 1),
        other => panic!("{:?}", other),
    }
    assert!(require_preview_size(u64::MAX).is_err());
}

#[test]
fn a_preview_is_the_base64_of_the_file() {
    assert_eq!(preview_text(b"").as_deref(), Some(""));
    assert_eq!(preview_text(b"hello").as_deref(), Some("aGVsbG8="));
    assert_eq!(preview_text(b"png").as_deref(), Some("cG5n"));
}

#[test]
fn a_file_entry_shows_its_size() {
    let attributes =
        EntryAttributes { is_file: true, is_dir: false, length: 1234, modified: Some(1700000000) };
    let info = FileInfo::describe("a.mp4".to_string(), "/v/a.mp4".to_string(), Some(attributes));
    assert_eq!(info.name, "a.mp4");
    assert_eq!(info.path, "/v/a.mp4");
    assert!(!info.is_dir);
    assert_eq!(info.size, Some(1234));
    assert_eq!(info.modified, Some(1700000000));
}

#[test]
fn a_directory_entry_shows_no_size() {
    let attributes = EntryAttributes { is_file: false, is_dir: true, length: 4096, modified: None };
    let info = FileInfo::describe("sub".to_string(), "/v/sub".to_string(), Some(attributes));
    assert!(info.is_dir);
    assert_eq!(info.size, None);
    assert_eq!(info.modified, None);
}

#[test]
fn an_entry_without_attributes_shows_its_names_only() {
    let info = FileInfo::describe("gone".to_string(), "/v/gone".to_string(), None);
    assert_eq!(info.name, "gone");
    assert_eq!(info.path, "/v/gone");
    assert!(!info.is_dir);
    assert_eq!(info.size, None);
    assert_eq!(info.modified, None);
}

#[test]
fn a_source_must_be_a_regular_file() {
    assert!(require_source("a.mp4", &FILE).is_ok());
    match require_source("a.mp4", &MISSING) {
        Err(InputError::SourceMissing { path }) => assert_eq!(path, "a.mp4"),
        other => panic!("{:?}", other),
    }
    match require_source("/tmp", &DIRECTORY) {
        Err(InputError::SourceNotAFile { path }) => assert_eq!(path, "/tmp"),
        other => panic!("{:?}", other),
    }
}

#[test]
fn anything_that_exists_can_be_described() {
    assert!(require_existing("a.mp4", &FILE).is_ok());
    assert!(require_existing("/tmp", &DIRECTORY).is_ok());
    assert!(require_existing("/dev/null", &OTHER).is_ok());
    match require_existing("gone", &MISSING) {
        Err(InputError::FileMissing { path }) => assert_eq!(path, "gone"),
        other => panic!("{:?}", other),
    }
}

#[test]
fn refusals_are_put_in_words() {
    let path = || "/v/a b.mp4".to_string();
    let cases = [
        (InputError::FileMissing { path: path() }, "File does not exist: /v/a b.mp4"),
        (InputError::NotAFile { path: path() }, "Path is not a file: /v/a b.mp4"),
        (InputError::DirectoryMissing { path: path() }, "Directory does not exist: /v/a b.mp4"),
        (InputError::NotADirectory { path: path() }, "Path is not a directory: /v/a b.mp4"),
        (InputError::SourceMissing { path: path() }, "Source file does not exist: /v/a b.mp4"),
        (InputError::SourceNotAFile { path: path() }, "Source path is not a file: /v/a b.mp4"),
        (
            InputError::DestinationExists { path: path() },
            "Destination file already exists: /v/a b.mp4",
        ),
        (
            InputError::TooLarge { size: PREVIEW_LIMIT + 1 },
            "File too large for thumbnail generation (max 50MB)",
        ),
    ];
    for (error, words) in cases {
        assert_eq!(error.message(), words);
    }
}

#[test]
fn a_name_is_greeted() {
    assert_eq!(greet("Ada"), "Hello, Ada! You've been greeted from Rust!");
    assert_eq!(greet(""), "Hello, ! You've been greeted from Rust!");
}

fn entries() -> Vec<RawEntry> {
    vec![
        RawEntry {
            name: "b.mp4".to_string(),
            path: "/v/b.mp4".to_string(),
            attributes: Some(EntryAttributes {
                is_file: true,
                is_dir: false,
                length: 77,
                modified: Some(5),
            }),
        },
        RawEntry {
            name: "sub".to_string(),
            path: "/v/sub".to_string(),
            attributes: Some(EntryAttributes {
                is_file: false,
                is_dir: true,
                length: 4096,
                modified: None,
            }),
        },
        RawEntry { name: "a.mp4".to_string(), path: "/v/a.mp4".to_string(), attributes: None },
    ]
}

#[test]
fn a_directory_is_listed_entry_by_entry() {
    let files = list_directory("/v", &DIRECTORY, &entries()).unwrap();
    let shown: Vec<(&str, &str, bool, Option<u64>, Option<u64>)> = files
        .iter()
        .map(|file| (file.name.as_str(), file.path.as_str(), file.is_dir, file.size, file.modified))
        .collect();
    assert_eq!(
        shown,
        vec![
            ("b.mp4", "/v/b.mp4", false, Some(77), Some(5)),
            ("sub", "/v/sub", true, None, None),
            ("a.mp4", "/v/a.mp4", false, None, None),
        ]
    );
    assert!(list_directory("/v", &DIRECTORY, &Vec::new()).unwrap().is_empty());
}

#[test]
fn what_is_no_directory_is_not_listed() {
    match list_directory("/gone", &MISSING, &entries()) {
        Err(error) => assert_eq!(error.message(), "Directory does not exist: /gone"),
        Ok(files) => panic!("{:?}", files),
    }
    match list_directory("/v/a.mp4", &FILE, &entries()) {
        Err(error) => assert_eq!(error.message(), "Path is not a directory: /v/a.mp4"),
        Ok(files) => panic!("{:?}", files),
    }
}

#[test]
fn moves_and_copies_are_reported_in_words() {
    assert_eq!(moved_message("/a/b.mp4", "/c/d.mp4"), "File moved successfully from /a/b.mp4 to /c/d.mp4");
    assert_eq!(copied_message("/a/b.mp4", "/c/d.mp4"), "File copied successfully from /a/b.mp4 to /c/d.mp4");
    assert_eq!(moved_message("", ""), "File moved successfully from  to ");
}

#[test]
fn a_directory_exists_where_something_is_there_and_is_one() {
    assert!(directory_exists(&DIRECTORY));
    assert!(!directory_exists(&FILE));
    assert!(!directory_exists(&MISSING));
    assert!(!directory_exists(&OTHER));
    assert!(!directory_exists(&PathStatus { exists: false, is_file: false, is_dir: true }));
    assert!(file_exists(&FILE) && file_exists(&DIRECTORY) && file_exists(&OTHER));
    assert!(!file_exists(&MISSING));
}
