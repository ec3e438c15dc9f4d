use fs_rollback::{backup_dir, dir_like, file_like, Error, Rollback};
use std::io::{ErrorKind, Read, Write};
use std::path::Path;
use tempfile::{NamedTempFile, TempDir};

const ORIGINAL_CONTENT: &str = "Hello world";
const MODIFIED_CONTENT: &str = "This is me";

// A temporary directory holding `n` existing files, plus `n` file paths and `n` directory paths
// that do not exist yet.
struct Fixture {
    dir: TempDir,
    existing: Vec<NamedTempFile>,
}

impl Fixture {
    fn new(n: usize) -> Fixture {
        let dir = tempfile::tempdir().expect("a temporary directory can be created");
        let mut existing = Vec::new();
        for _ in 0..n {
            let file = NamedTempFile::new_in(dir.path()).expect("a file can be created");
            file.as_file().write_all(ORIGINAL_CONTENT.as_bytes()).expect("the file is writable");
            existing.push(file);
        }
        Fixture { dir, existing }
    }

    fn existing(&self, i: usize) -> String {
        self.existing[i].path().to_str().unwrap().to_string()
    }

    fn new_file(&self, i: usize) -> String {
        self.dir.path().join(format!("{}.txt", i)).to_str().unwrap().to_string()
    }

    fn new_dir(&self, i: usize) -> String {
        self.dir.path().join(i.to_string()).to_str().unwrap().to_string()
    }
}

fn content(file: &NamedTempFile) -> String {
    let mut text = String::new();
    file.reopen().unwrap().read_to_string(&mut text).unwrap();
    text
}

// Notes `path`; `source` is the fixture file behind it, whose bytes the staging file copies.
fn note(
    rb: &mut Rollback<NamedTempFile>,
    path: &str,
    source: Option<&NamedTempFile>,
) -> Result<(), Error> {
    let is_file = Path::new(path).is_file();
    rb.note_file(path, is_file, || {
        let mut staging = NamedTempFile::new()?;
        let mut original = source.expect("a noted file has a source").reopen()?;
        std::io::copy(&mut original, &mut staging)?;
        Ok(staging)
    })
}

fn add_new_file(rb: &mut Rollback<NamedTempFile>, path: &str) -> Result<(), Error> {
    let on_disk = Path::new(path).exists();
    rb.new_file(path, on_disk, NamedTempFile::new)
}

fn add_new_dir(rb: &mut Rollback<NamedTempFile>, path: &str) -> Result<(), Error> {
    let on_disk = Path::new(path).exists();
    rb.new_dir(path, on_disk)
}

#[test]
fn rollback_new_works() {
    let rollback: Rollback<NamedTempFile> = Rollback::default();
    assert!(rollback.noted_len() == 0);
    assert!(rollback.new_files_len() == 0);
    assert!(rollback.new_dirs_len() == 0);
}

#[test]
fn rollback_with_capacity_works() {
    let rollback: Rollback<NamedTempFile> = Rollback::with_capacity(1, 2, 3);
    assert!(rollback.noted_len() == 0);
    assert!(rollback.new_files_len() == 0);
    assert!(rollback.new_dirs_len() == 0);
}

#[test]
fn note_file_works() {
    let fx = Fixture::new(1);
    let mut rollback = Rollback::default();
    let path = fx.existing(0);
    assert!(note(&mut rollback, &path, Some(&fx.existing[0])).is_ok());
    let staging = rollback.get_noted_file(&path).expect("the file is noted");
    assert_eq!(content(&fx.existing[0]), content(staging));
    assert_eq!(content(staging), ORIGINAL_CONTENT);
}

#[test]
fn note_file_fails_if_provided_path_isnt_file() {
    let mut rollback = Rollback::default();
    let some_path = "some/path";
    match note(&mut rollback, some_path, None) {
        Err(Error::NotAFile(item)) => assert_eq!(item, some_path.to_string()),
        _ => panic!("Unexpected error"),
    }
}

#[test]
fn note_file_fails_if_provided_path_is_already_noted() {
    let fx = Fixture::new(1);
    let mut rollback = Rollback::default();
    let path = fx.existing(0);
    note(&mut rollback, &path, Some(&fx.existing[0])).unwrap();
    match note(&mut rollback, &path, Some(&fx.existing[0])) {
        Err(Error::AlreadyNoted(item)) => assert_eq!(item, path),
        _ => panic!("Unexpected error"),
    }
}

#[test]
fn note_file_fails_if_original_file_cannot_be_copied() {
    let fx = Fixture::new(1);
    let mut rollback: Rollback<NamedTempFile> = Rollback::default();
    let path = fx.existing(0);
    let result = rollback.note_file(&path, true, || {
        Err(std::io::Error::new(ErrorKind::PermissionDenied, "Permission denied"))
    });
    match result {
        Err(Error::IO(err)) => assert_eq!(err.kind(), ErrorKind::PermissionDenied),
        _ => panic!("Unexpected error"),
    }
    assert!(rollback.noted_len() == 0);
}

#[test]
fn note_file_fails_if_provided_path_is_already_noted_under_different_path_representation() {
    let fx = Fixture::new(1);
    let mut rollback = Rollback::default();
    let path = fx.existing(0);
    note(&mut rollback, &path, Some(&fx.existing[0])).unwrap();
    let name = Path::new(&path).file_name().unwrap().to_str().unwrap().to_string();
    let alias = format!("{}/./{}", fx.dir.path().to_str().unwrap(), name);
    assert_ne!(alias, path);
    match note(&mut rollback, &alias, Some(&fx.existing[0])) {
        Err(Error::AlreadyNoted(item)) => assert_eq!(item, alias),
        _ => panic!("Unexpected error"),
    }
    assert!(rollback.noted_len() == 1);
}

#[test]
fn note_file_fails_if_it_cannot_create_temp_file() {
    let fx = Fixture::new(1);
    let mut rollback: Rollback<NamedTempFile> = Rollback::default();
    let path = fx.existing(0);
    let result = rollback.note_file(&path, true, || {
        Err(std::io::Error::new(ErrorKind::PermissionDenied, "Permission denied (os error 13)"))
    });
    match result {
        Err(Error::IO(err)) => assert_eq!(err.kind(), ErrorKind::PermissionDenied),
        _ => panic!("Unexpected error"),
    }
    assert!(rollback.get_noted_file(&path).is_none());
}

#[test]
fn note_file_of_a_missing_path_leaves_the_session_unchanged() {
    let mut rollback: Rollback<NamedTempFile> = Rollback::default();
    let mut called = false;
    let result = rollback.note_file("missing/path", false, || {
        called = true;
        NamedTempFile::new()
    });
    match result {
        Err(Error::NotAFile(item)) => assert_eq!(item, "missing/path"),
        _ => panic!("Unexpected error"),
    }
    assert!(!called);
    assert!(rollback.noted_len() == 0);
    assert!(rollback.get_noted_file("missing/path").is_none());
}

#[test]
fn new_file_works() {
    let fx = Fixture::new(1);
    let mut rollback = Rollback::default();
    let path = fx.new_file(0);
    assert!(add_new_file(&mut rollback, &path).is_ok());
    assert!(rollback.get_new_file(&path).is_some());
}

#[test]
fn new_file_fails_if_path_already_exists() {
    let fx = Fixture::new(1);
    let mut rollback = Rollback::default();
    let path = fx.existing(0);
    match add_new_file(&mut rollback, &path) {
        Err(Error::NewItemAlreadyExists(item)) => assert_eq!(path, item),
        _ => panic!("Unexpected error"),
    }
}

#[test]
fn new_file_fails_if_path_already_noted() {
    let fx = Fixture::new(1);
    let mut rollback = Rollback::default();
    let path = fx.new_file(0);
    add_new_file(&mut rollback, &path).unwrap();
    match add_new_file(&mut rollback, &path) {
        Err(Error::AlreadyNoted(item)) => assert_eq!(path, item),
        _ => panic!("Unexpected error"),
    }
}

#[test]
fn new_file_fails_if_path_cannot_be_a_file() {
    let fx = Fixture::new(1);
    let mut rollback = Rollback::default();
    let path = fx.new_dir(0);
    match add_new_file(&mut rollback, &path) {
        Err(Error::NotAFile(item)) => assert_eq!(path, item),
        _ => panic!("Unexpected error"),
    }
}

#[test]
fn new_file_fails_if_it_cannot_create_temp_file() {
    let fx = Fixture::new(1);
    let mut rollback: Rollback<NamedTempFile> = Rollback::default();
    let result = rollback.new_file(&fx.new_file(0), false, || {
        Err(std::io::Error::new(ErrorKind::PermissionDenied, "Permission denied"))
    });
    match result {
        Err(Error::IO(err)) => assert_eq!(err.kind(), ErrorKind::PermissionDenied),
        _ => panic!("Unexpected error"),
    }
    assert!(rollback.new_files_len() == 0);
}

#[test]
fn new_dir_works() {
    let fx = Fixture::new(1);
    let mut rollback: Rollback<NamedTempFile> = Rollback::default();
    assert!(add_new_dir(&mut rollback, &fx.new_dir(0)).is_ok());
    assert!(rollback.new_dirs_len() == 1);
}

#[test]
fn new_dir_fails_if_path_already_exists() {
    let fx = Fixture::new(1);
    let mut rollback: Rollback<NamedTempFile> = Rollback::default();
    let path = fx.new_dir(0);
    let _made = tempfile::Builder::new()
        .prefix("0")
        .rand_bytes(0)
        .tempdir_in(fx.dir.path())
        .expect("The directory should be created; qed;");
    assert!(Path::new(&path).is_dir());
    match add_new_dir(&mut rollback, &path) {
        Err(Error::NewItemAlreadyExists(item)) => assert_eq!(path, item),
        _ => panic!("Unexpected error"),
    }
}

#[test]
fn new_dir_fails_if_path_already_noted() {
    let fx = Fixture::new(1);
    let mut rollback: Rollback<NamedTempFile> = Rollback::default();
    let path = fx.new_dir(0);
    add_new_dir(&mut rollback, &path).unwrap();
    match add_new_dir(&mut rollback, &path) {
        Err(Error::AlreadyNoted(item)) => assert_eq!(path, item),
        _ => panic!("Unexpected error"),
    }
}

#[test]
fn new_dir_fails_if_path_cannot_be_a_dir() {
    let fx = Fixture::new(1);
    let mut rollback: Rollback<NamedTempFile> = Rollback::default();
    let path = fx.new_file(0);
    match add_new_dir(&mut rollback, &path) {
        Err(Error::NotADir(item)) => assert_eq!(path, item),
        _ => panic!("Unexpected error"),
    }
}

#[test]
fn new_dir_refuses_the_empty_path() {
    let mut rollback: Rollback<NamedTempFile> = Rollback::default();
    match rollback.new_dir("", false) {
        Err(Error::NotADir(item)) => assert_eq!(item, ""),
        _ => panic!("Unexpected error"),
    }
}

#[test]
fn new_dir_accepts_two_spellings_of_one_directory() {
    let mut rollback: Rollback<NamedTempFile> = Rollback::default();
    assert!(rollback.new_dir("x", false).is_ok());
    assert!(rollback.new_dir("./x", false).is_ok());
    assert!(rollback.new_dirs_len() == 2);
}

#[test]
fn get_noted_file_works() {
    let fx = Fixture::new(1);
    let mut rollback = Rollback::default();
    note(&mut rollback, &fx.existing(0), Some(&fx.existing[0])).unwrap();
    assert!(rollback.get_noted_file(&fx.existing(0)).is_some());
    assert!(rollback.get_noted_file("something").is_none());
}

#[test]
fn get_noted_file_works_with_different_path_representation() {
    let fx = Fixture::new(1);
    let mut rollback = Rollback::default();
    let path = fx.existing(0);
    note(&mut rollback, &path, Some(&fx.existing[0])).unwrap();
    let name = Path::new(&path).file_name().unwrap().to_str().unwrap().to_string();
    let alias = format!("{}/./{}", fx.dir.path().to_str().unwrap(), name);
    let direct = rollback.get_noted_file(&path).map(|t| t.path().to_path_buf());
    let aliased = rollback.get_noted_file(&alias).map(|t| t.path().to_path_buf());
    assert!(aliased.is_some());
    assert_eq!(direct, aliased);
}

#[test]
fn get_new_file_works() {
    let fx = Fixture::new(1);
    let mut rollback = Rollback::default();
    add_new_file(&mut rollback, &fx.new_file(0)).unwrap();
    assert!(rollback.get_new_file(&fx.new_file(0)).is_some());
    assert!(rollback.get_new_file("something").is_none());
}

#[test]
fn get_new_file_matches_the_exact_string_only() {
    let mut rollback: Rollback<String> = Rollback::default();
    rollback.new_file("a/b.txt", false, || Ok(String::from("staging"))).unwrap();
    assert_eq!(rollback.get_new_file("a/b.txt"), Some(&String::from("staging")));
    assert!(rollback.get_new_file("./a/b.txt").is_none());
}

#[test]
fn staging_files_are_removed_with_the_session() {
    let fx = Fixture::new(1);
    let target = fx.new_file(0);
    let staging_path;
    {
        let mut rollback = Rollback::default();
        add_new_file(&mut rollback, &target).unwrap();
        let staging = rollback.get_new_file(&target).unwrap();
        staging_path = staging.path().to_path_buf();
        assert!(staging_path.is_file());
        staging.as_file().write_all(MODIFIED_CONTENT.as_bytes()).unwrap();
        assert_eq!(content(staging), MODIFIED_CONTENT);
    }
    assert!(!Path::new(&target).exists());
    assert!(!staging_path.exists());
}

#[test]
fn path_shapes() {
    assert!(file_like("a/b.txt"));
    assert!(!file_like("a/b"));
    assert!(!file_like(""));
    assert!(dir_like("a/b"));
    assert!(!dir_like("a/b.txt"));
    assert!(!dir_like(""));
}

#[test]
fn backup_dir_is_the_anchored_parent() {
    assert_eq!(backup_dir("file.txt"), Some(String::from(".")));
    assert_eq!(backup_dir("a/b/file.txt"), Some(String::from("./a/b")));
    assert_eq!(backup_dir("/tmp/file.txt"), Some(String::from("/tmp")));
    assert_eq!(backup_dir("/"), None);
}
