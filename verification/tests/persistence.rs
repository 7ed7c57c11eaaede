use task_manager::errors::{FsError, IoOp};
use task_manager::greet;
use task_manager::paths::{is_under, join_under, parent_of, str_eq};
use task_manager::store::FileSystem;

#[test]
fn save_then_read_roundtrip() {
    let mut fs = FileSystem::new();
    let saved = fs.save_text_file("hello world", "/tmp/tm-test/notes/a.txt");
    assert!(saved.is_ok());
    let read = fs.read_text_file("/tmp/tm-test/notes/a.txt");
    assert_eq!(read.unwrap(), "hello world");
    assert!(fs.has_dir("/tmp"));
    assert!(fs.has_dir("/tmp/tm-test"));
    assert!(fs.has_dir("/tmp/tm-test/notes"));
}

#[test]
fn roundtrip_empty_content() {
    let mut fs = FileSystem::new();
    assert!(fs.save_text_file("", "empty.txt").is_ok());
    assert_eq!(fs.read_text_file("empty.txt").unwrap(), "");
}

#[test]
fn overwrite_leaves_only_new_content() {
    let mut fs = FileSystem::new();
    assert!(fs.save_text_file("first version", "notes/a.txt").is_ok());
    assert!(fs.save_text_file("second version", "notes/a.txt").is_ok());
    assert_eq!(fs.read_text_file("notes/a.txt").unwrap(), "second version");
}

#[test]
fn missing_file_read_fails() {
    let fs = FileSystem::new();
    let read = fs.read_text_file("/nowhere/a.txt");
    assert!(matches!(read, Err(FsError::Io(IoOp::ReadFile, _))));
}

#[test]
fn read_of_directory_fails() {
    let mut fs = FileSystem::new();
    assert!(fs.save_text_file("x", "a/b.txt").is_ok());
    assert!(fs.has_dir("a"));
    assert!(matches!(fs.read_text_file("a"), Err(FsError::Io(IoOp::ReadFile, _))));
}

#[test]
fn bare_filename_save_creates_no_directory() {
    let mut fs = FileSystem::new();
    assert!(fs.save_text_file("plain", "file.txt").is_ok());
    assert!(fs.has_file("file.txt"));
    assert!(!fs.has_dir("file.txt"));
    assert_eq!(fs.read_text_file("file.txt").unwrap(), "plain");
}

#[test]
fn file_on_chain_blocks_directory_creation() {
    let mut fs = FileSystem::new();
    assert!(fs.save_text_file("i am a file", "a").is_ok());
    let saved = fs.save_text_file("y", "a/b/c.txt");
    assert!(matches!(saved, Err(FsError::Io(IoOp::CreateDirectory, _))));
    assert!(!fs.has_dir("a/b"));
}

#[test]
fn existing_directory_blocks_file_creation() {
    let mut fs = FileSystem::new();
    assert!(fs.save_text_file("x", "a/b/c.txt").is_ok());
    let saved = fs.save_text_file("y", "a/b");
    assert!(matches!(saved, Err(FsError::Io(IoOp::CreateFile, _))));
    assert_eq!(fs.read_text_file("a/b/c.txt").unwrap(), "x");
}

#[test]
fn parent_that_is_a_file_blocks_file_creation() {
    let mut fs = FileSystem::new();
    assert!(fs.save_text_file("i am a file", "a").is_ok());
    let saved = fs.save_text_file("y", "a/b.txt");
    assert!(matches!(saved, Err(FsError::Io(IoOp::CreateFile, _))));
}

#[test]
fn resolver_without_platform_root_fails() {
    let mut fs = FileSystem::new();
    let r = fs.resolve_app_data_dir(None);
    match r {
        Err(e @ FsError::Platform(_)) => {
            assert_eq!(
                e.message(),
                "Failed to get platform resource: no data directory"
            );
        }
        other => panic!("expected a platform error, got {:?}", other),
    }
}

#[test]
fn resolver_with_undecodable_root_fails() {
    let mut fs = FileSystem::new();
    let r = fs.resolve_app_data_dir(Some(None));
    assert!(matches!(r, Err(FsError::Encoding(_))));
}

#[test]
fn resolver_creates_and_is_idempotent() {
    let mut fs = FileSystem::new();
    let first = fs.resolve_app_data_dir(Some(Some(String::from("/base"))));
    assert_eq!(first.unwrap(), "/base/task-manager");
    assert!(fs.has_dir("/base"));
    assert!(fs.has_dir("/base/task-manager"));
    let second = fs.resolve_app_data_dir(Some(Some(String::from("/base"))));
    assert_eq!(second.unwrap(), "/base/task-manager");
}

#[test]
fn resolver_with_file_on_chain_fails() {
    let mut fs = FileSystem::new();
    assert!(fs.save_text_file("i am a file", "/base").is_ok());
    let r = fs.resolve_app_data_dir(Some(Some(String::from("/base/sub"))));
    assert!(matches!(r, Err(FsError::Io(IoOp::CreateDirectory, _))));
}

#[test]
fn resolver_fails_when_file_occupies_target() {
    let mut fs = FileSystem::new();
    assert!(fs.save_text_file("occupied", "/base/task-manager").is_ok());
    let r = fs.resolve_app_data_dir(Some(Some(String::from("/base"))));
    assert!(matches!(r, Err(FsError::Io(IoOp::CreateDirectory, _))));
    assert!(!fs.has_dir("/base/task-manager"));
    assert_eq!(fs.read_text_file("/base/task-manager").unwrap(), "occupied");
}

#[test]
fn error_messages_name_the_failed_operation() {
    let cases = [
        (IoOp::CreateDirectory, "Failed to create directory: boom"),
        (IoOp::CreateFile, "Failed to create file: boom"),
        (IoOp::WriteFile, "Failed to write file: boom"),
        (IoOp::ReadFile, "Failed to read file: boom"),
    ];
    for (op, expected) in cases {
        let e = FsError::Io(op, String::from("boom"));
        assert_eq!(e.message(), expected);
    }
    let p = FsError::Platform(String::from("boom"));
    assert_eq!(p.message(), "Failed to get platform resource: boom");
    let enc = FsError::Encoding(String::from("boom"));
    assert_eq!(enc.message(), "Failed to decode text: boom");
}

#[test]
fn parent_of_splits_at_the_last_separator() {
    assert_eq!(parent_of("a.txt"), None);
    assert_eq!(parent_of("/a.txt").unwrap(), "/");
    assert_eq!(parent_of("a/b/c").unwrap(), "a/b");
    assert_eq!(parent_of("/tmp/x.txt").unwrap(), "/tmp");
    assert_eq!(parent_of("/tmp/tm-test/notes/a.txt").unwrap(), "/tmp/tm-test/notes");
}

#[test]
fn join_under_adds_one_separator() {
    assert_eq!(join_under("/base", "task-manager"), "/base/task-manager");
    assert_eq!(join_under("", "x"), "/x");
}

#[test]
fn confinement_test_follows_component_boundaries() {
    assert!(is_under("/base", "/base"));
    assert!(is_under("/base", "/base/task-manager/notes.txt"));
    assert!(!is_under("/base", "/basement/notes.txt"));
    assert!(!is_under("/base", "/other/notes.txt"));
    assert!(!is_under("", "/base"));
}

#[test]
fn str_eq_compares_by_content() {
    assert!(str_eq("abc", "abc"));
    assert!(!str_eq("abc", "abd"));
    assert!(!str_eq("abc", "ab"));
    assert!(str_eq("", ""));
}

#[test]
fn greeting_embeds_the_name() {
    assert_eq!(greet("World"), "Hello, World! You've been greeted from Rust!");
}
