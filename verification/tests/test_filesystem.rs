use std::sync::Arc;
use std::sync::Mutex;

use extendable_assets::filesystem::{embedded_file_result, normalize_root_dir};
use extendable_assets::{
    EmbedFilesystem, EmbedFilesystemProvider, FallbackFilesystem, Filesystem, FilesystemError,
};

/// Provider over a fixed set of in-memory files.
struct TestEmbedFsProvider;
impl EmbedFilesystemProvider for TestEmbedFsProvider {
    fn get(&self, path: &str) -> Option<Vec<u8>> {
        match path {
            "test_data_0/hello.txt" => Some(b"Hello world\n".to_vec()),
            "test_data_1/hello.txt" => Some(b"Hello earth\n".to_vec()),
            _ => None,
        }
    }
}

#[test]
fn embed_read_bytes() {
    let fs: Arc<dyn Filesystem> = Arc::new(EmbedFilesystem::new(Box::new(TestEmbedFsProvider)));
    let greeting = fs.read_bytes("test_data_0/hello.txt").unwrap();
    assert_eq!(greeting, b"Hello world\n");
}

#[test]
fn read_bytes_with_root() {
    let fs: Arc<dyn Filesystem> = Arc::new(
        EmbedFilesystem::new(Box::new(TestEmbedFsProvider)).with_root_dir("test_data_1///"),
    );
    let greeting = fs.read_bytes("hello.txt").unwrap();
    assert_eq!(greeting, b"Hello earth\n");
}

#[test]
fn embed_not_found_reports_prefixed_path() {
    let fs = EmbedFilesystem::new(Box::new(TestEmbedFsProvider)).with_root_dir("test_data_1\\/");
    match fs.read_bytes("missing.txt") {
        Err(FilesystemError::NotFound(p)) => assert_eq!(p, "test_data_1/missing.txt"),
        _ => panic!("expected NotFound"),
    }
    match fs.write_bytes("x", b"y") {
        Err(FilesystemError::WriteUnsupported) => {},
        _ => panic!("expected WriteUnsupported"),
    }
}

#[test]
fn root_dir_normalization() {
    assert_eq!(normalize_root_dir(""), "");
    assert_eq!(normalize_root_dir("assets"), "assets/");
    assert_eq!(normalize_root_dir("assets/"), "assets/");
    assert_eq!(normalize_root_dir("assets\\\\//"), "assets/");
    assert_eq!(normalize_root_dir("///"), "/");
    assert_eq!(normalize_root_dir("a/b/c"), "a/b/c/");
    assert_eq!(normalize_root_dir("ü/"), "ü/");
    let once = normalize_root_dir("x//");
    assert_eq!(normalize_root_dir(&once), once);
}

/// A filesystem that records the calls it receives and answers from a fixed
/// set of files; writes succeed only when `writable`.
struct RecordingFs {
    files: Vec<(String, Vec<u8>)>,
    writable: bool,
    calls: Mutex<Vec<String>>,
}
impl Filesystem for RecordingFs {
    fn read_bytes(&self, asset_path: &str) -> Result<Vec<u8>, FilesystemError> {
        self.calls.lock().unwrap().push(format!("read {}", asset_path));
        for (p, b) in &self.files {
            if p == asset_path {
                return Ok(b.clone());
            }
        }
        Err(FilesystemError::Other("no such file".to_string()))
    }
    fn write_bytes(&self, asset_path: &str, _data: &[u8]) -> Result<(), FilesystemError> {
        self.calls.lock().unwrap().push(format!("write {}", asset_path));
        if self.writable {
            Ok(())
        } else {
            Err(FilesystemError::WriteUnsupported)
        }
    }
}

fn recording(files: &[(&str, &[u8])], writable: bool) -> Arc<RecordingFs> {
    Arc::new(RecordingFs {
        files: files.iter().map(|(p, b)| (p.to_string(), b.to_vec())).collect(),
        writable,
        calls: Mutex::new(Vec::new()),
    })
}

#[test]
fn fallback_reads_first_success_in_order() {
    let a = recording(&[("x", b"from a")], false);
    let b = recording(&[("x", b"from b"), ("y", b"only b")], true);
    let fs = FallbackFilesystem::new(vec![a.clone(), b.clone()]);
    assert_eq!(fs.read_bytes("x").unwrap(), b"from a");
    assert_eq!(b.calls.lock().unwrap().len(), 0);
    assert_eq!(fs.read_bytes("y").unwrap(), b"only b");
    assert_eq!(*a.calls.lock().unwrap(), vec!["read x".to_string(), "read y".to_string()]);
}

#[test]
fn fallback_all_fail_is_not_found() {
    let a = recording(&[], false);
    let fs = FallbackFilesystem::new(vec![a]);
    match fs.read_bytes("nothing/here") {
        Err(FilesystemError::NotFound(p)) => assert_eq!(p, "nothing/here"),
        _ => panic!("expected NotFound"),
    }
    let empty = FallbackFilesystem::new(Vec::new());
    match empty.read_bytes("z") {
        Err(FilesystemError::NotFound(p)) => assert_eq!(p, "z"),
        _ => panic!("expected NotFound"),
    }
}

#[test]
fn fallback_write_stops_at_first_success() {
    let a = recording(&[], false);
    let b = recording(&[], true);
    let c = recording(&[], true);
    let fs = FallbackFilesystem::new(vec![a.clone(), b.clone(), c.clone()]);
    assert!(fs.write_bytes("out", b"data").is_ok());
    assert_eq!(a.calls.lock().unwrap().len(), 1);
    assert_eq!(b.calls.lock().unwrap().len(), 1);
    assert_eq!(c.calls.lock().unwrap().len(), 0);

    let none = FallbackFilesystem::new(vec![a]);
    match none.write_bytes("out", b"data") {
        Err(FilesystemError::WriteUnsupported) => {},
        _ => panic!("expected WriteUnsupported"),
    }
}

#[test]
fn filesystem_error_messages() {
    assert_eq!(FilesystemError::NotFound("a/b".to_string()).message(), "Asset not found: a/b");
    assert_eq!(
        FilesystemError::WriteUnsupported.message(),
        "Writing is unsupported on this filesystem"
    );
    assert_eq!(FilesystemError::Other("boom".to_string()).message(), "boom");
    let io = FilesystemError::Io(std::io::Error::new(std::io::ErrorKind::Other, "disk"));
    assert_eq!(io.message(), "I/O: disk");
}

#[test]
fn embedded_file_result_maps_provider_answer() {
    assert_eq!(embedded_file_result("a/b".to_string(), Some(vec![1, 2])).unwrap(), vec![1, 2]);
    match embedded_file_result("a/b".to_string(), None) {
        Err(FilesystemError::NotFound(p)) => assert_eq!(p, "a/b"),
        _ => panic!("expected NotFound"),
    }
}
