//! Filesystems that assets are read from and written to: the abstraction,
//! a filesystem that tries several others in order, and a filesystem over
//! files embedded in the binary.
use vstd::prelude::*;
use std::sync::Arc;
use vstd::std_specs::convert::FromSpecImpl;

verus! {

/// `std::io::Error`, carried opaquely by `FilesystemError::Io`.
#[verifier::external_type_specification]
#[verifier::external_body]
pub struct ExIoError(std::io::Error);

/// Errors that can occur during filesystem operations.
#[derive(Debug)]
#[non_exhaustive]
pub enum FilesystemError {
    /// Standard I/O error occurred.
    Io(std::io::Error),
    /// Writing operations are not supported by this filesystem implementation.
    WriteUnsupported,
    /// The requested asset file was not found.
    NotFound(String),
    /// Any other filesystem-related error.
    Other(String),
}

impl From<std::io::Error> for FilesystemError {
    fn from(e: std::io::Error) -> (r: Self) {
        FilesystemError::Io(e)
    }
}

impl FromSpecImpl<std::io::Error> for FilesystemError {
    open spec fn obeys_from_spec() -> bool {
        true
    }

    open spec fn from_spec(e: std::io::Error) -> Self {
        FilesystemError::Io(e)
    }
}

/// The message of a filesystem error; for `Io`, only its prefix (the rest is
/// the I/O error's own text).
pub open spec fn filesystem_error_message(e: FilesystemError) -> Seq<char> {
    match e {
        FilesystemError::Io(_) => "I/O: "@,
        FilesystemError::WriteUnsupported => "Writing is unsupported on this filesystem"@,
        FilesystemError::NotFound(p) => "Asset not found: "@ + p@,
        FilesystemError::Other(m) => m@,
    }
}

/// Calls `<std::io::Error as ToString>::to_string`. Nothing is stated of the
/// text, which comes from the operating system for OS errors.
#[verifier::external_body]
fn io_error_text(e: &std::io::Error) -> String {
    e.to_string()
}

impl FilesystemError {
    /// The message describing this error. For `Io`, the message is `I/O: `
    /// followed by the I/O error's own text.
    pub fn message(&self) -> (r: String)
        ensures
            self is Io ==> r@.take(5) == filesystem_error_message(*self),
            !(self is Io) ==> r@ == filesystem_error_message(*self),
    {
        match self {
            FilesystemError::Io(e) => {
                proof {
                    reveal_strlit("I/O: ");
                }
                let mut r = String::from_str("I/O: ");
                let text = io_error_text(e);
                r.append(text.as_str());
                assert(r@.take(5) =~= "I/O: "@);
                r
            },
            FilesystemError::WriteUnsupported => String::from_str(
                "Writing is unsupported on this filesystem",
            ),
            FilesystemError::NotFound(p) => {
                proof {
                    reveal_strlit("Asset not found: ");
                }
                let mut r = String::from_str("Asset not found: ");
                r.append(p.as_str());
                r
            },
            FilesystemError::Other(m) => m.clone(),
        }
    }
}

/// Abstraction for reading files from different storage backends.
///
/// This trait allows the asset system to work with different filesystem
/// implementations, such as native filesystem, network storage, or embedded assets.
pub trait Filesystem: Send + Sync {
    /// Whether `r` is an answer this filesystem may give when asked to read
    /// `asset_path`. Implementations in verified code define it; for others
    /// it stands for the answers their `read_bytes` gives.
    closed spec fn spec_reads(&self, asset_path: Seq<char>, r: Result<Vec<u8>, FilesystemError>) -> bool {
        arbitrary::<spec_fn(&Self, Seq<char>, Result<Vec<u8>, FilesystemError>) -> bool>()(self, asset_path, r)
    }

    /// Reads the contents of an asset file as raw bytes.
    fn read_bytes(&self, asset_path: &str) -> (r: Result<Vec<u8>, FilesystemError>)
        ensures
            self.spec_reads(asset_path@, r),
    ;

    /// Whether `r` is an answer this filesystem may give when asked to write
    /// `data` to `asset_path`. Implementations in verified code define it;
    /// for others it stands for the answers their `write_bytes` gives.
    closed spec fn spec_writes(&self, asset_path: Seq<char>, data: Seq<u8>, r: Result<(), FilesystemError>) -> bool {
        arbitrary::<spec_fn(&Self, Seq<char>, Seq<u8>, Result<(), FilesystemError>) -> bool>()(self, asset_path, data, r)
    }

    /// Writes raw bytes to an asset file.
    ///
    /// A filesystem that does not support writing answers `WriteUnsupported`
    /// (see `refuses_write`).
    fn write_bytes(&self, asset_path: &str, data: &[u8]) -> (r: Result<(), FilesystemError>)
        ensures
            self.spec_writes(asset_path@, data@, r),
    ;
}

/// The answer of a filesystem that does not support writing.
pub open spec fn refuses_write(r: Result<(), FilesystemError>) -> bool {
    r matches Err(FilesystemError::WriteUnsupported)
}

/// Whether the filesystem `fs[j]` may fail to read `asset_path`.
pub open spec fn may_fail_read(fs: Seq<Arc<dyn Filesystem>>, j: int, asset_path: Seq<char>) -> bool {
    exists|e: FilesystemError| #[trigger] fs[j].spec_reads(asset_path, Err(e))
}

/// Whether the filesystem `fs[j]` may fail to write `data` to `asset_path`.
pub open spec fn may_fail_write(fs: Seq<Arc<dyn Filesystem>>, j: int, asset_path: Seq<char>, data: Seq<u8>) -> bool {
    exists|e: FilesystemError| #[trigger] fs[j].spec_writes(asset_path, data, Err(e))
}

/// The answers a `FallbackFilesystem` over `fs` may give to a read of
/// `asset_path`: the bytes that some filesystem `fs[i]` may give, where
/// every earlier filesystem may fail; or, when every filesystem may fail,
/// `NotFound(asset_path)`.
pub open spec fn fallback_reads(fs: Seq<Arc<dyn Filesystem>>, asset_path: Seq<char>, r: Result<Vec<u8>, FilesystemError>) -> bool {
    match r {
        Ok(_) => exists|i: int|
            0 <= i < fs.len() && #[trigger] fs[i].spec_reads(asset_path, r)
                && forall|j: int| 0 <= j < i ==> #[trigger] may_fail_read(fs, j, asset_path),
        Err(_) => is_not_found_for(r, asset_path)
            && forall|j: int| 0 <= j < fs.len() ==> #[trigger] may_fail_read(fs, j, asset_path),
    }
}

/// The answers a `FallbackFilesystem` over `fs` may give to a write: `Ok`
/// when some filesystem `fs[i]` may accept the write, where every earlier
/// filesystem may fail on it; or, when every filesystem may fail on it,
/// `WriteUnsupported`.
pub open spec fn fallback_writes(fs: Seq<Arc<dyn Filesystem>>, asset_path: Seq<char>, data: Seq<u8>, r: Result<(), FilesystemError>) -> bool {
    match r {
        Ok(_) => exists|i: int|
            0 <= i < fs.len() && #[trigger] fs[i].spec_writes(asset_path, data, r)
                && forall|j: int| 0 <= j < i ==> #[trigger] may_fail_write(fs, j, asset_path, data),
        Err(_) => r matches Err(FilesystemError::WriteUnsupported)
            && forall|j: int| 0 <= j < fs.len() ==> #[trigger] may_fail_write(fs, j, asset_path, data),
    }
}

/// Whether `r` is the `NotFound` error for `path`.
pub open spec fn is_not_found_for<T>(r: Result<T, FilesystemError>, path: Seq<char>) -> bool {
    r matches Err(FilesystemError::NotFound(p)) && p@ == path
}

/// A filesystem implementation that tries multiple fallback filesystems in order.
///
/// This is useful for layered asset loading where assets might be located in
/// different locations (e.g., first a mod directory, then the base game assets).
pub struct FallbackFilesystem {
    /// Ordered list of filesystem implementations to try.
    fallbacks: Vec<Arc<dyn Filesystem>>,
}

impl FallbackFilesystem {
    /// The filesystems that are tried, in order.
    pub closed spec fn spec_fallbacks(&self) -> Seq<Arc<dyn Filesystem>> {
        self.fallbacks@
    }

    /// Creates a new `FallbackFilesystem` with the given list of fallback filesystems.
    ///
    /// The filesystems will be tried in the order they appear in the vector.
    /// Earlier filesystems have priority over later ones.
    pub fn new(fallbacks: Vec<Arc<dyn Filesystem>>) -> (r: Self)
        ensures
            r.spec_fallbacks() == fallbacks@,
    {
        FallbackFilesystem { fallbacks }
    }
}

impl Filesystem for FallbackFilesystem {
    closed spec fn spec_reads(&self, asset_path: Seq<char>, r: Result<Vec<u8>, FilesystemError>) -> bool {
        fallback_reads(self.fallbacks@, asset_path, r)
    }

    /// Tries each filesystem in order and returns the bytes of the first read
    /// that succeeds; `NotFound(asset_path)` when every read fails.
    fn read_bytes(&self, asset_path: &str) -> (r: Result<Vec<u8>, FilesystemError>)
        ensures
            fallback_reads(self.spec_fallbacks(), asset_path@, r),
    {
        let mut i: usize = 0;
        while i < self.fallbacks.len()
            invariant
                i <= self.fallbacks@.len(),
                forall|j: int| 0 <= j < i ==> #[trigger] may_fail_read(self.fallbacks@, j, asset_path@),
            decreases self.fallbacks@.len() - i,
        {
            let f: &Arc<dyn Filesystem> = &self.fallbacks[i];
            let r = f.read_bytes(asset_path);
            if r.is_ok() {
                assert(self.fallbacks@[i as int].spec_reads(asset_path@, r));
                return r;
            }
            match &r {
                Err(e) => {
                    assert(self.fallbacks@[i as int].spec_reads(asset_path@, Err(*e)));
                },
                Ok(_) => {},
            }
            i = i + 1;
        }
        Err(FilesystemError::NotFound(String::from_str(asset_path)))
    }

    closed spec fn spec_writes(&self, asset_path: Seq<char>, data: Seq<u8>, r: Result<(), FilesystemError>) -> bool {
        fallback_writes(self.fallbacks@, asset_path, data, r)
    }

    /// Tries each filesystem in order and stops at the first write that
    /// succeeds; `WriteUnsupported` when every write fails.
    fn write_bytes(&self, asset_path: &str, data: &[u8]) -> (r: Result<(), FilesystemError>)
        ensures
            fallback_writes(self.spec_fallbacks(), asset_path@, data@, r),
    {
        let mut i: usize = 0;
        while i < self.fallbacks.len()
            invariant
                i <= self.fallbacks@.len(),
                forall|j: int| 0 <= j < i ==> #[trigger] may_fail_write(self.fallbacks@, j, asset_path@, data@),
            decreases self.fallbacks@.len() - i,
        {
            let f: &Arc<dyn Filesystem> = &self.fallbacks[i];
            let r = f.write_bytes(asset_path, data);
            if r.is_ok() {
                assert(self.fallbacks@[i as int].spec_writes(asset_path@, data@, r));
                return r;
            }
            match &r {
                Err(e) => {
                    assert(self.fallbacks@[i as int].spec_writes(asset_path@, data@, Err(*e)));
                },
                Ok(_) => {},
            }
            i = i + 1;
        }
        Err(FilesystemError::WriteUnsupported)
    }
}

/// Trait for providing access to embedded files: the bytes of the file at
/// `path`, or `None` if there is none.
pub trait EmbedFilesystemProvider: Send + Sync {
    /// The embedded files, by path. Implementations in verified code define
    /// it; for others it stands for the files their `get` serves.
    closed spec fn spec_files(&self) -> Map<Seq<char>, Seq<u8>> {
        arbitrary::<spec_fn(&Self) -> Map<Seq<char>, Seq<u8>>>()(self)
    }

    /// Retrieves the bytes of an embedded file by its path.
    fn get(&self, path: &str) -> (r: Option<Vec<u8>>)
        ensures
            self.spec_files().contains_key(path@) ==> (r matches Some(b) && b@ == self.spec_files()[path@]),
            !self.spec_files().contains_key(path@) ==> r is None,
    ;
}

/// What `EmbedFilesystem::read_bytes` answers when the embedded files are
/// `files` and the looked-up (prefixed) path is `key`: the file's bytes, or
/// `NotFound(key)`.
pub open spec fn embedded_read(files: Map<Seq<char>, Seq<u8>>, key: Seq<char>, r: Result<Vec<u8>, FilesystemError>) -> bool {
    if files.contains_key(key) {
        r matches Ok(b) && b@ == files[key]
    } else {
        is_not_found_for(r, key)
    }
}

/// Path separators that `EmbedFilesystem::with_root_dir` strips from the end
/// of a root directory.
pub open spec fn is_separator(c: char) -> bool {
    c == '/' || c == '\\'
}

/// `s` without its trailing path separators.
pub open spec fn trim_trailing_separators(s: Seq<char>) -> Seq<char>
    decreases s.len(),
{
    if s.len() > 0 && is_separator(s.last()) {
        trim_trailing_separators(s.drop_last())
    } else {
        s
    }
}

/// The root directory that `with_root_dir(root_dir)` sets: empty for an
/// empty argument, else the argument without trailing separators and with
/// one `/` appended.
pub open spec fn normalized_root_dir(root_dir: Seq<char>) -> Seq<char> {
    if root_dir.len() == 0 {
        seq![]
    } else {
        trim_trailing_separators(root_dir) + seq!['/']
    }
}

/// A filesystem implementation that reads from embedded files.
///
/// This filesystem provides read-only access to files that have been embedded
/// into the binary at compile time.
pub struct EmbedFilesystem {
    /// The provider that handles access to the embedded files (held in a
    /// 1-tuple, which moves without an unsizing coercion)
    provider: (Box<dyn EmbedFilesystemProvider>,),
    /// Root directory prefix prepended to all file paths: empty, or ending in `/`.
    root_dir: String,
}

impl EmbedFilesystem {
    /// The prefix of every looked-up path.
    pub closed spec fn spec_root_dir(&self) -> Seq<char> {
        self.root_dir@
    }

    /// The provider of the embedded files.
    pub closed spec fn spec_provider(&self) -> (Box<dyn EmbedFilesystemProvider>,) {
        self.provider
    }

    /// Creates a new embedded filesystem with the given provider.
    pub fn new(provider: Box<dyn EmbedFilesystemProvider>) -> (r: Self)
        ensures
            r.spec_provider().0 == provider,
            r.spec_root_dir() == Seq::<char>::empty(),
    {
        let held = (provider,);
        EmbedFilesystem { provider: held, root_dir: String::new() }
    }

    /// Sets the root directory for this filesystem.
    ///
    /// When a root directory is set, all file path lookups will be prefixed
    /// with this directory path. Trailing slashes and backslashes are
    /// normalized to a single `/`.
    pub fn with_root_dir(self, root_dir: &str) -> (r: Self)
        ensures
            r.spec_provider() == self.spec_provider(),
            r.spec_root_dir() == normalized_root_dir(root_dir@),
    {
        let mut fs = self;
        fs.root_dir = normalize_root_dir(root_dir);
        fs
    }
}

/// The root directory that `EmbedFilesystem::with_root_dir` sets for `root_dir`.
pub fn normalize_root_dir(root_dir: &str) -> (r: String)
    ensures
        r@ == normalized_root_dir(root_dir@),
{
    if root_dir.is_empty() {
        return String::new();
    }
    let n = root_dir.unicode_len();
    let mut end: usize = n;
    assert(root_dir@.take(n as int) =~= root_dir@);
    loop
        invariant
            end <= n,
            n == root_dir@.len(),
            trim_trailing_separators(root_dir@) == trim_trailing_separators(
                root_dir@.take(end as int),
            ),
        ensures
            trim_trailing_separators(root_dir@) == root_dir@.take(end as int),
        decreases end,
    {
        if end == 0 {
            break;
        }
        let c = root_dir.get_char(end - 1);
        if !(c == '/' || c == '\\') {
            break;
        }
        assert(root_dir@.take(end as int).drop_last() =~= root_dir@.take(end - 1));
        end = end - 1;
    }
    let trimmed = root_dir.substring_char(0, end);
    let mut r = String::from_str(trimmed);
    proof {
        reveal_strlit("/");
    }
    r.append("/");
    r
}

/// Trimming trailing separators twice trims nothing more.
pub proof fn lemma_trim_idempotent(s: Seq<char>)
    ensures
        trim_trailing_separators(trim_trailing_separators(s)) == trim_trailing_separators(s),
    decreases s.len(),
{
    if s.len() > 0 && is_separator(s.last()) {
        lemma_trim_idempotent(s.drop_last());
    }
}

/// Trimming removes a run of trailing `/` and `\\` characters: what is left
/// is a prefix that does not end in one, and everything after it is one.
proof fn lemma_trim_shape(s: Seq<char>)
    ensures
        trim_trailing_separators(s) == s.take(trim_trailing_separators(s).len() as int),
        trim_trailing_separators(s).len() <= s.len(),
        forall|i: int|
            trim_trailing_separators(s).len() <= i < s.len() ==> (#[trigger] s[i] == '/' || s[i] == '\\'),
        trim_trailing_separators(s).len() > 0 ==> (s[trim_trailing_separators(s).len() - 1] != '/'
            && s[trim_trailing_separators(s).len() - 1] != '\\'),
    decreases s.len(),
{
    if s.len() > 0 && is_separator(s.last()) {
        lemma_trim_shape(s.drop_last());
        let t = trim_trailing_separators(s.drop_last());
        assert(s.drop_last().take(t.len() as int) =~= s.take(t.len() as int));
        assert forall|i: int| t.len() <= i < s.len() implies (#[trigger] s[i] == '/' || s[i] == '\\') by {
            if i < s.len() - 1 {
                assert(s[i] == s.drop_last()[i]);
            }
        }
        if t.len() > 0 {
            assert(s[t.len() - 1] == s.drop_last()[t.len() - 1]);
        }
    } else {
        assert(s.take(s.len() as int) =~= s);
    }
}

/// Law: `with_root_dir` keeps an empty root directory empty; otherwise it
/// keeps the root directory up to its last character that is neither `/`
/// nor `\\`, and ends it with a single `/`.
pub proof fn law_root_dir_shape(root_dir: Seq<char>)
    ensures
        root_dir.len() == 0 ==> normalized_root_dir(root_dir) == Seq::<char>::empty(),
        root_dir.len() > 0 ==> exists|k: int|
            0 <= k <= root_dir.len() && normalized_root_dir(root_dir) == root_dir.take(k) + seq!['/']
                && (forall|i: int| k <= i < root_dir.len() ==> (#[trigger] root_dir[i] == '/' || root_dir[i]
                == '\\')) && (k > 0 ==> (root_dir[k - 1] != '/' && root_dir[k - 1] != '\\')),
{
    if root_dir.len() > 0 {
        lemma_trim_shape(root_dir);
        let k = trim_trailing_separators(root_dir).len() as int;
        assert(normalized_root_dir(root_dir) == root_dir.take(k) + seq!['/']);
    }
}

/// Law: normalizing a root directory that `with_root_dir` produced leaves it
/// unchanged.
pub proof fn law_normalized_root_dir_idempotent(root_dir: Seq<char>)
    ensures
        normalized_root_dir(normalized_root_dir(root_dir)) == normalized_root_dir(root_dir),
{
    if root_dir.len() > 0 {
        let t = trim_trailing_separators(root_dir);
        let n = t + seq!['/'];
        assert(n.drop_last() =~= t);
        lemma_trim_idempotent(root_dir);
    }
}

/// What `EmbedFilesystem::read_bytes` returns for the prefixed path it
/// looked up and what the provider returned for it: the file's bytes, or
/// `NotFound` with the prefixed path.
pub fn embedded_file_result(prefixed_path: String, found: Option<Vec<u8>>) -> (r: Result<
    Vec<u8>,
    FilesystemError,
>)
    ensures
        match found {
            Some(bytes) => r matches Ok(b) && b@ == bytes@,
            None => is_not_found_for(r, prefixed_path@),
        },
{
    match found {
        Some(bytes) => Ok(bytes),
        None => Err(FilesystemError::NotFound(prefixed_path)),
    }
}

impl Filesystem for EmbedFilesystem {
    closed spec fn spec_reads(&self, asset_path: Seq<char>, r: Result<Vec<u8>, FilesystemError>) -> bool {
        embedded_read(self.provider.0.spec_files(), self.root_dir@ + asset_path, r)
    }

    /// Reads the embedded file at the root directory followed by `asset_path`;
    /// `NotFound` with that prefixed path if the provider has no such file.
    fn read_bytes(&self, asset_path: &str) -> (r: Result<Vec<u8>, FilesystemError>)
        ensures
            embedded_read(self.spec_provider().0.spec_files(), self.spec_root_dir() + asset_path@, r),
    {
        let mut prefixed_path = self.root_dir.clone();
        prefixed_path.append(asset_path);
        let found = self.provider.0.get(prefixed_path.as_str());
        embedded_file_result(prefixed_path, found)
    }

    closed spec fn spec_writes(&self, asset_path: Seq<char>, data: Seq<u8>, r: Result<(), FilesystemError>) -> bool {
        refuses_write(r)
    }

    /// Embedded files are read-only: answers `WriteUnsupported`.
    fn write_bytes(&self, asset_path: &str, data: &[u8]) -> (r: Result<(), FilesystemError>)
        ensures
            refuses_write(r),
    {
        Err(FilesystemError::WriteUnsupported)
    }
}

} // verus!
