//! Core of a clipboard-history manager: a log-structured local store and a
//! last-writer-wins operation log that replicates it between devices.
//!
//! Nothing in this crate touches a file, a socket or the clipboard; the
//! caller does, and tells the engines what it has read and written.
//!
//! - `record` frames the records of the local log; `storage` holds the
//!   index that follows the log, its recovery and its compaction.
//! - `oplog` holds the shared items, the operations on them, their order
//!   and the rule by which they are merged; `sync` holds the engine that
//!   reconciles a device with the shared log.
//! - `adapters` passes items between the two; `storage_adapter` holds the
//!   configuration of the remote store.
//! - `instant`, `ids`, `keyed`, `sorting` and `text` serve the others.
//!
//! The functions of this file serve the watcher of the clipboard: they
//! tell what kind of file a path names, and when the clipboard holds
//! something new.

pub mod adapters;
pub mod ids;
pub mod instant;
pub mod keyed;
pub mod oplog;
pub mod record;
pub mod sorting;
pub mod storage;
pub mod storage_adapter;
pub mod sync;
pub mod text;

use vstd::prelude::*;
use vstd::string::*;
use vstd::utf8::encode_utf8;
use crate::ids::fresh_id;
use crate::storage::{clone_strings, ClipboardItem, FileTypeInfo};
use crate::storage_adapter::{ConfigView, StorageBackend, StorageConfig};
use crate::sync::{SyncConfig, SyncEngine, SyncPhase, SyncStatus, DEFAULT_SYNC_INTERVAL_SECONDS};
use crate::text::{has_prefix, str_eq, str_starts_with};

verus! {

/// The text `s` begins with the text `prefix`, both taken as UTF-8.
pub open spec fn begins_with(s: Seq<char>, prefix: Seq<char>) -> bool {
    has_prefix(encode_utf8(s), encode_utf8(prefix))
}

/// The MIME type that is guessed for a file of the extension `extension`.
pub open spec fn mime_of(extension: Seq<char>) -> Seq<char> {
    if extension == "txt"@ {
        "text/plain"@
    } else if extension == "pdf"@ {
        "application/pdf"@
    } else if extension == "doc"@ || extension == "docx"@ {
        "application/msword"@
    } else if extension == "xls"@ || extension == "xlsx"@ {
        "application/vnd.ms-excel"@
    } else if extension == "ppt"@ || extension == "pptx"@ {
        "application/vnd.ms-powerpoint"@
    } else if extension == "zip"@ {
        "application/zip"@
    } else if extension == "rar"@ {
        "application/x-rar-compressed"@
    } else if extension == "7z"@ {
        "application/x-7z-compressed"@
    } else if extension == "jpg"@ || extension == "jpeg"@ {
        "image/jpeg"@
    } else if extension == "png"@ {
        "image/png"@
    } else if extension == "gif"@ {
        "image/gif"@
    } else if extension == "mp4"@ {
        "video/mp4"@
    } else if extension == "mp3"@ {
        "audio/mpeg"@
    } else if extension == "wav"@ {
        "audio/wav"@
    } else if extension == "html"@ || extension == "htm"@ {
        "text/html"@
    } else if extension == "css"@ {
        "text/css"@
    } else if extension == "js"@ {
        "application/javascript"@
    } else if extension == "json"@ {
        "application/json"@
    } else if extension == "xml"@ {
        "application/xml"@
    } else {
        "application/octet-stream"@
    }
}

/// The extension is one of those of plain text.
pub open spec fn is_text_extension(e: Seq<char>) -> bool {
    e == "txt"@ || e == "md"@ || e == "csv"@ || e == "log"@
}

/// The extension is one of those of office documents.
pub open spec fn is_document_extension(e: Seq<char>) -> bool {
    e == "pdf"@ || e == "doc"@ || e == "docx"@ || e == "xls"@ || e == "xlsx"@ || e == "ppt"@
        || e == "pptx"@
}

/// The extension is one of those of archives.
pub open spec fn is_archive_extension(e: Seq<char>) -> bool {
    e == "zip"@ || e == "rar"@ || e == "7z"@ || e == "tar"@ || e == "gz"@ || e == "bz2"@
}

/// The extension is one of those of source code.
pub open spec fn is_code_extension(e: Seq<char>) -> bool {
    e == "js"@ || e == "ts"@ || e == "py"@ || e == "java"@ || e == "cpp"@ || e == "c"@ || e
        == "h"@ || e == "rs"@ || e == "go"@ || e == "php"@ || e == "rb"@ || e == "swift"@
}

/// The category of a file: by its MIME type where that says image, video,
/// audio or text, by its extension otherwise.
pub open spec fn category_of(extension: Seq<char>, mime_type: Seq<char>) -> Seq<char> {
    if begins_with(mime_type, "image/"@) {
        "image"@
    } else if begins_with(mime_type, "video/"@) {
        "video"@
    } else if begins_with(mime_type, "audio/"@) {
        "audio"@
    } else if begins_with(mime_type, "text/"@) || is_text_extension(extension) {
        "text"@
    } else if is_document_extension(extension) {
        "document"@
    } else if is_archive_extension(extension) {
        "archive"@
    } else if is_code_extension(extension) {
        "code"@
    } else {
        "other"@
    }
}

/// The MIME type that is guessed for a file of the extension `extension`.
pub fn guess_mime_by_extension(extension: &str) -> (mime: String)
    ensures
        mime@ == mime_of(extension@),
{
    let e = extension;
    if str_eq(e, "txt") {
        "text/plain".to_string()
    } else if str_eq(e, "pdf") {
        "application/pdf".to_string()
    } else if str_eq(e, "doc") || str_eq(e, "docx") {
        "application/msword".to_string()
    } else if str_eq(e, "xls") || str_eq(e, "xlsx") {
        "application/vnd.ms-excel".to_string()
    } else if str_eq(e, "ppt") || str_eq(e, "pptx") {
        "application/vnd.ms-powerpoint".to_string()
    } else if str_eq(e, "zip") {
        "application/zip".to_string()
    } else if str_eq(e, "rar") {
        "application/x-rar-compressed".to_string()
    } else if str_eq(e, "7z") {
        "application/x-7z-compressed".to_string()
    } else if str_eq(e, "jpg") || str_eq(e, "jpeg") {
        "image/jpeg".to_string()
    } else if str_eq(e, "png") {
        "image/png".to_string()
    } else if str_eq(e, "gif") {
        "image/gif".to_string()
    } else if str_eq(e, "mp4") {
        "video/mp4".to_string()
    } else if str_eq(e, "mp3") {
        "audio/mpeg".to_string()
    } else if str_eq(e, "wav") {
        "audio/wav".to_string()
    } else if str_eq(e, "html") || str_eq(e, "htm") {
        "text/html".to_string()
    } else if str_eq(e, "css") {
        "text/css".to_string()
    } else if str_eq(e, "js") {
        "application/javascript".to_string()
    } else if str_eq(e, "json") {
        "application/json".to_string()
    } else if str_eq(e, "xml") {
        "application/xml".to_string()
    } else {
        "application/octet-stream".to_string()
    }
}

/// The category of a file of the extension `extension` and the MIME type `mime_type`.
pub fn categorize_file(extension: &str, mime_type: &str) -> (category: String)
    ensures
        category@ == category_of(extension@, mime_type@),
{
    let e = extension;
    if str_starts_with(mime_type, "image/") {
        "image".to_string()
    } else if str_starts_with(mime_type, "video/") {
        "video".to_string()
    } else if str_starts_with(mime_type, "audio/") {
        "audio".to_string()
    } else if str_starts_with(mime_type, "text/") || str_eq(e, "txt") || str_eq(e, "md") || str_eq(
        e,
        "csv",
    ) || str_eq(e, "log") {
        "text".to_string()
    } else if str_eq(e, "pdf") || str_eq(e, "doc") || str_eq(e, "docx") || str_eq(e, "xls")
        || str_eq(e, "xlsx") || str_eq(e, "ppt") || str_eq(e, "pptx") {
        "document".to_string()
    } else if str_eq(e, "zip") || str_eq(e, "rar") || str_eq(e, "7z") || str_eq(e, "tar")
        || str_eq(e, "gz") || str_eq(e, "bz2") {
        "archive".to_string()
    } else if str_eq(e, "js") || str_eq(e, "ts") || str_eq(e, "py") || str_eq(e, "java")
        || str_eq(e, "cpp") || str_eq(e, "c") || str_eq(e, "h") || str_eq(e, "rs") || str_eq(
        e,
        "go",
    ) || str_eq(e, "php") || str_eq(e, "rb") || str_eq(e, "swift") {
        "code".to_string()
    } else {
        "other".to_string()
    }
}

/// The MIME type that the `infer` crate reads off the first bytes of a
/// file, where it knows their signature.
pub uninterp spec fn sniffed_mime(content: Seq<u8>) -> Option<Seq<char>>;

/// `s` in lower case, as the standard library makes it.
pub uninterp spec fn lowercased(s: Seq<char>) -> Seq<char>;

/// `s` without the white space at its two ends, as the standard library takes it off.
pub uninterp spec fn trimmed(s: Seq<char>) -> Seq<char>;

/// Wraps `infer::get`, followed by `Type::mime_type`.
#[verifier::external_body]
fn sniff_mime(content: &[u8]) -> (mime: Option<String>)
    ensures
        mime.deep_view() == sniffed_mime(content@),
{
    match infer::get(content) {
        Some(kind) => Some(kind.mime_type().to_string()),
        None => None,
    }
}

/// Wraps `std::path::Path::extension`: the extension of the file that
/// `file_path` names, `None` where it has none or one that is not UTF-8.
/// Nothing is promised of it: what separates the parts of a path depends on
/// the system.
#[verifier::external_body]
fn path_extension(file_path: &str) -> (extension: Option<String>) {
    match std::path::Path::new(file_path).extension() {
        Some(extension) => extension.to_str().map(|e| e.to_string()),
        None => None,
    }
}

/// Wraps `str::to_lowercase`.
#[verifier::external_body]
fn lowercase(s: &str) -> (lower: String)
    ensures
        lower@ == lowercased(s@),
{
    s.to_lowercase()
}

/// Wraps `str::trim`.
#[verifier::external_body]
fn trim(s: &str) -> (inner: String)
    ensures
        inner@ == trimmed(s@),
{
    s.trim().to_string()
}

/// What is known of the file `file_path`, given its extension in lower
/// case and, where the file could be read, what its bytes say of its type.
pub fn file_type_info(file_path: &str, extension: String, sniffed: Option<String>) -> (info:
    FileTypeInfo)
    ensures
        info@.path == file_path@,
        info@.file_type == extension@,
        info@.mime_type == match sniffed {
            Some(mime) => mime@,
            None => mime_of(extension@),
        },
        info@.category == category_of(info@.file_type, info@.mime_type),
{
    let mime_type = match sniffed {
        Some(mime) => mime,
        None => guess_mime_by_extension(extension.as_str()),
    };
    let category = categorize_file(extension.as_str(), mime_type.as_str());
    FileTypeInfo { path: file_path.to_string(), file_type: extension, mime_type, category }
}

/// What is known of the file `file_path`; `content` holds its bytes where
/// it could be read. The type is read off the bytes where they tell, and
/// guessed from the extension otherwise.
pub fn detect_file_type(file_path: &str, content: Option<&[u8]>) -> (info: FileTypeInfo)
    ensures
        info@.path == file_path@,
        info@.mime_type == match content {
            Some(bytes) => match sniffed_mime(bytes@) {
                Some(mime) => mime,
                None => mime_of(info@.file_type),
            },
            None => mime_of(info@.file_type),
        },
        info@.category == category_of(info@.file_type, info@.mime_type),
{
    let extension = match path_extension(file_path) {
        Some(found) => lowercase(found.as_str()),
        None => lowercase(""),
    };
    let sniffed = match content {
        Some(bytes) => sniff_mime(bytes),
        None => None,
    };
    file_type_info(file_path, extension, sniffed)
}

/// The names of the kinds of remote store, as a configuration spells them.
pub fn get_storage_backend_types() -> (names: Vec<String>)
    ensures
        names.len() == 6,
        names[0]@ == "FileSystem"@,
        names[1]@ == "S3"@,
        names[2]@ == "S3Compatible"@,
        names[3]@ == "Oss"@,
        names[4]@ == "Cos"@,
        names[5]@ == "AzBlob"@,
{
    let mut names: Vec<String> = Vec::new();
    names.push("FileSystem".to_string());
    names.push("S3".to_string());
    names.push("S3Compatible".to_string());
    names.push("Oss".to_string());
    names.push("Cos".to_string());
    names.push("AzBlob".to_string());
    names
}

/// Replaces every secret of `backend` by `***`.
pub fn hide_sensitive_fields(backend: &mut StorageBackend)
    ensures
        final(backend)@ == old(backend)@.redacted(),
{
    *backend = backend.redacted();
}

/// The configuration as it is shown: the one that was loaded, without its
/// secrets, or the default where none could be loaded.
pub fn get_storage_config(loaded: Option<StorageConfig>) -> (shown: StorageConfig)
    ensures
        match loaded {
            Some(config) => shown@.backend == config@.backend.redacted() && shown@.retry_attempts
                == config@.retry_attempts && shown@.timeout_seconds == config@.timeout_seconds,
            None => shown@ == ConfigView::default(),
        },
{
    match loaded {
        Some(config) => config.redacted(),
        None => StorageConfig::default(),
    }
}

/// The status of the sync engine, or of its absence.
pub fn get_sync_status(engine: Option<&SyncEngine>) -> (status: SyncStatus)
    ensures
        match engine {
            Some(e) => status.initialized && status.item_count == e.items().len()
                && status.is_syncing == (e.phase() != SyncPhase::Idle) && status.last_sync
                == e.last_sync() && status.pending_ops == e.pending().len(),
            None => status == (SyncStatus {
                item_count: 0,
                is_syncing: false,
                initialized: false,
                last_sync: None,
                pending_ops: 0,
            }),
        },
{
    match engine {
        Some(e) => e.get_status(),
        None => SyncStatus {
            item_count: 0,
            is_syncing: false,
            initialized: false,
            last_sync: None,
            pending_ops: 0,
        },
    }
}

/// The sum of `sizes`; `None` where it does not fit in 64 bits.
pub open spec fn sum_of(sizes: Seq<u64>) -> int
    decreases sizes.len(),
{
    if sizes.len() == 0 {
        0
    } else {
        sum_of(sizes.drop_last()) + sizes.last()
    }
}

/// A sum never falls as more sizes are taken in.
pub proof fn lemma_sum_grows(sizes: Seq<u64>, n: int)
    requires
        0 <= n <= sizes.len(),
    ensures
        0 <= sum_of(sizes.take(n)) <= sum_of(sizes),
    decreases sizes.len(),
{
    if n == sizes.len() {
        assert(sizes.take(n) =~= sizes);
        if n > 0 {
            lemma_sum_grows(sizes.drop_last(), n - 1);
            assert(sizes.drop_last().take(n - 1) =~= sizes.drop_last());
        }
    } else {
        lemma_sum_grows(sizes.drop_last(), n);
        assert(sizes.drop_last().take(n) =~= sizes.take(n));
    }
}

/// The size of a set of files, given the size of each file that could be
/// looked at; `None` where the sum does not fit in 64 bits.
pub fn calculate_files_size(sizes: &Vec<u64>) -> (total: Option<u64>)
    ensures
        match total {
            Some(t) => t == sum_of(sizes@),
            None => sum_of(sizes@) > u64::MAX,
        },
{
    let mut total: u64 = 0;
    let mut i: usize = 0;
    assert(sizes@.take(0) =~= Seq::<u64>::empty());
    while i < sizes.len()
        invariant
            i <= sizes.len(),
            total == sum_of(sizes@.take(i as int)),
        decreases sizes.len() - i,
    {
        proof {
            assert(sizes@.take(i + 1).drop_last() =~= sizes@.take(i as int));
            lemma_sum_grows(sizes@, i + 1);
        }
        total = match total.checked_add(sizes[i]) {
            Some(t) => t,
            None => {
                return None;
            },
        };
        i += 1;
    }
    assert(sizes@.take(i as int) =~= sizes@);
    Some(total)
}

/// Where the application keeps its data: the directory `name` below
/// `base`, or `name` as it stands where there is no base.
#[derive(Debug)]
pub struct DataDir {
    pub base: Option<String>,
    pub name: String,
}

/// Where the application keeps its data: `clippy` below the system's
/// directory for configurations; else `.clippy` below the user's home;
/// else `./clippy_data`.
pub fn get_app_data_dir(config_dir: Option<String>, home_dir: Option<String>) -> (dir: DataDir)
    ensures
        match (config_dir, home_dir) {
            (Some(c), _) => dir.base.deep_view() == Some(c@) && dir.name@ == "clippy"@,
            (None, Some(h)) => dir.base.deep_view() == Some(h@) && dir.name@ == ".clippy"@,
            (None, None) => dir.base is None && dir.name@ == "./clippy_data"@,
        },
{
    match config_dir {
        Some(c) => DataDir { base: Some(c), name: "clippy".to_string() },
        None => match home_dir {
            Some(h) => DataDir { base: Some(h), name: ".clippy".to_string() },
            None => DataDir { base: None, name: "./clippy_data".to_string() },
        },
    }
}

/// The id of this device, and whether it is new and has to be stored.
/// `stored` is what the file of the id holds, where there is one: its
/// text without the white space around it is the id, unless nothing is
/// left of it; then, and where there is no file, the id is a fresh one.
pub fn get_or_create_device_id(stored: Option<String>) -> (r: (String, bool))
    ensures
        match stored {
            Some(text) => if trimmed(text@).len() > 0 {
                r.0@ == trimmed(text@) && !r.1
            } else {
                r.1
            },
            None => r.1,
        },
{
    if let Some(text) = stored {
        let id = trim(text.as_str());
        if id.as_str().unicode_len() > 0 {
            return (id, false);
        }
    }
    (fresh_id(), true)
}

/// The configuration of the sync engine of `device_id`: for the user that
/// the environment names, or for `default_user`, at the default interval.
pub fn sync_config_for(env_user_id: Option<String>, device_id: String) -> (config: SyncConfig)
    ensures
        config.user_id@ == match env_user_id {
            Some(user) => user@,
            None => "default_user"@,
        },
        config.device_id == device_id,
        config.sync_interval_seconds == DEFAULT_SYNC_INTERVAL_SECONDS,
{
    let user_id = match env_user_id {
        Some(user) => user,
        None => "default_user".to_string(),
    };
    SyncConfig::new(user_id, device_id)
}

/// What the clipboard held when it was last looked at.
#[derive(Debug)]
pub struct ClipboardManager {
    last_text: String,
    last_files: Vec<String>,
}

/// The summary of a set of `count` files: the number in decimal, then ` 个文件`.
pub open spec fn is_files_summary(summary: Seq<char>, count: usize) -> bool {
    exists|digits: String| #[trigger]
        to_string_from_display_ensures::<usize>(&count, digits) && summary == digits@ + " 个文件"@
}

/// Whether two lists hold the same strings in the same order.
pub fn same_strings(a: &Vec<String>, b: &Vec<String>) -> (same: bool)
    ensures
        same == (a.deep_view() == b.deep_view()),
{
    if a.len() != b.len() {
        assert(a.deep_view().len() != b.deep_view().len());
        return false;
    }
    let mut i: usize = 0;
    while i < a.len()
        invariant
            a.len() == b.len(),
            i <= a.len(),
            forall|j: int| 0 <= j < i ==> a[j]@ == b[j]@,
        decreases a.len() - i,
    {
        if !str_eq(a[i].as_str(), b[i].as_str()) {
            assert(a.deep_view()[i as int] != b.deep_view()[i as int]);
            return false;
        }
        i += 1;
    }
    assert(a.deep_view() =~= b.deep_view());
    true
}

impl ClipboardManager {
    /// The text that was last seen on the clipboard.
    pub closed spec fn last_text(&self) -> Seq<char> {
        self.last_text@
    }

    /// The files that were last seen on the clipboard.
    pub closed spec fn last_files(&self) -> Seq<Seq<char>> {
        self.last_files.deep_view()
    }

    /// The manager that has not seen anything yet.
    pub fn new() -> (manager: ClipboardManager)
        ensures
            manager.last_text() == Seq::<char>::empty(),
            manager.last_files() == Seq::<Seq<char>>::empty(),
    {
        let manager = ClipboardManager { last_text: String::new(), last_files: Vec::new() };
        assert(manager.last_files() =~= Seq::<Seq<char>>::empty());
        manager
    }

    /// Looks at the text of the clipboard. Text that differs from the text
    /// last seen and is not blank makes a new item, with the id `id` and
    /// the time `timestamp`, and becomes the text last seen.
    pub fn check_text_change(&mut self, text: String, id: String, timestamp: u64) -> (r: Option<
        ClipboardItem,
    >)
        ensures
            final(self).last_files() == old(self).last_files(),
            text@ != old(self).last_text() && trimmed(text@).len() > 0 ==> {
                &&& final(self).last_text() == text@
                &&& r matches Some(item)
                &&& item@.id == id@
                &&& item@.content == text@
                &&& item@.timestamp == timestamp
                &&& item@.item_type == "text"@
                &&& item@.size matches Some(n)
                &&& n == encode_utf8(text@).len()
                &&& item@.file_paths is None
                &&& item@.file_types is None
                &&& item@.well_formed()
            },
            !(text@ != old(self).last_text() && trimmed(text@).len() > 0) ==> r is None && final(self).last_text() == old(self).last_text(),
    {
        if !str_eq(text.as_str(), self.last_text.as_str()) && trim(
            text.as_str(),
        ).as_str().unicode_len() > 0 {
            let size = text.as_str().as_bytes().len();
            proof {
                reveal_strlit("text");
                reveal_strlit("files");
                assert("text"@.len() != "files"@.len());
            }
            let item = ClipboardItem {
                id,
                content: text.clone(),
                timestamp,
                item_type: "text".to_string(),
                size: Some(size as u64),
                file_paths: None,
                file_types: None,
            };
            self.last_text = text;
            Some(item)
        } else {
            None
        }
    }

    /// Looks at the files of the clipboard. A list that differs from the
    /// list last seen and is not empty makes a new item, with the id `id`
    /// and the time `timestamp`, and becomes the list last seen.
    /// `total_size` is the size of the files together, `file_types` what is
    /// known of each, in the order of `files`.
    pub fn check_files_change(
        &mut self,
        files: Vec<String>,
        total_size: u64,
        file_types: Vec<FileTypeInfo>,
        id: String,
        timestamp: u64,
    ) -> (r: Option<ClipboardItem>)
        requires
            file_types.len() == files.len(),
        ensures
            final(self).last_text() == old(self).last_text(),
            files.deep_view() != old(self).last_files() && files.len() > 0 ==> {
                &&& final(self).last_files() == files.deep_view()
                &&& r matches Some(item)
                &&& item@.id == id@
                &&& is_files_summary(item@.content, files.len())
                &&& item@.timestamp == timestamp
                &&& item@.item_type == "files"@
                &&& item@.size == Some(total_size)
                &&& item@.file_paths == Some(files.deep_view())
                &&& item@.file_types == Some(file_types.deep_view())
                &&& item@.well_formed()
            },
            !(files.deep_view() != old(self).last_files() && files.len() > 0) ==> r is None
                && final(self).last_files() == old(self).last_files(),
    {
        if !same_strings(&files, &self.last_files) && files.len() > 0 {
            let count = files.len();
            let mut content = count.to_string();
            let ghost digits = content;
            content.append(" 个文件");
            assert(is_files_summary(content@, count)) by {
                assert(to_string_from_display_ensures::<usize>(&count, digits));
            }
            let item = ClipboardItem {
                id,
                content,
                timestamp,
                item_type: "files".to_string(),
                size: Some(total_size),
                file_paths: Some(clone_strings(&files)),
                file_types: Some(file_types),
            };
            self.last_files = files;
            Some(item)
        } else {
            None
        }
    }
}

} // verus!
