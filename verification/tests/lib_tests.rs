use clippy_core::storage::FileTypeInfo;
use clippy_core::sync::{SyncConfig, SyncEngine, SyncStatus};
use clippy_core::{
    calculate_files_size, categorize_file, detect_file_type, file_type_info, get_app_data_dir,
    get_or_create_device_id, get_sync_status, guess_mime_by_extension, same_strings,
    sync_config_for, ClipboardManager,
};

fn info(path: &str) -> FileTypeInfo {
    FileTypeInfo {
        path: path.to_string(),
        file_type: "txt".to_string(),
        mime_type: "text/plain".to_string(),
        category: "text".to_string(),
    }
}

#[test]
fn mime_is_guessed_from_the_extension() {
    let table = vec![
        ("txt", "text/plain"),
        ("pdf", "application/pdf"),
        ("doc", "application/msword"),
        ("docx", "application/msword"),
        ("xls", "application/vnd.ms-excel"),
        ("xlsx", "application/vnd.ms-excel"),
        ("ppt", "application/vnd.ms-powerpoint"),
        ("pptx", "application/vnd.ms-powerpoint"),
        ("zip", "application/zip"),
        ("rar", "application/x-rar-compressed"),
        ("7z", "application/x-7z-compressed"),
        ("jpg", "image/jpeg"),
        ("jpeg", "image/jpeg"),
        ("png", "image/png"),
        ("gif", "image/gif"),
        ("mp4", "video/mp4"),
        ("mp3", "audio/mpeg"),
        ("wav", "audio/wav"),
        ("html", "text/html"),
        ("htm", "text/html"),
        ("css", "text/css"),
        ("js", "application/javascript"),
        ("json", "application/json"),
        ("xml", "application/xml"),
        ("", "application/octet-stream"),
        ("TXT", "application/octet-stream"),
        ("rs", "application/octet-stream"),
        ("txt ", "application/octet-stream"),
    ];
    for (extension, mime) in table {
        assert_eq!(guess_mime_by_extension(extension), mime);
    }
}

#[test]
fn category_follows_the_mime_type_first() {
    assert_eq!(categorize_file("bin", "image/png"), "image");
    assert_eq!(categorize_file("txt", "image/"), "image");
    assert_eq!(categorize_file("zip", "video/mp4"), "video");
    assert_eq!(categorize_file("rs", "audio/wav"), "audio");
    assert_eq!(categorize_file("zip", "text/html"), "text");
    assert_eq!(categorize_file("zip", "image"), "archive");
    assert_eq!(categorize_file("zip", "ximage/png"), "archive");
    assert_eq!(categorize_file("zip", "Image/png"), "archive");
}

#[test]
fn category_follows_the_extension_otherwise() {
    let mime = "application/octet-stream";
    for e in ["txt", "md", "csv", "log"] {
        assert_eq!(categorize_file(e, mime), "text");
    }
    for e in ["pdf", "doc", "docx", "xls", "xlsx", "ppt", "pptx"] {
        assert_eq!(categorize_file(e, mime), "document");
    }
    for e in ["zip", "rar", "7z", "tar", "gz", "bz2"] {
        assert_eq!(categorize_file(e, mime), "archive");
    }
    for e in ["js", "ts", "py", "java", "cpp", "c", "h", "rs", "go", "php", "rb", "swift"] {
        assert_eq!(categorize_file(e, mime), "code");
    }
    for e in ["", "exe", "PDF", "jpg", "mp3", "tar.gz"] {
        assert_eq!(categorize_file(e, mime), "other");
    }
    assert_eq!(categorize_file("", ""), "other");
}

#[test]
fn file_type_is_put_together_from_extension_and_bytes() {
    let known = file_type_info("/x/photo.dat", "dat".to_string(), Some("image/png".to_string()));
    assert_eq!(known.path, "/x/photo.dat");
    assert_eq!(known.file_type, "dat");
    assert_eq!(known.mime_type, "image/png");
    assert_eq!(known.category, "image");
    let guessed = file_type_info("/x/notes.md", "md".to_string(), None);
    assert_eq!(guessed.mime_type, "application/octet-stream");
    assert_eq!(guessed.category, "text");
    let pdf = file_type_info("a.pdf", "pdf".to_string(), None);
    assert_eq!(pdf.mime_type, "application/pdf");
    assert_eq!(pdf.category, "document");
}

#[test]
fn file_type_is_read_off_the_bytes_where_they_tell() {
    let png: Vec<u8> = vec![0x89, b'P', b'N', b'G', 0x0d, 0x0a, 0x1a, 0x0a, 0, 0, 0, 0x0d];
    let found = detect_file_type("/tmp/Picture.TXT", Some(&png));
    assert_eq!(found.path, "/tmp/Picture.TXT");
    assert_eq!(found.file_type, "txt");
    assert_eq!(found.mime_type, "image/png");
    assert_eq!(found.category, "image");
    let jpeg: Vec<u8> = vec![0xff, 0xd8, 0xff, 0xaa];
    assert_eq!(detect_file_type("x", Some(&jpeg)).mime_type, "image/jpeg");
}

#[test]
fn file_type_is_guessed_where_the_bytes_do_not_tell() {
    let plain = b"just some words".to_vec();
    let found = detect_file_type("/tmp/Report.PDF", Some(&plain));
    assert_eq!(found.file_type, "pdf");
    assert_eq!(found.mime_type, "application/pdf");
    assert_eq!(found.category, "document");
    let unread = detect_file_type("/tmp/archive.tar.GZ", None);
    assert_eq!(unread.file_type, "gz");
    assert_eq!(unread.mime_type, "application/octet-stream");
    assert_eq!(unread.category, "archive");
    let bare = detect_file_type("/tmp/Makefile", None);
    assert_eq!(bare.file_type, "");
    assert_eq!(bare.category, "other");
    let hidden = detect_file_type("/home/u/.bashrc", Some(&Vec::new()));
    assert_eq!(hidden.file_type, "");
    assert_eq!(hidden.mime_type, "application/octet-stream");
}

#[test]
fn sizes_are_summed() {
    assert_eq!(calculate_files_size(&Vec::new()), Some(0));
    assert_eq!(calculate_files_size(&vec![1, 2, 3, 0, 1000]), Some(1006));
    assert_eq!(calculate_files_size(&vec![u64::MAX]), Some(u64::MAX));
    assert_eq!(calculate_files_size(&vec![u64::MAX - 1, 1]), Some(u64::MAX));
    assert_eq!(calculate_files_size(&vec![u64::MAX, 1]), None);
    assert_eq!(calculate_files_size(&vec![1, u64::MAX, 0]), None);
}

#[test]
fn data_directory_prefers_the_configuration_directory() {
    let dir = get_app_data_dir(Some("/home/u/.config".to_string()), Some("/home/u".to_string()));
    assert_eq!(dir.base, Some("/home/u/.config".to_string()));
    assert_eq!(dir.name, "clippy");
    let dir = get_app_data_dir(None, Some("/home/u".to_string()));
    assert_eq!(dir.base, Some("/home/u".to_string()));
    assert_eq!(dir.name, ".clippy");
    let dir = get_app_data_dir(None, None);
    assert_eq!(dir.base, None);
    assert_eq!(dir.name, "./clippy_data");
}

#[test]
fn stored_device_id_is_used_without_the_space_around_it() {
    assert_eq!(
        get_or_create_device_id(Some("  abc-123 \n".to_string())),
        ("abc-123".to_string(), false)
    );
    assert_eq!(get_or_create_device_id(Some("x".to_string())), ("x".to_string(), false));
    assert_eq!(
        get_or_create_device_id(Some("\ta b\r\n".to_string())),
        ("a b".to_string(), false)
    );
}

#[test]
fn missing_or_blank_device_id_is_made_anew() {
    let (first, save_first) = get_or_create_device_id(None);
    let (second, save_second) = get_or_create_device_id(Some(" \n\t ".to_string()));
    let (third, save_third) = get_or_create_device_id(Some(String::new()));
    assert!(save_first && save_second && save_third);
    assert_eq!(first.len(), 36);
    assert_eq!(second.len(), 36);
    assert_ne!(first, second);
    assert_ne!(second, third);
}

#[test]
fn sync_configuration_names_the_user_or_the_default_user() {
    let config = sync_config_for(Some("alice".to_string()), "dev-1".to_string());
    assert_eq!(config.user_id, "alice");
    assert_eq!(config.device_id, "dev-1");
    assert_eq!(config.sync_interval_seconds, 15);
    let config = sync_config_for(None, "dev-1".to_string());
    assert_eq!(config.user_id, "default_user");
}

#[test]
fn status_without_an_engine_is_uninitialized() {
    assert_eq!(
        get_sync_status(None),
        SyncStatus {
            item_count: 0,
            is_syncing: false,
            initialized: false,
            last_sync: None,
            pending_ops: 0
        }
    );
    let mut engine = SyncEngine::new(SyncConfig::new("u".to_string(), "d".to_string()));
    engine.sync();
    let status = get_sync_status(Some(&engine));
    assert!(status.initialized);
    assert!(status.is_syncing);
    assert_eq!(status.item_count, 0);
}

#[test]
fn lists_of_strings_are_compared_in_order() {
    let a = vec!["x".to_string(), "y".to_string()];
    let b = vec!["x".to_string(), "y".to_string()];
    let c = vec!["y".to_string(), "x".to_string()];
    let d = vec!["x".to_string()];
    assert!(same_strings(&a, &b));
    assert!(!same_strings(&a, &c));
    assert!(!same_strings(&a, &d));
    assert!(same_strings(&Vec::new(), &Vec::new()));
}

#[test]
fn new_text_makes_an_item() {
    let mut manager = ClipboardManager::new();
    let item = manager.check_text_change("héllo".to_string(), "id-1".to_string(), 77).unwrap();
    assert_eq!(item.id, "id-1");
    assert_eq!(item.content, "héllo");
    assert_eq!(item.timestamp, 77);
    assert_eq!(item.item_type, "text");
    assert_eq!(item.size, Some(6));
    assert!(item.file_paths.is_none());
    assert!(item.file_types.is_none());
}

#[test]
fn same_text_again_makes_no_item() {
    let mut manager = ClipboardManager::new();
    assert!(manager.check_text_change("a".to_string(), "1".to_string(), 1).is_some());
    assert!(manager.check_text_change("a".to_string(), "2".to_string(), 2).is_none());
    assert!(manager.check_text_change("b".to_string(), "3".to_string(), 3).is_some());
    assert!(manager.check_text_change("a".to_string(), "4".to_string(), 4).is_some());
}

#[test]
fn blank_text_makes_no_item_and_is_not_remembered() {
    let mut manager = ClipboardManager::new();
    assert!(manager.check_text_change(String::new(), "1".to_string(), 1).is_none());
    assert!(manager.check_text_change("  \n\t".to_string(), "2".to_string(), 2).is_none());
    assert!(manager.check_text_change("a".to_string(), "3".to_string(), 3).is_some());
    assert!(manager.check_text_change("   ".to_string(), "4".to_string(), 4).is_none());
    assert!(manager.check_text_change("a".to_string(), "5".to_string(), 5).is_none());
    let padded = manager.check_text_change(" a ".to_string(), "6".to_string(), 6).unwrap();
    assert_eq!(padded.content, " a ");
    assert_eq!(padded.size, Some(3));
}

#[test]
fn new_files_make_an_item() {
    let mut manager = ClipboardManager::new();
    let files = vec!["/a.txt".to_string(), "/b.txt".to_string()];
    let types = vec![info("/a.txt"), info("/b.txt")];
    let item = manager
        .check_files_change(files.clone(), 1234, types, "id-9".to_string(), 88)
        .unwrap();
    assert_eq!(item.id, "id-9");
    assert_eq!(item.content, "2 个文件");
    assert_eq!(item.timestamp, 88);
    assert_eq!(item.item_type, "files");
    assert_eq!(item.size, Some(1234));
    assert_eq!(item.file_paths, Some(files));
    let kept = item.file_types.unwrap();
    assert_eq!(kept.len(), 2);
    assert_eq!(kept[1].path, "/b.txt");
}

#[test]
fn same_files_again_or_no_files_make_no_item() {
    let mut manager = ClipboardManager::new();
    let files = vec!["/a.txt".to_string()];
    assert!(manager
        .check_files_change(files.clone(), 1, vec![info("/a.txt")], "1".to_string(), 1)
        .is_some());
    assert!(manager
        .check_files_change(files.clone(), 1, vec![info("/a.txt")], "2".to_string(), 2)
        .is_none());
    assert!(manager.check_files_change(Vec::new(), 0, Vec::new(), "3".to_string(), 3).is_none());
    assert!(manager
        .check_files_change(files, 1, vec![info("/a.txt")], "4".to_string(), 4)
        .is_none());
    let twelve: Vec<String> = (0..12).map(|i| format!("/f{}", i)).collect();
    let types: Vec<FileTypeInfo> = twelve.iter().map(|p| info(p)).collect();
    let item = manager.check_files_change(twelve, 0, types, "5".to_string(), 5).unwrap();
    assert_eq!(item.content, "12 个文件");
}

#[test]
fn text_and_files_are_remembered_apart() {
    let mut manager = ClipboardManager::new();
    assert!(manager.check_text_change("a".to_string(), "1".to_string(), 1).is_some());
    assert!(manager
        .check_files_change(vec!["a".to_string()], 1, vec![info("a")], "2".to_string(), 2)
        .is_some());
    assert!(manager.check_text_change("a".to_string(), "3".to_string(), 3).is_none());
    assert!(manager
        .check_files_change(vec!["a".to_string()], 1, vec![info("a")], "4".to_string(), 4)
        .is_none());
}
