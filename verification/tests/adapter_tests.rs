use clippy_core::adapters::shared_item;
use clippy_core::instant::Timestamp;
use clippy_core::oplog::{ItemMetadata, SyncClipboardItem};
use clippy_core::storage::{ClipboardItem, FileTypeInfo};

fn local(id: &str, content: &str, timestamp: u64) -> ClipboardItem {
    ClipboardItem {
        id: id.to_string(),
        content: content.to_string(),
        timestamp,
        item_type: "files".to_string(),
        size: Some(7),
        file_paths: Some(vec!["/a".to_string()]),
        file_types: Some(vec![FileTypeInfo {
            path: "/a".to_string(),
            file_type: "".to_string(),
            mime_type: "application/octet-stream".to_string(),
            category: "other".to_string(),
        }]),
    }
}

#[test]
fn local_item_is_shared_with_its_second_as_time() {
    let shared = SyncClipboardItem::from(&local("id-1", "hello", 1_700_000_000));
    assert_eq!(shared.id, "id-1");
    assert_eq!(shared.content_type, "files");
    assert_eq!(shared.content, "hello");
    assert_eq!(shared.created_at, Timestamp { secs: 1_700_000_000, nanos: 0 });
    assert_eq!(shared.metadata.source_device, "unknown");
    assert_eq!(shared.metadata.source_app, None);
    assert_eq!(shared.metadata.content_hash, None);
}

#[test]
fn epoch_and_the_last_second_of_the_calendar_are_kept() {
    let zero = SyncClipboardItem::from(&local("a", "x", 0));
    assert_eq!(zero.created_at, Timestamp { secs: 0, nanos: 0 });
    let last = SyncClipboardItem::from(&local("a", "x", 8_210_266_876_799));
    assert_eq!(last.created_at, Timestamp { secs: 8_210_266_876_799, nanos: 0 });
}

#[test]
fn time_beyond_the_calendar_becomes_the_present() {
    let shared = SyncClipboardItem::from(&local("a", "x", 8_210_266_876_800));
    assert!(shared.created_at.secs > 1_577_836_800);
    assert!(shared.created_at.secs < 8_210_266_876_800);
    let far = SyncClipboardItem::from(&local("a", "x", i64::MAX as u64));
    assert!(far.created_at.secs > 1_577_836_800);
    assert!(far.created_at.secs < 8_210_266_876_800);
    assert_eq!(far.id, "a");
    assert_eq!(far.content, "x");
}

#[test]
fn shared_item_takes_the_time_it_is_given() {
    let shared = shared_item(&local("a", "x", 5), Timestamp { secs: -3, nanos: 9 });
    assert_eq!(shared.created_at, Timestamp { secs: -3, nanos: 9 });
    assert_eq!(shared.id, "a");
    assert_eq!(shared.content_type, "files");
    assert_eq!(shared.metadata.source_device, "unknown");
}

#[test]
fn shared_item_becomes_a_local_item_without_files() {
    let shared = SyncClipboardItem {
        id: "id-2".to_string(),
        content_type: "text".to_string(),
        content: "héllo".to_string(),
        created_at: Timestamp { secs: 1_700_000_123, nanos: 999_999_999 },
        metadata: ItemMetadata {
            source_device: "laptop".to_string(),
            source_app: Some("Editor".to_string()),
            content_hash: Some("abc".to_string()),
        },
    };
    let item = ClipboardItem::from(&shared);
    assert_eq!(item.id, "id-2");
    assert_eq!(item.content, "héllo");
    assert_eq!(item.timestamp, 1_700_000_123);
    assert_eq!(item.item_type, "text");
    assert_eq!(item.size, Some(6));
    assert!(item.file_paths.is_none());
    assert!(item.file_types.is_none());
}

#[test]
fn there_and_back_keeps_id_content_type_and_second() {
    let start = local("id-3", "some text", 1_650_000_000);
    let back = ClipboardItem::from(&SyncClipboardItem::from(&start));
    assert_eq!(back.id, start.id);
    assert_eq!(back.content, start.content);
    assert_eq!(back.timestamp, start.timestamp);
    assert_eq!(back.item_type, start.item_type);
    assert_eq!(back.size, Some(9));
    assert!(back.file_paths.is_none());
}

#[test]
fn empty_content_has_size_zero() {
    let shared = SyncClipboardItem::from(&local("a", "", 1));
    assert_eq!(ClipboardItem::from(&shared).size, Some(0));
}

#[test]
fn time_beyond_sixty_three_bits_becomes_the_present() {
    for timestamp in [i64::MAX as u64 + 1, u64::MAX] {
        let shared = SyncClipboardItem::from(&local("a", "x", timestamp));
        assert!(shared.created_at.secs > 1_577_836_800);
        assert!(shared.created_at.secs < 8_210_266_876_800);
    }
}

#[test]
fn every_second_up_to_the_year_9999_is_kept() {
    for timestamp in [1u64, 86_399, 1_700_000_000, 4_102_444_800, 253_402_300_799] {
        let shared = SyncClipboardItem::from(&local("a", "x", timestamp));
        assert_eq!(shared.created_at, Timestamp { secs: timestamp as i64, nanos: 0 });
    }
}
