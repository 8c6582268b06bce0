//! Passing items between the local store and the sync engine.
//!
//! Only the id, the type, the content and the time of an item are shared;
//! what the local store knows of files stays on the device.

use vstd::prelude::*;
use vstd::string::*;
use vstd::std_specs::convert::FromSpecImpl;
use vstd::utf8::encode_utf8;
use crate::instant::{
    instant_from_secs, utc_instant, utc_now, Timestamp, LAST_SECOND_OF_9999,
};
use crate::oplog::{ItemMetadata, SyncClipboardItem};
use crate::storage::ClipboardItem;

verus! {

/// The shared form of `item`, created at `created_at`; the source device is not known.
pub fn shared_item(item: &ClipboardItem, created_at: Timestamp) -> (shared: SyncClipboardItem)
    ensures
        shared@.id == item@.id,
        shared@.content_type == item@.item_type,
        shared@.content == item@.content,
        shared@.created_at == created_at,
        shared@.metadata.source_device == "unknown"@,
        shared@.metadata.source_app is None,
        shared@.metadata.content_hash is None,
{
    SyncClipboardItem {
        id: item.id.clone(),
        content_type: item.item_type.clone(),
        content: item.content.clone(),
        created_at,
        metadata: ItemMetadata {
            source_device: "unknown".to_string(),
            source_app: None,
            content_hash: None,
        },
    }
}

/// The instant of the second `timestamp`, where the calendar reaches that far.
pub open spec fn instant_of(timestamp: u64) -> Option<Timestamp> {
    if timestamp <= i64::MAX {
        utc_instant(timestamp as int)
    } else {
        None
    }
}

impl From<&ClipboardItem> for SyncClipboardItem {
    /// The shared form of a local item. Its time is the item's second,
    /// where the calendar reaches that far, as it does up to the end of the
    /// year 9999; the present instant otherwise.
    fn from(item: &ClipboardItem) -> (shared: SyncClipboardItem)
        ensures
            shared@.id == item@.id,
            shared@.content_type == item@.item_type,
            shared@.content == item@.content,
            shared@.metadata.source_device == "unknown"@,
            shared@.metadata.source_app is None,
            shared@.metadata.content_hash is None,
            instant_of(item.timestamp) matches Some(t) ==> shared@.created_at == t,
            item.timestamp <= LAST_SECOND_OF_9999 ==> shared@.created_at == (Timestamp {
                secs: item.timestamp as i64,
                nanos: 0,
            }),
    {
        let known = if item.timestamp <= i64::MAX as u64 {
            instant_from_secs(item.timestamp as i64)
        } else {
            None
        };
        let created_at = match known {
            Some(t) => t,
            None => utc_now(),
        };
        shared_item(item, created_at)
    }
}

impl FromSpecImpl<&ClipboardItem> for SyncClipboardItem {
    open spec fn obeys_from_spec() -> bool {
        false
    }

    open spec fn from_spec(item: &ClipboardItem) -> SyncClipboardItem {
        arbitrary()
    }
}

impl From<&SyncClipboardItem> for ClipboardItem {
    /// The local form of a shared item: a text-like entry whose size is
    /// the length of its content in bytes, and which names no files.
    fn from(item: &SyncClipboardItem) -> (local: ClipboardItem)
        ensures
            local@.id == item@.id,
            local@.content == item@.content,
            item@.created_at.secs >= 0 ==> local@.timestamp == item@.created_at.secs,
            local@.item_type == item@.content_type,
            local@.size matches Some(n) && n == encode_utf8(item@.content).len(),
            local@.file_paths is None,
            local@.file_types is None,
    {
        let size = item.content.as_str().as_bytes().len();
        ClipboardItem {
            id: item.id.clone(),
            content: item.content.clone(),
            timestamp: #[verifier::truncate] (item.created_at.secs as u64),
            item_type: item.content_type.clone(),
            size: Some(size as u64),
            file_paths: None,
            file_types: None,
        }
    }
}

impl FromSpecImpl<&SyncClipboardItem> for ClipboardItem {
    open spec fn obeys_from_spec() -> bool {
        false
    }

    open spec fn from_spec(item: &SyncClipboardItem) -> ClipboardItem {
        arbitrary()
    }
}

} // verus!
