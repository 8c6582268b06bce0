use clippy_core::record::{decode_log, encode_frame, encode_log, Operation, RecordFrame};
use clippy_core::storage::{
    delete_frame, insert_frame, records_of_frames, ClipboardItem, FileTypeInfo, StorageEngine,
    StorageRecord, StorageStats,
};
use serde_json::Value;

fn text_item(id: &str, content: &str, timestamp: u64) -> ClipboardItem {
    ClipboardItem {
        id: id.to_string(),
        content: content.to_string(),
        timestamp,
        item_type: "text".to_string(),
        size: Some(content.len() as u64),
        file_paths: None,
        file_types: None,
    }
}

fn files_item(id: &str, timestamp: u64) -> ClipboardItem {
    ClipboardItem {
        id: id.to_string(),
        content: "2 个文件".to_string(),
        timestamp,
        item_type: "files".to_string(),
        size: Some(30),
        file_paths: Some(vec!["/tmp/a.txt".to_string(), "/tmp/b.png".to_string()]),
        file_types: Some(vec![
            FileTypeInfo {
                path: "/tmp/a.txt".to_string(),
                file_type: "txt".to_string(),
                mime_type: "text/plain".to_string(),
                category: "text".to_string(),
            },
            FileTypeInfo {
                path: "/tmp/b.png".to_string(),
                file_type: "png".to_string(),
                mime_type: "image/png".to_string(),
                category: "image".to_string(),
            },
        ]),
    }
}

fn same_item(a: &ClipboardItem, b: &ClipboardItem) -> bool {
    to_json(a) == to_json(b)
}

fn to_json(item: &ClipboardItem) -> String {
    let mut m = serde_json::Map::new();
    m.insert("id".to_string(), Value::from(item.id.clone()));
    m.insert("content".to_string(), Value::from(item.content.clone()));
    m.insert("timestamp".to_string(), Value::from(item.timestamp));
    m.insert("item_type".to_string(), Value::from(item.item_type.clone()));
    m.insert("size".to_string(), Value::from(item.size));
    m.insert("file_paths".to_string(), Value::from(item.file_paths.clone()));
    let types = match &item.file_types {
        Some(list) => {
            let mut out: Vec<Value> = Vec::new();
            for t in list {
                let mut o = serde_json::Map::new();
                o.insert("path".to_string(), Value::from(t.path.clone()));
                o.insert("file_type".to_string(), Value::from(t.file_type.clone()));
                o.insert("mime_type".to_string(), Value::from(t.mime_type.clone()));
                o.insert("category".to_string(), Value::from(t.category.clone()));
                out.push(Value::Object(o));
            }
            Value::Array(out)
        }
        None => Value::Null,
    };
    m.insert("file_types".to_string(), types);
    Value::Object(m).to_string()
}

fn text_of(v: &Value, key: &str) -> Option<String> {
    v.get(key)?.as_str().map(|s| s.to_string())
}

fn from_json(text: &str) -> Option<ClipboardItem> {
    let v: Value = serde_json::from_str(text).ok()?;
    let file_paths = match v.get("file_paths") {
        Some(Value::Array(list)) => {
            let mut out = Vec::new();
            for p in list {
                out.push(p.as_str()?.to_string());
            }
            Some(out)
        }
        _ => None,
    };
    let file_types = match v.get("file_types") {
        Some(Value::Array(list)) => {
            let mut out = Vec::new();
            for t in list {
                out.push(FileTypeInfo {
                    path: text_of(t, "path")?,
                    file_type: text_of(t, "file_type")?,
                    mime_type: text_of(t, "mime_type")?,
                    category: text_of(t, "category")?,
                });
            }
            Some(out)
        }
        _ => None,
    };
    Some(ClipboardItem {
        id: text_of(&v, "id")?,
        content: text_of(&v, "content")?,
        timestamp: v.get("timestamp")?.as_u64()?,
        item_type: text_of(&v, "item_type")?,
        size: v.get("size").and_then(|s| s.as_u64()),
        file_paths,
        file_types,
    })
}

/// A log file held in memory, and the engine that follows it.
struct Store {
    log: Vec<u8>,
    engine: StorageEngine,
}

impl Store {
    fn new() -> Store {
        Store { log: Vec::new(), engine: StorageEngine::new() }
    }

    fn open(log: Vec<u8>) -> Store {
        let engine = replay(&log);
        Store { log, engine }
    }

    fn insert(&mut self, item: &ClipboardItem) {
        let frame = insert_frame(item, to_json(item), item.timestamp);
        self.log.extend_from_slice(&encode_frame(&frame).unwrap());
        self.engine.insert(item);
    }

    fn delete(&mut self, id: &str, now: u64) {
        self.log.extend_from_slice(&encode_frame(&delete_frame(id, now)).unwrap());
        self.engine.delete(id, now);
    }

    fn compacted_log(&self) -> Vec<u8> {
        let payloads: Vec<String> = self.engine.items().iter().map(to_json).collect();
        encode_log(&self.engine.compaction_frames(payloads).unwrap()).unwrap()
    }

    fn compact(&mut self) {
        self.log = self.compacted_log();
        self.engine.compact();
    }

    fn ids(&self) -> Vec<String> {
        self.engine.get_all().iter().map(|i| i.id.clone()).collect()
    }
}

fn replay(log: &[u8]) -> StorageEngine {
    let frames = decode_log(log);
    let items: Vec<Option<ClipboardItem>> = frames
        .iter()
        .map(|frame| if frame.payload.is_empty() { None } else { from_json(&frame.payload) })
        .collect();
    StorageEngine::recover(records_of_frames(&frames, &items))
}

fn listing(engine: &StorageEngine) -> Vec<String> {
    engine.get_all().iter().map(to_json).collect()
}

#[test]
fn new_engine_is_empty() {
    let engine = StorageEngine::new();
    assert_eq!(engine.get_all().len(), 0);
    assert_eq!(engine.live_ids().len(), 0);
    assert_eq!(
        engine.stats(0),
        StorageStats { total_items: 0, deleted_items: 0, file_size: 0 }
    );
}

#[test]
fn insert_makes_the_item_live_under_its_id() {
    let mut engine = StorageEngine::new();
    let item = files_item("f1", 9);
    engine.insert(&item);
    let all = engine.get_all();
    assert_eq!(all.len(), 1);
    assert!(same_item(&all[0], &item));
    assert_eq!(engine.live_ids(), vec!["f1".to_string()]);
}

#[test]
fn insert_of_a_live_id_replaces_the_item() {
    let mut engine = StorageEngine::new();
    engine.insert(&text_item("a", "old", 1));
    engine.insert(&text_item("b", "other", 2));
    engine.insert(&text_item("a", "new", 3));
    let all = engine.get_all();
    assert_eq!(all.len(), 2);
    assert_eq!(all[0].content, "new");
    assert_eq!(all[1].content, "other");
    assert_eq!(engine.live_ids(), vec!["a".to_string(), "b".to_string()]);
}

#[test]
fn get_all_lists_newest_first() {
    let mut engine = StorageEngine::new();
    engine.insert(&text_item("a", "first", 10));
    engine.insert(&text_item("b", "second", 30));
    engine.insert(&text_item("c", "third", 20));
    engine.insert(&text_item("d", "fourth", 0));
    engine.insert(&text_item("e", "fifth", u64::MAX));
    let order: Vec<u64> = engine.get_all().iter().map(|i| i.timestamp).collect();
    assert_eq!(order, vec![u64::MAX, 30, 20, 10, 0]);
}

#[test]
fn get_all_keeps_items_of_one_second_in_order_of_arrival() {
    let mut engine = StorageEngine::new();
    engine.insert(&text_item("a", "1", 5));
    engine.insert(&text_item("b", "2", 7));
    engine.insert(&text_item("c", "3", 5));
    engine.insert(&text_item("d", "4", 7));
    engine.insert(&text_item("e", "5", 5));
    let ids: Vec<String> = engine.get_all().iter().map(|i| i.id.clone()).collect();
    assert_eq!(ids, vec!["b", "d", "a", "c", "e"]);
}

#[test]
fn items_are_listed_in_order_of_arrival() {
    let mut engine = StorageEngine::new();
    engine.insert(&text_item("a", "1", 5));
    engine.insert(&text_item("b", "2", 7));
    engine.delete("a", 8);
    engine.insert(&text_item("c", "3", 1));
    engine.insert(&text_item("a", "4", 2));
    let ids: Vec<String> = engine.items().iter().map(|i| i.id.clone()).collect();
    assert_eq!(ids, vec!["b", "c", "a"]);
}

#[test]
fn delete_removes_the_item_and_buries_the_id() {
    let mut engine = StorageEngine::new();
    engine.insert(&text_item("a", "x", 1));
    engine.insert(&text_item("b", "y", 2));
    engine.delete("a", 50);
    assert_eq!(engine.live_ids(), vec!["b".to_string()]);
    assert_eq!(
        engine.stats(123),
        StorageStats { total_items: 1, deleted_items: 1, file_size: 123 }
    );
}

#[test]
fn delete_of_an_unknown_id_changes_no_item_and_emits_a_tombstone() {
    let mut store = Store::new();
    store.insert(&text_item("a", "x", 1));
    let before = listing(&store.engine);
    let log_before = store.log.len();
    store.delete("ghost", 5);
    assert_eq!(listing(&store.engine), before);
    assert_eq!(store.engine.stats(0).deleted_items, 1);
    assert!(store.log.len() > log_before);
    let frames = decode_log(&store.log);
    assert_eq!(frames.len(), 2);
    assert_eq!(frames[1].operation, Operation::Delete);
    assert_eq!(frames[1].item_id, "ghost");
    assert_eq!(frames[1].timestamp, 5);
    assert_eq!(frames[1].payload, "");
}

#[test]
fn second_delete_is_a_no_op_with_another_tombstone_record() {
    let mut store = Store::new();
    store.insert(&text_item("a", "x", 1));
    store.insert(&text_item("b", "y", 2));
    store.delete("a", 5);
    let after_first = listing(&store.engine);
    store.delete("a", 6);
    assert_eq!(listing(&store.engine), after_first);
    assert_eq!(store.ids(), vec!["b".to_string()]);
    assert_eq!(store.engine.stats(0).deleted_items, 1);
    let frames = decode_log(&store.log);
    assert_eq!(frames.len(), 4);
    assert_eq!(frames[2].operation, Operation::Delete);
    assert_eq!(frames[3].operation, Operation::Delete);
    assert_eq!(frames[3].timestamp, 6);
    let reopened = Store::open(store.log.clone());
    assert_eq!(reopened.ids(), vec!["b".to_string()]);
}

#[test]
fn insert_lifts_the_tombstone_of_its_id() {
    let mut engine = StorageEngine::new();
    engine.insert(&text_item("a", "x", 1));
    engine.delete("a", 5);
    assert_eq!(engine.stats(0).deleted_items, 1);
    engine.insert(&text_item("a", "again", 6));
    assert_eq!(engine.stats(0).deleted_items, 0);
    assert_eq!(engine.stats(0).total_items, 1);
    assert_eq!(engine.get_all()[0].content, "again");
}

#[test]
fn clear_all_deletes_every_live_id() {
    let mut engine = StorageEngine::new();
    engine.insert(&text_item("a", "x", 1));
    engine.insert(&text_item("b", "y", 2));
    engine.insert(&text_item("c", "z", 3));
    engine.delete("b", 4);
    engine.clear_all(9);
    assert_eq!(engine.get_all().len(), 0);
    assert_eq!(
        engine.stats(0),
        StorageStats { total_items: 0, deleted_items: 3, file_size: 0 }
    );
    engine.clear_all(10);
    assert_eq!(engine.stats(0).deleted_items, 3);
}

#[test]
fn recovery_replays_inserts_and_deletes() {
    let records = vec![
        StorageRecord {
            operation: Operation::Insert,
            timestamp: 1,
            item_id: "a".to_string(),
            data: Some(text_item("a", "x", 1)),
        },
        StorageRecord {
            operation: Operation::Insert,
            timestamp: 2,
            item_id: "b".to_string(),
            data: Some(text_item("b", "y", 2)),
        },
        StorageRecord {
            operation: Operation::Delete,
            timestamp: 3,
            item_id: "a".to_string(),
            data: None,
        },
    ];
    let engine = StorageEngine::recover(records);
    assert_eq!(engine.live_ids(), vec!["b".to_string()]);
    assert_eq!(engine.stats(0).deleted_items, 1);
}

#[test]
fn recovery_ignores_an_insert_of_a_buried_id() {
    let records = vec![
        StorageRecord {
            operation: Operation::Delete,
            timestamp: 3,
            item_id: "a".to_string(),
            data: None,
        },
        StorageRecord {
            operation: Operation::Insert,
            timestamp: 4,
            item_id: "a".to_string(),
            data: Some(text_item("a", "x", 4)),
        },
    ];
    let engine = StorageEngine::recover(records);
    assert_eq!(engine.get_all().len(), 0);
    assert_eq!(engine.stats(0).deleted_items, 1);
}

#[test]
fn recovery_ignores_an_insert_without_an_item() {
    let mut engine = StorageEngine::new();
    engine.apply(StorageRecord {
        operation: Operation::Insert,
        timestamp: 4,
        item_id: "a".to_string(),
        data: None,
    });
    assert_eq!(engine.get_all().len(), 0);
    assert_eq!(engine.stats(0).deleted_items, 0);
}

#[test]
fn recovery_leaves_out_an_item_of_another_id_than_its_record() {
    let mut engine = StorageEngine::new();
    engine.apply(StorageRecord {
        operation: Operation::Insert,
        timestamp: 4,
        item_id: "key".to_string(),
        data: Some(text_item("other", "x", 4)),
    });
    assert_eq!(engine.live_ids().len(), 0);
    assert_eq!(engine.get_all().len(), 0);
    engine.apply(StorageRecord {
        operation: Operation::Insert,
        timestamp: 5,
        item_id: "other".to_string(),
        data: Some(text_item("other", "y", 5)),
    });
    engine.apply(StorageRecord {
        operation: Operation::Insert,
        timestamp: 6,
        item_id: "second".to_string(),
        data: Some(text_item("other", "z", 6)),
    });
    assert_eq!(engine.live_ids(), vec!["other".to_string()]);
    let all = engine.get_all();
    assert_eq!(all.len(), 1);
    assert_eq!(all[0].content, "y");
}

#[test]
fn listed_items_have_distinct_ids_and_none_is_buried() {
    let mut engine = StorageEngine::new();
    for round in 0..3u64 {
        for i in 0..6u64 {
            engine.insert(&text_item(&format!("id-{}", i), &format!("r{}", round), 10 * round + i));
        }
        engine.delete(&format!("id-{}", round), 100 + round);
    }
    engine.apply(StorageRecord {
        operation: Operation::Insert,
        timestamp: 200,
        item_id: "id-2".to_string(),
        data: Some(text_item("id-2", "late", 200)),
    });
    let all = engine.get_all();
    let mut ids: Vec<String> = all.iter().map(|i| i.id.clone()).collect();
    assert_eq!(all.len(), engine.stats(0).total_items);
    ids.sort();
    assert_eq!(ids, vec!["id-0", "id-1", "id-3", "id-4", "id-5"]);
    assert!(!ids.contains(&"id-2".to_string()));
    assert_eq!(engine.stats(0).deleted_items, 1);
}

#[test]
fn reopening_twice_lists_the_same() {
    let mut store = Store::new();
    store.insert(&text_item("a", "x", 5));
    store.insert(&files_item("f", 5));
    store.insert(&text_item("b", "y", 7));
    store.delete("a", 8);
    store.insert(&text_item("c", "z", 5));
    let first = replay(&store.log);
    let second = replay(&store.log);
    assert_eq!(listing(&first), listing(&second));
    assert_eq!(listing(&first), listing(&store.engine));
    assert_eq!(first.stats(0), second.stats(0));
}

#[test]
fn crash_in_the_middle_of_an_append_loses_only_that_record() {
    let mut store = Store::new();
    let mut nine = Store::new();
    for i in 0..10u64 {
        let item = text_item(&format!("id-{}", i % 7), &format!("content {}", i), 100 + i);
        if i == 4 {
            store.delete("id-3", 200);
            nine.delete("id-3", 200);
        } else {
            store.insert(&item);
            if i < 9 {
                nine.insert(&item);
            }
        }
    }
    assert_eq!(decode_log(&store.log).len(), 10);
    let mut torn = store.log.clone();
    torn.truncate(store.log.len() - 3);
    let reopened = replay(&torn);
    assert_eq!(decode_log(&torn).len(), 9);
    assert_eq!(listing(&reopened), listing(&nine.engine));
    assert_eq!(listing(&reopened), listing(&replay(&nine.log)));
    assert_eq!(reopened.stats(0), nine.engine.stats(0));
    assert_eq!(reopened.get_all().len(), 5);
}

#[test]
fn record_whose_payload_is_not_an_item_ends_recovery() {
    let mut store = Store::new();
    store.insert(&text_item("a", "x", 1));
    let bad = RecordFrame {
        operation: Operation::Insert,
        timestamp: 2,
        item_id: "b".to_string(),
        payload: "{\"id\":".to_string(),
    };
    store.log.extend_from_slice(&encode_frame(&bad).unwrap());
    store.log.extend_from_slice(
        &encode_frame(&insert_frame(&text_item("c", "z", 3), to_json(&text_item("c", "z", 3)), 3))
            .unwrap(),
    );
    let reopened = replay(&store.log);
    assert_eq!(reopened.live_ids(), vec!["a".to_string()]);
}

#[test]
fn compaction_keeps_the_listing() {
    let mut store = Store::new();
    store.insert(&text_item("a", "x", 5));
    store.insert(&text_item("b", "y", 9));
    store.insert(&files_item("f", 7));
    store.delete("a", 10);
    store.delete("nobody", 11);
    store.insert(&text_item("b", "y2", 12));
    let before = listing(&store.engine);
    store.compact();
    assert_eq!(listing(&store.engine), before);
    assert_eq!(store.engine.stats(0).deleted_items, 0);
    assert_eq!(store.engine.stats(0).total_items, 2);
}

#[test]
fn compacted_log_holds_one_insert_for_each_live_id_and_no_delete() {
    let mut store = Store::new();
    store.insert(&text_item("a", "x", 5));
    store.insert(&text_item("b", "y", 9));
    store.delete("a", 10);
    store.insert(&text_item("c", "z", 2));
    store.insert(&text_item("b", "y2", 12));
    store.compact();
    let frames = decode_log(&store.log);
    assert_eq!(frames.len(), 2);
    assert_eq!(frames[0].operation, Operation::Insert);
    assert_eq!(frames[0].item_id, "b");
    assert_eq!(frames[0].timestamp, 12);
    assert_eq!(frames[0].payload, to_json(&text_item("b", "y2", 12)));
    assert_eq!(frames[1].operation, Operation::Insert);
    assert_eq!(frames[1].item_id, "c");
    assert_eq!(frames[1].timestamp, 2);
    let reopened = Store::open(store.log.clone());
    assert_eq!(listing(&reopened.engine), listing(&store.engine));
}

#[test]
fn crash_before_the_rename_leaves_the_old_log_and_the_old_state() {
    let mut store = Store::new();
    store.insert(&text_item("a", "x", 5));
    store.insert(&text_item("b", "y", 9));
    store.delete("a", 10);
    let before = listing(&store.engine);
    let log_before = store.log.clone();
    let stats_before = store.engine.stats(0);
    let temporary = store.compacted_log();
    assert!(temporary.len() < log_before.len());
    assert_eq!(store.log, log_before);
    assert_eq!(listing(&store.engine), before);
    assert_eq!(store.engine.stats(0), stats_before);
    let reopened = Store::open(log_before);
    assert_eq!(listing(&reopened.engine), before);
    assert_eq!(reopened.engine.stats(0), stats_before);
}

#[test]
fn compaction_frames_need_one_payload_for_each_item() {
    let mut engine = StorageEngine::new();
    engine.insert(&text_item("a", "x", 5));
    engine.insert(&text_item("b", "y", 9));
    assert!(engine.compaction_frames(vec!["{}".to_string()]).is_none());
    assert!(engine.compaction_frames(Vec::new()).is_none());
    let frames = engine.compaction_frames(vec!["{1}".to_string(), "{2}".to_string()]).unwrap();
    assert_eq!(frames.len(), 2);
    assert_eq!(frames[1].payload, "{2}");
    assert_eq!(frames[1].item_id, "b");
}

#[test]
fn frames_of_insert_and_delete() {
    let item = text_item("a", "x", 5);
    let f = insert_frame(&item, "{json}".to_string(), 77);
    assert_eq!(f.operation, Operation::Insert);
    assert_eq!(f.timestamp, 77);
    assert_eq!(f.item_id, "a");
    assert_eq!(f.payload, "{json}");
    let d = delete_frame("gone", 78);
    assert_eq!(d.operation, Operation::Delete);
    assert_eq!(d.timestamp, 78);
    assert_eq!(d.item_id, "gone");
    assert_eq!(d.payload, "");
}

#[test]
fn cloned_item_equals_its_source() {
    let item = files_item("f", 3);
    let copy = item.clone();
    assert!(same_item(&item, &copy));
    assert_eq!(copy.file_types.unwrap()[1].mime_type, "image/png");
}

#[test]
fn last_record_of_every_live_id_is_an_insert() {
    let mut store = Store::new();
    store.insert(&text_item("a", "1", 5));
    store.insert(&text_item("b", "2", 6));
    store.delete("a", 7);
    store.insert(&text_item("c", "3", 8));
    store.insert(&text_item("a", "4", 9));
    store.delete("c", 10);
    store.insert(&text_item("b", "5", 11));
    store.delete("nobody", 12);
    let frames = decode_log(&store.log);
    let live = store.engine.live_ids();
    assert_eq!(live, vec!["b".to_string(), "a".to_string()]);
    for id in &live {
        let last = frames.iter().rev().find(|f| &f.item_id == id).unwrap();
        assert_eq!(last.operation, Operation::Insert);
    }
    let last_of_c = frames.iter().rev().find(|f| f.item_id == "c").unwrap();
    assert_eq!(last_of_c.operation, Operation::Delete);
    store.compact();
    let frames = decode_log(&store.log);
    for id in &live {
        assert_eq!(frames.iter().filter(|f| &f.item_id == id).count(), 1);
    }
    assert!(frames.iter().all(|f| f.operation == Operation::Insert));
    assert_eq!(frames.len(), live.len());
}

#[test]
fn recent_items_are_the_head_of_the_listing() {
    let mut engine = StorageEngine::new();
    for i in 0..5u64 {
        engine.insert(&text_item(&format!("id-{}", i), "x", 10 + i));
    }
    let order = |items: Vec<ClipboardItem>| -> Vec<u64> {
        items.iter().map(|i| i.timestamp).collect()
    };
    assert_eq!(order(engine.get_recent(0)), Vec::<u64>::new());
    assert_eq!(order(engine.get_recent(2)), vec![14, 13]);
    assert_eq!(order(engine.get_recent(5)), vec![14, 13, 12, 11, 10]);
    assert_eq!(order(engine.get_recent(usize::MAX)), vec![14, 13, 12, 11, 10]);
    assert_eq!(clippy_core::storage::LOCAL_ITEM_CAP, 100);
    for i in 5..130u64 {
        engine.insert(&text_item(&format!("id-{}", i), "x", 10 + i));
    }
    let shown = engine.get_recent(clippy_core::storage::LOCAL_ITEM_CAP);
    assert_eq!(shown.len(), 100);
    assert_eq!(shown[0].timestamp, 139);
    assert_eq!(shown[99].timestamp, 40);
}

#[test]
fn records_end_before_the_first_payload_that_was_not_read() {
    let a = text_item("a", "x", 1);
    let frames = vec![
        insert_frame(&a, to_json(&a), 1),
        delete_frame("a", 2),
        insert_frame(&a, "junk".to_string(), 3),
        delete_frame("b", 4),
    ];
    let all = records_of_frames(&frames, &vec![Some(a.clone()), None, Some(a.clone()), None]);
    assert_eq!(all.len(), 4);
    assert!(all[1].data.is_none());
    assert_eq!(all[2].timestamp, 3);
    assert!(all[2].data.is_some());
    let cut = records_of_frames(&frames, &vec![Some(a.clone()), None, None, None]);
    assert_eq!(cut.len(), 2);
    assert_eq!(cut[0].operation, Operation::Insert);
    assert_eq!(cut[0].item_id, "a");
    assert!(same_item(cut[0].data.as_ref().unwrap(), &a));
    assert_eq!(cut[1].operation, Operation::Delete);
    let short = records_of_frames(&frames, &vec![Some(a.clone())]);
    assert_eq!(short.len(), 2);
    let none = records_of_frames(&frames, &Vec::new());
    assert_eq!(none.len(), 0);
    let ignored = records_of_frames(&vec![delete_frame("z", 9)], &vec![Some(a)]);
    assert_eq!(ignored.len(), 1);
    assert!(ignored[0].data.is_none());
}
