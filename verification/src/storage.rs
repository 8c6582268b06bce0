//! The local store: an index of live clipboard items and a set of
//! tombstones, kept in step with an append-only log of records.
//!
//! The engine holds no file. It says which records a change appends to the
//! log, and it follows the log in memory: `recover` replays what was read
//! from disk, `insert`, `delete`, `clear_all` and `compact` follow what the
//! caller has written. `log()` is the sequence of records that the engine
//! has replayed or followed so far.

use vstd::prelude::*;
use crate::keyed::{
    discard, has_key, key_index, lemma_discard, lemma_key_index, lemma_put, put, to_map, unique_keys,
    values_of, KeyedList,
};
use crate::record::{FrameView, Operation, RecordFrame};
use crate::sorting::{
    connected, lemma_run_before_is, lemma_sort_keeps_distinct, lemma_sort_ordered,
    lemma_sort_permutes, lemma_sorted_element, sort_by, transitive,
};
use crate::text::str_eq;

verus! {

/// What is known of one file of a copied set of files.
#[derive(Debug)]
pub struct FileTypeInfo {
    pub path: String,
    pub file_type: String,
    pub mime_type: String,
    pub category: String,
}

/// What a `FileTypeInfo` holds, as mathematical values.
pub struct FileTypeInfoView {
    pub path: Seq<char>,
    pub file_type: Seq<char>,
    pub mime_type: Seq<char>,
    pub category: Seq<char>,
}

impl View for FileTypeInfo {
    type V = FileTypeInfoView;

    open spec fn view(&self) -> FileTypeInfoView {
        FileTypeInfoView {
            path: self.path@,
            file_type: self.file_type@,
            mime_type: self.mime_type@,
            category: self.category@,
        }
    }
}

impl DeepView for FileTypeInfo {
    type V = FileTypeInfoView;

    open spec fn deep_view(&self) -> FileTypeInfoView {
        self@
    }
}

impl Clone for FileTypeInfo {
    fn clone(&self) -> (r: Self)
        ensures
            r@ == self@,
    {
        FileTypeInfo {
            path: self.path.clone(),
            file_type: self.file_type.clone(),
            mime_type: self.mime_type.clone(),
            category: self.category.clone(),
        }
    }
}

/// One entry of the clipboard history.
#[derive(Debug)]
pub struct ClipboardItem {
    pub id: String,
    pub content: String,
    pub timestamp: u64,
    pub item_type: String,
    pub size: Option<u64>,
    pub file_paths: Option<Vec<String>>,
    pub file_types: Option<Vec<FileTypeInfo>>,
}

/// What a `ClipboardItem` holds, as mathematical values.
pub struct ClipboardItemView {
    pub id: Seq<char>,
    pub content: Seq<char>,
    pub timestamp: u64,
    pub item_type: Seq<char>,
    pub size: Option<u64>,
    pub file_paths: Option<Seq<Seq<char>>>,
    pub file_types: Option<Seq<FileTypeInfoView>>,
}

impl View for ClipboardItem {
    type V = ClipboardItemView;

    open spec fn view(&self) -> ClipboardItemView {
        ClipboardItemView {
            id: self.id@,
            content: self.content@,
            timestamp: self.timestamp,
            item_type: self.item_type@,
            size: self.size,
            file_paths: self.file_paths.deep_view(),
            file_types: self.file_types.deep_view(),
        }
    }
}

impl DeepView for ClipboardItem {
    type V = ClipboardItemView;

    open spec fn deep_view(&self) -> ClipboardItemView {
        self@
    }
}

/// A copy of `list`.
pub fn clone_strings(list: &Vec<String>) -> (r: Vec<String>)
    ensures
        r.deep_view() == list.deep_view(),
{
    let mut out: Vec<String> = Vec::new();
    let mut i: usize = 0;
    while i < list.len()
        invariant
            i <= list.len(),
            out.len() == i,
            forall|j: int| 0 <= j < i ==> out[j]@ == list[j]@,
        decreases list.len() - i,
    {
        out.push(list[i].clone());
        i += 1;
    }
    assert(out.deep_view() =~= list.deep_view());
    out
}

/// A copy of `list`.
pub fn clone_file_types(list: &Vec<FileTypeInfo>) -> (r: Vec<FileTypeInfo>)
    ensures
        r.deep_view() == list.deep_view(),
{
    let mut out: Vec<FileTypeInfo> = Vec::new();
    let mut i: usize = 0;
    while i < list.len()
        invariant
            i <= list.len(),
            out.len() == i,
            forall|j: int| 0 <= j < i ==> out[j]@ == list[j]@,
        decreases list.len() - i,
    {
        out.push(list[i].clone());
        i += 1;
    }
    assert(out.deep_view() =~= list.deep_view());
    out
}

impl Clone for ClipboardItem {
    fn clone(&self) -> (r: Self)
        ensures
            r@ == self@,
    {
        let file_paths = match &self.file_paths {
            Some(paths) => Some(clone_strings(paths)),
            None => None,
        };
        let file_types = match &self.file_types {
            Some(types) => Some(clone_file_types(types)),
            None => None,
        };
        ClipboardItem {
            id: self.id.clone(),
            content: self.content.clone(),
            timestamp: self.timestamp,
            item_type: self.item_type.clone(),
            size: self.size,
            file_paths,
            file_types,
        }
    }
}

impl ClipboardItemView {
    /// An item of type `files` names at least one path and says of each
    /// path what kind of file it is.
    pub open spec fn well_formed(self) -> bool {
        self.item_type == "files"@ ==> self.file_paths is Some && self.file_types is Some
            && self.file_paths->0.len() > 0 && self.file_paths->0.len()
            == self.file_types->0.len()
    }
}

/// A log record after its payload was read: an insert carries the item,
/// a delete carries none.
#[derive(Debug)]
pub struct StorageRecord {
    pub operation: Operation,
    pub timestamp: u64,
    pub item_id: String,
    pub data: Option<ClipboardItem>,
}

/// What a `StorageRecord` holds, as mathematical values.
pub struct RecordView {
    pub operation: Operation,
    pub timestamp: u64,
    pub item_id: Seq<char>,
    pub data: Option<ClipboardItemView>,
}

impl View for StorageRecord {
    type V = RecordView;

    open spec fn view(&self) -> RecordView {
        RecordView {
            operation: self.operation,
            timestamp: self.timestamp,
            item_id: self.item_id@,
            data: match self.data {
                Some(item) => Some(item@),
                None => None,
            },
        }
    }
}

impl DeepView for StorageRecord {
    type V = RecordView;

    open spec fn deep_view(&self) -> RecordView {
        self@
    }
}

impl StorageRecord {
    /// The record that `frame` stands for, `data` being what its payload says.
    pub fn from_frame(frame: RecordFrame, data: Option<ClipboardItem>) -> (r: StorageRecord)
        ensures
            r@.operation == frame@.operation,
            r@.timestamp == frame@.timestamp,
            r@.item_id == frame@.item_id,
            r.data == data,
    {
        StorageRecord {
            operation: frame.operation,
            timestamp: frame.timestamp,
            item_id: frame.item_id,
            data,
        }
    }
}

/// The record at position `i` of a log can be read: it has no payload, or
/// its payload was read as an item.
pub open spec fn readable(
    frames: Seq<FrameView>,
    items: Seq<Option<ClipboardItemView>>,
    i: int,
) -> bool {
    frames[i].payload.len() == 0 || (i < items.len() && items[i] is Some)
}

/// The record that the frame at position `i` stands for: it carries the
/// item of its payload, or none where it has no payload.
pub open spec fn record_at(
    frames: Seq<FrameView>,
    items: Seq<Option<ClipboardItemView>>,
    i: int,
) -> RecordView {
    RecordView {
        operation: frames[i].operation,
        timestamp: frames[i].timestamp,
        item_id: frames[i].item_id,
        data: if frames[i].payload.len() == 0 {
            None
        } else {
            items[i]
        },
    }
}

/// The items of `items`, as mathematical values.
pub open spec fn items_view(items: Seq<Option<ClipboardItem>>) -> Seq<Option<ClipboardItemView>> {
    Seq::new(
        items.len(),
        |i: int|
            match items[i] {
                Some(item) => Some(item@),
                None => None,
            },
    )
}

/// The records of a log, given its frames and, for each frame, the item
/// that its payload was read as, `None` where the payload could not be
/// read. The records end before the first frame whose payload could not
/// be read; a frame without payload gives a record without item.
pub fn records_of_frames(frames: &Vec<RecordFrame>, items: &Vec<Option<ClipboardItem>>) -> (records:
    Vec<StorageRecord>)
    ensures
        records.len() <= frames.len(),
        forall|i: int|
            0 <= i < records.len() ==> readable(frames.deep_view(), items_view(items@), i)
                && (#[trigger] records[i])@ == record_at(
                frames.deep_view(),
                items_view(items@),
                i,
            ),
        records.len() < frames.len() ==> !readable(
            frames.deep_view(),
            items_view(items@),
            records.len() as int,
        ),
{
    let mut records: Vec<StorageRecord> = Vec::new();
    let mut i: usize = 0;
    while i < frames.len()
        invariant
            i <= frames.len(),
            records.len() == i,
            forall|j: int|
                0 <= j < i ==> readable(frames.deep_view(), items_view(items@), j)
                    && (#[trigger] records[j])@ == record_at(
                    frames.deep_view(),
                    items_view(items@),
                    j,
                ),
        decreases frames.len() - i,
    {
        let frame = &frames[i];
        let data = if frame.payload.as_str().is_empty() {
            None
        } else if i < items.len() {
            match &items[i] {
                Some(item) => Some(item.clone()),
                None => {
                    return records;
                },
            }
        } else {
            return records;
        };
        records.push(
            StorageRecord {
                operation: frame.operation,
                timestamp: frame.timestamp,
                item_id: frame.item_id.clone(),
                data,
            },
        );
        i += 1;
    }
    records
}

/// The frame of the insert record for `item`, `payload` being its JSON text.
pub fn insert_frame(item: &ClipboardItem, payload: String, timestamp: u64) -> (f: RecordFrame)
    ensures
        f@.operation == Operation::Insert,
        f@.timestamp == timestamp,
        f@.item_id == item@.id,
        f@.payload == payload@,
{
    RecordFrame { operation: Operation::Insert, timestamp, item_id: item.id.clone(), payload }
}

/// The frame of the delete record for `item_id`.
pub fn delete_frame(item_id: &str, timestamp: u64) -> (f: RecordFrame)
    ensures
        f@.operation == Operation::Delete,
        f@.timestamp == timestamp,
        f@.item_id == item_id@,
        f@.payload == Seq::<char>::empty(),
{
    RecordFrame {
        operation: Operation::Delete,
        timestamp,
        item_id: item_id.to_string(),
        payload: String::new(),
    }
}

/// The number of items that the history shows where it shows only the newest.
pub const LOCAL_ITEM_CAP: usize = 100;

/// Counts that describe the store.
#[derive(Clone, Copy, Debug, PartialEq, Eq, Structural)]
pub struct StorageStats {
    pub total_items: usize,
    pub deleted_items: usize,
    pub file_size: u64,
}

/// One line of the log as far as the engine's invariant reads it: the
/// kind of the record and the id it is about.
pub type LogEntry = (Operation, Seq<char>);

/// The kind of the last record of `log` that is about `id`.
pub open spec fn latest_op(log: Seq<LogEntry>, id: Seq<char>) -> Option<Operation>
    decreases log.len(),
{
    if log.len() == 0 {
        None
    } else if log.last().1 == id {
        Some(log.last().0)
    } else {
        latest_op(log.drop_last(), id)
    }
}

/// The number of records of `log` that are about `id`.
pub open spec fn count_of(log: Seq<LogEntry>, id: Seq<char>) -> nat
    decreases log.len(),
{
    if log.len() == 0 {
        0
    } else if log.last().1 == id {
        1 + count_of(log.drop_last(), id)
    } else {
        count_of(log.drop_last(), id)
    }
}

/// The log lines of `records`.
pub open spec fn entries_of(records: Seq<RecordView>) -> Seq<LogEntry> {
    Seq::new(records.len(), |i: int| (records[i].operation, records[i].item_id))
}

/// One insert line for each pair of `entries`, in their order.
pub open spec fn insert_lines<T>(entries: Seq<(Seq<char>, T)>) -> Seq<LogEntry> {
    Seq::new(entries.len(), |i: int| (Operation::Insert, entries[i].0))
}

/// One delete line for each pair of `entries`, in their order.
pub open spec fn delete_lines<T>(entries: Seq<(Seq<char>, T)>) -> Seq<LogEntry> {
    Seq::new(entries.len(), |i: int| (Operation::Delete, entries[i].0))
}

/// The order of `get_all`: an item may stand before one that is not newer.
pub open spec fn newest_first() -> spec_fn(ClipboardItemView, ClipboardItemView) -> bool {
    |a: ClipboardItemView, b: ClipboardItemView| a.timestamp >= b.timestamp
}

/// Every item of `entries` stands under its own id.
pub open spec fn keyed_by_id(entries: Seq<(Seq<char>, ClipboardItemView)>) -> bool {
    forall|i: int| 0 <= i < entries.len() ==> (#[trigger] entries[i]).0 == entries[i].1.id
}

/// The store: the live items under their ids, in the order in which the
/// ids came to life, the tombstones with their times, and the records of
/// the log that led there, oldest first.
pub struct EngineState {
    pub entries: Seq<(Seq<char>, ClipboardItemView)>,
    pub tombstones: Seq<(Seq<char>, u64)>,
    pub log: Seq<LogEntry>,
}

impl EngineState {
    /// The store of an empty log.
    pub open spec fn empty() -> EngineState {
        EngineState { entries: Seq::empty(), tombstones: Seq::empty(), log: Seq::empty() }
    }

    /// The live items by id.
    pub open spec fn index(self) -> Map<Seq<char>, ClipboardItemView> {
        to_map(self.entries)
    }

    /// The times of deletion by id.
    pub open spec fn deleted(self) -> Map<Seq<char>, u64> {
        to_map(self.tombstones)
    }

    /// No id is live twice or buried twice, every live item stands under
    /// its own id, and a live id is not buried and has an insert as its
    /// last record in the log.
    pub open spec fn well_formed(self) -> bool {
        &&& unique_keys(self.entries)
        &&& keyed_by_id(self.entries)
        &&& unique_keys(self.tombstones)
        &&& forall|id: Seq<char>| #[trigger]
            has_key(self.entries, id) ==> !has_key(self.tombstones, id) && latest_op(self.log, id)
                == Some(Operation::Insert)
    }

    /// The store after an insert record for `item` was written and followed.
    pub open spec fn with_insert(self, item: ClipboardItemView) -> EngineState {
        EngineState {
            entries: put(self.entries, item.id, item),
            tombstones: discard(self.tombstones, item.id),
            log: self.log.push((Operation::Insert, item.id)),
        }
    }

    /// The store after a delete record for `id` was written at `timestamp` and followed.
    pub open spec fn with_delete(self, id: Seq<char>, timestamp: u64) -> EngineState {
        EngineState {
            entries: discard(self.entries, id),
            tombstones: put(self.tombstones, id, timestamp),
            log: self.log.push((Operation::Delete, id)),
        }
    }

    /// The store after recovery has read `record`. An insert makes its item
    /// live unless the id is buried; an insert without an item, or with an
    /// item of another id than the record's, leaves the live items as they are.
    pub open spec fn replay_one(self, record: RecordView) -> EngineState {
        let log = self.log.push((record.operation, record.item_id));
        match record.operation {
            Operation::Insert => match record.data {
                Some(item) => if item.id != record.item_id || has_key(
                    self.tombstones,
                    record.item_id,
                ) {
                    EngineState { log, ..self }
                } else {
                    EngineState { entries: put(self.entries, record.item_id, item), log, ..self }
                },
                None => EngineState { log, ..self },
            },
            Operation::Delete => self.with_delete(record.item_id, record.timestamp),
        }
    }

    /// The store after recovery has read `records` from first to last.
    pub open spec fn replay(self, records: Seq<RecordView>) -> EngineState
        decreases records.len(),
    {
        if records.len() == 0 {
            self
        } else {
            self.replay(records.drop_last()).replay_one(records.last())
        }
    }

    /// The store after every live id was deleted at time `timestamp`, first to last.
    pub open spec fn cleared(self, timestamp: u64) -> EngineState
        decreases self.entries.len(),
    {
        if self.entries.len() == 0 {
            self
        } else {
            self.with_delete(self.entries[0].0, timestamp).cleared(timestamp)
        }
    }

    /// The store after its log was replaced by its compaction: the live
    /// items stay, no id is buried, and the log is one insert for each live id.
    pub open spec fn compacted(self) -> EngineState {
        EngineState {
            entries: self.entries,
            tombstones: Seq::empty(),
            log: insert_lines(self.entries),
        }
    }

    /// What `get_all` returns: the live items, newest first, items of one
    /// second in the order in which their ids came to life.
    pub open spec fn listing(self) -> Seq<ClipboardItemView> {
        sort_by(values_of(self.entries), newest_first())
    }
}

/// A log that ends in a record about `id` has that record as the latest about `id`.
pub proof fn lemma_latest_push(log: Seq<LogEntry>, line: LogEntry, id: Seq<char>)
    ensures
        latest_op(log.push(line), id) == if line.1 == id {
            Some(line.0)
        } else {
            latest_op(log, id)
        },
        count_of(log.push(line), id) == count_of(log, id) + if line.1 == id {
            1int
        } else {
            0int
        },
{
    assert(log.push(line).drop_last() =~= log);
    assert(log.push(line).last() == line);
}

/// After one more record, the latest record about its id is that record,
/// and the latest records about the other ids are what they were.
pub proof fn lemma_latest_after(log: Seq<LogEntry>, line: LogEntry)
    ensures
        forall|id: Seq<char>| #[trigger]
            latest_op(log.push(line), id) == if line.1 == id {
                Some(line.0)
            } else {
                latest_op(log, id)
            },
{
    assert forall|id: Seq<char>| #[trigger]
        latest_op(log.push(line), id) == if line.1 == id {
            Some(line.0)
        } else {
            latest_op(log, id)
        } by {
        lemma_latest_push(log, line, id);
    }
}

/// In a log of one insert per pair of a table without repeated keys, each
/// key of the table has exactly one record, an insert, and no other id has any.
pub proof fn lemma_insert_lines<T>(entries: Seq<(Seq<char>, T)>, id: Seq<char>)
    requires
        unique_keys(entries),
    ensures
        has_key(entries, id) ==> latest_op(insert_lines(entries), id) == Some(Operation::Insert)
            && count_of(insert_lines(entries), id) == 1,
        !has_key(entries, id) ==> latest_op(insert_lines(entries), id) is None && count_of(
            insert_lines(entries),
            id,
        ) == 0,
        forall|i: int|
            0 <= i < insert_lines(entries).len() ==> (#[trigger] insert_lines(entries)[i]).0
                == Operation::Insert,
    decreases entries.len(),
{
    let lines = insert_lines(entries);
    if entries.len() > 0 {
        let init = entries.drop_last();
        assert(lines.drop_last() =~= insert_lines(init));
        assert forall|i: int, j: int| 0 <= i < j < init.len() implies (#[trigger] init[i]).0 != (
        #[trigger] init[j]).0 by {
            assert(entries[i].0 != entries[j].0);
        }
        lemma_insert_lines(init, id);
        if entries.last().0 == id {
            assert(has_key(entries, id)) by {
                assert(entries[entries.len() - 1].0 == id);
            }
            if has_key(init, id) {
                let i = key_index(init, id);
                assert(entries[i].0 != entries[entries.len() - 1].0);
            }
        } else {
            if has_key(entries, id) {
                let i = key_index(entries, id);
                assert(init[i].0 == id);
            }
            if has_key(init, id) {
                let i = key_index(init, id);
                assert(entries[i].0 == id);
            }
        }
    }
}

/// Binding an item under its own id keeps every item under its own id.
pub proof fn lemma_put_keyed(entries: Seq<(Seq<char>, ClipboardItemView)>, item: ClipboardItemView)
    requires
        unique_keys(entries),
        keyed_by_id(entries),
    ensures
        keyed_by_id(put(entries, item.id, item)),
{
    let r = put(entries, item.id, item);
    lemma_put(entries, item.id, item);
    assert forall|i: int| 0 <= i < r.len() implies (#[trigger] r[i]).0 == r[i].1.id by {
        if i < entries.len() && r[i] != (item.id, item) {
            assert(r[i] == entries[i]);
        }
    }
}

/// Removing a binding keeps every item under its own id.
pub proof fn lemma_discard_keyed(entries: Seq<(Seq<char>, ClipboardItemView)>, id: Seq<char>)
    requires
        unique_keys(entries),
        keyed_by_id(entries),
    ensures
        keyed_by_id(discard(entries, id)),
{
    let r = discard(entries, id);
    lemma_discard(entries, id);
    if has_key(entries, id) {
        let at = key_index(entries, id);
        assert forall|i: int| 0 <= i < r.len() implies (#[trigger] r[i]).0 == r[i].1.id by {
            assert(r[i] == entries[if i < at { i } else { i + 1 }]);
        }
    }
}

/// Following an insert keeps a store well-formed, makes the id live with
/// the item and lifts its tombstone.
pub proof fn lemma_insert_revives(state: EngineState, item: ClipboardItemView)
    requires
        state.well_formed(),
    ensures
        state.with_insert(item).well_formed(),
        state.with_insert(item).index() == state.index().insert(item.id, item),
        state.with_insert(item).deleted() == state.deleted().remove(item.id),
{
    lemma_put(state.entries, item.id, item);
    lemma_put_keyed(state.entries, item);
    lemma_discard(state.tombstones, item.id);
    lemma_latest_after(state.log, (Operation::Insert, item.id));
}

/// Following a delete keeps a store well-formed, takes the id out of the
/// live items and buries it with the time of the delete.
pub proof fn lemma_delete_buries(state: EngineState, id: Seq<char>, timestamp: u64)
    requires
        state.well_formed(),
    ensures
        state.with_delete(id, timestamp).well_formed(),
        state.with_delete(id, timestamp).index() == state.index().remove(id),
        state.with_delete(id, timestamp).deleted() == state.deleted().insert(id, timestamp),
{
    lemma_discard(state.entries, id);
    lemma_discard_keyed(state.entries, id);
    lemma_put(state.tombstones, id, timestamp);
    lemma_latest_after(state.log, (Operation::Delete, id));
}

/// Replaying a record keeps a store well-formed.
pub proof fn lemma_replay_one_well_formed(state: EngineState, record: RecordView)
    requires
        state.well_formed(),
    ensures
        state.replay_one(record).well_formed(),
{
    lemma_latest_after(state.log, (record.operation, record.item_id));
    lemma_delete_buries(state, record.item_id, record.timestamp);
    if record.data is Some {
        let item = record.data->0;
        lemma_put(state.entries, record.item_id, item);
        if item.id == record.item_id {
            lemma_put_keyed(state.entries, item);
        }
    }
}

/// The log-structured store of the clipboard history.
pub struct StorageEngine {
    index: KeyedList<ClipboardItem>,
    deleted_items: KeyedList<u64>,
    log: Ghost<Seq<LogEntry>>,
}

impl StorageEngine {
    /// The store as it stands: its live items, its tombstones and the
    /// records that this engine has replayed or followed.
    pub closed spec fn state(&self) -> EngineState {
        EngineState { entries: self.index@, tombstones: self.deleted_items@, log: self.log@ }
    }

    /// The records that this engine has replayed or followed, oldest first.
    pub open spec fn log(&self) -> Seq<LogEntry> {
        self.state().log
    }

    /// The engine's invariant: its store is well-formed.
    pub open spec fn wf(&self) -> bool {
        self.state().well_formed()
    }

    /// The engine of an empty log.
    pub fn new() -> (engine: Self)
        ensures
            engine.wf(),
            engine.state() == EngineState::empty(),
    {
        StorageEngine {
            index: KeyedList::new(),
            deleted_items: KeyedList::new(),
            log: Ghost(Seq::empty()),
        }
    }

    /// Replays one record that was read from the log.
    pub fn apply(&mut self, record: StorageRecord)
        requires
            old(self).wf(),
        ensures
            final(self).wf(),
            final(self).state() == old(self).state().replay_one(record@),
    {
        proof {
            lemma_replay_one_well_formed(self.state(), record@);
        }
        let StorageRecord { operation, timestamp, item_id, data } = record;
        match operation {
            Operation::Insert => {
                if let Some(item) = data {
                    if str_eq(item.id.as_str(), item_id.as_str()) && !self.deleted_items.contains_key(
                        item_id.as_str(),
                    ) {
                        self.index.insert(item_id, item);
                    }
                }
            },
            Operation::Delete => {
                self.index.remove(item_id.as_str());
                self.deleted_items.insert(item_id, timestamp);
            },
        }
        proof {
            self.log@ = self.log@.push((operation, record@.item_id));
        }
    }

    /// Rebuilds the engine from the records of a log, first to last.
    pub fn recover(records: Vec<StorageRecord>) -> (engine: Self)
        ensures
            engine.wf(),
            engine.state() == EngineState::empty().replay(records.deep_view()),
            engine.log() == entries_of(records.deep_view()),
    {
        let mut engine = StorageEngine::new();
        let ghost raw = records@;
        let ghost all = records.deep_view();
        assert(all.take(0) =~= Seq::<RecordView>::empty());
        assert(engine.log() =~= entries_of(all.take(0)));
        for record in it: records
            invariant
                it.seq() == raw,
                all.len() == raw.len(),
                forall|i: int| 0 <= i < raw.len() ==> all[i] == (#[trigger] raw[i])@,
                engine.wf(),
                engine.state() == EngineState::empty().replay(all.take(it.index() as int)),
                engine.log() == entries_of(all.take(it.index() as int)),
        {
            proof {
                let n = it.index() as int;
                let next = all.take(n + 1);
                assert(next.drop_last() =~= all.take(n));
                assert(next.last() == record@);
                assert(entries_of(next) =~= entries_of(all.take(n)).push(
                    (record@.operation, record@.item_id),
                ));
            }
            engine.apply(record);
        }
        assert(all.take(all.len() as int) =~= all);
        engine
    }

    /// Follows an insert record for `item` that was written to the log:
    /// the item is live under its id, and the id is no longer buried.
    pub fn insert(&mut self, item: &ClipboardItem)
        requires
            old(self).wf(),
        ensures
            final(self).wf(),
            final(self).state() == old(self).state().with_insert(item@),
    {
        proof {
            lemma_insert_revives(self.state(), item@);
        }
        self.index.insert(item.id.clone(), item.clone());
        self.deleted_items.remove(item.id.as_str());
        proof {
            self.log@ = self.log@.push((Operation::Insert, item@.id));
        }
    }

    /// Follows a delete record for `item_id` that was written to the log at
    /// `timestamp`: the id is not live, and it is buried with that time.
    /// An id that was not live is buried all the same.
    pub fn delete(&mut self, item_id: &str, timestamp: u64)
        requires
            old(self).wf(),
        ensures
            final(self).wf(),
            final(self).state() == old(self).state().with_delete(item_id@, timestamp),
    {
        proof {
            lemma_delete_buries(self.state(), item_id@, timestamp);
        }
        self.index.remove(item_id);
        self.deleted_items.insert(item_id.to_string(), timestamp);
        proof {
            self.log@ = self.log@.push((Operation::Delete, item_id@));
        }
    }

    /// The ids that are live, in the order in which they came to life.
    pub fn live_ids(&self) -> (ids: Vec<String>)
        ensures
            ids.len() == self.state().entries.len(),
            forall|i: int| 0 <= i < ids.len() ==> ids[i]@ == self.state().entries[i].0,
    {
        let mut ids: Vec<String> = Vec::new();
        let mut i: usize = 0;
        while i < self.index.len()
            invariant
                i <= self.index@.len(),
                ids.len() == i,
                forall|j: int| 0 <= j < i ==> ids[j]@ == self.index@[j].0,
            decreases self.index@.len() - i,
        {
            ids.push(self.index.key_at(i).clone());
            i += 1;
        }
        ids
    }

    /// The live items, in the order in which their ids came to life.
    pub fn items(&self) -> (items: Vec<ClipboardItem>)
        ensures
            items.deep_view() == values_of(self.state().entries),
    {
        let mut items: Vec<ClipboardItem> = Vec::new();
        let mut i: usize = 0;
        while i < self.index.len()
            invariant
                i <= self.index@.len(),
                items.len() == i,
                forall|j: int| 0 <= j < i ==> items[j]@ == self.index@[j].1,
            decreases self.index@.len() - i,
        {
            items.push(self.index.value_at(i).clone());
            i += 1;
        }
        assert(items.deep_view() =~= values_of(self.state().entries));
        items
    }

    /// The live items, newest first: every live item once, no two of one
    /// id, and none of a buried id.
    pub fn get_all(&self) -> (items: Vec<ClipboardItem>)
        ensures
            items.deep_view() == self.state().listing(),
            items.len() == self.state().entries.len(),
            forall|i: int, j: int|
                0 <= i < j < items.len() ==> items[i].timestamp >= items[j].timestamp,
            items.deep_view().to_multiset() == values_of(self.state().entries).to_multiset(),
            self.wf() ==> forall|i: int, j: int|
                0 <= i < j < items.len() ==> (#[trigger] items[i])@.id != (#[trigger] items[j])@.id,
            self.wf() ==> forall|i: int|
                0 <= i < items.len() ==> self.state().index().contains_key(
                    (#[trigger] items[i])@.id,
                ) && !self.state().deleted().contains_key(items[i]@.id),
    {
        let ghost values = values_of(self.index@);
        let mut items: Vec<ClipboardItem> = Vec::new();
        let mut i: usize = 0;
        assert(values.take(0) =~= Seq::<ClipboardItemView>::empty());
        while i < self.index.len()
            invariant
                i <= self.index@.len(),
                values == values_of(self.index@),
                items.len() == i,
                items.deep_view() == sort_by(values.take(i as int), newest_first()),
            decreases self.index@.len() - i,
        {
            let item = self.index.value_at(i).clone();
            let mut at: usize = 0;
            while at < items.len() && items[at].timestamp >= item.timestamp
                invariant
                    at <= items.len(),
                    forall|j: int|
                        0 <= j < at ==> (newest_first())(
                            #[trigger] items.deep_view()[j],
                            item@,
                        ),
                decreases items.len() - at,
            {
                at += 1;
            }
            proof {
                let sorted = items.deep_view();
                let next = values.take(i + 1);
                assert(next.drop_last() =~= values.take(i as int));
                assert(next.last() == item@);
                if at < items.len() {
                    assert(!(newest_first())(sorted[at as int], item@));
                }
                lemma_run_before_is(sorted, item@, newest_first(), at as int);
            }
            let ghost sorted = items.deep_view();
            items.insert(at, item);
            assert(items.deep_view() =~= sorted.insert(at as int, item@));
            i += 1;
        }
        proof {
            assert(values.take(i as int) =~= values);
            assert(connected(newest_first()));
            assert(transitive(newest_first()));
            lemma_sort_ordered(values, newest_first());
            lemma_sort_permutes(values, newest_first());
            assert forall|a: int, b: int| 0 <= a < b < items.len() implies items[a].timestamp
                >= items[b].timestamp by {
                assert((newest_first())(items.deep_view()[a], items.deep_view()[b]));
            }
            if self.wf() {
                lemma_listing_of_live(self.state());
                assert forall|a: int, b: int| 0 <= a < b < items.len() implies (
                #[trigger] items[a])@.id != (#[trigger] items[b])@.id by {
                    assert(items.deep_view()[a] == items[a]@);
                    assert(items.deep_view()[b] == items[b]@);
                }
                assert forall|a: int| 0 <= a < items.len() implies self.state().index().contains_key(
                    (#[trigger] items[a])@.id,
                ) && !self.state().deleted().contains_key(items[a]@.id) by {
                    assert(items.deep_view()[a] == items[a]@);
                }
            }
        }
        items
    }

    /// The newest live items, newest first: the first `limit` of what
    /// `get_all` lists, or all of it where it lists fewer.
    pub fn get_recent(&self, limit: usize) -> (items: Vec<ClipboardItem>)
        ensures
            items.deep_view() == self.state().listing().take(
                if limit <= self.state().entries.len() {
                    limit as int
                } else {
                    self.state().entries.len() as int
                },
            ),
    {
        let mut items = self.get_all();
        if limit < items.len() {
            items.truncate(limit);
        }
        assert(items.deep_view() =~= self.state().listing().take(
            if limit <= self.state().entries.len() {
                limit as int
            } else {
                self.state().entries.len() as int
            },
        ));
        items
    }

    /// Follows a delete record, written at `timestamp`, for every id that
    /// is live, from the first that came to life to the last.
    pub fn clear_all(&mut self, timestamp: u64)
        requires
            old(self).wf(),
        ensures
            final(self).wf(),
            final(self).state() == old(self).state().cleared(timestamp),
            final(self).state().entries == Seq::<(Seq<char>, ClipboardItemView)>::empty(),
            final(self).log() == old(self).log() + delete_lines(old(self).state().entries),
    {
        let ghost start = self.index@;
        let ghost mut done: int = 0;
        assert(start.skip(0) =~= start);
        assert(self.log() =~= old(self).log() + delete_lines(start).take(0));
        while self.index.len() > 0
            invariant
                self.wf(),
                self.state().cleared(timestamp) == old(self).state().cleared(timestamp),
                start == old(self).state().entries,
                0 <= done <= start.len(),
                self.state().entries == start.skip(done),
                self.log() == old(self).log() + delete_lines(start).take(done),
            decreases self.index@.len(),
        {
            let id = self.index.key_at(0).clone();
            proof {
                lemma_discard(self.index@, id@);
                lemma_key_index(self.index@, 0);
                assert(self.index@.remove(0) =~= start.skip(done + 1));
                assert(delete_lines(start).take(done + 1) =~= delete_lines(start).take(done).push(
                    (Operation::Delete, id@),
                ));
            }
            self.delete(id.as_str(), timestamp);
            proof {
                assert(self.log() =~= old(self).log() + delete_lines(start).take(done + 1));
                done = done + 1;
            }
        }
        proof {
            assert(self.state().entries =~= Seq::<(Seq<char>, ClipboardItemView)>::empty());
            assert(delete_lines(start).take(done) =~= delete_lines(start));
        }
    }

    /// Counts the live items and the tombstones; `file_size` is the size of
    /// the log file in bytes.
    pub fn stats(&self, file_size: u64) -> (stats: StorageStats)
        ensures
            stats.total_items == self.state().entries.len(),
            stats.deleted_items == self.state().tombstones.len(),
            stats.file_size == file_size,
    {
        StorageStats {
            total_items: self.index.len(),
            deleted_items: self.deleted_items.len(),
            file_size,
        }
    }

    /// The records of the compacted log: one insert for each live id, under
    /// that id and with the item's own time; `payloads` holds the JSON text
    /// of each live item, in the order of `items`. `None` when `payloads`
    /// has another length than `items`.
    pub fn compaction_frames(&self, payloads: Vec<String>) -> (r: Option<Vec<RecordFrame>>)
        ensures
            r is Some <==> payloads.len() == self.state().entries.len(),
            r matches Some(frames) ==> frames.len() == payloads.len() && forall|i: int|
                0 <= i < frames.len() ==> {
                    &&& (#[trigger] frames[i])@.operation == Operation::Insert
                    &&& frames[i]@.timestamp == self.state().entries[i].1.timestamp
                    &&& frames[i]@.item_id == self.state().entries[i].0
                    &&& frames[i]@.payload == payloads[i]@
                },
    {
        if payloads.len() != self.index.len() {
            return None;
        }
        let mut frames: Vec<RecordFrame> = Vec::new();
        let mut i: usize = 0;
        while i < self.index.len()
            invariant
                i <= self.index@.len(),
                payloads.len() == self.index@.len(),
                frames.len() == i,
                forall|j: int|
                    0 <= j < i ==> {
                        &&& (#[trigger] frames[j])@.operation == Operation::Insert
                        &&& frames[j]@.timestamp == self.index@[j].1.timestamp
                        &&& frames[j]@.item_id == self.index@[j].0
                        &&& frames[j]@.payload == payloads[j]@
                    },
            decreases self.index@.len() - i,
        {
            frames.push(
                RecordFrame {
                    operation: Operation::Insert,
                    timestamp: self.index.value_at(i).timestamp,
                    item_id: self.index.key_at(i).clone(),
                    payload: payloads[i].clone(),
                },
            );
            i += 1;
        }
        Some(frames)
    }

    /// Follows the replacement of the log by its compaction: the live items
    /// stay as they are, no id is buried any more, and the log is one insert
    /// for each live id.
    pub fn compact(&mut self)
        requires
            old(self).wf(),
        ensures
            final(self).wf(),
            final(self).state() == old(self).state().compacted(),
            final(self).state().listing() == old(self).state().listing(),
    {
        self.deleted_items.clear();
        proof {
            self.log@ = insert_lines(self.index@);
            assert forall|id: Seq<char>| #[trigger] has_key(self.index@, id) implies latest_op(
                self.log@,
                id,
            ) == Some(Operation::Insert) by {
                lemma_insert_lines(self.index@, id);
            }
        }
    }
}

/// What a well-formed store lists: no two items of one id, and only
/// items of ids that are live and not buried.
pub proof fn lemma_listing_of_live(state: EngineState)
    requires
        state.well_formed(),
    ensures
        forall|i: int, j: int|
            0 <= i < j < state.listing().len() ==> (#[trigger] state.listing()[i]).id != (
            #[trigger] state.listing()[j]).id,
        forall|i: int|
            0 <= i < state.listing().len() ==> state.index().contains_key(
                (#[trigger] state.listing()[i]).id,
            ) && !state.deleted().contains_key(state.listing()[i].id),
{
    let values = values_of(state.entries);
    let listing = state.listing();
    let id_of = |item: ClipboardItemView| item.id;
    assert forall|i: int, j: int| 0 <= i < j < values.len() implies id_of(#[trigger] values[i])
        != id_of(#[trigger] values[j]) by {
        assert(state.entries[i].0 != state.entries[j].0);
    }
    lemma_sort_keeps_distinct(values, newest_first(), id_of);
    assert forall|i: int, j: int| 0 <= i < j < listing.len() implies (#[trigger] listing[i]).id != (
    #[trigger] listing[j]).id by {
        assert(id_of(listing[i]) != id_of(listing[j]));
    }
    assert forall|i: int| 0 <= i < listing.len() implies state.index().contains_key(
        (#[trigger] listing[i]).id,
    ) && !state.deleted().contains_key(listing[i].id) by {
        let k = lemma_sorted_element(values, newest_first(), i);
        assert(state.entries[k].0 == listing[i].id);
        lemma_key_index(state.entries, k);
    }
}

/// Every id that is live in a well-formed engine has records in the
/// engine's log, and the last of them is an insert.
pub proof fn lemma_live_id_was_inserted(engine: StorageEngine, id: Seq<char>)
    requires
        engine.wf(),
        engine.state().index().contains_key(id),
    ensures
        latest_op(engine.log(), id) == Some(Operation::Insert),
{
}

/// Recovery is a function of the records: two engines that replayed the
/// same records list the same items in the same order.
pub proof fn lemma_recovery_deterministic(
    first: StorageEngine,
    second: StorageEngine,
    records: Seq<RecordView>,
)
    requires
        first.state() == EngineState::empty().replay(records),
        second.state() == EngineState::empty().replay(records),
    ensures
        first.state() == second.state(),
        first.state().listing() == second.state().listing(),
{
}

/// Deleting an id that is not live leaves the live items as they are and
/// buries the id; deleting it once more does the same, with the later
/// time; the id is not live after either.
pub proof fn lemma_delete_idempotent(state: EngineState, id: Seq<char>, first: u64, second: u64)
    requires
        state.well_formed(),
    ensures
        state.with_delete(id, first).well_formed(),
        !has_key(state.entries, id) ==> state.with_delete(id, first).entries == state.entries,
        !has_key(state.with_delete(id, first).entries, id),
        state.with_delete(id, first).deleted().contains_key(id),
        state.with_delete(id, first).deleted()[id] == first,
        state.with_delete(id, first).with_delete(id, second).entries == state.with_delete(
            id,
            first,
        ).entries,
        state.with_delete(id, first).with_delete(id, second).deleted() == state.with_delete(
            id,
            first,
        ).deleted().insert(id, second),
        !has_key(state.with_delete(id, first).with_delete(id, second).entries, id),
{
    let once = state.with_delete(id, first);
    lemma_delete_buries(state, id, first);
    lemma_discard(state.entries, id);
    lemma_delete_buries(once, id, second);
    lemma_discard(once.entries, id);
}

/// Replaying records keeps a store well-formed.
pub proof fn lemma_replay_well_formed(state: EngineState, records: Seq<RecordView>)
    requires
        state.well_formed(),
    ensures
        state.replay(records).well_formed(),
    decreases records.len(),
{
    if records.len() > 0 {
        lemma_replay_well_formed(state, records.drop_last());
        lemma_replay_one_well_formed(state.replay(records.drop_last()), records.last());
    }
}

/// After every live id was deleted, nothing is live; an id is buried
/// exactly if it was buried or live before; the ids that were live are
/// buried with the time of the clearing, the others keep their time.
pub proof fn lemma_cleared(state: EngineState, timestamp: u64, id: Seq<char>)
    requires
        state.well_formed(),
    ensures
        state.cleared(timestamp).well_formed(),
        state.cleared(timestamp).entries.len() == 0,
        state.cleared(timestamp).deleted().contains_key(id) <==> state.deleted().contains_key(id)
            || state.index().contains_key(id),
        state.index().contains_key(id) ==> state.cleared(timestamp).deleted()[id] == timestamp,
        !state.index().contains_key(id) && state.deleted().contains_key(id) ==> state.cleared(
            timestamp,
        ).deleted()[id] == state.deleted()[id],
    decreases state.entries.len(),
{
    if state.entries.len() > 0 {
        let first = state.entries[0].0;
        let next = state.with_delete(first, timestamp);
        lemma_key_index(state.entries, 0);
        lemma_delete_buries(state, first, timestamp);
        lemma_discard(state.entries, first);
        lemma_cleared(next, timestamp, id);
    }
}

/// What the engine does when it follows a write is what recovery does when
/// it reads that write back: always for a delete, and for an insert unless
/// the id is buried, in which case recovery leaves the item out.
pub proof fn lemma_follow_agrees_with_replay(
    state: EngineState,
    id: Seq<char>,
    item: ClipboardItemView,
    timestamp: u64,
)
    ensures
        state.with_delete(id, timestamp) == state.replay_one(
            RecordView { operation: Operation::Delete, timestamp, item_id: id, data: None },
        ),
        !has_key(state.tombstones, item.id) ==> state.with_insert(item) == state.replay_one(
            RecordView {
                operation: Operation::Insert,
                timestamp,
                item_id: item.id,
                data: Some(item),
            },
        ),
        has_key(state.tombstones, item.id) ==> state.replay_one(
            RecordView {
                operation: Operation::Insert,
                timestamp,
                item_id: item.id,
                data: Some(item),
            },
        ).entries == state.entries,
{
}

} // verus!
