//! The sync engine: the state of one device and the steps by which it is
//! reconciled with the operation log that all devices of a user share.
//!
//! The engine does no I/O. A local change hands back the uploads that the
//! caller is to write; a reconciliation is driven through `sync` and `step`:
//! the engine names the next remote read, the caller performs it and reports
//! what came back.
//!
//! ```text
//! <user_id>/oplog/<op_id>.json             one operation, never rewritten
//! <user_id>/snapshots/<stamp>_snapshot.json  a snapshot
//! <user_id>/snapshots/latest.json          names the latest snapshot
//! ```

use vstd::prelude::*;
use vstd::string::*;
use crate::ids::fresh_id;
use crate::instant::{format_stamp, stamp_text, utc_now, Timestamp};
use crate::keyed::{
    discard, key_index, lemma_discard, lemma_key_index, lemma_put, put, to_map, unique_keys,
    values_of, KeyedList,
};
pub use crate::oplog::{ItemMetadata, OpType, Operation, SyncClipboardItem};
use crate::oplog::{
    ids_match, latest_of, later_of, lemma_lww_step_keeps, lemma_op_order_sorts, lww_fold, lww_step,
    news_of, op_order, sort_news, ItemTable, OperationView, SyncItemView,
};
use crate::sorting::{lemma_sort_ordered, lemma_sort_permutes, ordered, sort_by};
use crate::text::str_eq;

verus! {

/// The items of a user at one moment, for devices that join later.
#[derive(Debug)]
pub struct Snapshot {
    pub items: Vec<SyncClipboardItem>,
    pub snapshot_timestamp: Timestamp,
    pub last_op_timestamp: Timestamp,
    pub device_id: String,
}

/// Who syncs, and how often.
#[derive(Debug)]
pub struct SyncConfig {
    pub user_id: String,
    pub device_id: String,
    pub sync_interval_seconds: u64,
}

/// The number of seconds between two reconciliations in the background,
/// unless the configuration says otherwise.
pub const DEFAULT_SYNC_INTERVAL_SECONDS: u64 = 15;

impl SyncConfig {
    /// The configuration of `device_id` of `user_id`, with the default interval.
    pub fn new(user_id: String, device_id: String) -> (config: SyncConfig)
        ensures
            config.user_id == user_id,
            config.device_id == device_id,
            config.sync_interval_seconds == DEFAULT_SYNC_INTERVAL_SECONDS,
    {
        SyncConfig { user_id, device_id, sync_interval_seconds: DEFAULT_SYNC_INTERVAL_SECONDS }
    }
}

/// The key of the operation `op_id` of `user_id`.
pub open spec fn oplog_key(user_id: Seq<char>, op_id: Seq<char>) -> Seq<char> {
    user_id + "/oplog/"@ + op_id + ".json"@
}

/// The prefix of the keys of all operations of `user_id`.
pub open spec fn oplog_prefix(user_id: Seq<char>) -> Seq<char> {
    user_id + "/oplog/"@
}

/// The key of the object that names the latest snapshot of `user_id`.
pub open spec fn latest_key(user_id: Seq<char>) -> Seq<char> {
    user_id + "/snapshots/latest.json"@
}

/// The key of the snapshot of `user_id` that was taken at the time written `stamp`.
pub open spec fn snapshot_key(user_id: Seq<char>, stamp: Seq<char>) -> Seq<char> {
    user_id + "/snapshots/"@ + stamp + "_snapshot.json"@
}

/// The format in which the time of a snapshot enters its key: `YYYYMMDD_HHMMSS`.
pub open spec fn stamp_pattern() -> Seq<char> {
    "%Y%m%d_%H%M%S"@
}

/// The member of the object naming the latest snapshot that holds the snapshot's key.
pub open spec fn pointer_member() -> Seq<char> {
    "snapshot_path"@
}

/// The key of the operation `op_id` of `user_id`.
pub fn oplog_path(user_id: &str, op_id: &str) -> (path: String)
    ensures
        path@ == oplog_key(user_id@, op_id@),
{
    let mut path = user_id.to_string();
    path.append("/oplog/");
    path.append(op_id);
    path.append(".json");
    path
}

/// The prefix of the keys of all operations of `user_id`.
pub fn oplog_dir(user_id: &str) -> (path: String)
    ensures
        path@ == oplog_prefix(user_id@),
{
    let mut path = user_id.to_string();
    path.append("/oplog/");
    path
}

/// The key of the object that names the latest snapshot of `user_id`.
pub fn latest_path(user_id: &str) -> (path: String)
    ensures
        path@ == latest_key(user_id@),
{
    let mut path = user_id.to_string();
    path.append("/snapshots/latest.json");
    path
}

/// The key of the snapshot of `user_id` that was taken at the time written `stamp`.
pub fn snapshot_path(user_id: &str, stamp: &str) -> (path: String)
    ensures
        path@ == snapshot_key(user_id@, stamp@),
{
    let mut path = user_id.to_string();
    path.append("/snapshots/");
    path.append(stamp);
    path.append("_snapshot.json");
    path
}

/// The table that a snapshot's items make: each under its own id, a later
/// item of an id in place of an earlier one.
pub open spec fn table_of(items: Seq<SyncItemView>) -> ItemTable
    decreases items.len(),
{
    if items.len() == 0 {
        Seq::empty()
    } else {
        put(table_of(items.drop_last()), items.last().id, items.last())
    }
}

/// A table made of a snapshot's items has no id twice and each item under its own id.
pub proof fn lemma_table_of(items: Seq<SyncItemView>)
    ensures
        unique_keys(table_of(items)),
        ids_match(table_of(items)),
    decreases items.len(),
{
    if items.len() > 0 {
        let init = table_of(items.drop_last());
        let x = items.last();
        lemma_table_of(items.drop_last());
        lemma_put(init, x.id, x);
        let r = table_of(items);
        assert forall|i: int| 0 <= i < r.len() implies (#[trigger] r[i]).0 == r[i].1.id by {
            if i < init.len() && r[i] != (x.id, x) {
                assert(r[i] == init[i]);
            }
        }
    }
}

/// What one device knows: the items, the time of the latest operation it
/// has applied, and the operations it has issued and not yet handed out.
pub struct SyncState {
    pub items: KeyedList<SyncClipboardItem>,
    pub last_sync_timestamp: Option<Timestamp>,
    pub pending_ops: Vec<Operation>,
}

impl Default for SyncState {
    fn default() -> (state: SyncState)
        ensures
            state.wf(),
            state.items@ == Seq::<(Seq<char>, SyncItemView)>::empty(),
            state.last_sync_timestamp is None,
            state.pending_ops@ == Seq::<Operation>::empty(),
    {
        SyncState { items: KeyedList::new(), last_sync_timestamp: None, pending_ops: Vec::new() }
    }
}

impl SyncState {
    /// No id is held twice, and every item stands under its own id.
    pub open spec fn wf(&self) -> bool {
        self.items.wf() && ids_match(self.items@)
    }

    /// Applies one operation by the last-writer-wins rule and notes its time.
    pub fn apply_operation(&mut self, op: Operation)
        requires
            old(self).wf(),
        ensures
            final(self).wf(),
            final(self).items@ == lww_step(old(self).items@, op@),
            final(self).last_sync_timestamp == later_of(
                old(self).last_sync_timestamp,
                op.timestamp,
            ),
            final(self).pending_ops == old(self).pending_ops,
    {
        proof {
            lemma_lww_step_keeps(self.items@, op@);
        }
        let Operation { op_id, op_type, target_id, timestamp, device_id, payload } = op;
        match op_type {
            OpType::Add => {
                if let Some(item) = payload {
                    if str_eq(item.id.as_str(), target_id.as_str()) {
                        let replace = match self.items.get(target_id.as_str()) {
                            Some(existing) => existing.created_at.is_before(&item.created_at),
                            None => true,
                        };
                        if replace {
                            self.items.insert(target_id, item);
                        }
                    }
                }
            },
            OpType::Delete => {
                let remove = match self.items.get(target_id.as_str()) {
                    Some(existing) => existing.created_at.is_at_or_before(&timestamp),
                    None => false,
                };
                if remove {
                    self.items.remove(target_id.as_str());
                }
            },
        }
        self.last_sync_timestamp = match self.last_sync_timestamp {
            Some(last) => if last.is_before(&timestamp) {
                Some(timestamp)
            } else {
                Some(last)
            },
            None => Some(timestamp),
        };
    }

    /// Applies `ops` from first to last by the last-writer-wins rule.
    pub fn apply_operations(&mut self, ops: Vec<Operation>)
        requires
            old(self).wf(),
        ensures
            final(self).wf(),
            final(self).items@ == lww_fold(old(self).items@, ops.deep_view()),
            final(self).last_sync_timestamp == latest_of(
                old(self).last_sync_timestamp,
                ops.deep_view(),
            ),
            final(self).pending_ops == old(self).pending_ops,
    {
        let ghost raw = ops@;
        let ghost all = ops.deep_view();
        assert(all.take(0) =~= Seq::<OperationView>::empty());
        for op in it: ops
            invariant
                it.seq() == raw,
                all.len() == raw.len(),
                forall|i: int| 0 <= i < raw.len() ==> all[i] == (#[trigger] raw[i])@,
                self.wf(),
                self.items@ == lww_fold(old(self).items@, all.take(it.index() as int)),
                self.last_sync_timestamp == latest_of(
                    old(self).last_sync_timestamp,
                    all.take(it.index() as int),
                ),
                self.pending_ops == old(self).pending_ops,
        {
            proof {
                let n = it.index() as int;
                let next = all.take(n + 1);
                assert(next.drop_last() =~= all.take(n));
                assert(next.last() == op@);
            }
            self.apply_operation(op);
        }
        assert(all.take(all.len() as int) =~= all);
    }

    /// Replaces the items by those of `snapshot` and takes over the time up
    /// to which the snapshot has applied the operation log.
    pub fn load_snapshot(&mut self, snapshot: Snapshot)
        ensures
            final(self).wf(),
            final(self).items@ == table_of(snapshot.items.deep_view()),
            final(self).last_sync_timestamp == Some(snapshot.last_op_timestamp),
            final(self).pending_ops == old(self).pending_ops,
    {
        let Snapshot { items, snapshot_timestamp, last_op_timestamp, device_id } = snapshot;
        self.items.clear();
        let ghost raw = items@;
        let ghost all = items.deep_view();
        assert(all.take(0) =~= Seq::<SyncItemView>::empty());
        for item in it: items
            invariant
                it.seq() == raw,
                all.len() == raw.len(),
                forall|i: int| 0 <= i < raw.len() ==> all[i] == (#[trigger] raw[i])@,
                self.items.wf(),
                self.items@ == table_of(all.take(it.index() as int)),
                self.pending_ops == old(self).pending_ops,
        {
            proof {
                let n = it.index() as int;
                let next = all.take(n + 1);
                assert(next.drop_last() =~= all.take(n));
                assert(next.last() == item@);
            }
            self.items.insert(item.id.clone(), item);
        }
        proof {
            assert(all.take(all.len() as int) =~= all);
            lemma_table_of(all);
        }
        self.last_sync_timestamp = Some(last_op_timestamp);
    }
}

/// One object that the caller is to write: the operation `operation` under the key `path`.
#[derive(Debug)]
pub struct Upload {
    pub path: String,
    pub operation: Operation,
}

/// What is to be written for a snapshot: the snapshot itself under
/// `snapshot_path` first, then an object under `latest_path` that names
/// `snapshot_path` and the snapshot's time.
#[derive(Debug)]
pub struct SnapshotPlan {
    pub snapshot: Snapshot,
    pub snapshot_path: String,
    pub latest_path: String,
}

/// What `get_status` reports.
#[derive(Clone, Copy, Debug, PartialEq, Eq, Structural)]
pub struct SyncStatus {
    pub item_count: usize,
    pub is_syncing: bool,
    pub initialized: bool,
    pub last_sync: Option<Timestamp>,
    pub pending_ops: usize,
}

/// Where a reconciliation stands.
#[derive(Clone, Copy, Debug, PartialEq, Eq, Structural)]
pub enum SyncPhase {
    /// None is under way.
    Idle,
    /// The object that names the latest snapshot is being read.
    AwaitingPointer,
    /// The snapshot is being read.
    AwaitingSnapshot,
    /// The operation log is being listed and read.
    AwaitingOps,
}

/// Why a reconciliation ended without success.
#[derive(Clone, Copy, Debug, PartialEq, Eq, Structural)]
pub enum SyncError {
    /// Another reconciliation is under way.
    Busy,
    /// The caller reported something that the engine had not asked for.
    UnexpectedEvent,
    /// The object that names the latest snapshot is not JSON.
    InvalidPointer,
    /// The object that names the latest snapshot holds no path.
    InvalidSnapshotInfo,
    /// The remote store failed, or one of its objects could not be read as what it should be.
    Remote,
}

/// What the caller reports to the engine.
#[derive(Debug)]
pub enum SyncEvent {
    /// There is no object that names a latest snapshot.
    PointerMissing,
    /// The bytes of the object that names the latest snapshot.
    PointerRead(Vec<u8>),
    /// The snapshot that was asked for.
    SnapshotRead(Snapshot),
    /// All operations found under the prefix that was asked for, in any order.
    OpsFetched(Vec<Operation>),
    /// The read failed.
    Failed,
}

/// What the engine asks of the caller.
#[derive(Debug)]
pub enum SyncAction {
    /// Read the object under this key; report `PointerRead`, `PointerMissing` or `Failed`.
    ReadPointer(String),
    /// Read the snapshot under this key; report `SnapshotRead` or `Failed`.
    ReadSnapshot(String),
    /// List the keys under this prefix and read each; report `OpsFetched` or `Failed`.
    ListOps(String),
    /// The reconciliation is complete.
    Done,
    /// The reconciliation has ended without success.
    Abort(SyncError),
}

/// What a `SyncAction` holds, as mathematical values.
pub enum ActionView {
    ReadPointer(Seq<char>),
    ReadSnapshot(Seq<char>),
    ListOps(Seq<char>),
    Done,
    Abort(SyncError),
}

impl View for SyncAction {
    type V = ActionView;

    open spec fn view(&self) -> ActionView {
        match self {
            SyncAction::ReadPointer(p) => ActionView::ReadPointer(p@),
            SyncAction::ReadSnapshot(p) => ActionView::ReadSnapshot(p@),
            SyncAction::ListOps(p) => ActionView::ListOps(p@),
            SyncAction::Done => ActionView::Done,
            SyncAction::Abort(e) => ActionView::Abort(*e),
        }
    }
}

/// `serde_json::Error`, which is handed on without being looked into.
#[verifier::external_type_specification]
#[verifier::external_body]
pub struct ExJsonError(serde_json::Error);

/// What `serde_json` finds in `bytes` when it reads them as a JSON value and
/// looks up the member `key`: `None` where the bytes are not JSON, else the
/// member's text, if the value has that member and it is a string.
pub uninterp spec fn json_text_member(bytes: Seq<u8>, key: Seq<char>) -> Option<Option<Seq<char>>>;

/// Wraps `serde_json::from_slice` for a `serde_json::Value`, followed by the
/// lookup `[key]` and `Value::as_str`.
#[verifier::external_body]
fn read_text_member(bytes: &[u8], key: &str) -> (r: Result<Option<String>, serde_json::Error>)
    ensures
        r matches Ok(text) ==> json_text_member(bytes@, key@) == Some(text.deep_view()),
        r is Err ==> json_text_member(bytes@, key@) is None,
{
    match serde_json::from_slice::<serde_json::Value>(bytes) {
        Ok(value) => Ok(value[key].as_str().map(|s| s.to_string())),
        Err(e) => Err(e),
    }
}

/// The key of the snapshot that a pointer object's bytes name.
pub open spec fn pointer_target(bytes: Seq<u8>) -> Result<Seq<char>, SyncError> {
    match json_text_member(bytes, pointer_member()) {
        None => Err(SyncError::InvalidPointer),
        Some(None) => Err(SyncError::InvalidSnapshotInfo),
        Some(Some(path)) => Ok(path),
    }
}

/// Reads the bytes of the object that names the latest snapshot: the key
/// of that snapshot, `InvalidPointer` where the bytes are not JSON,
/// `InvalidSnapshotInfo` where the JSON names no path.
pub fn load_latest_snapshot(bytes: &[u8]) -> (r: Result<String, SyncError>)
    ensures
        r matches Ok(path) ==> pointer_target(bytes@) == Ok::<Seq<char>, SyncError>(path@),
        r matches Err(e) ==> pointer_target(bytes@) == Err::<Seq<char>, SyncError>(e),
{
    match read_text_member(bytes, "snapshot_path") {
        Ok(Some(path)) => Ok(path),
        Ok(None) => Err(SyncError::InvalidSnapshotInfo),
        Err(_) => Err(SyncError::InvalidPointer),
    }
}

/// What is news in `fetched` after `since`, in the order in which it takes effect.
pub open spec fn news_in_order(fetched: Seq<OperationView>, since: Option<Timestamp>) -> Seq<
    OperationView,
> {
    sort_by(news_of(fetched, since), op_order())
}

/// `ops` is what is news in `fetched` after `since`, each operation as
/// often as it is there, and no operation of `ops` stands behind one that
/// takes effect after it.
pub open spec fn is_news_in_order(
    ops: Seq<OperationView>,
    fetched: Seq<OperationView>,
    since: Option<Timestamp>,
) -> bool {
    ordered(ops, op_order()) && ops.to_multiset() == news_of(fetched, since).to_multiset()
}

/// `news_in_order` is in order and holds what is news, each operation as often.
pub proof fn lemma_news_in_order(fetched: Seq<OperationView>, since: Option<Timestamp>)
    ensures
        is_news_in_order(news_in_order(fetched, since), fetched, since),
{
    lemma_op_order_sorts();
    lemma_sort_ordered(news_of(fetched, since), op_order());
    lemma_sort_permutes(news_of(fetched, since), op_order());
}

/// The operations of `uploads`, in their order.
pub open spec fn ops_of(uploads: Seq<Upload>) -> Seq<OperationView> {
    Seq::new(uploads.len(), |i: int| uploads[i].operation@)
}

/// The uploads for `ops` of `user_id`: each operation under the key of its id.
pub open spec fn uploads_match(
    uploads: Seq<Upload>,
    ops: Seq<OperationView>,
    user_id: Seq<char>,
) -> bool {
    &&& uploads.len() == ops.len()
    &&& forall|i: int|
        0 <= i < uploads.len() ==> (#[trigger] uploads[i]).operation@ == ops[i] && uploads[i].path@
            == oplog_key(user_id, ops[i].op_id)
}

/// The sync engine of one device.
pub struct SyncEngine {
    config: SyncConfig,
    state: SyncState,
    phase: SyncPhase,
}

impl SyncEngine {
    /// The items, by id, in the order in which the ids were first added.
    pub closed spec fn items(&self) -> ItemTable {
        self.state.items@
    }

    /// The time of the latest operation that was applied.
    pub closed spec fn last_sync(&self) -> Option<Timestamp> {
        self.state.last_sync_timestamp
    }

    /// The operations that were issued here and not yet handed out.
    pub closed spec fn pending(&self) -> Seq<OperationView> {
        self.state.pending_ops.deep_view()
    }

    /// Where the reconciliation stands.
    pub closed spec fn phase(&self) -> SyncPhase {
        self.phase
    }

    /// The user whose operation log this device shares.
    pub closed spec fn user_id(&self) -> Seq<char> {
        self.config.user_id@
    }

    /// This device.
    pub closed spec fn device_id(&self) -> Seq<char> {
        self.config.device_id@
    }

    /// The number of seconds between two reconciliations in the background.
    pub closed spec fn sync_interval(&self) -> u64 {
        self.config.sync_interval_seconds
    }

    /// The engine's invariant: no id is held twice, and every item stands
    /// under its own id.
    pub closed spec fn wf(&self) -> bool {
        self.state.wf()
    }

    /// What the invariant says of the items.
    pub proof fn lemma_wf(&self)
        requires
            self.wf(),
        ensures
            unique_keys(self.items()),
            ids_match(self.items()),
            forall|id: Seq<char>| #[trigger]
                to_map(self.items()).contains_key(id) ==> to_map(self.items())[id].id == id,
    {
        assert forall|id: Seq<char>| #[trigger]
            to_map(self.items()).contains_key(id) implies to_map(self.items())[id].id == id by {
            let i = key_index(self.items(), id);
            lemma_key_index(self.items(), i);
        }
    }

    /// The engine of a device that has not synced yet.
    pub fn new(config: SyncConfig) -> (engine: SyncEngine)
        ensures
            engine.wf(),
            engine.items() == Seq::<(Seq<char>, SyncItemView)>::empty(),
            engine.last_sync() is None,
            engine.pending() == Seq::<OperationView>::empty(),
            engine.phase() == SyncPhase::Idle,
            engine.user_id() == config.user_id@,
            engine.device_id() == config.device_id@,
            engine.sync_interval() == config.sync_interval_seconds,
    {
        let engine = SyncEngine { config, state: SyncState::default(), phase: SyncPhase::Idle };
        assert(engine.pending() =~= Seq::<OperationView>::empty());
        engine
    }

    /// The engine's configuration.
    pub fn config(&self) -> (config: &SyncConfig)
        ensures
            config.user_id@ == self.user_id(),
            config.device_id@ == self.device_id(),
            config.sync_interval_seconds == self.sync_interval(),
    {
        &self.config
    }

    /// What the device knows.
    pub fn state(&self) -> (state: &SyncState)
        ensures
            state.items@ == self.items(),
            state.last_sync_timestamp == self.last_sync(),
            state.pending_ops.deep_view() == self.pending(),
            state.wf() == self.wf(),
    {
        &self.state
    }

    /// Hands out the pending operations, each with the key under which it
    /// is to be written, and forgets them.
    pub fn upload_pending_ops(&mut self) -> (uploads: Vec<Upload>)
        ensures
            uploads_match(uploads@, old(self).pending(), old(self).user_id()),
            final(self).pending() == Seq::<OperationView>::empty(),
            final(self).items() == old(self).items(),
            final(self).last_sync() == old(self).last_sync(),
            final(self).phase() == old(self).phase(),
            final(self).user_id() == old(self).user_id(),
            final(self).device_id() == old(self).device_id(),
            final(self).sync_interval() == old(self).sync_interval(),
            final(self).wf() == old(self).wf(),
    {
        let mut uploads: Vec<Upload> = Vec::new();
        let mut i: usize = 0;
        while i < self.state.pending_ops.len()
            invariant
                i <= self.state.pending_ops.len(),
                *self == *old(self),
                uploads.len() == i,
                forall|j: int|
                    0 <= j < i ==> (#[trigger] uploads[j]).operation@ == self.state.pending_ops[j]@
                        && uploads[j].path@ == oplog_key(
                        self.config.user_id@,
                        self.state.pending_ops[j]@.op_id,
                    ),
            decreases self.state.pending_ops.len() - i,
        {
            let operation = self.state.pending_ops[i].clone();
            let path = oplog_path(self.config.user_id.as_str(), operation.op_id.as_str());
            uploads.push(Upload { path, operation });
            i += 1;
        }
        self.state.pending_ops.clear();
        assert(self.pending() =~= Seq::<OperationView>::empty());
        uploads
    }

    /// Puts operations that could not be written back in front of the pending ones.
    pub fn requeue(&mut self, ops: Vec<Operation>)
        ensures
            final(self).pending() == ops.deep_view() + old(self).pending(),
            final(self).items() == old(self).items(),
            final(self).last_sync() == old(self).last_sync(),
            final(self).phase() == old(self).phase(),
            final(self).user_id() == old(self).user_id(),
            final(self).device_id() == old(self).device_id(),
            final(self).sync_interval() == old(self).sync_interval(),
            final(self).wf() == old(self).wf(),
    {
        let mut queue = ops;
        let ghost front = queue.deep_view();
        queue.append(&mut self.state.pending_ops);
        self.state.pending_ops = queue;
        assert(self.pending() =~= front + old(self).pending());
    }

    /// Takes back the operations of `uploads` that were not written: the
    /// first `written` uploads were written, the others go back in front
    /// of the pending operations, in their order.
    pub fn requeue_unsent(&mut self, uploads: Vec<Upload>, written: usize)
        ensures
            final(self).pending() == ops_of(uploads@).skip(
                if written <= uploads.len() {
                    written as int
                } else {
                    uploads.len() as int
                },
            ) + old(self).pending(),
            final(self).items() == old(self).items(),
            final(self).last_sync() == old(self).last_sync(),
            final(self).phase() == old(self).phase(),
            final(self).user_id() == old(self).user_id(),
            final(self).device_id() == old(self).device_id(),
            final(self).sync_interval() == old(self).sync_interval(),
            final(self).wf() == old(self).wf(),
    {
        let start: usize = if written <= uploads.len() {
            written
        } else {
            uploads.len()
        };
        let mut unsent: Vec<Operation> = Vec::new();
        let mut i: usize = start;
        while i < uploads.len()
            invariant
                start <= i <= uploads.len(),
                unsent.len() == i - start,
                forall|j: int| 0 <= j < unsent.len() ==> unsent[j]@ == uploads[start + j].operation@,
            decreases uploads.len() - i,
        {
            unsent.push(uploads[i].operation.clone());
            i += 1;
        }
        assert(unsent.deep_view() =~= ops_of(uploads@).skip(start as int));
        self.requeue(unsent);
    }

    /// Adds `item` on this device by the operation `op_id` issued at `now`:
    /// the item is held at once, and the operation goes out with the
    /// operations that were pending.
    pub fn local_add_at(&mut self, item: SyncClipboardItem, op_id: String, now: Timestamp) -> (uploads:
        Vec<Upload>)
        requires
            old(self).wf(),
        ensures
            final(self).wf(),
            final(self).items() == put(old(self).items(), item@.id, item@),
            uploads_match(
                uploads@,
                old(self).pending().push(
                    OperationView {
                        op_id: op_id@,
                        op_type: OpType::Add,
                        target_id: item@.id,
                        timestamp: now,
                        device_id: old(self).device_id(),
                        payload: Some(item@),
                    },
                ),
                old(self).user_id(),
            ),
            final(self).pending() == Seq::<OperationView>::empty(),
            final(self).last_sync() == old(self).last_sync(),
            final(self).phase() == old(self).phase(),
            final(self).user_id() == old(self).user_id(),
            final(self).device_id() == old(self).device_id(),
            final(self).sync_interval() == old(self).sync_interval(),
    {
        let op = Operation::add_at(item.clone(), self.config.device_id.clone(), op_id, now);
        proof {
            lemma_put(self.state.items@, item@.id, item@);
            let r = put(self.state.items@, item@.id, item@);
            assert forall|i: int| 0 <= i < r.len() implies (#[trigger] r[i]).0 == r[i].1.id by {
                if i < self.state.items@.len() && r[i] != (item@.id, item@) {
                    assert(r[i] == self.state.items@[i]);
                }
            }
        }
        self.state.items.insert(item.id.clone(), item);
        let ghost before = self.state.pending_ops.deep_view();
        self.state.pending_ops.push(op);
        assert(self.state.pending_ops.deep_view() =~= before.push(op@));
        self.upload_pending_ops()
    }

    /// Adds `item` on this device by a new operation, issued now under a fresh id.
    pub fn local_add(&mut self, item: SyncClipboardItem) -> (uploads: Vec<Upload>)
        requires
            old(self).wf(),
        ensures
            final(self).wf(),
            final(self).items() == put(old(self).items(), item@.id, item@),
            uploads@.len() == old(self).pending().len() + 1,
            uploads@.last().operation@.op_type == OpType::Add,
            uploads@.last().operation@.target_id == item@.id,
            uploads@.last().operation@.payload == Some(item@),
            uploads@.last().operation@.device_id == old(self).device_id(),
            uploads@.last().path@ == oplog_key(
                old(self).user_id(),
                uploads@.last().operation@.op_id,
            ),
            forall|i: int|
                0 <= i < old(self).pending().len() ==> (#[trigger] uploads@[i]).operation@ == old(self).pending()[i],
            final(self).pending() == Seq::<OperationView>::empty(),
            final(self).last_sync() == old(self).last_sync(),
            final(self).phase() == old(self).phase(),
    {
        self.local_add_at(item, fresh_id(), utc_now())
    }

    /// Deletes `item_id` on this device by the operation `op_id` issued at
    /// `now`: the item is gone at once, and the operation goes out with the
    /// operations that were pending.
    pub fn local_delete_at(&mut self, item_id: String, op_id: String, now: Timestamp) -> (uploads:
        Vec<Upload>)
        requires
            old(self).wf(),
        ensures
            final(self).wf(),
            final(self).items() == discard(old(self).items(), item_id@),
            uploads_match(
                uploads@,
                old(self).pending().push(
                    OperationView {
                        op_id: op_id@,
                        op_type: OpType::Delete,
                        target_id: item_id@,
                        timestamp: now,
                        device_id: old(self).device_id(),
                        payload: None,
                    },
                ),
                old(self).user_id(),
            ),
            final(self).pending() == Seq::<OperationView>::empty(),
            final(self).last_sync() == old(self).last_sync(),
            final(self).phase() == old(self).phase(),
            final(self).user_id() == old(self).user_id(),
            final(self).device_id() == old(self).device_id(),
            final(self).sync_interval() == old(self).sync_interval(),
    {
        proof {
            lemma_discard(self.state.items@, item_id@);
            let r = discard(self.state.items@, item_id@);
            if r != self.state.items@ {
                let at = key_index(self.state.items@, item_id@);
                assert forall|i: int| 0 <= i < r.len() implies (#[trigger] r[i]).0
                    == r[i].1.id by {
                    assert(r[i] == self.state.items@[if i < at { i } else { i + 1 }]);
                }
            }
        }
        self.state.items.remove(item_id.as_str());
        let op = Operation::delete_at(item_id, self.config.device_id.clone(), op_id, now);
        let ghost before = self.state.pending_ops.deep_view();
        self.state.pending_ops.push(op);
        assert(self.state.pending_ops.deep_view() =~= before.push(op@));
        self.upload_pending_ops()
    }

    /// Deletes `item_id` on this device by a new operation, issued now under a fresh id.
    pub fn local_delete(&mut self, item_id: String) -> (uploads: Vec<Upload>)
        requires
            old(self).wf(),
        ensures
            final(self).wf(),
            final(self).items() == discard(old(self).items(), item_id@),
            uploads@.len() == old(self).pending().len() + 1,
            uploads@.last().operation@.op_type == OpType::Delete,
            uploads@.last().operation@.target_id == item_id@,
            uploads@.last().operation@.payload is None,
            uploads@.last().operation@.device_id == old(self).device_id(),
            uploads@.last().path@ == oplog_key(
                old(self).user_id(),
                uploads@.last().operation@.op_id,
            ),
            forall|i: int|
                0 <= i < old(self).pending().len() ==> (#[trigger] uploads@[i]).operation@ == old(self).pending()[i],
            final(self).pending() == Seq::<OperationView>::empty(),
            final(self).last_sync() == old(self).last_sync(),
            final(self).phase() == old(self).phase(),
    {
        self.local_delete_at(item_id, fresh_id(), utc_now())
    }

    /// The items, in the order in which their ids were first added.
    pub fn get_all_items(&self) -> (items: Vec<SyncClipboardItem>)
        ensures
            items.deep_view() == values_of(self.items()),
    {
        let mut items: Vec<SyncClipboardItem> = Vec::new();
        let mut i: usize = 0;
        while i < self.state.items.len()
            invariant
                i <= self.state.items@.len(),
                items.len() == i,
                forall|j: int| 0 <= j < i ==> items[j]@ == self.state.items@[j].1,
            decreases self.state.items@.len() - i,
        {
            items.push(self.state.items.value_at(i).clone());
            i += 1;
        }
        assert(items.deep_view() =~= values_of(self.items()));
        items
    }

    /// The numbers that describe the engine.
    pub fn get_status(&self) -> (status: SyncStatus)
        ensures
            status.item_count == self.items().len(),
            status.is_syncing == (self.phase() != SyncPhase::Idle),
            status.initialized,
            status.last_sync == self.last_sync(),
            status.pending_ops == self.pending().len(),
    {
        SyncStatus {
            item_count: self.state.items.len(),
            is_syncing: match self.phase {
                SyncPhase::Idle => false,
                _ => true,
            },
            initialized: true,
            last_sync: self.state.last_sync_timestamp,
            pending_ops: self.state.pending_ops.len(),
        }
    }

    /// Takes over a snapshot, if there is one: its items replace those
    /// held, and its time becomes the time of the last sync.
    pub fn initial_sync(&mut self, snapshot: Option<Snapshot>)
        requires
            old(self).wf(),
        ensures
            final(self).wf(),
            match snapshot {
                Some(s) => final(self).items() == table_of(s.items.deep_view()) && final(self).last_sync() == Some(s.last_op_timestamp),
                None => final(self).items() == old(self).items() && final(self).last_sync() == old(self).last_sync(),
            },
            final(self).pending() == old(self).pending(),
            final(self).phase() == old(self).phase(),
            final(self).user_id() == old(self).user_id(),
            final(self).device_id() == old(self).device_id(),
            final(self).sync_interval() == old(self).sync_interval(),
    {
        if let Some(s) = snapshot {
            self.state.load_snapshot(s);
        }
    }

    /// Of the operations found in the log, those that are news to this device, in the order
    /// in which they take effect.
    pub fn fetch_operations_since(&self, fetched: Vec<Operation>) -> (ops: Vec<Operation>)
        ensures
            ops.deep_view() == news_in_order(fetched.deep_view(), self.last_sync()),
            is_news_in_order(ops.deep_view(), fetched.deep_view(), self.last_sync()),
    {
        sort_news(fetched, self.state.last_sync_timestamp)
    }

    /// Applies what is news among the operations found in the log, in
    /// the order in which they take effect, by the last-writer-wins rule.
    pub fn incremental_sync(&mut self, fetched: Vec<Operation>)
        requires
            old(self).wf(),
        ensures
            final(self).wf(),
            final(self).items() == lww_fold(
                old(self).items(),
                news_in_order(fetched.deep_view(), old(self).last_sync()),
            ),
            final(self).last_sync() == latest_of(
                old(self).last_sync(),
                news_in_order(fetched.deep_view(), old(self).last_sync()),
            ),
            is_news_in_order(
                news_in_order(fetched.deep_view(), old(self).last_sync()),
                fetched.deep_view(),
                old(self).last_sync(),
            ),
            final(self).pending() == old(self).pending(),
            final(self).phase() == old(self).phase(),
            final(self).user_id() == old(self).user_id(),
            final(self).device_id() == old(self).device_id(),
            final(self).sync_interval() == old(self).sync_interval(),
    {
        proof {
            lemma_news_in_order(fetched.deep_view(), self.last_sync());
        }
        let ops = self.fetch_operations_since(fetched);
        self.state.apply_operations(ops);
    }

    /// Begins a reconciliation: a device that has never synced asks for
    /// the object that names the latest snapshot, any other for the
    /// operation log. While a reconciliation is under way, none begins.
    pub fn sync(&mut self) -> (action: SyncAction)
        ensures
            final(self).wf() == old(self).wf(),
            final(self).items() == old(self).items(),
            final(self).last_sync() == old(self).last_sync(),
            final(self).pending() == old(self).pending(),
            final(self).user_id() == old(self).user_id(),
            final(self).device_id() == old(self).device_id(),
            final(self).sync_interval() == old(self).sync_interval(),
            old(self).phase() != SyncPhase::Idle ==> action@ == ActionView::Abort(SyncError::Busy)
                && final(self).phase() == old(self).phase(),
            old(self).phase() == SyncPhase::Idle && old(self).last_sync() is None ==> action@
                == ActionView::ReadPointer(latest_key(old(self).user_id())) && final(self).phase()
                == SyncPhase::AwaitingPointer,
            old(self).phase() == SyncPhase::Idle && old(self).last_sync() is Some ==> action@
                == ActionView::ListOps(oplog_prefix(old(self).user_id())) && final(self).phase()
                == SyncPhase::AwaitingOps,
    {
        match self.phase {
            SyncPhase::Idle => {
                if self.state.last_sync_timestamp.is_none() {
                    self.phase = SyncPhase::AwaitingPointer;
                    SyncAction::ReadPointer(latest_path(self.config.user_id.as_str()))
                } else {
                    self.phase = SyncPhase::AwaitingOps;
                    SyncAction::ListOps(oplog_dir(self.config.user_id.as_str()))
                }
            },
            _ => SyncAction::Abort(SyncError::Busy),
        }
    }

    /// Begins a reconciliation, as `sync` does.
    pub fn sync_now(&mut self) -> (action: SyncAction)
        ensures
            final(self).wf() == old(self).wf(),
            final(self).items() == old(self).items(),
            final(self).last_sync() == old(self).last_sync(),
            final(self).pending() == old(self).pending(),
            final(self).user_id() == old(self).user_id(),
            final(self).device_id() == old(self).device_id(),
            final(self).sync_interval() == old(self).sync_interval(),
            old(self).phase() != SyncPhase::Idle ==> action@ == ActionView::Abort(SyncError::Busy)
                && final(self).phase() == old(self).phase(),
            old(self).phase() == SyncPhase::Idle && old(self).last_sync() is None ==> action@
                == ActionView::ReadPointer(latest_key(old(self).user_id())) && final(self).phase()
                == SyncPhase::AwaitingPointer,
            old(self).phase() == SyncPhase::Idle && old(self).last_sync() is Some ==> action@
                == ActionView::ListOps(oplog_prefix(old(self).user_id())) && final(self).phase()
                == SyncPhase::AwaitingOps,
    {
        self.sync()
    }

    /// Takes the reconciliation one step further with what the caller
    /// reports, and says what to do next.
    ///
    /// - No latest snapshot: the operation log is asked for.
    /// - The bytes that name the latest snapshot: that snapshot is asked
    ///   for; where the bytes name none, the reconciliation ends.
    /// - The snapshot: it is taken over, and the operation log is asked for.
    /// - The operations: what is news is applied, and the reconciliation is complete.
    /// - A failure, or a report that was not asked for: the reconciliation
    ///   ends, and what is held stays as it is.
    pub fn step(&mut self, event: SyncEvent) -> (action: SyncAction)
        requires
            old(self).wf(),
        ensures
            final(self).wf(),
            final(self).pending() == old(self).pending(),
            final(self).user_id() == old(self).user_id(),
            final(self).device_id() == old(self).device_id(),
            final(self).sync_interval() == old(self).sync_interval(),
            match (old(self).phase(), event) {
                (SyncPhase::AwaitingPointer, SyncEvent::PointerMissing) => {
                    &&& action@ == ActionView::ListOps(oplog_prefix(old(self).user_id()))
                    &&& final(self).phase() == SyncPhase::AwaitingOps
                    &&& final(self).items() == old(self).items()
                    &&& final(self).last_sync() == old(self).last_sync()
                },
                (SyncPhase::AwaitingPointer, SyncEvent::PointerRead(bytes)) => {
                    &&& final(self).items() == old(self).items()
                    &&& final(self).last_sync() == old(self).last_sync()
                    &&& match pointer_target(bytes@) {
                        Ok(path) => action@ == ActionView::ReadSnapshot(path) && final(self).phase() == SyncPhase::AwaitingSnapshot,
                        Err(e) => action@ == ActionView::Abort(e) && final(self).phase()
                            == SyncPhase::Idle,
                    }
                },
                (SyncPhase::AwaitingSnapshot, SyncEvent::SnapshotRead(snapshot)) => {
                    &&& action@ == ActionView::ListOps(oplog_prefix(old(self).user_id()))
                    &&& final(self).phase() == SyncPhase::AwaitingOps
                    &&& final(self).items() == table_of(snapshot.items.deep_view())
                    &&& final(self).last_sync() == Some(snapshot.last_op_timestamp)
                },
                (SyncPhase::AwaitingOps, SyncEvent::OpsFetched(fetched)) => {
                    let ops = news_in_order(fetched.deep_view(), old(self).last_sync());
                    &&& is_news_in_order(ops, fetched.deep_view(), old(self).last_sync())
                    &&& action@ == ActionView::Done
                    &&& final(self).phase() == SyncPhase::Idle
                    &&& final(self).items() == lww_fold(old(self).items(), ops)
                    &&& final(self).last_sync() == latest_of(old(self).last_sync(), ops)
                },
                (phase, SyncEvent::Failed) => {
                    &&& action@ == ActionView::Abort(
                        if phase == SyncPhase::Idle {
                            SyncError::UnexpectedEvent
                        } else {
                            SyncError::Remote
                        },
                    )
                    &&& final(self).phase() == SyncPhase::Idle
                    &&& final(self).items() == old(self).items()
                    &&& final(self).last_sync() == old(self).last_sync()
                },
                _ => {
                    &&& action@ == ActionView::Abort(SyncError::UnexpectedEvent)
                    &&& final(self).phase() == SyncPhase::Idle
                    &&& final(self).items() == old(self).items()
                    &&& final(self).last_sync() == old(self).last_sync()
                },
            },
    {
        let phase = self.phase;
        match event {
            SyncEvent::PointerMissing => {
                if phase == SyncPhase::AwaitingPointer {
                    self.phase = SyncPhase::AwaitingOps;
                    SyncAction::ListOps(oplog_dir(self.config.user_id.as_str()))
                } else {
                    self.phase = SyncPhase::Idle;
                    SyncAction::Abort(SyncError::UnexpectedEvent)
                }
            },
            SyncEvent::PointerRead(bytes) => {
                if phase == SyncPhase::AwaitingPointer {
                    match load_latest_snapshot(bytes.as_slice()) {
                        Ok(path) => {
                            self.phase = SyncPhase::AwaitingSnapshot;
                            SyncAction::ReadSnapshot(path)
                        },
                        Err(e) => {
                            self.phase = SyncPhase::Idle;
                            SyncAction::Abort(e)
                        },
                    }
                } else {
                    self.phase = SyncPhase::Idle;
                    SyncAction::Abort(SyncError::UnexpectedEvent)
                }
            },
            SyncEvent::SnapshotRead(snapshot) => {
                if phase == SyncPhase::AwaitingSnapshot {
                    self.initial_sync(Some(snapshot));
                    self.phase = SyncPhase::AwaitingOps;
                    SyncAction::ListOps(oplog_dir(self.config.user_id.as_str()))
                } else {
                    self.phase = SyncPhase::Idle;
                    SyncAction::Abort(SyncError::UnexpectedEvent)
                }
            },
            SyncEvent::OpsFetched(fetched) => {
                if phase == SyncPhase::AwaitingOps {
                    self.incremental_sync(fetched);
                    self.phase = SyncPhase::Idle;
                    SyncAction::Done
                } else {
                    self.phase = SyncPhase::Idle;
                    SyncAction::Abort(SyncError::UnexpectedEvent)
                }
            },
            SyncEvent::Failed => {
                self.phase = SyncPhase::Idle;
                if phase == SyncPhase::Idle {
                    SyncAction::Abort(SyncError::UnexpectedEvent)
                } else {
                    SyncAction::Abort(SyncError::Remote)
                }
            },
        }
    }

    /// The snapshot of what is held, taken at `now` by this device, and
    /// the keys under which it is to be written; `stamp` is `now` in
    /// the form `YYYYMMDD_HHMMSS`. A device that has not synced yet
    /// gives `now` as the time of its last operation.
    pub fn snapshot_at(&self, now: Timestamp, stamp: &str) -> (plan: SnapshotPlan)
        ensures
            plan.snapshot.items.deep_view() == values_of(self.items()),
            plan.snapshot.snapshot_timestamp == now,
            plan.snapshot.last_op_timestamp == match self.last_sync() {
                Some(t) => t,
                None => now,
            },
            plan.snapshot.device_id@ == self.device_id(),
            plan.snapshot_path@ == snapshot_key(self.user_id(), stamp@),
            plan.latest_path@ == latest_key(self.user_id()),
    {
        let snapshot = Snapshot {
            items: self.get_all_items(),
            snapshot_timestamp: now,
            last_op_timestamp: match self.state.last_sync_timestamp {
                Some(t) => t,
                None => now,
            },
            device_id: self.config.device_id.clone(),
        };
        SnapshotPlan {
            snapshot,
            snapshot_path: snapshot_path(self.config.user_id.as_str(), stamp),
            latest_path: latest_path(self.config.user_id.as_str()),
        }
    }

    /// The snapshot of what is held, taken at `now` by this device, and the
    /// keys under which it is to be written; `None` exactly where `now`
    /// cannot be written in the form `YYYYMMDD_HHMMSS`.
    pub fn snapshot_plan_at(&self, now: Timestamp) -> (r: Option<SnapshotPlan>)
        ensures
            r is Some <==> stamp_text(now.secs as int, now.nanos as int, stamp_pattern()) is Some,
            r matches Some(plan) ==> {
                &&& plan.snapshot.items.deep_view() == values_of(self.items())
                &&& plan.snapshot.snapshot_timestamp == now
                &&& plan.snapshot.last_op_timestamp == match self.last_sync() {
                    Some(t) => t,
                    None => now,
                }
                &&& plan.snapshot.device_id@ == self.device_id()
                &&& plan.snapshot_path@ == snapshot_key(
                    self.user_id(),
                    stamp_text(now.secs as int, now.nanos as int, stamp_pattern())->0,
                )
                &&& plan.latest_path@ == latest_key(self.user_id())
            },
    {
        match format_stamp(&now, "%Y%m%d_%H%M%S") {
            Some(stamp) => Some(self.snapshot_at(now, stamp.as_str())),
            None => None,
        }
    }

    /// The snapshot of what is held, taken now; `None` where the present
    /// instant cannot be written in the form `YYYYMMDD_HHMMSS`.
    pub fn create_snapshot(&self) -> (r: Option<SnapshotPlan>)
        ensures
            r matches Some(plan) ==> {
                let now = plan.snapshot.snapshot_timestamp;
                &&& plan.snapshot.items.deep_view() == values_of(self.items())
                &&& plan.snapshot.last_op_timestamp == match self.last_sync() {
                    Some(t) => t,
                    None => now,
                }
                &&& plan.snapshot.device_id@ == self.device_id()
                &&& stamp_text(now.secs as int, now.nanos as int, stamp_pattern()) matches Some(
                    stamp,
                )
                &&& plan.snapshot_path@ == snapshot_key(self.user_id(), stamp)
                &&& plan.latest_path@ == latest_key(self.user_id())
            },
    {
        self.snapshot_plan_at(utc_now())
    }
}

} // verus!
