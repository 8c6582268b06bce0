//! The operation log that devices share: items, operations on them, the
//! order in which operations take effect, and the last-writer-wins rule by
//! which they change a set of items.

use vstd::prelude::*;
use vstd::string::*;
use vstd::utf8::*;
use crate::ids::fresh_id;
use crate::instant::{utc_now, Timestamp};
use crate::keyed::{
    discard, has_key, key_index, lemma_discard, lemma_put, put, to_map, unique_keys,
};
use crate::sorting::{
    connected, lemma_run_before_is, lemma_sort_concat, lemma_sort_ordered, lemma_sort_permutes,
    ordered, sort_by, transitive,
};
use crate::text::{
    lemma_lex_asymmetric, lemma_lex_connected, lemma_lex_irreflexive, lemma_lex_transitive,
    lemma_utf8_injective, lex_lt, str_lt,
};

verus! {

/// Where an item came from.
#[derive(Debug)]
pub struct ItemMetadata {
    pub source_device: String,
    pub source_app: Option<String>,
    pub content_hash: Option<String>,
}

/// What an `ItemMetadata` holds, as mathematical values.
pub struct ItemMetadataView {
    pub source_device: Seq<char>,
    pub source_app: Option<Seq<char>>,
    pub content_hash: Option<Seq<char>>,
}

impl View for ItemMetadata {
    type V = ItemMetadataView;

    open spec fn view(&self) -> ItemMetadataView {
        ItemMetadataView {
            source_device: self.source_device@,
            source_app: self.source_app.deep_view(),
            content_hash: self.content_hash.deep_view(),
        }
    }
}

impl Clone for ItemMetadata {
    fn clone(&self) -> (r: Self)
        ensures
            r@ == self@,
    {
        let source_app = match &self.source_app {
            Some(s) => Some(s.clone()),
            None => None,
        };
        let content_hash = match &self.content_hash {
            Some(s) => Some(s.clone()),
            None => None,
        };
        ItemMetadata { source_device: self.source_device.clone(), source_app, content_hash }
    }
}

/// A clipboard item as devices share it.
#[derive(Debug)]
pub struct SyncClipboardItem {
    pub id: String,
    pub content_type: String,
    pub content: String,
    pub created_at: Timestamp,
    pub metadata: ItemMetadata,
}

/// What a `SyncClipboardItem` holds, as mathematical values.
pub struct SyncItemView {
    pub id: Seq<char>,
    pub content_type: Seq<char>,
    pub content: Seq<char>,
    pub created_at: Timestamp,
    pub metadata: ItemMetadataView,
}

impl View for SyncClipboardItem {
    type V = SyncItemView;

    open spec fn view(&self) -> SyncItemView {
        SyncItemView {
            id: self.id@,
            content_type: self.content_type@,
            content: self.content@,
            created_at: self.created_at,
            metadata: self.metadata@,
        }
    }
}

impl DeepView for SyncClipboardItem {
    type V = SyncItemView;

    open spec fn deep_view(&self) -> SyncItemView {
        self@
    }
}

impl Clone for SyncClipboardItem {
    fn clone(&self) -> (r: Self)
        ensures
            r@ == self@,
    {
        SyncClipboardItem {
            id: self.id.clone(),
            content_type: self.content_type.clone(),
            content: self.content.clone(),
            created_at: self.created_at,
            metadata: self.metadata.clone(),
        }
    }
}

/// The kind of an operation.
#[derive(Clone, Copy, Debug, PartialEq, Eq, Structural)]
pub enum OpType {
    Add,
    Delete,
}

/// One entry of the operation log: device `device_id` added or deleted the
/// item `target_id` at `timestamp`.
#[derive(Debug)]
pub struct Operation {
    pub op_id: String,
    pub op_type: OpType,
    pub target_id: String,
    pub timestamp: Timestamp,
    pub device_id: String,
    pub payload: Option<SyncClipboardItem>,
}

/// What an `Operation` holds, as mathematical values.
pub struct OperationView {
    pub op_id: Seq<char>,
    pub op_type: OpType,
    pub target_id: Seq<char>,
    pub timestamp: Timestamp,
    pub device_id: Seq<char>,
    pub payload: Option<SyncItemView>,
}

impl View for Operation {
    type V = OperationView;

    open spec fn view(&self) -> OperationView {
        OperationView {
            op_id: self.op_id@,
            op_type: self.op_type,
            target_id: self.target_id@,
            timestamp: self.timestamp,
            device_id: self.device_id@,
            payload: match self.payload {
                Some(item) => Some(item@),
                None => None,
            },
        }
    }
}

impl DeepView for Operation {
    type V = OperationView;

    open spec fn deep_view(&self) -> OperationView {
        self@
    }
}

impl Clone for Operation {
    fn clone(&self) -> (r: Self)
        ensures
            r@ == self@,
    {
        let payload = match &self.payload {
            Some(item) => Some(item.clone()),
            None => None,
        };
        Operation {
            op_id: self.op_id.clone(),
            op_type: self.op_type,
            target_id: self.target_id.clone(),
            timestamp: self.timestamp,
            device_id: self.device_id.clone(),
            payload,
        }
    }
}

impl OperationView {
    /// An add carries the item it adds, under the id it targets; a delete
    /// carries nothing.
    pub open spec fn well_formed(self) -> bool {
        match self.op_type {
            OpType::Add => self.payload matches Some(item) && item.id == self.target_id,
            OpType::Delete => self.payload is None,
        }
    }

    /// `self` takes effect before `other`: it is older, or as old and from
    /// the device whose id comes first byte by byte.
    pub open spec fn before(self, other: OperationView) -> bool {
        self.timestamp.lt(other.timestamp) || (self.timestamp == other.timestamp && lex_lt(
            encode_utf8(self.device_id),
            encode_utf8(other.device_id),
        ))
    }

    /// `self` and `other` have the same place in the order of operations.
    pub open spec fn same_place(self, other: OperationView) -> bool {
        self.timestamp == other.timestamp && self.device_id == other.device_id
    }
}

/// The order in which operations are applied: `a` may stand before `b`
/// unless `b` takes effect before `a`.
pub open spec fn op_order() -> spec_fn(OperationView, OperationView) -> bool {
    |a: OperationView, b: OperationView| !b.before(a)
}

/// No operation takes effect before itself.
pub proof fn lemma_before_irreflexive(a: OperationView)
    ensures
        !a.before(a),
{
    lemma_lex_irreflexive(encode_utf8(a.device_id));
}

/// If `a` takes effect before `b` and `b` before `c`, then `a` before `c`.
pub proof fn lemma_before_transitive(a: OperationView, b: OperationView, c: OperationView)
    requires
        a.before(b),
        b.before(c),
    ensures
        a.before(c),
{
    if a.timestamp == b.timestamp && b.timestamp == c.timestamp {
        lemma_lex_transitive(
            encode_utf8(a.device_id),
            encode_utf8(b.device_id),
            encode_utf8(c.device_id),
        );
    }
}

/// Of two operations at different places, exactly one takes effect before the other.
pub proof fn lemma_before_total(a: OperationView, b: OperationView)
    ensures
        a.same_place(b) ==> !a.before(b) && !b.before(a),
        !a.same_place(b) ==> (a.before(b) <==> !b.before(a)),
{
    lemma_lex_irreflexive(encode_utf8(a.device_id));
    if a.timestamp == b.timestamp {
        if lex_lt(encode_utf8(a.device_id), encode_utf8(b.device_id)) {
            lemma_lex_asymmetric(encode_utf8(a.device_id), encode_utf8(b.device_id));
        } else if !lex_lt(encode_utf8(b.device_id), encode_utf8(a.device_id)) {
            lemma_lex_connected(encode_utf8(a.device_id), encode_utf8(b.device_id));
            lemma_utf8_injective(a.device_id, b.device_id);
        }
    }
}

/// `op_order` compares any two operations and is transitive, so it sorts.
pub proof fn lemma_op_order_sorts()
    ensures
        connected(op_order()),
        transitive(op_order()),
{
    assert forall|a: OperationView, b: OperationView| #[trigger]
        (op_order())(a, b) || #[trigger] (op_order())(b, a) by {
        lemma_before_total(a, b);
    }
    assert forall|a: OperationView, b: OperationView, c: OperationView| #[trigger]
        (op_order())(a, b) && #[trigger] (op_order())(b, c) implies (op_order())(a, c) by {
        lemma_before_total(a, b);
        lemma_before_total(b, c);
        lemma_before_total(a, c);
        if c.before(a) {
            if a.same_place(b) {
                assert(c.timestamp.lt(b.timestamp) || (c.timestamp == b.timestamp && lex_lt(
                    encode_utf8(c.device_id),
                    encode_utf8(b.device_id),
                )));
            } else if b.same_place(c) {
                assert(b.before(a));
            } else {
                lemma_before_transitive(b, c, a);
            }
        }
    }
}

impl Operation {
    /// The add of `item` by `device_id`, under the id `op_id` and issued at `timestamp`.
    pub fn add_at(
        item: SyncClipboardItem,
        device_id: String,
        op_id: String,
        timestamp: Timestamp,
    ) -> (op: Operation)
        ensures
            op@.op_id == op_id@,
            op@.op_type == OpType::Add,
            op@.target_id == item@.id,
            op@.timestamp == timestamp,
            op@.device_id == device_id@,
            op@.payload == Some(item@),
            op@.well_formed(),
    {
        Operation {
            op_id,
            op_type: OpType::Add,
            target_id: item.id.clone(),
            timestamp,
            device_id,
            payload: Some(item),
        }
    }

    /// The delete of `target_id` by `device_id`, under the id `op_id` and issued at `timestamp`.
    pub fn delete_at(
        target_id: String,
        device_id: String,
        op_id: String,
        timestamp: Timestamp,
    ) -> (op: Operation)
        ensures
            op@.op_id == op_id@,
            op@.op_type == OpType::Delete,
            op@.target_id == target_id@,
            op@.timestamp == timestamp,
            op@.device_id == device_id@,
            op@.payload is None,
            op@.well_formed(),
    {
        Operation { op_id, op_type: OpType::Delete, target_id, timestamp, device_id, payload: None }
    }

    /// A new add of `item` by `device_id`, issued now under a fresh id.
    pub fn new_add(item: SyncClipboardItem, device_id: String) -> (op: Operation)
        ensures
            op@.op_type == OpType::Add,
            op@.target_id == item@.id,
            op@.device_id == device_id@,
            op@.payload == Some(item@),
            op@.well_formed(),
    {
        Operation::add_at(item, device_id, fresh_id(), utc_now())
    }

    /// A new delete of `target_id` by `device_id`, issued now under a fresh id.
    pub fn new_delete(target_id: String, device_id: String) -> (op: Operation)
        ensures
            op@.op_type == OpType::Delete,
            op@.target_id == target_id@,
            op@.device_id == device_id@,
            op@.payload is None,
            op@.well_formed(),
    {
        Operation::delete_at(target_id, device_id, fresh_id(), utc_now())
    }

    /// Whether `other` takes effect before `self`, so that `self` wins over it.
    pub fn is_newer_than(&self, other: &Operation) -> (b: bool)
        ensures
            b == other@.before(self@),
    {
        if other.timestamp.is_before(&self.timestamp) {
            true
        } else if self.timestamp.is_before(&other.timestamp) {
            false
        } else {
            str_lt(other.device_id.as_str(), self.device_id.as_str())
        }
    }
}

/// A set of shared items by id, in the order in which the ids were first added.
pub type ItemTable = Seq<(Seq<char>, SyncItemView)>;

/// Every item of `items` stands under its own id.
pub open spec fn ids_match(items: ItemTable) -> bool {
    forall|i: int| 0 <= i < items.len() ==> (#[trigger] items[i]).0 == items[i].1.id
}

/// The item that `items` holds under `id`.
pub open spec fn item_of(items: ItemTable, id: Seq<char>) -> SyncItemView {
    items[key_index(items, id)].1
}

/// Last writer wins. An add puts its item where the id is free or holds an
/// item created strictly earlier. A delete removes the item of its id
/// unless the item was created after the delete was issued. An add without
/// an item, or with an item of another id, changes nothing.
pub open spec fn lww_step(items: ItemTable, op: OperationView) -> ItemTable {
    match op.op_type {
        OpType::Add => match op.payload {
            Some(item) => if item.id != op.target_id {
                items
            } else if has_key(items, op.target_id) && !item_of(items, op.target_id).created_at.lt(
                item.created_at,
            ) {
                items
            } else {
                put(items, op.target_id, item)
            },
            None => items,
        },
        OpType::Delete => if has_key(items, op.target_id) && item_of(
            items,
            op.target_id,
        ).created_at.le(op.timestamp) {
            discard(items, op.target_id)
        } else {
            items
        },
    }
}

/// `items` after the operations `ops`, applied from first to last.
pub open spec fn lww_fold(items: ItemTable, ops: Seq<OperationView>) -> ItemTable
    decreases ops.len(),
{
    if ops.len() == 0 {
        items
    } else {
        lww_step(lww_fold(items, ops.drop_last()), ops.last())
    }
}

/// The later of `last` and `t`.
pub open spec fn later_of(last: Option<Timestamp>, t: Timestamp) -> Option<Timestamp> {
    match last {
        Some(l) => if l.lt(t) {
            Some(t)
        } else {
            Some(l)
        },
        None => Some(t),
    }
}

/// The latest of `last` and the times of `ops`.
pub open spec fn latest_of(last: Option<Timestamp>, ops: Seq<OperationView>) -> Option<Timestamp>
    decreases ops.len(),
{
    if ops.len() == 0 {
        last
    } else {
        later_of(latest_of(last, ops.drop_last()), ops.last().timestamp)
    }
}

/// Whether an operation issued at `t` is still to be applied by a device
/// that has applied everything up to `since`.
pub open spec fn is_news(since: Option<Timestamp>, t: Timestamp) -> bool {
    match since {
        Some(s) => s.lt(t),
        None => true,
    }
}

/// The operations of `ops` that are news after `since`, in their order.
pub open spec fn news_of(ops: Seq<OperationView>, since: Option<Timestamp>) -> Seq<OperationView>
    decreases ops.len(),
{
    if ops.len() == 0 {
        Seq::empty()
    } else if is_news(since, ops.last().timestamp) {
        news_of(ops.drop_last(), since).push(ops.last())
    } else {
        news_of(ops.drop_last(), since)
    }
}

/// One step of last-writer-wins keeps ids unique and every item under its own id.
pub proof fn lemma_lww_step_keeps(items: ItemTable, op: OperationView)
    requires
        unique_keys(items),
        ids_match(items),
    ensures
        unique_keys(lww_step(items, op)),
        ids_match(lww_step(items, op)),
{
    lemma_discard(items, op.target_id);
    let r = lww_step(items, op);
    if op.payload is Some {
        lemma_put(items, op.target_id, op.payload->0);
    }
    if r != items {
        if op.op_type == OpType::Delete {
            let at = key_index(items, op.target_id);
            assert forall|i: int| 0 <= i < r.len() implies (#[trigger] r[i]).0 == r[i].1.id by {
                assert(r[i] == items[if i < at { i } else { i + 1 }]);
            }
        } else {
            let item = op.payload->0;
            assert forall|i: int| 0 <= i < r.len() implies (#[trigger] r[i]).0 == r[i].1.id by {
                if has_key(items, op.target_id) {
                    if i != key_index(items, op.target_id) {
                        assert(r[i] == items[i]);
                    }
                } else {
                    if i < items.len() {
                        assert(r[i] == items[i]);
                    }
                }
            }
        }
    }
}

/// Last-writer-wins keeps ids unique and every item under its own id.
pub proof fn lemma_lww_fold_keeps(items: ItemTable, ops: Seq<OperationView>)
    requires
        unique_keys(items),
        ids_match(items),
    ensures
        unique_keys(lww_fold(items, ops)),
        ids_match(lww_fold(items, ops)),
    decreases ops.len(),
{
    if ops.len() > 0 {
        lemma_lww_fold_keeps(items, ops.drop_last());
        lemma_lww_step_keeps(lww_fold(items, ops.drop_last()), ops.last());
    }
}

/// Two sequences in the order of operations that hold the same operations,
/// each as often, are the same sequence, provided that operations at the
/// same place of the order are the same operation.
pub proof fn lemma_sorted_ops_unique(a: Seq<OperationView>, b: Seq<OperationView>)
    requires
        ordered(a, op_order()),
        ordered(b, op_order()),
        a.to_multiset() == b.to_multiset(),
        forall|i: int, j: int|
            0 <= i < a.len() && 0 <= j < a.len() && (#[trigger] a[i]).same_place(#[trigger] a[j])
                ==> a[i] == a[j],
    ensures
        a == b,
    decreases a.len(),
{
    broadcast use vstd::seq_lib::group_to_multiset_ensures;

    assert(a.len() == b.len()) by {
        vstd::seq_lib::to_multiset_len(a);
        vstd::seq_lib::to_multiset_len(b);
    }
    if a.len() > 0 {
        let x = a[0];
        let y = b[0];
        // each head occurs in the other sequence
        assert(a.to_multiset().count(x) > 0) by {
            vstd::seq_lib::to_multiset_contains(a, x);
            assert(a.contains(x));
        }
        assert(b.contains(x)) by {
            vstd::seq_lib::to_multiset_contains(b, x);
        }
        assert(b.to_multiset().count(y) > 0) by {
            vstd::seq_lib::to_multiset_contains(b, y);
            assert(b.contains(y));
        }
        assert(a.contains(y)) by {
            vstd::seq_lib::to_multiset_contains(a, y);
        }
        let jx = choose|j: int| 0 <= j < b.len() && b[j] == x;
        let jy = choose|j: int| 0 <= j < a.len() && a[j] == y;
        // so neither head takes effect before the other
        assert(!x.before(y)) by {
            if jx > 0 {
                assert((op_order())(b[0], b[jx]));
            } else {
                lemma_before_irreflexive(x);
            }
        }
        assert(!y.before(x)) by {
            if jy > 0 {
                assert((op_order())(a[0], a[jy]));
            } else {
                lemma_before_irreflexive(x);
            }
        }
        lemma_before_total(x, y);
        assert(x.same_place(y));
        assert(a[0].same_place(a[jy]));
        assert(x == y);
        let ra = a.drop_first();
        let rb = b.drop_first();
        assert(ra.to_multiset() =~= rb.to_multiset()) by {
            assert(a.remove(0) =~= ra);
            assert(b.remove(0) =~= rb);
            vstd::seq_lib::to_multiset_remove(a, 0);
            vstd::seq_lib::to_multiset_remove(b, 0);
        }
        assert forall|i: int, j: int| 0 <= i < j < ra.len() implies (op_order())(
            #[trigger] ra[i],
            #[trigger] ra[j],
        ) by {
            assert((op_order())(a[i + 1], a[j + 1]));
        }
        assert forall|i: int, j: int| 0 <= i < j < rb.len() implies (op_order())(
            #[trigger] rb[i],
            #[trigger] rb[j],
        ) by {
            assert((op_order())(b[i + 1], b[j + 1]));
        }
        assert forall|i: int, j: int|
            0 <= i < ra.len() && 0 <= j < ra.len() && (#[trigger] ra[i]).same_place(
                #[trigger] ra[j],
            ) implies ra[i] == ra[j] by {
            assert(a[i + 1].same_place(a[j + 1]));
        }
        lemma_sorted_ops_unique(ra, rb);
        assert(a =~= seq![x] + ra);
        assert(b =~= seq![y] + rb);
    } else {
        assert(a =~= b);
    }
}

/// Applying the same operations in the order of operations has one
/// outcome, however they were handed over: two sequences that hold the same
/// operations, each as often, give the same items once they are sorted,
/// provided that operations at the same place of the order are the same operation.
pub proof fn lemma_lww_deterministic(
    items: ItemTable,
    first: Seq<OperationView>,
    second: Seq<OperationView>,
)
    requires
        first.to_multiset() == second.to_multiset(),
        forall|i: int, j: int|
            0 <= i < first.len() && 0 <= j < first.len() && (#[trigger] first[i]).same_place(
                #[trigger] first[j],
            ) ==> first[i] == first[j],
    ensures
        sort_by(first, op_order()) == sort_by(second, op_order()),
        lww_fold(items, sort_by(first, op_order())) == lww_fold(
            items,
            sort_by(second, op_order()),
        ),
        latest_of(None, sort_by(first, op_order())) == latest_of(
            None,
            sort_by(second, op_order()),
        ),
{
    broadcast use vstd::seq_lib::group_to_multiset_ensures;

    lemma_op_order_sorts();
    let a = sort_by(first, op_order());
    let b = sort_by(second, op_order());
    lemma_sort_ordered(first, op_order());
    lemma_sort_ordered(second, op_order());
    lemma_sort_permutes(first, op_order());
    lemma_sort_permutes(second, op_order());
    assert forall|i: int, j: int|
        0 <= i < a.len() && 0 <= j < a.len() && (#[trigger] a[i]).same_place(
            #[trigger] a[j],
        ) implies a[i] == a[j] by {
        vstd::seq_lib::to_multiset_contains(a, a[i]);
        vstd::seq_lib::to_multiset_contains(a, a[j]);
        vstd::seq_lib::to_multiset_contains(first, a[i]);
        vstd::seq_lib::to_multiset_contains(first, a[j]);
        assert(a.contains(a[i]));
        assert(a.contains(a[j]));
        assert(first.contains(a[i]));
        assert(first.contains(a[j]));
        let p = choose|p: int| 0 <= p < first.len() && first[p] == a[i];
        let q = choose|q: int| 0 <= q < first.len() && first[q] == a[j];
        assert(first[p].same_place(first[q]));
    }
    lemma_sorted_ops_unique(a, b);
}

/// The operations of `fetched` that are news after `since`, in the order of operations.
pub fn sort_news(fetched: Vec<Operation>, since: Option<Timestamp>) -> (ops: Vec<Operation>)
    ensures
        ops.deep_view() == sort_by(news_of(fetched.deep_view(), since), op_order()),
        ordered(ops.deep_view(), op_order()),
        ops.deep_view().to_multiset() == news_of(fetched.deep_view(), since).to_multiset(),
{
    let ghost raw = fetched@;
    let ghost all = fetched.deep_view();
    let mut ops: Vec<Operation> = Vec::new();
    assert(all.take(0) =~= Seq::<OperationView>::empty());
    for op in it: fetched
        invariant
            it.seq() == raw,
            all.len() == raw.len(),
            forall|i: int| 0 <= i < raw.len() ==> all[i] == (#[trigger] raw[i])@,
            ops.deep_view() == sort_by(news_of(all.take(it.index() as int), since), op_order()),
    {
        let ghost n = it.index() as int;
        proof {
            let next = all.take(n + 1);
            assert(next.drop_last() =~= all.take(n));
            assert(next.last() == op@);
        }
        let is_new = match since {
            Some(s) => s.is_before(&op.timestamp),
            None => true,
        };
        if is_new {
            let mut at: usize = 0;
            while at < ops.len() && !ops[at].is_newer_than(&op)
                invariant
                    at <= ops.len(),
                    forall|j: int|
                        0 <= j < at ==> (op_order())(#[trigger] ops.deep_view()[j], op@),
                decreases ops.len() - at,
            {
                at += 1;
            }
            proof {
                let sorted = ops.deep_view();
                let news = news_of(all.take(n), since);
                assert(news_of(all.take(n + 1), since).drop_last() =~= news);
                lemma_run_before_is(sorted, op@, op_order(), at as int);
            }
            let ghost sorted = ops.deep_view();
            ops.insert(at, op);
            assert(ops.deep_view() =~= sorted.insert(at as int, op@));
        }
    }
    proof {
        assert(all.take(all.len() as int) =~= all);
        lemma_op_order_sorts();
        lemma_sort_ordered(news_of(all, since), op_order());
        lemma_sort_permutes(news_of(all, since), op_order());
    }
    ops
}

/// Two devices that start from the same items and have seen the same
/// operations, each as often, hold the same items after applying them in
/// the order of operations, provided that operations at the same place of
/// the order are the same operation.
pub proof fn lemma_devices_converge(
    start: ItemTable,
    seen_by_one: Seq<OperationView>,
    seen_by_other: Seq<OperationView>,
)
    requires
        seen_by_one.to_multiset() == seen_by_other.to_multiset(),
        forall|i: int, j: int|
            0 <= i < seen_by_one.len() && 0 <= j < seen_by_one.len() && (
            #[trigger] seen_by_one[i]).same_place(#[trigger] seen_by_one[j]) ==> seen_by_one[i]
                == seen_by_one[j],
    ensures
        to_map(lww_fold(start, sort_by(seen_by_one, op_order()))) == to_map(
            lww_fold(start, sort_by(seen_by_other, op_order())),
        ),
        lww_fold(start, sort_by(seen_by_one, op_order())).to_set() == lww_fold(
            start,
            sort_by(seen_by_other, op_order()),
        ).to_set(),
{
    lemma_lww_deterministic(start, seen_by_one, seen_by_other);
}

/// The last-writer-wins rule, said of the mapping from ids to items: an
/// add of an item under its own id binds the id where it is free or bound
/// to an item created strictly earlier; a delete frees the id where it is
/// bound to an item created no later than the delete; nothing else changes.
pub proof fn lemma_lww_step_map(items: ItemTable, op: OperationView)
    requires
        unique_keys(items),
    ensures
        to_map(lww_step(items, op)) == match op.op_type {
            OpType::Add => match op.payload {
                Some(item) => if item.id == op.target_id && (!to_map(items).contains_key(
                    op.target_id,
                ) || to_map(items)[op.target_id].created_at.lt(item.created_at)) {
                    to_map(items).insert(op.target_id, item)
                } else {
                    to_map(items)
                },
                None => to_map(items),
            },
            OpType::Delete => if to_map(items).contains_key(op.target_id) && to_map(
                items,
            )[op.target_id].created_at.le(op.timestamp) {
                to_map(items).remove(op.target_id)
            } else {
                to_map(items)
            },
        },
{
    lemma_discard(items, op.target_id);
    if op.payload is Some {
        lemma_put(items, op.target_id, op.payload->0);
    }
}

/// Applying one sequence of operations and then another is applying the
/// two put together.
pub proof fn lemma_lww_fold_concat(
    items: ItemTable,
    first: Seq<OperationView>,
    second: Seq<OperationView>,
)
    ensures
        lww_fold(items, first + second) == lww_fold(lww_fold(items, first), second),
    decreases second.len(),
{
    if second.len() == 0 {
        assert(first + second =~= first);
    } else {
        assert((first + second).drop_last() =~= first + second.drop_last());
        lemma_lww_fold_concat(items, first, second.drop_last());
    }
}

/// A device that applies operations in two rounds ends where a device ends
/// that applies them all in one round, provided that no operation of the
/// second round takes effect before an operation of the first.
pub proof fn lemma_rounds_agree(
    items: ItemTable,
    first: Seq<OperationView>,
    second: Seq<OperationView>,
)
    requires
        forall|i: int, j: int|
            0 <= i < first.len() && 0 <= j < second.len() ==> !(#[trigger] second[j]).before(
                #[trigger] first[i],
            ),
    ensures
        sort_by(first + second, op_order()) == sort_by(first, op_order()) + sort_by(
            second,
            op_order(),
        ),
        lww_fold(items, sort_by(first + second, op_order())) == lww_fold(
            lww_fold(items, sort_by(first, op_order())),
            sort_by(second, op_order()),
        ),
{
    assert forall|i: int, j: int| 0 <= i < first.len() && 0 <= j < second.len() implies (
    op_order())(#[trigger] first[i], #[trigger] second[j]) by {
        assert(!second[j].before(first[i]));
    }
    lemma_sort_concat(first, second, op_order());
    lemma_lww_fold_concat(items, sort_by(first, op_order()), sort_by(second, op_order()));
}

/// What is news after the latest of some operations takes effect after
/// each of them.
pub proof fn lemma_news_come_later(ops: Seq<OperationView>, last: Option<Timestamp>, t: Timestamp)
    requires
        is_news(latest_of(last, ops), t),
    ensures
        is_news(last, t),
        forall|i: int| 0 <= i < ops.len() ==> (#[trigger] ops[i]).timestamp.lt(t),
    decreases ops.len(),
{
    if ops.len() > 0 {
        let init = ops.drop_last();
        let before = latest_of(last, init);
        assert(is_news(before, t));
        lemma_news_come_later(init, last, t);
        assert forall|i: int| 0 <= i < ops.len() implies (#[trigger] ops[i]).timestamp.lt(t) by {
            if i < init.len() {
                assert(ops[i] == init[i]);
            }
        }
    }
}

/// Every operation that `news_of` keeps is news.
pub proof fn lemma_news_are_news(ops: Seq<OperationView>, since: Option<Timestamp>, i: int)
    requires
        0 <= i < news_of(ops, since).len(),
    ensures
        is_news(since, news_of(ops, since)[i].timestamp),
    decreases ops.len(),
{
    if ops.len() > 0 {
        let init = news_of(ops.drop_last(), since);
        if i < init.len() {
            lemma_news_are_news(ops.drop_last(), since, i);
        }
    }
}

/// Two reconciliations in a row end where a single one ends that applies
/// what was news to the first together with what was news to the second.
pub proof fn lemma_second_sync_agrees(
    items: ItemTable,
    last: Option<Timestamp>,
    fetched_first: Seq<OperationView>,
    fetched_second: Seq<OperationView>,
)
    ensures
        ({
            let first = news_of(fetched_first, last);
            let after_first = latest_of(last, sort_by(first, op_order()));
            let second = news_of(fetched_second, after_first);
            lww_fold(
                lww_fold(items, sort_by(first, op_order())),
                sort_by(second, op_order()),
            ) == lww_fold(items, sort_by(first + second, op_order()))
        }),
{
    let first = news_of(fetched_first, last);
    let sorted = sort_by(first, op_order());
    let after_first = latest_of(last, sorted);
    let second = news_of(fetched_second, after_first);
    lemma_sort_permutes(first, op_order());
    assert forall|i: int, j: int| 0 <= i < first.len() && 0 <= j < second.len() implies !(
    #[trigger] second[j]).before(#[trigger] first[i]) by {
        lemma_news_are_news(fetched_second, after_first, j);
        lemma_news_come_later(sorted, last, second[j].timestamp);
        vstd::seq_lib::to_multiset_contains(first, first[i]);
        vstd::seq_lib::to_multiset_contains(sorted, first[i]);
        assert(first.contains(first[i]));
        let k = choose|k: int| 0 <= k < sorted.len() && sorted[k] == first[i];
        assert(sorted[k].timestamp.lt(second[j].timestamp));
    }
    lemma_rounds_agree(items, first, second);
}

/// Adding an item on a device is applying the add that is issued for it,
/// where the id is free or holds an item created strictly earlier.
pub proof fn lemma_local_add_agrees(items: ItemTable, op: OperationView)
    requires
        op.op_type == OpType::Add,
        op.well_formed(),
        !has_key(items, op.target_id) || item_of(items, op.target_id).created_at.lt(
            op.payload->0.created_at,
        ),
    ensures
        put(items, op.target_id, op.payload->0) == lww_step(items, op),
{
}

/// Deleting an id on a device is applying the delete that is issued for
/// it, where the id is free or holds an item created no later than the delete.
pub proof fn lemma_local_delete_agrees(items: ItemTable, op: OperationView)
    requires
        op.op_type == OpType::Delete,
        !has_key(items, op.target_id) || item_of(items, op.target_id).created_at.le(op.timestamp),
    ensures
        discard(items, op.target_id) == lww_step(items, op),
{
}

/// A device that pulls an operation of its own, right after the local
/// call that issued it, stays as it is.
pub proof fn lemma_own_operation_again(items: ItemTable, op: OperationView)
    requires
        unique_keys(items),
        op.well_formed(),
    ensures
        op.op_type == OpType::Add ==> lww_step(put(items, op.target_id, op.payload->0), op) == put(
            items,
            op.target_id,
            op.payload->0,
        ),
        op.op_type == OpType::Delete ==> lww_step(discard(items, op.target_id), op) == discard(
            items,
            op.target_id,
        ),
{
    lemma_discard(items, op.target_id);
    if op.op_type == OpType::Add {
        let item = op.payload->0;
        let held = put(items, op.target_id, item);
        lemma_put(items, op.target_id, item);
        let at = key_index(held, op.target_id);
        if has_key(items, op.target_id) {
            assert(held[key_index(items, op.target_id)] == (op.target_id, item));
        } else {
            assert(held[items.len() as int] == (op.target_id, item));
        }
        assert(held[at].1 == item) by {
            let k = if has_key(items, op.target_id) {
                key_index(items, op.target_id)
            } else {
                items.len() as int
            };
            if k < at {
                assert(held[k].0 != held[at].0);
            } else if at < k {
                assert(held[at].0 != held[k].0);
            }
        }
    }
}

} // verus!
