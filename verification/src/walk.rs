//! The walk over the log that groups are read back from, and the groups that it ends in.

use crate::classic_state::ClassicGroup;
use crate::consumer_state::{GroupState, GroupStateView, ReconcileInput, ReconcileInputView};
use crate::directory::{Directory, DirectoryView};
use crate::group::{CoordinatorGroup, CoordinatorGroupView, GroupKind, GroupKindView, PartitionKey, PartitionKeyView};
use crate::ordmap::{Change, Dup, OrdMap, OrdSet, listing, str_eq, views};
use crate::records::{GroupRecord, GroupRecordView, OffsetEntry, dup_list};
use crate::replay::{LoggedRecord, LoggedRecordView, OpenOffsets, OpenOffsetsView, Replayed, ReplayedView, offsets_in};
use crate::seed::{apply_seed, seeded};
use vstd::prelude::*;

verus! {

/// A batch as it is read back.
#[derive(Debug, PartialEq, Eq)]
pub struct LogBatch {
    pub base_offset: i64,
    pub last_offset_delta: i32,
    pub producer_id: i64,
    pub transactional: bool,
    /// Whether the batch is a marker that ends a transaction.
    pub control: bool,
    /// The key of a marker.
    pub marker_key: Option<Vec<u8>>,
    pub records: Vec<LoggedRecord>,
}

#[verifier::ext_equal]
pub struct LogBatchView {
    pub base_offset: i64,
    pub last_offset_delta: i32,
    pub producer_id: i64,
    pub transactional: bool,
    pub control: bool,
    pub marker_key: Option<Seq<u8>>,
    pub records: Seq<LoggedRecordView>,
}

impl View for LogBatch {
    type V = LogBatchView;

    open spec fn view(&self) -> LogBatchView {
        LogBatchView {
            base_offset: self.base_offset,
            last_offset_delta: self.last_offset_delta,
            producer_id: self.producer_id,
            transactional: self.transactional,
            control: self.control,
            marker_key: match self.marker_key {
                Some(k) => Some(k@),
                None => None,
            },
            records: views(self.records@),
        }
    }
}

impl LogBatchView {
    /// Whether the batch is a marker that commits: the second number of its key is one.
    pub open spec fn commits(self) -> bool {
        match self.marker_key {
            Some(k) => k.len() >= 4 && k[2] == 0 && k[3] == 1,
            None => false,
        }
    }

    /// Where the next batch begins.
    pub open spec fn end(self) -> int {
        self.base_offset + self.last_offset_delta + 1
    }
}

impl LogBatch {
    /// Whether the batch is a marker that commits.
    pub fn commits(&self) -> (r: bool)
        ensures
            r == self@.commits(),
    {
        match &self.marker_key {
            Some(k) => k.len() >= 4 && k[2] == 0 && k[3] == 1,
            None => false,
        }
    }
}

/// A record of an open transaction, and where it was written.
#[derive(Debug, PartialEq, Eq)]
pub struct Deferred {
    pub record: LoggedRecord,
    pub at: i64,
}

#[verifier::ext_equal]
pub struct DeferredView {
    pub record: LoggedRecordView,
    pub at: i64,
}

impl View for Deferred {
    type V = DeferredView;

    open spec fn view(&self) -> DeferredView {
        DeferredView { record: self.record@, at: self.at }
    }
}

impl Dup for Deferred {
    fn dup(&self) -> (r: Self) {
        Deferred { record: self.record.dup(), at: self.at }
    }
}

/// The records of an open transaction.
#[derive(Debug, PartialEq, Eq)]
pub struct Transaction {
    pub records: Vec<Deferred>,
}

impl View for Transaction {
    type V = Seq<DeferredView>;

    open spec fn view(&self) -> Seq<DeferredView> {
        views(self.records@)
    }
}

impl Dup for Transaction {
    fn dup(&self) -> (r: Self) {
        Transaction { records: dup_list(&self.records) }
    }
}

/// What was read back so far, and the transactions that are open, by producer.
#[derive(Debug, PartialEq, Eq)]
pub struct Walk {
    pub replayed: Replayed,
    pub open: OrdMap<i64, Transaction>,
}

#[verifier::ext_equal]
pub struct WalkView {
    pub replayed: ReplayedView,
    pub open: Map<i64, Seq<DeferredView>>,
}

impl View for Walk {
    type V = WalkView;

    open spec fn view(&self) -> WalkView {
        WalkView { replayed: self.replayed@, open: self.open@ }
    }
}

/// Whether a record writes the offset of `key` of the group `id`.
pub open spec fn writes_offset(r: LoggedRecordView, id: Seq<char>, key: PartitionKeyView) -> bool {
    match r {
        LoggedRecordView::Group { group_id, record } => match record {
            GroupRecordView::OffsetCommit { topic, partition, .. } => group_id == id && topic == key.0 && partition == key.1,
            _ => false,
        },
        _ => false,
    }
}

/// The records that do not write the offset of `key` of the group `id`.
pub open spec fn spared(list: Seq<DeferredView>, id: Seq<char>, key: PartitionKeyView) -> Seq<DeferredView>
    decreases list.len(),
{
    if list.len() == 0 {
        seq![]
    } else {
        let before = spared(list.drop_last(), id, key);
        if writes_offset(list.last().record, id, key) {
            before
        } else {
            before.push(list.last())
        }
    }
}

/// The records of a transaction that committed are read, one after the other.
pub open spec fn all_read(acc: ReplayedView, list: Seq<DeferredView>, now: u64) -> ReplayedView
    decreases list.len(),
{
    if list.len() == 0 {
        acc
    } else {
        all_read(acc, list.drop_last(), now).with(list.last().record, now)
    }
}

/// The transactions without what they wrote under an offset that was dropped meanwhile.
pub open spec fn open_without(open: Map<i64, Seq<DeferredView>>, r: LoggedRecordView) -> Map<i64, Seq<DeferredView>> {
    match r {
        LoggedRecordView::Group { group_id, record } => match record {
            GroupRecordView::OffsetCommit { topic, partition, value } => if value is None {
                Map::new(|p: i64| open.contains_key(p), |p: i64| spared(open[p], group_id, (topic, partition)))
            } else {
                open
            },
            _ => open,
        },
        _ => open,
    }
}

/// The records of a transaction with their place.
pub open spec fn placed(records: Seq<LoggedRecordView>, at: i64) -> Seq<DeferredView> {
    Seq::new(records.len(), |i: int| DeferredView { record: records[i], at })
}

impl WalkView {
    /// The walk begins.
    pub open spec fn begun() -> WalkView {
        WalkView { replayed: ReplayedView::nothing(), open: Map::empty() }
    }

    /// What a producer's open transaction wrote.
    pub open spec fn open_of(self, producer: i64) -> Seq<DeferredView> {
        if self.open.contains_key(producer) {
            self.open[producer]
        } else {
            seq![]
        }
    }

    /// A record outside any transaction is read. The tombstone of an offset also drops what open
    /// transactions wrote under it, so that they cannot bring it back.
    pub open spec fn with_record(self, r: LoggedRecordView, now: u64) -> WalkView {
        WalkView { replayed: self.replayed.with(r, now), open: open_without(self.open, r) }
    }

    /// Records outside any transaction are read, one after the other.
    pub open spec fn with_records(self, records: Seq<LoggedRecordView>, now: u64) -> WalkView
        decreases records.len(),
    {
        if records.len() == 0 {
            self
        } else {
            self.with_records(records.drop_last(), now).with_record(records.last(), now)
        }
    }

    /// A batch is read. A marker ends its producer's transaction, which counts where it commits; the
    /// records of a transaction wait for it; any others count at once.
    pub open spec fn with(self, b: LogBatchView, now: u64) -> WalkView {
        if b.control {
            WalkView {
                replayed: if b.commits() {
                    all_read(self.replayed, self.open_of(b.producer_id), now)
                } else {
                    self.replayed
                },
                open: self.open.remove(b.producer_id),
            }
        } else if b.transactional {
            WalkView { open: self.open.insert(b.producer_id, self.open_of(b.producer_id) + placed(b.records, b.base_offset)), ..self }
        } else {
            self.with_records(b.records, now)
        }
    }

    /// Batches are read, one after the other.
    pub open spec fn with_all(self, batches: Seq<LogBatchView>, now: u64) -> WalkView
        decreases batches.len(),
    {
        if batches.len() == 0 {
            self
        } else {
            self.with_all(batches.drop_last(), now).with(batches.last(), now)
        }
    }
}

struct Spare<'a> {
    group_id: &'a String,
    topic: &'a String,
    partition: i32,
}

impl<'a> Change<i64, Transaction> for Spare<'a> {
    closed spec fn changed(&self, k: i64, v: Seq<DeferredView>) -> Seq<DeferredView> {
        spared(v, self.group_id@, (self.topic@, self.partition))
    }

    fn change(&self, k: &i64, v: &Transaction) -> (r: Transaction) {
        let ghost all = v@;
        let ghost key = (self.topic@, self.partition);
        let mut out: Vec<Deferred> = Vec::new();
        let mut i: usize = 0;
        assert(all.take(0) =~= seq![]);
        assert(views(out@) =~= seq![]);
        while i < v.records.len()
            invariant
                0 <= i <= v.records@.len(),
                all == views(v.records@),
                key == (self.topic@, self.partition),
                views(out@) == spared(all.take(i as int), self.group_id@, key),
            decreases v.records@.len() - i,
        {
            let ghost next = all.take(i + 1);
            assert(next.drop_last() =~= all.take(i as int));
            assert(next.last() == v.records@[i as int]@);
            let hit: bool = match &v.records[i].record {
                LoggedRecord::Group { group_id, record } => match record {
                    GroupRecord::OffsetCommit { topic, partition, .. } => str_eq(group_id.as_str(), self.group_id.as_str()) && str_eq(
                        topic.as_str(),
                        self.topic.as_str(),
                    ) && *partition == self.partition,
                    _ => false,
                },
                _ => false,
            };
            if !hit {
                let ghost before = out@;
                out.push(v.records[i].dup());
                assert(views(out@) =~= views(before).push(next.last()));
            }
            i = i + 1;
        }
        assert(all.take(all.len() as int) =~= all);
        Transaction { records: out }
    }
}

impl Walk {
    /// The walk begins.
    pub fn begin() -> (r: Self)
        ensures
            r@ == WalkView::begun(),
    {
        Walk { replayed: Replayed::nothing(), open: OrdMap::new() }
    }

    fn read_record(&mut self, r: &LoggedRecord, now: u64)
        ensures
            final(self)@ == old(self)@.with_record(r@, now),
    {
        let ghost before = self@;
        self.replayed.take_up(r, now);
        if let LoggedRecord::Group { group_id, record } = r {
            if let GroupRecord::OffsetCommit { topic, partition, value } = record {
                if value.is_none() {
                    let c = Spare { group_id, topic, partition: *partition };
                    self.open.change_each(&c);
                    assert(self@.open =~= open_without(before.open, r@));
                }
            }
        }
        assert(self@ =~= before.with_record(r@, now));
    }

    fn read_records(&mut self, records: &Vec<LoggedRecord>, now: u64)
        ensures
            final(self)@ == old(self)@.with_records(views(records@), now),
    {
        let ghost before = self@;
        let ghost all = views(records@);
        let mut i: usize = 0;
        assert(all.take(0) =~= seq![]);
        while i < records.len()
            invariant
                0 <= i <= records@.len(),
                all == views(records@),
                self@ == before.with_records(all.take(i as int), now),
            decreases records@.len() - i,
        {
            let ghost next = all.take(i + 1);
            assert(next.drop_last() =~= all.take(i as int));
            assert(next.last() == records@[i as int]@);
            self.read_record(&records[i], now);
            i = i + 1;
        }
        assert(all.take(all.len() as int) =~= all);
    }

    fn read_committed(&mut self, list: &Vec<Deferred>, now: u64)
        ensures
            final(self)@ == (WalkView { replayed: all_read(old(self)@.replayed, views(list@), now), ..old(self)@ }),
    {
        let ghost before = self@;
        let ghost all = views(list@);
        let mut i: usize = 0;
        assert(all.take(0) =~= seq![]);
        while i < list.len()
            invariant
                0 <= i <= list@.len(),
                all == views(list@),
                self@ == (WalkView { replayed: all_read(before.replayed, all.take(i as int), now), ..before }),
            decreases list@.len() - i,
        {
            let ghost next = all.take(i + 1);
            assert(next.drop_last() =~= all.take(i as int));
            assert(next.last() == list@[i as int]@);
            self.replayed.take_up(&list[i].record, now);
            i = i + 1;
        }
        assert(all.take(all.len() as int) =~= all);
    }

    fn defer(&mut self, producer: i64, records: &Vec<LoggedRecord>, at: i64)
        ensures
            final(self)@ == (WalkView { open: old(self)@.open.insert(producer, old(self)@.open_of(producer) + placed(views(records@), at)), ..old(self)@ }),
    {
        let ghost before = self@;
        let ghost was = before.open_of(producer);
        let ghost all = placed(views(records@), at);
        let mut list: Vec<Deferred> = match self.open.remove(&producer) {
            Some(t) => t.records,
            None => Vec::new(),
        };
        assert(views(list@) =~= was);
        let mut i: usize = 0;
        assert(was + all.take(0) =~= was);
        while i < records.len()
            invariant
                0 <= i <= records@.len(),
                all == placed(views(records@), at),
                views(list@) == was + all.take(i as int),
            decreases records@.len() - i,
        {
            let ghost now_there = list@;
            list.push(Deferred { record: records[i].dup(), at });
            assert(views(list@) =~= views(now_there).push(all[i as int]));
            assert(was + all.take(i + 1) =~= (was + all.take(i as int)).push(all[i as int]));
            i = i + 1;
        }
        assert(all.take(all.len() as int) =~= all);
        self.open.insert(producer, Transaction { records: list });
        assert(self@.open =~= before.open.insert(producer, was + all));
    }

    /// Reads a batch.
    pub fn read(&mut self, batch: &LogBatch, now: u64)
        ensures
            final(self)@ == old(self)@.with(batch@, now),
    {
        let ghost before = self@;
        if batch.control {
            let ended = self.open.remove(&batch.producer_id);
            if batch.commits() {
                if let Some(t) = ended {
                    self.read_committed(&t.records, now);
                }
            }
            assert(self@ =~= before.with(batch@, now));
        } else if batch.transactional {
            self.defer(batch.producer_id, &batch.records, batch.base_offset);
        } else {
            self.read_records(&batch.records, now);
        }
    }

    /// Reads the batches that the log gave from offset `next` on, and tells where to read on; nowhere
    /// where they did not lead beyond `next`.
    pub fn read_from(&mut self, batches: &Vec<LogBatch>, next: i64, now: u64) -> (r: Option<i64>)
        requires
            forall|i: int| 0 <= i < batches@.len() ==> i64::MIN <= (#[trigger] batches@[i])@.end() <= i64::MAX,
        ensures
            final(self)@ == old(self)@.with_all(views(batches@), now),
            r == if batches@.len() > 0 && batches@.last()@.end() > next {
                Some(batches@.last()@.end() as i64)
            } else {
                None
            },
    {
        let ghost before = self@;
        let ghost all = views(batches@);
        let mut at: i64 = next;
        let mut i: usize = 0;
        assert(all.take(0) =~= seq![]);
        while i < batches.len()
            invariant
                0 <= i <= batches@.len(),
                all == views(batches@),
                forall|j: int| 0 <= j < batches@.len() ==> i64::MIN <= (#[trigger] batches@[j])@.end() <= i64::MAX,
                self@ == before.with_all(all.take(i as int), now),
                i == 0 ==> at == next,
                i > 0 ==> at == batches@[i - 1]@.end(),
            decreases batches@.len() - i,
        {
            let ghost upto = all.take(i + 1);
            assert(upto.drop_last() =~= all.take(i as int));
            assert(upto.last() == batches@[i as int]@);
            let b = &batches[i];
            self.read(b, now);
            assert(b@.end() == batches@[i as int]@.end());
            let end: i128 = b.base_offset as i128 + b.last_offset_delta as i128 + 1;
            at = end as i64;
            i = i + 1;
        }
        assert(all.take(all.len() as int) =~= all);
        if at > next {
            Some(at)
        } else {
            None
        }
    }
}

/// By group, what open transactions wrote, with one more offset of it.
pub open spec fn one_marked(m: Map<Seq<char>, OpenOffsetsView>, id: Seq<char>, producer: i64, key: PartitionKeyView, at: i64) -> Map<
    Seq<char>,
    OpenOffsetsView,
> {
    let of_group = if m.contains_key(id) {
        m[id]
    } else {
        Map::empty()
    };
    let of_producer = if of_group.contains_key(producer) {
        of_group[producer]
    } else {
        Map::empty()
    };
    m.insert(id, of_group.insert(producer, of_producer.insert(key, at)))
}

/// By group, what open transactions wrote, with the offsets that a list of records commits.
pub open spec fn list_marked(m: Map<Seq<char>, OpenOffsetsView>, producer: i64, list: Seq<DeferredView>) -> Map<Seq<char>, OpenOffsetsView>
    decreases list.len(),
{
    if list.len() == 0 {
        m
    } else {
        let before = list_marked(m, producer, list.drop_last());
        match list.last().record {
            LoggedRecordView::Group { group_id, record } => match record {
                GroupRecordView::OffsetCommit { topic, partition, value } => if value is Some {
                    one_marked(before, group_id, producer, (topic, partition), list.last().at)
                } else {
                    before
                },
                _ => before,
            },
            _ => before,
        }
    }
}

/// By group, what the open transactions of `producers` wrote.
pub open spec fn all_marked(open: Map<i64, Seq<DeferredView>>, producers: Seq<i64>) -> Map<Seq<char>, OpenOffsetsView>
    decreases producers.len(),
{
    if producers.len() == 0 {
        Map::empty()
    } else {
        list_marked(all_marked(open, producers.drop_last()), producers.last(), open[producers.last()])
    }
}

/// What a walk ends in: the offsets of the transactions that are still open are pending.
pub open spec fn walk_ended(w: WalkView) -> ReplayedView {
    ReplayedView { pending_txn: all_marked(w.open, listing::<i64>(w.open.dom())), ..w.replayed }
}

fn mark_one(m: &mut OrdMap<String, OpenOffsets>, id: &String, producer: i64, topic: &String, partition: i32, at: i64)
    ensures
        final(m)@ == one_marked(old(m)@, id@, producer, (topic@, partition), at),
{
    let ghost before = m@;
    let mut of_group: OpenOffsets = match m.remove(id) {
        Some(g) => g,
        None => OrdMap::new(),
    };
    let ghost was = of_group@;
    let mut of_producer: OrdMap<PartitionKey, i64> = match of_group.remove(&producer) {
        Some(p) => p,
        None => OrdMap::new(),
    };
    let ghost had = of_producer@;
    of_producer.insert((topic.clone(), partition), at);
    of_group.insert(producer, of_producer);
    assert(of_group@ =~= was.insert(producer, had.insert((topic@, partition), at)));
    m.insert(id.clone(), of_group);
    assert(m@ =~= one_marked(before, id@, producer, (topic@, partition), at));
}

fn mark_list(m: &mut OrdMap<String, OpenOffsets>, producer: i64, list: &Vec<Deferred>)
    ensures
        final(m)@ == list_marked(old(m)@, producer, views(list@)),
{
    let ghost before = m@;
    let ghost all = views(list@);
    let mut i: usize = 0;
    assert(all.take(0) =~= seq![]);
    while i < list.len()
        invariant
            0 <= i <= list@.len(),
            all == views(list@),
            m@ == list_marked(before, producer, all.take(i as int)),
        decreases list@.len() - i,
    {
        let ghost next = all.take(i + 1);
        assert(next.drop_last() =~= all.take(i as int));
        assert(next.last() == list@[i as int]@);
        if let LoggedRecord::Group { group_id, record } = &list[i].record {
            if let GroupRecord::OffsetCommit { topic, partition, value } = record {
                if value.is_some() {
                    mark_one(m, group_id, producer, topic, *partition, list[i].at);
                }
            }
        }
        i = i + 1;
    }
    assert(all.take(all.len() as int) =~= all);
}

impl Walk {
    /// Ends the walk.
    pub fn end(self) -> (r: Replayed)
        ensures
            r@ == walk_ended(self@),
    {
        let ghost w = self@;
        let mut out: OrdMap<String, OpenOffsets> = OrdMap::new();
        let n: usize = self.open.len();
        let ghost producers = self.open.keys();
        let mut i: usize = 0;
        assert(producers.take(0) =~= seq![]);
        while i < n
            invariant
                0 <= i <= n,
                n == producers.len(),
                producers == self.open.keys(),
                w == self@,
                out@ == all_marked(w.open, producers.take(i as int)),
            decreases n - i,
        {
            let ghost next = producers.take(i + 1);
            assert(next.drop_last() =~= producers.take(i as int));
            let producer: i64 = *self.open.key_at(i);
            assert(next.last() == producer);
            let t = self.open.value_at(i);
            mark_list(&mut out, producer, &t.records);
            i = i + 1;
        }
        assert(producers.take(producers.len() as int) =~= producers);
        let mut r = self.replayed;
        r.pending_txn = out;
        r
    }
}

/// Reads a whole log back.
pub fn replay_records(batches: &Vec<LogBatch>, now: u64) -> (r: Replayed)
    ensures
        r@ == walk_ended(WalkView::begun().with_all(views(batches@), now)),
{
    let mut walk = Walk::begin();
    let ghost all = views(batches@);
    let mut i: usize = 0;
    assert(all.take(0) =~= seq![]);
    while i < batches.len()
        invariant
            0 <= i <= batches@.len(),
            all == views(batches@),
            walk@ == WalkView::begun().with_all(all.take(i as int), now),
        decreases batches@.len() - i,
    {
        let ghost next = all.take(i + 1);
        assert(next.drop_last() =~= all.take(i as int));
        assert(next.last() == batches@[i as int]@);
        walk.read(&batches[i], now);
        i = i + 1;
    }
    assert(all.take(all.len() as int) =~= all);
    walk.end()
}

/// A consumer group without members.
pub open spec fn fresh_consumer(id: Seq<char>) -> GroupStateView {
    GroupStateView { group_id: id, group_epoch: 0, members: Map::empty(), target_epoch: 0, target: Map::empty(), dirty: false }
}

/// Whether a group was read back under `id`: a record of it, or an offset that is committed. What an
/// open transaction wrote makes no group.
pub open spec fn read_back(r: ReplayedView, id: Seq<char>) -> bool {
    r.seeds.contains_key(id) || r.classic.contains_key(id) || r.committed.contains_key(id)
}

/// A group that was read back: a consumer group where a seed of one was, else a classic group, with
/// its offsets and what open transactions wrote.
pub open spec fn restored_group(r: ReplayedView, id: Seq<char>, image: ReconcileInputView, now: u64) -> CoordinatorGroupView {
    CoordinatorGroupView {
        group_id: id,
        kind: if r.seeds.contains_key(id) {
            GroupKindView::Consumer(seeded(fresh_consumer(id), r.seeds[id], image, now))
        } else {
            GroupKindView::Classic(r.classic_or_fresh(id))
        },
        committed_offsets: offsets_in(r.committed, id),
        pending_txn: if r.pending_txn.contains_key(id) {
            r.pending_txn[id]
        } else {
            Map::empty()
        },
        reserved_txn: Map::empty(),
        resolved_txn: Map::empty(),
        empty_since_ms: if !r.seeds.contains_key(id) && r.empty_since.contains_key(id) {
            Some(r.empty_since[id])
        } else {
            None
        },
    }
}

/// The groups that were read back.
pub open spec fn restored(r: ReplayedView, image: ReconcileInputView, now: u64) -> Map<Seq<char>, CoordinatorGroupView> {
    Map::new(|id: Seq<char>| read_back(r, id), |id: Seq<char>| restored_group(r, id, image, now))
}

fn restore_group(r: &Replayed, id: &String, image: &ReconcileInput, now: u64) -> (g: CoordinatorGroup)
    ensures
        g@ == restored_group(r@, id@, image@, now),
{
    let consumer: bool = r.seeds.contains_key(id);
    let kind: GroupKind = match r.seeds.get(id) {
        Some(seed) => {
            let mut state = GroupState::new(id.clone());
            assert(state@ =~= fresh_consumer(id@));
            apply_seed(&mut state, seed, image, now);
            GroupKind::Consumer(state)
        },
        None => GroupKind::Classic(
            match r.classic.get(id) {
                Some(g) => g.dup(),
                None => ClassicGroup::new(id.clone()),
            },
        ),
    };
    let committed: OrdMap<PartitionKey, OffsetEntry> = match r.committed.get(id) {
        Some(m) => m.dup(),
        None => OrdMap::new(),
    };
    let mut group = CoordinatorGroup::seeded(id.clone(), kind, committed);
    if let Some(open) = r.pending_txn.get(id) {
        group.pending_txn = open.dup();
    }
    if !consumer {
        if let Some(since) = r.empty_since.get(id) {
            group.empty_since_ms = Some(*since);
        }
    }
    assert(group@ =~= restored_group(r@, id@, image@, now));
    group
}

fn add_keys<V: View>(ids: &mut OrdSet<String>, m: &OrdMap<String, V>)
    ensures
        final(ids)@ == old(ids)@.union(m@.dom()),
{
    let ghost before = ids@;
    let n: usize = m.len();
    let mut i: usize = 0;
    while i < n
        invariant
            0 <= i <= n,
            n == m.keys().len(),
            m.listed(),
            forall|k: Seq<char>| #[trigger] ids@.contains(k) ==> before.contains(k) || m@.contains_key(k),
            forall|k: Seq<char>| before.contains(k) ==> #[trigger] ids@.contains(k),
            forall|j: int| 0 <= j < i ==> ids@.contains(#[trigger] m.keys()[j]),
        decreases n - i,
    {
        ids.insert(m.key_at(i).clone());
        i = i + 1;
    }
    assert(ids@ =~= before.union(m@.dom())) by {
        assert forall|k: Seq<char>| m@.contains_key(k) implies ids@.contains(k) by {
            let j = choose|j: int| 0 <= j < n && m.keys()[j] == k;
            assert(ids@.contains(m.keys()[j]));
        }
    }
}

/// The groups to serve, from what was read back. What is known of ids, and the seeds, go to the
/// directory.
pub fn finalize(dir: &mut Directory, replayed: Replayed, image: &ReconcileInput, now: u64) -> (r: OrdMap<String, CoordinatorGroup>)
    ensures
        r@ == restored(replayed@, image@, now),
        final(dir)@ == (DirectoryView {
            types: old(dir)@.types.union_prefer_right(replayed@.types),
            seeds: old(dir)@.seeds.union_prefer_right(replayed@.seeds),
            share_seeds: old(dir)@.share_seeds.union_prefer_right(replayed@.share_seeds),
            streams_seeds: old(dir)@.streams_seeds.union_prefer_right(replayed@.streams_seeds),
            ..old(dir)@
        }),
{
    let ghost r = replayed@;
    let mut set: OrdSet<String> = OrdSet::new();
    add_keys(&mut set, &replayed.seeds);
    add_keys(&mut set, &replayed.classic);
    add_keys(&mut set, &replayed.committed);
    assert forall|id: Seq<char>| set@.contains(id) == read_back(r, id) by {}
    let n: usize = set.len();
    let mut out: OrdMap<String, CoordinatorGroup> = OrdMap::new();
    let mut i: usize = 0;
    while i < n
        invariant
            0 <= i <= n,
            n == set.keys().len(),
            set.listed(),
            r == replayed@,
            forall|id: Seq<char>| #[trigger] out@.contains_key(id) ==> set@.contains(id) && out@[id] == restored_group(r, id, image@, now),
            forall|j: int| 0 <= j < i ==> out@.contains_key(#[trigger] set.keys()[j]),
        decreases n - i,
    {
        let id = set.at(i);
        let group = restore_group(&replayed, id, image, now);
        out.insert(id.clone(), group);
        i = i + 1;
    }
    assert forall|id: Seq<char>| set@.contains(id) implies out@.contains_key(id) by {
        let j = choose|j: int| 0 <= j < n && set.keys()[j] == id;
        assert(out@.contains_key(set.keys()[j]));
    }
    assert(out@ =~= restored(r, image@, now));
    dir.types.overlay(&replayed.types);
    dir.seeds.overlay(&replayed.seeds);
    dir.share_seeds.overlay(&replayed.share_seeds);
    dir.streams_seeds.overlay(&replayed.streams_seeds);
    out
}

} // verus!
