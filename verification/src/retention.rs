//! Which committed offsets have outlived their retention, and which groups go with them.

use crate::group::{CoordinatorGroup, CoordinatorGroupView, GroupKind, GroupKindTag, GroupKindView, PartitionKey, PartitionKeyView, saturate, saturated, without_keys};
use crate::ordmap::{OrdMap, Test, listing, passing, views};
use crate::pending_records::GroupSeed;
use crate::records::{GroupRecord, GroupRecordView, NextGenRecord, NextGenRecordView, OffsetEntry, OffsetEntryView, RecordBatch, RecordBatchView};
use vstd::prelude::*;

verus! {

/// What a pass did to a group.
#[derive(Debug, PartialEq, Eq)]
pub struct ReapOutcome {
    /// The offsets that it dropped, in order.
    pub reaped: Vec<PartitionKey>,
    /// Whether the group went with them.
    pub group_deleted: bool,
}

#[verifier::ext_equal]
pub struct ReapOutcomeView {
    pub reaped: Seq<PartitionKeyView>,
    pub group_deleted: bool,
}

impl View for ReapOutcome {
    type V = ReapOutcomeView;

    open spec fn view(&self) -> ReapOutcomeView {
        ReapOutcomeView { reaped: views(self.reaped@), group_deleted: self.group_deleted }
    }
}

impl ReapOutcomeView {
    /// A pass that did nothing.
    pub open spec fn nothing() -> ReapOutcomeView {
        ReapOutcomeView { reaped: seq![], group_deleted: false }
    }
}

impl ReapOutcome {
    /// A pass that did nothing.
    pub fn nothing() -> (r: Self)
        ensures
            r@ == ReapOutcomeView::nothing(),
    {
        let r = ReapOutcome { reaped: Vec::new(), group_deleted: false };
        assert(r@.reaped =~= seq![]);
        r
    }

    /// Whether the pass did anything.
    pub fn changed(&self) -> (r: bool)
        ensures
            r == (self@ != ReapOutcomeView::nothing()),
    {
        assert(views(self.reaped@).len() == self.reaped@.len());
        let r: bool = self.group_deleted || self.reaped.len() > 0;
        assert(!r ==> views(self.reaped@) =~= seq![]);
        r
    }
}

/// A pass over a group that waits for its tombstones to be appended.
#[derive(Debug, PartialEq, Eq)]
pub struct Reap {
    pub outcome: ReapOutcome,
    pub batch: RecordBatch,
}

/// Since when the group has been empty, where retention counts from that moment: a classic group
/// that some consumer has joined. Of others it counts from each commit.
pub open spec fn counted_from(g: CoordinatorGroupView) -> Option<i64> {
    match g.kind {
        GroupKindView::Classic(state) => if state.protocol_type is Some {
            g.empty_since_ms
        } else {
            None
        },
        GroupKindView::Consumer(_) => None,
    }
}

/// Whether the offset under `k` has outlived its retention.
pub open spec fn outlived(g: CoordinatorGroupView, k: PartitionKeyView, now_ms: i64, retention_ms: i64) -> bool {
    g.committed_offsets.contains_key(k) && g.committed_offsets[k].expired(now_ms, counted_from(g), retention_ms)
}

/// The offsets that have outlived their retention.
pub open spec fn expired_keys(g: CoordinatorGroupView, now_ms: i64, retention_ms: i64) -> Set<PartitionKeyView> {
    Set::new(|k: PartitionKeyView| outlived(g, k, now_ms, retention_ms))
}

/// Whether no offset would be left.
pub open spec fn all_expired(g: CoordinatorGroupView, now_ms: i64, retention_ms: i64) -> bool {
    forall|k: PartitionKeyView| #[trigger] g.committed_offsets.contains_key(k) ==> outlived(g, k, now_ms, retention_ms)
}

/// Whether the group has had no members for `grace_ms`.
pub open spec fn long_empty(g: CoordinatorGroupView, now_ms: i64, grace_ms: i64) -> bool {
    g.empty_since_ms is Some && now_ms >= saturated(g.empty_since_ms->0, grace_ms)
}

/// What a pass is to do to a group, if anything. A group with members keeps every offset. Of an
/// empty one the expired offsets go, and the group with them where none is left; a group that had
/// none to begin with goes once it has been empty for a while.
pub open spec fn due(g: CoordinatorGroupView, now_ms: i64, retention_ms: i64, grace_ms: i64) -> Option<ReapOutcomeView> {
    let expired = listing::<PartitionKey>(expired_keys(g, now_ms, retention_ms));
    let whole = all_expired(g, now_ms, retention_ms);
    if g.has_members() {
        None
    } else if expired.len() == 0 && !(whole && long_empty(g, now_ms, grace_ms)) {
        None
    } else {
        Some(ReapOutcomeView { reaped: expired, group_deleted: whole })
    }
}

/// A tombstone for each offset.
pub open spec fn offset_tombstones(keys: Seq<PartitionKeyView>) -> Seq<GroupRecordView> {
    Seq::new(keys.len(), |i: int| GroupRecordView::OffsetCommit { topic: keys[i].0, partition: keys[i].1, value: None })
}

/// The tombstones of a group's own records.
pub open spec fn group_tombstones(kind: GroupKindTag) -> Seq<GroupRecordView> {
    match kind {
        GroupKindTag::Classic => seq![GroupRecordView::ClassicMetadata { value: None }],
        GroupKindTag::Consumer => seq![
            GroupRecordView::NextGen(NextGenRecordView::GroupMetadata { epoch: None }),
            GroupRecordView::NextGen(NextGenRecordView::TargetAssignmentMetadata { assignment_epoch: None }),
        ],
    }
}

/// The tombstones of offsets, and of the group where it goes too.
pub open spec fn tombstones(keys: Seq<PartitionKeyView>, group: Option<GroupKindTag>) -> Seq<GroupRecordView> {
    match group {
        Some(kind) => offset_tombstones(keys) + group_tombstones(kind),
        None => offset_tombstones(keys),
    }
}

/// The batch that drops offsets, and the group where it goes too.
pub fn tombstone_batch(group_id: &String, keys: &Vec<PartitionKey>, group: Option<GroupKindTag>, now_ms: i64) -> (r: RecordBatch)
    ensures
        r@ == RecordBatchView::of(group_id@, tombstones(views(keys@), group), now_ms),
{
    let mut out: Vec<GroupRecord> = Vec::new();
    let ghost all = views(keys@);
    let mut i: usize = 0;
    while i < keys.len()
        invariant
            0 <= i <= keys@.len(),
            all == views(keys@),
            out@.len() == i,
            forall|j: int| 0 <= j < i ==> (#[trigger] out@[j])@ == offset_tombstones(all)[j],
        decreases keys@.len() - i,
    {
        out.push(GroupRecord::OffsetCommit { topic: keys[i].0.clone(), partition: keys[i].1, value: None });
        i = i + 1;
    }
    assert(views(out@) =~= offset_tombstones(all));
    match group {
        None => {},
        Some(GroupKindTag::Classic) => {
            out.push(GroupRecord::ClassicMetadata { value: None });
        },
        Some(GroupKindTag::Consumer) => {
            out.push(GroupRecord::NextGen(NextGenRecord::GroupMetadata { epoch: None }));
            out.push(GroupRecord::NextGen(NextGenRecord::TargetAssignmentMetadata { assignment_epoch: None }));
        },
    }
    assert(views(out@) =~= tombstones(all, group));
    RecordBatch::of(group_id, out, now_ms)
}

/// Since when the group has been empty, where retention counts from that moment.
pub fn group_empty_since_ms(group: &CoordinatorGroup) -> (r: Option<i64>)
    ensures
        r == counted_from(group@),
{
    match &group.kind {
        GroupKind::Classic(state) => if state.protocol_type.is_some() {
            group.empty_since_ms
        } else {
            None
        },
        GroupKind::Consumer(_) => None,
    }
}

/// Whether the group has had no members for `grace_ms`.
pub fn settled_empty(group: &CoordinatorGroup, now_ms: i64, grace_ms: i64) -> (r: bool)
    ensures
        r == long_empty(group@, now_ms, grace_ms),
{
    match group.empty_since_ms {
        Some(since) => now_ms >= saturate(since, grace_ms),
        None => false,
    }
}

struct Outlived {
    now_ms: i64,
    from: Option<i64>,
    retention_ms: i64,
    wanted: bool,
}

impl Test<PartitionKey, OffsetEntry> for Outlived {
    closed spec fn holds(&self, k: PartitionKeyView, v: OffsetEntryView) -> bool {
        v.expired(self.now_ms, self.from, self.retention_ms) == self.wanted
    }

    fn test(&self, k: &PartitionKey, v: &OffsetEntry) -> (r: bool) {
        v.is_expired(self.now_ms, self.from, self.retention_ms) == self.wanted
    }
}

/// Whether `r` is what a pass over a group is to append before it may do what it is to do.
pub open spec fn is_reap(g: CoordinatorGroupView, now_ms: i64, retention_ms: i64, grace_ms: i64, r: Option<Reap>) -> bool {
    match r {
        Some(reap) => {
            &&& due(g, now_ms, retention_ms, grace_ms) == Some(reap.outcome@)
            &&& reap.batch@ == RecordBatchView::of(
                g.group_id,
                tombstones(
                    reap.outcome@.reaped,
                    if !reap.outcome@.group_deleted {
                        None
                    } else if g.kind is Classic {
                        Some(GroupKindTag::Classic)
                    } else {
                        Some(GroupKindTag::Consumer)
                    },
                ),
                now_ms,
            )
        },
        None => due(g, now_ms, retention_ms, grace_ms) is None,
    }
}

/// What a pass over a group is to append before it may do what it is to do, if anything.
pub fn plan_reap(group: &CoordinatorGroup, now_ms: i64, retention_ms: i64, grace_ms: i64) -> (r: Option<Reap>)
    ensures
        is_reap(group@, now_ms, retention_ms, grace_ms, r),
{
    let ghost g = group@;
    if group.has_members() {
        return None;
    }
    let from: Option<i64> = group_empty_since_ms(group);
    let gone = Outlived { now_ms, from, retention_ms, wanted: true };
    let stays = Outlived { now_ms, from, retention_ms, wanted: false };
    let expired: Vec<PartitionKey> = group.committed_offsets.keys_where(&gone);
    assert(passing::<PartitionKey, OffsetEntry, Outlived>(g.committed_offsets, gone) =~= expired_keys(g, now_ms, retention_ms));
    let some_stay: bool = group.committed_offsets.any(&stays);
    assert(some_stay == !all_expired(g, now_ms, retention_ms)) by {
        if some_stay {
            let k = choose|k: PartitionKeyView| #[trigger] g.committed_offsets.contains_key(k) && stays.holds(k, g.committed_offsets[k]);
            assert(!outlived(g, k, now_ms, retention_ms));
        } else {
            assert forall|k: PartitionKeyView| #[trigger] g.committed_offsets.contains_key(k) implies outlived(g, k, now_ms, retention_ms) by {
                assert(!stays.holds(k, g.committed_offsets[k]));
            }
        }
    }
    let whole: bool = !some_stay;
    assert(views(expired@).len() == expired@.len());
    if expired.len() == 0 && !(whole && settled_empty(group, now_ms, grace_ms)) {
        return None;
    }
    let kind: Option<GroupKindTag> = if whole {
        Some(group.tag())
    } else {
        None
    };
    let batch = tombstone_batch(&group.group_id, &expired, kind, now_ms);
    Some(Reap { outcome: ReapOutcome { reaped: expired, group_deleted: whole }, batch })
}

/// What a pass comes to once its batch was appended or not: the offsets go, and with the group its
/// seed. A batch that was not appended leaves everything as it was.
pub fn finish_reap(group: &mut CoordinatorGroup, seeds: &mut OrdMap<String, GroupSeed>, reap: Reap, appended: bool) -> (r: ReapOutcome)
    ensures
        r@ == if appended {
            reap.outcome@
        } else {
            ReapOutcomeView::nothing()
        },
        final(group)@ == if appended {
            (CoordinatorGroupView { committed_offsets: without_keys(old(group)@.committed_offsets, reap.outcome@.reaped), ..old(group)@ })
        } else {
            old(group)@
        },
        final(seeds)@ == if appended && reap.outcome@.group_deleted {
            old(seeds)@.remove(old(group)@.group_id)
        } else {
            old(seeds)@
        },
{
    if !appended {
        return ReapOutcome::nothing();
    }
    group.remove_committed(&reap.outcome.reaped);
    if reap.outcome.group_deleted {
        let _ = seeds.remove(&group.group_id);
    }
    reap.outcome
}

} // verus!
