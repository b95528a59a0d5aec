//! What is restored of the groups whose records are read back.

use crate::consumer_state::{MemberAssignmentState, ReconcileInputView};
use crate::directory::GroupType;
use crate::group::{CoordinatorGroupView, GroupKindView, PartitionKeyView};
use crate::ordmap::{finite_listed, listed_at, listing, listing_holds};
use crate::pending_records::GroupSeedView;
use crate::records::{GroupRecordView, NextGenRecordView, OffsetEntryView};
use crate::replay::{LoggedRecordView, OpenOffsetsView, ReplayedView, offsets_in};
use crate::share_streams::{ShareGroupSeedView, ShareRecordView, StreamsGroupSeedView, StreamsRecordView};
use crate::walk::{DeferredView, LogBatchView, WalkView, all_marked, list_marked, one_marked, read_back, restored, restored_group, walk_ended};
use vstd::prelude::*;

verus! {

/// The group that a record is of.
pub open spec fn group_of(r: LoggedRecordView) -> Seq<char> {
    match r {
        LoggedRecordView::Group { group_id, .. } => group_id,
        LoggedRecordView::Share { group_id, .. } => group_id,
        LoggedRecordView::Streams { group_id, .. } => group_id,
    }
}

/// A record says nothing of other groups than its own.
pub proof fn record_is_of_its_group_alone(a: ReplayedView, r: LoggedRecordView, now: u64, id: Seq<char>)
    requires
        group_of(r) != id,
    ensures
        ({
            let b = a.with(r, now);
            &&& b.classic.contains_key(id) <==> a.classic.contains_key(id)
            &&& a.classic.contains_key(id) ==> b.classic[id] == a.classic[id]
            &&& b.committed.contains_key(id) <==> a.committed.contains_key(id)
            &&& a.committed.contains_key(id) ==> b.committed[id] == a.committed[id]
            &&& b.seeds.contains_key(id) <==> a.seeds.contains_key(id)
            &&& a.seeds.contains_key(id) ==> b.seeds[id] == a.seeds[id]
            &&& b.share_seeds.contains_key(id) <==> a.share_seeds.contains_key(id)
            &&& a.share_seeds.contains_key(id) ==> b.share_seeds[id] == a.share_seeds[id]
            &&& b.streams_seeds.contains_key(id) <==> a.streams_seeds.contains_key(id)
            &&& a.streams_seeds.contains_key(id) ==> b.streams_seeds[id] == a.streams_seeds[id]
            &&& b.types.contains_key(id) <==> a.types.contains_key(id)
            &&& a.types.contains_key(id) ==> b.types[id] == a.types[id]
            &&& b.empty_since.contains_key(id) <==> a.empty_since.contains_key(id)
        }),
{
}

/// Whether a record is of the offset of `k` of the group `id`.
pub open spec fn names_offset(r: LoggedRecordView, id: Seq<char>, k: PartitionKeyView) -> bool {
    r is Group && r->Group_group_id == id && r->Group_record is OffsetCommit && r->Group_record->topic == k.0 && r->Group_record->partition == k.1
}

/// Of the records of an offset the last counts: its value is committed, but for the topic that it was committed
/// for; or nothing is, where it is a tombstone. Without such a record it is as it was before.
pub proof fn last_record_of_an_offset_counts(w: WalkView, records: Seq<LoggedRecordView>, now: u64, id: Seq<char>, k: PartitionKeyView)
    ensures
        ({
            let kept = offsets_in(w.with_records(records, now).replayed.committed, id);
            let before = offsets_in(w.replayed.committed, id);
            &&& forall|i: int|
                0 <= i < records.len() && names_offset(#[trigger] records[i], id, k) && (forall|j: int|
                    i < j < records.len() ==> !names_offset(#[trigger] records[j], id, k)) ==> {
                    let value = records[i]->Group_record->OffsetCommit_value;
                    &&& kept.contains_key(k) <==> value is Some
                    &&& value is Some ==> kept[k].offset == value->0.offset && kept[k].leader_epoch == value->0.leader_epoch && kept[k].metadata
                        == value->0.metadata && kept[k].commit_timestamp_ms == value->0.commit_timestamp_ms && kept[k].expire_timestamp_ms
                        == value->0.expire_timestamp_ms && kept[k].topic_id is None
                }
            &&& (forall|j: int| 0 <= j < records.len() ==> !names_offset(#[trigger] records[j], id, k)) ==> (kept.contains_key(k) <==> before.contains_key(
                k,
            )) && (before.contains_key(k) ==> kept[k] == before[k])
        }),
    decreases records.len(),
{
    if records.len() > 0 {
        let front = records.drop_last();
        let n = records.len() - 1;
        last_record_of_an_offset_counts(w, front, now, id, k);
        assert(records[n] == records.last());
        assert(k == (k.0, k.1));
        let mid = w.with_records(front, now);
        let kept = offsets_in(w.with_records(records, now).replayed.committed, id);
        if !names_offset(records.last(), id, k) {
            other_record_keeps_offset(mid.replayed, records.last(), now, id, k);
        }
        assert forall|i: int|
            0 <= i < records.len() && names_offset(#[trigger] records[i], id, k) && (forall|j: int|
                i < j < records.len() ==> !names_offset(#[trigger] records[j], id, k)) implies ({
            let value = records[i]->Group_record->OffsetCommit_value;
            &&& kept.contains_key(k) <==> value is Some
            &&& value is Some ==> kept[k].offset == value->0.offset && kept[k].leader_epoch == value->0.leader_epoch && kept[k].metadata
                == value->0.metadata && kept[k].commit_timestamp_ms == value->0.commit_timestamp_ms && kept[k].expire_timestamp_ms
                == value->0.expire_timestamp_ms && kept[k].topic_id is None
        }) by {
            if i < n {
                assert(!names_offset(records[n], id, k));
                assert(front[i] == records[i]);
                assert forall|j: int| i < j < front.len() implies !names_offset(#[trigger] front[j], id, k) by {
                    assert(front[j] == records[j]);
                }
            }
        }
        if forall|j: int| 0 <= j < records.len() ==> !names_offset(#[trigger] records[j], id, k) {
            assert(!names_offset(records[n], id, k));
            assert forall|j: int| 0 <= j < front.len() implies !names_offset(#[trigger] front[j], id, k) by {
                assert(front[j] == records[j]);
            }
        }
    }
}

proof fn other_record_keeps_offset(a: ReplayedView, r: LoggedRecordView, now: u64, id: Seq<char>, k: PartitionKeyView)
    requires
        !names_offset(r, id, k),
    ensures
        offsets_in(a.with(r, now).committed, id).contains_key(k) <==> offsets_in(a.committed, id).contains_key(k),
        offsets_in(a.committed, id).contains_key(k) ==> offsets_in(a.with(r, now).committed, id)[k] == offsets_in(a.committed, id)[k],
{
    match r {
        LoggedRecordView::Group { group_id, record } => match record {
            GroupRecordView::OffsetCommit { topic, partition, value } => {
                assert((topic, partition) != k || group_id != id);
                if group_id == id && value is None {
                    let left = offsets_in(a.committed, id).remove((topic, partition));
                    if left == Map::<PartitionKeyView, OffsetEntryView>::empty() {
                        assert(!left.contains_key(k));
                    }
                }
            },
            _ => {},
        },
        _ => {},
    }
}

/// Each record of a consumer group sets what its key stands for, and nothing else: the group's epoch, that of the
/// target, or what is told of one member; a tombstone of a member's key untells it. The tombstone of the group
/// makes it unknown, and no tombstone makes a group known.
pub proof fn record_sets_its_key(a: ReplayedView, id: Seq<char>, r: NextGenRecordView, now: u64, x: Seq<char>)
    ensures
        ({
            let b = a.with(LoggedRecordView::Group { group_id: id, record: GroupRecordView::NextGen(r) }, now);
            let s = b.seeds[id];
            let known = a.seeds.contains_key(id);
            &&& r is GroupMetadata && r->epoch is None ==> !b.seeds.contains_key(id)
            &&& r is GroupMetadata && r->epoch is Some ==> b.seeds.contains_key(id) && s.group_epoch == r->epoch->0 && (known ==> s.members
                == a.seeds[id].members && s.target_epoch == a.seeds[id].target_epoch)
            &&& r is TargetAssignmentMetadata && r->assignment_epoch is Some ==> b.seeds.contains_key(id) && s.target_epoch == r->assignment_epoch->0
            &&& r is MemberMetadata && r->MemberMetadata_value is Some ==> b.seeds.contains_key(id) && s.members.contains_key(r->MemberMetadata_member_id)
                && s.members[r->MemberMetadata_member_id] == r->MemberMetadata_value->0
            &&& r is MemberMetadata && r->MemberMetadata_value is None && known ==> b.seeds.contains_key(id) && !s.members.contains_key(
                r->MemberMetadata_member_id,
            )
            &&& r is TargetAssignmentMember && r->TargetAssignmentMember_value is Some ==> b.seeds.contains_key(id) && s.target_per_member.contains_key(
                r->TargetAssignmentMember_member_id,
            ) && s.target_per_member[r->TargetAssignmentMember_member_id] == r->TargetAssignmentMember_value->0
            &&& r is TargetAssignmentMember && r->TargetAssignmentMember_value is None && known ==> !s.target_per_member.contains_key(
                r->TargetAssignmentMember_member_id,
            )
            &&& r is CurrentMemberAssignment && r->CurrentMemberAssignment_value is Some ==> b.seeds.contains_key(id)
                && s.current_per_member.contains_key(r->CurrentMemberAssignment_member_id) && s.current_per_member[r->CurrentMemberAssignment_member_id]
                == r->CurrentMemberAssignment_value->0
            &&& r is CurrentMemberAssignment && r->CurrentMemberAssignment_value is None && known ==> !s.current_per_member.contains_key(
                r->CurrentMemberAssignment_member_id,
            )
            &&& known && b.seeds.contains_key(id) && (r is MemberMetadata ==> r->MemberMetadata_member_id != x) ==> (s.members.contains_key(x)
                <==> a.seeds[id].members.contains_key(x)) && (s.members.contains_key(x) ==> s.members[x] == a.seeds[id].members[x])
            &&& known && b.seeds.contains_key(id) && (r is TargetAssignmentMember ==> r->TargetAssignmentMember_member_id != x) ==> (
            s.target_per_member.contains_key(x) <==> a.seeds[id].target_per_member.contains_key(x)) && (s.target_per_member.contains_key(x)
                ==> s.target_per_member[x] == a.seeds[id].target_per_member[x])
            &&& known && b.seeds.contains_key(id) && (r is CurrentMemberAssignment ==> r->CurrentMemberAssignment_member_id != x) ==> (
            s.current_per_member.contains_key(x) <==> a.seeds[id].current_per_member.contains_key(x)) && (s.current_per_member.contains_key(x)
                ==> s.current_per_member[x] == a.seeds[id].current_per_member[x])
            &&& b.committed == a.committed && b.classic == a.classic
        }),
{
}

/// Each record of a share group sets what its key stands for, and binds the id to a share group; the tombstone of
/// the group unbinds it, and no tombstone makes a group known.
pub proof fn share_record_sets_its_key(a: ReplayedView, id: Seq<char>, r: ShareRecordView, now: u64, x: Seq<char>)
    ensures
        ({
            let b = a.with(LoggedRecordView::Share { group_id: id, record: r }, now);
            let s = b.share_seeds[id];
            let known = a.share_seeds.contains_key(id);
            &&& r is GroupMetadata && r->epoch is None ==> !b.share_seeds.contains_key(id) && !b.types.contains_key(id)
            &&& r is GroupMetadata && r->epoch is Some ==> b.share_seeds.contains_key(id) && s.group_epoch == r->epoch->0 && b.types.contains_key(id)
                && b.types[id] == GroupType::Share
            &&& r is MemberMetadata && r->MemberMetadata_value is Some ==> s.members.contains_key(r->MemberMetadata_member_id)
                && s.members[r->MemberMetadata_member_id] == r->MemberMetadata_value->0 && b.types.contains_key(id) && b.types[id] == GroupType::Share
            &&& r is MemberMetadata && r->MemberMetadata_value is None && known ==> !s.members.contains_key(r->MemberMetadata_member_id)
            &&& r is MemberMetadata && r->MemberMetadata_value is None && !known ==> !b.share_seeds.contains_key(id)
            &&& r is TargetAssignmentMetadata && r->assignment_epoch is Some ==> s.target_epoch == r->assignment_epoch->0
            &&& r is TargetAssignmentMember && r->TargetAssignmentMember_value is Some ==> s.target_per_member.contains_key(
                r->TargetAssignmentMember_member_id,
            ) && s.target_per_member[r->TargetAssignmentMember_member_id] == r->TargetAssignmentMember_value->0
            &&& r is CurrentMemberAssignment && r->CurrentMemberAssignment_value is Some ==> s.current_per_member.contains_key(
                r->CurrentMemberAssignment_member_id,
            ) && s.current_per_member[r->CurrentMemberAssignment_member_id] == r->CurrentMemberAssignment_value->0
            &&& r is StatePartitionMetadata && r->StatePartitionMetadata_value is Some ==> s.state_partitions == r->StatePartitionMetadata_value
            &&& known && b.share_seeds.contains_key(id) && (r is MemberMetadata ==> r->MemberMetadata_member_id != x) ==> (s.members.contains_key(x)
                <==> a.share_seeds[id].members.contains_key(x)) && (s.members.contains_key(x) ==> s.members[x] == a.share_seeds[id].members[x])
            &&& b.seeds == a.seeds && b.committed == a.committed && b.classic == a.classic && b.streams_seeds == a.streams_seeds
        }),
{
}

/// Each record of a streams group sets what its key stands for, and binds the id to a streams group; the tombstone
/// of the group unbinds it, and no tombstone makes a group known.
pub proof fn streams_record_sets_its_key(a: ReplayedView, id: Seq<char>, r: StreamsRecordView, now: u64, x: Seq<char>)
    ensures
        ({
            let b = a.with(LoggedRecordView::Streams { group_id: id, record: r }, now);
            let s = b.streams_seeds[id];
            let known = a.streams_seeds.contains_key(id);
            &&& r is GroupMetadata && r->epoch is None ==> !b.streams_seeds.contains_key(id) && !b.types.contains_key(id)
            &&& r is GroupMetadata && r->epoch is Some ==> b.streams_seeds.contains_key(id) && s.group_epoch == r->epoch->0 && b.types.contains_key(id)
                && b.types[id] == GroupType::Streams
            &&& r is MemberMetadata && r->MemberMetadata_value is Some ==> s.members.contains_key(r->MemberMetadata_member_id)
                && s.members[r->MemberMetadata_member_id] == r->MemberMetadata_value->0 && b.types.contains_key(id) && b.types[id] == GroupType::Streams
            &&& r is MemberMetadata && r->MemberMetadata_value is None && known ==> !s.members.contains_key(r->MemberMetadata_member_id)
            &&& r is MemberMetadata && r->MemberMetadata_value is None && !known ==> !b.streams_seeds.contains_key(id)
            &&& r is Topology && r->Topology_value is Some ==> s.topology == r->Topology_value
            &&& r is PartitionMetadata && r->PartitionMetadata_value is Some ==> s.partition_metadata == r->PartitionMetadata_value
            &&& r is TargetAssignmentMetadata && r->assignment_epoch is Some ==> s.target_epoch == r->assignment_epoch->0
            &&& r is TargetAssignmentMember && r->TargetAssignmentMember_value is Some ==> s.target_per_member.contains_key(
                r->TargetAssignmentMember_member_id,
            ) && s.target_per_member[r->TargetAssignmentMember_member_id] == r->TargetAssignmentMember_value->0
            &&& r is CurrentMemberAssignment && r->CurrentMemberAssignment_value is Some ==> s.current_per_member.contains_key(
                r->CurrentMemberAssignment_member_id,
            ) && s.current_per_member[r->CurrentMemberAssignment_member_id] == r->CurrentMemberAssignment_value->0
            &&& known && b.streams_seeds.contains_key(id) && (r is MemberMetadata ==> r->MemberMetadata_member_id != x) ==> (s.members.contains_key(x)
                <==> a.streams_seeds[id].members.contains_key(x)) && (s.members.contains_key(x) ==> s.members[x] == a.streams_seeds[id].members[x])
            &&& b.seeds == a.seeds && b.committed == a.committed && b.classic == a.classic && b.share_seeds == a.share_seeds
        }),
{
}

/// What is restored: a group for each id of which a record or a committed offset was read, a consumer group where
/// records of one were; with all offsets that were read, and nothing reserved.
pub proof fn groups_are_restored_with_their_offsets(r: ReplayedView, image: ReconcileInputView, now: u64, id: Seq<char>, k: PartitionKeyView)
    ensures
        ({
            let groups = restored(r, image, now);
            let g = groups[id];
            &&& groups.contains_key(id) <==> r.seeds.contains_key(id) || r.classic.contains_key(id) || r.committed.contains_key(id)
            &&& groups.contains_key(id) ==> {
                &&& g.group_id == id
                &&& g.kind is Consumer <==> r.seeds.contains_key(id)
                &&& r.seeds.contains_key(id) ==> g.kind->Consumer_0.group_epoch == r.seeds[id].group_epoch && g.kind->Consumer_0.target_epoch
                    == r.seeds[id].target_epoch && g.kind->Consumer_0.members.dom() == r.seeds[id].members.dom()
                &&& !r.seeds.contains_key(id) && r.classic.contains_key(id) ==> g.kind->Classic_0 == r.classic[id]
                &&& g.committed_offsets.contains_key(k) <==> r.committed.contains_key(id) && r.committed[id].contains_key(k)
                &&& g.committed_offsets.contains_key(k) ==> g.committed_offsets[k] == r.committed[id][k]
                &&& r.pending_txn.contains_key(id) ==> g.pending_txn == r.pending_txn[id]
                &&& !r.seeds.contains_key(id) && r.empty_since.contains_key(id) ==> g.empty_since_ms == Some(r.empty_since[id])
            }
        }),
{
    if r.seeds.contains_key(id) {
        assert(restored(r, image, now)[id].kind->Consumer_0.members.dom() =~= r.seeds[id].members.dom());
    }
}

/// What the partitions of the log give is put together id by id: what the later one tells of an id counts.
pub proof fn later_partition_counts(a: ReplayedView, b: ReplayedView, id: Seq<char>)
    ensures
        ({
            let m = a.merged(b);
            &&& m.committed.contains_key(id) <==> a.committed.contains_key(id) || b.committed.contains_key(id)
            &&& b.committed.contains_key(id) ==> m.committed[id] == b.committed[id]
            &&& !b.committed.contains_key(id) && a.committed.contains_key(id) ==> m.committed[id] == a.committed[id]
            &&& m.seeds.contains_key(id) <==> a.seeds.contains_key(id) || b.seeds.contains_key(id)
            &&& b.seeds.contains_key(id) ==> m.seeds[id] == b.seeds[id]
            &&& !b.seeds.contains_key(id) && a.seeds.contains_key(id) ==> m.seeds[id] == a.seeds[id]
            &&& m.classic.contains_key(id) <==> a.classic.contains_key(id) || b.classic.contains_key(id)
            &&& b.classic.contains_key(id) ==> m.classic[id] == b.classic[id]
            &&& !b.classic.contains_key(id) && a.classic.contains_key(id) ==> m.classic[id] == a.classic[id]
            &&& m.share_seeds.contains_key(id) <==> a.share_seeds.contains_key(id) || b.share_seeds.contains_key(id)
            &&& m.streams_seeds.contains_key(id) <==> a.streams_seeds.contains_key(id) || b.streams_seeds.contains_key(id)
            &&& m.types.contains_key(id) <==> a.types.contains_key(id) || b.types.contains_key(id)
            &&& m.pending_txn.contains_key(id) <==> a.pending_txn.contains_key(id) || b.pending_txn.contains_key(id)
            &&& m.empty_since.contains_key(id) <==> a.empty_since.contains_key(id) || b.empty_since.contains_key(id)
        }),
{
}

/// Whether a deferred record commits the offset of `k` of the group `id`.
pub open spec fn commits_offset(d: DeferredView, id: Seq<char>, k: PartitionKeyView) -> bool {
    match d.record {
        LoggedRecordView::Group { group_id, record } => match record {
            GroupRecordView::OffsetCommit { topic, partition, value } => group_id == id && topic == k.0 && partition == k.1 && value is Some,
            _ => false,
        },
        _ => false,
    }
}

spec fn marked_in(m: Map<Seq<char>, OpenOffsetsView>, id: Seq<char>, producer: i64, k: PartitionKeyView) -> bool {
    m.contains_key(id) && m[id].contains_key(producer) && m[id][producer].contains_key(k)
}

proof fn list_marks(m: Map<Seq<char>, OpenOffsetsView>, producer: i64, list: Seq<DeferredView>, id: Seq<char>, p: i64, k: PartitionKeyView)
    ensures
        marked_in(list_marked(m, producer, list), id, p, k) <==> marked_in(m, id, p, k) || (p == producer && exists|i: int|
            0 <= i < list.len() && commits_offset(#[trigger] list[i], id, k)),
    decreases list.len(),
{
    if list.len() > 0 {
        let front = list.drop_last();
        list_marks(m, producer, front, id, p, k);
        assert(list[list.len() - 1] == list.last());
        if exists|i: int| 0 <= i < front.len() && commits_offset(#[trigger] front[i], id, k) {
            let i = choose|i: int| 0 <= i < front.len() && commits_offset(#[trigger] front[i], id, k);
            assert(list[i] == front[i]);
        }
        if exists|i: int| 0 <= i < list.len() && commits_offset(#[trigger] list[i], id, k) {
            let i = choose|i: int| 0 <= i < list.len() && commits_offset(#[trigger] list[i], id, k);
            if i < front.len() {
                assert(front[i] == list[i]);
            }
        }
        assert(k == (k.0, k.1));
    }
}

proof fn all_marks(open: Map<i64, Seq<DeferredView>>, producers: Seq<i64>, id: Seq<char>, p: i64, k: PartitionKeyView)
    ensures
        marked_in(all_marked(open, producers), id, p, k) <==> producers.contains(p) && exists|i: int|
            0 <= i < open[p].len() && commits_offset(#[trigger] open[p][i], id, k),
    decreases producers.len(),
{
    if producers.len() > 0 {
        let front = producers.drop_last();
        let last = producers.last();
        all_marks(open, front, id, p, k);
        list_marks(all_marked(open, front), last, open[last], id, p, k);
        assert(producers[producers.len() - 1] == last);
        if producers.contains(p) && p != last {
            let i = choose|i: int| 0 <= i < producers.len() && producers[i] == p;
            assert(front[i] == p);
        }
        if front.contains(p) {
            let i = choose|i: int| 0 <= i < front.len() && front[i] == p;
            assert(producers[i] == p);
        }
    }
}

/// What is open when the log has been read is pending: an offset of a group, by a producer, exactly when the
/// producer's transaction has no marker yet and wrote it.
pub proof fn unended_transactions_are_pending(w: WalkView, id: Seq<char>, p: i64, k: PartitionKeyView)
    requires
        w.open.dom().finite(),
    ensures
        ({
            let pending = walk_ended(w).pending_txn;
            pending.contains_key(id) && pending[id].contains_key(p) && pending[id][p].contains_key(k)
        }) <==> w.open.contains_key(p) && exists|i: int| 0 <= i < w.open[p].len() && commits_offset(#[trigger] w.open[p][i], id, k),
        walk_ended(w).committed == w.replayed.committed,
        walk_ended(w).seeds == w.replayed.seeds,
        walk_ended(w).classic == w.replayed.classic,
{
    let producers = listing::<i64>(w.open.dom());
    finite_listed::<i64>(w.open.dom());
    all_marks(w.open, producers, id, p, k);
    if producers.contains(p) {
        let i = choose|i: int| 0 <= i < producers.len() && producers[i] == p;
        assert(w.open.dom().contains(producers[i]));
    }
    if w.open.contains_key(p) {
        assert(w.open.dom().contains(p));
        assert(producers.contains(p));
    }
}

/// A marker ends its own producer's transaction and no other; one that commits has a one as the second number of
/// its key. Records of a transaction count for nothing until then, and are kept in their order.
pub proof fn marker_ends_its_producers_transaction(w: WalkView, b: LogBatchView, now: u64, other: i64)
    requires
        other != b.producer_id,
    ensures
        ({
            let v = w.with(b, now);
            let commits = b.marker_key is Some && b.marker_key->0.len() >= 4 && b.marker_key->0[2] == 0 && b.marker_key->0[3] == 1;
            &&& b.control ==> !v.open.contains_key(b.producer_id)
            &&& b.control ==> (v.open.contains_key(other) <==> w.open.contains_key(other)) && (w.open.contains_key(other) ==> v.open[other] == w.open[other])
            &&& b.control && !commits ==> v.replayed == w.replayed
            &&& !b.control && b.transactional ==> v.replayed == w.replayed && v.open.contains_key(b.producer_id) && (v.open.contains_key(other)
                <==> w.open.contains_key(other)) && forall|i: int|
                0 <= i < b.records.len() ==> v.open[b.producer_id][v.open[b.producer_id].len() - b.records.len() + i].record == #[trigger] b.records[i]
        }),
{
}

} // verus!
