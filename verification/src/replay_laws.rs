//! What always holds of groups that are read back.

use crate::classic_laws::sound;
use crate::classic_state::{ClassicGroupView, GroupState as ClassicGroupState, MemberView};
use crate::consumer_laws::keyed;
use crate::consumer_state::{GroupStateView, MemberStateView, ReconcileInputView};
use crate::group::{CoordinatorGroupView, GroupKindTag, PartitionKey, PartitionKeyView};
use crate::heartbeat::name_set;
use crate::leave_turn::{all_offsets, deletion, streams_tombstones};
use crate::migration::{downgrade_records, downgraded, upgrade_records, upgraded};
use crate::ordmap::{Key, finite_listed, listing, lists};
use crate::pending_records::{
    GroupSeedView, PendingRecordsView, at_most_one, bound, current_records, folded, member_records, seed_of, seeds_after, target_records,
};
use crate::persistence::{
    FALLBACK_REBALANCE_TIMEOUT_MS, FALLBACK_SESSION_TIMEOUT_MS, classic_snapshot, current_entries, full_snapshot, kept_assignment, kept_classic, kept_classic_member, kept_member, member_entries, target_entries,
    targeted,
};
use crate::partitions::PartitionsView;
use crate::records::{ClassicMemberRecordView, CurrentAssignmentView, GroupRecordView, MemberMetadataView, NextGenRecordView, OffsetEntryView};
use crate::replay::{
    LoggedRecordView, OpenOffsetsView, ReplayedView, fresh_classic, offsets_in, restored_classic, restored_member, restored_members, restored_pins,
};
use crate::retention::{group_tombstones, offset_tombstones, tombstones};
use crate::seed::seeded;
use crate::share_streams::StreamsRecordView;
use crate::walk::{
    DeferredView, LogBatchView, WalkView, all_marked, all_read, fresh_consumer, list_marked, placed, read_back, restored_group, spared, walk_ended,
    writes_offset,
};
use vstd::prelude::*;

verus! {

/// Records of the group `id` as they are read back.
pub open spec fn logged(id: Seq<char>, records: Seq<GroupRecordView>) -> Seq<LoggedRecordView> {
    Seq::new(records.len(), |i: int| LoggedRecordView::Group { group_id: id, record: records[i] })
}

/// The walk once records of the group `id` are read.
pub open spec fn after(w: WalkView, id: Seq<char>, records: Seq<GroupRecordView>, now: u64) -> WalkView {
    w.with_records(logged(id, records), now)
}

proof fn after_push(w: WalkView, id: Seq<char>, records: Seq<GroupRecordView>, r: GroupRecordView, now: u64)
    ensures
        after(w, id, records.push(r), now) == after(w, id, records, now).with_record(LoggedRecordView::Group { group_id: id, record: r }, now),
{
    let all = logged(id, records.push(r));
    assert(all.drop_last() =~= logged(id, records));
    assert(all.last() == LoggedRecordView::Group { group_id: id, record: r });
}

proof fn after_concat(w: WalkView, id: Seq<char>, a: Seq<GroupRecordView>, b: Seq<GroupRecordView>, now: u64)
    ensures
        after(w, id, a + b, now) == after(after(w, id, a, now), id, b, now),
    decreases b.len(),
{
    if b.len() == 0 {
        assert(a + b =~= a);
        assert(logged(id, b) =~= seq![]);
    } else {
        let front = b.drop_last();
        assert(a + b =~= (a + front).push(b.last()));
        assert(b =~= front.push(b.last()));
        after_push(w, id, a + front, b.last(), now);
        after_push(after(w, id, a, now), id, front, b.last(), now);
        after_concat(w, id, a, front, now);
    }
}

proof fn after_one(w: WalkView, id: Seq<char>, there: bool, r: GroupRecordView, now: u64)
    ensures
        after(w, id, at_most_one(there, r), now) == if there {
            w.with_record(LoggedRecordView::Group { group_id: id, record: r }, now)
        } else {
            w
        },
{
    if there {
        assert(at_most_one(there, r) =~= Seq::<GroupRecordView>::empty().push(r));
        after_push(w, id, seq![], r, now);
        assert(logged(id, Seq::<GroupRecordView>::empty()) =~= seq![]);
    } else {
        assert(logged(id, at_most_one(there, r)) =~= seq![]);
    }
}

proof fn members_read(w: WalkView, id: Seq<char>, entries: Seq<(Seq<char>, Option<MemberMetadataView>)>, now: u64)
    requires
        w.replayed.seeds.contains_key(id),
    ensures
        after(w, id, member_records(entries), now).replayed.seeds == w.replayed.seeds.insert(
            id,
            (GroupSeedView { members: folded(w.replayed.seeds[id].members, entries), ..w.replayed.seeds[id] }),
        ),
    decreases entries.len(),
{
    if entries.len() == 0 {
        assert(logged(id, member_records(entries)) =~= seq![]);
        assert(w.replayed.seeds =~= w.replayed.seeds.insert(id, w.replayed.seeds[id]));
    } else {
        let front = entries.drop_last();
        let r = GroupRecordView::NextGen(NextGenRecordView::MemberMetadata { member_id: entries.last().0, value: entries.last().1 });
        members_read(w, id, front, now);
        assert(member_records(entries) =~= member_records(front).push(r));
        after_push(w, id, member_records(front), r, now);
        assert(after(w, id, member_records(entries), now).replayed.seeds =~= w.replayed.seeds.insert(
            id,
            GroupSeedView { members: folded(w.replayed.seeds[id].members, entries), ..w.replayed.seeds[id] },
        ));
    }
}

proof fn targets_read(w: WalkView, id: Seq<char>, entries: Seq<(Seq<char>, Option<PartitionsView>)>, now: u64)
    requires
        w.replayed.seeds.contains_key(id),
    ensures
        after(w, id, target_records(entries), now).replayed.seeds == w.replayed.seeds.insert(
            id,
            (GroupSeedView { target_per_member: folded(w.replayed.seeds[id].target_per_member, entries), ..w.replayed.seeds[id] }),
        ),
    decreases entries.len(),
{
    if entries.len() == 0 {
        assert(logged(id, target_records(entries)) =~= seq![]);
        assert(w.replayed.seeds =~= w.replayed.seeds.insert(id, w.replayed.seeds[id]));
    } else {
        let front = entries.drop_last();
        let r = GroupRecordView::NextGen(NextGenRecordView::TargetAssignmentMember { member_id: entries.last().0, value: entries.last().1 });
        targets_read(w, id, front, now);
        assert(target_records(entries) =~= target_records(front).push(r));
        after_push(w, id, target_records(front), r, now);
        assert(after(w, id, target_records(entries), now).replayed.seeds =~= w.replayed.seeds.insert(
            id,
            GroupSeedView { target_per_member: folded(w.replayed.seeds[id].target_per_member, entries), ..w.replayed.seeds[id] },
        ));
    }
}

proof fn currents_read(w: WalkView, id: Seq<char>, entries: Seq<(Seq<char>, Option<CurrentAssignmentView>)>, now: u64)
    requires
        w.replayed.seeds.contains_key(id),
    ensures
        after(w, id, current_records(entries), now).replayed.seeds == w.replayed.seeds.insert(
            id,
            (GroupSeedView { current_per_member: folded(w.replayed.seeds[id].current_per_member, entries), ..w.replayed.seeds[id] }),
        ),
    decreases entries.len(),
{
    if entries.len() == 0 {
        assert(logged(id, current_records(entries)) =~= seq![]);
        assert(w.replayed.seeds =~= w.replayed.seeds.insert(id, w.replayed.seeds[id]));
    } else {
        let front = entries.drop_last();
        let r = GroupRecordView::NextGen(NextGenRecordView::CurrentMemberAssignment { member_id: entries.last().0, value: entries.last().1 });
        currents_read(w, id, front, now);
        assert(current_records(entries) =~= current_records(front).push(r));
        after_push(w, id, current_records(front), r, now);
        assert(after(w, id, current_records(entries), now).replayed.seeds =~= w.replayed.seeds.insert(
            id,
            GroupSeedView { current_per_member: folded(w.replayed.seeds[id].current_per_member, entries), ..w.replayed.seeds[id] },
        ));
    }
}

/// The records that a delta is written as, kind by kind, in the order in which they are written.
spec fn part(delta: PendingRecordsView, k: int) -> Seq<GroupRecordView> {
    if k == 0 {
        at_most_one(delta.group_metadata is Some, GroupRecordView::NextGen(NextGenRecordView::GroupMetadata { epoch: delta.group_metadata }))
    } else if k == 1 {
        member_records(delta.member_metadata)
    } else if k == 2 {
        at_most_one(
            delta.target_metadata is Some,
            GroupRecordView::NextGen(NextGenRecordView::TargetAssignmentMetadata { assignment_epoch: delta.target_metadata }),
        )
    } else if k == 3 {
        target_records(delta.target_per_member)
    } else if k == 4 {
        current_records(delta.current_per_member)
    } else if k == 5 {
        at_most_one(delta.classic_group_metadata_tombstone, GroupRecordView::ClassicMetadata { value: None })
    } else if k == 6 {
        at_most_one(delta.next_gen_group_metadata_tombstone, GroupRecordView::NextGen(NextGenRecordView::GroupMetadata { epoch: None }))
    } else if k == 7 {
        at_most_one(
            delta.next_gen_target_metadata_tombstone,
            GroupRecordView::NextGen(NextGenRecordView::TargetAssignmentMetadata { assignment_epoch: None }),
        )
    } else {
        at_most_one(delta.classic_group_metadata is Some, GroupRecordView::ClassicMetadata { value: delta.classic_group_metadata })
    }
}

/// Reading what a delta is written as is reading it kind by kind.
proof fn read_in_parts(w: WalkView, id: Seq<char>, delta: PendingRecordsView, now: u64) -> (s: Seq<WalkView>)
    ensures
        s.len() == 10,
        s[0] == w,
        s[1] == after(s[0], id, part(delta, 0), now),
        s[2] == after(s[1], id, part(delta, 1), now),
        s[3] == after(s[2], id, part(delta, 2), now),
        s[4] == after(s[3], id, part(delta, 3), now),
        s[5] == after(s[4], id, part(delta, 4), now),
        s[6] == after(s[5], id, part(delta, 5), now),
        s[7] == after(s[6], id, part(delta, 6), now),
        s[8] == after(s[7], id, part(delta, 7), now),
        s[9] == after(s[8], id, part(delta, 8), now),
        s[9] == after(w, id, delta.written(), now),
{
    let p1 = part(delta, 0);
    let p2 = p1 + part(delta, 1);
    let p3 = p2 + part(delta, 2);
    let p4 = p3 + part(delta, 3);
    let p5 = p4 + part(delta, 4);
    let p6 = p5 + part(delta, 5);
    let p7 = p6 + part(delta, 6);
    let p8 = p7 + part(delta, 7);
    let p9 = p8 + part(delta, 8);
    after_concat(w, id, p1, part(delta, 1), now);
    after_concat(w, id, p2, part(delta, 2), now);
    after_concat(w, id, p3, part(delta, 3), now);
    after_concat(w, id, p4, part(delta, 4), now);
    after_concat(w, id, p5, part(delta, 5), now);
    after_concat(w, id, p6, part(delta, 6), now);
    after_concat(w, id, p7, part(delta, 7), now);
    after_concat(w, id, p8, part(delta, 8), now);
    assert(p9 == delta.written());
    seq![
        w,
        after(w, id, p1, now),
        after(w, id, p2, now),
        after(w, id, p3, now),
        after(w, id, p4, now),
        after(w, id, p5, now),
        after(w, id, p6, now),
        after(w, id, p7, now),
        after(w, id, p8, now),
        after(w, id, p9, now),
    ]
}

/// The seeds that are kept while a group is served are those that its records give when they are
/// read back. (Tombstones alone make no seed, so the group is known, or the delta tells its epoch.)
pub proof fn records_give_the_seeds(w: WalkView, id: Seq<char>, delta: PendingRecordsView, now: u64)
    requires
        w.replayed.seeds.contains_key(id) || delta.group_metadata is Some,
    ensures
        after(w, id, delta.written(), now).replayed.seeds == seeds_after(w.replayed.seeds, id, delta),
{
    let s = read_in_parts(w, id, delta, now);
    let (w1, w2, w3, w4, w5, w6, w7, w8, w9) = (s[1], s[2], s[3], s[4], s[5], s[6], s[7], s[8], s[9]);
    let seed = seed_of(w.replayed.seeds, id);
    after_one(w, id, delta.group_metadata is Some, GroupRecordView::NextGen(NextGenRecordView::GroupMetadata { epoch: delta.group_metadata }), now);
    assert(w1.replayed.seeds.contains_key(id));
    members_read(w1, id, delta.member_metadata, now);
    after_one(
        w2,
        id,
        delta.target_metadata is Some,
        GroupRecordView::NextGen(NextGenRecordView::TargetAssignmentMetadata { assignment_epoch: delta.target_metadata }),
        now,
    );
    targets_read(w3, id, delta.target_per_member, now);
    currents_read(w4, id, delta.current_per_member, now);
    after_one(w5, id, delta.classic_group_metadata_tombstone, GroupRecordView::ClassicMetadata { value: None }, now);
    assert(w6.replayed.seeds == w5.replayed.seeds);
    after_one(w6, id, delta.next_gen_group_metadata_tombstone, GroupRecordView::NextGen(NextGenRecordView::GroupMetadata { epoch: None }), now);
    after_one(
        w7,
        id,
        delta.next_gen_target_metadata_tombstone,
        GroupRecordView::NextGen(NextGenRecordView::TargetAssignmentMetadata { assignment_epoch: None }),
        now,
    );
    after_one(w8, id, delta.classic_group_metadata is Some, GroupRecordView::ClassicMetadata { value: delta.classic_group_metadata }, now);
    assert(w9.replayed.seeds == w8.replayed.seeds);
    let kept = delta.applied(seed);
    let seed5 = w5.replayed.seeds[id];
    assert(seed5.members == kept.members);
    assert(seed5.target_per_member == kept.target_per_member);
    assert(seed5.current_per_member == kept.current_per_member);
    assert(seed5.group_epoch == kept.group_epoch);
    assert(w5.replayed.seeds =~= w.replayed.seeds.insert(id, seed5));
    assert(w9.replayed.seeds =~= seeds_after(w.replayed.seeds, id, delta));
}

/// No group is among those with offsets that has none.
pub open spec fn no_blanks(r: ReplayedView) -> bool {
    forall|id: Seq<char>| #[trigger] r.committed.contains_key(id) ==> r.committed[id] != Map::<PartitionKeyView, OffsetEntryView>::empty()
}

/// A record that is read leaves no group among those with offsets that has none.
pub proof fn reading_keeps_no_blanks(r: ReplayedView, record: LoggedRecordView, now: u64)
    requires
        no_blanks(r),
    ensures
        no_blanks(r.with(record, now)),
{
    let after = r.with(record, now);
    assert forall|id: Seq<char>| #[trigger] after.committed.contains_key(id) implies after.committed[id] != Map::<
        PartitionKeyView,
        OffsetEntryView,
    >::empty() by {
        if let LoggedRecordView::Group { group_id, record: inner } = record {
            if let GroupRecordView::OffsetCommit { topic, partition, value } = inner {
                if let Some(e) = value {
                    if id == group_id {
                        assert(after.committed[id].contains_key((topic, partition)));
                    } else {
                        assert(r.committed.contains_key(id));
                    }
                } else if id != group_id {
                    assert(r.committed.contains_key(id));
                }
            } else {
                assert(r.committed.contains_key(id));
            }
        } else {
            assert(r.committed.contains_key(id));
        }
    }
}

proof fn spared_facts(list: Seq<DeferredView>, id: Seq<char>, key: PartitionKeyView)
    ensures
        forall|j: int| 0 <= j < spared(list, id, key).len() ==> !writes_offset((#[trigger] spared(list, id, key)[j]).record, id, key) && list.contains(
            spared(list, id, key)[j],
        ),
    decreases list.len(),
{
    if list.len() > 0 {
        let front = list.drop_last();
        let before = spared(front, id, key);
        spared_facts(front, id, key);
        let all = spared(list, id, key);
        assert forall|j: int| 0 <= j < all.len() implies !writes_offset((#[trigger] all[j]).record, id, key) && list.contains(all[j]) by {
            if j < before.len() {
                assert(all[j] == before[j]);
                let i = choose|i: int| 0 <= i < front.len() && front[i] == before[j];
                assert(list[i] == all[j]);
            } else {
                assert(all[j] == list.last());
                assert(list[list.len() - 1] == all[j]);
            }
        }
    }
}

/// Whether no open transaction wrote an offset of `id` under one of `keys`.
pub open spec fn none_open_under(w: WalkView, id: Seq<char>, keys: Seq<PartitionKeyView>) -> bool {
    forall|p: i64, j: int, k: PartitionKeyView|
        #![trigger w.open[p][j], keys.contains(k)]
        w.open.contains_key(p) && 0 <= j < w.open[p].len() && keys.contains(k) ==> !writes_offset(w.open[p][j].record, id, k)
}

/// Whether what is open in `b` was open in `a`.
pub open spec fn opened_before(a: WalkView, b: WalkView) -> bool {
    &&& forall|p: i64| #[trigger] b.open.contains_key(p) ==> a.open.contains_key(p)
    &&& forall|p: i64, j: int| b.open.contains_key(p) && 0 <= j < b.open[p].len() ==> a.open[p].contains(#[trigger] b.open[p][j])
}

/// Offsets whose tombstones are read are gone, and no open transaction can bring them back; nothing
/// else changes.
pub proof fn tombstones_drop_offsets(w: WalkView, id: Seq<char>, keys: Seq<PartitionKeyView>, now: u64)
    requires
        no_blanks(w.replayed),
    ensures
        ({
            let v = after(w, id, offset_tombstones(keys), now);
            &&& forall|k: PartitionKeyView|
                #[trigger] offsets_in(v.replayed.committed, id).contains_key(k) <==> offsets_in(w.replayed.committed, id).contains_key(k) && !keys.contains(k)
            &&& no_blanks(v.replayed)
            &&& none_open_under(v, id, keys)
            &&& opened_before(w, v)
            &&& (ReplayedView { committed: w.replayed.committed, ..v.replayed }) == w.replayed
        }),
    decreases keys.len(),
{
    if keys.len() == 0 {
        assert(logged(id, offset_tombstones(keys)) =~= seq![]);
    } else {
        let front = keys.drop_last();
        let key = keys.last();
        let r = GroupRecordView::OffsetCommit { topic: key.0, partition: key.1, value: None };
        let record = LoggedRecordView::Group { group_id: id, record: r };
        tombstones_drop_offsets(w, id, front, now);
        let u = after(w, id, offset_tombstones(front), now);
        assert(offset_tombstones(keys) =~= offset_tombstones(front).push(r));
        after_push(w, id, offset_tombstones(front), r, now);
        let v = after(w, id, offset_tombstones(keys), now);
        assert(v == u.with_record(record, now));
        reading_keeps_no_blanks(u.replayed, record, now);
        assert forall|k: PartitionKeyView| keys.contains(k) <==> front.contains(k) || k == key by {
            if keys.contains(k) && k != key {
                let i = choose|i: int| 0 <= i < keys.len() && keys[i] == k;
                assert(front[i] == k);
            }
            if front.contains(k) {
                let i = choose|i: int| 0 <= i < front.len() && front[i] == k;
                assert(keys[i] == k);
            }
            assert(keys[keys.len() - 1] == key);
        }
        assert(offsets_in(v.replayed.committed, id) =~= offsets_in(u.replayed.committed, id).remove((key.0, key.1)));
        assert forall|p: i64, j: int, k: PartitionKeyView|
            #![trigger v.open[p][j], keys.contains(k)]
            v.open.contains_key(p) && 0 <= j < v.open[p].len() && keys.contains(k) implies !writes_offset(v.open[p][j].record, id, k) by {
            spared_facts(u.open[p], id, (key.0, key.1));
            if k != key {
                assert(front.contains(k));
                let i = choose|i: int| 0 <= i < u.open[p].len() && u.open[p][i] == v.open[p][j];
                assert(!writes_offset(u.open[p][i].record, id, k));
            }
        }
        assert forall|p: i64, j: int| v.open.contains_key(p) && 0 <= j < v.open[p].len() implies w.open[p].contains(#[trigger] v.open[p][j]) by {
            spared_facts(u.open[p], id, (key.0, key.1));
            let i = choose|i: int| 0 <= i < u.open[p].len() && u.open[p][i] == v.open[p][j];
            assert(w.open[p].contains(u.open[p][i]));
        }
    }
}

/// Whether a record that waits is of the group `id`.
pub open spec fn is_of(d: DeferredView, id: Seq<char>) -> bool {
    match d.record {
        LoggedRecordView::Group { group_id, .. } => group_id == id,
        _ => false,
    }
}

/// Whether no record that waits is of the group `id`.
pub open spec fn none_waits(w: WalkView, id: Seq<char>) -> bool {
    forall|p: i64, j: int| w.open.contains_key(p) && 0 <= j < w.open[p].len() ==> !is_of(#[trigger] w.open[p][j], id)
}

proof fn none_marked_list(m: Map<Seq<char>, OpenOffsetsView>, producer: i64, list: Seq<DeferredView>, id: Seq<char>)
    requires
        !m.contains_key(id),
        forall|j: int| 0 <= j < list.len() ==> !is_of(#[trigger] list[j], id),
    ensures
        !list_marked(m, producer, list).contains_key(id),
    decreases list.len(),
{
    if list.len() > 0 {
        let front = list.drop_last();
        assert forall|j: int| 0 <= j < front.len() implies !is_of(#[trigger] front[j], id) by {
            assert(front[j] == list[j]);
        }
        none_marked_list(m, producer, front, id);
        assert(!is_of(list[list.len() - 1], id));
    }
}

proof fn none_marked(w: WalkView, producers: Seq<i64>, id: Seq<char>)
    requires
        none_waits(w, id),
        forall|i: int| 0 <= i < producers.len() ==> w.open.contains_key(#[trigger] producers[i]),
    ensures
        !all_marked(w.open, producers).contains_key(id),
    decreases producers.len(),
{
    if producers.len() > 0 {
        let front = producers.drop_last();
        assert forall|i: int| 0 <= i < front.len() implies w.open.contains_key(#[trigger] front[i]) by {
            assert(front[i] == producers[i]);
        }
        none_marked(w, front, id);
        assert(w.open.contains_key(producers[producers.len() - 1]));
        none_marked_list(all_marked(w.open, front), producers.last(), w.open[producers.last()], id);
    }
}

/// Whether what is read back so far of the group `g` is no more than what it has: its kind, its
/// offsets, and what open transactions wrote of them.
pub open spec fn covers(g: CoordinatorGroupView, w: WalkView) -> bool {
    let id = g.group_id;
    &&& no_blanks(w.replayed)
    &&& forall|k: PartitionKeyView| #[trigger] offsets_in(w.replayed.committed, id).contains_key(k) ==> all_offsets(g).contains(k)
    &&& forall|p: i64, j: int|
        w.open.contains_key(p) && 0 <= j < w.open[p].len() && is_of(#[trigger] w.open[p][j], id) ==> exists|k: PartitionKeyView|
            all_offsets(g).contains(k) && writes_offset(w.open[p][j].record, id, k)
    &&& g.kind is Classic ==> !w.replayed.seeds.contains_key(id)
    &&& g.kind is Consumer ==> !w.replayed.classic.contains_key(id)
    &&& w.open.dom().finite()
}

/// A group that was deleted is not read back: neither it nor its offsets, nor anything that a
/// transaction wrote of them, even one that commits later.
pub proof fn deleted_group_stays_deleted(g: CoordinatorGroupView, w: WalkView, now: u64, now_ms: i64)
    requires
        !g.has_members(),
        all_offsets(g).finite(),
        covers(g, w),
    ensures
        ({
            let v = after(w, g.group_id, deletion(g, now_ms)->Ok_0.records, now);
            &&& deletion(g, now_ms) is Ok
            &&& !read_back(walk_ended(v), g.group_id)
            &&& !walk_ended(v).pending_txn.contains_key(g.group_id)
            &&& none_waits(v, g.group_id)
        }),
{
    let id = g.group_id;
    let keys = listing::<PartitionKey>(all_offsets(g));
    finite_listed::<PartitionKey>(all_offsets(g));
    let kind = if g.kind is Classic {
        GroupKindTag::Classic
    } else {
        GroupKindTag::Consumer
    };
    let u = after(w, id, offset_tombstones(keys), now);
    tombstones_drop_offsets(w, id, keys, now);
    assert(!u.replayed.committed.contains_key(id)) by {
        if u.replayed.committed.contains_key(id) {
            assert forall|k: PartitionKeyView| !u.replayed.committed[id].contains_key(k) by {
                if offsets_in(u.replayed.committed, id).contains_key(k) {
                    assert(offsets_in(w.replayed.committed, id).contains_key(k));
                    assert(all_offsets(g).contains(k));
                    assert(keys.contains(k));
                }
            }
            assert(u.replayed.committed[id] =~= Map::empty());
        }
    }
    assert(none_waits(u, id)) by {
        assert forall|p: i64, j: int| u.open.contains_key(p) && 0 <= j < u.open[p].len() implies !is_of(#[trigger] u.open[p][j], id) by {
            if is_of(u.open[p][j], id) {
                let i = choose|i: int| 0 <= i < w.open[p].len() && w.open[p][i] == u.open[p][j];
                assert(is_of(w.open[p][i], id));
                let k = choose|k: PartitionKeyView| all_offsets(g).contains(k) && writes_offset(w.open[p][i].record, id, k);
                assert(keys.contains(k));
                assert(!writes_offset(u.open[p][j].record, id, k));
            }
        }
    }
    let v = after(w, id, tombstones(keys, Some(kind)), now);
    after_concat(w, id, offset_tombstones(keys), group_tombstones(kind), now);
    assert(v == after(u, id, group_tombstones(kind), now));
    if g.kind is Classic {
        let r = GroupRecordView::ClassicMetadata { value: None };
        assert(group_tombstones(kind) =~= Seq::<GroupRecordView>::empty().push(r));
        after_push(u, id, seq![], r, now);
        assert(logged(id, Seq::<GroupRecordView>::empty()) =~= seq![]);
        assert(v == u.with_record(LoggedRecordView::Group { group_id: id, record: r }, now));
        assert(v.open == u.open);
    } else {
        let a = GroupRecordView::NextGen(NextGenRecordView::GroupMetadata { epoch: None });
        let b = GroupRecordView::NextGen(NextGenRecordView::TargetAssignmentMetadata { assignment_epoch: None });
        assert(group_tombstones(kind) =~= Seq::<GroupRecordView>::empty().push(a).push(b));
        after_push(u, id, Seq::<GroupRecordView>::empty().push(a), b, now);
        after_push(u, id, seq![], a, now);
        assert(logged(id, Seq::<GroupRecordView>::empty()) =~= seq![]);
        let t = u.with_record(LoggedRecordView::Group { group_id: id, record: a }, now);
        assert(!t.replayed.seeds.contains_key(id));
        assert(v == t.with_record(LoggedRecordView::Group { group_id: id, record: b }, now));
        assert(v.open == u.open);
    }
    assert(v.open.dom().finite()) by {
        assert(v.open.dom().subset_of(w.open.dom()));
        vstd::set_lib::lemma_set_subset_finite(w.open.dom(), v.open.dom());
    }
    finite_listed::<i64>(v.open.dom());
    none_marked(v, listing::<i64>(v.open.dom()), id);
}

proof fn others_read(acc: ReplayedView, list: Seq<DeferredView>, id: Seq<char>, now: u64)
    requires
        forall|j: int| 0 <= j < list.len() ==> !is_of(#[trigger] list[j], id),
    ensures
        all_read(acc, list, now).classic.contains_key(id) <==> acc.classic.contains_key(id),
        all_read(acc, list, now).committed.contains_key(id) <==> acc.committed.contains_key(id),
        all_read(acc, list, now).seeds.contains_key(id) <==> acc.seeds.contains_key(id),
    decreases list.len(),
{
    if list.len() > 0 {
        let front = list.drop_last();
        assert forall|j: int| 0 <= j < front.len() implies !is_of(#[trigger] front[j], id) by {
            assert(front[j] == list[j]);
        }
        others_read(acc, front, id, now);
        assert(!is_of(list[list.len() - 1], id));
    }
}

/// Records of the streams group `id` as they are read back.
pub open spec fn logged_streams(id: Seq<char>, records: Seq<StreamsRecordView>) -> Seq<LoggedRecordView> {
    Seq::new(records.len(), |i: int| LoggedRecordView::Streams { group_id: id, record: records[i] })
}

/// A streams group that was deleted is not read back, and its id is bound to nothing.
pub proof fn deleted_streams_group_stays_deleted(w: WalkView, id: Seq<char>, now: u64)
    ensures
        ({
            let v = w.with_records(logged_streams(id, streams_tombstones()), now);
            &&& !v.replayed.streams_seeds.contains_key(id)
            &&& !v.replayed.types.contains_key(id)
        }),
{
    let all = logged_streams(id, streams_tombstones());
    let third = all.drop_last();
    let second = third.drop_last();
    let first = second.drop_last();
    assert(w.with_records(first.drop_last(), now) == w);
    assert(first.last() == LoggedRecordView::Streams { group_id: id, record: StreamsRecordView::GroupMetadata { epoch: None } });
    let w1 = w.with_records(first, now);
    assert(w1.replayed.streams_seeds == w.replayed.streams_seeds.remove(id));
    assert(w1.replayed.types == w.replayed.types.remove(id));
    assert(second.last() == LoggedRecordView::Streams { group_id: id, record: StreamsRecordView::Topology { value: None } });
    assert(w.with_records(second, now).replayed.streams_seeds == w1.replayed.streams_seeds);
    assert(third.last() == LoggedRecordView::Streams { group_id: id, record: StreamsRecordView::PartitionMetadata { value: None } });
    assert(w.with_records(third, now).replayed.streams_seeds == w1.replayed.streams_seeds);
    assert(all.last() == LoggedRecordView::Streams { group_id: id, record: StreamsRecordView::TargetAssignmentMetadata { assignment_epoch: None } });
}

/// A marker brings nothing back of a group of which nothing waits.
pub proof fn marker_brings_back_nothing(w: WalkView, id: Seq<char>, b: LogBatchView, now: u64)
    requires
        none_waits(w, id),
        b.control,
        !w.replayed.classic.contains_key(id),
        !w.replayed.committed.contains_key(id),
        !w.replayed.seeds.contains_key(id),
    ensures
        !w.with(b, now).replayed.classic.contains_key(id),
        !w.with(b, now).replayed.committed.contains_key(id),
        !w.with(b, now).replayed.seeds.contains_key(id),
        none_waits(w.with(b, now), id),
{
    let list = w.open_of(b.producer_id);
    assert forall|j: int| 0 <= j < list.len() implies !is_of(#[trigger] list[j], id) by {
        assert(!is_of(w.open[b.producer_id][j], id));
    }
    others_read(w.replayed, list, id, now);
    let v = w.with(b, now);
    assert forall|p: i64, j: int| v.open.contains_key(p) && 0 <= j < v.open[p].len() implies !is_of(#[trigger] v.open[p][j], id) by {
        assert(!is_of(w.open[p][j], id));
    }
}

/// A transaction that aborts leaves no trace.
pub proof fn aborted_transaction_leaves_nothing(w: WalkView, written: LogBatchView, marker: LogBatchView, now: u64)
    requires
        written.transactional,
        !written.control,
        marker.control,
        !marker.commits(),
        marker.producer_id == written.producer_id,
        !w.open.contains_key(written.producer_id),
    ensures
        w.with(written, now).with(marker, now) == w,
{
    assert(w.with(written, now).with(marker, now).open =~= w.open);
}

proof fn placed_read(w: WalkView, records: Seq<LoggedRecordView>, at: i64, now: u64)
    ensures
        all_read(w.replayed, placed(records, at), now) == w.with_records(records, now).replayed,
    decreases records.len(),
{
    if records.len() > 0 {
        let front = records.drop_last();
        placed_read(w, front, at, now);
        assert(placed(records, at).drop_last() =~= placed(front, at));
        assert(placed(records, at).last().record == records.last());
    }
}

/// A transaction that commits counts as if its records had been written at its marker.
pub proof fn committed_transaction_counts(w: WalkView, written: LogBatchView, marker: LogBatchView, now: u64)
    requires
        written.transactional,
        !written.control,
        marker.control,
        marker.commits(),
        marker.producer_id == written.producer_id,
        !w.open.contains_key(written.producer_id),
    ensures
        w.with(written, now).with(marker, now).replayed == w.with_records(written.records, now).replayed,
{
    let list = placed(written.records, written.base_offset);
    assert(w.open_of(written.producer_id) + list =~= list);
    placed_read(w, written.records, written.base_offset, now);
}

/// The last entry of a key counts.
pub(crate) proof fn folded_last<V>(m: Map<Seq<char>, V>, entries: Seq<(Seq<char>, Option<V>)>, i: int)
    requires
        0 <= i < entries.len(),
        forall|j: int| i < j < entries.len() ==> (#[trigger] entries[j]).0 != entries[i].0,
    ensures
        folded(m, entries).contains_key(entries[i].0) <==> entries[i].1 is Some,
        entries[i].1 is Some ==> folded(m, entries)[entries[i].0] == entries[i].1->0,
    decreases entries.len(),
{
    if i < entries.len() - 1 {
        let front = entries.drop_last();
        assert forall|j: int| i < j < front.len() implies (#[trigger] front[j]).0 != front[i].0 by {
            assert(front[j] == entries[j]);
        }
        folded_last(m, front, i);
        assert(entries[entries.len() - 1].0 != entries[i].0);
    }
}

/// A key without an entry stays bound as it was.
pub(crate) proof fn folded_elsewhere<V>(m: Map<Seq<char>, V>, entries: Seq<(Seq<char>, Option<V>)>, x: Seq<char>)
    requires
        forall|j: int| 0 <= j < entries.len() ==> (#[trigger] entries[j]).0 != x,
    ensures
        folded(m, entries).contains_key(x) <==> m.contains_key(x),
        m.contains_key(x) ==> folded(m, entries)[x] == m[x],
    decreases entries.len(),
{
    if entries.len() > 0 {
        let front = entries.drop_last();
        assert forall|j: int| 0 <= j < front.len() implies (#[trigger] front[j]).0 != x by {
            assert(front[j] == entries[j]);
        }
        folded_elsewhere(m, front, x);
        assert(entries[entries.len() - 1].0 != x);
    }
}

proof fn targets_folded(g: GroupStateView, ids: Seq<Seq<char>>, id: Seq<char>)
    ensures
        ({
            let m = folded(Map::empty(), target_entries(g, targeted(g, ids)));
            &&& m.contains_key(id) <==> ids.contains(id) && g.target.contains_key(id)
            &&& m.contains_key(id) ==> m[id] == g.target[id]
        }),
    decreases ids.len(),
{
    if ids.len() > 0 {
        let front = ids.drop_last();
        let last = ids.last();
        targets_folded(g, front, id);
        assert(ids[ids.len() - 1] == last);
        assert(ids.contains(id) <==> front.contains(id) || id == last) by {
            if front.contains(id) {
                let i = choose|i: int| 0 <= i < front.len() && front[i] == id;
                assert(ids[i] == id);
            }
            if ids.contains(id) && id != last {
                let i = choose|i: int| 0 <= i < ids.len() && ids[i] == id;
                assert(front[i] == id);
            }
        }
        if g.target.contains_key(last) {
            let entries = target_entries(g, targeted(g, ids));
            assert(entries.drop_last() =~= target_entries(g, targeted(g, front)));
            assert(entries.last() == (last, Some(g.target[last])));
        }
    }
}

/// The seed that a whole group's records give.
pub open spec fn whole_seed(g: GroupStateView) -> GroupSeedView {
    full_snapshot(g).applied(GroupSeedView::blank())
}

/// The seed of a whole group tells of each member who it is, what it is to hold and what it holds.
pub proof fn whole_seed_tells_all(g: GroupStateView, id: Seq<char>)
    requires
        g.members.dom().finite(),
    ensures
        ({
            let s = whole_seed(g);
            &&& s.group_epoch == g.group_epoch
            &&& s.target_epoch == g.target_epoch
            &&& s.members.contains_key(id) <==> g.members.contains_key(id)
            &&& s.current_per_member.contains_key(id) <==> g.members.contains_key(id)
            &&& s.target_per_member.contains_key(id) <==> g.members.contains_key(id) && g.target.contains_key(id)
            &&& g.members.contains_key(id) ==> s.members[id] == kept_member(g.members[id]) && s.current_per_member[id] == kept_assignment(g.members[id])
            &&& g.members.contains_key(id) && g.target.contains_key(id) ==> s.target_per_member[id] == g.target[id]
        }),
{
    let ids = listing::<String>(g.members.dom());
    finite_listed::<String>(g.members.dom());
    let members = member_entries(g, ids);
    let currents = current_entries(g, ids);
    targets_folded(g, ids, id);
    if g.members.contains_key(id) {
        assert(ids.contains(id));
        let i = choose|i: int| 0 <= i < ids.len() && ids[i] == id;
        assert forall|j: int| i < j < ids.len() implies ids[j] != id by {
            <String as Key>::lt_irreflexive(id);
            assert(<String as Key>::lt(ids[i], ids[j]));
        }
        folded_last(Map::empty(), members, i);
        folded_last(Map::empty(), currents, i);
    } else {
        assert forall|j: int| 0 <= j < ids.len() implies ids[j] != id by {
            assert(g.members.dom().contains(ids[j]));
        }
        folded_elsewhere(Map::empty(), members, id);
        folded_elsewhere(Map::empty(), currents, id);
    }
}

proof fn names_read_back(names: Seq<Seq<char>>, s: Set<Seq<char>>)
    requires
        lists::<String>(names, s),
    ensures
        name_set(names) == s,
{
    names_in_set(names);
    assert(name_set(names) =~= s) by {
        assert forall|x: Seq<char>| name_set(names).contains(x) implies s.contains(x) by {
            let i = choose|i: int| 0 <= i < names.len() && names[i] == x;
            assert(s.contains(names[i]));
        }
    }
}

proof fn names_in_set(names: Seq<Seq<char>>)
    ensures
        forall|x: Seq<char>| #[trigger] name_set(names).contains(x) <==> names.contains(x),
    decreases names.len(),
{
    if names.len() > 0 {
        let front = names.drop_last();
        names_in_set(front);
        assert forall|x: Seq<char>| #[trigger] name_set(names).contains(x) <==> names.contains(x) by {
            assert(names[names.len() - 1] == names.last());
            assert(name_set(names).contains(x) <==> name_set(front).contains(x) || x == names.last());
            if name_set(front).contains(x) {
                assert(front.contains(x));
                let i = choose|i: int| 0 <= i < front.len() && front[i] == x;
                assert(names[i] == x);
            }
            if names.contains(x) && x != names.last() {
                let i = choose|i: int| 0 <= i < names.len() && names[i] == x;
                assert(front[i] == x);
                assert(front.contains(x));
                assert(name_set(front).contains(x));
            }
        }
    }
}

/// Whether two members are the same in what records keep: who they are, what they subscribe to, and
/// what they hold at which epoch.
pub open spec fn kept_alike(a: MemberStateView, b: MemberStateView) -> bool {
    &&& a.member_id == b.member_id
    &&& a.instance_id == b.instance_id
    &&& a.rack_id == b.rack_id
    &&& a.client_id == b.client_id
    &&& a.client_host == b.client_host
    &&& a.subscribed_topic_names == b.subscribed_topic_names
    &&& a.subscribed_topic_regex == b.subscribed_topic_regex
    &&& a.server_assignor == b.server_assignor
    &&& a.member_epoch == b.member_epoch
    &&& a.previous_member_epoch == b.previous_member_epoch
    &&& a.assignment_state == b.assignment_state
    &&& a.assigned_partitions == b.assigned_partitions
    &&& a.partitions_pending_revocation == b.partitions_pending_revocation
    &&& a.classic is Some <==> b.classic is Some
    &&& b.rebalance_timeout <= i32::MAX ==> a.rebalance_timeout == b.rebalance_timeout
}

/// A consumer group that is written as a whole is read back with its epochs, its targets and its
/// members, alike in all that records keep.
pub proof fn written_group_reads_back(g: GroupStateView, image: ReconcileInputView, now: u64)
    requires
        g.members.dom().finite(),
        keyed(g),
        forall|id: Seq<char>| #[trigger] g.members.contains_key(id) ==> g.members[id].subscribed_topic_names.finite(),
        forall|id: Seq<char>| #[trigger] g.target.contains_key(id) ==> g.members.contains_key(id),
    ensures
        ({
            let read = after(WalkView::begun(), g.group_id, full_snapshot(g).written(), now).replayed;
            let restored = restored_group(read, g.group_id, image, now);
            &&& restored.kind is Consumer
            &&& restored.kind->Consumer_0.group_epoch == g.group_epoch
            &&& restored.kind->Consumer_0.target_epoch == g.target_epoch
            &&& restored.kind->Consumer_0.target == g.target
            &&& restored.kind->Consumer_0.members.dom() == g.members.dom()
            &&& forall|id: Seq<char>| #[trigger] g.members.contains_key(id) ==> kept_alike(restored.kind->Consumer_0.members[id], g.members[id])
        }),
{
    let id = g.group_id;
    let read = after(WalkView::begun(), id, full_snapshot(g).written(), now).replayed;
    records_give_the_seeds(WalkView::begun(), id, full_snapshot(g), now);
    assert(read.seeds[id] == whole_seed(g));
    let h = restored_group(read, id, image, now).kind->Consumer_0;
    let seed = whole_seed(g);
    assert(h == seeded(fresh_consumer(id), seed, image, now));
    assert(h.target =~= g.target) by {
        assert forall|x: Seq<char>| h.target.contains_key(x) <==> g.target.contains_key(x) by {
            whole_seed_tells_all(g, x);
        }
        assert forall|x: Seq<char>| g.target.contains_key(x) implies h.target[x] == g.target[x] by {
            whole_seed_tells_all(g, x);
        }
    }
    whole_seed_tells_all(g, id);
    assert(h.members.dom() =~= g.members.dom()) by {
        assert forall|x: Seq<char>| h.members.contains_key(x) <==> g.members.contains_key(x) by {
            whole_seed_tells_all(g, x);
        }
    }
    assert forall|x: Seq<char>| #[trigger] g.members.contains_key(x) implies kept_alike(h.members[x], g.members[x]) by {
        whole_seed_tells_all(g, x);
        assert(h.members.contains_key(x));
        let m = g.members[x];
        finite_listed::<String>(m.subscribed_topic_names);
        names_read_back(listing::<String>(m.subscribed_topic_names), m.subscribed_topic_names);
        assert(Map::<u128, Seq<i32>>::empty().union_prefer_right(m.assigned_partitions) =~= m.assigned_partitions);
        assert(Map::<u128, Seq<i32>>::empty().union_prefer_right(m.partitions_pending_revocation) =~= m.partitions_pending_revocation);
    }
}

proof fn members_restored(list: Seq<ClassicMemberRecordView>, now: u64, i: int)
    requires
        0 <= i < list.len(),
        forall|j: int| i < j < list.len() ==> (#[trigger] list[j]).member_id != list[i].member_id,
    ensures
        restored_members(list, now).contains_key(list[i].member_id),
        restored_members(list, now)[list[i].member_id] == restored_member(list[i], now),
    decreases list.len(),
{
    if i < list.len() - 1 {
        let front = list.drop_last();
        assert forall|j: int| i < j < front.len() implies (#[trigger] front[j]).member_id != front[i].member_id by {
            assert(front[j] == list[j]);
        }
        members_restored(front, now, i);
        assert(list[list.len() - 1].member_id != list[i].member_id);
    }
}

proof fn nobody_else_restored(list: Seq<ClassicMemberRecordView>, now: u64, x: Seq<char>)
    requires
        forall|j: int| 0 <= j < list.len() ==> (#[trigger] list[j]).member_id != x,
    ensures
        !restored_members(list, now).contains_key(x),
    decreases list.len(),
{
    if list.len() > 0 {
        let front = list.drop_last();
        assert forall|j: int| 0 <= j < front.len() implies (#[trigger] front[j]).member_id != x by {
            assert(front[j] == list[j]);
        }
        nobody_else_restored(front, now, x);
        assert(list[list.len() - 1].member_id != x);
    }
}

proof fn pins_restored(list: Seq<ClassicMemberRecordView>, x: Seq<char>)
    ensures
        restored_pins(list).contains_key(x) <==> exists|k: int| 0 <= k < list.len() && (#[trigger] list[k]).group_instance_id == Some(x),
        restored_pins(list).contains_key(x) ==> exists|k: int|
            0 <= k < list.len() && (#[trigger] list[k]).group_instance_id == Some(x) && restored_pins(list)[x] == list[k].member_id,
    decreases list.len(),
{
    if list.len() > 0 {
        let front = list.drop_last();
        pins_restored(front, x);
        assert(list[list.len() - 1] == list.last());
        if list.last().group_instance_id != Some(x) {
            assert forall|k: int| 0 <= k < list.len() && (#[trigger] list[k]).group_instance_id == Some(x) implies front[k].group_instance_id == Some(x) by {}
            assert forall|k: int| 0 <= k < front.len() implies #[trigger] front[k] == list[k] by {}
        }
    }
}

/// A classic group that is written is read back, whatever was read of it before: with its generation,
/// leader and protocol, who holds which static identity, and its members with their metadata,
/// timeouts and assignments, stable unless it has none. A member without an assignment comes back
/// with an empty one, and a timeout beyond what its record holds as the one it is taken for.
pub proof fn written_classic_group_reads_back(w: WalkView, g: ClassicGroupView, now: u64, now_ms: i64)
    requires
        g.members.dom().finite(),
        forall|id: Seq<char>| #[trigger] g.members.contains_key(id) ==> g.members[id].id == id,
    ensures
        ({
            let read = after(w, g.group_id, classic_snapshot(g, now_ms).written(), now).replayed;
            let h = read.classic[g.group_id];
            &&& read.classic.contains_key(g.group_id)
            &&& h.generation_id == g.generation_id
            &&& h.leader_id == g.leader_id
            &&& h.protocol_name == g.protocol_name
            &&& h.protocol_type == Some(
                match g.protocol_type {
                    Some(t) => t,
                    None => "consumer"@,
                },
            )
            &&& sound(g) ==> h.static_members == g.static_members
            &&& h.members.dom() == g.members.dom()
            &&& h.state == if g.members == Map::<Seq<char>, MemberView>::empty() {
                ClassicGroupState::Empty
            } else {
                ClassicGroupState::Stable
            }
            &&& forall|id: Seq<char>| #[trigger]
                g.members.contains_key(id) ==> {
                    &&& h.members[id].client_id == g.members[id].client_id
                    &&& h.members[id].client_host == g.members[id].client_host
                    &&& h.members[id].group_instance_id == g.members[id].group_instance_id
                    &&& h.members[id].protocol_metadata == g.members[id].protocol_metadata
                    &&& h.members[id].assignment == Some(
                        match g.members[id].assignment {
                            Some(a) => a,
                            None => seq![],
                        },
                    )
                    &&& h.members[id].session_timeout == if g.members[id].session_timeout <= i32::MAX {
                        g.members[id].session_timeout
                    } else {
                        FALLBACK_SESSION_TIMEOUT_MS as u64
                    }
                    &&& h.members[id].rebalance_timeout == if g.members[id].rebalance_timeout <= i32::MAX {
                        g.members[id].rebalance_timeout
                    } else {
                        FALLBACK_REBALANCE_TIMEOUT_MS as u64
                    }
                }
            &&& read.empty_since.contains_key(g.group_id) <==> g.members == Map::<Seq<char>, MemberView>::empty() && now_ms > 0
        }),
{
    let id = g.group_id;
    let v = kept_classic(g, now_ms);
    let delta = classic_snapshot(g, now_ms);
    let r = GroupRecordView::ClassicMetadata { value: Some(v) };
    assert(delta.written() =~= Seq::<GroupRecordView>::empty().push(r)) by {
        assert(member_records(delta.member_metadata) =~= seq![]);
        assert(target_records(delta.target_per_member) =~= seq![]);
        assert(current_records(delta.current_per_member) =~= seq![]);
    }
    after_push(w, id, seq![], r, now);
    assert(logged(id, Seq::<GroupRecordView>::empty()) =~= seq![]);
    let read = after(w, id, delta.written(), now).replayed;
    let h = read.classic[id];
    assert(h == restored_classic(w.replayed.classic_or_fresh(id), v, now));
    let ids = listing::<String>(g.members.dom());
    finite_listed::<String>(g.members.dom());
    assert forall|x: Seq<char>| #[trigger] g.members.contains_key(x) implies h.members.contains_key(x) && h.members[x] == restored_member(
        kept_classic_member(g.members[x]),
        now,
    ) by {
        assert(ids.contains(x));
        let i = choose|i: int| 0 <= i < ids.len() && ids[i] == x;
        assert forall|j: int| i < j < v.members.len() implies (#[trigger] v.members[j]).member_id != v.members[i].member_id by {
            <String as Key>::lt_irreflexive(x);
            assert(<String as Key>::lt(ids[i], ids[j]));
            assert(g.members.dom().contains(ids[j]));
        }
        members_restored(v.members, now, i);
    }
    assert forall|x: Seq<char>| h.members.contains_key(x) implies g.members.contains_key(x) by {
        if !g.members.contains_key(x) {
            assert forall|j: int| 0 <= j < v.members.len() implies (#[trigger] v.members[j]).member_id != x by {
                assert(g.members.dom().contains(ids[j]));
            }
            nobody_else_restored(v.members, now, x);
        }
    }
    assert(h.members.dom() =~= g.members.dom());
    if sound(g) {
        assert(h.static_members =~= g.static_members) by {
            assert forall|x: Seq<char>| h.static_members.contains_key(x) <==> g.static_members.contains_key(x) by {
                pins_restored(v.members, x);
                if h.static_members.contains_key(x) {
                    let k = choose|k: int| 0 <= k < v.members.len() && (#[trigger] v.members[k]).group_instance_id == Some(x);
                    assert(g.members.dom().contains(ids[k]));
                }
                if g.static_members.contains_key(x) {
                    assert(ids.contains(g.static_members[x]));
                    let k = choose|k: int| 0 <= k < ids.len() && ids[k] == g.static_members[x];
                    assert(v.members[k].group_instance_id == Some(x));
                }
            }
            assert forall|x: Seq<char>| h.static_members.contains_key(x) implies h.static_members[x] == g.static_members[x] by {
                pins_restored(v.members, x);
                let k = choose|k: int|
                    0 <= k < v.members.len() && (#[trigger] v.members[k]).group_instance_id == Some(x) && h.static_members[x] == v.members[k].member_id;
                assert(g.members.dom().contains(ids[k]));
            }
        }
    }
    if g.members == Map::<Seq<char>, MemberView>::empty() {
        assert(h.members =~= Map::empty());
        assert(v.members.len() == 0) by {
            if ids.len() > 0 {
                assert(g.members.dom().contains(ids[0]));
            }
        }
    } else {
        assert(h.members != Map::<Seq<char>, MemberView>::empty()) by {
            if h.members == Map::<Seq<char>, MemberView>::empty() {
                assert(g.members =~= Map::empty());
            }
        }
        assert(v.members.len() > 0) by {
            if ids.len() == 0 {
                assert forall|x: Seq<char>| !g.members.contains_key(x) by {
                    if g.members.dom().contains(x) {
                        assert(ids.contains(x));
                    }
                }
                assert(g.members =~= Map::empty());
            }
        }
    }
}

/// A committed offset that is written is read back, but for the topic that it was committed for.
pub proof fn commit_reads_back(r: ReplayedView, id: Seq<char>, key: PartitionKeyView, e: OffsetEntryView, now: u64)
    ensures
        ({
            let record = LoggedRecordView::Group { group_id: id, record: GroupRecordView::OffsetCommit { topic: key.0, partition: key.1, value: Some(e) } };
            let kept = offsets_in(r.with(record, now).committed, id);
            &&& kept.contains_key(key)
            &&& kept[key] == (OffsetEntryView { topic_id: None, ..e })
        }),
{
}

proof fn new_kind_keeps_classic(w: WalkView, id: Seq<char>, records: Seq<GroupRecordView>, now: u64)
    requires
        forall|i: int| 0 <= i < records.len() ==> #[trigger] records[i] is NextGen,
    ensures
        after(w, id, records, now).replayed.classic == w.replayed.classic,
    decreases records.len(),
{
    if records.len() == 0 {
        assert(logged(id, records) =~= seq![]);
    } else {
        let front = records.drop_last();
        assert forall|i: int| 0 <= i < front.len() implies #[trigger] front[i] is NextGen by {
            assert(front[i] == records[i]);
        }
        new_kind_keeps_classic(w, id, front, now);
        assert(records =~= front.push(records.last()));
        assert(records[records.len() - 1] is NextGen);
        after_push(w, id, front, records.last(), now);
    }
}

proof fn classic_after(w: WalkView, id: Seq<char>, delta: PendingRecordsView, now: u64)
    ensures
        after(w, id, delta.written(), now).replayed.classic == match (delta.classic_group_metadata_tombstone, delta.classic_group_metadata) {
            (true, Some(v)) => w.replayed.classic.remove(id).insert(id, restored_classic(fresh_classic(id), v, now)),
            (true, None) => w.replayed.classic.remove(id),
            (false, Some(v)) => w.replayed.classic.insert(id, restored_classic(w.replayed.classic_or_fresh(id), v, now)),
            (false, None) => w.replayed.classic,
        },
{
    let s = read_in_parts(w, id, delta, now);
    let (w1, w2, w3, w4, w5, w6, w7, w8) = (s[1], s[2], s[3], s[4], s[5], s[6], s[7], s[8]);
    assert(w5.replayed.classic == w.replayed.classic) by {
        new_kind_keeps_classic(w, id, part(delta, 0), now);
        new_kind_keeps_classic(w1, id, part(delta, 1), now);
        new_kind_keeps_classic(w2, id, part(delta, 2), now);
        new_kind_keeps_classic(w3, id, part(delta, 3), now);
        new_kind_keeps_classic(w4, id, part(delta, 4), now);
    }
    after_one(w5, id, delta.classic_group_metadata_tombstone, GroupRecordView::ClassicMetadata { value: None }, now);
    assert(w8.replayed.classic == w6.replayed.classic) by {
        new_kind_keeps_classic(w6, id, part(delta, 6), now);
        new_kind_keeps_classic(w7, id, part(delta, 7), now);
    }
    after_one(w8, id, delta.classic_group_metadata is Some, GroupRecordView::ClassicMetadata { value: delta.classic_group_metadata }, now);
}

/// A group that became a consumer group is read back as one, and no longer as a classic group.
pub proof fn upgrade_reads_back(w: WalkView, classic: ClassicGroupView, now: u64)
    ensures
        ({
            let state = upgraded(classic, now);
            let read = after(w, classic.group_id, upgrade_records(state).written(), now).replayed;
            &&& read.seeds.contains_key(classic.group_id)
            &&& read.seeds[classic.group_id].group_epoch == classic.generation_id
            &&& !read.classic.contains_key(classic.group_id)
        }),
{
    let delta = upgrade_records(upgraded(classic, now));
    records_give_the_seeds(w, classic.group_id, delta, now);
    classic_after(w, classic.group_id, delta, now);
}

/// A group that became classic is read back as the classic group that it became, and no longer as a
/// consumer group. (It was read as a consumer group before.)
pub proof fn downgrade_reads_back(w: WalkView, g: GroupStateView, image: ReconcileInputView, now: u64, now_ms: i64)
    requires
        w.replayed.seeds.contains_key(g.group_id),
        !w.replayed.classic.contains_key(g.group_id),
    ensures
        ({
            let classic = downgraded(g, image);
            let read = after(w, g.group_id, downgrade_records(g, classic, now_ms).written(), now).replayed;
            &&& !read.seeds.contains_key(g.group_id)
            &&& read.classic.contains_key(g.group_id)
            &&& read.classic[g.group_id] == restored_classic(fresh_classic(g.group_id), kept_classic(classic, now_ms), now)
        }),
{
    let delta = downgrade_records(g, downgraded(g, image), now_ms);
    records_give_the_seeds(w, g.group_id, delta, now);
    classic_after(w, g.group_id, delta, now);
    all_gone_writes_no_epoch(PendingRecordsView::none(), listing::<String>(g.members.dom()));
}

proof fn all_gone_writes_no_epoch(delta: PendingRecordsView, ids: Seq<Seq<char>>)
    ensures
        delta.and_all_gone(ids).classic_group_metadata_tombstone == delta.classic_group_metadata_tombstone,
        delta.and_all_gone(ids).group_metadata == delta.group_metadata,
    decreases ids.len(),
{
    if ids.len() > 0 {
        all_gone_writes_no_epoch(delta, ids.drop_last());
    }
}

} // verus!
