//! What always holds of a group's offsets.

use crate::group::{CoordinatorGroupView, PartitionKey, PartitionKeyView, marks_of, reserved_of, saturated, with_committed, without_keys};
use crate::ordmap::{finite_listed, listing};
use crate::records::OffsetEntryView;
use crate::retention::{all_expired, counted_from, due, expired_keys, outlived};
use crate::topic_deletion::{DeletedTopicView, committed_to_deleted, deleted_id, doomed};
use vstd::prelude::*;

verus! {

/// The list of a finite set holds what the set holds.
proof fn listed_alike(s: Set<PartitionKeyView>, k: PartitionKeyView)
    requires
        s.finite(),
    ensures
        listing::<PartitionKey>(s).contains(k) <==> s.contains(k),
{
    finite_listed::<PartitionKey>(s);
}

proof fn expired_finite(g: CoordinatorGroupView, now_ms: i64, retention_ms: i64)
    requires
        g.committed_offsets.dom().finite(),
    ensures
        expired_keys(g, now_ms, retention_ms).finite(),
{
    let all = g.committed_offsets.dom();
    assert(expired_keys(g, now_ms, retention_ms).subset_of(all));
    vstd::set_lib::lemma_set_subset_finite(all, expired_keys(g, now_ms, retention_ms));
}

/// A group with members loses no offset to retention, however old.
pub proof fn live_group_keeps_offsets(g: CoordinatorGroupView, now_ms: i64, retention_ms: i64, grace_ms: i64)
    requires
        g.has_members(),
    ensures
        due(g, now_ms, retention_ms, grace_ms) is None,
{
}

/// A retention pass takes the offsets that have outlived their retention, and no others.
pub proof fn reap_takes_what_expired(g: CoordinatorGroupView, now_ms: i64, retention_ms: i64, grace_ms: i64, k: PartitionKeyView)
    requires
        g.committed_offsets.dom().finite(),
        due(g, now_ms, retention_ms, grace_ms) is Some,
    ensures
        due(g, now_ms, retention_ms, grace_ms)->0.reaped.contains(k) <==> outlived(g, k, now_ms, retention_ms),
{
    expired_finite(g, now_ms, retention_ms);
    listed_alike(expired_keys(g, now_ms, retention_ms), k);
}

/// A retention pass drops the group exactly where it leaves it no offset.
pub proof fn reap_drops_emptied_group(g: CoordinatorGroupView, now_ms: i64, retention_ms: i64, grace_ms: i64)
    requires
        g.committed_offsets.dom().finite(),
        due(g, now_ms, retention_ms, grace_ms) is Some,
    ensures
        ({
            let outcome = due(g, now_ms, retention_ms, grace_ms)->0;
            outcome.group_deleted <==> without_keys(g.committed_offsets, outcome.reaped) == Map::<PartitionKeyView, OffsetEntryView>::empty()
        }),
{
    let outcome = due(g, now_ms, retention_ms, grace_ms)->0;
    let left = without_keys(g.committed_offsets, outcome.reaped);
    if outcome.group_deleted {
        assert forall|k: PartitionKeyView| !left.contains_key(k) by {
            if g.committed_offsets.contains_key(k) {
                reap_takes_what_expired(g, now_ms, retention_ms, grace_ms, k);
            }
        }
        assert(left =~= Map::empty());
    } else {
        let k = choose|k: PartitionKeyView| #[trigger] g.committed_offsets.contains_key(k) && !outlived(g, k, now_ms, retention_ms);
        reap_takes_what_expired(g, now_ms, retention_ms, grace_ms, k);
        assert(left.contains_key(k));
    }
}

/// A retention pass that leaves the group offsets leaves nothing to a second one at the same time.
pub proof fn reap_settles(g: CoordinatorGroupView, now_ms: i64, retention_ms: i64, grace_ms: i64)
    requires
        g.committed_offsets.dom().finite(),
        due(g, now_ms, retention_ms, grace_ms) is Some,
        !due(g, now_ms, retention_ms, grace_ms)->0.group_deleted,
    ensures
        ({
            let outcome = due(g, now_ms, retention_ms, grace_ms)->0;
            let after = CoordinatorGroupView { committed_offsets: without_keys(g.committed_offsets, outcome.reaped), ..g };
            due(after, now_ms, retention_ms, grace_ms) is None
        }),
{
    let outcome = due(g, now_ms, retention_ms, grace_ms)->0;
    let after = CoordinatorGroupView { committed_offsets: without_keys(g.committed_offsets, outcome.reaped), ..g };
    reap_drops_emptied_group(g, now_ms, retention_ms, grace_ms);
    assert forall|k: PartitionKeyView| !outlived(after, k, now_ms, retention_ms) by {
        if after.committed_offsets.contains_key(k) {
            reap_takes_what_expired(g, now_ms, retention_ms, grace_ms, k);
        }
    }
    assert(expired_keys(after, now_ms, retention_ms) =~= Set::empty());
    finite_listed::<PartitionKey>(expired_keys(after, now_ms, retention_ms));
    let list = listing::<PartitionKey>(expired_keys(after, now_ms, retention_ms));
    assert(list.len() == 0) by {
        if list.len() > 0 {
            assert(expired_keys(after, now_ms, retention_ms).contains(list[0]));
        }
    }
    assert(!all_expired(after, now_ms, retention_ms)) by {
        if forall|k: PartitionKeyView| !after.committed_offsets.contains_key(k) {
            assert(after.committed_offsets =~= Map::empty());
        }
        let k = choose|k: PartitionKeyView| after.committed_offsets.contains_key(k);
        assert(after.committed_offsets.contains_key(k) && !outlived(after, k, now_ms, retention_ms));
    }
}

/// An offset that was committed just now outlives a pass at that time, and the group with it: of a
/// group that retention counts from its commits for, and an entry that names no moment of its own.
pub proof fn fresh_commit_is_kept(g: CoordinatorGroupView, k: PartitionKeyView, e: OffsetEntryView, now_ms: i64, retention_ms: i64, grace_ms: i64)
    requires
        g.committed_offsets.dom().finite(),
        counted_from(g) is None,
        e.expire_timestamp_ms is None,
        now_ms < saturated(e.commit_timestamp_ms, retention_ms),
    ensures
        ({
            let after = CoordinatorGroupView { committed_offsets: with_committed(g.committed_offsets, seq![(k, e)]), ..g };
            match due(after, now_ms, retention_ms, grace_ms) {
                Some(outcome) => !outcome.group_deleted && !outcome.reaped.contains(k),
                None => true,
            }
        }),
{
    let one = seq![(k, e)];
    let after = CoordinatorGroupView { committed_offsets: with_committed(g.committed_offsets, one), ..g };
    assert(with_committed(g.committed_offsets, one.drop_last()) == g.committed_offsets);
    assert(after.committed_offsets == g.committed_offsets.insert(k, e));
    assert(!outlived(after, k, now_ms, retention_ms));
    assert(after.committed_offsets.contains_key(k));
    if due(after, now_ms, retention_ms, grace_ms) is Some {
        reap_takes_what_expired(after, now_ms, retention_ms, grace_ms, k);
    }
}

/// What has expired stays expired.
pub proof fn expiry_is_final(e: OffsetEntryView, now_ms: i64, later_ms: i64, empty_since_ms: Option<i64>, retention_ms: i64)
    requires
        now_ms <= later_ms,
        e.expired(now_ms, empty_since_ms, retention_ms),
    ensures
        e.expired(later_ms, empty_since_ms, retention_ms),
{
}

/// An offset that was committed for a topic created again under the name of a deleted one stays.
pub proof fn recreated_topic_keeps_offsets(g: CoordinatorGroupView, topics: Seq<DeletedTopicView>, k: PartitionKeyView)
    requires
        g.committed_offsets.contains_key(k),
        g.committed_offsets[k].topic_id is Some,
        deleted_id(topics, k.0) != g.committed_offsets[k].topic_id,
        !g.pending_keys().contains(k),
    ensures
        !doomed(g, topics).contains(k),
{
}

/// Deleting the offsets of deleted topics leaves none to delete.
pub proof fn topic_deletion_settles(g: CoordinatorGroupView, topics: Seq<DeletedTopicView>, k: PartitionKeyView)
    requires
        doomed(g, topics).finite(),
    ensures
        !doomed(g.dropped(listing::<PartitionKey>(doomed(g, topics))), topics).contains(k),
{
    let keys = listing::<PartitionKey>(doomed(g, topics));
    let after = g.dropped(keys);
    listed_alike(doomed(g, topics), k);
    if doomed(after, topics).contains(k) {
        if after.committed_offsets.contains_key(k) && committed_to_deleted(topics, k, after.committed_offsets[k]) {
            assert(doomed(g, topics).contains(k));
        } else {
            let p = choose|p: i64| #[trigger] after.pending_txn.contains_key(p) && after.pending_txn[p].contains_key(k);
            assert(g.pending_txn.contains_key(p) && g.pending_txn[p].contains_key(k));
            assert(g.pending_keys().contains(k));
        }
    }
}

/// What open transactions wrote of other topics, and what is committed for them, stays.
pub proof fn topic_deletion_keeps_others(g: CoordinatorGroupView, topics: Seq<DeletedTopicView>, k: PartitionKeyView)
    requires
        doomed(g, topics).finite(),
        deleted_id(topics, k.0) is None,
    ensures
        ({
            let after = g.dropped(listing::<PartitionKey>(doomed(g, topics)));
            &&& after.committed_offsets.contains_key(k) <==> g.committed_offsets.contains_key(k)
            &&& g.committed_offsets.contains_key(k) ==> after.committed_offsets[k] == g.committed_offsets[k]
            &&& after.pending_keys().contains(k) <==> g.pending_keys().contains(k)
        }),
{
    let after = g.dropped(listing::<PartitionKey>(doomed(g, topics)));
    listed_alike(doomed(g, topics), k);
    if g.pending_keys().contains(k) {
        let p = choose|p: i64| #[trigger] g.pending_txn.contains_key(p) && g.pending_txn[p].contains_key(k);
        assert(after.pending_txn.contains_key(p) && after.pending_txn[p].contains_key(k));
    }
    if after.pending_keys().contains(k) {
        let p = choose|p: i64| #[trigger] after.pending_txn.contains_key(p) && after.pending_txn[p].contains_key(k);
        assert(g.pending_txn.contains_key(p) && g.pending_txn[p].contains_key(k));
    }
}

/// Once a marker has ended a transaction, a mark of it that comes late makes nothing pending.
pub proof fn late_mark_is_ignored(
    g: CoordinatorGroupView,
    producer: i64,
    through: i64,
    committed: Seq<(PartitionKeyView, OffsetEntryView)>,
    at: i64,
    keys: Seq<PartitionKeyView>,
)
    requires
        at < through,
    ensures
        ({
            let ended = g.resolved(producer, through, committed);
            ended.marked(producer, at, keys).pending_txn == ended.pending_txn
        }),
{
}

/// Once a marker has ended a transaction, nothing that it wrote is pending.
pub proof fn marker_ends_pending(
    g: CoordinatorGroupView,
    producer: i64,
    at: i64,
    keys: Seq<PartitionKeyView>,
    through: i64,
    committed: Seq<(PartitionKeyView, OffsetEntryView)>,
    k: PartitionKeyView,
)
    requires
        at < through,
        keys.contains(k),
        g.resolved_txn.contains_key(producer) ==> g.resolved_txn[producer] <= at,
    ensures
        !marks_of(g.marked(producer, at, keys).resolved(producer, through, committed).pending_txn, producer).contains_key(k),
{
}

/// A transaction that aborts changes no committed offset.
pub proof fn abort_commits_nothing(g: CoordinatorGroupView, producer: i64, through: i64)
    ensures
        g.resolved(producer, through, seq![]).committed_offsets == g.committed_offsets,
{
}

/// What a transaction commits is committed, the last where an offset comes twice.
pub proof fn commit_publishes(
    g: CoordinatorGroupView,
    producer: i64,
    through: i64,
    committed: Seq<(PartitionKeyView, OffsetEntryView)>,
    i: int,
)
    requires
        0 <= i < committed.len(),
        forall|j: int| i < j < committed.len() ==> (#[trigger] committed[j]).0 != committed[i].0,
    ensures
        g.resolved(producer, through, committed).committed_offsets.contains_key(committed[i].0),
        g.resolved(producer, through, committed).committed_offsets[committed[i].0] == committed[i].1,
    decreases committed.len(),
{
    if i < committed.len() - 1 {
        let before = committed.drop_last();
        assert forall|j: int| i < j < before.len() implies (#[trigger] before[j]).0 != before[i].0 by {
            assert(before[j] == committed[j]);
        }
        commit_publishes(g, producer, through, before, i);
        assert(committed[committed.len() - 1].0 != committed[i].0);
    }
}

/// Reservations that are given back leave what was reserved before.
pub proof fn reservation_round_trip(g: CoordinatorGroupView, producer: i64, keys: Seq<PartitionKeyView>)
    requires
        forall|k: PartitionKeyView| #[trigger] keys.contains(k) ==> !reserved_of(g.reserved_txn, producer).contains(k),
    ensures
        reserved_of(g.reserved(producer, keys).unreserved(producer, keys).reserved_txn, producer) == reserved_of(g.reserved_txn, producer),
{
    assert(reserved_of(g.reserved(producer, keys).unreserved(producer, keys).reserved_txn, producer) =~= reserved_of(g.reserved_txn, producer));
}

/// Looking at a group's membership twice is looking once: an empty group keeps the moment it became
/// empty.
pub proof fn emptiness_is_stamped_once(g: CoordinatorGroupView, now_ms: i64, later_ms: i64)
    ensures
        g.observed(now_ms).observed(later_ms) == g.observed(now_ms),
{
}

} // verus!
