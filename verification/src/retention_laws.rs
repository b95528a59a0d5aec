//! Which offsets a group keeps, and which an admin may take from it.

use crate::classic_state::{ClassicGroupView, GroupState as ClassicGroupState, MemberView};
use crate::codes;
use crate::consumer_state::{GroupStateView, MemberStateView};
use crate::group::{CoordinatorGroupView, GroupKindView, PartitionKey, PartitionKeyView, marks_of, with_committed, without_keys};
use crate::metadata::MetadataImage;
use crate::offset_delete::{SubscribedTopicsView, guarded};
use crate::ordmap::{finite_listed, listing};
use crate::records::{GroupRecordView, OffsetEntryView};
use crate::regexes::regex_matches;
use crate::retention::{ReapOutcomeView, due, expired_keys, offset_tombstones};
use crate::topic_deletion::{DeletedTopicView, deleted_id, doomed, gone_names, still_gone, with_ids};
use crate::wire::subscription_topics;
use vstd::prelude::*;

verus! {

/// Since when an offset's retention runs: from the moment the group emptied, in a classic group that a
/// consumer ever joined; else from its own commit.
pub open spec fn runs_from(g: CoordinatorGroupView, e: OffsetEntryView) -> int {
    if g.kind is Classic && g.kind->Classic_0.protocol_type is Some && g.empty_since_ms is Some {
        g.empty_since_ms->0 as int
    } else {
        e.commit_timestamp_ms as int
    }
}

/// A retention pass over a group without members takes an offset exactly when the moment that its commit
/// named has come, or, where it named none, when its retention has run out. It takes none from a group
/// that has members.
pub proof fn pass_takes_an_offset_when_its_time_has_come(
    g: CoordinatorGroupView,
    now_ms: i64,
    retention_ms: i64,
    grace_ms: i64,
    k: PartitionKeyView,
)
    requires
        g.committed_offsets.dom().finite(),
        g.committed_offsets.contains_key(k),
        i64::MIN <= runs_from(g, g.committed_offsets[k]) + retention_ms <= i64::MAX,
    ensures
        ({
            let e = g.committed_offsets[k];
            let populated = match g.kind {
                GroupKindView::Classic(state) => exists|x: Seq<char>| #[trigger] state.members.contains_key(x),
                GroupKindView::Consumer(state) => exists|x: Seq<char>| #[trigger] state.members.contains_key(x),
            };
            let come = if e.expire_timestamp_ms is Some {
                now_ms >= e.expire_timestamp_ms->0
            } else {
                now_ms >= runs_from(g, e) + retention_ms
            };
            let taken = due(g, now_ms, retention_ms, grace_ms) is Some && due(g, now_ms, retention_ms, grace_ms)->0.reaped.contains(k);
            taken <==> !populated && come
        }),
{
    let s = expired_keys(g, now_ms, retention_ms);
    assert(s.subset_of(g.committed_offsets.dom()));
    vstd::set_lib::lemma_set_subset_finite(g.committed_offsets.dom(), s);
    finite_listed::<PartitionKey>(s);
    let list = listing::<PartitionKey>(s);
    if s.contains(k) {
        assert(list.contains(k));
    }
    if list.contains(k) {
        let i = choose|i: int| 0 <= i < list.len() && list[i] == k;
        assert(s.contains(list[i]));
    }
    population(g);
}

/// A group has members when one is there.
pub(crate) proof fn population(g: CoordinatorGroupView)
    ensures
        g.has_members() <==> match g.kind {
            GroupKindView::Classic(state) => exists|x: Seq<char>| #[trigger] state.members.contains_key(x),
            GroupKindView::Consumer(state) => exists|x: Seq<char>| #[trigger] state.members.contains_key(x),
        },
{
    match g.kind {
        GroupKindView::Classic(state) => {
            if forall|x: Seq<char>| !(#[trigger] state.members.contains_key(x)) {
                assert(state.members =~= Map::<Seq<char>, MemberView>::empty());
            }
        },
        GroupKindView::Consumer(state) => {
            if forall|x: Seq<char>| !(#[trigger] state.members.contains_key(x)) {
                assert(state.members =~= Map::<Seq<char>, MemberStateView>::empty());
            }
        },
    }
}

/// A retention pass drops a group that has no members and nothing left: where its last offsets go with
/// the pass, or where it had none and has been empty for the grace period. It drops no other.
pub proof fn pass_drops_a_group_with_nothing_left(g: CoordinatorGroupView, now_ms: i64, retention_ms: i64, grace_ms: i64)
    requires
        g.committed_offsets.dom().finite(),
        g.empty_since_ms is Some ==> i64::MIN <= g.empty_since_ms->0 + grace_ms <= i64::MAX,
    ensures
        ({
            let outcome = due(g, now_ms, retention_ms, grace_ms);
            let dropped = outcome is Some && outcome->0.group_deleted;
            let bare = forall|k: PartitionKeyView| !(#[trigger] g.committed_offsets.contains_key(k));
            &&& g.has_members() ==> !dropped
            &&& dropped ==> forall|k: PartitionKeyView| #[trigger] g.committed_offsets.contains_key(k) ==> outcome->0.reaped.contains(k)
            &&& bare && !g.has_members() ==> (dropped <==> g.empty_since_ms is Some && now_ms >= g.empty_since_ms->0 + grace_ms)
            &&& outcome is Some && !dropped ==> exists|k: PartitionKeyView| #[trigger]
                g.committed_offsets.contains_key(k) && !outcome->0.reaped.contains(k)
            &&& outcome is Some ==> forall|i: int| 0 <= i < outcome->0.reaped.len() ==> g.committed_offsets.contains_key(#[trigger] outcome->0.reaped[i])
        }),
{
    let s = expired_keys(g, now_ms, retention_ms);
    assert(s.subset_of(g.committed_offsets.dom()));
    vstd::set_lib::lemma_set_subset_finite(g.committed_offsets.dom(), s);
    finite_listed::<PartitionKey>(s);
    let list = listing::<PartitionKey>(s);
    assert forall|k: PartitionKeyView| #[trigger] s.contains(k) <==> list.contains(k) by {
        if list.contains(k) {
            let i = choose|i: int| 0 <= i < list.len() && list[i] == k;
            assert(s.contains(list[i]));
        }
    }
    let outcome = due(g, now_ms, retention_ms, grace_ms);
    if forall|k: PartitionKeyView| !(#[trigger] g.committed_offsets.contains_key(k)) {
        if list.len() > 0 {
            assert(s.contains(list[0]));
        }
    }
    if outcome is Some && outcome->0.group_deleted {
        assert forall|k: PartitionKeyView| #[trigger] g.committed_offsets.contains_key(k) implies outcome->0.reaped.contains(k) by {
            assert(s.contains(k));
        }
    }
    if outcome is Some && !outcome->0.group_deleted {
        let k = choose|k: PartitionKeyView| #[trigger] g.committed_offsets.contains_key(k) && !crate::retention::outlived(g, k, now_ms, retention_ms);
        assert(g.committed_offsets.contains_key(k) && !s.contains(k));
    }
}

/// Each offset that goes gets a tombstone of its own, for its topic and partition, and nothing else does.
pub proof fn each_offset_that_goes_gets_its_tombstone(keys: Seq<PartitionKeyView>, k: PartitionKeyView)
    ensures
        offset_tombstones(keys).len() == keys.len(),
        keys.contains(k) <==> offset_tombstones(keys).contains(GroupRecordView::OffsetCommit { topic: k.0, partition: k.1, value: None }),
{
    let t = offset_tombstones(keys);
    let r = GroupRecordView::OffsetCommit { topic: k.0, partition: k.1, value: None };
    if keys.contains(k) {
        let i = choose|i: int| 0 <= i < keys.len() && keys[i] == k;
        assert(t[i] == r);
    }
    if t.contains(r) {
        let i = choose|i: int| 0 <= i < t.len() && t[i] == r;
        assert(keys[i] == k);
    }
}

/// A commit replaces what was committed before for its partitions, the last where one comes twice, and
/// leaves every other partition as it was.
pub proof fn commit_replaces_its_partitions(
    m: Map<PartitionKeyView, OffsetEntryView>,
    entries: Seq<(PartitionKeyView, OffsetEntryView)>,
    k: PartitionKeyView,
)
    ensures
        ({
            let after = with_committed(m, entries);
            &&& (forall|i: int| 0 <= i < entries.len() ==> (#[trigger] entries[i]).0 != k) ==> (after.contains_key(k) <==> m.contains_key(k)) && (
            m.contains_key(k) ==> after[k] == m[k])
            &&& forall|i: int|
                0 <= i < entries.len() && (#[trigger] entries[i]).0 == k && (forall|j: int| i < j < entries.len() ==> (#[trigger] entries[j]).0 != k)
                    ==> after.contains_key(k) && after[k] == entries[i].1
        }),
    decreases entries.len(),
{
    if entries.len() > 0 {
        let rest = entries.drop_last();
        let n = entries.len() - 1;
        commit_replaces_its_partitions(m, rest, k);
        assert(entries[n] == entries.last());
        if forall|i: int| 0 <= i < entries.len() ==> (#[trigger] entries[i]).0 != k {
            assert(entries[n].0 != k);
            assert forall|i: int| 0 <= i < rest.len() implies (#[trigger] rest[i]).0 != k by {
                assert(entries[i].0 != k);
            }
        }
        let after = with_committed(m, entries);
        assert forall|i: int|
            0 <= i < entries.len() && (#[trigger] entries[i]).0 == k && (forall|j: int| i < j < entries.len() ==> (#[trigger] entries[j]).0 != k)
                implies after.contains_key(k) && after[k] == entries[i].1 by {
            if i < n {
                assert(entries[n].0 != k);
                assert(rest[i] == entries[i]);
                assert forall|j: int| i < j < rest.len() implies (#[trigger] rest[j]).0 != k by {
                    assert(entries[j].0 != k);
                }
            }
        }
    }
}

/// Offsets that are taken out are gone, and all others stay as they are.
pub proof fn removal_takes_its_partitions(m: Map<PartitionKeyView, OffsetEntryView>, keys: Seq<PartitionKeyView>, k: PartitionKeyView)
    ensures
        without_keys(m, keys).contains_key(k) <==> m.contains_key(k) && !keys.contains(k),
        without_keys(m, keys).contains_key(k) ==> without_keys(m, keys)[k] == m[k],
{
}

/// What an `OffsetFetch` is told is open: an offset that a producer's transaction wrote, from the moment
/// that it is known to be written until a marker behind it ends the transaction; the open writes of
/// other producers are not touched.
pub proof fn open_writes_last_until_their_marker(
    g: CoordinatorGroupView,
    producer: i64,
    at: i64,
    keys: Seq<PartitionKeyView>,
    through: i64,
    committed: Seq<(PartitionKeyView, OffsetEntryView)>,
    other: i64,
    k: PartitionKeyView,
)
    requires
        keys.contains(k),
        other != producer,
        !g.resolved_txn.contains_key(producer) || g.resolved_txn[producer] <= at,
    ensures
        ({
            let written = g.marked(producer, at, keys);
            let ended = written.resolved(producer, through, committed);
            &&& written.pending_keys().contains(k)
            &&& marks_of(ended.pending_txn, producer).contains_key(k) <==> at >= through
            &&& marks_of(written.pending_txn, other) == marks_of(g.pending_txn, other)
            &&& marks_of(ended.pending_txn, other) == marks_of(g.pending_txn, other)
            &&& written.committed_offsets == g.committed_offsets
        }),
{
    let written = g.marked(producer, at, keys);
    assert(written.pending_txn.contains_key(producer) && written.pending_txn[producer].contains_key(k));
}

/// An `OffsetDelete` may not touch a topic that a member of a consumer group subscribes to, by name or by
/// pattern, and may touch any other.
pub proof fn subscribed_topics_are_guarded(g: CoordinatorGroupView, state: GroupStateView, topic: Seq<char>)
    requires
        g.kind == GroupKindView::Consumer(state),
    ensures
        guarded(g) is Ok,
        guarded(g)->Ok_0.contains(topic) <==> exists|id: Seq<char>| #[trigger]
            state.members.contains_key(id) && (state.members[id].subscribed_topic_names.contains(topic) || (state.members[id].subscribed_topic_regex is Some
                && state.members[id].regex_authorized_topics.contains(topic) && regex_matches(state.members[id].subscribed_topic_regex->0, topic))),
{
    if exists|id: Seq<char>| #[trigger]
        state.members.contains_key(id) && (state.members[id].subscribed_topic_names.contains(topic) || (state.members[id].subscribed_topic_regex is Some
            && state.members[id].regex_authorized_topics.contains(topic) && regex_matches(state.members[id].subscribed_topic_regex->0, topic))) {
        let id = choose|id: Seq<char>| #[trigger]
            state.members.contains_key(id) && (state.members[id].subscribed_topic_names.contains(topic) || (state.members[id].subscribed_topic_regex is Some
                && state.members[id].regex_authorized_topics.contains(topic) && regex_matches(state.members[id].subscribed_topic_regex->0, topic)));
        assert(state.members[id].wants(topic));
    }
}

/// An `OffsetDelete` on a classic group: one that is empty guards nothing; one of another protocol type
/// than that of consumers refuses; else each topic is guarded that a member's subscription names, and
/// every topic where the subscription of a member cannot be read.
pub proof fn classic_subscriptions_are_guarded(g: CoordinatorGroupView, state: ClassicGroupView, topic: Seq<char>)
    requires
        g.kind == GroupKindView::Classic(state),
    ensures
        ({
            let populated = state.state != ClassicGroupState::Empty && exists|x: Seq<char>| #[trigger] state.members.contains_key(x);
            let consumers = state.protocol_type == Some("consumer"@);
            let named = exists|x: Seq<char>| #[trigger]
                state.members.contains_key(x) && subscription_topics(state.members[x].protocol_metadata) is Some && subscription_topics(
                    state.members[x].protocol_metadata,
                )->0.contains(topic);
            let unreadable = exists|x: Seq<char>| #[trigger]
                state.members.contains_key(x) && subscription_topics(state.members[x].protocol_metadata) is None;
            &&& guarded(g) is Err <==> populated && !consumers
            &&& guarded(g) is Err ==> guarded(g)->Err_0 == codes::NON_EMPTY_GROUP
            &&& guarded(g) is Ok ==> (guarded(g)->Ok_0.contains(topic) <==> populated && (named || unreadable || state.protocol_name is None))
        }),
{
    let empty = state.members.dom() =~= Set::<Seq<char>>::empty();
    if forall|x: Seq<char>| !(#[trigger] state.members.contains_key(x)) {
        assert(state.members.dom() =~= Set::<Seq<char>>::empty());
    }
    if exists|x: Seq<char>| #[trigger] state.members.contains_key(x) {
        let x = choose|x: Seq<char>| #[trigger] state.members.contains_key(x);
        assert(state.members.dom().contains(x));
    }
}

/// A topic counts as deleted between two images exactly when the later one holds its id under no name;
/// one that was created again under its name has another id, and the old one counts as deleted.
pub proof fn topic_is_deleted_when_its_id_is_gone(previous: MetadataImage, next: MetadataImage, name: Seq<char>)
    requires
        previous.topics@.dom().finite(),
    ensures
        with_ids(listing::<String>(gone_names(previous, next)), previous).contains((name, previous.topics@[name].topic_id))
            <==> previous.topics@.contains_key(name) && forall|other: Seq<char>| #[trigger]
            next.topics@.contains_key(other) ==> next.topics@[other].topic_id != previous.topics@[name].topic_id,
{
    let s = gone_names(previous, next);
    let names = listing::<String>(s);
    let list = with_ids(names, previous);
    assert(s.subset_of(previous.topics@.dom()));
    vstd::set_lib::lemma_set_subset_finite(previous.topics@.dom(), s);
    finite_listed::<String>(s);
    let entry = (name, previous.topics@[name].topic_id);
    if list.contains(entry) {
        let i = choose|i: int| 0 <= i < list.len() && list[i] == entry;
        assert(s.contains(names[i]));
    }
    if s.contains(name) {
        assert(names.contains(name));
        let i = choose|i: int| 0 <= i < names.len() && names[i] == name;
        assert(list[i] == entry);
    }
}

proof fn deleted_id_is_listed(topics: Seq<DeletedTopicView>, name: Seq<char>)
    ensures
        deleted_id(topics, name) is Some ==> topics.contains((name, deleted_id(topics, name)->0)),
        deleted_id(topics, name) is None ==> forall|i: int| 0 <= i < topics.len() ==> (#[trigger] topics[i]).0 != name,
    decreases topics.len(),
{
    if topics.len() > 0 {
        if topics[0].0 == name {
            assert(topics[0] == (name, topics[0].1));
        } else {
            let rest = topics.skip(1);
            deleted_id_is_listed(rest, name);
            match deleted_id(rest, name) {
                Some(id) => {
                    let i = choose|i: int| 0 <= i < rest.len() && rest[i] == (name, id);
                    assert(topics[i + 1] == (name, id));
                },
                None => {
                    assert forall|i: int| 0 <= i < topics.len() implies (#[trigger] topics[i]).0 != name by {
                        if i > 0 {
                            assert(rest[i - 1] == topics[i]);
                        }
                    }
                },
            }
        }
    }
}

/// When topics are deleted, an offset that was committed for one of them goes, or one of which it is not
/// known for which topic of that name it was committed, or one of that name that an open transaction
/// wrote; an offset that was committed for another topic of the name stays, and one of another name too.
pub proof fn deletion_takes_the_offsets_of_its_topics(g: CoordinatorGroupView, topics: Seq<DeletedTopicView>, id: u128, k: PartitionKeyView)
    requires
        forall|i: int| 0 <= i < topics.len() && (#[trigger] topics[i]).0 == k.0 ==> topics[i].1 == id,
    ensures
        doomed(g, topics).contains(k) <==> topics.contains((k.0, id)) && ((g.committed_offsets.contains_key(k) && (g.committed_offsets[k].topic_id is None
            || g.committed_offsets[k].topic_id->0 == id)) || exists|p: i64| #[trigger] g.pending_txn.contains_key(p) && g.pending_txn[p].contains_key(k)),
{
    deleted_id_is_listed(topics, k.0);
    if topics.contains((k.0, id)) {
        let i = choose|i: int| 0 <= i < topics.len() && topics[i] == (k.0, id);
        assert(topics[i].0 == k.0);
    }
    if deleted_id(topics, k.0) is Some {
        let v = deleted_id(topics, k.0)->0;
        let i = choose|i: int| 0 <= i < topics.len() && topics[i] == (k.0, v);
        assert(topics[i].0 == k.0);
        assert(v == id);
    }
}

/// Of the deletions that are remembered, those apply to a group that is loaded later whose name no topic
/// has again.
pub proof fn remembered_deletions_apply_to_lost_names(remembered: Seq<DeletedTopicView>, image: MetadataImage, d: DeletedTopicView)
    ensures
        still_gone(remembered, image).contains(d) <==> remembered.contains(d) && !image.topics@.contains_key(d.0),
    decreases remembered.len(),
{
    if remembered.len() > 0 {
        let rest = remembered.drop_last();
        let before = still_gone(rest, image);
        let all = still_gone(remembered, image);
        remembered_deletions_apply_to_lost_names(rest, image, d);
        assert(remembered[remembered.len() - 1] == remembered.last());
        if remembered.contains(d) && d != remembered.last() {
            let i = choose|i: int| 0 <= i < remembered.len() && remembered[i] == d;
            assert(rest[i] == d);
        }
        if rest.contains(d) {
            let i = choose|i: int| 0 <= i < rest.len() && rest[i] == d;
            assert(remembered[i] == d);
        }
        if before.contains(d) {
            let i = choose|i: int| 0 <= i < before.len() && before[i] == d;
            assert(all[i] == d);
        }
        if all.contains(d) && d != remembered.last() {
            let i = choose|i: int| 0 <= i < all.len() && all[i] == d;
            assert(before[i] == d);
        }
        if !image.topics@.contains_key(remembered.last().0) {
            assert(all[all.len() - 1] == remembered.last());
        }
        if all.contains(d) && d == remembered.last() && image.topics@.contains_key(d.0) {
            assert(before.contains(d));
        }
    }
}

} // verus!
