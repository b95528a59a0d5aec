//! Which committed offsets go because their topic was deleted.

use crate::group::{CoordinatorGroup, CoordinatorGroupView, PartitionKey, PartitionKeyView};
use crate::metadata::{MetadataImage, TopicRecord};
use crate::ordmap::{Dup, OrdSet, Test, listing, passing, str_eq, views};
use crate::persistence::list_of;
use crate::records::{OffsetEntry, OffsetEntryView, RecordBatch, RecordBatchView};
use crate::retention::{offset_tombstones, tombstone_batch};
use vstd::prelude::*;

verus! {

/// A deleted topic: its name and its id.
pub type DeletedTopic = (String, u128);

/// What a [`DeletedTopic`] stands for.
pub type DeletedTopicView = (Seq<char>, u128);

/// Whether a topic of the image has this id.
pub open spec fn holds_id(image: MetadataImage, id: u128) -> bool {
    exists|name: Seq<char>| #[trigger] image.topics@.contains_key(name) && image.topics@[name].topic_id == id
}

/// The names of the topics of `previous` whose id `next` does not hold.
pub open spec fn gone_names(previous: MetadataImage, next: MetadataImage) -> Set<Seq<char>> {
    Set::new(|name: Seq<char>| previous.topics@.contains_key(name) && !holds_id(next, previous.topics@[name].topic_id))
}

/// Names with their ids.
pub open spec fn with_ids(names: Seq<Seq<char>>, image: MetadataImage) -> Seq<DeletedTopicView> {
    Seq::new(names.len(), |i: int| (names[i], image.topics@[names[i]].topic_id))
}

/// The id under which `name` was deleted: the first that the list gives it.
pub open spec fn deleted_id(topics: Seq<DeletedTopicView>, name: Seq<char>) -> Option<u128>
    decreases topics.len(),
{
    if topics.len() == 0 {
        None
    } else if topics[0].0 == name {
        Some(topics[0].1)
    } else {
        deleted_id(topics.skip(1), name)
    }
}

/// Whether a committed offset goes: its topic was deleted, and it was committed for that topic or
/// it is not known for which.
pub open spec fn committed_to_deleted(topics: Seq<DeletedTopicView>, k: PartitionKeyView, e: OffsetEntryView) -> bool {
    match deleted_id(topics, k.0) {
        Some(id) => match e.topic_id {
            Some(own) => own == id,
            None => true,
        },
        None => false,
    }
}

/// The offsets that go. One that an open transaction wrote goes by the topic's name.
pub open spec fn doomed(g: CoordinatorGroupView, topics: Seq<DeletedTopicView>) -> Set<PartitionKeyView> {
    Set::new(
        |k: PartitionKeyView|
            (g.committed_offsets.contains_key(k) && committed_to_deleted(topics, k, g.committed_offsets[k])) || (g.pending_keys().contains(k) && deleted_id(
                topics,
                k.0,
            ) is Some),
    )
}

struct SameId {
    id: u128,
}

impl Test<String, TopicRecord> for SameId {
    closed spec fn holds(&self, k: Seq<char>, v: TopicRecord) -> bool {
        v.topic_id == self.id
    }

    fn test(&self, k: &String, v: &TopicRecord) -> (r: bool) {
        v.topic_id == self.id
    }
}

struct Gone<'a> {
    next: &'a MetadataImage,
}

impl<'a> Test<String, TopicRecord> for Gone<'a> {
    closed spec fn holds(&self, k: Seq<char>, v: TopicRecord) -> bool {
        !holds_id(*self.next, v.topic_id)
    }

    fn test(&self, k: &String, v: &TopicRecord) -> (r: bool) {
        let same = SameId { id: v.topic_id };
        let held: bool = self.next.topics.any(&same);
        assert(held == holds_id(*self.next, v.topic_id)) by {
            if held {
                let name = choose|name: Seq<char>| #[trigger] self.next.topics@.contains_key(name) && same.holds(name, self.next.topics@[name]);
                assert(self.next.topics@[name].topic_id == v.topic_id);
            }
            if holds_id(*self.next, v.topic_id) {
                let name = choose|name: Seq<char>| #[trigger] self.next.topics@.contains_key(name) && self.next.topics@[name].topic_id == v.topic_id;
                assert(same.holds(name, self.next.topics@[name]));
            }
        }
        !held
    }
}

/// The topics of `previous` whose id `next` does not hold, by name. A topic that was deleted and
/// created again under its name between two images is a deleted topic.
pub fn deleted_topics(previous: &MetadataImage, next: &MetadataImage) -> (r: Vec<DeletedTopic>)
    ensures
        views(r@) == with_ids(listing::<String>(gone_names(*previous, *next)), *previous),
{
    let t = Gone { next };
    let names: Vec<String> = previous.topics.keys_where(&t);
    assert(passing::<String, TopicRecord, Gone>(previous.topics@, t) =~= gone_names(*previous, *next));
    let ghost all = views(names@);
    let mut out: Vec<DeletedTopic> = Vec::new();
    let mut i: usize = 0;
    while i < names.len()
        invariant
            0 <= i <= names@.len(),
            all == views(names@),
            forall|k: int| 0 <= k < all.len() ==> previous.topics@.contains_key(#[trigger] all[k]),
            out@.len() == i,
            forall|j: int| 0 <= j < i ==> (#[trigger] out@[j])@ == (all[j], previous.topics@[all[j]].topic_id),
        decreases names@.len() - i,
    {
        assert(all[i as int] == names@[i as int]@);
        let ghost before = out@;
        match previous.topics.get(&names[i]) {
            Some(topic) => {
                out.push((names[i].clone(), topic.topic_id));
            },
            None => {},
        }
        assert(out@ == before.push(out@[i as int]));
        i = i + 1;
    }
    assert(views(out@) =~= with_ids(all, *previous));
    out
}

/// The id under which `name` was deleted.
fn find_deleted(topics: &Vec<DeletedTopic>, name: &String) -> (r: Option<u128>)
    ensures
        r == deleted_id(views(topics@), name@),
{
    let ghost all = views(topics@);
    let mut i: usize = 0;
    assert(all.skip(0) =~= all);
    while i < topics.len()
        invariant
            0 <= i <= topics@.len(),
            all == views(topics@),
            deleted_id(all, name@) == deleted_id(all.skip(i as int), name@),
        decreases topics@.len() - i,
    {
        let ghost rest = all.skip(i as int);
        assert(rest[0] == topics@[i as int]@);
        assert(rest.skip(1) =~= all.skip(i + 1));
        if str_eq(topics[i].0.as_str(), name.as_str()) {
            return Some(topics[i].1);
        }
        i = i + 1;
    }
    None
}

struct CommittedToDeleted<'a> {
    topics: &'a Vec<DeletedTopic>,
}

impl<'a> Test<PartitionKey, OffsetEntry> for CommittedToDeleted<'a> {
    closed spec fn holds(&self, k: PartitionKeyView, v: OffsetEntryView) -> bool {
        committed_to_deleted(views(self.topics@), k, v)
    }

    fn test(&self, k: &PartitionKey, v: &OffsetEntry) -> (r: bool) {
        match find_deleted(self.topics, &k.0) {
            Some(id) => match v.topic_id {
                Some(own) => own == id,
                None => true,
            },
            None => false,
        }
    }
}

/// Offsets that wait for their tombstones to be appended.
#[derive(Debug, PartialEq, Eq)]
pub struct TopicDeletion {
    pub keys: Vec<PartitionKey>,
    pub batch: RecordBatch,
}

fn doomed_keys(group: &CoordinatorGroup, topics: &Vec<DeletedTopic>) -> (r: Vec<PartitionKey>)
    ensures
        views(r@) == listing::<PartitionKey>(doomed(group@, views(topics@))),
{
    let ghost g = group@;
    let ghost all = views(topics@);
    let t = CommittedToDeleted { topics };
    let committed: Vec<PartitionKey> = group.committed_offsets.keys_where(&t);
    let ghost of_committed = passing::<PartitionKey, OffsetEntry, CommittedToDeleted>(g.committed_offsets, t);
    let ghost listed = views(committed@);
    let mut set: OrdSet<PartitionKey> = OrdSet::new();
    let mut i: usize = 0;
    while i < committed.len()
        invariant
            0 <= i <= committed@.len(),
            listed == views(committed@),
            forall|k: PartitionKeyView| #[trigger] set@.contains(k) ==> listed.contains(k),
            forall|j: int| 0 <= j < i ==> set@.contains(#[trigger] listed[j]),
        decreases committed@.len() - i,
    {
        assert(listed[i as int] == committed@[i as int]@);
        set.insert(committed[i].dup());
        i = i + 1;
    }
    assert(set@ =~= of_committed) by {
        assert forall|k: PartitionKeyView| of_committed.contains(k) implies set@.contains(k) by {
            let j = choose|j: int| 0 <= j < listed.len() && listed[j] == k;
            assert(set@.contains(listed[j]));
        }
        assert forall|k: PartitionKeyView| set@.contains(k) implies of_committed.contains(k) by {
            let j = choose|j: int| 0 <= j < listed.len() && listed[j] == k;
            assert(of_committed.contains(listed[j]));
        }
    }
    let pending: OrdSet<PartitionKey> = group.pending_txn_keys();
    let n: usize = pending.len();
    let ghost before = set@;
    i = 0;
    while i < n
        invariant
            0 <= i <= n,
            n == pending.keys().len(),
            pending.listed(),
            all == views(topics@),
            forall|k: PartitionKeyView| #[trigger] set@.contains(k) ==> before.contains(k) || (pending@.contains(k) && deleted_id(all, k.0) is Some),
            forall|k: PartitionKeyView| before.contains(k) ==> #[trigger] set@.contains(k),
            forall|j: int| 0 <= j < i && deleted_id(all, (#[trigger] pending.keys()[j]).0) is Some ==> set@.contains(pending.keys()[j]),
        decreases n - i,
    {
        let key = pending.at(i);
        if find_deleted(topics, &key.0).is_some() {
            set.insert(key.dup());
        }
        i = i + 1;
    }
    assert(set@ =~= doomed(g, all)) by {
        assert forall|k: PartitionKeyView| doomed(g, all).contains(k) implies set@.contains(k) by {
            if !before.contains(k) {
                assert(pending@.contains(k));
                let j = choose|j: int| 0 <= j < n && pending.keys()[j] == k;
                assert(set@.contains(pending.keys()[j]));
            }
        }
    }
    list_of(&set)
}

/// Whether `r` is what a group is to append before the offsets of deleted topics may go.
pub open spec fn is_topic_deletion(g: CoordinatorGroupView, topics: Seq<DeletedTopicView>, now_ms: i64, r: Option<TopicDeletion>) -> bool {
    match r {
        Some(plan) => {
            &&& views(plan.keys@) == listing::<PartitionKey>(doomed(g, topics))
            &&& plan.keys@.len() > 0
            &&& plan.batch@ == RecordBatchView::of(g.group_id, offset_tombstones(views(plan.keys@)), now_ms)
        },
        None => listing::<PartitionKey>(doomed(g, topics)).len() == 0,
    }
}

/// What a group is to append before the offsets of deleted topics may go, if it has any.
pub fn plan_topic_deletion(group: &CoordinatorGroup, topics: &Vec<DeletedTopic>, now_ms: i64) -> (r: Option<TopicDeletion>)
    ensures
        is_topic_deletion(group@, views(topics@), now_ms, r),
{
    let keys: Vec<PartitionKey> = doomed_keys(group, topics);
    assert(views(keys@).len() == keys@.len());
    if keys.len() == 0 {
        return None;
    }
    let batch = tombstone_batch(&group.group_id, &keys, None, now_ms);
    Some(TopicDeletion { keys, batch })
}

/// What went once the batch was appended or not. A batch that was not appended changes nothing.
pub fn finish_topic_deletion(group: &mut CoordinatorGroup, plan: TopicDeletion, appended: bool) -> (r: Vec<PartitionKey>)
    ensures
        views(r@) == if appended {
            views(plan.keys@)
        } else {
            seq![]
        },
        final(group)@ == if appended {
            old(group)@.dropped(views(plan.keys@))
        } else {
            old(group)@
        },
{
    if !appended {
        let none: Vec<PartitionKey> = Vec::new();
        assert(views(none@) =~= seq![]);
        return none;
    }
    group.drop_offsets(&plan.keys);
    plan.keys
}

/// The deletions of which the image does not know the name again.
pub open spec fn still_gone(remembered: Seq<DeletedTopicView>, image: MetadataImage) -> Seq<DeletedTopicView>
    decreases remembered.len(),
{
    if remembered.len() == 0 {
        seq![]
    } else {
        let before = still_gone(remembered.drop_last(), image);
        if image.topics@.contains_key(remembered.last().0) {
            before
        } else {
            before.push(remembered.last())
        }
    }
}

/// Remembers deletions, for the groups that are loaded later.
pub fn remember_deletions(remembered: &mut Vec<DeletedTopic>, topics: &Vec<DeletedTopic>)
    ensures
        views(final(remembered)@) == views(old(remembered)@) + views(topics@),
{
    let ghost before = views(remembered@);
    let ghost all = views(topics@);
    let mut i: usize = 0;
    assert(before + all.take(0) =~= before);
    while i < topics.len()
        invariant
            0 <= i <= topics@.len(),
            all == views(topics@),
            views(remembered@) == before + all.take(i as int),
        decreases topics@.len() - i,
    {
        let ghost was = remembered@;
        remembered.push((topics[i].0.clone(), topics[i].1));
        assert(views(remembered@) =~= views(was).push(all[i as int]));
        assert(before + all.take(i + 1) =~= (before + all.take(i as int)).push(all[i as int]));
        i = i + 1;
    }
    assert(all.take(all.len() as int) =~= all);
}

/// Which remembered deletions apply to groups that were loaded just now. Offsets that are read back
/// do not tell which topic they were committed for, so a name that exists again keeps them.
pub fn applicable_deletions(remembered: &Vec<DeletedTopic>, image: &MetadataImage) -> (r: Vec<DeletedTopic>)
    ensures
        views(r@) == still_gone(views(remembered@), *image),
{
    let ghost all = views(remembered@);
    let mut out: Vec<DeletedTopic> = Vec::new();
    let mut i: usize = 0;
    assert(all.take(0) =~= seq![]);
    assert(views(out@) =~= seq![]);
    while i < remembered.len()
        invariant
            0 <= i <= remembered@.len(),
            all == views(remembered@),
            views(out@) == still_gone(all.take(i as int), *image),
        decreases remembered@.len() - i,
    {
        let ghost next = all.take(i + 1);
        assert(next.drop_last() =~= all.take(i as int));
        assert(next.last() == remembered@[i as int]@);
        if !image.topics.contains_key(&remembered[i].0) {
            let ghost before = out@;
            out.push((remembered[i].0.clone(), remembered[i].1));
            assert(views(out@) =~= views(before).push(next.last()));
        }
        i = i + 1;
    }
    assert(all.take(all.len() as int) =~= all);
    out
}

} // verus!
