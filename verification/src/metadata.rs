//! What the coordinator reads of the cluster metadata.

use crate::ordmap::{Dup, OrdMap};
use vstd::prelude::*;

verus! {

/// One topic as the metadata records it.
#[derive(Clone, Copy, Debug, PartialEq, Eq, Structural)]
pub struct TopicRecord {
    pub topic_id: u128,
    pub partitions: i32,
}

impl View for TopicRecord {
    type V = TopicRecord;

    open spec fn view(&self) -> TopicRecord {
        *self
    }
}

impl Dup for TopicRecord {
    fn dup(&self) -> (r: Self) {
        *self
    }
}

/// A snapshot of the metadata: the topics by name, and who leads each partition.
pub struct MetadataImage {
    pub topics: OrdMap<String, TopicRecord>,
    pub leaders: OrdMap<String, OrdMap<i32, u64>>,
}

impl MetadataImage {
    /// How many partitions `topic` has; none where it is not recorded.
    pub open spec fn partition_count(self, topic: Seq<char>) -> int {
        if self.topics@.contains_key(topic) {
            self.topics@[topic].partitions as int
        } else {
            0
        }
    }

    /// Who leads partition `p` of `topic`, where that is recorded.
    pub open spec fn leader_of(self, topic: Seq<char>, p: i32) -> Option<u64> {
        if self.leaders@.contains_key(topic) && self.leaders@[topic].contains_key(p) {
            Some(self.leaders@[topic][p])
        } else {
            None
        }
    }

    pub fn new() -> (r: Self)
        ensures
            r.topics@ == Map::<Seq<char>, TopicRecord>::empty(),
            r.leaders@ == Map::<Seq<char>, Map<i32, u64>>::empty(),
    {
        MetadataImage { topics: OrdMap::new(), leaders: OrdMap::new() }
    }

    /// The partition count of `topic`, zero where it is not recorded.
    pub fn topic_partition_count(&self, topic: &str) -> (n: i32)
        ensures
            n == self.partition_count(topic@),
    {
        match self.topics.get(&topic.to_owned()) {
            Some(t) => t.partitions,
            None => 0,
        }
    }

    /// The leader of one partition, where it is recorded.
    pub fn partition_leader(&self, topic: &str, partition: i32) -> (r: Option<u64>)
        ensures
            r == self.leader_of(topic@, partition),
    {
        match self.leaders.get(&topic.to_owned()) {
            Some(by_partition) => match by_partition.get(&partition) {
                Some(leader) => Some(*leader),
                None => None,
            },
            None => None,
        }
    }
}

} // verus!
