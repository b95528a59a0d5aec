//! How the state of groups is read back from the records that were written of it.

use crate::classic_state::{ClassicGroup, ClassicGroupView, GroupState as ClassicGroupState, Member, MemberView};
use crate::consumer_state::GroupState;
use crate::directory::GroupType;
use crate::group::{PartitionKey, PartitionKeyView};
use crate::heartbeat::{to_unsigned, unsigned};
use crate::ordmap::{Dup, OrdMap, views};
use crate::pending_records::{GroupSeed, GroupSeedView, bound};
use crate::records::{
    ClassicGroupMetadataValue, ClassicGroupMetadataView, ClassicMemberRecordView, GroupRecord, GroupRecordView, NextGenRecord, NextGenRecordView,
    OffsetEntry, OffsetEntryView,
};
use crate::share_streams::{
    ShareGroupSeed, ShareGroupSeedView, ShareRecord, ShareRecordView, StreamsGroupSeed, StreamsGroupSeedView, StreamsRecord, StreamsRecordView,
    apply_share_record, apply_streams_record, bind, epoch_or_first, share_seeds_with, streams_seeds_with,
};
use crate::text::dup_opt_str;
use vstd::prelude::*;

verus! {

/// A member as its record gives it: it supports no protocol, and was heard of just now.
pub open spec fn restored_member(m: ClassicMemberRecordView, now: u64) -> MemberView {
    MemberView {
        id: m.member_id,
        client_id: m.client_id,
        client_host: m.client_host,
        session_timeout: unsigned(m.session_timeout_ms),
        rebalance_timeout: unsigned(m.rebalance_timeout_ms),
        protocols: seq![],
        group_instance_id: m.group_instance_id,
        protocol_metadata: m.subscription,
        assignment: Some(m.assignment),
        last_heartbeat: now,
        is_new: false,
    }
}

/// The members that a list of records gives.
pub open spec fn restored_members(list: Seq<ClassicMemberRecordView>, now: u64) -> Map<Seq<char>, MemberView>
    decreases list.len(),
{
    if list.len() == 0 {
        Map::empty()
    } else {
        restored_members(list.drop_last(), now).insert(list.last().member_id, restored_member(list.last(), now))
    }
}

/// Who holds the static identities that a list of records gives.
pub open spec fn restored_pins(list: Seq<ClassicMemberRecordView>) -> Map<Seq<char>, Seq<char>>
    decreases list.len(),
{
    if list.len() == 0 {
        Map::empty()
    } else {
        match list.last().group_instance_id {
            Some(instance) => restored_pins(list.drop_last()).insert(instance, list.last().member_id),
            None => restored_pins(list.drop_last()),
        }
    }
}

/// A classic group once its record is read: its members are those of the record, and it is stable
/// unless there are none.
pub open spec fn restored_classic(g: ClassicGroupView, v: ClassicGroupMetadataView, now: u64) -> ClassicGroupView {
    let members = restored_members(v.members, now);
    ClassicGroupView {
        protocol_type: Some(v.protocol_type),
        generation_id: v.generation,
        leader_id: v.leader,
        protocol_name: v.protocol_name,
        members,
        static_members: restored_pins(v.members),
        state: if members == Map::<Seq<char>, MemberView>::empty() {
            ClassicGroupState::Empty
        } else {
            ClassicGroupState::Stable
        },
        ..g
    }
}

/// Brings a classic group's record into the group.
pub fn apply_group_metadata(g: &mut ClassicGroup, v: &ClassicGroupMetadataValue, now: u64)
    ensures
        final(g)@ == restored_classic(old(g)@, v@, now),
{
    let ghost before = g@;
    let ghost all = v@.members;
    g.protocol_type = Some(v.protocol_type.clone());
    g.generation_id = v.generation;
    g.leader_id = dup_opt_str(&v.leader);
    g.protocol_name = dup_opt_str(&v.protocol_name);
    let mut members: OrdMap<String, Member> = OrdMap::new();
    let mut pins: OrdMap<String, String> = OrdMap::new();
    let mut i: usize = 0;
    assert(all.take(0) =~= seq![]);
    while i < v.members.len()
        invariant
            0 <= i <= v.members@.len(),
            all == views(v.members@),
            members@ == restored_members(all.take(i as int), now),
            pins@ == restored_pins(all.take(i as int)),
        decreases v.members@.len() - i,
    {
        let m = &v.members[i];
        let ghost next = all.take(i + 1);
        assert(next.drop_last() =~= all.take(i as int));
        assert(next.last() == m@);
        let mut member = Member::new(
            m.member_id.clone(),
            m.client_id.clone(),
            m.client_host.clone(),
            to_unsigned(m.session_timeout_ms),
            to_unsigned(m.rebalance_timeout_ms),
            Vec::new(),
        ).with_instance_id(dup_opt_str(&m.group_instance_id));
        member.protocol_metadata = m.subscription.dup();
        member.assignment = Some(m.assignment.dup());
        member.last_heartbeat = now;
        assert(member@ =~= restored_member(m@, now));
        if let Some(instance) = &m.group_instance_id {
            pins.insert(instance.clone(), m.member_id.clone());
        }
        members.insert(m.member_id.clone(), member);
        i = i + 1;
    }
    assert(all.take(all.len() as int) =~= all);
    g.state = if members.is_empty() {
        ClassicGroupState::Empty
    } else {
        ClassicGroupState::Stable
    };
    g.members = members;
    g.static_members = pins;
    assert(g@ =~= restored_classic(before, v@, now));
}

impl GroupSeedView {
    /// The seed with what the record's key holds now.
    pub open spec fn with(self, r: NextGenRecordView) -> GroupSeedView {
        match r {
            NextGenRecordView::GroupMetadata { epoch } => GroupSeedView { group_epoch: epoch_or_first(epoch), ..self },
            NextGenRecordView::MemberMetadata { member_id, value } => GroupSeedView { members: bound(self.members, member_id, value), ..self },
            NextGenRecordView::TargetAssignmentMetadata { assignment_epoch } => GroupSeedView { target_epoch: epoch_or_first(assignment_epoch), ..self },
            NextGenRecordView::TargetAssignmentMember { member_id, value } => GroupSeedView {
                target_per_member: bound(self.target_per_member, member_id, value),
                ..self
            },
            NextGenRecordView::CurrentMemberAssignment { member_id, value } => GroupSeedView {
                current_per_member: bound(self.current_per_member, member_id, value),
                ..self
            },
        }
    }
}

impl GroupSeed {
    /// Takes up what the record's key holds now.
    pub fn take_up(&mut self, r: &NextGenRecord)
        ensures
            final(self)@ == old(self)@.with(r@),
    {
        match r {
            NextGenRecord::GroupMetadata { epoch } => {
                self.group_epoch = match epoch {
                    Some(e) => *e,
                    None => 0,
                };
            },
            NextGenRecord::MemberMetadata { member_id, value } => {
                bind(&mut self.members, member_id, value);
            },
            NextGenRecord::TargetAssignmentMetadata { assignment_epoch } => {
                self.target_epoch = match assignment_epoch {
                    Some(e) => *e,
                    None => 0,
                };
            },
            NextGenRecord::TargetAssignmentMember { member_id, value } => {
                bind(&mut self.target_per_member, member_id, value);
            },
            NextGenRecord::CurrentMemberAssignment { member_id, value } => {
                bind(&mut self.current_per_member, member_id, value);
            },
        }
    }
}

/// The seeds of consumer groups once a record of `id` is read: a tombstone of the group drops it, and
/// no other tombstone makes one.
pub open spec fn seeds_with(seeds: Map<Seq<char>, GroupSeedView>, id: Seq<char>, r: NextGenRecordView) -> Map<Seq<char>, GroupSeedView> {
    if r is GroupMetadata && GroupRecordView::NextGen(r).is_tombstone() {
        seeds.remove(id)
    } else if seeds.contains_key(id) {
        seeds.insert(id, seeds[id].with(r))
    } else if GroupRecordView::NextGen(r).is_tombstone() {
        seeds
    } else {
        seeds.insert(id, GroupSeedView::blank().with(r))
    }
}

/// Takes a record of a consumer group up into the seeds.
pub fn apply_next_gen_record(seeds: &mut OrdMap<String, GroupSeed>, id: &String, r: &NextGenRecord)
    ensures
        final(seeds)@ == seeds_with(old(seeds)@, id@, r@),
{
    let ghost before = seeds@;
    let found = seeds.remove(id);
    let gone: bool = match r {
        NextGenRecord::GroupMetadata { epoch } => epoch.is_none(),
        _ => false,
    };
    if gone {
        return;
    }
    let tombstone: bool = match r {
        NextGenRecord::GroupMetadata { epoch } => epoch.is_none(),
        NextGenRecord::MemberMetadata { value, .. } => value.is_none(),
        NextGenRecord::TargetAssignmentMetadata { assignment_epoch } => assignment_epoch.is_none(),
        NextGenRecord::TargetAssignmentMember { value, .. } => value.is_none(),
        NextGenRecord::CurrentMemberAssignment { value, .. } => value.is_none(),
    };
    match found {
        Some(mut seed) => {
            seed.take_up(r);
            seeds.insert(id.clone(), seed);
        },
        None => {
            if !tombstone {
                let mut seed = GroupSeed::blank();
                seed.take_up(r);
                seeds.insert(id.clone(), seed);
            }
        },
    }
    assert(seeds@ =~= seeds_with(before, id@, r@));
}

/// A record as it is read back, with the group that it is of.
#[derive(Debug, PartialEq, Eq)]
pub enum LoggedRecord {
    Group { group_id: String, record: GroupRecord },
    Share { group_id: String, record: ShareRecord },
    Streams { group_id: String, record: StreamsRecord },
}

#[verifier::ext_equal]
pub enum LoggedRecordView {
    Group { group_id: Seq<char>, record: GroupRecordView },
    Share { group_id: Seq<char>, record: ShareRecordView },
    Streams { group_id: Seq<char>, record: StreamsRecordView },
}

impl View for LoggedRecord {
    type V = LoggedRecordView;

    open spec fn view(&self) -> LoggedRecordView {
        match self {
            LoggedRecord::Group { group_id, record } => LoggedRecordView::Group { group_id: group_id@, record: record@ },
            LoggedRecord::Share { group_id, record } => LoggedRecordView::Share { group_id: group_id@, record: record@ },
            LoggedRecord::Streams { group_id, record } => LoggedRecordView::Streams { group_id: group_id@, record: record@ },
        }
    }
}

impl Dup for LoggedRecord {
    fn dup(&self) -> (r: Self) {
        match self {
            LoggedRecord::Group { group_id, record } => LoggedRecord::Group { group_id: group_id.clone(), record: record.dup() },
            LoggedRecord::Share { group_id, record } => LoggedRecord::Share { group_id: group_id.clone(), record: record.dup() },
            LoggedRecord::Streams { group_id, record } => LoggedRecord::Streams { group_id: group_id.clone(), record: record.dup() },
        }
    }
}

/// The offsets that open transactions wrote, by producer, each with where it did.
pub type OpenOffsets = OrdMap<i64, OrdMap<PartitionKey, i64>>;

/// What [`OpenOffsets`] stand for.
pub type OpenOffsetsView = Map<i64, Map<PartitionKeyView, i64>>;

/// What was read back.
#[derive(Debug, PartialEq, Eq)]
pub struct Replayed {
    pub classic: OrdMap<String, ClassicGroup>,
    pub committed: OrdMap<String, OrdMap<PartitionKey, OffsetEntry>>,
    /// When each classic group became empty, where that is known.
    pub empty_since: OrdMap<String, i64>,
    pub seeds: OrdMap<String, GroupSeed>,
    pub share_seeds: OrdMap<String, ShareGroupSeed>,
    pub streams_seeds: OrdMap<String, StreamsGroupSeed>,
    /// The ids that are bound to share or streams groups.
    pub types: OrdMap<String, GroupType>,
    /// By group, what open transactions wrote.
    pub pending_txn: OrdMap<String, OpenOffsets>,
}

#[verifier::ext_equal]
pub struct ReplayedView {
    pub classic: Map<Seq<char>, ClassicGroupView>,
    pub committed: Map<Seq<char>, Map<PartitionKeyView, OffsetEntryView>>,
    pub empty_since: Map<Seq<char>, i64>,
    pub seeds: Map<Seq<char>, GroupSeedView>,
    pub share_seeds: Map<Seq<char>, ShareGroupSeedView>,
    pub streams_seeds: Map<Seq<char>, StreamsGroupSeedView>,
    pub types: Map<Seq<char>, GroupType>,
    pub pending_txn: Map<Seq<char>, OpenOffsetsView>,
}

impl View for Replayed {
    type V = ReplayedView;

    open spec fn view(&self) -> ReplayedView {
        ReplayedView {
            classic: self.classic@,
            committed: self.committed@,
            empty_since: self.empty_since@,
            seeds: self.seeds@,
            share_seeds: self.share_seeds@,
            streams_seeds: self.streams_seeds@,
            types: self.types@,
            pending_txn: self.pending_txn@,
        }
    }
}

/// A classic group without members.
pub open spec fn fresh_classic(id: Seq<char>) -> ClassicGroupView {
    ClassicGroupView {
        group_id: id,
        state: ClassicGroupState::Empty,
        protocol_type: None,
        protocol_name: None,
        generation_id: 0,
        leader_id: None,
        members: Map::empty(),
        static_members: Map::empty(),
        joined_this_round: Set::empty(),
        pending_members: Map::empty(),
        rebalance_deadline: None,
        rebalance_from_empty: false,
        initial_join: None,
        new_member_added: false,
    }
}

/// The committed offsets of a group.
pub open spec fn offsets_in(m: Map<Seq<char>, Map<PartitionKeyView, OffsetEntryView>>, id: Seq<char>) -> Map<PartitionKeyView, OffsetEntryView> {
    if m.contains_key(id) {
        m[id]
    } else {
        Map::empty()
    }
}

impl ReplayedView {
    /// Nothing was read back.
    pub open spec fn nothing() -> ReplayedView {
        ReplayedView {
            classic: Map::empty(),
            committed: Map::empty(),
            empty_since: Map::empty(),
            seeds: Map::empty(),
            share_seeds: Map::empty(),
            streams_seeds: Map::empty(),
            types: Map::empty(),
            pending_txn: Map::empty(),
        }
    }

    /// The classic group `id`, or one without members where none was read back.
    pub open spec fn classic_or_fresh(self, id: Seq<char>) -> ClassicGroupView {
        if self.classic.contains_key(id) {
            self.classic[id]
        } else {
            fresh_classic(id)
        }
    }

    /// A committed offset was read. Which topic it was committed for is not in the record.
    pub open spec fn with_offset(self, id: Seq<char>, key: PartitionKeyView, e: OffsetEntryView) -> ReplayedView {
        ReplayedView {
            committed: self.committed.insert(id, offsets_in(self.committed, id).insert(key, OffsetEntryView { topic_id: None, ..e })),
            ..self
        }
    }

    /// The tombstone of a committed offset was read. A group that has none left is not among those
    /// with offsets.
    pub open spec fn without_offset(self, id: Seq<char>, key: PartitionKeyView) -> ReplayedView {
        let left = offsets_in(self.committed, id).remove(key);
        ReplayedView {
            committed: if left == Map::<PartitionKeyView, OffsetEntryView>::empty() {
                self.committed.remove(id)
            } else {
                self.committed.insert(id, left)
            },
            ..self
        }
    }

    /// A classic group was read. One without members tells when it became so.
    pub open spec fn with_classic(self, id: Seq<char>, v: ClassicGroupMetadataView, now: u64) -> ReplayedView {
        ReplayedView {
            classic: self.classic.insert(id, restored_classic(self.classic_or_fresh(id), v, now)),
            empty_since: if v.members.len() == 0 && v.current_state_timestamp_ms > 0 {
                self.empty_since.insert(id, v.current_state_timestamp_ms)
            } else {
                self.empty_since.remove(id)
            },
            ..self
        }
    }

    /// A record was read.
    pub open spec fn with(self, r: LoggedRecordView, now: u64) -> ReplayedView {
        match r {
            LoggedRecordView::Group { group_id, record } => match record {
                GroupRecordView::OffsetCommit { topic, partition, value } => match value {
                    Some(e) => self.with_offset(group_id, (topic, partition), e),
                    None => self.without_offset(group_id, (topic, partition)),
                },
                GroupRecordView::ClassicMetadata { value } => match value {
                    Some(v) => self.with_classic(group_id, v, now),
                    None => ReplayedView { classic: self.classic.remove(group_id), empty_since: self.empty_since.remove(group_id), ..self },
                },
                GroupRecordView::NextGen(r) => ReplayedView { seeds: seeds_with(self.seeds, group_id, r), ..self },
            },
            LoggedRecordView::Share { group_id, record } => ReplayedView {
                share_seeds: share_seeds_with(self.share_seeds, group_id, record),
                types: if !record.is_tombstone() {
                    self.types.insert(group_id, GroupType::Share)
                } else if record is GroupMetadata {
                    self.types.remove(group_id)
                } else {
                    self.types
                },
                ..self
            },
            LoggedRecordView::Streams { group_id, record } => ReplayedView {
                streams_seeds: streams_seeds_with(self.streams_seeds, group_id, record),
                types: if !record.is_tombstone() {
                    self.types.insert(group_id, GroupType::Streams)
                } else if record is GroupMetadata {
                    self.types.remove(group_id)
                } else {
                    self.types
                },
                ..self
            },
        }
    }

    /// What two partitions gave, the second over the first.
    pub open spec fn merged(self, other: ReplayedView) -> ReplayedView {
        ReplayedView {
            classic: self.classic.union_prefer_right(other.classic),
            committed: self.committed.union_prefer_right(other.committed),
            empty_since: self.empty_since.union_prefer_right(other.empty_since),
            seeds: self.seeds.union_prefer_right(other.seeds),
            share_seeds: self.share_seeds.union_prefer_right(other.share_seeds),
            streams_seeds: self.streams_seeds.union_prefer_right(other.streams_seeds),
            types: self.types.union_prefer_right(other.types),
            pending_txn: self.pending_txn.union_prefer_right(other.pending_txn),
        }
    }
}

impl Replayed {
    /// Nothing was read back.
    pub fn nothing() -> (r: Self)
        ensures
            r@ == ReplayedView::nothing(),
    {
        Replayed {
            classic: OrdMap::new(),
            committed: OrdMap::new(),
            empty_since: OrdMap::new(),
            seeds: OrdMap::new(),
            share_seeds: OrdMap::new(),
            streams_seeds: OrdMap::new(),
            types: OrdMap::new(),
            pending_txn: OrdMap::new(),
        }
    }

    /// Takes what another partition gave over this.
    pub fn merge(&mut self, other: Replayed)
        ensures
            final(self)@ == old(self)@.merged(other@),
    {
        self.classic.overlay(&other.classic);
        self.committed.overlay(&other.committed);
        self.empty_since.overlay(&other.empty_since);
        self.seeds.overlay(&other.seeds);
        self.share_seeds.overlay(&other.share_seeds);
        self.streams_seeds.overlay(&other.streams_seeds);
        self.types.overlay(&other.types);
        self.pending_txn.overlay(&other.pending_txn);
    }

    fn take_offset(&mut self, id: &String, topic: &String, partition: i32, value: &Option<OffsetEntry>)
        ensures
            final(self)@ == match value {
                Some(e) => old(self)@.with_offset(id@, (topic@, partition), e@),
                None => old(self)@.without_offset(id@, (topic@, partition)),
            },
    {
        let ghost before = self@;
        let mut offsets: OrdMap<PartitionKey, OffsetEntry> = match self.committed.remove(id) {
            Some(m) => m,
            None => OrdMap::new(),
        };
        assert(offsets@ =~= offsets_in(before.committed, id@));
        let key: PartitionKey = (topic.clone(), partition);
        match value {
            Some(e) => {
                let mut entry = e.dup();
                entry.topic_id = None;
                offsets.insert(key, entry);
                self.committed.insert(id.clone(), offsets);
                assert(self@.committed =~= before.with_offset(id@, (topic@, partition), e@).committed);
            },
            None => {
                let _ = offsets.remove(&key);
                if !offsets.is_empty() {
                    self.committed.insert(id.clone(), offsets);
                }
                assert(self@.committed =~= before.without_offset(id@, (topic@, partition)).committed);
            },
        }
    }

    fn take_classic(&mut self, id: &String, v: &ClassicGroupMetadataValue, now: u64)
        ensures
            final(self)@ == old(self)@.with_classic(id@, v@, now),
    {
        let ghost before = self@;
        if v.members.len() == 0 && v.current_state_timestamp_ms > 0 {
            self.empty_since.insert(id.clone(), v.current_state_timestamp_ms);
        } else {
            let _ = self.empty_since.remove(id);
        }
        let mut state = match self.classic.remove(id) {
            Some(g) => g,
            None => ClassicGroup::new(id.clone()),
        };
        assert(state@ =~= before.classic_or_fresh(id@));
        apply_group_metadata(&mut state, v, now);
        self.classic.insert(id.clone(), state);
        assert(self@ =~= before.with_classic(id@, v@, now));
    }

    /// Takes up a record.
    pub fn take_up(&mut self, r: &LoggedRecord, now: u64)
        ensures
            final(self)@ == old(self)@.with(r@, now),
    {
        let ghost before = self@;
        match r {
            LoggedRecord::Group { group_id, record } => match record {
                GroupRecord::OffsetCommit { topic, partition, value } => {
                    self.take_offset(group_id, topic, *partition, value);
                },
                GroupRecord::ClassicMetadata { value } => match value {
                    Some(v) => {
                        self.take_classic(group_id, v, now);
                    },
                    None => {
                        let _ = self.classic.remove(group_id);
                        let _ = self.empty_since.remove(group_id);
                    },
                },
                GroupRecord::NextGen(r) => {
                    apply_next_gen_record(&mut self.seeds, group_id, r);
                },
            },
            LoggedRecord::Share { group_id, record } => {
                apply_share_record(&mut self.share_seeds, group_id, record);
                if !record.is_tombstone() {
                    self.types.insert(group_id.clone(), GroupType::Share);
                } else if let ShareRecord::GroupMetadata { .. } = record {
                    let _ = self.types.remove(group_id);
                }
            },
            LoggedRecord::Streams { group_id, record } => {
                apply_streams_record(&mut self.streams_seeds, group_id, record);
                if !record.is_tombstone() {
                    self.types.insert(group_id.clone(), GroupType::Streams);
                } else if let StreamsRecord::GroupMetadata { .. } = record {
                    let _ = self.types.remove(group_id);
                }
            },
        }
    }
}

} // verus!
