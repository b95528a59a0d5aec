//! The records of share and streams groups, and the seeds that they give.

use crate::ordmap::{Dup, OrdMap, views};
use crate::partitions::{Partitions, PartitionsView};
use crate::pending_records::bound;
use crate::records::{dup_list, dup_opt, opt_view};
use crate::text::{dup_opt_str, dup_strs, opt_str};
use vstd::prelude::*;

verus! {

/// Binds a key to a value, or to nothing.
pub fn bind<T: Dup>(m: &mut OrdMap<String, T>, id: &String, value: &Option<T>)
    ensures
        final(m)@ == bound(old(m)@, id@, opt_view(*value)),
{
    match value {
        Some(v) => {
            m.insert(id.clone(), v.dup());
        },
        None => {
            let _ = m.remove(id);
        },
    }
}

/// A member of a share group: who it is and what it subscribes to.
#[derive(Debug, PartialEq, Eq)]
pub struct ShareMemberMetadata {
    pub rack_id: Option<String>,
    pub client_id: String,
    pub client_host: String,
    pub subscribed_topic_names: Vec<String>,
}

#[verifier::ext_equal]
pub struct ShareMemberMetadataView {
    pub rack_id: Option<Seq<char>>,
    pub client_id: Seq<char>,
    pub client_host: Seq<char>,
    pub subscribed_topic_names: Seq<Seq<char>>,
}

impl View for ShareMemberMetadata {
    type V = ShareMemberMetadataView;

    open spec fn view(&self) -> ShareMemberMetadataView {
        ShareMemberMetadataView {
            rack_id: opt_str(self.rack_id),
            client_id: self.client_id@,
            client_host: self.client_host@,
            subscribed_topic_names: views(self.subscribed_topic_names@),
        }
    }
}

impl Dup for ShareMemberMetadata {
    fn dup(&self) -> (r: Self) {
        ShareMemberMetadata {
            rack_id: dup_opt_str(&self.rack_id),
            client_id: self.client_id.clone(),
            client_host: self.client_host.clone(),
            subscribed_topic_names: dup_strs(&self.subscribed_topic_names),
        }
    }
}

/// What a member of a share group holds.
#[derive(Debug, PartialEq, Eq)]
pub struct ShareCurrentAssignment {
    pub member_epoch: i32,
    pub assigned_partitions: Partitions,
}

#[verifier::ext_equal]
pub struct ShareCurrentAssignmentView {
    pub member_epoch: i32,
    pub assigned_partitions: PartitionsView,
}

impl View for ShareCurrentAssignment {
    type V = ShareCurrentAssignmentView;

    open spec fn view(&self) -> ShareCurrentAssignmentView {
        ShareCurrentAssignmentView { member_epoch: self.member_epoch, assigned_partitions: self.assigned_partitions@ }
    }
}

impl Dup for ShareCurrentAssignment {
    fn dup(&self) -> (r: Self) {
        ShareCurrentAssignment { member_epoch: self.member_epoch, assigned_partitions: self.assigned_partitions.dup() }
    }
}

/// A record of a share group; without a value, a tombstone.
#[derive(Debug, PartialEq, Eq)]
pub enum ShareRecord {
    GroupMetadata { epoch: Option<i32> },
    MemberMetadata { member_id: String, value: Option<ShareMemberMetadata> },
    TargetAssignmentMetadata { assignment_epoch: Option<i32> },
    TargetAssignmentMember { member_id: String, value: Option<Partitions> },
    CurrentMemberAssignment { member_id: String, value: Option<ShareCurrentAssignment> },
    /// Which partitions have share state, as it is kept.
    StatePartitionMetadata { value: Option<Vec<u8>> },
}

#[verifier::ext_equal]
pub enum ShareRecordView {
    GroupMetadata { epoch: Option<i32> },
    MemberMetadata { member_id: Seq<char>, value: Option<ShareMemberMetadataView> },
    TargetAssignmentMetadata { assignment_epoch: Option<i32> },
    TargetAssignmentMember { member_id: Seq<char>, value: Option<PartitionsView> },
    CurrentMemberAssignment { member_id: Seq<char>, value: Option<ShareCurrentAssignmentView> },
    StatePartitionMetadata { value: Option<Seq<u8>> },
}

impl View for ShareRecord {
    type V = ShareRecordView;

    open spec fn view(&self) -> ShareRecordView {
        match self {
            ShareRecord::GroupMetadata { epoch } => ShareRecordView::GroupMetadata { epoch: *epoch },
            ShareRecord::MemberMetadata { member_id, value } => ShareRecordView::MemberMetadata { member_id: member_id@, value: opt_view(*value) },
            ShareRecord::TargetAssignmentMetadata { assignment_epoch } => ShareRecordView::TargetAssignmentMetadata { assignment_epoch: *assignment_epoch },
            ShareRecord::TargetAssignmentMember { member_id, value } => ShareRecordView::TargetAssignmentMember {
                member_id: member_id@,
                value: opt_view(*value),
            },
            ShareRecord::CurrentMemberAssignment { member_id, value } => ShareRecordView::CurrentMemberAssignment {
                member_id: member_id@,
                value: opt_view(*value),
            },
            ShareRecord::StatePartitionMetadata { value } => ShareRecordView::StatePartitionMetadata { value: opt_view(*value) },
        }
    }
}

impl Dup for ShareRecord {
    fn dup(&self) -> (r: Self) {
        match self {
            ShareRecord::GroupMetadata { epoch } => ShareRecord::GroupMetadata { epoch: *epoch },
            ShareRecord::MemberMetadata { member_id, value } => ShareRecord::MemberMetadata { member_id: member_id.clone(), value: dup_opt(value) },
            ShareRecord::TargetAssignmentMetadata { assignment_epoch } => ShareRecord::TargetAssignmentMetadata { assignment_epoch: *assignment_epoch },
            ShareRecord::TargetAssignmentMember { member_id, value } => ShareRecord::TargetAssignmentMember {
                member_id: member_id.clone(),
                value: dup_opt(value),
            },
            ShareRecord::CurrentMemberAssignment { member_id, value } => ShareRecord::CurrentMemberAssignment {
                member_id: member_id.clone(),
                value: dup_opt(value),
            },
            ShareRecord::StatePartitionMetadata { value } => ShareRecord::StatePartitionMetadata { value: dup_opt(value) },
        }
    }
}

impl ShareRecordView {
    /// Whether the record is a tombstone.
    pub open spec fn is_tombstone(self) -> bool {
        match self {
            ShareRecordView::GroupMetadata { epoch } => epoch is None,
            ShareRecordView::MemberMetadata { value, .. } => value is None,
            ShareRecordView::TargetAssignmentMetadata { assignment_epoch } => assignment_epoch is None,
            ShareRecordView::TargetAssignmentMember { value, .. } => value is None,
            ShareRecordView::CurrentMemberAssignment { value, .. } => value is None,
            ShareRecordView::StatePartitionMetadata { value } => value is None,
        }
    }
}

impl ShareRecord {
    /// Whether the record is a tombstone.
    pub fn is_tombstone(&self) -> (r: bool)
        ensures
            r == self@.is_tombstone(),
    {
        match self {
            ShareRecord::GroupMetadata { epoch } => epoch.is_none(),
            ShareRecord::MemberMetadata { value, .. } => value.is_none(),
            ShareRecord::TargetAssignmentMetadata { assignment_epoch } => assignment_epoch.is_none(),
            ShareRecord::TargetAssignmentMember { value, .. } => value.is_none(),
            ShareRecord::CurrentMemberAssignment { value, .. } => value.is_none(),
            ShareRecord::StatePartitionMetadata { value } => value.is_none(),
        }
    }
}

/// The state of a share group that its records give.
#[derive(Debug, PartialEq, Eq)]
pub struct ShareGroupSeed {
    pub group_epoch: i32,
    pub target_epoch: i32,
    pub members: OrdMap<String, ShareMemberMetadata>,
    pub target_per_member: OrdMap<String, Partitions>,
    pub current_per_member: OrdMap<String, ShareCurrentAssignment>,
    pub state_partitions: Option<Vec<u8>>,
}

#[verifier::ext_equal]
pub struct ShareGroupSeedView {
    pub group_epoch: i32,
    pub target_epoch: i32,
    pub members: Map<Seq<char>, ShareMemberMetadataView>,
    pub target_per_member: Map<Seq<char>, PartitionsView>,
    pub current_per_member: Map<Seq<char>, ShareCurrentAssignmentView>,
    pub state_partitions: Option<Seq<u8>>,
}

impl View for ShareGroupSeed {
    type V = ShareGroupSeedView;

    open spec fn view(&self) -> ShareGroupSeedView {
        ShareGroupSeedView {
            group_epoch: self.group_epoch,
            target_epoch: self.target_epoch,
            members: self.members@,
            target_per_member: self.target_per_member@,
            current_per_member: self.current_per_member@,
            state_partitions: opt_view(self.state_partitions),
        }
    }
}

impl Dup for ShareGroupSeed {
    fn dup(&self) -> (r: Self) {
        ShareGroupSeed {
            group_epoch: self.group_epoch,
            target_epoch: self.target_epoch,
            members: self.members.dup(),
            target_per_member: self.target_per_member.dup(),
            current_per_member: self.current_per_member.dup(),
            state_partitions: dup_opt(&self.state_partitions),
        }
    }
}

/// An epoch, or the first where the key holds none.
pub open spec fn epoch_or_first(epoch: Option<i32>) -> i32 {
    match epoch {
        Some(e) => e,
        None => 0,
    }
}

fn or_first(epoch: Option<i32>) -> (r: i32)
    ensures
        r == epoch_or_first(epoch),
{
    match epoch {
        Some(e) => e,
        None => 0,
    }
}

impl ShareGroupSeedView {
    /// The seed of a group of which no record is known.
    pub open spec fn blank() -> ShareGroupSeedView {
        ShareGroupSeedView {
            group_epoch: 0,
            target_epoch: 0,
            members: Map::empty(),
            target_per_member: Map::empty(),
            current_per_member: Map::empty(),
            state_partitions: None,
        }
    }

    /// The seed with what the record's key holds now.
    pub open spec fn with(self, r: ShareRecordView) -> ShareGroupSeedView {
        match r {
            ShareRecordView::GroupMetadata { epoch } => ShareGroupSeedView { group_epoch: epoch_or_first(epoch), ..self },
            ShareRecordView::MemberMetadata { member_id, value } => ShareGroupSeedView { members: bound(self.members, member_id, value), ..self },
            ShareRecordView::TargetAssignmentMetadata { assignment_epoch } => ShareGroupSeedView { target_epoch: epoch_or_first(assignment_epoch), ..self },
            ShareRecordView::TargetAssignmentMember { member_id, value } => ShareGroupSeedView {
                target_per_member: bound(self.target_per_member, member_id, value),
                ..self
            },
            ShareRecordView::CurrentMemberAssignment { member_id, value } => ShareGroupSeedView {
                current_per_member: bound(self.current_per_member, member_id, value),
                ..self
            },
            ShareRecordView::StatePartitionMetadata { value } => ShareGroupSeedView { state_partitions: value, ..self },
        }
    }
}

impl ShareGroupSeed {
    /// The seed of a group of which no record is known.
    pub fn blank() -> (r: Self)
        ensures
            r@ == ShareGroupSeedView::blank(),
    {
        ShareGroupSeed {
            group_epoch: 0,
            target_epoch: 0,
            members: OrdMap::new(),
            target_per_member: OrdMap::new(),
            current_per_member: OrdMap::new(),
            state_partitions: None,
        }
    }

    /// Takes up what the record's key holds now.
    pub fn take_up(&mut self, r: &ShareRecord)
        ensures
            final(self)@ == old(self)@.with(r@),
    {
        match r {
            ShareRecord::GroupMetadata { epoch } => {
                self.group_epoch = or_first(*epoch);
            },
            ShareRecord::MemberMetadata { member_id, value } => {
                bind(&mut self.members, member_id, value);
            },
            ShareRecord::TargetAssignmentMetadata { assignment_epoch } => {
                self.target_epoch = or_first(*assignment_epoch);
            },
            ShareRecord::TargetAssignmentMember { member_id, value } => {
                bind(&mut self.target_per_member, member_id, value);
            },
            ShareRecord::CurrentMemberAssignment { member_id, value } => {
                bind(&mut self.current_per_member, member_id, value);
            },
            ShareRecord::StatePartitionMetadata { value } => {
                self.state_partitions = dup_opt(value);
            },
        }
    }
}

/// The seeds of share groups once a record of `id` is read: a tombstone of the group drops it, and
/// no other tombstone makes one.
pub open spec fn share_seeds_with(seeds: Map<Seq<char>, ShareGroupSeedView>, id: Seq<char>, r: ShareRecordView) -> Map<Seq<char>, ShareGroupSeedView> {
    if r is GroupMetadata && r.is_tombstone() {
        seeds.remove(id)
    } else if seeds.contains_key(id) {
        seeds.insert(id, seeds[id].with(r))
    } else if r.is_tombstone() {
        seeds
    } else {
        seeds.insert(id, ShareGroupSeedView::blank().with(r))
    }
}

/// Takes a record of a share group up into the seeds.
pub fn apply_share_record(seeds: &mut OrdMap<String, ShareGroupSeed>, id: &String, r: &ShareRecord)
    ensures
        final(seeds)@ == share_seeds_with(old(seeds)@, id@, r@),
{
    let ghost before = seeds@;
    let found = seeds.remove(id);
    if let ShareRecord::GroupMetadata { epoch } = r {
        if epoch.is_none() {
            return;
        }
    }
    match found {
        Some(mut seed) => {
            seed.take_up(r);
            seeds.insert(id.clone(), seed);
        },
        None => {
            if !r.is_tombstone() {
                let mut seed = ShareGroupSeed::blank();
                seed.take_up(r);
                seeds.insert(id.clone(), seed);
            }
        },
    }
    assert(seeds@ =~= share_seeds_with(before, id@, r@));
}

/// Where a streams client can be reached.
#[derive(Debug, PartialEq, Eq)]
pub struct Endpoint {
    pub host: String,
    pub port: i32,
}

impl View for Endpoint {
    type V = (Seq<char>, i32);

    open spec fn view(&self) -> (Seq<char>, i32) {
        (self.host@, self.port)
    }
}

impl Dup for Endpoint {
    fn dup(&self) -> (r: Self) {
        Endpoint { host: self.host.clone(), port: self.port }
    }
}

/// A tag of a streams client.
#[derive(Debug, PartialEq, Eq)]
pub struct ClientTag {
    pub key: String,
    pub value: String,
}

impl View for ClientTag {
    type V = (Seq<char>, Seq<char>);

    open spec fn view(&self) -> (Seq<char>, Seq<char>) {
        (self.key@, self.value@)
    }
}

impl Dup for ClientTag {
    fn dup(&self) -> (r: Self) {
        ClientTag { key: self.key.clone(), value: self.value.clone() }
    }
}

/// A member of a streams group.
#[derive(Debug, PartialEq, Eq)]
pub struct StreamsMemberMetadata {
    pub instance_id: Option<String>,
    pub rack_id: Option<String>,
    pub client_id: String,
    pub client_host: String,
    pub process_id: String,
    pub user_endpoint: Option<Endpoint>,
    pub client_tags: Vec<ClientTag>,
    pub rebalance_timeout_ms: i32,
    pub topology_epoch: i32,
}

#[verifier::ext_equal]
pub struct StreamsMemberMetadataView {
    pub instance_id: Option<Seq<char>>,
    pub rack_id: Option<Seq<char>>,
    pub client_id: Seq<char>,
    pub client_host: Seq<char>,
    pub process_id: Seq<char>,
    pub user_endpoint: Option<(Seq<char>, i32)>,
    pub client_tags: Seq<(Seq<char>, Seq<char>)>,
    pub rebalance_timeout_ms: i32,
    pub topology_epoch: i32,
}

impl View for StreamsMemberMetadata {
    type V = StreamsMemberMetadataView;

    open spec fn view(&self) -> StreamsMemberMetadataView {
        StreamsMemberMetadataView {
            instance_id: opt_str(self.instance_id),
            rack_id: opt_str(self.rack_id),
            client_id: self.client_id@,
            client_host: self.client_host@,
            process_id: self.process_id@,
            user_endpoint: opt_view(self.user_endpoint),
            client_tags: views(self.client_tags@),
            rebalance_timeout_ms: self.rebalance_timeout_ms,
            topology_epoch: self.topology_epoch,
        }
    }
}

impl Dup for StreamsMemberMetadata {
    fn dup(&self) -> (r: Self) {
        StreamsMemberMetadata {
            instance_id: dup_opt_str(&self.instance_id),
            rack_id: dup_opt_str(&self.rack_id),
            client_id: self.client_id.clone(),
            client_host: self.client_host.clone(),
            process_id: self.process_id.clone(),
            user_endpoint: dup_opt(&self.user_endpoint),
            client_tags: dup_list(&self.client_tags),
            rebalance_timeout_ms: self.rebalance_timeout_ms,
            topology_epoch: self.topology_epoch,
        }
    }
}

/// Tasks: partitions by subtopology.
pub type Tasks = OrdMap<String, Vec<i32>>;

/// What [`Tasks`] stand for.
pub type TasksView = Map<Seq<char>, Seq<i32>>;

/// What a member of a streams group is to run.
#[derive(Debug, PartialEq, Eq)]
pub struct StreamsTarget {
    pub active: Tasks,
    pub standby: Tasks,
    pub warmup: Tasks,
}

#[verifier::ext_equal]
pub struct StreamsTargetView {
    pub active: TasksView,
    pub standby: TasksView,
    pub warmup: TasksView,
}

impl View for StreamsTarget {
    type V = StreamsTargetView;

    open spec fn view(&self) -> StreamsTargetView {
        StreamsTargetView { active: self.active@, standby: self.standby@, warmup: self.warmup@ }
    }
}

impl Dup for StreamsTarget {
    fn dup(&self) -> (r: Self) {
        StreamsTarget { active: self.active.dup(), standby: self.standby.dup(), warmup: self.warmup.dup() }
    }
}

/// What a member of a streams group runs.
#[derive(Debug, PartialEq, Eq)]
pub struct StreamsCurrentAssignment {
    pub member_epoch: i32,
    pub previous_member_epoch: i32,
    pub state: i8,
    pub active: Tasks,
    pub standby: Tasks,
    pub warmup: Tasks,
    pub active_pending_revocation: Tasks,
}

#[verifier::ext_equal]
pub struct StreamsCurrentAssignmentView {
    pub member_epoch: i32,
    pub previous_member_epoch: i32,
    pub state: i8,
    pub active: TasksView,
    pub standby: TasksView,
    pub warmup: TasksView,
    pub active_pending_revocation: TasksView,
}

impl View for StreamsCurrentAssignment {
    type V = StreamsCurrentAssignmentView;

    open spec fn view(&self) -> StreamsCurrentAssignmentView {
        StreamsCurrentAssignmentView {
            member_epoch: self.member_epoch,
            previous_member_epoch: self.previous_member_epoch,
            state: self.state,
            active: self.active@,
            standby: self.standby@,
            warmup: self.warmup@,
            active_pending_revocation: self.active_pending_revocation@,
        }
    }
}

impl Dup for StreamsCurrentAssignment {
    fn dup(&self) -> (r: Self) {
        StreamsCurrentAssignment {
            member_epoch: self.member_epoch,
            previous_member_epoch: self.previous_member_epoch,
            state: self.state,
            active: self.active.dup(),
            standby: self.standby.dup(),
            warmup: self.warmup.dup(),
            active_pending_revocation: self.active_pending_revocation.dup(),
        }
    }
}

/// A record of a streams group; without a value, a tombstone.
#[derive(Debug, PartialEq, Eq)]
pub enum StreamsRecord {
    GroupMetadata { epoch: Option<i32> },
    MemberMetadata { member_id: String, value: Option<StreamsMemberMetadata> },
    /// The topology, as it is kept.
    Topology { value: Option<Vec<u8>> },
    /// The partitions of the topology's topics, as they are kept.
    PartitionMetadata { value: Option<Vec<u8>> },
    TargetAssignmentMetadata { assignment_epoch: Option<i32> },
    TargetAssignmentMember { member_id: String, value: Option<StreamsTarget> },
    CurrentMemberAssignment { member_id: String, value: Option<StreamsCurrentAssignment> },
}

#[verifier::ext_equal]
pub enum StreamsRecordView {
    GroupMetadata { epoch: Option<i32> },
    MemberMetadata { member_id: Seq<char>, value: Option<StreamsMemberMetadataView> },
    Topology { value: Option<Seq<u8>> },
    PartitionMetadata { value: Option<Seq<u8>> },
    TargetAssignmentMetadata { assignment_epoch: Option<i32> },
    TargetAssignmentMember { member_id: Seq<char>, value: Option<StreamsTargetView> },
    CurrentMemberAssignment { member_id: Seq<char>, value: Option<StreamsCurrentAssignmentView> },
}

impl View for StreamsRecord {
    type V = StreamsRecordView;

    open spec fn view(&self) -> StreamsRecordView {
        match self {
            StreamsRecord::GroupMetadata { epoch } => StreamsRecordView::GroupMetadata { epoch: *epoch },
            StreamsRecord::MemberMetadata { member_id, value } => StreamsRecordView::MemberMetadata { member_id: member_id@, value: opt_view(*value) },
            StreamsRecord::Topology { value } => StreamsRecordView::Topology { value: opt_view(*value) },
            StreamsRecord::PartitionMetadata { value } => StreamsRecordView::PartitionMetadata { value: opt_view(*value) },
            StreamsRecord::TargetAssignmentMetadata { assignment_epoch } => StreamsRecordView::TargetAssignmentMetadata {
                assignment_epoch: *assignment_epoch,
            },
            StreamsRecord::TargetAssignmentMember { member_id, value } => StreamsRecordView::TargetAssignmentMember {
                member_id: member_id@,
                value: opt_view(*value),
            },
            StreamsRecord::CurrentMemberAssignment { member_id, value } => StreamsRecordView::CurrentMemberAssignment {
                member_id: member_id@,
                value: opt_view(*value),
            },
        }
    }
}

impl Dup for StreamsRecord {
    fn dup(&self) -> (r: Self) {
        match self {
            StreamsRecord::GroupMetadata { epoch } => StreamsRecord::GroupMetadata { epoch: *epoch },
            StreamsRecord::MemberMetadata { member_id, value } => StreamsRecord::MemberMetadata { member_id: member_id.clone(), value: dup_opt(value) },
            StreamsRecord::Topology { value } => StreamsRecord::Topology { value: dup_opt(value) },
            StreamsRecord::PartitionMetadata { value } => StreamsRecord::PartitionMetadata { value: dup_opt(value) },
            StreamsRecord::TargetAssignmentMetadata { assignment_epoch } => StreamsRecord::TargetAssignmentMetadata { assignment_epoch: *assignment_epoch },
            StreamsRecord::TargetAssignmentMember { member_id, value } => StreamsRecord::TargetAssignmentMember {
                member_id: member_id.clone(),
                value: dup_opt(value),
            },
            StreamsRecord::CurrentMemberAssignment { member_id, value } => StreamsRecord::CurrentMemberAssignment {
                member_id: member_id.clone(),
                value: dup_opt(value),
            },
        }
    }
}

impl StreamsRecordView {
    /// Whether the record is a tombstone.
    pub open spec fn is_tombstone(self) -> bool {
        match self {
            StreamsRecordView::GroupMetadata { epoch } => epoch is None,
            StreamsRecordView::MemberMetadata { value, .. } => value is None,
            StreamsRecordView::Topology { value } => value is None,
            StreamsRecordView::PartitionMetadata { value } => value is None,
            StreamsRecordView::TargetAssignmentMetadata { assignment_epoch } => assignment_epoch is None,
            StreamsRecordView::TargetAssignmentMember { value, .. } => value is None,
            StreamsRecordView::CurrentMemberAssignment { value, .. } => value is None,
        }
    }
}

impl StreamsRecord {
    /// Whether the record is a tombstone.
    pub fn is_tombstone(&self) -> (r: bool)
        ensures
            r == self@.is_tombstone(),
    {
        match self {
            StreamsRecord::GroupMetadata { epoch } => epoch.is_none(),
            StreamsRecord::MemberMetadata { value, .. } => value.is_none(),
            StreamsRecord::Topology { value } => value.is_none(),
            StreamsRecord::PartitionMetadata { value } => value.is_none(),
            StreamsRecord::TargetAssignmentMetadata { assignment_epoch } => assignment_epoch.is_none(),
            StreamsRecord::TargetAssignmentMember { value, .. } => value.is_none(),
            StreamsRecord::CurrentMemberAssignment { value, .. } => value.is_none(),
        }
    }
}

/// The state of a streams group that its records give.
#[derive(Debug, PartialEq, Eq)]
pub struct StreamsGroupSeed {
    pub group_epoch: i32,
    pub target_epoch: i32,
    pub members: OrdMap<String, StreamsMemberMetadata>,
    pub topology: Option<Vec<u8>>,
    pub partition_metadata: Option<Vec<u8>>,
    pub target_per_member: OrdMap<String, StreamsTarget>,
    pub current_per_member: OrdMap<String, StreamsCurrentAssignment>,
}

#[verifier::ext_equal]
pub struct StreamsGroupSeedView {
    pub group_epoch: i32,
    pub target_epoch: i32,
    pub members: Map<Seq<char>, StreamsMemberMetadataView>,
    pub topology: Option<Seq<u8>>,
    pub partition_metadata: Option<Seq<u8>>,
    pub target_per_member: Map<Seq<char>, StreamsTargetView>,
    pub current_per_member: Map<Seq<char>, StreamsCurrentAssignmentView>,
}

impl View for StreamsGroupSeed {
    type V = StreamsGroupSeedView;

    open spec fn view(&self) -> StreamsGroupSeedView {
        StreamsGroupSeedView {
            group_epoch: self.group_epoch,
            target_epoch: self.target_epoch,
            members: self.members@,
            topology: opt_view(self.topology),
            partition_metadata: opt_view(self.partition_metadata),
            target_per_member: self.target_per_member@,
            current_per_member: self.current_per_member@,
        }
    }
}

impl Dup for StreamsGroupSeed {
    fn dup(&self) -> (r: Self) {
        StreamsGroupSeed {
            group_epoch: self.group_epoch,
            target_epoch: self.target_epoch,
            members: self.members.dup(),
            topology: dup_opt(&self.topology),
            partition_metadata: dup_opt(&self.partition_metadata),
            target_per_member: self.target_per_member.dup(),
            current_per_member: self.current_per_member.dup(),
        }
    }
}

impl StreamsGroupSeedView {
    /// The seed of a group of which no record is known.
    pub open spec fn blank() -> StreamsGroupSeedView {
        StreamsGroupSeedView {
            group_epoch: 0,
            target_epoch: 0,
            members: Map::empty(),
            topology: None,
            partition_metadata: None,
            target_per_member: Map::empty(),
            current_per_member: Map::empty(),
        }
    }

    /// The seed with what the record's key holds now.
    pub open spec fn with(self, r: StreamsRecordView) -> StreamsGroupSeedView {
        match r {
            StreamsRecordView::GroupMetadata { epoch } => StreamsGroupSeedView { group_epoch: epoch_or_first(epoch), ..self },
            StreamsRecordView::MemberMetadata { member_id, value } => StreamsGroupSeedView { members: bound(self.members, member_id, value), ..self },
            StreamsRecordView::Topology { value } => StreamsGroupSeedView { topology: value, ..self },
            StreamsRecordView::PartitionMetadata { value } => StreamsGroupSeedView { partition_metadata: value, ..self },
            StreamsRecordView::TargetAssignmentMetadata { assignment_epoch } => StreamsGroupSeedView {
                target_epoch: epoch_or_first(assignment_epoch),
                ..self
            },
            StreamsRecordView::TargetAssignmentMember { member_id, value } => StreamsGroupSeedView {
                target_per_member: bound(self.target_per_member, member_id, value),
                ..self
            },
            StreamsRecordView::CurrentMemberAssignment { member_id, value } => StreamsGroupSeedView {
                current_per_member: bound(self.current_per_member, member_id, value),
                ..self
            },
        }
    }
}

impl StreamsGroupSeed {
    /// The seed of a group of which no record is known.
    pub fn blank() -> (r: Self)
        ensures
            r@ == StreamsGroupSeedView::blank(),
    {
        StreamsGroupSeed {
            group_epoch: 0,
            target_epoch: 0,
            members: OrdMap::new(),
            topology: None,
            partition_metadata: None,
            target_per_member: OrdMap::new(),
            current_per_member: OrdMap::new(),
        }
    }

    /// Takes up what the record's key holds now.
    pub fn take_up(&mut self, r: &StreamsRecord)
        ensures
            final(self)@ == old(self)@.with(r@),
    {
        match r {
            StreamsRecord::GroupMetadata { epoch } => {
                self.group_epoch = or_first(*epoch);
            },
            StreamsRecord::MemberMetadata { member_id, value } => {
                bind(&mut self.members, member_id, value);
            },
            StreamsRecord::Topology { value } => {
                self.topology = dup_opt(value);
            },
            StreamsRecord::PartitionMetadata { value } => {
                self.partition_metadata = dup_opt(value);
            },
            StreamsRecord::TargetAssignmentMetadata { assignment_epoch } => {
                self.target_epoch = or_first(*assignment_epoch);
            },
            StreamsRecord::TargetAssignmentMember { member_id, value } => {
                bind(&mut self.target_per_member, member_id, value);
            },
            StreamsRecord::CurrentMemberAssignment { member_id, value } => {
                bind(&mut self.current_per_member, member_id, value);
            },
        }
    }
}

/// The seeds of streams groups once a record of `id` is read: a tombstone of the group drops it, and
/// no other tombstone makes one.
pub open spec fn streams_seeds_with(seeds: Map<Seq<char>, StreamsGroupSeedView>, id: Seq<char>, r: StreamsRecordView) -> Map<
    Seq<char>,
    StreamsGroupSeedView,
> {
    if r is GroupMetadata && r.is_tombstone() {
        seeds.remove(id)
    } else if seeds.contains_key(id) {
        seeds.insert(id, seeds[id].with(r))
    } else if r.is_tombstone() {
        seeds
    } else {
        seeds.insert(id, StreamsGroupSeedView::blank().with(r))
    }
}

/// Takes a record of a streams group up into the seeds.
pub fn apply_streams_record(seeds: &mut OrdMap<String, StreamsGroupSeed>, id: &String, r: &StreamsRecord)
    ensures
        final(seeds)@ == streams_seeds_with(old(seeds)@, id@, r@),
{
    let ghost before = seeds@;
    let found = seeds.remove(id);
    if let StreamsRecord::GroupMetadata { epoch } = r {
        if epoch.is_none() {
            return;
        }
    }
    match found {
        Some(mut seed) => {
            seed.take_up(r);
            seeds.insert(id.clone(), seed);
        },
        None => {
            if !r.is_tombstone() {
                let mut seed = StreamsGroupSeed::blank();
                seed.take_up(r);
                seeds.insert(id.clone(), seed);
            }
        },
    }
    assert(seeds@ =~= streams_seeds_with(before, id@, r@));
}

} // verus!
