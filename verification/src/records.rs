//! The records that a group's state is kept in.
//!
//! A record is a key with a value, or a key alone: a tombstone, which drops what the key held.

use crate::classic_state::{Protocol, ProtocolView, dup_protocols};
use crate::consumer_state::MemberAssignmentState;
use crate::ordmap::{Dup, views};
use crate::partitions::{Partitions, PartitionsView};
use crate::text::{dup_opt_str, dup_strs, opt_str};
use vstd::prelude::*;

verus! {

/// What an optional value stands for.
pub open spec fn opt_view<T: View>(o: Option<T>) -> Option<T::V> {
    match o {
        Some(v) => Some(v@),
        None => None,
    }
}

pub fn dup_opt<T: Dup>(o: &Option<T>) -> (r: Option<T>)
    ensures
        opt_view(r) == opt_view(*o),
{
    match o {
        Some(v) => Some(v.dup()),
        None => None,
    }
}

/// What is kept of a member's classic side.
#[derive(Debug, PartialEq, Eq)]
pub struct ClassicMemberMetadata {
    pub session_timeout_ms: i32,
    pub supported_protocols: Vec<Protocol>,
    pub last_synced_assignment: Vec<u8>,
}

#[verifier::ext_equal]
pub struct ClassicMemberMetadataView {
    pub session_timeout_ms: i32,
    pub supported_protocols: Seq<ProtocolView>,
    pub last_synced_assignment: Seq<u8>,
}

impl View for ClassicMemberMetadata {
    type V = ClassicMemberMetadataView;

    open spec fn view(&self) -> ClassicMemberMetadataView {
        ClassicMemberMetadataView {
            session_timeout_ms: self.session_timeout_ms,
            supported_protocols: views(self.supported_protocols@),
            last_synced_assignment: self.last_synced_assignment@,
        }
    }
}

impl Dup for ClassicMemberMetadata {
    fn dup(&self) -> (r: Self) {
        ClassicMemberMetadata {
            session_timeout_ms: self.session_timeout_ms,
            supported_protocols: dup_protocols(&self.supported_protocols),
            last_synced_assignment: self.last_synced_assignment.dup(),
        }
    }
}

/// A member of a consumer group: who it is and what it subscribes to.
#[derive(Debug, PartialEq, Eq)]
pub struct MemberMetadataValue {
    pub instance_id: Option<String>,
    pub rack_id: Option<String>,
    pub client_id: String,
    pub client_host: String,
    pub subscribed_topic_names: Vec<String>,
    pub subscribed_topic_regex: Option<String>,
    pub server_assignor: Option<String>,
    pub rebalance_timeout_ms: i32,
    pub classic: Option<ClassicMemberMetadata>,
}

#[verifier::ext_equal]
pub struct MemberMetadataView {
    pub instance_id: Option<Seq<char>>,
    pub rack_id: Option<Seq<char>>,
    pub client_id: Seq<char>,
    pub client_host: Seq<char>,
    pub subscribed_topic_names: Seq<Seq<char>>,
    pub subscribed_topic_regex: Option<Seq<char>>,
    pub server_assignor: Option<Seq<char>>,
    pub rebalance_timeout_ms: i32,
    pub classic: Option<ClassicMemberMetadataView>,
}

impl View for MemberMetadataValue {
    type V = MemberMetadataView;

    open spec fn view(&self) -> MemberMetadataView {
        MemberMetadataView {
            instance_id: opt_str(self.instance_id),
            rack_id: opt_str(self.rack_id),
            client_id: self.client_id@,
            client_host: self.client_host@,
            subscribed_topic_names: views(self.subscribed_topic_names@),
            subscribed_topic_regex: opt_str(self.subscribed_topic_regex),
            server_assignor: opt_str(self.server_assignor),
            rebalance_timeout_ms: self.rebalance_timeout_ms,
            classic: opt_view(self.classic),
        }
    }
}

impl Dup for MemberMetadataValue {
    fn dup(&self) -> (r: Self) {
        MemberMetadataValue {
            instance_id: dup_opt_str(&self.instance_id),
            rack_id: dup_opt_str(&self.rack_id),
            client_id: self.client_id.clone(),
            client_host: self.client_host.clone(),
            subscribed_topic_names: dup_strs(&self.subscribed_topic_names),
            subscribed_topic_regex: dup_opt_str(&self.subscribed_topic_regex),
            server_assignor: dup_opt_str(&self.server_assignor),
            rebalance_timeout_ms: self.rebalance_timeout_ms,
            classic: dup_opt(&self.classic),
        }
    }
}

/// What a member of a consumer group holds.
#[derive(Debug, PartialEq, Eq)]
pub struct CurrentMemberAssignmentValue {
    pub member_epoch: i32,
    pub previous_member_epoch: i32,
    pub state: MemberAssignmentState,
    pub assigned_partitions: Partitions,
    pub partitions_pending_revocation: Partitions,
}

#[verifier::ext_equal]
pub struct CurrentAssignmentView {
    pub member_epoch: i32,
    pub previous_member_epoch: i32,
    pub state: MemberAssignmentState,
    pub assigned_partitions: PartitionsView,
    pub partitions_pending_revocation: PartitionsView,
}

impl View for CurrentMemberAssignmentValue {
    type V = CurrentAssignmentView;

    open spec fn view(&self) -> CurrentAssignmentView {
        CurrentAssignmentView {
            member_epoch: self.member_epoch,
            previous_member_epoch: self.previous_member_epoch,
            state: self.state,
            assigned_partitions: self.assigned_partitions@,
            partitions_pending_revocation: self.partitions_pending_revocation@,
        }
    }
}

impl Dup for CurrentMemberAssignmentValue {
    fn dup(&self) -> (r: Self) {
        CurrentMemberAssignmentValue {
            member_epoch: self.member_epoch,
            previous_member_epoch: self.previous_member_epoch,
            state: self.state,
            assigned_partitions: self.assigned_partitions.dup(),
            partitions_pending_revocation: self.partitions_pending_revocation.dup(),
        }
    }
}

/// A member of a classic group as it is kept.
#[derive(Debug, PartialEq, Eq)]
pub struct ClassicMemberRecord {
    pub member_id: String,
    pub group_instance_id: Option<String>,
    pub client_id: String,
    pub client_host: String,
    pub rebalance_timeout_ms: i32,
    pub session_timeout_ms: i32,
    pub subscription: Vec<u8>,
    pub assignment: Vec<u8>,
}

#[verifier::ext_equal]
pub struct ClassicMemberRecordView {
    pub member_id: Seq<char>,
    pub group_instance_id: Option<Seq<char>>,
    pub client_id: Seq<char>,
    pub client_host: Seq<char>,
    pub rebalance_timeout_ms: i32,
    pub session_timeout_ms: i32,
    pub subscription: Seq<u8>,
    pub assignment: Seq<u8>,
}

impl View for ClassicMemberRecord {
    type V = ClassicMemberRecordView;

    open spec fn view(&self) -> ClassicMemberRecordView {
        ClassicMemberRecordView {
            member_id: self.member_id@,
            group_instance_id: opt_str(self.group_instance_id),
            client_id: self.client_id@,
            client_host: self.client_host@,
            rebalance_timeout_ms: self.rebalance_timeout_ms,
            session_timeout_ms: self.session_timeout_ms,
            subscription: self.subscription@,
            assignment: self.assignment@,
        }
    }
}

impl Dup for ClassicMemberRecord {
    fn dup(&self) -> (r: Self) {
        ClassicMemberRecord {
            member_id: self.member_id.clone(),
            group_instance_id: dup_opt_str(&self.group_instance_id),
            client_id: self.client_id.clone(),
            client_host: self.client_host.clone(),
            rebalance_timeout_ms: self.rebalance_timeout_ms,
            session_timeout_ms: self.session_timeout_ms,
            subscription: self.subscription.dup(),
            assignment: self.assignment.dup(),
        }
    }
}

/// A whole classic group as it is kept.
#[derive(Debug, PartialEq, Eq)]
pub struct ClassicGroupMetadataValue {
    pub protocol_type: String,
    pub generation: i32,
    pub protocol_name: Option<String>,
    pub leader: Option<String>,
    pub current_state_timestamp_ms: i64,
    pub members: Vec<ClassicMemberRecord>,
}

#[verifier::ext_equal]
pub struct ClassicGroupMetadataView {
    pub protocol_type: Seq<char>,
    pub generation: i32,
    pub protocol_name: Option<Seq<char>>,
    pub leader: Option<Seq<char>>,
    pub current_state_timestamp_ms: i64,
    pub members: Seq<ClassicMemberRecordView>,
}

impl View for ClassicGroupMetadataValue {
    type V = ClassicGroupMetadataView;

    open spec fn view(&self) -> ClassicGroupMetadataView {
        ClassicGroupMetadataView {
            protocol_type: self.protocol_type@,
            generation: self.generation,
            protocol_name: opt_str(self.protocol_name),
            leader: opt_str(self.leader),
            current_state_timestamp_ms: self.current_state_timestamp_ms,
            members: views(self.members@),
        }
    }
}

impl Dup for ClassicGroupMetadataValue {
    fn dup(&self) -> (r: Self) {
        ClassicGroupMetadataValue {
            protocol_type: self.protocol_type.clone(),
            generation: self.generation,
            protocol_name: dup_opt_str(&self.protocol_name),
            leader: dup_opt_str(&self.leader),
            current_state_timestamp_ms: self.current_state_timestamp_ms,
            members: dup_list(&self.members),
        }
    }
}

/// Copies a list.
pub fn dup_list<T: Dup>(list: &Vec<T>) -> (r: Vec<T>)
    ensures
        views(r@) == views(list@),
{
    let mut r: Vec<T> = Vec::new();
    let mut i: usize = 0;
    while i < list.len()
        invariant
            0 <= i <= list@.len(),
            r@.len() == i,
            forall|j: int| 0 <= j < i ==> (#[trigger] r@[j])@ == list@[j]@,
        decreases list@.len() - i,
    {
        r.push(list[i].dup());
        i = i + 1;
    }
    assert(views(r@) =~= views(list@));
    r
}

/// A committed offset. Times are milliseconds.
#[derive(Debug, PartialEq, Eq)]
pub struct OffsetEntry {
    pub offset: i64,
    pub leader_epoch: i32,
    pub metadata: String,
    pub commit_timestamp_ms: i64,
    pub expire_timestamp_ms: Option<i64>,
    /// The topic it was committed for, where that is known.
    pub topic_id: Option<u128>,
}

#[verifier::ext_equal]
pub struct OffsetEntryView {
    pub offset: i64,
    pub leader_epoch: i32,
    pub metadata: Seq<char>,
    pub commit_timestamp_ms: i64,
    pub expire_timestamp_ms: Option<i64>,
    pub topic_id: Option<u128>,
}

impl View for OffsetEntry {
    type V = OffsetEntryView;

    open spec fn view(&self) -> OffsetEntryView {
        OffsetEntryView {
            offset: self.offset,
            leader_epoch: self.leader_epoch,
            metadata: self.metadata@,
            commit_timestamp_ms: self.commit_timestamp_ms,
            expire_timestamp_ms: self.expire_timestamp_ms,
            topic_id: self.topic_id,
        }
    }
}

impl Dup for OffsetEntry {
    fn dup(&self) -> (r: Self) {
        OffsetEntry {
            offset: self.offset,
            leader_epoch: self.leader_epoch,
            metadata: self.metadata.clone(),
            commit_timestamp_ms: self.commit_timestamp_ms,
            expire_timestamp_ms: self.expire_timestamp_ms,
            topic_id: self.topic_id,
        }
    }
}

/// A record of a consumer group; without a value, a tombstone.
#[derive(Debug, PartialEq, Eq)]
pub enum NextGenRecord {
    GroupMetadata { epoch: Option<i32> },
    MemberMetadata { member_id: String, value: Option<MemberMetadataValue> },
    TargetAssignmentMetadata { assignment_epoch: Option<i32> },
    TargetAssignmentMember { member_id: String, value: Option<Partitions> },
    CurrentMemberAssignment { member_id: String, value: Option<CurrentMemberAssignmentValue> },
}

#[verifier::ext_equal]
pub enum NextGenRecordView {
    GroupMetadata { epoch: Option<i32> },
    MemberMetadata { member_id: Seq<char>, value: Option<MemberMetadataView> },
    TargetAssignmentMetadata { assignment_epoch: Option<i32> },
    TargetAssignmentMember { member_id: Seq<char>, value: Option<PartitionsView> },
    CurrentMemberAssignment { member_id: Seq<char>, value: Option<CurrentAssignmentView> },
}

impl View for NextGenRecord {
    type V = NextGenRecordView;

    open spec fn view(&self) -> NextGenRecordView {
        match self {
            NextGenRecord::GroupMetadata { epoch } => NextGenRecordView::GroupMetadata { epoch: *epoch },
            NextGenRecord::MemberMetadata { member_id, value } => NextGenRecordView::MemberMetadata { member_id: member_id@, value: opt_view(*value) },
            NextGenRecord::TargetAssignmentMetadata { assignment_epoch } => NextGenRecordView::TargetAssignmentMetadata { assignment_epoch: *assignment_epoch },
            NextGenRecord::TargetAssignmentMember { member_id, value } => NextGenRecordView::TargetAssignmentMember {
                member_id: member_id@,
                value: opt_view(*value),
            },
            NextGenRecord::CurrentMemberAssignment { member_id, value } => NextGenRecordView::CurrentMemberAssignment {
                member_id: member_id@,
                value: opt_view(*value),
            },
        }
    }
}

impl Dup for NextGenRecord {
    fn dup(&self) -> (r: Self) {
        match self {
            NextGenRecord::GroupMetadata { epoch } => NextGenRecord::GroupMetadata { epoch: *epoch },
            NextGenRecord::MemberMetadata { member_id, value } => NextGenRecord::MemberMetadata { member_id: member_id.clone(), value: dup_opt(value) },
            NextGenRecord::TargetAssignmentMetadata { assignment_epoch } => NextGenRecord::TargetAssignmentMetadata { assignment_epoch: *assignment_epoch },
            NextGenRecord::TargetAssignmentMember { member_id, value } => NextGenRecord::TargetAssignmentMember {
                member_id: member_id.clone(),
                value: dup_opt(value),
            },
            NextGenRecord::CurrentMemberAssignment { member_id, value } => NextGenRecord::CurrentMemberAssignment {
                member_id: member_id.clone(),
                value: dup_opt(value),
            },
        }
    }
}

/// What a group's state is written as.
#[derive(Debug, PartialEq, Eq)]
pub enum GroupRecord {
    /// A committed offset.
    OffsetCommit { topic: String, partition: i32, value: Option<OffsetEntry> },
    /// A whole classic group.
    ClassicMetadata { value: Option<ClassicGroupMetadataValue> },
    /// A part of a consumer group.
    NextGen(NextGenRecord),
}

#[verifier::ext_equal]
pub enum GroupRecordView {
    OffsetCommit { topic: Seq<char>, partition: i32, value: Option<OffsetEntryView> },
    ClassicMetadata { value: Option<ClassicGroupMetadataView> },
    NextGen(NextGenRecordView),
}

impl View for GroupRecord {
    type V = GroupRecordView;

    open spec fn view(&self) -> GroupRecordView {
        match self {
            GroupRecord::OffsetCommit { topic, partition, value } => GroupRecordView::OffsetCommit {
                topic: topic@,
                partition: *partition,
                value: opt_view(*value),
            },
            GroupRecord::ClassicMetadata { value } => GroupRecordView::ClassicMetadata { value: opt_view(*value) },
            GroupRecord::NextGen(r) => GroupRecordView::NextGen(r@),
        }
    }
}

impl Dup for GroupRecord {
    fn dup(&self) -> (r: Self) {
        match self {
            GroupRecord::OffsetCommit { topic, partition, value } => GroupRecord::OffsetCommit {
                topic: topic.clone(),
                partition: *partition,
                value: dup_opt(value),
            },
            GroupRecord::ClassicMetadata { value } => GroupRecord::ClassicMetadata { value: dup_opt(value) },
            GroupRecord::NextGen(r) => GroupRecord::NextGen(r.dup()),
        }
    }
}

impl GroupRecordView {
    /// Whether the record is a tombstone.
    pub open spec fn is_tombstone(self) -> bool {
        match self {
            GroupRecordView::OffsetCommit { value, .. } => value is None,
            GroupRecordView::ClassicMetadata { value } => value is None,
            GroupRecordView::NextGen(r) => match r {
                NextGenRecordView::GroupMetadata { epoch } => epoch is None,
                NextGenRecordView::MemberMetadata { value, .. } => value is None,
                NextGenRecordView::TargetAssignmentMetadata { assignment_epoch } => assignment_epoch is None,
                NextGenRecordView::TargetAssignmentMember { value, .. } => value is None,
                NextGenRecordView::CurrentMemberAssignment { value, .. } => value is None,
            },
        }
    }
}

impl GroupRecord {
    /// Whether the record is a tombstone.
    pub fn is_tombstone(&self) -> (r: bool)
        ensures
            r == self@.is_tombstone(),
    {
        match self {
            GroupRecord::OffsetCommit { value, .. } => value.is_none(),
            GroupRecord::ClassicMetadata { value } => value.is_none(),
            GroupRecord::NextGen(r) => match r {
                NextGenRecord::GroupMetadata { epoch } => epoch.is_none(),
                NextGenRecord::MemberMetadata { value, .. } => value.is_none(),
                NextGenRecord::TargetAssignmentMetadata { assignment_epoch } => assignment_epoch.is_none(),
                NextGenRecord::TargetAssignmentMember { value, .. } => value.is_none(),
                NextGenRecord::CurrentMemberAssignment { value, .. } => value.is_none(),
            },
        }
    }
}

/// A record at its place in a batch.
#[derive(Debug, PartialEq, Eq)]
pub struct BatchRecord {
    pub offset_delta: usize,
    pub record: GroupRecord,
}

/// Records of one group that are appended together or not at all.
#[derive(Debug, PartialEq, Eq)]
pub struct RecordBatch {
    pub group_id: String,
    pub records: Vec<BatchRecord>,
    pub last_offset_delta: usize,
    pub max_timestamp: i64,
}

#[verifier::ext_equal]
pub struct RecordBatchView {
    pub group_id: Seq<char>,
    pub records: Seq<GroupRecordView>,
    /// The place that each record is numbered with.
    pub offset_deltas: Seq<usize>,
    pub last_offset_delta: usize,
    pub max_timestamp: i64,
}

impl RecordBatchView {
    /// The batch of these records: they are numbered from zero, and the batch knows the last number.
    pub open spec fn of(group_id: Seq<char>, records: Seq<GroupRecordView>, max_timestamp: i64) -> RecordBatchView {
        RecordBatchView {
            group_id,
            records,
            offset_deltas: Seq::new(records.len(), |i: int| i as usize),
            last_offset_delta: if records.len() == 0 {
                0
            } else {
                (records.len() - 1) as usize
            },
            max_timestamp,
        }
    }
}

impl View for RecordBatch {
    type V = RecordBatchView;

    open spec fn view(&self) -> RecordBatchView {
        RecordBatchView {
            group_id: self.group_id@,
            records: Seq::new(self.records@.len(), |i: int| self.records@[i].record@),
            offset_deltas: Seq::new(self.records@.len(), |i: int| self.records@[i].offset_delta),
            last_offset_delta: self.last_offset_delta,
            max_timestamp: self.max_timestamp,
        }
    }
}

impl RecordBatch {
    /// Numbers records into a batch.
    pub fn of(group_id: &String, records: Vec<GroupRecord>, max_timestamp: i64) -> (r: Self)
        ensures
            r@ == RecordBatchView::of(group_id@, views(records@), max_timestamp),
    {
        let mut left: Vec<GroupRecord> = records;
        let ghost all = records@;
        let n: usize = left.len();
        let mut reversed: Vec<GroupRecord> = Vec::new();
        while left.len() > 0
            invariant
                left@.len() + reversed@.len() == all.len(),
                n == all.len(),
                left@ == all.take(left@.len() as int),
                forall|i: int| 0 <= i < reversed@.len() ==> #[trigger] reversed@[i] == all[all.len() - 1 - i],
            decreases left@.len(),
        {
            if let Some(r) = left.pop() {
                reversed.push(r);
            }
        }
        let mut out: Vec<BatchRecord> = Vec::new();
        let mut i: usize = 0;
        while i < n
            invariant
                0 <= i <= n,
                n == all.len(),
                out@.len() == i,
                reversed@.len() == n - i,
                forall|j: int| 0 <= j < reversed@.len() ==> #[trigger] reversed@[j] == all[all.len() - 1 - j],
                forall|j: int| 0 <= j < i ==> (#[trigger] out@[j]).offset_delta == j && out@[j].record == all[j],
            decreases n - i,
        {
            if let Some(record) = reversed.pop() {
                out.push(BatchRecord { offset_delta: i, record });
            }
            i = i + 1;
        }
        let last: usize = if n == 0 {
            0
        } else {
            n - 1
        };
        let r = RecordBatch { group_id: group_id.clone(), records: out, last_offset_delta: last, max_timestamp };
        assert(r@.records =~= views(all));
        assert(r@ =~= RecordBatchView::of(group_id@, views(all), max_timestamp));
        r
    }
}

} // verus!
