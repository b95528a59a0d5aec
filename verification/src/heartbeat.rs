//! The heartbeat of a consumer group: who it speaks for, what it changes and what it is answered.
//!
//! [`step_heartbeat`] decides all of it and does nothing else: it changes the group and hands back
//! the response with the records that have to be appended.

use crate::assignor::Assignor;
use crate::codes;
use crate::config::{NextGenConfig, assignor_called};
use crate::consumer_state::{
    GroupState, GroupStateView, LEAVE_GROUP_MEMBER_EPOCH, LEAVE_GROUP_STATIC_MEMBER_EPOCH, MemberAssignmentState, MemberState, MemberStateView,
    ReconcileInput, ReconcileInputView, reconciled,
};
use crate::ids::{fresh_uuid, uuid_text};
use crate::ordmap::{Dup, OrdMap, OrdSet, listing, str_eq, views};
use crate::partitions::{Partitions, PartitionsView, holds_partition};
use crate::pending_records::{Entry, PendingRecords, PendingRecordsView};
use crate::persistence::{current_assignment_value, fit, fitted, kept_assignment, snapshot, snapshot_pending_after_change};
use crate::regexes::{check_subscribed_topic_regex, regex_check, regex_error};
use crate::text::{decimal, dup_opt_str, i32_text, opt_same, opt_str, u64_text};
use vstd::prelude::*;

verus! {

/// What the heartbeat interval is taken for that does not fit a response, in milliseconds.
pub const FALLBACK_HEARTBEAT_INTERVAL_MS: i32 = 5_000;

/// Partitions of a topic as a request lists them.
#[derive(Debug, PartialEq, Eq)]
pub struct TopicPartitions {
    pub topic_id: u128,
    pub partitions: Vec<i32>,
}

#[verifier::ext_equal]
pub struct TopicPartitionsView {
    pub topic_id: u128,
    pub partitions: Seq<i32>,
}

impl View for TopicPartitions {
    type V = TopicPartitionsView;

    open spec fn view(&self) -> TopicPartitionsView {
        TopicPartitionsView { topic_id: self.topic_id, partitions: self.partitions@ }
    }
}

/// What a request lists, where it lists anything.
pub open spec fn opt_topics(o: Option<Vec<TopicPartitions>>) -> Option<Seq<TopicPartitionsView>> {
    match o {
        Some(list) => Some(views(list@)),
        None => None,
    }
}

/// The names a request lists, where it lists any.
pub open spec fn opt_names(o: Option<Vec<String>>) -> Option<Seq<Seq<char>>> {
    match o {
        Some(list) => Some(views(list@)),
        None => None,
    }
}

#[derive(Debug, PartialEq, Eq)]
pub struct ConsumerGroupHeartbeatRequest {
    pub group_id: String,
    pub member_id: String,
    pub member_epoch: i32,
    pub instance_id: Option<String>,
    pub rack_id: Option<String>,
    /// Negative where the request does not say.
    pub rebalance_timeout_ms: i32,
    pub subscribed_topic_names: Option<Vec<String>>,
    pub subscribed_topic_regex: Option<String>,
    pub server_assignor: Option<String>,
    /// The partitions that the member owns, where the request says.
    pub topic_partitions: Option<Vec<TopicPartitions>>,
}

#[verifier::ext_equal]
pub struct HeartbeatRequestView {
    pub group_id: Seq<char>,
    pub member_id: Seq<char>,
    pub member_epoch: i32,
    pub instance_id: Option<Seq<char>>,
    pub rack_id: Option<Seq<char>>,
    pub rebalance_timeout_ms: i32,
    pub subscribed_topic_names: Option<Seq<Seq<char>>>,
    pub subscribed_topic_regex: Option<Seq<char>>,
    pub server_assignor: Option<Seq<char>>,
    pub topic_partitions: Option<Seq<TopicPartitionsView>>,
}

impl View for ConsumerGroupHeartbeatRequest {
    type V = HeartbeatRequestView;

    open spec fn view(&self) -> HeartbeatRequestView {
        HeartbeatRequestView {
            group_id: self.group_id@,
            member_id: self.member_id@,
            member_epoch: self.member_epoch,
            instance_id: opt_str(self.instance_id),
            rack_id: opt_str(self.rack_id),
            rebalance_timeout_ms: self.rebalance_timeout_ms,
            subscribed_topic_names: opt_names(self.subscribed_topic_names),
            subscribed_topic_regex: opt_str(self.subscribed_topic_regex),
            server_assignor: opt_str(self.server_assignor),
            topic_partitions: opt_topics(self.topic_partitions),
        }
    }
}

/// Who sends a request.
#[derive(Debug, PartialEq, Eq)]
pub struct ClientIdentity {
    pub id: String,
    pub host: String,
}

#[verifier::ext_equal]
pub struct ClientIdentityView {
    pub id: Seq<char>,
    pub host: Seq<char>,
}

impl View for ClientIdentity {
    type V = ClientIdentityView;

    open spec fn view(&self) -> ClientIdentityView {
        ClientIdentityView { id: self.id@, host: self.host@ }
    }
}

#[derive(Debug, PartialEq, Eq)]
pub struct ConsumerGroupHeartbeatResponse {
    pub error_code: i16,
    pub error_message: Option<String>,
    pub member_id: Option<String>,
    pub member_epoch: i32,
    pub heartbeat_interval_ms: i32,
    /// The partitions that the member may own now.
    pub assignment: Option<Partitions>,
}

#[verifier::ext_equal]
pub struct HeartbeatResponseView {
    pub error_code: i16,
    pub error_message: Option<Seq<char>>,
    pub member_id: Option<Seq<char>>,
    pub member_epoch: i32,
    pub heartbeat_interval_ms: i32,
    pub assignment: Option<PartitionsView>,
}

impl View for ConsumerGroupHeartbeatResponse {
    type V = HeartbeatResponseView;

    open spec fn view(&self) -> HeartbeatResponseView {
        HeartbeatResponseView {
            error_code: self.error_code,
            error_message: opt_str(self.error_message),
            member_id: opt_str(self.member_id),
            member_epoch: self.member_epoch,
            heartbeat_interval_ms: self.heartbeat_interval_ms,
            assignment: match self.assignment {
                Some(p) => Some(p@),
                None => None,
            },
        }
    }
}

impl HeartbeatResponseView {
    /// An answer of an error code alone.
    pub open spec fn bare(error_code: i16) -> HeartbeatResponseView {
        HeartbeatResponseView { error_code, error_message: None, member_id: None, member_epoch: 0, heartbeat_interval_ms: 0, assignment: None }
    }
}

impl ConsumerGroupHeartbeatResponse {
    /// An answer of an error code alone.
    pub fn bare(error_code: i16) -> (r: Self)
        ensures
            r@ == HeartbeatResponseView::bare(error_code),
    {
        ConsumerGroupHeartbeatResponse {
            error_code,
            error_message: None,
            member_id: None,
            member_epoch: 0,
            heartbeat_interval_ms: 0,
            assignment: None,
        }
    }
}

/// What a heartbeat is answered, and what has to be appended first.
#[derive(Debug, PartialEq, Eq)]
pub struct HeartbeatStep {
    pub response: ConsumerGroupHeartbeatResponse,
    pub pending: PendingRecords,
}

#[verifier::ext_equal]
pub struct HeartbeatStepView {
    pub response: HeartbeatResponseView,
    pub pending: PendingRecordsView,
}

impl View for HeartbeatStep {
    type V = HeartbeatStepView;

    open spec fn view(&self) -> HeartbeatStepView {
        HeartbeatStepView { response: self.response@, pending: self.pending@ }
    }
}

/// Why a heartbeat is refused.
#[derive(Debug, PartialEq, Eq)]
pub struct HeartbeatError {
    pub code: i16,
    pub message: String,
}

#[verifier::ext_equal]
pub struct HeartbeatErrorView {
    pub code: i16,
    pub message: Seq<char>,
}

impl View for HeartbeatError {
    type V = HeartbeatErrorView;

    open spec fn view(&self) -> HeartbeatErrorView {
        HeartbeatErrorView { code: self.code, message: self.message@ }
    }
}

/// The member that a heartbeat belongs to.
#[derive(Debug, PartialEq, Eq)]
pub enum Resolved {
    /// Nobody has this id: a member joins.
    New,
    /// The member is there and its epoch is in order.
    Existing,
    /// A static member comes back under another id and takes the place of `previous`.
    Replaces { previous: String },
}

#[verifier::ext_equal]
pub enum ResolvedView {
    New,
    Existing,
    Replaces { previous: Seq<char> },
}

impl View for Resolved {
    type V = ResolvedView;

    open spec fn view(&self) -> ResolvedView {
        match self {
            Resolved::New => ResolvedView::New,
            Resolved::Existing => ResolvedView::Existing,
            Resolved::Replaces { previous } => ResolvedView::Replaces { previous: previous@ },
        }
    }
}

/// What a result with a heartbeat's error stands for.
pub open spec fn result_view<T: View>(r: Result<T, HeartbeatError>) -> Result<T::V, HeartbeatErrorView> {
    match r {
        Ok(v) => Ok(v@),
        Err(e) => Err(e@),
    }
}

/// Its epoch is not the one the group knows.
pub open spec fn fenced_epoch_error(direction: Seq<char>, received: i32, known: i32) -> HeartbeatErrorView {
    HeartbeatErrorView {
        code: codes::FENCED_MEMBER_EPOCH,
        message: "The consumer group member has a "@ + direction + " member epoch ("@ + decimal(received as int)
            + ") than the one known by the group coordinator ("@ + decimal(known as int)
            + "). The member must abandon all its partitions and rejoin."@,
    }
}

/// There is no such member.
pub open spec fn unknown_member_error(member_id: Seq<char>, group_id: Seq<char>) -> HeartbeatErrorView {
    HeartbeatErrorView { code: codes::UNKNOWN_MEMBER_ID, message: "Member "@ + member_id + " is not a member of group "@ + group_id + "."@ }
}

/// Nobody has this static identity.
pub open spec fn unknown_instance_error(instance: Seq<char>) -> HeartbeatErrorView {
    HeartbeatErrorView { code: codes::UNKNOWN_MEMBER_ID, message: "Instance id "@ + instance + " is unknown."@ }
}

/// Another member has this static identity.
pub open spec fn fenced_instance_error(member_id: Seq<char>, instance: Seq<char>, owner: Seq<char>) -> HeartbeatErrorView {
    HeartbeatErrorView {
        code: codes::FENCED_INSTANCE_ID,
        message: "Static member "@ + member_id + " with instance id "@ + instance + " was fenced by member "@ + owner + "."@,
    }
}

/// Another member has this static identity and has not let it go.
pub open spec fn unreleased_error(member_id: Seq<char>, instance: Seq<char>, owner: Seq<char>) -> HeartbeatErrorView {
    HeartbeatErrorView {
        code: codes::UNRELEASED_INSTANCE_ID,
        message: "Static member "@ + member_id + " with instance id "@ + instance + " cannot join the group because the instance id is owned by "@
            + owner + " member."@,
    }
}

/// The group takes no more members.
pub open spec fn full_error(max_size: usize) -> HeartbeatErrorView {
    HeartbeatErrorView {
        code: codes::GROUP_MAX_SIZE_REACHED,
        message: "The consumer group has reached its maximum capacity of "@ + decimal(max_size as int) + " members."@,
    }
}

fn fenced_epoch(direction: &str, received: i32, known: i32) -> (r: HeartbeatError)
    ensures
        r@ == fenced_epoch_error(direction@, received, known),
{
    let mut s = "The consumer group member has a ".to_owned();
    s.append(direction);
    s.append(" member epoch (");
    s.append(i32_text(received).as_str());
    s.append(") than the one known by the group coordinator (");
    s.append(i32_text(known).as_str());
    s.append("). The member must abandon all its partitions and rejoin.");
    HeartbeatError { code: codes::FENCED_MEMBER_EPOCH, message: s }
}

fn unknown_member(member_id: &str, group_id: &str) -> (r: HeartbeatError)
    ensures
        r@ == unknown_member_error(member_id@, group_id@),
{
    let mut s = "Member ".to_owned();
    s.append(member_id);
    s.append(" is not a member of group ");
    s.append(group_id);
    s.append(".");
    HeartbeatError { code: codes::UNKNOWN_MEMBER_ID, message: s }
}

fn unknown_instance(instance: &str) -> (r: HeartbeatError)
    ensures
        r@ == unknown_instance_error(instance@),
{
    let mut s = "Instance id ".to_owned();
    s.append(instance);
    s.append(" is unknown.");
    HeartbeatError { code: codes::UNKNOWN_MEMBER_ID, message: s }
}

fn fenced_instance(member_id: &str, instance: &str, owner: &str) -> (r: HeartbeatError)
    ensures
        r@ == fenced_instance_error(member_id@, instance@, owner@),
{
    let mut s = "Static member ".to_owned();
    s.append(member_id);
    s.append(" with instance id ");
    s.append(instance);
    s.append(" was fenced by member ");
    s.append(owner);
    s.append(".");
    HeartbeatError { code: codes::FENCED_INSTANCE_ID, message: s }
}

fn unreleased(member_id: &str, instance: &str, owner: &str) -> (r: HeartbeatError)
    ensures
        r@ == unreleased_error(member_id@, instance@, owner@),
{
    let mut s = "Static member ".to_owned();
    s.append(member_id);
    s.append(" with instance id ");
    s.append(instance);
    s.append(" cannot join the group because the instance id is owned by ");
    s.append(owner);
    s.append(" member.");
    HeartbeatError { code: codes::UNRELEASED_INSTANCE_ID, message: s }
}

fn full(max_size: usize) -> (r: HeartbeatError)
    ensures
        r@ == full_error(max_size),
{
    let mut s = "The consumer group has reached its maximum capacity of ".to_owned();
    s.append(u64_text(max_size as u64).as_str());
    s.append(" members.");
    HeartbeatError { code: codes::GROUP_MAX_SIZE_REACHED, message: s }
}

/// Whether everything a request reports to own is assigned to the member; a request that reports
/// nothing at all does not say so.
pub open spec fn owns_subset(owned: Option<Seq<TopicPartitionsView>>, m: MemberStateView) -> bool {
    owned is Some && forall|i: int|
        0 <= i < owned->0.len() ==> topic_within(#[trigger] owned->0[i], m.assigned_partitions)
}

/// Whether each of `list` is among `assigned`.
pub open spec fn all_among(list: Seq<i32>, assigned: Seq<i32>) -> bool {
    forall|k: int| 0 <= k < list.len() ==> assigned.contains(#[trigger] list[k])
}

/// Whether the partitions of a topic are all there.
pub open spec fn topic_within(t: TopicPartitionsView, m: PartitionsView) -> bool {
    m.contains_key(t.topic_id) && all_among(t.partitions, m[t.topic_id])
}

/// Whether a member may go on at the epoch it sends. Zero begins anew. The previous epoch will do
/// where the answer with the new one may have been lost: the member owns nothing beyond its
/// assignment.
pub open spec fn epoch_check(m: MemberStateView, received: i32, owned: Option<Seq<TopicPartitionsView>>) -> Result<(), HeartbeatErrorView> {
    if received == 0 || received == m.member_epoch {
        Ok(())
    } else if received > m.member_epoch {
        Err(fenced_epoch_error("greater"@, received, m.member_epoch))
    } else if received == m.previous_member_epoch && owns_subset(owned, m) {
        Ok(())
    } else {
        Err(fenced_epoch_error("smaller"@, received, m.member_epoch))
    }
}

fn list_within(list: &Vec<i32>, assigned: &Vec<i32>) -> (r: bool)
    ensures
        r == all_among(list@, assigned@),
{
    let mut i: usize = 0;
    while i < list.len()
        invariant
            0 <= i <= list@.len(),
            forall|k: int| 0 <= k < i ==> assigned@.contains(#[trigger] list@[k]),
        decreases list@.len() - i,
    {
        if !holds_partition(assigned, list[i]) {
            assert(!assigned@.contains(list@[i as int]));
            return false;
        }
        i = i + 1;
    }
    true
}

fn is_subset(owned: &Option<Vec<TopicPartitions>>, m: &MemberState) -> (r: bool)
    ensures
        r == owns_subset(opt_topics(*owned), m@),
{
    let ghost all = opt_topics(*owned);
    match owned {
        None => false,
        Some(list) => {
            let mut i: usize = 0;
            while i < list.len()
                invariant
                    0 <= i <= list@.len(),
                    all == Some(views(list@)),
                    all == opt_topics(*owned),
                    forall|j: int| 0 <= j < i ==> topic_within(#[trigger] all->0[j], m@.assigned_partitions),
                decreases list@.len() - i,
            {
                let ghost t = list@[i as int]@;
                assert(all->0[i as int] == t);
                let within: bool = match m.assigned_partitions.get(&list[i].topic_id) {
                    Some(assigned) => list_within(&list[i].partitions, assigned),
                    None => false,
                };
                assert(within == topic_within(t, m@.assigned_partitions));
                if !within {
                    return false;
                }
                i = i + 1;
            }
            true
        },
    }
}

/// Whether a member may go on at the epoch it sends.
pub fn validate_epoch(m: &MemberState, received: i32, owned: &Option<Vec<TopicPartitions>>) -> (r: Result<(), HeartbeatError>)
    ensures
        result_view(r) == epoch_check(m@, received, opt_topics(*owned)),
{
    if received == 0 || received == m.member_epoch {
        return Ok(());
    }
    if received > m.member_epoch {
        return Err(fenced_epoch("greater", received, m.member_epoch));
    }
    if received == m.previous_member_epoch {
        if is_subset(owned, m) {
            return Ok(());
        }
    }
    Err(fenced_epoch("smaller", received, m.member_epoch))
}

/// A check that passed says that the member is there.
pub open spec fn passed(check: Result<(), HeartbeatErrorView>) -> Result<ResolvedView, HeartbeatErrorView> {
    match check {
        Ok(_) => Ok(ResolvedView::Existing),
        Err(e) => Err(e),
    }
}

/// Whom a heartbeat of epoch zero or more belongs to; `id` is the request's member id, or the one
/// that was given out for an empty one.
pub open spec fn resolution(g: GroupStateView, req: HeartbeatRequestView, id: Seq<char>) -> Result<ResolvedView, HeartbeatErrorView> {
    let joining = req.member_epoch == 0;
    match req.instance_id {
        None => if g.members.contains_key(id) {
            passed(epoch_check(g.members[id], req.member_epoch, req.topic_partitions))
        } else if joining {
            Ok(ResolvedView::New)
        } else {
            Err(unknown_member_error(id, g.group_id))
        },
        Some(instance) => match g.pinned(instance) {
            None => if joining {
                if g.members.contains_key(id) {
                    Ok(ResolvedView::Existing)
                } else {
                    Ok(ResolvedView::New)
                }
            } else {
                Err(unknown_instance_error(instance))
            },
            Some(owner) => {
                let m = g.members[owner];
                if joining {
                    if m.classic is None && m.member_epoch != LEAVE_GROUP_STATIC_MEMBER_EPOCH {
                        Err(unreleased_error(id, instance, owner))
                    } else {
                        Ok(ResolvedView::Replaces { previous: owner })
                    }
                } else if owner != id {
                    Err(fenced_instance_error(id, instance, owner))
                } else {
                    passed(epoch_check(m, req.member_epoch, req.topic_partitions))
                }
            },
        },
    }
}

/// Whom a heartbeat that leaves belongs to.
pub open spec fn leaving_member(g: GroupStateView, req: HeartbeatRequestView) -> Result<Seq<char>, HeartbeatErrorView> {
    match req.instance_id {
        None => if g.members.contains_key(req.member_id) {
            Ok(req.member_id)
        } else {
            Err(unknown_member_error(req.member_id, g.group_id))
        },
        Some(instance) => match g.pinned(instance) {
            None => Err(unknown_instance_error(instance)),
            Some(owner) => if owner != req.member_id {
                Err(fenced_instance_error(req.member_id, instance, owner))
            } else {
                Ok(owner)
            },
        },
    }
}

/// Finds whom a heartbeat of epoch zero or more belongs to.
pub fn resolve_member(state: &GroupState, req: &ConsumerGroupHeartbeatRequest, id: &String) -> (r: Result<Resolved, HeartbeatError>)
    ensures
        result_view(r) == resolution(state@, req@, id@),
        r matches Ok(Resolved::Existing) ==> state@.members.contains_key(id@),
        r matches Ok(Resolved::Replaces { previous }) ==> state@.members.contains_key(previous@),
{
    let joining: bool = req.member_epoch == 0;
    let instance: &String = match &req.instance_id {
        Some(instance) => instance,
        None => {
            return match state.members.get(id) {
                Some(m) => match validate_epoch(m, req.member_epoch, &req.topic_partitions) {
                    Ok(_) => Ok(Resolved::Existing),
                    Err(e) => Err(e),
                },
                None => if joining {
                    Ok(Resolved::New)
                } else {
                    Err(unknown_member(id.as_str(), state.group_id.as_str()))
                },
            };
        },
    };
    let owner: String = match state.current_member_for_instance(instance) {
        Some(owner) => owner,
        None => {
            return if joining {
                if state.members.contains_key(id) {
                    Ok(Resolved::Existing)
                } else {
                    Ok(Resolved::New)
                }
            } else {
                Err(unknown_instance(instance.as_str()))
            };
        },
    };
    match state.members.get(&owner) {
        None => Err(unknown_instance(instance.as_str())),
        Some(m) => if joining {
            if !m.is_classic() && m.member_epoch != LEAVE_GROUP_STATIC_MEMBER_EPOCH {
                Err(unreleased(id.as_str(), instance.as_str(), owner.as_str()))
            } else {
                Ok(Resolved::Replaces { previous: owner })
            }
        } else if !str_eq(owner.as_str(), id.as_str()) {
            Err(fenced_instance(id.as_str(), instance.as_str(), owner.as_str()))
        } else {
            match validate_epoch(m, req.member_epoch, &req.topic_partitions) {
                Ok(_) => Ok(Resolved::Existing),
                Err(e) => Err(e),
            }
        },
    }
}

/// Finds whom a heartbeat that leaves belongs to.
pub fn resolve_leaving_member(state: &GroupState, req: &ConsumerGroupHeartbeatRequest) -> (r: Result<String, HeartbeatError>)
    ensures
        result_view(r) == leaving_member(state@, req@),
{
    let instance: &String = match &req.instance_id {
        Some(instance) => instance,
        None => {
            return match state.members.get(&req.member_id) {
                Some(_) => Ok(req.member_id.clone()),
                None => Err(unknown_member(req.member_id.as_str(), state.group_id.as_str())),
            };
        },
    };
    match state.current_member_for_instance(instance) {
        None => Err(unknown_instance(instance.as_str())),
        Some(owner) => if !str_eq(owner.as_str(), req.member_id.as_str()) {
            Err(fenced_instance(req.member_id.as_str(), instance.as_str(), owner.as_str()))
        } else {
            Ok(owner)
        },
    }
}

/// A time as a request gives it; what is negative counts as zero.
pub open spec fn unsigned(ms: i32) -> u64 {
    if ms < 0 {
        0
    } else {
        ms as u64
    }
}

/// A time as a request gives it.
pub fn to_unsigned(ms: i32) -> (r: u64)
    ensures
        r == unsigned(ms),
{
    if ms < 0 {
        0
    } else {
        ms as u64
    }
}

/// The set of the names in a list.
pub open spec fn name_set(list: Seq<Seq<char>>) -> Set<Seq<char>>
    decreases list.len(),
{
    if list.len() == 0 {
        Set::empty()
    } else {
        name_set(list.drop_last()).insert(list.last())
    }
}

/// The set of the names in a list.
pub fn set_of_names(list: &Vec<String>) -> (r: OrdSet<String>)
    ensures
        r@ == name_set(views(list@)),
{
    let ghost all = views(list@);
    let mut out: OrdSet<String> = OrdSet::new();
    let mut i: usize = 0;
    assert(all.take(0) =~= seq![]);
    while i < list.len()
        invariant
            0 <= i <= list@.len(),
            all == views(list@),
            out@ == name_set(all.take(i as int)),
        decreases list@.len() - i,
    {
        let ghost next = all.take(i + 1);
        assert(next.drop_last() =~= all.take(i as int));
        assert(next.last() == list@[i as int]@);
        out.insert(list[i].clone());
        i = i + 1;
    }
    assert(all.take(all.len() as int) =~= all);
    out
}

/// The names that a request subscribes to.
pub open spec fn requested_names(req: HeartbeatRequestView) -> Set<Seq<char>> {
    match req.subscribed_topic_names {
        Some(list) => name_set(list),
        None => Set::empty(),
    }
}

/// The partitions that a list gives; what comes later in it replaces what came before.
pub open spec fn listed_parts(list: Seq<TopicPartitionsView>) -> PartitionsView
    decreases list.len(),
{
    if list.len() == 0 {
        Map::empty()
    } else {
        listed_parts(list.drop_last()).insert(list.last().topic_id, list.last().partitions)
    }
}

/// The partitions that a request reports to own.
pub open spec fn reported(req: HeartbeatRequestView) -> PartitionsView {
    match req.topic_partitions {
        Some(list) => listed_parts(list),
        None => Map::empty(),
    }
}

/// The partitions that a request reports to own.
pub fn reported_owned(req: &ConsumerGroupHeartbeatRequest) -> (r: Partitions)
    ensures
        r@ == reported(req@),
{
    let mut out: Partitions = OrdMap::new();
    if let Some(list) = &req.topic_partitions {
        let ghost all = views(list@);
        let mut i: usize = 0;
        assert(all.take(0) =~= seq![]);
        while i < list.len()
            invariant
                0 <= i <= list@.len(),
                all == views(list@),
                out@ == listed_parts(all.take(i as int)),
            decreases list@.len() - i,
        {
            let ghost next = all.take(i + 1);
            assert(next.drop_last() =~= all.take(i as int));
            assert(next.last() == list@[i as int]@);
            out.insert(list[i].topic_id, list[i].partitions.dup());
            i = i + 1;
        }
        assert(all.take(all.len() as int) =~= all);
    }
    out
}

/// The member that a first heartbeat makes.
pub open spec fn built_member(
    id: Seq<char>,
    req: HeartbeatRequestView,
    client: ClientIdentityView,
    now: u64,
    authorized: Set<Seq<char>>,
) -> MemberStateView {
    MemberStateView {
        member_id: id,
        instance_id: req.instance_id,
        rack_id: req.rack_id,
        client_id: client.id,
        client_host: client.host,
        subscribed_topic_names: requested_names(req),
        subscribed_topic_regex: req.subscribed_topic_regex,
        regex_authorized_topics: authorized,
        server_assignor: req.server_assignor,
        rebalance_timeout: unsigned(req.rebalance_timeout_ms),
        member_epoch: 0,
        previous_member_epoch: 0,
        assignment_state: MemberAssignmentState::Stable,
        assigned_partitions: Map::empty(),
        partitions_pending_revocation: Map::empty(),
        last_seen: now,
        classic: None,
    }
}

/// Makes the member of a first heartbeat.
pub fn build_member(id: &String, req: &ConsumerGroupHeartbeatRequest, client: &ClientIdentity, now: u64, authorized: &OrdSet<String>) -> (r: MemberState)
    ensures
        r@ == built_member(id@, req@, client@, now, authorized@),
{
    let names: OrdSet<String> = match &req.subscribed_topic_names {
        Some(list) => set_of_names(list),
        None => OrdSet::new(),
    };
    MemberState {
        member_id: id.clone(),
        instance_id: dup_opt_str(&req.instance_id),
        rack_id: dup_opt_str(&req.rack_id),
        client_id: client.id.clone(),
        client_host: client.host.clone(),
        subscribed_topic_names: names,
        subscribed_topic_regex: dup_opt_str(&req.subscribed_topic_regex),
        regex_authorized_topics: authorized.dup(),
        server_assignor: dup_opt_str(&req.server_assignor),
        rebalance_timeout: to_unsigned(req.rebalance_timeout_ms),
        member_epoch: 0,
        previous_member_epoch: 0,
        assignment_state: MemberAssignmentState::Stable,
        assigned_partitions: OrdMap::new(),
        partitions_pending_revocation: OrdMap::new(),
        last_seen: now,
        classic: None,
    }
}

/// What the sender of a pattern is told that is not accepted.
pub open spec fn pattern_complaint(pattern: Option<Seq<char>>) -> Option<Seq<char>> {
    match pattern {
        Some(p) => match regex_check(p, regex_error(p)) {
            Ok(_) => None,
            Err(message) => Some(message),
        },
        None => None,
    }
}

fn complain(pattern: &Option<String>) -> (r: Option<String>)
    ensures
        opt_str(r) == pattern_complaint(opt_str(*pattern)),
{
    match pattern {
        Some(p) => match check_subscribed_topic_regex(p.as_str()) {
            Ok(_) => None,
            Err(message) => Some(message),
        },
        None => None,
    }
}

/// Makes the member of a first heartbeat, unless its pattern is not accepted.
pub fn try_build_member(
    id: &String,
    req: &ConsumerGroupHeartbeatRequest,
    client: &ClientIdentity,
    now: u64,
    authorized: &OrdSet<String>,
) -> (r: Result<MemberState, String>)
    ensures
        match r {
            Ok(m) => pattern_complaint(req@.subscribed_topic_regex) is None && m@ == built_member(id@, req@, client@, now, authorized@),
            Err(message) => pattern_complaint(req@.subscribed_topic_regex) == Some(message@),
        },
{
    match complain(&req.subscribed_topic_regex) {
        Some(message) => Err(message),
        None => Ok(build_member(id, req, client, now, authorized)),
    }
}

/// Whether two sets are the same.
pub fn same_set(a: &OrdSet<String>, b: &OrdSet<String>) -> (r: bool)
    ensures
        r == (a@ == b@),
{
    let n: usize = a.len();
    let m: usize = b.len();
    let mut i: usize = 0;
    while i < n
        invariant
            0 <= i <= n,
            n == a.keys().len(),
            a.listed(),
            forall|j: int| 0 <= j < i ==> b@.contains(#[trigger] a.keys()[j]),
        decreases n - i,
    {
        if !b.contains(a.at(i)) {
            assert(a@.contains(a.keys()[i as int]));
            return false;
        }
        i = i + 1;
    }
    i = 0;
    while i < m
        invariant
            0 <= i <= m,
            m == b.keys().len(),
            b.listed(),
            forall|j: int| 0 <= j < i ==> a@.contains(#[trigger] b.keys()[j]),
        decreases m - i,
    {
        if !a.contains(b.at(i)) {
            assert(b@.contains(b.keys()[i as int]));
            return false;
        }
        i = i + 1;
    }
    assert(a@ =~= b@);
    true
}

/// The member as a heartbeat tells of it: who sends it and what it subscribes to. Names that the
/// heartbeat leaves out stay as they are.
pub open spec fn refreshed_member(
    m: MemberStateView,
    req: HeartbeatRequestView,
    client: ClientIdentityView,
    now: u64,
    authorized: Set<Seq<char>>,
) -> MemberStateView {
    MemberStateView {
        last_seen: now,
        client_id: client.id,
        client_host: client.host,
        subscribed_topic_names: match req.subscribed_topic_names {
            Some(list) => name_set(list),
            None => m.subscribed_topic_names,
        },
        subscribed_topic_regex: req.subscribed_topic_regex,
        regex_authorized_topics: authorized,
        ..m
    }
}

/// Whether the topics that a member subscribes to may have become others.
pub open spec fn resubscribed(before: MemberStateView, after: MemberStateView) -> bool {
    before.subscribed_topic_names != after.subscribed_topic_names || before.subscribed_topic_regex != after.subscribed_topic_regex || (
    after.subscribed_topic_regex is Some && before.regex_authorized_topics != after.regex_authorized_topics)
}

/// The group once the member `id` is as its heartbeat tells.
pub open spec fn with_refreshed(
    g: GroupStateView,
    id: Seq<char>,
    req: HeartbeatRequestView,
    client: ClientIdentityView,
    now: u64,
    authorized: Set<Seq<char>>,
) -> GroupStateView {
    if g.members.contains_key(id) {
        let after = refreshed_member(g.members[id], req, client, now, authorized);
        GroupStateView { members: g.members.insert(id, after), dirty: g.dirty || resubscribed(g.members[id], after), ..g }
    } else {
        g
    }
}

/// What a member owns that sends a heartbeat: what it reports; where it reports nothing, what it is
/// assigned.
pub open spec fn owned_by(g: GroupStateView, id: Seq<char>, req: HeartbeatRequestView) -> PartitionsView {
    if req.topic_partitions is Some {
        reported(req)
    } else if g.members.contains_key(id) {
        g.members[id].assigned_partitions
    } else {
        Map::empty()
    }
}

/// The group after the target was brought up to date and the member moved towards it.
pub open spec fn settled_member<A: Assignor>(
    g: GroupStateView,
    assignors: Seq<A>,
    input: ReconcileInputView,
    id: Seq<char>,
    req: HeartbeatRequestView,
) -> GroupStateView {
    let g1 = reconciled(g, assignors, input);
    let g2 = if g.members.contains_key(id) && g1.target_epoch > g.members[id].member_epoch {
        g1.advanced(id)
    } else {
        g1
    };
    g2.with_reconciled(id, owned_by(g2, id, req))
}

/// A steady heartbeat: the group after it and whether there is something to write; or what the
/// sender is told whose new pattern is not accepted.
pub open spec fn updating<A: Assignor>(
    g: GroupStateView,
    assignors: Seq<A>,
    input: ReconcileInputView,
    id: Seq<char>,
    req: HeartbeatRequestView,
    client: ClientIdentityView,
    now: u64,
    authorized: Set<Seq<char>>,
) -> Result<(GroupStateView, bool), Seq<char>> {
    let new_pattern = !g.members.contains_key(id) || g.members[id].subscribed_topic_regex != req.subscribed_topic_regex;
    if new_pattern && pattern_complaint(req.subscribed_topic_regex) is Some {
        Err(pattern_complaint(req.subscribed_topic_regex)->0)
    } else {
        let g1 = with_refreshed(g, id, req, client, now, authorized);
        let g2 = settled_member(g1, assignors, input, id, req);
        let changed = g1.dirty || (g.members.contains_key(id) && ({
            let before = g.members[id];
            let after = g2.members[id];
            before.client_id != after.client_id || before.client_host != after.client_host || before.member_epoch != after.member_epoch
                || before.assigned_partitions != after.assigned_partitions || before.partitions_pending_revocation
                != after.partitions_pending_revocation || before.assignment_state != after.assignment_state
        }));
        Ok((g2, changed))
    }
}

fn refresh_member(
    state: &mut GroupState,
    id: &String,
    req: &ConsumerGroupHeartbeatRequest,
    client: &ClientIdentity,
    now: u64,
    authorized: &OrdSet<String>,
) -> (changed: bool)
    ensures
        final(state)@ == with_refreshed(old(state)@, id@, req@, client@, now, authorized@),
        changed == (old(state)@.members.contains_key(id@) && (old(state)@.members[id@].client_id != client@.id
            || old(state)@.members[id@].client_host != client@.host)),
{
    let ghost g = state@;
    if let Some(mut m) = state.members.remove(id) {
        let ghost before = m@;
        let changed: bool = !str_eq(m.client_id.as_str(), client.id.as_str()) || !str_eq(m.client_host.as_str(), client.host.as_str());
        m.last_seen = now;
        m.client_id = client.id.clone();
        m.client_host = client.host.clone();
        let mut dirty: bool = false;
        if let Some(list) = &req.subscribed_topic_names {
            let names = set_of_names(list);
            if !same_set(&names, &m.subscribed_topic_names) {
                dirty = true;
            }
            m.subscribed_topic_names = names;
        }
        if !opt_same(&m.subscribed_topic_regex, &req.subscribed_topic_regex) {
            m.subscribed_topic_regex = dup_opt_str(&req.subscribed_topic_regex);
            dirty = true;
        }
        if !same_set(&m.regex_authorized_topics, authorized) {
            m.regex_authorized_topics = authorized.dup();
            if m.subscribed_topic_regex.is_some() {
                dirty = true;
            }
        }
        assert(m@ =~= refreshed_member(before, req@, client@, now, authorized@));
        state.members.insert(id.clone(), m);
        if dirty {
            state.dirty = true;
        }
        assert(state@.members =~= with_refreshed(g, id@, req@, client@, now, authorized@).members);
        changed
    } else {
        assert(state@.members =~= g.members);
        false
    }
}

fn update_as<A: Assignor>(
    state: &mut GroupState,
    config: &NextGenConfig<A>,
    input: &ReconcileInput,
    id: &String,
    req: &ConsumerGroupHeartbeatRequest,
    client: &ClientIdentity,
    now: u64,
    authorized: &OrdSet<String>,
) -> (r: Result<bool, String>)
    requires
        config.assignors@.len() > 0,
    ensures
        match r {
            Ok(changed) => updating(old(state)@, config.assignors@, input@, id@, req@, client@, now, authorized@) == Ok::<_, Seq<char>>(
                (final(state)@, changed),
            ),
            Err(message) => final(state)@ == old(state)@ && updating(
                old(state)@,
                config.assignors@,
                input@,
                id@,
                req@,
                client@,
                now,
                authorized@,
            ) == Err::<(GroupStateView, bool), _>(message@),
        },
{
    let ghost g = state@;
    let new_pattern: bool = match state.members.get(id) {
        Some(m) => !opt_same(&m.subscribed_topic_regex, &req.subscribed_topic_regex),
        None => true,
    };
    if new_pattern {
        if let Some(message) = complain(&req.subscribed_topic_regex) {
            return Err(message);
        }
    }
    let client_changed = refresh_member(state, id, req, client, now, authorized);
    let ghost g1 = state@;
    let was_dirty: bool = state.dirty;
    let known: Option<i32> = match state.members.get(id) {
        Some(m) => Some(m.member_epoch),
        None => None,
    };
    state.reconcile_if_dirty(input, config);
    let mut advanced: bool = false;
    if let Some(epoch) = known {
        if state.target.epoch > epoch {
            state.advance_member_epoch(id);
            advanced = true;
        }
    }
    let ghost g2 = state@;
    let owned: Partitions = if req.topic_partitions.is_some() {
        reported_owned(req)
    } else {
        match state.members.get(id) {
            Some(m) => m.assigned_partitions.dup(),
            None => OrdMap::new(),
        }
    };
    assert(owned@ =~= owned_by(g2, id@, req@));
    let moved = state.reconcile_member(id, &owned);
    Ok(client_changed || was_dirty || advanced || moved)
}

/// Brings a steady heartbeat into the group; says whether there is something to write. A new
/// pattern that is not accepted leaves the group as it was.
pub fn update_member_state<A: Assignor>(
    state: &mut GroupState,
    config: &NextGenConfig<A>,
    input: &ReconcileInput,
    req: &ConsumerGroupHeartbeatRequest,
    client: &ClientIdentity,
    now: u64,
    authorized: &OrdSet<String>,
) -> (r: Result<bool, String>)
    requires
        config.assignors@.len() > 0,
    ensures
        match r {
            Ok(changed) => updating(old(state)@, config.assignors@, input@, req@.member_id, req@, client@, now, authorized@) == Ok::<_, Seq<char>>(
                (final(state)@, changed),
            ),
            Err(message) => final(state)@ == old(state)@ && updating(
                old(state)@,
                config.assignors@,
                input@,
                req@.member_id,
                req@,
                client@,
                now,
                authorized@,
            ) == Err::<(GroupStateView, bool), _>(message@),
        },
{
    update_as(state, config, input, &req.member_id, req, client, now, authorized)
}

/// An answer with the interval that the coordinator is configured with.
pub open spec fn answer(error_code: i16, member_epoch: i32, interval: u64) -> HeartbeatResponseView {
    HeartbeatResponseView {
        error_code,
        error_message: None,
        member_id: None,
        member_epoch,
        heartbeat_interval_ms: fitted(interval, FALLBACK_HEARTBEAT_INTERVAL_MS),
        assignment: None,
    }
}

/// A heartbeat that is refused writes nothing.
pub open spec fn refusal(e: HeartbeatErrorView, interval: u64) -> HeartbeatStepView {
    HeartbeatStepView {
        response: HeartbeatResponseView { error_message: Some(e.message), ..answer(e.code, 0, interval) },
        pending: PendingRecordsView::none(),
    }
}

/// The answer to a member that is in the group: what it may own now.
pub open spec fn assigned_answer(g: GroupStateView, id: Seq<char>, interval: u64) -> HeartbeatResponseView {
    HeartbeatResponseView {
        member_id: Some(id),
        assignment: Some(g.members[id].assigned_partitions),
        ..answer(codes::NONE, g.members[id].member_epoch, interval)
    }
}

fn base_resp(error_code: i16, member_epoch: i32, interval: u64) -> (r: ConsumerGroupHeartbeatResponse)
    ensures
        r@ == answer(error_code, member_epoch, interval),
{
    ConsumerGroupHeartbeatResponse {
        error_code,
        error_message: None,
        member_id: None,
        member_epoch,
        heartbeat_interval_ms: fit(interval, FALLBACK_HEARTBEAT_INTERVAL_MS),
        assignment: None,
    }
}

fn rejected(e: HeartbeatError, interval: u64) -> (r: HeartbeatStep)
    ensures
        r@ == refusal(e@, interval),
{
    let mut response = base_resp(e.code, 0, interval);
    response.error_message = Some(e.message);
    HeartbeatStep { response, pending: PendingRecords::none() }
}

fn build_assignment_resp(state: &GroupState, id: &String, interval: u64) -> (r: ConsumerGroupHeartbeatResponse)
    requires
        state@.members.contains_key(id@),
    ensures
        r@ == assigned_answer(state@, id@, interval),
{
    match state.members.get(id) {
        Some(m) => {
            let mut response = base_resp(codes::NONE, m.member_epoch, interval);
            response.member_id = Some(id.clone());
            response.assignment = Some(m.assigned_partitions.dup());
            response
        },
        None => base_resp(codes::NONE, 0, interval),
    }
}

/// A heartbeat that leaves. A static member that sends the epoch of a short leave stays with its
/// assignment, for one that comes back under its identity; any other is removed and the target
/// computed anew for those that stay.
pub open spec fn leave<A: Assignor>(
    g: GroupStateView,
    config: NextGenConfig<A>,
    input: ReconcileInputView,
    req: HeartbeatRequestView,
) -> (GroupStateView, HeartbeatStepView) {
    match leaving_member(g, req) {
        Err(e) => (g, refusal(e, config.heartbeat_interval)),
        Ok(id) => if req.instance_id is Some && req.member_epoch == LEAVE_GROUP_STATIC_MEMBER_EPOCH {
            let g1 = g.released(id);
            (
                g1,
                HeartbeatStepView {
                    response: HeartbeatResponseView {
                        member_id: Some(id),
                        ..answer(codes::NONE, LEAVE_GROUP_STATIC_MEMBER_EPOCH, config.heartbeat_interval)
                    },
                    pending: PendingRecordsView {
                        current_per_member: if g1.members.contains_key(id) {
                            seq![(id, Some(kept_assignment(g1.members[id])))]
                        } else {
                            seq![]
                        },
                        ..PendingRecordsView::none()
                    },
                },
            )
        } else {
            let g1 = reconciled(g.without_member(id), config.assignors@, input);
            (
                g1,
                HeartbeatStepView {
                    response: HeartbeatResponseView { member_id: Some(req.member_id), ..answer(codes::NONE, req.member_epoch, config.heartbeat_interval) },
                    pending: snapshot(g1, seq![], true).and_gone(id),
                },
            )
        },
    }
}

/// Decides a heartbeat that leaves.
pub fn leave_step<A: Assignor>(
    state: &mut GroupState,
    config: &NextGenConfig<A>,
    input: &ReconcileInput,
    req: &ConsumerGroupHeartbeatRequest,
) -> (r: HeartbeatStep)
    requires
        config.assignors@.len() > 0,
    ensures
        (final(state)@, r@) == leave(old(state)@, *config, input@, req@),
{
    let id = match resolve_leaving_member(state, req) {
        Ok(id) => id,
        Err(e) => {
            return rejected(e, config.heartbeat_interval);
        },
    };
    if req.instance_id.is_some() && req.member_epoch == LEAVE_GROUP_STATIC_MEMBER_EPOCH {
        state.release_static_member(&id);
        let mut pending = PendingRecords::none();
        if let Some(m) = state.members.get(&id) {
            let mut list: Vec<Entry<crate::records::CurrentMemberAssignmentValue>> = Vec::new();
            list.push(Entry { member_id: id.clone(), value: Some(current_assignment_value(m)) });
            assert(views(list@) =~= seq![(id@, Some(kept_assignment(m@)))]);
            pending.current_per_member = list;
        }
        let mut response = base_resp(codes::NONE, LEAVE_GROUP_STATIC_MEMBER_EPOCH, config.heartbeat_interval);
        response.member_id = Some(id);
        return HeartbeatStep { response, pending };
    }
    state.remove_member(&id);
    state.reconcile_if_dirty(input, config);
    let nobody: Vec<String> = Vec::new();
    let mut pending = snapshot_pending_after_change(state, &nobody, true);
    assert(views(nobody@) =~= seq![]);
    pending.push_gone(&id);
    let mut response = base_resp(codes::NONE, req.member_epoch, config.heartbeat_interval);
    response.member_id = Some(req.member_id.clone());
    HeartbeatStep { response, pending }
}

/// Whether something is written of what `id` is to hold.
pub open spec fn targets_hold(entries: Seq<(Seq<char>, Option<PartitionsView>)>, id: Seq<char>) -> bool {
    exists|i: int| 0 <= i < entries.len() && (#[trigger] entries[i]).0 == id
}

/// The records of a member that takes the place of `previous`: its target, and everything that is
/// kept of `previous` goes.
pub open spec fn takeover_records(p: PendingRecordsView, g: GroupStateView, previous: Seq<char>, id: Seq<char>) -> PendingRecordsView {
    let p1 = if targets_hold(p.target_per_member, id) {
        p
    } else {
        PendingRecordsView { target_per_member: p.target_per_member.push((id, Some(g.target_of(id)))), ..p }
    };
    if previous != id {
        p1.and_gone(previous)
    } else {
        p1
    }
}

fn holds_target(entries: &Vec<Entry<Partitions>>, id: &String) -> (r: bool)
    ensures
        r == targets_hold(views(entries@), id@),
{
    let mut i: usize = 0;
    while i < entries.len()
        invariant
            0 <= i <= entries@.len(),
            forall|j: int| 0 <= j < i ==> (#[trigger] views(entries@)[j]).0 != id@,
        decreases entries@.len() - i,
    {
        if str_eq(entries[i].member_id.as_str(), id.as_str()) {
            assert(views(entries@)[i as int].0 == id@);
            return true;
        }
        assert(views(entries@)[i as int].0 != id@);
        i = i + 1;
    }
    false
}

fn replacement_records(state: &GroupState, pending: &mut PendingRecords, previous: &String, id: &String)
    ensures
        final(pending)@ == takeover_records(old(pending)@, state@, previous@, id@),
{
    let ghost before = pending@;
    if !holds_target(&pending.target_per_member, id) {
        let target: Partitions = match state.target.per_member.get(id) {
            Some(t) => t.dup(),
            None => OrdMap::new(),
        };
        assert(target@ =~= state@.target_of(id@));
        pending.target_per_member.push(Entry { member_id: id.clone(), value: Some(target) });
        assert(pending@ =~= (PendingRecordsView { target_per_member: before.target_per_member.push((id@, Some(state@.target_of(id@)))), ..before }));
    }
    if !str_eq(previous.as_str(), id.as_str()) {
        pending.push_gone(previous);
    }
}

/// The member `id` takes the place of `previous`: what the heartbeat says of the process that was
/// started anew replaces what was known of the one before.
pub open spec fn taken_over(g: GroupStateView, previous: Seq<char>, id: Seq<char>, req: HeartbeatRequestView) -> GroupStateView {
    let g1 = g.replaced(previous, id);
    if g1.members.contains_key(id) {
        let m = g1.members[id];
        GroupStateView {
            members: g1.members.insert(
                id,
                MemberStateView {
                    rack_id: if req.rack_id is Some {
                        req.rack_id
                    } else {
                        m.rack_id
                    },
                    rebalance_timeout: if req.rebalance_timeout_ms >= 0 {
                        unsigned(req.rebalance_timeout_ms)
                    } else {
                        m.rebalance_timeout
                    },
                    server_assignor: if req.server_assignor is Some {
                        req.server_assignor
                    } else {
                        m.server_assignor
                    },
                    ..m
                },
            ),
            ..g1
        }
    } else {
        g1
    }
}

fn take_over(state: &mut GroupState, previous: &String, id: &String, req: &ConsumerGroupHeartbeatRequest)
    ensures
        final(state)@ == taken_over(old(state)@, previous@, id@, req@),
{
    state.replace_static_member(previous, id);
    let ghost g1 = state@;
    if let Some(mut m) = state.members.remove(id) {
        if req.rack_id.is_some() {
            m.rack_id = dup_opt_str(&req.rack_id);
        }
        if req.rebalance_timeout_ms >= 0 {
            m.rebalance_timeout = to_unsigned(req.rebalance_timeout_ms);
        }
        if req.server_assignor.is_some() {
            m.server_assignor = dup_opt_str(&req.server_assignor);
        }
        state.members.insert(id.clone(), m);
        assert(state@.members =~= g1.members.insert(id@, m@));
    } else {
        assert(state@.members =~= g1.members);
    }
}

/// A member joins: the target is computed with it, it comes to the target's epoch and gets what of
/// its target nobody else holds.
pub open spec fn first_join<A: Assignor>(
    g: GroupStateView,
    config: NextGenConfig<A>,
    input: ReconcileInputView,
    id: Seq<char>,
    req: HeartbeatRequestView,
    client: ClientIdentityView,
    now: u64,
    authorized: Set<Seq<char>>,
) -> (GroupStateView, HeartbeatStepView) {
    let g1 = reconciled(g.with_member(built_member(id, req, client, now, authorized)), config.assignors@, input);
    let g2 = g1.advanced(id).with_reconciled(id, reported(req));
    (g2, HeartbeatStepView { response: assigned_answer(g2, id, config.heartbeat_interval), pending: snapshot(g2, seq![id], true) })
}

/// The heartbeat of a member that is there, or that took the place of `replaced`.
pub open spec fn steady<A: Assignor>(
    g: GroupStateView,
    config: NextGenConfig<A>,
    input: ReconcileInputView,
    id: Seq<char>,
    replaced: Option<Seq<char>>,
    req: HeartbeatRequestView,
    client: ClientIdentityView,
    now: u64,
    authorized: Set<Seq<char>>,
) -> (GroupStateView, HeartbeatStepView) {
    match updating(g, config.assignors@, input, id, req, client, now, authorized) {
        Err(message) => (g, refusal(HeartbeatErrorView { code: codes::INVALID_REGULAR_EXPRESSION, message }, config.heartbeat_interval)),
        Ok((g1, changed)) => {
            let p = if changed || replaced is Some {
                snapshot(g1, seq![id], g1.target_epoch != g.target_epoch)
            } else {
                PendingRecordsView::none()
            };
            (
                g1,
                HeartbeatStepView {
                    response: assigned_answer(g1, id, config.heartbeat_interval),
                    pending: match replaced {
                        Some(previous) => takeover_records(p, g1, previous, id),
                        None => p,
                    },
                },
            )
        },
    }
}

/// The id that a heartbeat speaks for: its own, or `minted` where it has none.
pub open spec fn spoken_id(req: HeartbeatRequestView, minted: Seq<char>) -> Seq<char> {
    if req.member_id.len() == 0 {
        minted
    } else {
        req.member_id
    }
}

/// Whether a heartbeat is one that only goes on: of a member of the consumer protocol, in a group
/// whose target fits, that neither joins nor leaves nor subscribes to anything else.
pub open spec fn goes_on(g: GroupStateView, req: HeartbeatRequestView, authorized: Set<Seq<char>>) -> bool {
    let id = req.member_id;
    let m = g.members[id];
    &&& !g.dirty
    &&& req.member_epoch > 0
    &&& id.len() > 0
    &&& g.members.contains_key(id)
    &&& m.classic is None
    &&& req.subscribed_topic_names is None || name_set(req.subscribed_topic_names->0) == m.subscribed_topic_names
    &&& req.subscribed_topic_regex == m.subscribed_topic_regex
    &&& req.subscribed_topic_regex is None || authorized == m.regex_authorized_topics
}

/// Whether a heartbeat only goes on.
pub fn only_goes_on(state: &GroupState, req: &ConsumerGroupHeartbeatRequest, authorized: &OrdSet<String>) -> (r: bool)
    ensures
        r == goes_on(state@, req@, authorized@),
{
    if state.dirty || req.member_epoch <= 0 || req.member_id.as_str().is_empty() {
        return false;
    }
    match state.members.get(&req.member_id) {
        Some(m) => {
            let same_names: bool = match &req.subscribed_topic_names {
                Some(list) => same_set(&set_of_names(list), &m.subscribed_topic_names),
                None => true,
            };
            !m.is_classic() && same_names && opt_same(&req.subscribed_topic_regex, &m.subscribed_topic_regex) && (req.subscribed_topic_regex.is_none()
                || same_set(authorized, &m.regex_authorized_topics))
        },
        None => false,
    }
}

/// A heartbeat: the group after it, what it is answered and what is written. `minted` is the id
/// for a member that has none.
pub open spec fn beat<A: Assignor>(
    g: GroupStateView,
    config: NextGenConfig<A>,
    input: ReconcileInputView,
    req: HeartbeatRequestView,
    minted: Seq<char>,
    client: ClientIdentityView,
    now: u64,
    authorized: Set<Seq<char>>,
) -> (GroupStateView, HeartbeatStepView) {
    let id = spoken_id(req, minted);
    let interval = config.heartbeat_interval;
    if req.member_epoch == LEAVE_GROUP_MEMBER_EPOCH || req.member_epoch == LEAVE_GROUP_STATIC_MEMBER_EPOCH {
        leave(g, config, input, req)
    } else if req.server_assignor is Some && assignor_called(config.assignors@, req.server_assignor->0) is None {
        (g, HeartbeatStepView { response: answer(codes::UNSUPPORTED_ASSIGNOR, 0, interval), pending: PendingRecordsView::none() })
    } else if listing::<String>(g.members.dom()).len() >= config.max_size && (req.member_id.len() == 0 || !g.members.contains_key(req.member_id)) {
        (g, refusal(full_error(config.max_size), interval))
    } else {
        match resolution(g, req, id) {
            Err(e) => (g, refusal(e, interval)),
            Ok(ResolvedView::Existing) => steady(g, config, input, id, None, req, client, now, authorized),
            Ok(ResolvedView::New) => match pattern_complaint(req.subscribed_topic_regex) {
                Some(message) => (g, refusal(HeartbeatErrorView { code: codes::INVALID_REGULAR_EXPRESSION, message }, interval)),
                None => first_join(g, config, input, id, req, client, now, authorized),
            },
            Ok(ResolvedView::Replaces { previous }) => match pattern_complaint(req.subscribed_topic_regex) {
                Some(message) => (g, refusal(HeartbeatErrorView { code: codes::INVALID_REGULAR_EXPRESSION, message }, interval)),
                None => steady(taken_over(g, previous, id, req), config, input, id, Some(previous), req, client, now, authorized),
            },
        }
    }
}

fn settle<A: Assignor>(
    state: &mut GroupState,
    config: &NextGenConfig<A>,
    input: &ReconcileInput,
    id: &String,
    replaced: Option<String>,
    req: &ConsumerGroupHeartbeatRequest,
    client: &ClientIdentity,
    now: u64,
    authorized: &OrdSet<String>,
) -> (r: HeartbeatStep)
    requires
        config.assignors@.len() > 0,
        old(state)@.members.contains_key(id@),
    ensures
        (final(state)@, r@) == steady(old(state)@, *config, input@, id@, opt_str(replaced), req@, client@, now, authorized@),
{
    let previous_target_epoch: i32 = state.target.epoch;
    let changed: bool = match update_as(state, config, input, id, req, client, now, authorized) {
        Ok(changed) => changed,
        Err(message) => {
            return rejected(HeartbeatError { code: codes::INVALID_REGULAR_EXPRESSION, message }, config.heartbeat_interval);
        },
    };
    let mut pending = if changed || replaced.is_some() {
        let mut one: Vec<String> = Vec::new();
        one.push(id.clone());
        assert(views(one@) =~= seq![id@]);
        snapshot_pending_after_change(state, &one, state.target.epoch != previous_target_epoch)
    } else {
        PendingRecords::none()
    };
    if let Some(previous) = &replaced {
        replacement_records(state, &mut pending, previous, id);
    }
    let response = build_assignment_resp(state, id, config.heartbeat_interval);
    HeartbeatStep { response, pending }
}

fn join_first<A: Assignor>(
    state: &mut GroupState,
    config: &NextGenConfig<A>,
    input: &ReconcileInput,
    id: &String,
    member: MemberState,
    req: &ConsumerGroupHeartbeatRequest,
    client: &ClientIdentity,
    now: u64,
    authorized: &OrdSet<String>,
) -> (r: HeartbeatStep)
    requires
        config.assignors@.len() > 0,
        member@ == built_member(id@, req@, client@, now, authorized@),
    ensures
        (final(state)@, r@) == first_join(old(state)@, *config, input@, id@, req@, client@, now, authorized@),
{
    state.add_or_update_member(member);
    state.reconcile_if_dirty(input, config);
    state.advance_member_epoch(id);
    let owned = reported_owned(req);
    let _ = state.reconcile_member(id, &owned);
    let mut one: Vec<String> = Vec::new();
    one.push(id.clone());
    assert(views(one@) =~= seq![id@]);
    let pending = snapshot_pending_after_change(state, &one, true);
    let response = build_assignment_resp(state, id, config.heartbeat_interval);
    HeartbeatStep { response, pending }
}

/// Decides a heartbeat; `minted` is the id for a member that sends none.
pub fn step_heartbeat_with_id<A: Assignor>(
    state: &mut GroupState,
    config: &NextGenConfig<A>,
    input: &ReconcileInput,
    req: &ConsumerGroupHeartbeatRequest,
    minted: &String,
    client: &ClientIdentity,
    now: u64,
    authorized: &OrdSet<String>,
) -> (r: HeartbeatStep)
    requires
        config.assignors@.len() > 0,
    ensures
        (final(state)@, r@) == beat(old(state)@, *config, input@, req@, minted@, client@, now, authorized@),
{
    if req.member_epoch == LEAVE_GROUP_MEMBER_EPOCH || req.member_epoch == LEAVE_GROUP_STATIC_MEMBER_EPOCH {
        return leave_step(state, config, input, req);
    }
    if let Some(name) = &req.server_assignor {
        if config.find_assignor(name.as_str()).is_none() {
            return HeartbeatStep {
                response: base_resp(codes::UNSUPPORTED_ASSIGNOR, 0, config.heartbeat_interval),
                pending: PendingRecords::none(),
            };
        }
    }
    let unnamed: bool = req.member_id.as_str().is_empty();
    if state.members.len() >= config.max_size && (unnamed || !state.members.contains_key(&req.member_id)) {
        return rejected(full(config.max_size), config.heartbeat_interval);
    }
    let id: &String = if unnamed {
        minted
    } else {
        &req.member_id
    };
    assert(id@ == spoken_id(req@, minted@));
    match resolve_member(state, req, id) {
        Err(e) => rejected(e, config.heartbeat_interval),
        Ok(Resolved::Existing) => {
            settle(state, config, input, id, None, req, client, now, authorized)
        },
        Ok(Resolved::New) => match try_build_member(id, req, client, now, authorized) {
            Ok(member) => join_first(state, config, input, id, member, req, client, now, authorized),
            Err(message) => rejected(HeartbeatError { code: codes::INVALID_REGULAR_EXPRESSION, message }, config.heartbeat_interval),
        },
        Ok(Resolved::Replaces { previous }) => match complain(&req.subscribed_topic_regex) {
            Some(message) => rejected(HeartbeatError { code: codes::INVALID_REGULAR_EXPRESSION, message }, config.heartbeat_interval),
            None => {
                take_over(state, &previous, id, req);
                settle(state, config, input, id, Some(previous), req, client, now, authorized)
            },
        },
    }
}

/// Decides a heartbeat. A member that sends no id gets a fresh one.
pub fn step_heartbeat<A: Assignor>(
    state: &mut GroupState,
    config: &NextGenConfig<A>,
    input: &ReconcileInput,
    req: &ConsumerGroupHeartbeatRequest,
    client: &ClientIdentity,
    now: u64,
    authorized: &OrdSet<String>,
) -> (r: HeartbeatStep)
    requires
        config.assignors@.len() > 0,
    ensures
        exists|minted: Seq<char>| #[trigger] uuid_text(minted) && (final(state)@, r@) == beat(
            old(state)@,
            *config,
            input@,
            req@,
            minted,
            client@,
            now,
            authorized@,
        ),
{
    let minted = fresh_uuid();
    step_heartbeat_with_id(state, config, input, req, &minted, client, now, authorized)
}

} // verus!
