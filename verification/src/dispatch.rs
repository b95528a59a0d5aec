//! What a group does about each message that it is sent, whichever kind it is of now.

use crate::assignor::Assignor;
use crate::classic_join::JoinContext;
use crate::commit_validation::{CommitFence, commit_checked, validate_commit_message};
use crate::config::NextGenConfig;
use crate::consumer_state::{ReconcileInput, ReconcileInputView};
use crate::group::{
    CommittedOffset, CoordinatorGroup, CoordinatorGroupView, GroupKind, GroupKindView, GroupOffsets, PartitionKey, with_committed, without_keys,
};
use crate::heartbeat::{ClientIdentity, ConsumerGroupHeartbeatRequest};
use crate::heartbeat_turn::{
    HeartbeatTurn, begin_heartbeat_with_id, classic_beat, handle_classic_heartbeat_message, heartbeat_begun, heartbeat_looks_at_topics,
    steady_heartbeat_ignores_topics, topics_matter,
};
use crate::ids::{fresh_uuid, uuid_text};
use crate::join_turn::{JoinBegun, JoinTurn, begin_join_with_suffix, join_begun};
use crate::leave_turn::{DeleteGroupError, LeaveTurn, begin_leave, deletion, leave_begun, plan_delete};
use crate::offset_delete::{SubscribedTopics, guard_view, guarded, offset_delete_guard};
use crate::ordmap::{OrdSet, views};
use crate::pending_records::GroupSeed;
use crate::records::{RecordBatch, RecordBatchView};
use crate::requests::{HeartbeatRequest, JoinGroupRequest, LeaveGroupRequest, SyncGroupRequest};
use crate::retention::{Reap, is_reap, plan_reap};
use crate::seed::{apply_seed, seeded};
use crate::sync_turn::{SyncTurn, begin_sync, sync_begun};
use crate::text::opt_str;
use crate::topic_deletion::{DeletedTopic, TopicDeletion, is_topic_deletion, plan_topic_deletion};
use crate::views::{
    ClassicView, DescribeView, GroupSnapshot, build_classic_view, build_describe, described, inspect_any, reported_group, shown_classic,
};
use crate::waiters::{Parked, ParkedView, Round, deadline_passed, pass_deadline};
use vstd::prelude::*;

verus! {

/// What a group may be sent.
#[derive(Debug, PartialEq, Eq)]
pub enum GroupActorMessage {
    Heartbeat { request: ConsumerGroupHeartbeatRequest, client: ClientIdentity, authorized: OrdSet<String> },
    /// May an offset be committed? `generation_or_epoch` is read by what the group is now.
    ValidateCommit { member_id: String, group_instance_id: Option<String>, generation_or_epoch: i32, fence: CommitFence },
    /// Of a consumer group only.
    Describe,
    ClassicJoin { req: JoinGroupRequest, version: i16, client_id: String, client_host: String },
    ClassicSync { req: SyncGroupRequest },
    ClassicHeartbeat { req: HeartbeatRequest },
    ClassicLeave { req: LeaveGroupRequest, version: i16 },
    /// A group without members is to go.
    ClassicDelete,
    /// Of a classic group only.
    ClassicInspect,
    /// Of a group of either kind.
    InspectAny,
    OffsetDeleteGuard,
    UpdateCommitted { entries: Vec<CommittedOffset> },
    FetchOffsets,
    RemoveCommitted { keys: Vec<PartitionKey> },
    /// An open transaction is about to write offsets, or is not after all.
    TxnOffsetReservation { producer_id: i64, keys: Vec<PartitionKey>, reserve: bool },
    /// An open transaction wrote offsets.
    AddPendingTxnOffsets { producer_id: i64, written_at: i64, keys: Vec<PartitionKey> },
    /// A marker ended a transaction, and left these offsets committed.
    ResolveTxnOffsets { producer_id: i64, resolved_through: i64, committed: Vec<CommittedOffset> },
    /// Topics were deleted.
    DeleteTopicOffsets { topics: Vec<DeletedTopic> },
    /// What expired is to go.
    Reap { retention_ms: i64, grace_ms: i64 },
    /// What was read back of a consumer group.
    Seed(GroupSeed),
    /// What was read back of a whole group.
    ClassicSeed(CoordinatorGroup),
    Shutdown,
}

/// How far the answer to a message has come.
#[derive(Debug, PartialEq, Eq)]
pub enum GroupActorStep {
    Heartbeat(HeartbeatTurn),
    Validated(Result<(), i16>),
    /// There is no answer where the group is not a consumer group.
    Described(Option<DescribeView>),
    Join(JoinTurn),
    Sync(SyncTurn),
    ClassicHeartbeat(i16),
    Leave(LeaveTurn),
    /// The tombstones to be appended, or why the group may not go.
    Delete(Result<RecordBatch, DeleteGroupError>),
    /// There is no answer where the group is not classic.
    ClassicInspected(Option<ClassicView>),
    Inspected(GroupSnapshot),
    Guarded(Result<SubscribedTopics, i16>),
    Offsets(GroupOffsets),
    TopicDeletion(Option<TopicDeletion>),
    Reap(Option<Reap>),
    Done,
    /// The group is served no longer.
    Stopped,
}

/// A group and who waits in it.
#[verifier::ext_equal]
pub struct Served {
    pub group: CoordinatorGroupView,
    pub parked: ParkedView,
}

/// Whether the message reads the group and changes nothing.
pub open spec fn only_reads(message: GroupActorMessage) -> bool {
    match message {
        GroupActorMessage::Describe
        | GroupActorMessage::ClassicDelete
        | GroupActorMessage::ClassicInspect
        | GroupActorMessage::InspectAny
        | GroupActorMessage::OffsetDeleteGuard
        | GroupActorMessage::FetchOffsets
        | GroupActorMessage::DeleteTopicOffsets { .. }
        | GroupActorMessage::Reap { .. }
        | GroupActorMessage::Shutdown => true,
        _ => false,
    }
}

/// What a `JoinGroup` depends on besides its request.
pub open spec fn is_context<A: Assignor>(ctx: JoinContext, config: NextGenConfig<A>, client_id: Seq<char>, client_host: Seq<char>, version: i16, now: u64) -> bool {
    &&& ctx.client_id@ == client_id
    &&& ctx.client_host@ == client_host
    &&& ctx.version == version
    &&& ctx.initial_rebalance_delay == config.classic_initial_rebalance_delay
    &&& ctx.max_size == config.classic_max_size
    &&& ctx.now == now
}

/// Whether `step` is the answer to a message that only reads the group.
pub open spec fn reads(g: CoordinatorGroupView, input: ReconcileInputView, message: GroupActorMessage, step: GroupActorStep, now_ms: i64) -> bool {
    match message {
        GroupActorMessage::Describe => match step {
            GroupActorStep::Described(Some(d)) => g.kind is Consumer && d@ == described(g.kind->Consumer_0),
            GroupActorStep::Described(None) => g.kind is Classic,
            _ => false,
        },
        GroupActorMessage::ClassicDelete => match step {
            GroupActorStep::Delete(Ok(batch)) => deletion(g, now_ms) == Ok::<RecordBatchView, DeleteGroupError>(batch@),
            GroupActorStep::Delete(Err(e)) => deletion(g, now_ms) == Err::<RecordBatchView, DeleteGroupError>(e),
            _ => false,
        },
        GroupActorMessage::ClassicInspect => match step {
            GroupActorStep::ClassicInspected(Some(v)) => g.kind is Classic && v@ == shown_classic(g.kind->Classic_0),
            GroupActorStep::ClassicInspected(None) => g.kind is Consumer,
            _ => false,
        },
        GroupActorMessage::InspectAny => step matches GroupActorStep::Inspected(v) && v@ == reported_group(g, input),
        GroupActorMessage::OffsetDeleteGuard => step matches GroupActorStep::Guarded(r) && guard_view(r) == guarded(g),
        GroupActorMessage::FetchOffsets => {
            &&& step matches GroupActorStep::Offsets(o)
            &&& o.committed@ == g.committed_offsets
            &&& o.pending_txn@ == g.pending_keys()
        },
        GroupActorMessage::DeleteTopicOffsets { topics } => step matches GroupActorStep::TopicDeletion(r) && is_topic_deletion(
            g,
            views(topics@),
            now_ms,
            r,
        ),
        GroupActorMessage::Reap { retention_ms, grace_ms } => step matches GroupActorStep::Reap(r) && is_reap(g, now_ms, retention_ms, grace_ms, r),
        GroupActorMessage::Shutdown => step is Stopped,
        _ => true,
    }
}

/// Whether `step` is the answer to a message of the group's members, and `to` what the group is after
/// it; `minted` is the id of a member that brings none.
pub open spec fn serves<A: Assignor>(
    from: Served,
    to: Served,
    config: NextGenConfig<A>,
    input: ReconcileInputView,
    message: GroupActorMessage,
    step: GroupActorStep,
    minted: Seq<char>,
    now: u64,
    now_ms: i64,
) -> bool {
    let g = from.group;
    match message {
        GroupActorMessage::Heartbeat { request, client, authorized } => {
            &&& step matches GroupActorStep::Heartbeat(turn)
            &&& (to.group, turn@) == heartbeat_begun(g, config, input, request@, minted, client@, now, now_ms, authorized@)
            &&& to.parked == from.parked
        },
        GroupActorMessage::ValidateCommit { member_id, group_instance_id, generation_or_epoch, fence } => {
            &&& step matches GroupActorStep::Validated(r)
            &&& (to.group, r) == commit_checked(g, member_id@, opt_str(group_instance_id), generation_or_epoch, fence, now)
            &&& to.parked == from.parked
        },
        GroupActorMessage::ClassicJoin { req, version, client_id, client_host } => {
            &&& step matches GroupActorStep::Join(turn)
            &&& exists|ctx: JoinContext| #[trigger]
                is_context(ctx, config, client_id@, client_host@, version, now) && (JoinBegun { group: to.group, parked: to.parked, turn: turn@ })
                    == join_begun(g, from.parked, config, input, req@, ctx, minted, now_ms)
        },
        GroupActorMessage::ClassicSync { req } => step matches GroupActorStep::Sync(turn) && (to.group, to.parked, turn@) == sync_begun(
            g,
            from.parked,
            input,
            req,
            now,
            now_ms,
        ),
        GroupActorMessage::ClassicHeartbeat { req } => {
            &&& step matches GroupActorStep::ClassicHeartbeat(code)
            &&& (to.group, code) == classic_beat(g, req, input, now)
            &&& to.parked == from.parked
        },
        GroupActorMessage::ClassicLeave { req, version } => step matches GroupActorStep::Leave(turn) && (to.group, to.parked, turn@) == leave_begun(
            g,
            from.parked,
            config,
            input,
            req,
            version,
            now,
            now_ms,
        ),
        _ => true,
    }
}

/// The group after a message on its offsets, or one that brings what was read back.
pub open spec fn noted(g: CoordinatorGroupView, input: ReconcileInputView, message: GroupActorMessage, now: u64) -> CoordinatorGroupView {
    match message {
        GroupActorMessage::UpdateCommitted { entries } => CoordinatorGroupView {
            committed_offsets: with_committed(g.committed_offsets, views(entries@)),
            ..g
        },
        GroupActorMessage::RemoveCommitted { keys } => CoordinatorGroupView { committed_offsets: without_keys(g.committed_offsets, views(keys@)), ..g },
        GroupActorMessage::TxnOffsetReservation { producer_id, keys, reserve } => if reserve {
            g.reserved(producer_id, views(keys@))
        } else {
            g.unreserved(producer_id, views(keys@))
        },
        GroupActorMessage::AddPendingTxnOffsets { producer_id, written_at, keys } => g.marked(producer_id, written_at, views(keys@)),
        GroupActorMessage::ResolveTxnOffsets { producer_id, resolved_through, committed } => g.resolved(
            producer_id,
            resolved_through,
            views(committed@),
        ),
        GroupActorMessage::Seed(seed) => match g.kind {
            GroupKindView::Consumer(state) => CoordinatorGroupView { kind: GroupKindView::Consumer(seeded(state, seed@, input, now)), ..g },
            GroupKindView::Classic(_) => g,
        },
        GroupActorMessage::ClassicSeed(group) => group@,
        _ => g,
    }
}

/// Whether a message is of the group's members.
pub open spec fn of_members(message: GroupActorMessage) -> bool {
    match message {
        GroupActorMessage::Heartbeat { .. }
        | GroupActorMessage::ValidateCommit { .. }
        | GroupActorMessage::ClassicJoin { .. }
        | GroupActorMessage::ClassicSync { .. }
        | GroupActorMessage::ClassicHeartbeat { .. }
        | GroupActorMessage::ClassicLeave { .. } => true,
        _ => false,
    }
}

/// Whether `step` is the answer to `message`, and `to` what the group is after it.
pub open spec fn dispatched<A: Assignor>(
    from: Served,
    to: Served,
    config: NextGenConfig<A>,
    input: ReconcileInputView,
    message: GroupActorMessage,
    step: GroupActorStep,
    minted: Seq<char>,
    now: u64,
    now_ms: i64,
) -> bool {
    if only_reads(message) {
        to == from && reads(from.group, input, message, step, now_ms)
    } else if of_members(message) {
        serves(from, to, config, input, message, step, minted, now, now_ms)
    } else {
        step is Done && to == (Served { group: noted(from.group, input, message, now), ..from })
    }
}

/// Whether what the topics look like may matter to the answer to a message.
pub open spec fn topics_matter_to(g: CoordinatorGroupView, message: GroupActorMessage) -> bool {
    match message {
        GroupActorMessage::Heartbeat { request, authorized, .. } => topics_matter(g, request@, authorized@),
        GroupActorMessage::ClassicJoin { .. }
        | GroupActorMessage::ClassicSync { .. }
        | GroupActorMessage::ClassicHeartbeat { .. }
        | GroupActorMessage::ClassicLeave { .. }
        | GroupActorMessage::InspectAny
        | GroupActorMessage::Seed(_) => g.kind is Consumer,
        _ => false,
    }
}

/// Whether what the topics look like may matter to the answer to a message.
pub fn looks_at_topics(group: &CoordinatorGroup, message: &GroupActorMessage) -> (r: bool)
    ensures
        r == topics_matter_to(group@, *message),
{
    match message {
        GroupActorMessage::Heartbeat { request, authorized, .. } => heartbeat_looks_at_topics(group, request, authorized),
        GroupActorMessage::ClassicJoin { .. }
        | GroupActorMessage::ClassicSync { .. }
        | GroupActorMessage::ClassicHeartbeat { .. }
        | GroupActorMessage::ClassicLeave { .. }
        | GroupActorMessage::InspectAny
        | GroupActorMessage::Seed(_) => match &group.kind {
            GroupKind::Consumer(_) => true,
            GroupKind::Classic(_) => false,
        },
        _ => false,
    }
}

/// Where the topics do not matter to a message, its answer and the group after it are the same
/// whatever they look like.
pub proof fn message_ignores_topics<A: Assignor>(
    from: Served,
    to: Served,
    config: NextGenConfig<A>,
    a: ReconcileInputView,
    b: ReconcileInputView,
    message: GroupActorMessage,
    step: GroupActorStep,
    minted: Seq<char>,
    now: u64,
    now_ms: i64,
)
    requires
        !topics_matter_to(from.group, message),
    ensures
        dispatched(from, to, config, a, message, step, minted, now, now_ms) == dispatched(from, to, config, b, message, step, minted, now, now_ms),
{
    match message {
        GroupActorMessage::Heartbeat { request, client, authorized } => {
            steady_heartbeat_ignores_topics(from.group, config, a, b, request@, minted, client@, now, now_ms, authorized@);
        },
        GroupActorMessage::ClassicJoin { req, version, client_id, client_host } => {
            assert forall|ctx: JoinContext| join_begun(from.group, from.parked, config, a, req@, ctx, minted, now_ms) == #[trigger] join_begun(
                from.group,
                from.parked,
                config,
                b,
                req@,
                ctx,
                minted,
                now_ms,
            ) by {}
            assert(forall|ctx: JoinContext| #[trigger]
                is_context(ctx, config, client_id@, client_host@, version, now) ==> join_begun(
                    from.group,
                    from.parked,
                    config,
                    a,
                    req@,
                    ctx,
                    minted,
                    now_ms,
                ) == join_begun(from.group, from.parked, config, b, req@, ctx, minted, now_ms));
        },
        _ => {},
    }
}

/// Answers a message, or says what has to be appended before it can be. A member that brings no id
/// gets `minted`.
pub fn handle_actor_message_with_id<A: Assignor>(
    group: &mut CoordinatorGroup,
    parked: &mut Parked,
    config: &NextGenConfig<A>,
    input: &ReconcileInput,
    message: GroupActorMessage,
    minted: &String,
    now: u64,
    now_ms: i64,
) -> (r: GroupActorStep)
    requires
        config.assignors@.len() > 0,
    ensures
        dispatched(
            (Served { group: old(group)@, parked: old(parked)@ }),
            (Served { group: final(group)@, parked: final(parked)@ }),
            *config,
            input@,
            message,
            r,
            minted@,
            now,
            now_ms,
        ),
{
    match message {
        GroupActorMessage::Heartbeat { request, client, authorized } => GroupActorStep::Heartbeat(
            begin_heartbeat_with_id(group, config, input, &request, minted, &client, now, now_ms, &authorized),
        ),
        GroupActorMessage::ValidateCommit { member_id, group_instance_id, generation_or_epoch, fence } => GroupActorStep::Validated(
            validate_commit_message(group, &member_id, &group_instance_id, generation_or_epoch, fence, now),
        ),
        GroupActorMessage::Describe => GroupActorStep::Described(
            match &group.kind {
                GroupKind::Consumer(state) => Some(build_describe(state)),
                GroupKind::Classic(_) => None,
            },
        ),
        GroupActorMessage::ClassicJoin { req, version, client_id, client_host } => {
            let mut req = req;
            let ctx = JoinContext {
                client_id,
                client_host,
                version,
                initial_rebalance_delay: config.classic_initial_rebalance_delay,
                max_size: config.classic_max_size,
                now,
            };
            assert(is_context(ctx, *config, client_id@, client_host@, version, now));
            GroupActorStep::Join(begin_join_with_suffix(group, parked, config, input, &mut req, &ctx, minted.as_str(), now_ms))
        },
        GroupActorMessage::ClassicSync { req } => GroupActorStep::Sync(begin_sync(group, parked, input, &req, now, now_ms)),
        GroupActorMessage::ClassicHeartbeat { req } => GroupActorStep::ClassicHeartbeat(handle_classic_heartbeat_message(group, input, &req, now)),
        GroupActorMessage::ClassicLeave { req, version } => GroupActorStep::Leave(
            begin_leave(group, parked, config, input, &req, version, now, now_ms),
        ),
        GroupActorMessage::ClassicDelete => GroupActorStep::Delete(plan_delete(group, now_ms)),
        GroupActorMessage::ClassicInspect => GroupActorStep::ClassicInspected(
            match &group.kind {
                GroupKind::Classic(state) => Some(build_classic_view(state)),
                GroupKind::Consumer(_) => None,
            },
        ),
        GroupActorMessage::InspectAny => GroupActorStep::Inspected(inspect_any(group, input)),
        GroupActorMessage::OffsetDeleteGuard => GroupActorStep::Guarded(offset_delete_guard(group)),
        GroupActorMessage::UpdateCommitted { entries } => {
            group.update_committed(&entries);
            GroupActorStep::Done
        },
        GroupActorMessage::FetchOffsets => GroupActorStep::Offsets(group.offsets()),
        GroupActorMessage::RemoveCommitted { keys } => {
            group.remove_committed(&keys);
            GroupActorStep::Done
        },
        GroupActorMessage::TxnOffsetReservation { producer_id, keys, reserve } => {
            group.reserve_txn_offsets(producer_id, &keys, reserve);
            GroupActorStep::Done
        },
        GroupActorMessage::AddPendingTxnOffsets { producer_id, written_at, keys } => {
            group.add_pending_txn_offsets(producer_id, written_at, &keys);
            GroupActorStep::Done
        },
        GroupActorMessage::ResolveTxnOffsets { producer_id, resolved_through, committed } => {
            group.resolve_txn_offsets(producer_id, resolved_through, &committed);
            GroupActorStep::Done
        },
        GroupActorMessage::DeleteTopicOffsets { topics } => GroupActorStep::TopicDeletion(plan_topic_deletion(group, &topics, now_ms)),
        GroupActorMessage::Reap { retention_ms, grace_ms } => GroupActorStep::Reap(plan_reap(group, now_ms, retention_ms, grace_ms)),
        GroupActorMessage::Seed(seed) => {
            match &mut group.kind {
                GroupKind::Consumer(state) => {
                    apply_seed(state, &seed, input, now);
                },
                GroupKind::Classic(_) => {},
            }
            GroupActorStep::Done
        },
        GroupActorMessage::ClassicSeed(seeded_group) => {
            *group = seeded_group;
            GroupActorStep::Done
        },
        GroupActorMessage::Shutdown => GroupActorStep::Stopped,
    }
}

/// Answers a message, or says what has to be appended before it can be. A member that brings no id
/// gets a fresh one.
pub fn handle_actor_message<A: Assignor>(
    group: &mut CoordinatorGroup,
    parked: &mut Parked,
    config: &NextGenConfig<A>,
    input: &ReconcileInput,
    message: GroupActorMessage,
    now: u64,
    now_ms: i64,
) -> (r: GroupActorStep)
    requires
        config.assignors@.len() > 0,
    ensures
        exists|minted: Seq<char>| #[trigger]
            uuid_text(minted) && dispatched(
                (Served { group: old(group)@, parked: old(parked)@ }),
                (Served { group: final(group)@, parked: final(parked)@ }),
                *config,
                input@,
                message,
                r,
                minted,
                now,
                now_ms,
            ),
{
    let minted = fresh_uuid();
    handle_actor_message_with_id(group, parked, config, input, message, &minted, now, now_ms)
}

/// Ends the open round of a classic group whose deadline passed. A consumer group has no round.
pub fn handle_deadline(group: &mut CoordinatorGroup, parked: &mut Parked, now: u64, now_ms: i64) -> (r: Option<Round>)
    ensures
        match old(group)@.kind {
            GroupKindView::Classic(state) => {
                let round = deadline_passed(state, old(parked)@, now);
                &&& r matches Some(got) && got.is(round, state, now_ms)
                &&& final(group)@ == (CoordinatorGroupView { kind: GroupKindView::Classic(round.group), ..old(group)@ })
                &&& final(parked)@ == round.parked
            },
            GroupKindView::Consumer(_) => r is None && final(group)@ == old(group)@ && final(parked)@ == old(parked)@,
        },
{
    match &mut group.kind {
        GroupKind::Classic(state) => Some(pass_deadline(state, parked, now, now_ms)),
        GroupKind::Consumer(_) => None,
    }
}

} // verus!
