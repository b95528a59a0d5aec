//! A classic `JoinGroup` from request to answer, with the append that it waits for.

use crate::assignor::Assignor;
use crate::classic_join::{JoinAction, JoinActionView, JoinContext, handle_join_with_suffix, joining};
use crate::classic_state::{ClassicGroup, ClassicGroupView};
use crate::codes;
use crate::config::NextGenConfig;
use crate::consumer_state::{GroupState, GroupStateView, ReconcileInput, ReconcileInputView, reconciled};
use crate::directory::{Directory, DirectoryView};
use crate::group::{CoordinatorGroup, CoordinatorGroupView, GroupKind, GroupKindView};
use crate::heartbeat_turn::delta_batch;
use crate::hosting::{build_hosted_classic_join_result, hosted_join_result, hosted_protocol, register, registered, registration, upsert_classic_member};
use crate::ids::{fresh_uuid, uuid_text};
use crate::ordmap::{Dup, views};
use crate::pending_records::{PendingRecords, PendingRecordsView, seeds_after};
use crate::persistence::{snapshot, snapshot_pending_after_change};
use crate::records::{RecordBatch, RecordBatchView, opt_view};
use crate::requests::{JoinGroupRequest, JoinGroupRequestView, JoinResult, JoinResultView, join_error};
use crate::text::{dup_opt_str, opt_str};
use crate::waiters::{
    Emptied, EmptiedView, Parked, ParkedView, Replies, RepliesView, classic_batch, complete_classic_rebalance, ended_round, snapshot_batch, turn_away,
    turned_away,
};
use vstd::prelude::*;

verus! {

/// How far a `JoinGroup` has come.
#[derive(Debug, PartialEq, Eq)]
pub enum JoinTurn {
    /// It is answered, or waits under the member's id where there is no reply.
    Done { member_id: String, reply: Option<JoinResult>, replies: Replies, emptied: Option<Emptied> },
    /// It is answered once the classic group is written.
    Persist { batch: RecordBatch, previous: ClassicGroup, member_id: String, reply: JoinResult, replies: Replies },
    /// It is answered once the consumer group that hosts the member is written.
    Host { batch: RecordBatch, pending: PendingRecords, member_id: String, protocol: Option<String> },
}

#[verifier::ext_equal]
pub enum JoinTurnView {
    Done { member_id: Seq<char>, reply: Option<JoinResultView>, replies: RepliesView, emptied: Option<EmptiedView> },
    Persist { batch: RecordBatchView, previous: ClassicGroupView, member_id: Seq<char>, reply: JoinResultView, replies: RepliesView },
    Host { batch: RecordBatchView, pending: PendingRecordsView, member_id: Seq<char>, protocol: Option<Seq<char>> },
}

impl View for JoinTurn {
    type V = JoinTurnView;

    open spec fn view(&self) -> JoinTurnView {
        match self {
            JoinTurn::Done { member_id, reply, replies, emptied } => JoinTurnView::Done {
                member_id: member_id@,
                reply: opt_view(*reply),
                replies: replies@,
                emptied: opt_view(*emptied),
            },
            JoinTurn::Persist { batch, previous, member_id, reply, replies } => JoinTurnView::Persist {
                batch: batch@,
                previous: previous@,
                member_id: member_id@,
                reply: reply@,
                replies: replies@,
            },
            JoinTurn::Host { batch, pending, member_id, protocol } => JoinTurnView::Host {
                batch: batch@,
                pending: pending@,
                member_id: member_id@,
                protocol: opt_str(*protocol),
            },
        }
    }
}

/// The group, who waits, and how far the `JoinGroup` has come.
#[verifier::ext_equal]
pub struct JoinBegun {
    pub group: CoordinatorGroupView,
    pub parked: ParkedView,
    pub turn: JoinTurnView,
}

/// What waits under the old id of a static member that came back is fenced.
pub open spec fn fenced(parked: ParkedView, old_id: Option<Seq<char>>) -> (ParkedView, RepliesView) {
    match old_id {
        Some(id) => turned_away(parked, seq![id], codes::FENCED_INSTANCE_ID),
        None => (parked, RepliesView::none()),
    }
}

/// A `JoinGroup` in a classic group: it is answered, or waits, or ends the round.
pub open spec fn classic_join_begun(
    state: ClassicGroupView,
    parked: ParkedView,
    req: JoinGroupRequestView,
    ctx: JoinContext,
    suffix: Seq<char>,
    now_ms: i64,
) -> (ClassicGroupView, ParkedView, JoinTurnView) {
    let step = joining(state, req, ctx, suffix);
    let (left, told) = fenced(parked, step.outcome.fenced_member);
    let waiting = ParkedView { joiners: left.joiners.insert(step.member_id), ..left };
    match step.outcome.action {
        JoinActionView::Immediate(reply) => (
            step.group,
            left,
            JoinTurnView::Done { member_id: step.member_id, reply: Some(reply), replies: told, emptied: None },
        ),
        JoinActionView::PersistThenReply(reply) => (
            step.group,
            left,
            JoinTurnView::Persist { batch: snapshot_batch(step.group, now_ms), previous: state, member_id: step.member_id, reply, replies: told },
        ),
        JoinActionView::Park => (
            step.group,
            waiting,
            JoinTurnView::Done { member_id: step.member_id, reply: None, replies: told, emptied: None },
        ),
        JoinActionView::CompleteNow => {
            let round = ended_round(step.group, waiting, ctx.now);
            (
                round.group,
                round.parked,
                JoinTurnView::Done {
                    member_id: step.member_id,
                    reply: None,
                    replies: told.and(round.replies),
                    emptied: round.to_write(step.group, now_ms),
                },
            )
        },
    }
}

/// A `JoinGroup` that is answered with nothing else to do.
pub open spec fn hosted_plainly(member_id: Seq<char>, reply: JoinResultView) -> JoinTurnView {
    JoinTurnView::Done { member_id, reply: Some(reply), replies: RepliesView::none(), emptied: None }
}

/// A `JoinGroup` in a consumer group, which hosts the member: where it calls for a new target, the
/// target is computed and the member comes to its epoch, to be written first.
pub open spec fn hosted_join_begun<A: Assignor>(
    state: GroupStateView,
    group_id: Seq<char>,
    config: NextGenConfig<A>,
    input: ReconcileInputView,
    req: JoinGroupRequestView,
    ctx: JoinContext,
    now_ms: i64,
) -> (GroupStateView, JoinTurnView) {
    let h = registered(state, registration(req, ctx.client_id@, ctx.client_host@), ctx.now);
    let protocol = hosted_protocol(req.protocols);
    let k = reconciled(h, config.assignors@, input).advanced(req.member_id);
    let pending = snapshot(k, seq![req.member_id], true);
    if !h.dirty {
        (h, hosted_plainly(req.member_id, hosted_join_result(h, req.member_id, protocol)))
    } else if pending == PendingRecordsView::none() {
        (k, hosted_plainly(req.member_id, hosted_join_result(k, req.member_id, protocol)))
    } else {
        (k, JoinTurnView::Host { batch: delta_batch(group_id, pending, now_ms), pending, member_id: req.member_id, protocol })
    }
}

/// A `JoinGroup` begins.
pub open spec fn join_begun<A: Assignor>(
    g: CoordinatorGroupView,
    parked: ParkedView,
    config: NextGenConfig<A>,
    input: ReconcileInputView,
    req: JoinGroupRequestView,
    ctx: JoinContext,
    suffix: Seq<char>,
    now_ms: i64,
) -> JoinBegun {
    match g.kind {
        GroupKindView::Classic(state) => {
            let (h, left, turn) = classic_join_begun(state, parked, req, ctx, suffix, now_ms);
            JoinBegun { group: CoordinatorGroupView { kind: GroupKindView::Classic(h), ..g }, parked: left, turn }
        },
        GroupKindView::Consumer(state) => {
            let (h, turn) = hosted_join_begun(state, g.group_id, config, input, req, ctx, now_ms);
            JoinBegun { group: CoordinatorGroupView { kind: GroupKindView::Consumer(h), ..g }, parked, turn }
        },
    }
}

fn begin_classic_join(state: &mut ClassicGroup, parked: &mut Parked, req: &mut JoinGroupRequest, ctx: &JoinContext, suffix: &str, now_ms: i64) -> (r: JoinTurn)
    ensures
        (final(state)@, final(parked)@, r@) == classic_join_begun(old(state)@, old(parked)@, old(req)@, *ctx, suffix@, now_ms),
{
    let ghost g = state@;
    let ghost p = parked@;
    let previous: ClassicGroup = state.dup();
    let outcome = handle_join_with_suffix(state, req, ctx, suffix);
    let mut replies = match outcome.fenced_member {
        Some(id) => {
            let mut one: Vec<String> = Vec::new();
            one.push(id);
            assert(views(one@) =~= seq![id@]);
            turn_away(parked, &one, codes::FENCED_INSTANCE_ID)
        },
        None => Replies::none(),
    };
    match outcome.action {
        JoinAction::Immediate(reply) => JoinTurn::Done { member_id: req.member_id.clone(), reply: Some(reply), replies, emptied: None },
        JoinAction::PersistThenReply(reply) => {
            let batch = classic_batch(state, now_ms);
            JoinTurn::Persist { batch, previous, member_id: req.member_id.clone(), reply, replies }
        },
        JoinAction::Park => {
            parked.joiners.insert(req.member_id.clone());
            JoinTurn::Done { member_id: req.member_id.clone(), reply: None, replies, emptied: None }
        },
        JoinAction::CompleteNow => {
            parked.joiners.insert(req.member_id.clone());
            let round = complete_classic_rebalance(state, parked, ctx.now, now_ms);
            replies.append(round.replies);
            JoinTurn::Done { member_id: req.member_id.clone(), reply: None, replies, emptied: round.emptied }
        },
    }
}

fn begin_hosted_join<A: Assignor>(
    state: &mut GroupState,
    group_id: &String,
    config: &NextGenConfig<A>,
    input: &ReconcileInput,
    req: &JoinGroupRequest,
    ctx: &JoinContext,
    now_ms: i64,
) -> (r: JoinTurn)
    requires
        config.assignors@.len() > 0,
    ensures
        (final(state)@, r@) == hosted_join_begun(old(state)@, group_id@, *config, input@, req@, *ctx, now_ms),
{
    let (reg, protocol) = register(req, &ctx.client_id, &ctx.client_host);
    upsert_classic_member(state, reg, ctx.now);
    if !state.dirty {
        let reply = build_hosted_classic_join_result(state, &req.member_id, protocol);
        return JoinTurn::Done { member_id: req.member_id.clone(), reply: Some(reply), replies: Replies::none(), emptied: None };
    }
    state.reconcile_if_dirty(input, config);
    state.advance_member_epoch(&req.member_id);
    let mut one: Vec<String> = Vec::new();
    one.push(req.member_id.clone());
    assert(views(one@) =~= seq![req@.member_id]);
    let pending = snapshot_pending_after_change(state, &one, true);
    if pending.is_empty() {
        let reply = build_hosted_classic_join_result(state, &req.member_id, protocol);
        return JoinTurn::Done { member_id: req.member_id.clone(), reply: Some(reply), replies: Replies::none(), emptied: None };
    }
    let batch = pending.to_batch(group_id, now_ms);
    JoinTurn::Host { batch, pending, member_id: req.member_id.clone(), protocol }
}

/// Begins a `JoinGroup`; `suffix` ends the id of a member that is given one.
pub fn begin_join_with_suffix<A: Assignor>(
    group: &mut CoordinatorGroup,
    parked: &mut Parked,
    config: &NextGenConfig<A>,
    input: &ReconcileInput,
    req: &mut JoinGroupRequest,
    ctx: &JoinContext,
    suffix: &str,
    now_ms: i64,
) -> (r: JoinTurn)
    requires
        config.assignors@.len() > 0,
    ensures
        (JoinBegun { group: final(group)@, parked: final(parked)@, turn: r@ }) == join_begun(
            old(group)@,
            old(parked)@,
            *config,
            input@,
            old(req)@,
            *ctx,
            suffix@,
            now_ms,
        ),
{
    match &mut group.kind {
        GroupKind::Classic(state) => begin_classic_join(state, parked, req, ctx, suffix, now_ms),
        GroupKind::Consumer(state) => begin_hosted_join(state, &group.group_id, config, input, req, ctx, now_ms),
    }
}

/// Begins a `JoinGroup`. A member that is given an id gets one with a fresh suffix.
pub fn begin_join<A: Assignor>(
    group: &mut CoordinatorGroup,
    parked: &mut Parked,
    config: &NextGenConfig<A>,
    input: &ReconcileInput,
    req: &mut JoinGroupRequest,
    ctx: &JoinContext,
    now_ms: i64,
) -> (r: JoinTurn)
    requires
        config.assignors@.len() > 0,
    ensures
        exists|suffix: Seq<char>| #[trigger] uuid_text(suffix) && (JoinBegun { group: final(group)@, parked: final(parked)@, turn: r@ }) == join_begun(
            old(group)@,
            old(parked)@,
            *config,
            input@,
            old(req)@,
            *ctx,
            suffix,
            now_ms,
        ),
{
    let suffix = fresh_uuid();
    begin_join_with_suffix(group, parked, config, input, req, ctx, suffix.as_str(), now_ms)
}

/// The answer where a classic group could not be written, from the group as it was before.
pub open spec fn unwritten(previous: ClassicGroupView, member_id: Seq<char>) -> JoinResultView {
    JoinResultView {
        protocol_type: previous.protocol_type,
        protocol_name: previous.protocol_name,
        ..join_error(codes::COORDINATOR_LOAD_IN_PROGRESS, member_id)
    }
}

/// Answers a `JoinGroup` once the classic group is written. Where it could not be, the group is
/// what it was before.
pub fn finish_classic_join(group: &mut CoordinatorGroup, previous: ClassicGroup, member_id: String, reply: JoinResult, appended: bool) -> (r: JoinResult)
    ensures
        r@ == if appended {
            reply@
        } else {
            unwritten(previous@, member_id@)
        },
        final(group)@ == if appended {
            old(group)@
        } else {
            (CoordinatorGroupView { kind: GroupKindView::Classic(previous@), ..old(group)@ })
        },
{
    if appended {
        return reply;
    }
    let mut r = JoinResult::error(codes::COORDINATOR_LOAD_IN_PROGRESS, member_id);
    r.protocol_type = dup_opt_str(&previous.protocol_type);
    r.protocol_name = dup_opt_str(&previous.protocol_name);
    group.kind = GroupKind::Classic(previous);
    r
}

/// Answers the `JoinGroup` of a hosted member once the group is written, and brings the records to
/// the seeds. Where it could not be, the group can no longer be served; that is the second part of
/// the result.
pub fn finish_hosted_join(group: &CoordinatorGroup, dir: &mut Directory, pending: PendingRecords, member_id: String, protocol: Option<String>, appended: bool) -> (r: (
    JoinResult,
    bool,
))
    requires
        group@.kind is Consumer,
    ensures
        r.1 == appended,
        r.0@ == if appended {
            hosted_join_result(group@.kind->Consumer_0, member_id@, opt_str(protocol))
        } else {
            join_error(codes::COORDINATOR_LOAD_IN_PROGRESS, member_id@)
        },
        final(dir)@ == if appended {
            (DirectoryView { seeds: seeds_after(old(dir)@.seeds, group@.group_id, pending@), ..old(dir)@ })
        } else {
            old(dir)@
        },
{
    if !appended {
        return (JoinResult::error(codes::COORDINATOR_LOAD_IN_PROGRESS, member_id), false);
    }
    pending.apply_to_cache(&mut dir.seeds, &group.group_id);
    match &group.kind {
        GroupKind::Consumer(state) => (build_hosted_classic_join_result(state, &member_id, protocol), true),
        GroupKind::Classic(_) => (JoinResult::error(codes::COORDINATOR_LOAD_IN_PROGRESS, member_id), true),
    }
}

} // verus!
