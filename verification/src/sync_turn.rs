//! A classic `SyncGroup` from request to answer, with the append that it waits for.

use crate::classic_state::{ClassicGroup, ClassicGroupView};
use crate::classic_sync::{SyncAction, SyncActionView, handle_sync, syncing};
use crate::codes;
use crate::consumer_state::{
    ClassicMemberFacadeView, GroupState, GroupStateView, MemberAssignmentState, MemberState, MemberStateView, ReconcileInput, ReconcileInputView,
};
use crate::directory::{Directory, DirectoryView};
use crate::group::{CoordinatorGroup, CoordinatorGroupView, GroupKind, GroupKindView};
use crate::heartbeat_turn::delta_batch;
use crate::hosting::{hosted_sync, hosts, serve_classic_sync, target_taken};
use crate::ordmap::{Dup, OrdMap, views};
use crate::partitions::{Partitions, parts_eq};
use crate::pending_records::{PendingRecords, PendingRecordsView, seeds_after};
use crate::persistence::{snapshot, snapshot_pending_after_change};
use crate::records::{RecordBatch, RecordBatchView, opt_view};
use crate::requests::{SyncGroupRequest, SyncResult, SyncResultView, sync_error};
use crate::text::dup_opt_str;
use crate::waiters::{
    Parked, ParkedView, SyncReply, all_assigned, all_synced, answer_all_syncs, classic_batch, drain_parked_followers, snapshot_batch,
};
use vstd::prelude::*;

verus! {

/// How far a `SyncGroup` has come.
#[derive(Debug, PartialEq, Eq)]
pub enum SyncTurn {
    /// It is answered, or waits where there is no reply.
    Done { reply: Option<SyncResult> },
    /// It, and those that wait, are answered once the classic group is written.
    Persist { batch: RecordBatch, previous: ClassicGroup, reply: SyncResult },
    /// It is answered once the consumer group that hosts the member is written; `previous` is the
    /// member as it was before.
    Host { batch: RecordBatch, pending: PendingRecords, previous: MemberState, reply: SyncResult },
}

#[verifier::ext_equal]
pub enum SyncTurnView {
    Done { reply: Option<SyncResultView> },
    Persist { batch: RecordBatchView, previous: ClassicGroupView, reply: SyncResultView },
    Host { batch: RecordBatchView, pending: PendingRecordsView, previous: MemberStateView, reply: SyncResultView },
}

impl View for SyncTurn {
    type V = SyncTurnView;

    open spec fn view(&self) -> SyncTurnView {
        match self {
            SyncTurn::Done { reply } => SyncTurnView::Done { reply: opt_view(*reply) },
            SyncTurn::Persist { batch, previous, reply } => SyncTurnView::Persist { batch: batch@, previous: previous@, reply: reply@ },
            SyncTurn::Host { batch, pending, previous, reply } => SyncTurnView::Host {
                batch: batch@,
                pending: pending@,
                previous: previous@,
                reply: reply@,
            },
        }
    }
}

/// A `SyncGroup` in a classic group: the leader's installs the assignments, to be written first;
/// those that come before it wait.
pub open spec fn classic_sync_begun(state: ClassicGroupView, parked: ParkedView, req: SyncGroupRequest, now_ms: i64) -> (
    ClassicGroupView,
    ParkedView,
    SyncTurnView,
) {
    let (h, action) = syncing(state, req);
    match action {
        SyncActionView::Immediate(reply) => (h, parked, SyncTurnView::Done { reply: Some(reply) }),
        SyncActionView::Park => (h, ParkedView { followers: parked.followers.insert(req.member_id@), ..parked }, SyncTurnView::Done { reply: None }),
        SyncActionView::LeaderInstalled(reply) => (h, parked, SyncTurnView::Persist { batch: snapshot_batch(h, now_ms), previous: state, reply }),
    }
}

/// Whether a hosted member holds its target and nothing else.
pub open spec fn at_target(g: GroupStateView, id: Seq<char>) -> bool {
    let m = g.members[id];
    m.assigned_partitions == g.target_of(id) && m.partitions_pending_revocation == Map::<u128, Seq<i32>>::empty() && m.assignment_state
        == MemberAssignmentState::Stable
}

/// The `SyncGroup` of a hosted member: it is handed its target and holds just that, to be written
/// first where it did not before.
pub open spec fn hosted_sync_begun(state: GroupStateView, group_id: Seq<char>, image: ReconcileInputView, id: Seq<char>, now: u64, now_ms: i64) -> (
    GroupStateView,
    SyncTurnView,
) {
    let (h, reply) = hosted_sync(state, id, image, now);
    let k = target_taken(h, id);
    let pending = snapshot(k, seq![id], false);
    if !hosts(state, id) || at_target(h, id) {
        (h, SyncTurnView::Done { reply: Some(reply) })
    } else if pending == PendingRecordsView::none() {
        (k, SyncTurnView::Done { reply: Some(reply) })
    } else {
        (k, SyncTurnView::Host { batch: delta_batch(group_id, pending, now_ms), pending, previous: state.members[id], reply })
    }
}

/// A `SyncGroup` begins.
pub open spec fn sync_begun(g: CoordinatorGroupView, parked: ParkedView, image: ReconcileInputView, req: SyncGroupRequest, now: u64, now_ms: i64) -> (
    CoordinatorGroupView,
    ParkedView,
    SyncTurnView,
) {
    match g.kind {
        GroupKindView::Classic(state) => {
            let (h, left, turn) = classic_sync_begun(state, parked, req, now_ms);
            (CoordinatorGroupView { kind: GroupKindView::Classic(h), ..g }, left, turn)
        },
        GroupKindView::Consumer(state) => {
            let (h, turn) = hosted_sync_begun(state, g.group_id, image, req.member_id@, now, now_ms);
            (CoordinatorGroupView { kind: GroupKindView::Consumer(h), ..g }, parked, turn)
        },
    }
}

fn begin_classic_sync(state: &mut ClassicGroup, parked: &mut Parked, req: &SyncGroupRequest, now_ms: i64) -> (r: SyncTurn)
    ensures
        (final(state)@, final(parked)@, r@) == classic_sync_begun(old(state)@, old(parked)@, *req, now_ms),
{
    let previous: ClassicGroup = state.dup();
    match handle_sync(state, req) {
        SyncAction::Immediate(reply) => SyncTurn::Done { reply: Some(reply) },
        SyncAction::Park => {
            parked.followers.insert(req.member_id.clone());
            SyncTurn::Done { reply: None }
        },
        SyncAction::LeaderInstalled(reply) => {
            let batch = classic_batch(state, now_ms);
            SyncTurn::Persist { batch, previous, reply }
        },
    }
}

/// What `id` is to hold.
fn target_held(state: &GroupState, id: &String) -> (r: Partitions)
    ensures
        r@ == state@.target_of(id@),
{
    match state.target.per_member.get(id) {
        Some(t) => t.dup(),
        None => {
            let none: Partitions = OrdMap::new();
            assert(none@ =~= state@.target_of(id@));
            none
        },
    }
}

fn begin_hosted_sync(state: &mut GroupState, group_id: &String, image: &ReconcileInput, id: &String, now: u64, now_ms: i64) -> (r: SyncTurn)
    ensures
        (final(state)@, r@) == hosted_sync_begun(old(state)@, group_id@, image@, id@, now, now_ms),
{
    let ghost g = state@;
    let previous: MemberState = match state.members.get(id) {
        Some(m) => if m.is_classic() {
            m.dup()
        } else {
            return SyncTurn::Done { reply: Some(serve_classic_sync(state, id, image, now)) };
        },
        None => {
            return SyncTurn::Done { reply: Some(serve_classic_sync(state, id, image, now)) };
        },
    };
    let reply = serve_classic_sync(state, id, image, now);
    let ghost h = state@;
    let target = target_held(state, id);
    match state.members.remove(id) {
        None => {
            assert(false);
            SyncTurn::Done { reply: Some(reply) }
        },
        Some(mut m) => {
            if parts_eq(&m.assigned_partitions, &target) && m.partitions_pending_revocation.is_empty() && m.assignment_state
                == MemberAssignmentState::Stable {
                state.members.insert(id.clone(), m);
                assert(state@ =~= h);
                return SyncTurn::Done { reply: Some(reply) };
            }
            m.assigned_partitions = target;
            m.partitions_pending_revocation = OrdMap::new();
            m.assignment_state = MemberAssignmentState::Stable;
            state.members.insert(id.clone(), m);
            assert(state@ =~= target_taken(h, id@));
            let mut one: Vec<String> = Vec::new();
            one.push(id.clone());
            assert(views(one@) =~= seq![id@]);
            let pending = snapshot_pending_after_change(state, &one, false);
            if pending.is_empty() {
                return SyncTurn::Done { reply: Some(reply) };
            }
            let batch = pending.to_batch(group_id, now_ms);
            SyncTurn::Host { batch, pending, previous, reply }
        },
    }
}

/// Begins a `SyncGroup`.
pub fn begin_sync(group: &mut CoordinatorGroup, parked: &mut Parked, image: &ReconcileInput, req: &SyncGroupRequest, now: u64, now_ms: i64) -> (r: SyncTurn)
    ensures
        (final(group)@, final(parked)@, r@) == sync_begun(old(group)@, old(parked)@, image@, *req, now, now_ms),
{
    match &mut group.kind {
        GroupKind::Classic(state) => begin_classic_sync(state, parked, req, now_ms),
        GroupKind::Consumer(state) => begin_hosted_sync(state, &group.group_id, image, &req.member_id, now, now_ms),
    }
}

/// The answer where a classic group could not be written, from the group as it was before.
pub open spec fn unwritten(previous: ClassicGroupView) -> SyncResultView {
    SyncResultView {
        protocol_type: previous.protocol_type,
        protocol_name: previous.protocol_name,
        ..sync_error(codes::COORDINATOR_LOAD_IN_PROGRESS)
    }
}

/// Answers the leader's `SyncGroup`, and those that wait, once the classic group is written: each
/// gets its assignment. Where it could not be, the group is what it was before, and all are told.
pub fn finish_classic_sync(group: &mut CoordinatorGroup, parked: &mut Parked, previous: ClassicGroup, reply: SyncResult, appended: bool) -> (r: (
    SyncResult,
    Vec<SyncReply>,
))
    requires
        old(group)@.kind is Classic,
    ensures
        r.0@ == if appended {
            reply@
        } else {
            unwritten(previous@)
        },
        views(r.1@) == if appended {
            all_assigned(old(parked)@.followers, old(group)@.kind->Classic_0)
        } else {
            all_synced(old(parked)@.followers, unwritten(previous@))
        },
        final(parked)@ == (ParkedView { followers: Set::empty(), ..old(parked)@ }),
        final(group)@ == if appended {
            old(group)@
        } else {
            (CoordinatorGroupView { kind: GroupKindView::Classic(previous@), ..old(group)@ })
        },
{
    if !appended {
        let mut failure = SyncResult::error(codes::COORDINATOR_LOAD_IN_PROGRESS);
        failure.protocol_type = dup_opt_str(&previous.protocol_type);
        failure.protocol_name = dup_opt_str(&previous.protocol_name);
        let others = answer_all_syncs(parked, codes::COORDINATOR_LOAD_IN_PROGRESS, &previous.protocol_type, &previous.protocol_name);
        group.kind = GroupKind::Classic(previous);
        return (failure, others);
    }
    let others = match &group.kind {
        GroupKind::Classic(state) => drain_parked_followers(state, parked),
        GroupKind::Consumer(_) => Vec::new(),
    };
    (reply, others)
}

/// The member as it is where its sync could not be written: it holds what it held before, and still
/// owes a sync.
pub open spec fn unsynced(m: MemberStateView, previous: MemberStateView) -> MemberStateView {
    MemberStateView {
        assigned_partitions: previous.assigned_partitions,
        partitions_pending_revocation: previous.partitions_pending_revocation,
        assignment_state: previous.assignment_state,
        classic: match (m.classic, previous.classic) {
            (Some(f), Some(p)) => Some(
                ClassicMemberFacadeView { last_synced_assignment: p.last_synced_assignment, awaiting_sync: true, ..f },
            ),
            (c, _) => c,
        },
        ..m
    }
}

/// The group where the sync of `previous` could not be written.
pub open spec fn sync_undone(g: GroupStateView, previous: MemberStateView, id: Seq<char>) -> GroupStateView {
    if g.members.contains_key(id) {
        GroupStateView { members: g.members.insert(id, unsynced(g.members[id], previous)), ..g }
    } else {
        g
    }
}

fn undo_sync(state: &mut GroupState, id: &String, previous: MemberState)
    ensures
        final(state)@ == sync_undone(old(state)@, previous@, id@),
{
    let ghost g = state@;
    match state.members.remove(id) {
        Some(mut m) => {
            m.assigned_partitions = previous.assigned_partitions;
            m.partitions_pending_revocation = previous.partitions_pending_revocation;
            m.assignment_state = previous.assignment_state;
            m.classic = match (m.classic, previous.classic) {
                (Some(mut f), Some(p)) => {
                    f.last_synced_assignment = p.last_synced_assignment;
                    f.awaiting_sync = true;
                    Some(f)
                },
                (c, _) => c,
            };
            state.members.insert(id.clone(), m);
            assert(state@ =~= sync_undone(g, previous@, id@));
        },
        None => {
            assert(state@ =~= g);
        },
    }
}

/// Answers the `SyncGroup` of the hosted member `id` once the group is written, and brings the
/// records to the seeds. Where it could not be, the member holds what it held before.
pub fn finish_hosted_sync(
    group: &mut CoordinatorGroup,
    dir: &mut Directory,
    pending: PendingRecords,
    id: &String,
    previous: MemberState,
    reply: SyncResult,
    appended: bool,
) -> (r: SyncResult)
    requires
        old(group)@.kind is Consumer,
    ensures
        r@ == if appended {
            reply@
        } else {
            sync_error(codes::COORDINATOR_LOAD_IN_PROGRESS)
        },
        final(group)@ == if appended {
            old(group)@
        } else {
            (CoordinatorGroupView { kind: GroupKindView::Consumer(sync_undone(old(group)@.kind->Consumer_0, previous@, id@)), ..old(group)@ })
        },
        final(dir)@ == if appended {
            (DirectoryView { seeds: seeds_after(old(dir)@.seeds, old(group)@.group_id, pending@), ..old(dir)@ })
        } else {
            old(dir)@
        },
{
    if appended {
        pending.apply_to_cache(&mut dir.seeds, &group.group_id);
        return reply;
    }
    match &mut group.kind {
        GroupKind::Consumer(state) => {
            undo_sync(state, id, previous);
        },
        GroupKind::Classic(_) => {},
    }
    SyncResult::error(codes::COORDINATOR_LOAD_IN_PROGRESS)
}

} // verus!
