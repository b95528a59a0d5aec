//! A classic `LeaveGroup` and the deletion of a group, from request to answer, with the appends that
//! they wait for.

use crate::assignor::Assignor;
use crate::classic_state::{ClassicGroup, ClassicGroupView, Member, MemberView};
use crate::classic_sync::{handle_leave, leaving};
use crate::codes;
use crate::config::{ConsumerGroupMigrationPolicy, NextGenConfig};
use crate::consumer_state::{GroupState, GroupStateView, ReconcileInput, ReconcileInputView, reconciled};
use crate::directory::{Directory, DirectoryView, GroupType};
use crate::downgrade::{Downgrade, DowngradeView, downgrade_planned, finish_downgrade, plan_downgrade};
use crate::group::{CoordinatorGroup, CoordinatorGroupView, GroupKind, GroupKindTag, GroupKindView, PartitionKey, PartitionKeyView};
use crate::heartbeat_turn::delta_batch;
use crate::hosting::{leave_answers, leavers, resolve_consumer_classic_leave};
use crate::ordmap::{Dup, OrdSet, Test, listing, passing, views};
use crate::pending_records::{PendingRecords, PendingRecordsView, seeds_after};
use crate::persistence::{list_of, snapshot, snapshot_pending_after_change};
use crate::records::{RecordBatch, RecordBatchView, opt_view};
use crate::requests::{
    LeaveGroupRequest, LeaveResult, LeaveResultView, MemberResponse, MemberResponseView, classic_leave_result, leave_answer,
    leave_identities,
};
use crate::retention::{tombstone_batch, tombstones};
use crate::share_streams::{StreamsRecord, StreamsRecordView};
use crate::waiters::{
    Emptied, EmptiedView, Parked, ParkedView, Replies, RepliesView, RoundView, classic_batch, maybe_complete_classic, maybe_ended, snapshot_batch, turn_away,
    turned_away,
};
use vstd::prelude::*;

verus! {

/// How far a `LeaveGroup` has come.
#[derive(Debug, PartialEq, Eq)]
pub enum LeaveTurn {
    /// It is answered. `running` tells whether the group can still be served.
    Done { reply: LeaveResult, replies: Replies, emptied: Option<Emptied>, running: bool },
    /// It is answered once the classic group that it emptied is written.
    Persist { batch: RecordBatch, previous: ClassicGroup, responses: Vec<MemberResponse>, removed: Vec<String> },
    /// It is answered once the consumer group is written.
    Delta { batch: RecordBatch, pending: PendingRecords, responses: Vec<MemberResponse> },
    /// It is answered once the group became classic.
    Downgrade { plan: Downgrade, responses: Vec<MemberResponse> },
}

#[verifier::ext_equal]
pub enum LeaveTurnView {
    Done { reply: LeaveResultView, replies: RepliesView, emptied: Option<EmptiedView>, running: bool },
    Persist { batch: RecordBatchView, previous: ClassicGroupView, responses: Seq<MemberResponseView>, removed: Seq<Seq<char>> },
    Delta { batch: RecordBatchView, pending: PendingRecordsView, responses: Seq<MemberResponseView> },
    Downgrade { plan: DowngradeView, responses: Seq<MemberResponseView> },
}

impl View for LeaveTurn {
    type V = LeaveTurnView;

    open spec fn view(&self) -> LeaveTurnView {
        match self {
            LeaveTurn::Done { reply, replies, emptied, running } => LeaveTurnView::Done {
                reply: reply@,
                replies: replies@,
                emptied: opt_view(*emptied),
                running: *running,
            },
            LeaveTurn::Persist { batch, previous, responses, removed } => LeaveTurnView::Persist {
                batch: batch@,
                previous: previous@,
                responses: views(responses@),
                removed: views(removed@),
            },
            LeaveTurn::Delta { batch, pending, responses } => LeaveTurnView::Delta { batch: batch@, pending: pending@, responses: views(responses@) },
            LeaveTurn::Downgrade { plan, responses } => LeaveTurnView::Downgrade { plan: plan@, responses: views(responses@) },
        }
    }
}

/// An answer of an error code for all.
pub open spec fn leave_error(code: i16) -> LeaveResultView {
    LeaveResultView { error_code: code, members: seq![] }
}

/// A `LeaveGroup` that is answered with nothing else to do.
pub open spec fn left_plainly(reply: LeaveResultView, running: bool) -> LeaveTurnView {
    LeaveTurnView::Done { reply, replies: RepliesView::none(), emptied: None, running }
}

/// The members that one group has and the other does not.
pub open spec fn lost_members(before: ClassicGroupView, after: ClassicGroupView) -> Set<Seq<char>> {
    Set::new(|id: Seq<char>| before.members.contains_key(id) && !after.members.contains_key(id))
}

/// The classic group, who waits, and how far the request has come, once members are gone and the
/// group was written where it had to be: what those members had waiting is turned away, and the
/// round ends where nobody else is awaited.
pub open spec fn departed(g: ClassicGroupView, parked: ParkedView, removed: Seq<Seq<char>>, now: u64) -> RoundView {
    let (left, told) = turned_away(parked, removed, codes::UNKNOWN_MEMBER_ID);
    let round = maybe_ended(g, left, now);
    RoundView { replies: told.and(round.replies), ..round }
}

/// A `LeaveGroup` in a classic group. One that takes the last member begins a generation without
/// members, to be written first; where generations are used up it is refused.
pub open spec fn classic_leave_begun(state: ClassicGroupView, parked: ParkedView, req: LeaveGroupRequest, version: i16, now: u64, now_ms: i64) -> (
    ClassicGroupView,
    ParkedView,
    LeaveTurnView,
) {
    let (h, responses) = leaving(state, req, version, now);
    let removed = listing::<String>(lost_members(state, h));
    if removed.len() > 0 && h.members == Map::<Seq<char>, MemberView>::empty() {
        if h.generation_id == i32::MAX {
            (state, parked, left_plainly(leave_error(codes::INVALID_REQUEST), true))
        } else {
            let k = ClassicGroupView { generation_id: (h.generation_id + 1) as i32, ..h };
            (k, parked, LeaveTurnView::Persist { batch: snapshot_batch(k, now_ms), previous: state, responses, removed })
        }
    } else {
        let round = departed(h, parked, removed, now);
        (
            round.group,
            round.parked,
            LeaveTurnView::Done { reply: leave_answer(version, responses), replies: round.replies, emptied: round.to_write(h, now_ms), running: true },
        )
    }
}

/// A `LeaveGroup` in a consumer group: those that leave are gone and the others get a new target,
/// to be written first.
pub open spec fn consumer_leave_begun<A: Assignor>(
    state: GroupStateView,
    group_id: Seq<char>,
    config: NextGenConfig<A>,
    input: ReconcileInputView,
    req: LeaveGroupRequest,
    version: i16,
    now_ms: i64,
) -> (GroupStateView, LeaveTurnView) {
    let who = leave_identities(req, version);
    let responses = leave_answers(state, who);
    let gone = leavers(state, who);
    if gone.len() == 0 {
        (state, left_plainly(leave_answer(version, responses), true))
    } else {
        let h = reconciled(state.without_members(gone), config.assignors@, input);
        let pending = snapshot(h, seq![], true).and_all_gone(gone);
        (h, LeaveTurnView::Delta { batch: delta_batch(group_id, pending, now_ms), pending, responses })
    }
}

/// A `LeaveGroup` begins.
pub open spec fn leave_begun<A: Assignor>(
    g: CoordinatorGroupView,
    parked: ParkedView,
    config: NextGenConfig<A>,
    input: ReconcileInputView,
    req: LeaveGroupRequest,
    version: i16,
    now: u64,
    now_ms: i64,
) -> (CoordinatorGroupView, ParkedView, LeaveTurnView) {
    match g.kind {
        GroupKindView::Classic(state) => {
            let (h, left, turn) = classic_leave_begun(state, parked, req, version, now, now_ms);
            (CoordinatorGroupView { kind: GroupKindView::Classic(h), ..g }, left, turn)
        },
        GroupKindView::Consumer(state) => {
            let (h, turn) = consumer_leave_begun(state, g.group_id, config, input, req, version, now_ms);
            (CoordinatorGroupView { kind: GroupKindView::Consumer(h), ..g }, parked, turn)
        },
    }
}

struct Lost<'a> {
    after: &'a ClassicGroup,
}

impl<'a> Test<String, Member> for Lost<'a> {
    closed spec fn holds(&self, k: Seq<char>, v: MemberView) -> bool {
        !self.after@.members.contains_key(k)
    }

    fn test(&self, k: &String, v: &Member) -> (r: bool) {
        !self.after.members.contains_key(k)
    }
}

/// Turns away what members that are gone had waiting, and ends the round where nobody else is
/// awaited.
pub fn depart(state: &mut ClassicGroup, parked: &mut Parked, removed: &Vec<String>, now: u64, now_ms: i64) -> (r: (Replies, Option<Emptied>))
    ensures
        final(state)@ == departed(old(state)@, old(parked)@, views(removed@), now).group,
        final(parked)@ == departed(old(state)@, old(parked)@, views(removed@), now).parked,
        r.0@ == departed(old(state)@, old(parked)@, views(removed@), now).replies,
        opt_view(r.1) == departed(old(state)@, old(parked)@, views(removed@), now).to_write(old(state)@, now_ms),
{
    let mut replies = turn_away(parked, removed, codes::UNKNOWN_MEMBER_ID);
    let round = maybe_complete_classic(state, parked, now, now_ms);
    replies.append(round.replies);
    (replies, round.emptied)
}

fn begin_classic_leave(state: &mut ClassicGroup, parked: &mut Parked, req: &LeaveGroupRequest, version: i16, now: u64, now_ms: i64) -> (r: LeaveTurn)
    ensures
        (final(state)@, final(parked)@, r@) == classic_leave_begun(old(state)@, old(parked)@, *req, version, now, now_ms),
{
    let ghost g = state@;
    let previous: ClassicGroup = state.dup();
    let responses = handle_leave(state, req, version, now);
    let ghost h = state@;
    let removed: Vec<String> = {
        let t = Lost { after: state };
        let list = previous.members.keys_where(&t);
        assert(passing::<String, Member, Lost>(previous@.members, t) =~= lost_members(g, h));
        list
    };
    assert(views(removed@).len() == removed@.len());
    if removed.len() > 0 && state.members.is_empty() {
        if state.generation_id == i32::MAX {
            *state = previous;
            return LeaveTurn::Done {
                reply: classic_leave_result(version, Err(codes::INVALID_REQUEST)),
                replies: Replies::none(),
                emptied: None,
                running: true,
            };
        }
        state.generation_id = state.generation_id + 1;
        let batch = classic_batch(state, now_ms);
        return LeaveTurn::Persist { batch, previous, responses, removed };
    }
    let (replies, emptied) = depart(state, parked, &removed, now, now_ms);
    LeaveTurn::Done { reply: classic_leave_result(version, Ok(responses)), replies, emptied, running: true }
}

fn begin_consumer_leave<A: Assignor>(
    state: &mut GroupState,
    group_id: &String,
    config: &NextGenConfig<A>,
    input: &ReconcileInput,
    req: &LeaveGroupRequest,
    version: i16,
    now_ms: i64,
) -> (r: LeaveTurn)
    requires
        config.assignors@.len() > 0,
    ensures
        (final(state)@, r@) == consumer_leave_begun(old(state)@, group_id@, *config, input@, *req, version, now_ms),
{
    let (responses, gone) = resolve_consumer_classic_leave(state, req, version);
    assert(views(gone@).len() == gone@.len());
    if gone.len() == 0 {
        return LeaveTurn::Done { reply: classic_leave_result(version, Ok(responses)), replies: Replies::none(), emptied: None, running: true };
    }
    state.remove_members(&gone);
    state.reconcile_if_dirty(input, config);
    let none: Vec<String> = Vec::new();
    assert(views(none@) =~= seq![]);
    let mut pending = snapshot_pending_after_change(state, &none, true);
    pending.push_all_gone(&gone);
    let batch = pending.to_batch(group_id, now_ms);
    LeaveTurn::Delta { batch, pending, responses }
}

/// Begins a `LeaveGroup`.
pub fn begin_leave<A: Assignor>(
    group: &mut CoordinatorGroup,
    parked: &mut Parked,
    config: &NextGenConfig<A>,
    input: &ReconcileInput,
    req: &LeaveGroupRequest,
    version: i16,
    now: u64,
    now_ms: i64,
) -> (r: LeaveTurn)
    requires
        config.assignors@.len() > 0,
    ensures
        (final(group)@, final(parked)@, r@) == leave_begun(old(group)@, old(parked)@, *config, input@, *req, version, now, now_ms),
{
    match &mut group.kind {
        GroupKind::Classic(state) => begin_classic_leave(state, parked, req, version, now, now_ms),
        GroupKind::Consumer(state) => begin_consumer_leave(state, &group.group_id, config, input, req, version, now_ms),
    }
}

/// The end of a `LeaveGroup` that emptied a classic group.
pub open spec fn classic_leave_finished(
    state: ClassicGroupView,
    parked: ParkedView,
    previous: ClassicGroupView,
    responses: Seq<MemberResponseView>,
    removed: Seq<Seq<char>>,
    version: i16,
    appended: bool,
    now: u64,
    now_ms: i64,
) -> (ClassicGroupView, ParkedView, LeaveTurnView) {
    if appended {
        let round = departed(state, parked, removed, now);
        (
            round.group,
            round.parked,
            LeaveTurnView::Done { reply: leave_answer(version, responses), replies: round.replies, emptied: round.to_write(state, now_ms), running: true },
        )
    } else {
        (previous, parked, left_plainly(leave_error(codes::COORDINATOR_LOAD_IN_PROGRESS), true))
    }
}

/// Answers a `LeaveGroup` that emptied a classic group once that is written. Where it could not be,
/// the group is what it was before.
pub fn finish_classic_leave(
    state: &mut ClassicGroup,
    parked: &mut Parked,
    previous: ClassicGroup,
    responses: Vec<MemberResponse>,
    removed: &Vec<String>,
    version: i16,
    appended: bool,
    now: u64,
    now_ms: i64,
) -> (r: LeaveTurn)
    ensures
        (final(state)@, final(parked)@, r@) == classic_leave_finished(
            old(state)@,
            old(parked)@,
            previous@,
            views(responses@),
            views(removed@),
            version,
            appended,
            now,
            now_ms,
        ),
{
    if !appended {
        *state = previous;
        return LeaveTurn::Done {
            reply: classic_leave_result(version, Err(codes::COORDINATOR_LOAD_IN_PROGRESS)),
            replies: Replies::none(),
            emptied: None,
            running: true,
        };
    }
    let (replies, emptied) = depart(state, parked, removed, now, now_ms);
    LeaveTurn::Done { reply: classic_leave_result(version, Ok(responses)), replies, emptied, running: true }
}

/// The end of a `LeaveGroup` in a consumer group, or the downgrade that it still waits for.
pub open spec fn consumer_leave_finished(
    g: CoordinatorGroupView,
    policy: ConsumerGroupMigrationPolicy,
    input: ReconcileInputView,
    responses: Seq<MemberResponseView>,
    version: i16,
    appended: bool,
    now_ms: i64,
) -> LeaveTurnView {
    if !appended {
        left_plainly(leave_error(codes::COORDINATOR_LOAD_IN_PROGRESS), false)
    } else {
        match downgrade_planned(g, policy, input, now_ms) {
            Some(plan) => LeaveTurnView::Downgrade { plan, responses },
            None => left_plainly(leave_answer(version, responses), true),
        }
    }
}

/// Answers a `LeaveGroup` in a consumer group once that is written, unless the group now has to
/// become classic first. Where it could not be written, the group can no longer be served.
pub fn finish_consumer_leave(
    group: &CoordinatorGroup,
    dir: &mut Directory,
    policy: ConsumerGroupMigrationPolicy,
    input: &ReconcileInput,
    pending: PendingRecords,
    responses: Vec<MemberResponse>,
    version: i16,
    appended: bool,
    now_ms: i64,
) -> (r: LeaveTurn)
    ensures
        r@ == consumer_leave_finished(group@, policy, input@, views(responses@), version, appended, now_ms),
        final(dir)@ == if appended {
            (DirectoryView { seeds: seeds_after(old(dir)@.seeds, group@.group_id, pending@), ..old(dir)@ })
        } else {
            old(dir)@
        },
{
    if !appended {
        return LeaveTurn::Done {
            reply: classic_leave_result(version, Err(codes::COORDINATOR_LOAD_IN_PROGRESS)),
            replies: Replies::none(),
            emptied: None,
            running: false,
        };
    }
    pending.apply_to_cache(&mut dir.seeds, &group.group_id);
    match plan_downgrade(group, policy, input, now_ms) {
        Some(plan) => LeaveTurn::Downgrade { plan, responses },
        None => LeaveTurn::Done { reply: classic_leave_result(version, Ok(responses)), replies: Replies::none(), emptied: None, running: true },
    }
}

/// Answers a `LeaveGroup` once the group became classic, or could not; the second part of the result
/// is whether it can still be served.
pub fn finish_leave_downgrade(
    group: &mut CoordinatorGroup,
    dir: &mut Directory,
    plan: Downgrade,
    responses: Vec<MemberResponse>,
    version: i16,
    appended: bool,
) -> (r: (LeaveResult, bool))
    ensures
        r.1 == appended,
        r.0@ == if appended {
            leave_answer(version, views(responses@))
        } else {
            leave_error(codes::COORDINATOR_LOAD_IN_PROGRESS)
        },
        final(group)@ == if appended {
            (CoordinatorGroupView { kind: GroupKindView::Classic(plan.classic@), ..old(group)@ })
        } else {
            old(group)@
        },
        final(dir)@ == if appended {
            old(dir)@.with_classic(old(group)@.group_id)
        } else {
            old(dir)@
        },
{
    if finish_downgrade(group, dir, plan, appended) {
        (classic_leave_result(version, Ok(responses)), true)
    } else {
        (classic_leave_result(version, Err(codes::COORDINATOR_LOAD_IN_PROGRESS)), false)
    }
}

/// Why a group is not deleted.
#[derive(Clone, Copy, Debug, PartialEq, Eq, Structural)]
pub enum DeleteGroupError {
    /// No such group is known.
    NotFound,
    /// The group has members.
    NonEmpty,
    /// Its tombstones could not be written.
    Internal,
}

/// The offsets that a group's deletion drops: those committed, and those of open transactions.
pub open spec fn all_offsets(g: CoordinatorGroupView) -> Set<PartitionKeyView> {
    g.committed_offsets.dom().union(g.unresolved_keys())
}

/// What a group's deletion writes: a tombstone for each offset, then those of the group itself. A
/// group with members is not deleted.
pub open spec fn deletion(g: CoordinatorGroupView, now_ms: i64) -> Result<RecordBatchView, DeleteGroupError> {
    if g.has_members() {
        Err(DeleteGroupError::NonEmpty)
    } else {
        Ok(
            RecordBatchView::of(
                g.group_id,
                tombstones(
                    listing::<PartitionKey>(all_offsets(g)),
                    Some(
                        if g.kind is Classic {
                            GroupKindTag::Classic
                        } else {
                            GroupKindTag::Consumer
                        },
                    ),
                ),
                now_ms,
            ),
        )
    }
}

/// What has to be appended for the group to be deleted, or why it is not.
pub fn plan_delete(group: &CoordinatorGroup, now_ms: i64) -> (r: Result<RecordBatch, DeleteGroupError>)
    ensures
        match r {
            Ok(batch) => deletion(group@, now_ms) == Ok::<RecordBatchView, DeleteGroupError>(batch@),
            Err(e) => deletion(group@, now_ms) == Err::<RecordBatchView, DeleteGroupError>(e),
        },
{
    if group.has_members() {
        return Err(DeleteGroupError::NonEmpty);
    }
    let ghost g = group@;
    let mut keys: OrdSet<PartitionKey> = group.unresolved_txn_keys();
    let ghost open = keys@;
    let n: usize = group.committed_offsets.len();
    let mut i: usize = 0;
    while i < n
        invariant
            0 <= i <= n,
            n == group.committed_offsets.keys().len(),
            group.committed_offsets.listed(),
            g == group@,
            forall|k: PartitionKeyView| #[trigger] keys@.contains(k) ==> open.contains(k) || g.committed_offsets.contains_key(k),
            forall|k: PartitionKeyView| open.contains(k) ==> #[trigger] keys@.contains(k),
            forall|j: int| 0 <= j < i ==> keys@.contains(#[trigger] group.committed_offsets.keys()[j]),
        decreases n - i,
    {
        keys.insert(group.committed_offsets.key_at(i).dup());
        i = i + 1;
    }
    assert(keys@ =~= all_offsets(g)) by {
        assert forall|k: PartitionKeyView| g.committed_offsets.contains_key(k) implies keys@.contains(k) by {
            assert(group.committed_offsets@.contains_key(k));
            let j = choose|j: int| 0 <= j < n && group.committed_offsets.keys()[j] == k;
            assert(keys@.contains(group.committed_offsets.keys()[j]));
        }
    }
    let list = list_of(&keys);
    Ok(tombstone_batch(&group.group_id, &list, Some(group.tag()), now_ms))
}

/// Whether the group is deleted, once its tombstones were appended or not. A deleted group is served
/// no longer, and nothing is known of its id.
pub fn finish_delete(dir: &mut Directory, group_id: &String, appended: bool) -> (r: Result<(), DeleteGroupError>)
    ensures
        r == if appended {
            Ok::<(), DeleteGroupError>(())
        } else {
            Err::<(), DeleteGroupError>(DeleteGroupError::Internal)
        },
        final(dir)@ == if appended {
            old(dir)@.without(group_id@)
        } else {
            old(dir)@
        },
{
    if !appended {
        return Err(DeleteGroupError::Internal);
    }
    dir.forget_group(group_id, false);
    Ok(())
}

/// Who deletes a group.
#[derive(Clone, Copy, Debug, PartialEq, Eq, Structural)]
pub enum DeleteRoute {
    /// The group that holds members and offsets.
    Group,
    /// The share group under the id.
    Share,
    /// The streams group under the id; the group that holds its offsets goes with it, never first.
    Streams,
}

/// Who deletes the group `id`.
pub open spec fn delete_route_of(dir: DirectoryView, id: Seq<char>) -> DeleteRoute {
    if dir.types.contains_key(id) && dir.types[id] == GroupType::Streams {
        DeleteRoute::Streams
    } else if dir.types.contains_key(id) && dir.types[id] == GroupType::Share {
        DeleteRoute::Share
    } else {
        DeleteRoute::Group
    }
}

/// Who deletes the group `id`.
pub fn delete_route(dir: &Directory, id: &String) -> (r: DeleteRoute)
    ensures
        r == delete_route_of(dir@, id@),
{
    match dir.group_type(id) {
        Some(GroupType::Streams) => DeleteRoute::Streams,
        Some(GroupType::Share) => DeleteRoute::Share,
        Some(GroupType::Classic) | Some(GroupType::NextGen) | None => DeleteRoute::Group,
    }
}

/// The tombstones of a streams group without members: those of the group itself, for what was kept of
/// each member went with it.
pub open spec fn streams_tombstones() -> Seq<StreamsRecordView> {
    seq![
        StreamsRecordView::GroupMetadata { epoch: None },
        StreamsRecordView::Topology { value: None },
        StreamsRecordView::PartitionMetadata { value: None },
        StreamsRecordView::TargetAssignmentMetadata { assignment_epoch: None },
    ]
}

/// What has to be appended for a streams group to be deleted, or why it is not; `members` is how many
/// the group has, where one answers under the id.
pub fn plan_streams_delete(members: Option<usize>) -> (r: Result<Vec<StreamsRecord>, DeleteGroupError>)
    ensures
        match r {
            Ok(records) => members == Some(0usize) && views(records@) == streams_tombstones(),
            Err(DeleteGroupError::NotFound) => members is None,
            Err(DeleteGroupError::NonEmpty) => members is Some && members->0 > 0,
            Err(DeleteGroupError::Internal) => false,
        },
{
    match members {
        None => Err(DeleteGroupError::NotFound),
        Some(n) => if n > 0 {
            Err(DeleteGroupError::NonEmpty)
        } else {
            let mut out: Vec<StreamsRecord> = Vec::new();
            out.push(StreamsRecord::GroupMetadata { epoch: None });
            out.push(StreamsRecord::Topology { value: None });
            out.push(StreamsRecord::PartitionMetadata { value: None });
            out.push(StreamsRecord::TargetAssignmentMetadata { assignment_epoch: None });
            assert(views(out@) =~= streams_tombstones());
            Ok(out)
        },
    }
}

/// Whether the streams group is deleted, once its tombstones were appended or not.
pub fn finish_streams_delete(dir: &mut Directory, group_id: &String, appended: bool) -> (r: Result<(), DeleteGroupError>)
    ensures
        r == if appended {
            Ok::<(), DeleteGroupError>(())
        } else {
            Err::<(), DeleteGroupError>(DeleteGroupError::Internal)
        },
        final(dir)@ == if appended {
            old(dir)@.without_streams(group_id@)
        } else {
            old(dir)@
        },
{
    if !appended {
        return Err(DeleteGroupError::Internal);
    }
    dir.forget_streams_group(group_id);
    Ok(())
}

/// Whether there is a share group to delete under `id`: one that is served, or one that can be
/// restored.
pub fn plan_share_delete(dir: &Directory, id: &String) -> (r: Result<(), DeleteGroupError>)
    ensures
        r == if dir@.share_groups.contains(id@) || dir@.share_seeds.contains_key(id@) {
            Ok::<(), DeleteGroupError>(())
        } else {
            Err::<(), DeleteGroupError>(DeleteGroupError::NotFound)
        },
{
    if dir.share_groups.contains(id) || dir.share_seeds.contains_key(id) {
        Ok(())
    } else {
        Err(DeleteGroupError::NotFound)
    }
}

} // verus!
