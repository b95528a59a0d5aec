//! What always holds of groups, whatever kind they are of.

use crate::assignor::Assignor;
use crate::classic_join::JoinContext;
use crate::classic_laws::sound;
use crate::classic_state::{ClassicGroupView, MemberView};
use crate::codes;
use crate::commit_validation::{CommitFence, commit_checked};
use crate::config::NextGenConfig;
use crate::consumer_laws::{exclusive, keyed, only_holder};
use crate::consumer_state::{GroupStateView, ReconcileInputView, reconciled};
use crate::group::{CoordinatorGroupView, GroupKindView};
use crate::heartbeat::{ClientIdentityView, HeartbeatRequestView};
use crate::heartbeat_turn::{classic_beat, heartbeat_begun};
use crate::hosting::{hosted_heartbeat, hosted_sync, hosts, registered, registration};
use crate::join_turn::{hosted_join_begun, join_begun};
use crate::leave_turn::leave_begun;
use crate::migration::{convertible, downgraded, held_identity, upgraded};
use crate::requests::{HeartbeatRequest, JoinGroupRequestView, LeaveGroupRequest, SyncGroupRequest};
use crate::sync_turn::{hosted_sync_begun, sync_begun, sync_undone};
use crate::tick_turn::tick_begun;
use crate::waiters::{ParkedView, snapshot_batch};
use vstd::prelude::*;

verus! {

/// Whether two groups are alike in all that is not membership.
pub open spec fn offsets_alike(a: CoordinatorGroupView, b: CoordinatorGroupView) -> bool {
    &&& a.group_id == b.group_id
    &&& a.committed_offsets == b.committed_offsets
    &&& a.pending_txn == b.pending_txn
    &&& a.reserved_txn == b.reserved_txn
    &&& a.resolved_txn == b.resolved_txn
}

/// No request on the membership touches offsets, committed or in a transaction: no join, no sync and
/// no leave.
pub proof fn membership_keeps_offsets<A: Assignor>(
    g: CoordinatorGroupView,
    parked: ParkedView,
    config: NextGenConfig<A>,
    input: ReconcileInputView,
    join: JoinGroupRequestView,
    ctx: JoinContext,
    suffix: Seq<char>,
    sync: SyncGroupRequest,
    leave: LeaveGroupRequest,
    version: i16,
    now: u64,
    now_ms: i64,
)
    ensures
        offsets_alike(join_begun(g, parked, config, input, join, ctx, suffix, now_ms).group, g),
        offsets_alike(sync_begun(g, parked, input, sync, now, now_ms).0, g),
        offsets_alike(leave_begun(g, parked, config, input, leave, version, now, now_ms).0, g),
{
}

/// No heartbeat, of either protocol, and no passing of time touches offsets.
pub proof fn liveness_keeps_offsets<A: Assignor>(
    g: CoordinatorGroupView,
    parked: ParkedView,
    config: NextGenConfig<A>,
    input: ReconcileInputView,
    req: HeartbeatRequestView,
    minted: Seq<char>,
    client: ClientIdentityView,
    authorized: Set<Seq<char>>,
    beat: HeartbeatRequest,
    now: u64,
    now_ms: i64,
)
    ensures
        offsets_alike(heartbeat_begun(g, config, input, req, minted, client, now, now_ms, authorized).0, g),
        offsets_alike(classic_beat(g, beat, input, now).0, g),
        offsets_alike(tick_begun(g, parked, config, input, now, now_ms).0, g),
{
}

/// A commit that is refused changes nothing; one that is let through changes at most when its
/// committer was heard of.
pub proof fn refused_commit_changes_nothing(g: CoordinatorGroupView, id: Seq<char>, instance: Option<Seq<char>>, epoch: i32, fence: CommitFence, now: u64)
    ensures
        commit_checked(g, id, instance, epoch, fence, now).1 is Err ==> commit_checked(g, id, instance, epoch, fence, now).0 == g,
        offsets_alike(commit_checked(g, id, instance, epoch, fence, now).0, g),
{
}

/// Where a classic group has to be written before an answer, what is written is the group as it is
/// then, and what is kept to go back to, should that fail, is the group as it was.
pub proof fn unwritten_change_can_be_undone<A: Assignor>(
    g: CoordinatorGroupView,
    parked: ParkedView,
    config: NextGenConfig<A>,
    input: ReconcileInputView,
    join: JoinGroupRequestView,
    ctx: JoinContext,
    suffix: Seq<char>,
    sync: SyncGroupRequest,
    leave: LeaveGroupRequest,
    version: i16,
    now: u64,
    now_ms: i64,
)
    ensures
        ({
            let r = join_begun(g, parked, config, input, join, ctx, suffix, now_ms);
            r.turn is Persist ==> g.kind == GroupKindView::Classic(r.turn->Persist_previous) && r.turn->Persist_batch == snapshot_batch(
                r.group.kind->Classic_0,
                now_ms,
            )
        }),
        ({
            let r = sync_begun(g, parked, input, sync, now, now_ms);
            r.2 is Persist ==> g.kind == GroupKindView::Classic(r.2->Persist_previous) && r.2->Persist_batch == snapshot_batch(r.0.kind->Classic_0, now_ms)
        }),
        ({
            let r = leave_begun(g, parked, config, input, leave, version, now, now_ms);
            r.2 is Persist ==> g.kind == GroupKindView::Classic(r.2->Persist_previous) && r.2->Persist_batch == snapshot_batch(r.0.kind->Classic_0, now_ms)
        }),
        ({
            let r = tick_begun(g, parked, config, input, now, now_ms);
            r.2 is Persist ==> g.kind == GroupKindView::Classic(r.2->Persist_previous) && r.2->Persist_batch == snapshot_batch(r.0.kind->Classic_0, now_ms)
        }),
{
}

/// What is left of a group without some of its members.
pub(crate) proof fn without_members_facts(g: GroupStateView, ids: Seq<Seq<char>>)
    ensures
        forall|id: Seq<char>| #[trigger] g.without_members(ids).members.contains_key(id) <==> g.members.contains_key(id) && !ids.contains(id),
        forall|id: Seq<char>| #[trigger] g.without_members(ids).members.contains_key(id) ==> g.without_members(ids).members[id] == g.members[id],
        g.without_members(ids).group_epoch == g.group_epoch,
        ids.len() > 0 ==> g.without_members(ids).dirty,
    decreases ids.len(),
{
    if ids.len() > 0 {
        let front = ids.drop_last();
        without_members_facts(g, front);
        assert forall|id: Seq<char>| #[trigger] g.without_members(ids).members.contains_key(id) <==> g.members.contains_key(id) && !ids.contains(id) by {
            let before = g.without_members(front).members.contains_key(id);
            if front.contains(id) {
                let i = choose|i: int| 0 <= i < front.len() && front[i] == id;
                assert(ids[i] == id);
            }
            if ids.contains(id) && id != ids.last() {
                let i = choose|i: int| 0 <= i < ids.len() && ids[i] == id;
                assert(front[i] == id);
            }
            assert(ids[ids.len() - 1] == ids.last());
        }
        assert forall|id: Seq<char>| #[trigger] g.without_members(ids).members.contains_key(id) implies g.without_members(ids).members[id]
            == g.members[id] by {
            assert(g.without_members(front).members.contains_key(id));
        }
    }
}

/// Members that leave, or that are not heard of, are gone and nobody else; what the others hold stays
/// theirs alone; and the next epoch begins.
pub proof fn departure_begins_an_epoch<A: Assignor>(g: GroupStateView, assignors: Seq<A>, input: ReconcileInputView, gone: Seq<Seq<char>>)
    requires
        gone.len() > 0,
        g.group_epoch < i32::MAX,
    ensures
        ({
            let h = reconciled(g.without_members(gone), assignors, input);
            &&& h.group_epoch == g.group_epoch + 1
            &&& h.target_epoch == h.group_epoch
            &&& forall|id: Seq<char>| #[trigger] h.members.contains_key(id) <==> g.members.contains_key(id) && !gone.contains(id)
            &&& exclusive(g) ==> exclusive(h)
            &&& keyed(g) ==> keyed(h)
        }),
{
    let a = g.without_members(gone);
    let h = reconciled(a, assignors, input);
    without_members_facts(g, gone);
    assert(h.members == a.members);
    if exclusive(g) {
        assert forall|x: Seq<char>, y: Seq<char>, t: u128, p: i32|
            #[trigger] h.members.contains_key(x) && #[trigger] h.members.contains_key(y) && x != y && #[trigger] h.members[x].holds(t, p) implies !h.members[y].holds(
            t,
            p,
        ) by {
            assert(a.members.contains_key(x) && a.members.contains_key(y));
            assert(g.members.contains_key(x) && g.members.contains_key(y));
            assert(g.members[x].holds(t, p));
        }
    }
    if keyed(g) {
        assert forall|x: Seq<char>| #[trigger] h.members.contains_key(x) implies h.members[x].member_id == x by {
            assert(a.members.contains_key(x));
            assert(g.members.contains_key(x));
        }
    }
}

/// A hosted member that syncs is handed its target, and its heartbeats are answered without error
/// until it has another.
pub proof fn synced_member_is_settled(g: GroupStateView, id: Seq<char>, image: ReconcileInputView, now: u64, then: u64)
    requires
        hosts(g, id),
    ensures
        hosted_sync(g, id, image, now).1.error_code == codes::NONE,
        hosted_heartbeat(hosted_sync(g, id, image, now).0, id, image, then).1 == codes::NONE,
        hosted_sync(hosted_sync(g, id, image, now).0, id, image, then).1 == hosted_sync(g, id, image, now).1,
{
    let h = hosted_sync(g, id, image, now).0;
    assert(h.target_of(id) == g.target_of(id));
}

/// A hosted member whose sync could not be written holds what it held before, and its heartbeats go
/// on telling it to rejoin as they did.
pub proof fn unwritten_sync_is_undone(g: GroupStateView, group_id: Seq<char>, id: Seq<char>, image: ReconcileInputView, now: u64, now_ms: i64)
    requires
        hosted_sync_begun(g, group_id, image, id, now, now_ms).1 is Host,
    ensures
        ({
            let (h, turn) = hosted_sync_begun(g, group_id, image, id, now, now_ms);
            let back = sync_undone(h, turn->Host_previous, id).members[id];
            &&& back.assigned_partitions == g.members[id].assigned_partitions
            &&& back.partitions_pending_revocation == g.members[id].partitions_pending_revocation
            &&& back.assignment_state == g.members[id].assignment_state
            &&& back.classic->0.last_synced_assignment == g.members[id].classic->0.last_synced_assignment
            &&& back.classic->0.awaiting_sync
        }),
{
}

/// A classic member that joins a consumer group gets no partition by that: what each member holds
/// stays its own.
pub proof fn hosted_join_keeps_exclusive<A: Assignor>(
    g: GroupStateView,
    group_id: Seq<char>,
    config: NextGenConfig<A>,
    input: ReconcileInputView,
    req: JoinGroupRequestView,
    ctx: JoinContext,
    now_ms: i64,
)
    requires
        exclusive(g),
        keyed(g),
    ensures
        exclusive(hosted_join_begun(g, group_id, config, input, req, ctx, now_ms).0),
        keyed(hosted_join_begun(g, group_id, config, input, req, ctx, now_ms).0),
{
    let h = registered(g, registration(req, ctx.client_id@, ctx.client_host@), ctx.now);
    let after = hosted_join_begun(g, group_id, config, input, req, ctx, now_ms).0;
    assert forall|a: Seq<char>| #[trigger] after.members.contains_key(a) implies h.members.contains_key(a) && after.members[a].member_id
        == h.members[a].member_id && forall|t: u128, p: i32| after.members[a].holds(t, p) == h.members[a].holds(t, p) by {}
    assert forall|a: Seq<char>| #[trigger] h.members.contains_key(a) implies h.members[a].member_id == a && forall|t: u128, p: i32|
        h.members[a].holds(t, p) == (g.members.contains_key(a) && g.members[a].holds(t, p)) by {}
    assert forall|a: Seq<char>, b: Seq<char>, t: u128, p: i32|
        #[trigger] after.members.contains_key(a) && #[trigger] after.members.contains_key(b) && a != b && #[trigger] after.members[a].holds(
            t,
            p,
        ) implies !after.members[b].holds(t, p) by {
        assert(h.members.contains_key(a) && h.members.contains_key(b));
        assert(h.members[a].holds(t, p));
        assert(g.members.contains_key(a) && g.members[a].holds(t, p));
        if after.members[b].holds(t, p) {
            assert(h.members[b].holds(t, p));
            assert(g.members.contains_key(b) && g.members[b].holds(t, p));
        }
    }
}

/// A classic group that becomes a consumer group begins with members that hold nothing, each under
/// its own id.
pub proof fn upgraded_group_is_exclusive(g: ClassicGroupView, now: u64)
    requires
        sound(g),
    ensures
        exclusive(upgraded(g, now)),
        keyed(upgraded(g, now)),
{
    let u = upgraded(g, now);
    assert forall|a: Seq<char>, t: u128, p: i32| #[trigger] u.members.contains_key(a) implies !(#[trigger] u.members[a].holds(t, p)) by {
        assert(g.members.contains_key(a));
    }
}

/// A classic group that becomes a consumer group and then a classic group again is the one it was, in
/// its generation, its members and their static identities; its members are assigned anew.
pub proof fn migration_keeps_members(g: ClassicGroupView, image: ReconcileInputView, now: u64)
    requires
        sound(g),
        convertible(g),
    ensures
        ({
            let h = downgraded(upgraded(g, now), image);
            &&& h.group_id == g.group_id
            &&& h.generation_id == g.generation_id
            &&& h.protocol_type == g.protocol_type
            &&& h.static_members == g.static_members
            &&& h.members.dom() == g.members.dom()
            &&& forall|id: Seq<char>| #[trigger]
                g.members.contains_key(id) ==> h.members[id] == (MemberView {
                    protocol_metadata: h.members[id].protocol_metadata,
                    assignment: h.members[id].assignment,
                    last_heartbeat: now,
                    is_new: false,
                    ..g.members[id]
                })
        }),
{
    let u = upgraded(g, now);
    let h = downgraded(u, image);
    assert(h.members.dom() =~= g.members.dom());
    assert forall|i: Seq<char>| held_identity(u, i) <==> g.static_members.contains_key(i) by {
        if held_identity(u, i) {
            let id = choose|id: Seq<char>| #[trigger] u.members.contains_key(id) && u.members[id].instance_id == Some(i);
            assert(g.members.contains_key(id));
        }
        if g.static_members.contains_key(i) {
            assert(u.members.contains_key(g.static_members[i]));
        }
    }
    assert forall|i: Seq<char>| g.static_members.contains_key(i) implies u.pinned(i) == Some(g.static_members[i]) by {
        let id = g.static_members[i];
        assert(u.members.contains_key(id));
        assert forall|x: Seq<char>| #[trigger] u.holders(i).contains(x) implies x == id by {
            assert(g.members.contains_key(x));
        }
        only_holder(u.holders(i), id);
    }
    assert(h.static_members =~= g.static_members);
}

} // verus!
