//! Which requests a group lets through, and what it answers the others.

use crate::assignor::Assignor;
use crate::classic_join::{CompletionView, completing, gathered};
use crate::classic_laws::sound;
use crate::classic_state::{ClassicGroupView, GroupState, MemberView};
use crate::classic_sync::{SyncActionView, beating, committer_refreshed, leaver, leaves, leaving, offset_commit_check, syncing, txn_commit_error};
use crate::codes;
use crate::commit_validation::{CommitFence, commit_checked};
use crate::config::NextGenConfig;
use crate::consumer_state::{GroupStateView, MemberStateView, ReconcileInputView};
use crate::group::{CoordinatorGroupView, GroupKindView};
use crate::heartbeat::{ClientIdentityView, HeartbeatRequestView, beat, spoken_id};
use crate::ordmap::listing;
use crate::requests::{HeartbeatRequest, LeaveGroupRequest, SyncGroupRequest, leave_identities};
use crate::text::opt_str;
use vstd::prelude::*;

verus! {

/// Whether `id`, with the static identity `instance` where it gives one, is a member that may speak:
/// it is a member, and the identity is held by it.
pub open spec fn speaks(g: ClassicGroupView, id: Seq<char>, instance: Option<Seq<char>>) -> bool {
    &&& g.members.contains_key(id)
    &&& instance is Some ==> g.static_members.contains_key(instance->0) && g.static_members[instance->0] == id
}

/// Whether another member than `id` holds the static identity that `id` claims.
pub open spec fn claimed_by_another(g: ClassicGroupView, id: Seq<char>, instance: Option<Seq<char>>) -> bool {
    instance is Some && g.static_members.contains_key(instance->0) && g.static_members[instance->0] != id
}

/// What a `Heartbeat` is answered: no error exactly to a member of the current generation while no round
/// gathers; that a round gathers, to a member of the current generation while one does; a claimed
/// identity that another member holds is fenced; anybody else is unknown, or of another generation.
pub proof fn heartbeat_is_answered_by_the_state(g: ClassicGroupView, req: HeartbeatRequest, now: u64)
    requires
        sound(g),
    ensures
        ({
            let (after, code) = beating(g, req, now);
            let id = req.member_id@;
            let instance = opt_str(req.group_instance_id);
            let ours = speaks(g, id, instance) && req.generation_id == g.generation_id;
            &&& code == codes::NONE <==> ours && (g.state == GroupState::Stable || g.state == GroupState::CompletingRebalance)
            &&& code == codes::REBALANCE_IN_PROGRESS <==> ours && g.state == GroupState::PreparingRebalance
            &&& code == codes::FENCED_INSTANCE_ID <==> claimed_by_another(g, id, instance)
            &&& code == codes::ILLEGAL_GENERATION <==> speaks(g, id, instance) && req.generation_id != g.generation_id
            &&& code == codes::UNKNOWN_MEMBER_ID <==> !speaks(g, id, instance) && !claimed_by_another(g, id, instance)
            &&& after.members.dom() == g.members.dom()
            &&& ours ==> after.members[id].last_heartbeat == now
            &&& forall|x: Seq<char>| #[trigger] g.members.contains_key(x) && x != id ==> after.members[x] == g.members[x]
            &&& after.state == g.state && after.generation_id == g.generation_id && after.leader_id == g.leader_id
        }),
{
    let after = beating(g, req, now).0;
    assert(after.members.dom() =~= g.members.dom());
    if let Some(i) = opt_str(req.group_instance_id) {
        if g.static_members.contains_key(i) {
            assert(g.members.contains_key(g.static_members[i]));
        }
    }
}

/// What a `SyncGroup` is answered: a member of the current generation whose protocol is the group's gets
/// its answer once the group is stable, waits for the leader before that, and is told to join again
/// while a round gathers; anybody else is refused, and changes nothing.
pub proof fn sync_is_answered_by_the_state(g: ClassicGroupView, req: SyncGroupRequest)
    requires
        sound(g),
    ensures
        ({
            let (after, action) = syncing(g, req);
            let id = req.member_id@;
            let instance = opt_str(req.group_instance_id);
            let other_protocol = (req.protocol_type is Some && g.protocol_type is Some && opt_str(req.protocol_type) != g.protocol_type) || (
            req.protocol_name is Some && g.protocol_name is Some && opt_str(req.protocol_name) != g.protocol_name);
            let ours = speaks(g, id, instance) && req.generation_id == g.generation_id && !other_protocol;
            let code = if action is Immediate {
                action->Immediate_0.error_code
            } else {
                codes::NONE
            };
            &&& action is Park <==> ours && g.state == GroupState::CompletingRebalance && g.leader_id != Some(id)
            &&& action is LeaderInstalled <==> ours && g.state == GroupState::CompletingRebalance && g.leader_id == Some(id)
            &&& action is Immediate && code == codes::NONE <==> ours && g.state == GroupState::Stable
            &&& code == codes::REBALANCE_IN_PROGRESS <==> ours && g.state == GroupState::PreparingRebalance
            &&& code == codes::FENCED_INSTANCE_ID <==> claimed_by_another(g, id, instance)
            &&& code == codes::UNKNOWN_MEMBER_ID <==> !speaks(g, id, instance) && !claimed_by_another(g, id, instance)
            &&& code == codes::ILLEGAL_GENERATION <==> speaks(g, id, instance) && req.generation_id != g.generation_id
            &&& code == codes::INCONSISTENT_GROUP_PROTOCOL <==> speaks(g, id, instance) && req.generation_id == g.generation_id && other_protocol
            &&& !(action is LeaderInstalled) ==> after == g
            &&& action is Immediate && code == codes::NONE ==> action->Immediate_0.protocol_type == g.protocol_type && action->Immediate_0.protocol_name
                == g.protocol_name && (g.members[id].assignment is Some ==> action->Immediate_0.assignment == g.members[id].assignment->0)
            &&& action is Immediate && code != codes::NONE ==> action->Immediate_0.assignment.len() == 0
        }),
{
    if let Some(i) = opt_str(req.group_instance_id) {
        if g.static_members.contains_key(i) {
            assert(g.members.contains_key(g.static_members[i]));
        }
    }
}

/// A round leaves out exactly those that have no static identity and did not join again; however it
/// ends, all others stay, and nobody comes in.
pub proof fn round_leaves_out_who_did_not_return(g: ClassicGroupView, now: u64, id: Seq<char>)
    requires
        g.state == GroupState::PreparingRebalance,
    ensures
        ({
            let (h, result) = completing(g, now);
            &&& h.members.contains_key(id) <==> g.members.contains_key(id) && (g.joined_this_round.contains(id) || g.members[id].group_instance_id is Some)
            &&& result is Ok && result->Ok_0 is Emptied <==> g.generation_id < i32::MAX && forall|x: Seq<char>| #[trigger]
                g.members.contains_key(x) ==> g.members[x].group_instance_id is None && !g.joined_this_round.contains(x)
            &&& result is Ok && result->Ok_0 is Emptied ==> h.state == GroupState::Empty && h.generation_id == g.generation_id + 1 && h.leader_id is None
                && h.protocol_name is None && h.rebalance_deadline is None
            &&& result is Ok && result->Ok_0 is Postponed ==> h.state == GroupState::PreparingRebalance && h.generation_id == g.generation_id && (forall|
                x: Seq<char>,
            | #[trigger]
                g.members.contains_key(x) ==> !g.joined_this_round.contains(x)) && h.rebalance_deadline is Some && h.rebalance_deadline->0 >= now
            &&& result is Err ==> h.state == GroupState::PreparingRebalance && h.generation_id == g.generation_id
            &&& !(result is Ok && result->Ok_0 is NotPreparing)
        }),
{
    let (h, result) = completing(g, now);
    let k = gathered(g);
    assert(k.members.contains_key(id) <==> g.members.contains_key(id) && (g.joined_this_round.contains(id) || g.members[id].group_instance_id is Some));
    if k.members == Map::<Seq<char>, MemberView>::empty() {
        assert forall|x: Seq<char>| #[trigger] g.members.contains_key(x) implies g.members[x].group_instance_id is None && !g.joined_this_round.contains(x) by {
            assert(!k.members.contains_key(x));
        }
    } else {
        assert(exists|x: Seq<char>| k.members.contains_key(x)) by {
            if forall|x: Seq<char>| !k.members.contains_key(x) {
                assert(k.members =~= Map::<Seq<char>, MemberView>::empty());
            }
        }
        let x = choose|x: Seq<char>| k.members.contains_key(x);
        assert(g.members.contains_key(x));
    }
    if result is Ok && result->Ok_0 is Postponed {
        assert(k.joined_members() =~= Set::<Seq<char>>::empty());
        assert forall|x: Seq<char>| #[trigger] g.members.contains_key(x) implies !g.joined_this_round.contains(x) by {
            if g.joined_this_round.contains(x) {
                assert(k.joined_members().contains(x));
            }
        }
    }
}

/// A `LeaveGroup` of one member: it is gone and answered without error, with all that was kept of it;
/// the others stay as they were. A stable group that has others left begins a round for them; one that
/// lost its last member is empty.
pub proof fn leaver_is_gone_and_nobody_else(g: ClassicGroupView, req: LeaveGroupRequest, version: i16, now: u64)
    requires
        sound(g),
        leave_identities(req, version).len() == 1,
    ensures
        ({
            let (id, instance) = leave_identities(req, version)[0];
            let (h, answers) = leaving(g, req, version, now);
            let gone = if instance is Some {
                g.static_members[instance->0]
            } else {
                id
            };
            let known = if instance is Some {
                g.static_members.contains_key(instance->0) && (id.len() == 0 || g.static_members[instance->0] == id)
            } else {
                g.members.contains_key(id)
            };
            &&& answers.len() == 1
            &&& answers[0].member_id == id && answers[0].group_instance_id == instance
            &&& answers[0].error_code == codes::NONE <==> known
            &&& !known && instance is Some && g.static_members.contains_key(instance->0) ==> answers[0].error_code == codes::FENCED_INSTANCE_ID
            &&& !known && !(instance is Some && g.static_members.contains_key(instance->0)) ==> answers[0].error_code == codes::UNKNOWN_MEMBER_ID
            &&& !known ==> h == g
            &&& known ==> {
                &&& g.members.contains_key(gone)
                &&& h.members == g.members.remove(gone)
                &&& !h.joined_this_round.contains(gone)
                &&& forall|i: Seq<char>| #[trigger]
                    h.static_members.contains_key(i) <==> g.static_members.contains_key(i) && g.static_members[i] != gone
                &&& h.leader_id != Some(gone)
                &&& g.leader_id is Some && g.leader_id != Some(gone) && h.members != Map::<Seq<char>, MemberView>::empty() ==> h.leader_id == g.leader_id
                &&& h.members == Map::<Seq<char>, MemberView>::empty() ==> h.state == GroupState::Empty && h.leader_id is None
                &&& h.members != Map::<Seq<char>, MemberView>::empty() && g.state == GroupState::Stable ==> h.state == GroupState::PreparingRebalance
                    && h.rebalance_deadline is Some && h.rebalance_deadline->0 >= now
                &&& h.members != Map::<Seq<char>, MemberView>::empty() && g.state != GroupState::Stable ==> h.state == g.state && h.rebalance_deadline
                    == g.rebalance_deadline
                &&& h.generation_id == g.generation_id
            }
        }),
{
    let idents = leave_identities(req, version);
    let (id, instance) = idents[0];
    assert(idents.drop_last() =~= seq![]);
    assert(leaves(g, idents.drop_last()) == (crate::classic_sync::LeaveStep { group: g, any_removed: false, responses: seq![] }));
    assert(idents.last() == idents[0]);
    if let Some(i) = instance {
        if g.static_members.contains_key(i) {
            assert(g.members.contains_key(g.static_members[i]));
        }
    }
    match leaver(g, id, instance) {
        Ok(gone) => {
            crate::classic_laws::left_member_is_unknown(g, id, instance);
            let rest = g.members.remove(gone);
            if rest != Map::<Seq<char>, MemberView>::empty() {
                let h = g.without_member(gone);
                if h.leader_id == Some(gone) {
                    crate::classic_laws::first_of_member(rest);
                }
            }
        },
        Err(_) => {},
    }
}

/// When a classic group lets an `OffsetCommit` through. One without a generation passes in an empty group.
/// One that names its member passes for a member of the current generation, unless the leader's
/// assignments are awaited. Whoever names nobody passes only in an empty group.
pub proof fn classic_commit_passes_for_members(g: ClassicGroupView, id: Seq<char>, instance: Option<Seq<char>>, generation: i32)
    requires
        sound(g),
    ensures
        ({
            let named = generation >= 0 || id.len() > 0 || instance is Some;
            let free = generation < 0 && g.state == GroupState::Empty;
            let checked = offset_commit_check(g, id, instance, generation);
            &&& checked is Ok <==> free || (named && speaks(g, id, instance) && generation == g.generation_id && g.state != GroupState::CompletingRebalance)
            &&& !free && named && claimed_by_another(g, id, instance) ==> checked == Err::<(), i16>(codes::FENCED_INSTANCE_ID)
            &&& !free && named && !speaks(g, id, instance) && !claimed_by_another(g, id, instance) ==> checked == Err::<(), i16>(codes::UNKNOWN_MEMBER_ID)
            &&& !free && named && speaks(g, id, instance) && generation != g.generation_id ==> checked == Err::<(), i16>(codes::ILLEGAL_GENERATION)
            &&& !free && named && speaks(g, id, instance) && generation == g.generation_id && g.state == GroupState::CompletingRebalance ==> checked == Err::<
                (),
                i16,
            >(codes::REBALANCE_IN_PROGRESS)
            &&& !free && !named ==> checked == Err::<(), i16>(codes::UNKNOWN_MEMBER_ID)
        }),
{
    if let Some(i) = instance {
        if g.static_members.contains_key(i) {
            assert(g.members.contains_key(g.static_members[i]));
        }
    }
}

/// A member whose `Heartbeat` a classic group answers without error may commit under that generation,
/// but for the time that the leader's assignments are awaited; and its commit counts as a sign of life.
pub proof fn whoever_is_heard_may_commit(g: CoordinatorGroupView, state: ClassicGroupView, req: HeartbeatRequest, fence: CommitFence, now: u64)
    requires
        g.kind == GroupKindView::Classic(state),
        sound(state),
        fence is Offset,
        req.member_id@.len() > 0,
        beating(state, req, now).1 == codes::NONE,
    ensures
        ({
            let (after, verdict) = commit_checked(g, req.member_id@, opt_str(req.group_instance_id), req.generation_id, fence, now);
            &&& verdict is Ok <==> state.state == GroupState::Stable
            &&& verdict is Ok ==> after.kind is Classic && after.kind->Classic_0.members[req.member_id@].last_heartbeat == now
            &&& verdict is Err ==> after == g
            &&& after.committed_offsets == g.committed_offsets
        }),
{
}

/// When a classic group lets a transaction commit offsets: one that names nobody always; else for the
/// member or the holder of the static identity that it names, in the current generation.
pub proof fn classic_txn_commit_passes_for_members(g: ClassicGroupView, id: Seq<char>, instance: Option<Seq<char>>, generation: i32)
    ensures
        ({
            let verdict = txn_commit_error(g, id, instance, generation);
            let nobody = id.len() == 0 && instance is None;
            let held = instance is Some && g.static_members.contains_key(instance->0);
            let known = if instance is Some {
                held && (id.len() == 0 || g.static_members[instance->0] == id)
            } else {
                g.members.contains_key(id)
            };
            &&& verdict is None <==> nobody || (known && generation == g.generation_id)
            &&& !nobody && !known && held ==> verdict == Some(codes::FENCED_INSTANCE_ID)
            &&& !nobody && !known && !held ==> verdict == Some(codes::UNKNOWN_MEMBER_ID)
            &&& !nobody && known && generation != g.generation_id ==> verdict == Some(codes::ILLEGAL_GENERATION)
        }),
{
}

/// The epoch that a consumer group's heartbeat was answered with is the one that the member commits
/// under, and the only one: by a version that knows epochs, or in a transaction.
pub proof fn answered_epoch_is_the_one_to_commit_under<A: Assignor>(
    state: GroupStateView,
    config: NextGenConfig<A>,
    input: ReconcileInputView,
    req: HeartbeatRequestView,
    minted: Seq<char>,
    client: ClientIdentityView,
    now: u64,
    authorized: Set<Seq<char>>,
    g: CoordinatorGroupView,
    epoch: i32,
    instance: Option<Seq<char>>,
    version: i16,
)
    requires
        req.member_epoch >= 0,
        beat(state, config, input, req, minted, client, now, authorized).1.response.error_code == codes::NONE,
        beat(state, config, input, req, minted, client, now, authorized).0.members.contains_key(spoken_id(req, minted)),
        g.kind == GroupKindView::Consumer(beat(state, config, input, req, minted, client, now, authorized).0),
        version >= 9,
    ensures
        ({
            let id = spoken_id(req, minted);
            let told = beat(state, config, input, req, minted, client, now, authorized).1.response.member_epoch;
            let plain = commit_checked(g, id, instance, epoch, (CommitFence::Offset { api_version: version }), now);
            let txn = commit_checked(g, id, instance, epoch, CommitFence::Transactional, now);
            &&& plain.0 == g && txn.0 == g
            &&& plain.1 is Ok <==> epoch == told
            &&& txn.1 is Ok <==> epoch == told
            &&& epoch < told ==> txn.1 == Err::<(), i16>(codes::STALE_MEMBER_EPOCH)
            &&& epoch > told ==> txn.1 == Err::<(), i16>(codes::FENCED_MEMBER_EPOCH)
        }),
{
    let after = beat(state, config, input, req, minted, client, now, authorized).0;
    let id = spoken_id(req, minted);
    assert(after.members.dom().contains(id));
}

/// When a consumer group lets an `OffsetCommit` through: from nobody in particular while it has no
/// members; else from a member under its epoch. A member of the consumer protocol needs a version that
/// knows epochs; a member that is hosted does not. Whoever is no member is told so.
pub proof fn consumer_commit_passes_for_members(
    g: CoordinatorGroupView,
    state: GroupStateView,
    id: Seq<char>,
    instance: Option<Seq<char>>,
    epoch: i32,
    version: i16,
    now: u64,
)
    requires
        g.kind == GroupKindView::Consumer(state),
    ensures
        ({
            let verdict = commit_checked(g, id, instance, epoch, (CommitFence::Offset { api_version: version }), now).1;
            let txn = commit_checked(g, id, instance, epoch, CommitFence::Transactional, now).1;
            let free = epoch < 0 && forall|x: Seq<char>| !(#[trigger] state.members.contains_key(x));
            let member = state.members.contains_key(id);
            let hosted = member && state.members[id].classic is Some;
            &&& verdict is Ok <==> free || (member && epoch == state.members[id].member_epoch && (hosted || version >= 9))
            &&& !free && !member ==> verdict == Err::<(), i16>(codes::UNKNOWN_MEMBER_ID)
            &&& member && !hosted && version < 9 ==> verdict == Err::<(), i16>(codes::UNSUPPORTED_VERSION)
            &&& hosted && epoch != state.members[id].member_epoch ==> verdict == Err::<(), i16>(codes::ILLEGAL_GENERATION)
            &&& member && !hosted && version >= 9 && epoch != state.members[id].member_epoch ==> verdict == Err::<(), i16>(codes::STALE_MEMBER_EPOCH)
            &&& txn is Ok <==> member && epoch == state.members[id].member_epoch
            &&& !member ==> txn == Err::<(), i16>(codes::UNKNOWN_MEMBER_ID)
        }),
{
    if forall|x: Seq<char>| !(#[trigger] state.members.contains_key(x)) {
        assert(state.members.dom() =~= Set::<Seq<char>>::empty());
    }
    if state.members.dom() =~= Set::<Seq<char>>::empty() {
        assert forall|x: Seq<char>| !(#[trigger] state.members.contains_key(x)) by {
            assert(!state.members.dom().contains(x));
        }
    }
    if state.members.contains_key(id) {
        assert(state.members.dom().contains(id));
    }
}

} // verus!
