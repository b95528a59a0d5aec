//! Who waits for an answer and for how long: what a request that is not answered leaves behind, when a round begins
//! anew, and when it is over.

use crate::assignor::Assignor;
use crate::classic_join::{CompletionView, JoinActionView, JoinContext, completing, joining};
use crate::classic_laws::{answers_join, answers_sync, first_of_member, round_answers_everybody, sound};
use crate::classic_state::{ClassicGroupView, GroupState, MemberView};
use crate::classic_sync::leaving;
use crate::codes;
use crate::config::NextGenConfig;
use crate::consumer_laws::only_holder;
use crate::consumer_state::{GroupStateView, LEAVE_GROUP_STATIC_MEMBER_EPOCH, MemberStateView, ReconcileInputView};
use crate::directory::{DirectoryView, GroupType};
use crate::group::{CoordinatorGroupView, PartitionKeyView, reserved_of};
use crate::heartbeat::{ClientIdentityView, HeartbeatRequestView, beat};
use crate::join_turn::{JoinTurnView, classic_join_begun, fenced};
use crate::leave_turn::{DeleteRoute, delete_route_of};
use crate::ordmap::listing_len;
use crate::partitions::{merged_has, part_of};
use crate::pending_records::GroupSeedView;
use crate::requests::{JoinGroupRequestView, SyncGroupRequest};
use crate::seed::seeded;
use crate::sync_turn::{SyncTurnView, classic_sync_begun};
use crate::waiters::{ParkedView, ended_round, maybe_ended, turned_away};
use crate::wire::assignment_blob;
use vstd::prelude::*;

verus! {

/// A `JoinGroup` that is not answered at once waits until its round ends, and is answered where it ends the round
/// itself; unless it takes the place of another under a static identity, which is then told, everybody else that
/// waited waits on or is answered.
pub proof fn join_is_answered_or_waits(
    state: ClassicGroupView,
    parked: ParkedView,
    req: JoinGroupRequestView,
    ctx: JoinContext,
    suffix: Seq<char>,
    now_ms: i64,
    other: Seq<char>,
)
    requires
        parked.joiners.finite(),
        parked.followers.finite(),
    ensures
        ({
            let (h, left, turn) = classic_join_begun(state, parked, req, ctx, suffix, now_ms);
            let fenced_member = joining(state, req, ctx, suffix).outcome.fenced_member;
            &&& turn is Done && turn->Done_reply is None ==> left.joiners.contains(turn->Done_member_id) || answers_join(
                turn->Done_replies,
                turn->Done_member_id,
            )
            &&& fenced_member is None && parked.joiners.contains(other) ==> left.joiners.contains(other) || (turn is Done && answers_join(
                turn->Done_replies,
                other,
            ))
            &&& fenced_member is None && parked.followers.contains(other) ==> left.followers.contains(other) || (turn is Done && answers_sync(
                turn->Done_replies,
                other,
            ))
        }),
{
    let step = joining(state, req, ctx, suffix);
    let (kept, told) = fenced(parked, step.outcome.fenced_member);
    let waiting = ParkedView { joiners: kept.joiners.insert(step.member_id), ..kept };
    if let Some(id) = step.outcome.fenced_member {
        reveal_with_fuel(turned_away, 2);
        assert(seq![id].drop_last() =~= seq![]);
    }
    if step.outcome.action is CompleteNow {
        let (h, left, turn) = classic_join_begun(state, parked, req, ctx, suffix, now_ms);
        let round = ended_round(step.group, waiting, ctx.now);
        round_answers_everybody(step.group, waiting, ctx.now, step.member_id);
        round_answers_everybody(step.group, waiting, ctx.now, other);
        assert(turn->Done_replies == told.and(round.replies));
        let n = told.joins.len() as int;
        let k = told.syncs.len() as int;
        if answers_join(round.replies, step.member_id) {
            let i = choose|i: int| 0 <= i < round.replies.joins.len() && (#[trigger] round.replies.joins[i]).0 == step.member_id;
            assert(turn->Done_replies.joins[n + i].0 == step.member_id);
        }
        if answers_join(round.replies, other) {
            let i = choose|i: int| 0 <= i < round.replies.joins.len() && (#[trigger] round.replies.joins[i]).0 == other;
            assert(turn->Done_replies.joins[n + i].0 == other);
        }
        if answers_sync(round.replies, other) {
            let i = choose|i: int| 0 <= i < round.replies.syncs.len() && (#[trigger] round.replies.syncs[i]).0 == other;
            assert(turn->Done_replies.syncs[k + i].0 == other);
        }
    }
}

/// A `SyncGroup` that is not answered at once waits; nobody that waited stops waiting by it.
pub proof fn sync_is_answered_or_waits(state: ClassicGroupView, parked: ParkedView, req: SyncGroupRequest, now_ms: i64, other: Seq<char>)
    ensures
        ({
            let (h, left, turn) = classic_sync_begun(state, parked, req, now_ms);
            &&& turn is Done && turn->Done_reply is None ==> left.followers.contains(req.member_id@)
            &&& parked.followers.contains(other) ==> left.followers.contains(other)
            &&& left.followers.contains(other) ==> parked.followers.contains(other) || (other == req.member_id@ && turn is Done && turn->Done_reply is None)
            &&& left.joiners == parked.joiners
        }),
{
}

/// A static member that comes back to a stable group without a new round is told of the generation as it is: from
/// version 9 on a leader is told of the members and to leave their assignments alone; before, it is told of nobody
/// and of the leader by the id that it had.
pub proof fn returning_leader_leaves_assignments_alone(g: ClassicGroupView, req: JoinGroupRequestView, ctx: JoinContext, suffix: Seq<char>)
    requires
        joining(g, req, ctx, suffix).outcome.action is PersistThenReply,
        sound(joining(g, req, ctx, suffix).group),
    ensures
        ({
            let step = joining(g, req, ctx, suffix);
            let answer = step.outcome.action->PersistThenReply_0;
            &&& ctx.version >= 9 ==> {
                &&& answer.skip_assignment <==> step.group.leader_id == Some(step.member_id)
                &&& step.group.leader_id is Some ==> answer.leader == step.group.leader_id->0
                &&& answer.members.len() == if step.group.leader_id == Some(step.member_id) {
                    step.group.members.dom().len()
                } else {
                    0
                }
            }
            &&& ctx.version < 9 ==> {
                &&& !answer.skip_assignment
                &&& answer.members.len() == 0
                &&& g.leader_id is Some ==> answer.leader == g.leader_id->0
            }
        }),
{
    listing_len::<String>(joining(g, req, ctx, suffix).group.members.dom());
}

/// A `JoinGroup` that opens a round waits in it alone: nobody counts as having joined that joined another.
pub proof fn round_begins_with_who_opens_it(g: ClassicGroupView, req: JoinGroupRequestView, ctx: JoinContext, suffix: Seq<char>)
    requires
        g.state != GroupState::PreparingRebalance,
        joining(g, req, ctx, suffix).outcome.action is Park || joining(g, req, ctx, suffix).outcome.action is CompleteNow,
    ensures
        ({
            let step = joining(g, req, ctx, suffix);
            &&& step.group.state == GroupState::PreparingRebalance
            &&& forall|x: Seq<char>| #[trigger] step.group.joined_this_round.contains(x) <==> x == step.member_id
            &&& !step.group.new_member_added
            &&& step.group.rebalance_from_empty <==> g.state == GroupState::Empty
            &&& step.group.initial_join is Some <==> g.state == GroupState::Empty
        }),
{
}

/// Whoever joins a group for the first time while its first round gathers makes that round wait on; in any other round
/// nobody does.
pub proof fn newcomer_makes_the_first_round_wait_on(g: ClassicGroupView, req: JoinGroupRequestView, ctx: JoinContext, suffix: Seq<char>)
    requires
        g.state == GroupState::PreparingRebalance,
        joining(g, req, ctx, suffix).outcome.action is Park || joining(g, req, ctx, suffix).outcome.action is CompleteNow,
        joining(g, req, ctx, suffix).outcome.fenced_member is None,
        sound(g),
        req.member_id.len() == 0 ==> !g.members.contains_key(joining(g, req, ctx, suffix).member_id),
    ensures
        ({
            let step = joining(g, req, ctx, suffix);
            step.group.new_member_added <==> g.new_member_added || (g.rebalance_from_empty && !g.members.contains_key(step.member_id))
        }),
{
}

/// A round that is over leaves no trace of itself: nobody counts as waiting in it, no deadline stands, and the next round
/// is no first one by it.
pub proof fn round_that_is_over_leaves_no_trace(g: ClassicGroupView, now: u64)
    requires
        g.state == GroupState::PreparingRebalance,
        completing(g, now).1 matches Ok(c) && (c is Generation || c is Emptied),
    ensures
        ({
            let h = completing(g, now).0;
            &&& h.joined_this_round == Set::<Seq<char>>::empty()
            &&& h.rebalance_deadline is None
            &&& h.initial_join is None
            &&& !h.rebalance_from_empty
            &&& !h.new_member_added
            &&& completing(g, now).1->Ok_0 is Emptied ==> h.state == GroupState::Empty && h.leader_id is None && h.protocol_name is None
        }),
{
}

/// While somebody is awaited the round goes on; the first round of a group goes on until its deadline. A later round that
/// everybody waits in is over, and nobody waits on.
pub proof fn round_goes_on_while_somebody_is_awaited(g: ClassicGroupView, parked: ParkedView, now: u64)
    requires
        sound(g),
        parked.joiners.finite(),
        parked.followers.finite(),
    ensures
        ({
            let r = maybe_ended(g, parked, now);
            let all_wait = (forall|x: Seq<char>| #[trigger] g.members.contains_key(x) ==> g.joined_this_round.contains(x)) && g.pending_members == Map::<
                Seq<char>,
                u64,
            >::empty();
            let over = g.state == GroupState::PreparingRebalance && g.generation_id > 0 && all_wait;
            &&& !over ==> r.group == g && r.parked == parked && r.replies.joins.len() == 0 && r.replies.syncs.len() == 0 && !r.emptied
            &&& over ==> r.parked.joiners == Set::<Seq<char>>::empty() && r.parked.followers == Set::<Seq<char>>::empty()
        }),
{
    let h = crate::classic_join::gathered(g);
    if crate::waiters::ends_early(g) {
        assert(h.members =~= g.members);
        round_answers_everybody(g, parked, now, seq![]);
        if g.members != Map::<Seq<char>, MemberView>::empty() {
            assert(h.joined_members() =~= g.members.dom());
            first_of_member(g.members);
        }
    }
}

/// A group is deleted by who serves it: a streams group, a share group, or any other.
pub proof fn group_is_deleted_by_who_serves_it(dir: DirectoryView, id: Seq<char>)
    ensures
        delete_route_of(dir, id) == DeleteRoute::Streams <==> dir.types.contains_key(id) && dir.types[id] == GroupType::Streams,
        delete_route_of(dir, id) == DeleteRoute::Share <==> dir.types.contains_key(id) && dir.types[id] == GroupType::Share,
        delete_route_of(dir.with_classic(id), id) == DeleteRoute::Group,
        delete_route_of(dir.without(id), id) == DeleteRoute::Group,
{
}

/// An offset that is known to be written is no longer about to be: what else the producer is about to write, and what
/// other producers are, stays.
pub proof fn written_offset_is_no_longer_reserved(
    g: CoordinatorGroupView,
    producer: i64,
    at: i64,
    keys: Seq<PartitionKeyView>,
    other: i64,
    k: PartitionKeyView,
)
    requires
        other != producer,
    ensures
        reserved_of(g.marked(producer, at, keys).reserved_txn, producer).contains(k) <==> reserved_of(g.reserved_txn, producer).contains(k) && !keys.contains(k),
        reserved_of(g.marked(producer, at, keys).reserved_txn, other) == reserved_of(g.reserved_txn, other),
{
}

/// A member of the classic protocol in a consumer group that is restored counts as synced with what it holds, and owes a
/// sync just when that is not what it is to hold. A restored group needs no new target.
pub proof fn restored_member_owes_a_sync(g: GroupStateView, seed: GroupSeedView, image: ReconcileInputView, now: u64, id: Seq<char>)
    requires
        seeded(g, seed, image, now).members.contains_key(id),
        seeded(g, seed, image, now).members[id].classic is Some,
    ensures
        ({
            let h = seeded(g, seed, image, now);
            let m = h.members[id];
            &&& m.classic->0.last_synced_assignment == assignment_blob(m.held(), image)
            &&& m.classic->0.awaiting_sync <==> assignment_blob(m.held(), image) != assignment_blob(h.target_of(id), image)
            &&& !h.dirty
        }),
{
}

/// A process that takes the place of a static member that is away brings its own rack, assignor and time limit where it
/// gives them, and keeps those of the member before it where it does not.
pub proof fn taking_over_brings_what_is_sent<A: Assignor>(
    g: GroupStateView,
    config: NextGenConfig<A>,
    input: ReconcileInputView,
    req: HeartbeatRequestView,
    minted: Seq<char>,
    client: ClientIdentityView,
    now: u64,
    authorized: Set<Seq<char>>,
    owner: Seq<char>,
    id: Seq<char>,
)
    requires
        req.member_epoch == 0,
        req.instance_id is Some,
        id == if req.member_id.len() == 0 {
            minted
        } else {
            req.member_id
        },
        g.members.contains_key(owner),
        g.members[owner].instance_id == req.instance_id,
        g.members[owner].member_epoch == LEAVE_GROUP_STATIC_MEMBER_EPOCH,
        forall|x: Seq<char>| #[trigger] g.members.contains_key(x) && g.members[x].instance_id == req.instance_id ==> x == owner,
        beat(g, config, input, req, minted, client, now, authorized).1.response.error_code == codes::NONE,
    ensures
        ({
            let m = beat(g, config, input, req, minted, client, now, authorized).0.members[id];
            let before = g.members[owner];
            &&& m.member_id == id && m.instance_id == req.instance_id && m.last_seen == now
            &&& m.rack_id == if req.rack_id is Some {
                req.rack_id
            } else {
                before.rack_id
            }
            &&& m.server_assignor == if req.server_assignor is Some {
                req.server_assignor
            } else {
                before.server_assignor
            }
            &&& m.rebalance_timeout == if req.rebalance_timeout_ms >= 0 {
                req.rebalance_timeout_ms as int
            } else {
                before.rebalance_timeout as int
            }
            &&& req.subscribed_topic_names is None ==> m.subscribed_topic_names == before.subscribed_topic_names
        }),
{
    let instance = req.instance_id->0;
    assert(g.holders(instance).contains(owner));
    assert forall|x: Seq<char>| #[trigger] g.holders(instance).contains(x) implies x == owner by {
        assert(g.members.contains_key(x));
    }
    only_holder(g.holders(instance), owner);
}

/// A round that could not begin a generation is over all the same: nobody waits in it, and no deadline stands.
pub proof fn failed_round_is_over(g: ClassicGroupView, parked: ParkedView, now: u64)
    requires
        completing(g, now).1 is Err,
    ensures
        ({
            let r = ended_round(g, parked, now);
            &&& r.group.rebalance_deadline is None
            &&& r.group.joined_this_round == Set::<Seq<char>>::empty()
            &&& r.group.generation_id == g.generation_id
            &&& r.parked.joiners == Set::<Seq<char>>::empty()
            &&& r.parked.followers == Set::<Seq<char>>::empty()
            &&& !r.emptied
        }),
{
}

/// What a member holds is what it is assigned together with what it has still to give up.
pub proof fn member_holds_what_it_has_to_give_up(m: MemberStateView, t: u128, p: i32)
    ensures
        part_of(m.held(), t, p) <==> part_of(m.assigned_partitions, t, p) || part_of(m.partitions_pending_revocation, t, p),
{
    merged_has(m.assigned_partitions, m.partitions_pending_revocation, t, p);
}

} // verus!
