//! What a classic group does with what its members bring: from the `JoinGroup` of each to the answer
//! that the leader gets, and from the leader's `SyncGroup` to what each reads.

use crate::classic_join::{
    CompletionView, JoinActionView, JoinContext, completing, gathered, join_result, joining, left_behind,
};
use crate::classic_laws::{fresh_for, sound};
use crate::classic_state::{ClassicGroupView, GroupState, MemberView, ProtocolView, candidate, common, elected, metadata_of, selected_protocol, supports};
use crate::classic_sync::{SyncActionView, beating, leaves, leaving, supplied, sync_result, syncing};
use crate::codes;
use crate::ordmap::{listed_at, listing, listing_holds};
use crate::requests::{JoinGroupRequestView, SyncGroupRequest, sync_error};
use crate::text::opt_str;
use crate::waiters::{ParkedView, all_assigned, all_joined_answers, all_synced, ended_round, turned_away};
use vstd::prelude::*;

verus! {

/// A `JoinGroup` that is let in is kept as it was sent: its member stands in the group under the id
/// that it goes by, with the protocols, the timeouts and the static identity that it brings. Nobody
/// else is touched, and the generation goes on.
pub proof fn join_is_kept_as_sent(g: ClassicGroupView, req: JoinGroupRequestView, ctx: JoinContext, suffix: Seq<char>)
    requires
        sound(g),
        fresh_for(g, req, ctx, suffix),
        match joining(g, req, ctx, suffix).outcome.action {
            JoinActionView::Immediate(answer) => answer.error_code == codes::NONE,
            _ => true,
        },
    ensures
        ({
            let step = joining(g, req, ctx, suffix);
            let id = step.member_id;
            let m = step.group.members[id];
            &&& req.member_id.len() > 0 ==> id == req.member_id
            &&& step.group.members.contains_key(id)
            &&& m.id == id
            &&& m.protocols == req.protocols
            &&& req.group_instance_id is Some ==> m.group_instance_id == req.group_instance_id
            &&& !(step.outcome.action is Immediate) && req.session_timeout_ms >= 0 ==> m.session_timeout == req.session_timeout_ms
            &&& !(step.outcome.action is Immediate) && req.rebalance_timeout_ms >= 0 ==> m.rebalance_timeout == req.rebalance_timeout_ms
            &&& !g.members.contains_key(id) && step.outcome.fenced_member is None ==> m.client_id == ctx.client_id@ && m.client_host == ctx.client_host@
                && m.last_heartbeat == ctx.now && m.group_instance_id == req.group_instance_id && m.assignment is None
            &&& forall|x: Seq<char>| #[trigger]
                g.members.contains_key(x) && x != id && step.outcome.fenced_member != Some(x) ==> step.group.members.contains_key(x)
                    && step.group.members[x] == g.members[x]
            &&& forall|x: Seq<char>| #[trigger] step.group.members.contains_key(x) && x != id ==> g.members.contains_key(x)
            &&& step.group.generation_id == g.generation_id
            &&& step.group.group_id == g.group_id
        }),
{
    if let Some(i) = req.group_instance_id {
        if g.static_members.contains_key(i) {
            assert(g.members.contains_key(g.static_members[i]));
        }
    }
}

proof fn metadata_stands_beside(protocols: Seq<ProtocolView>, name: Seq<char>, otherwise: Seq<u8>)
    requires
        supports(protocols, name),
    ensures
        exists|i: int|
            0 <= i < protocols.len() && (#[trigger] protocols[i]).name == name && metadata_of(protocols, name, otherwise) == protocols[i].metadata && forall|
                j: int,
            |
                0 <= j < i ==> (#[trigger] protocols[j]).name != name,
    decreases protocols.len(),
{
    if protocols[0].name != name {
        let rest = protocols.drop_first();
        let k = choose|k: int| 0 <= k < protocols.len() && (#[trigger] protocols[k]).name == name;
        assert(rest[k - 1].name == name);
        metadata_stands_beside(rest, name, otherwise);
        let i = choose|i: int|
            0 <= i < rest.len() && (#[trigger] rest[i]).name == name && metadata_of(rest, name, otherwise) == rest[i].metadata && forall|j: int|
                0 <= j < i ==> (#[trigger] rest[j]).name != name;
        assert(protocols[i + 1] == rest[i]);
        assert forall|j: int| 0 <= j < i + 1 implies (#[trigger] protocols[j]).name != name by {
            if j > 0 {
                assert(rest[j - 1] == protocols[j]);
            }
        }
    }
}

/// When a round ends with a generation, every member's metadata is what stands beside the name of
/// the generation's protocol in the list that the member brought last. Nothing else of a member is
/// changed but that its session begins anew.
pub proof fn generation_takes_metadata_of_its_protocol(g: ClassicGroupView, now: u64, id: Seq<char>)
    requires
        completing(g, now).1 is Ok,
        completing(g, now).1->Ok_0 is Generation,
        completing(g, now).0.members.contains_key(id),
    ensures
        ({
            let h = completing(g, now).0;
            let brought = g.members[id].protocols;
            &&& g.members.contains_key(id)
            &&& h.protocol_name is Some
            &&& exists|i: int|
                0 <= i < brought.len() && (#[trigger] brought[i]).name == h.protocol_name->0 && h.members[id].protocol_metadata == brought[i].metadata
                    && forall|j: int| 0 <= j < i ==> (#[trigger] brought[j]).name != h.protocol_name->0
            &&& h.members[id].protocols == brought
            &&& h.members[id].group_instance_id == g.members[id].group_instance_id
            &&& h.members[id].client_id == g.members[id].client_id
            &&& h.members[id].client_host == g.members[id].client_host
            &&& h.members[id].session_timeout == g.members[id].session_timeout
            &&& h.members[id].rebalance_timeout == g.members[id].rebalance_timeout
            &&& h.members[id].last_heartbeat == now
        }),
{
    let h = completing(g, now).0;
    let k = gathered(g);
    let name = selected_protocol(k.members)->0;
    assert(elected(k.members, name));
    assert(candidate(k.members, name));
    assert(common(k.members, name));
    assert(k.members.contains_key(id));
    assert(supports(k.members[id].protocols, name));
    metadata_stands_beside(g.members[id].protocols, name, g.members[id].protocol_metadata);
}

/// The answer that the leader of a generation gets lists every member once, under its id, with its
/// static identity and its metadata; anybody else's lists nobody. Everybody is told the same
/// generation, protocol and leader.
pub proof fn leader_is_told_of_every_member(g: ClassicGroupView, id: Seq<char>, x: Seq<char>)
    requires
        sound(g),
        g.leader_id is Some,
    ensures
        ({
            let answer = join_result(g, id);
            &&& answer.error_code == codes::NONE
            &&& answer.member_id == id
            &&& answer.generation_id == g.generation_id
            &&& answer.protocol_name == g.protocol_name
            &&& answer.protocol_type == g.protocol_type
            &&& answer.leader == g.leader_id->0
            &&& !answer.skip_assignment
            &&& id != g.leader_id->0 ==> answer.members.len() == 0
            &&& id == g.leader_id->0 ==> {
                &&& g.members.contains_key(x) <==> exists|i: int| 0 <= i < answer.members.len() && (#[trigger] answer.members[i]).member_id == x
                &&& forall|i: int, j: int|
                    0 <= i < j < answer.members.len() ==> (#[trigger] answer.members[i]).member_id != (#[trigger] answer.members[j]).member_id
                &&& forall|i: int|
                    0 <= i < answer.members.len() && (#[trigger] answer.members[i]).member_id == x ==> answer.members[i].metadata
                        == g.members[x].protocol_metadata && answer.members[i].group_instance_id == g.members[x].group_instance_id
            }
        }),
{
    let answer = join_result(g, id);
    if id == g.leader_id->0 {
        let ids = listing::<String>(g.members.dom());
        listing_holds::<String>(g.members.dom());
        assert forall|i: int| 0 <= i < ids.len() implies (#[trigger] answer.members[i]).member_id == ids[i] && g.members.contains_key(ids[i]) by {
            assert(g.members.dom().contains(ids[i]));
        }
        if g.members.contains_key(x) {
            let i = listed_at::<String>(g.members.dom(), x);
            assert(answer.members[i].member_id == x);
        }
    }
}

/// What a member brings with its `JoinGroup` is what the leader is told of it when the round then
/// ends with a generation: the metadata beside the name of the protocol that was selected.
pub proof fn leader_is_told_what_was_brought(g: ClassicGroupView, req: JoinGroupRequestView, ctx: JoinContext, suffix: Seq<char>, now: u64)
    requires
        sound(g),
        fresh_for(g, req, ctx, suffix),
        joining(g, req, ctx, suffix).outcome.action is Park || joining(g, req, ctx, suffix).outcome.action is CompleteNow,
        completing(joining(g, req, ctx, suffix).group, now).1 is Ok,
        completing(joining(g, req, ctx, suffix).group, now).1->Ok_0 is Generation,
    ensures
        ({
            let id = joining(g, req, ctx, suffix).member_id;
            let h = completing(joining(g, req, ctx, suffix).group, now).0;
            let told = join_result(h, h.leader_id->0).members;
            &&& h.leader_id is Some && h.protocol_name is Some
            &&& h.members.contains_key(id)
            &&& exists|k: int, i: int|
                0 <= k < told.len() && 0 <= i < req.protocols.len() && (#[trigger] told[k]).member_id == id && (#[trigger] req.protocols[i]).name
                    == h.protocol_name->0 && told[k].metadata == req.protocols[i].metadata && forall|j: int|
                    0 <= j < i ==> (#[trigger] req.protocols[j]).name != h.protocol_name->0
        }),
{
    let step = joining(g, req, ctx, suffix);
    let id = step.member_id;
    crate::classic_laws::join_keeps_sound(g, req, ctx, suffix);
    crate::classic_laws::joined_is_member(g, req, ctx, suffix);
    join_is_kept_as_sent(g, req, ctx, suffix);
    let h = completing(step.group, now).0;
    crate::classic_laws::round_keeps_sound(step.group, now);
    crate::classic_laws::generation_is_agreed(step.group, now);
    assert(step.group.members.contains_key(id));
    assert(h.members.contains_key(id));
    generation_takes_metadata_of_its_protocol(step.group, now, id);
    let i = choose|i: int|
        0 <= i < req.protocols.len() && (#[trigger] req.protocols[i]).name == h.protocol_name->0 && h.members[id].protocol_metadata
            == req.protocols[i].metadata && forall|j: int| 0 <= j < i ==> (#[trigger] req.protocols[j]).name != h.protocol_name->0;
    let leader = h.leader_id->0;
    leader_is_told_of_every_member(h, leader, id);
    let told = join_result(h, leader).members;
    let k = choose|k: int| 0 <= k < told.len() && (#[trigger] told[k]).member_id == id;
    assert(told[k].metadata == req.protocols[i].metadata);
}

proof fn last_entry_counts(assignments: Seq<crate::requests::SyncGroupRequestAssignment>, id: Seq<char>)
    ensures
        forall|k: int|
            0 <= k < assignments.len() && (#[trigger] assignments[k]).member_id@ == id && (forall|l: int|
                k < l < assignments.len() ==> (#[trigger] assignments[l]).member_id@ != id) ==> supplied(assignments, id) == assignments[k].assignment@,
        (forall|k: int| 0 <= k < assignments.len() ==> (#[trigger] assignments[k]).member_id@ != id) ==> supplied(assignments, id) == Seq::<u8>::empty(),
    decreases assignments.len(),
{
    if assignments.len() > 0 {
        let rest = assignments.drop_last();
        last_entry_counts(rest, id);
        let n = assignments.len() - 1;
        assert(assignments[n] == assignments.last());
        assert forall|k: int|
            0 <= k < assignments.len() && (#[trigger] assignments[k]).member_id@ == id && (forall|l: int|
                k < l < assignments.len() ==> (#[trigger] assignments[l]).member_id@ != id) implies supplied(assignments, id) == assignments[k].assignment@ by {
            if k < n {
                assert(assignments[n].member_id@ != id);
                assert(rest[k] == assignments[k]);
                assert forall|l: int| k < l < rest.len() implies (#[trigger] rest[l]).member_id@ != id by {
                    assert(rest[l] == assignments[l]);
                }
            }
        }
        if forall|k: int| 0 <= k < assignments.len() ==> (#[trigger] assignments[k]).member_id@ != id {
            assert(assignments[n].member_id@ != id);
            assert forall|k: int| 0 <= k < rest.len() implies (#[trigger] rest[k]).member_id@ != id by {
                assert(rest[k] == assignments[k]);
            }
        }
    }
}

/// The `SyncGroup` of the leader of a generation that awaits its assignments makes the group stable.
/// From then on each member's `SyncGroup` is answered with the bytes that the leader's last entry for
/// it holds, or with none where the leader has no entry for it.
pub proof fn leader_decides_what_members_read(g: ClassicGroupView, leader: SyncGroupRequest, member: SyncGroupRequest)
    requires
        g.state == GroupState::CompletingRebalance,
        g.leader_id == Some(leader.member_id@),
        g.members.contains_key(leader.member_id@),
        g.members.contains_key(member.member_id@),
        leader.generation_id == g.generation_id,
        member.generation_id == g.generation_id,
        leader.group_instance_id is None,
        member.group_instance_id is None,
        leader.protocol_type is None || opt_str(leader.protocol_type) == g.protocol_type,
        leader.protocol_name is None || opt_str(leader.protocol_name) == g.protocol_name,
        member.protocol_type is None || opt_str(member.protocol_type) == g.protocol_type,
        member.protocol_name is None || opt_str(member.protocol_name) == g.protocol_name,
    ensures
        ({
            let (h, first) = syncing(g, leader);
            let (after, second) = syncing(h, member);
            let id = member.member_id@;
            let list = leader.assignments@;
            &&& first is LeaderInstalled && first->LeaderInstalled_0.error_code == codes::NONE
            &&& h.state == GroupState::Stable
            &&& h.generation_id == g.generation_id
            &&& h.members.dom() == g.members.dom()
            &&& after == h
            &&& second is Immediate && second->Immediate_0.error_code == codes::NONE
            &&& second->Immediate_0.protocol_type == g.protocol_type
            &&& second->Immediate_0.protocol_name == g.protocol_name
            &&& forall|k: int|
                0 <= k < list.len() && (#[trigger] list[k]).member_id@ == id && (forall|l: int|
                    k < l < list.len() ==> (#[trigger] list[l]).member_id@ != id) ==> second->Immediate_0.assignment == list[k].assignment@
            &&& (forall|k: int| 0 <= k < list.len() ==> (#[trigger] list[k]).member_id@ != id) ==> second->Immediate_0.assignment == Seq::<u8>::empty()
            &&& id == leader.member_id@ ==> first->LeaderInstalled_0 == second->Immediate_0
        }),
{
    last_entry_counts(leader.assignments@, member.member_id@);
    assert(syncing(g, leader).0.members.dom() =~= g.members.dom());
}

proof fn nobody_turned_away(parked: ParkedView, ids: Seq<Seq<char>>, code: i16)
    requires
        forall|i: int| 0 <= i < ids.len() ==> !parked.joiners.contains(#[trigger] ids[i]),
    ensures
        turned_away(parked, ids, code).0.joiners == parked.joiners,
        turned_away(parked, ids, code).1.joins.len() == 0,
    decreases ids.len(),
{
    if ids.len() > 0 {
        let front = ids.drop_last();
        assert forall|i: int| 0 <= i < front.len() implies !parked.joiners.contains(#[trigger] front[i]) by {
            assert(front[i] == ids[i]);
        }
        nobody_turned_away(parked, front, code);
        assert(ids[ids.len() - 1] == ids.last());
        assert(turned_away(parked, ids, code).0.joiners =~= parked.joiners);
    }
}

/// When a round ends with a generation, everybody that waited in it is told of that generation: its number, its
/// protocol, its leader; the leader's answer lists the members. When it ends because no protocol is shared,
/// everybody is told so. Whoever still waited for the generation before is told to join again.
pub proof fn round_tells_everybody_how_it_ended(g: ClassicGroupView, parked: ParkedView, now: u64, id: Seq<char>)
    requires
        sound(g),
        g.state == GroupState::PreparingRebalance,
        parked.joiners.finite(),
        parked.followers.finite(),
        forall|x: Seq<char>| #[trigger] parked.joiners.contains(x) ==> g.joined_this_round.contains(x),
    ensures
        ({
            let r = ended_round(g, parked, now);
            let (h, result) = completing(g, now);
            let begun = result is Ok && result->Ok_0 is Generation;
            &&& begun && parked.joiners.contains(id) ==> exists|i: int|
                0 <= i < r.replies.joins.len() && (#[trigger] r.replies.joins[i]).0 == id && r.replies.joins[i].1.error_code == codes::NONE
                    && r.replies.joins[i].1.member_id == id && r.replies.joins[i].1.generation_id == g.generation_id + 1 && r.replies.joins[i].1.leader
                    == h.leader_id->0 && r.replies.joins[i].1.protocol_name == h.protocol_name && (r.replies.joins[i].1.members.len() > 0 <==> h.leader_id
                    == Some(id))
            &&& result is Err && parked.joiners.contains(id) ==> exists|i: int|
                0 <= i < r.replies.joins.len() && (#[trigger] r.replies.joins[i]).0 == id && r.replies.joins[i].1.error_code
                    == codes::INCONSISTENT_GROUP_PROTOCOL && r.replies.joins[i].1.member_id == id && r.replies.joins[i].1.members.len() == 0
            &&& parked.followers.contains(id) ==> exists|i: int|
                0 <= i < r.replies.syncs.len() && (#[trigger] r.replies.syncs[i]).0 == id && r.replies.syncs[i].1.error_code == codes::REBALANCE_IN_PROGRESS
                    && r.replies.syncs[i].1.assignment.len() == 0
            &&& begun || result is Err ==> r.parked.joiners == Set::<Seq<char>>::empty()
            &&& r.parked.followers == Set::<Seq<char>>::empty()
        }),
{
    let r = ended_round(g, parked, now);
    let (h, result) = completing(g, now);
    let woken = ParkedView { followers: Set::empty(), ..parked };
    let syncs = all_synced(parked.followers, sync_error(codes::REBALANCE_IN_PROGRESS));
    if parked.followers.contains(id) {
        let i = listed_at::<String>(parked.followers, id);
        assert(syncs[i].0 == id);
        assert(r.replies.syncs[i] == syncs[i]);
    }
    if parked.joiners.contains(id) && result is Err {
        let i = listed_at::<String>(parked.joiners, id);
        assert(r.replies.joins[i].0 == id);
    }
    if result is Ok && result->Ok_0 is Generation {
        let removed = listing::<String>(left_behind(g));
        assert(left_behind(g).subset_of(g.members.dom()));
        vstd::set_lib::lemma_set_subset_finite(g.members.dom(), left_behind(g));
        listing_holds::<String>(left_behind(g));
        assert forall|i: int| 0 <= i < removed.len() implies !woken.joiners.contains(#[trigger] removed[i]) by {
            assert(left_behind(g).contains(removed[i]));
        }
        nobody_turned_away(woken, removed, codes::UNKNOWN_MEMBER_ID);
        assert(r.replies.joins =~= all_joined_answers(parked.joiners, h, false));
        if parked.joiners.contains(id) {
            let i = listed_at::<String>(parked.joiners, id);
            assert(r.replies.joins[i].0 == id);
            crate::classic_laws::round_keeps_sound(g, now);
            crate::classic_laws::generation_is_agreed(g, now);
            leader_is_told_of_every_member(h, id, id);
            if h.leader_id == Some(id) {
                assert(h.members.contains_key(id));
            }
        }
    }
    crate::classic_laws::round_answers_everybody(g, parked, now, id);
}

/// Once the leader's assignments are there, everybody that waited for them reads its own.
pub proof fn followers_read_their_assignments(ids: Set<Seq<char>>, g: ClassicGroupView, id: Seq<char>)
    requires
        ids.finite(),
        ids.contains(id),
        g.state == GroupState::Stable,
        g.members.contains_key(id),
        g.members[id].assignment is Some,
    ensures
        ({
            let told = all_assigned(ids, g);
            &&& exists|i: int| 0 <= i < told.len() && (#[trigger] told[i]).0 == id
            &&& forall|i: int|
                0 <= i < told.len() && (#[trigger] told[i]).0 == id ==> told[i].1.error_code == codes::NONE && told[i].1.assignment
                    == g.members[id].assignment->0 && told[i].1.protocol_name == g.protocol_name && told[i].1.protocol_type == g.protocol_type
        }),
{
    let i = listed_at::<String>(ids, id);
    assert(all_assigned(ids, g)[i].0 == id);
}

} // verus!
