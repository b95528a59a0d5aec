//! What members of the classic protocol get in a consumer group, and what becomes of a group that changes its
//! protocol.

use crate::assignor::Assignor;
use crate::classic_join::JoinContext;
use crate::classic_laws::sound;
use crate::classic_state::{ClassicGroupView, GroupState as ClassicGroupState, MemberView, ProtocolView, first_of, metadata_of, selected_protocol};
use crate::codes;
use crate::config::{ConsumerGroupMigrationPolicy, NextGenConfig};
use crate::consumer_state::{GroupStateView, MemberAssignmentState, MemberStateView, ReconcileInputView, reconciled};
use crate::downgrade::downgrade_planned;
use crate::group::{CoordinatorGroupView, GroupKindView};
use crate::group_laws::without_members_facts;
use crate::heartbeat::{ClientIdentityView, HeartbeatRequestView, name_set};
use crate::heartbeat_turn::{HeartbeatTurnView, heartbeat_begun};
use crate::hosting::{hosted_heartbeat, hosted_join_result, hosted_protocol, hosted_sync, hosted_topics, leave_answers, leave_verdict, leavers, readable_protocol};
use crate::join_turn::{JoinTurnView, hosted_join_begun};
use crate::leave_turn::consumer_leave_begun;
use crate::migration::{classic_members, downgraded, upgraded};
use crate::partitions::PartitionsView;
use crate::requests::{JoinGroupRequestView, LeaveGroupRequest, leave_identities};
use crate::subscription_laws::name_set_holds;
use crate::sync_turn::{SyncTurnView, hosted_sync_begun};
use crate::wire::subscription_topics;
use vstd::prelude::*;

verus! {

proof fn readable_is_first(protocols: Seq<ProtocolView>)
    ensures
        match readable_protocol(protocols) {
            Some(i) => 0 <= i < protocols.len() && subscription_topics(protocols[i].metadata) is Some && forall|j: int|
                0 <= j < i ==> subscription_topics((#[trigger] protocols[j]).metadata) is None,
            None => forall|j: int| 0 <= j < protocols.len() ==> subscription_topics((#[trigger] protocols[j]).metadata) is None,
        },
    decreases protocols.len(),
{
    if protocols.len() > 0 {
        let rest = protocols.drop_last();
        readable_is_first(rest);
        assert(protocols[protocols.len() - 1] == protocols.last());
        match readable_protocol(rest) {
            Some(i) => {
                assert(protocols[i] == rest[i]);
                assert forall|j: int| 0 <= j < i implies subscription_topics((#[trigger] protocols[j]).metadata) is None by {
                    assert(rest[j] == protocols[j]);
                }
            },
            None => {
                assert forall|j: int| 0 <= j < protocols.len() - 1 implies subscription_topics((#[trigger] protocols[j]).metadata) is None by {
                    assert(rest[j] == protocols[j]);
                }
            },
        }
    }
}

/// A member that joins a consumer group by the classic protocol is kept as it was sent: it subscribes to the
/// topics that its first readable metadata names, and is heard of now. Where it is new, or now names other
/// topics, the next epoch begins, and it comes to that epoch. Nobody else is touched.
pub proof fn hosted_join_is_kept_as_sent<A: Assignor>(
    g: GroupStateView,
    group_id: Seq<char>,
    config: NextGenConfig<A>,
    input: ReconcileInputView,
    req: JoinGroupRequestView,
    ctx: JoinContext,
    now_ms: i64,
    i: int,
    names: Seq<Seq<char>>,
    topic: Seq<char>,
)
    requires
        !g.dirty,
        g.group_epoch < i32::MAX,
        0 <= i < req.protocols.len(),
        subscription_topics(req.protocols[i].metadata) == Some(names),
        forall|j: int| 0 <= j < i ==> subscription_topics((#[trigger] req.protocols[j]).metadata) is None,
    ensures
        ({
            let id = req.member_id;
            let (h, turn) = hosted_join_begun(g, group_id, config, input, req, ctx, now_ms);
            let m = h.members[id];
            let news = !g.members.contains_key(id) || exists|t: Seq<char>|
                #![trigger names.contains(t)]
                names.contains(t) != g.members[id].subscribed_topic_names.contains(t);
            &&& h.members.contains_key(id)
            &&& m.subscribed_topic_names.contains(topic) <==> names.contains(topic)
            &&& m.instance_id == req.group_instance_id && m.client_id == ctx.client_id@ && m.client_host == ctx.client_host@
            &&& m.last_seen == ctx.now
            &&& m.classic is Some && m.classic->0.supported_protocols == req.protocols
            &&& req.session_timeout_ms >= 0 ==> m.classic->0.session_timeout == req.session_timeout_ms
            &&& req.rebalance_timeout_ms >= 0 ==> m.rebalance_timeout == req.rebalance_timeout_ms
            &&& h.group_epoch == if news {
                g.group_epoch + 1
            } else {
                g.group_epoch as int
            }
            &&& news ==> m.member_epoch == h.group_epoch && h.target_epoch == h.group_epoch && turn is Host
            &&& !news ==> turn is Done && h.target == g.target
            &&& forall|x: Seq<char>| #[trigger] g.members.contains_key(x) && x != id ==> h.members.contains_key(x) && h.members[x] == g.members[x]
            &&& forall|x: Seq<char>| #[trigger] h.members.contains_key(x) && x != id ==> g.members.contains_key(x)
        }),
{
    readable_is_first(req.protocols);
    let k = readable_protocol(req.protocols)->0;
    assert(readable_protocol(req.protocols) is Some);
    if k < i {
        assert(subscription_topics(req.protocols[k].metadata) is None);
    }
    assert(k == i);
    let s = hosted_topics(req.protocols);
    assert(s == name_set(names));
    assert forall|t: Seq<char>| #[trigger] names.contains(t) <==> s.contains(t) by {
        name_set_holds(names, t);
    }
    if g.members.contains_key(req.member_id) {
        let before = g.members[req.member_id].subscribed_topic_names;
        if before != s {
            assert(exists|t: Seq<char>| s.contains(t) != before.contains(t)) by {
                if forall|t: Seq<char>| s.contains(t) == before.contains(t) {
                    assert(s =~= before);
                }
            }
            let t = choose|t: Seq<char>| s.contains(t) != before.contains(t);
            assert(names.contains(t) != before.contains(t));
        }
    }
    assert(names.contains(topic) <==> s.contains(topic));
}

proof fn first_metadata(protocols: Seq<ProtocolView>, name: Seq<char>, i: int)
    requires
        0 <= i < protocols.len(),
        protocols[i].name == name,
        forall|j: int| 0 <= j < i ==> (#[trigger] protocols[j]).name != name,
    ensures
        metadata_of(protocols, name, seq![]) == protocols[i].metadata,
    decreases protocols.len(),
{
    if i > 0 {
        let rest = protocols.drop_first();
        assert(rest[i - 1] == protocols[i]);
        assert forall|j: int| 0 <= j < i - 1 implies (#[trigger] rest[j]).name != name by {
            assert(rest[j] == protocols[j + 1]);
        }
        first_metadata(rest, name, i - 1);
    }
}

/// A hosted member is answered as the leader of a group of itself, in the generation of the group's epoch, with
/// the metadata that it brought for the protocol it is told of.
pub proof fn hosted_member_leads_itself(g: GroupStateView, id: Seq<char>, protocol: Seq<char>, i: int)
    requires
        g.members.contains_key(id),
        g.members[id].classic is Some,
        0 <= i < g.members[id].classic->0.supported_protocols.len(),
        g.members[id].classic->0.supported_protocols[i].name == protocol,
        forall|j: int| 0 <= j < i ==> (#[trigger] g.members[id].classic->0.supported_protocols[j]).name != protocol,
    ensures
        ({
            let answer = hosted_join_result(g, id, Some(protocol));
            &&& answer.error_code == codes::NONE
            &&& answer.generation_id == g.group_epoch
            &&& answer.leader == id && answer.member_id == id
            &&& answer.protocol_name == Some(protocol)
            &&& answer.protocol_type == Some("consumer"@)
            &&& answer.members.len() == 1
            &&& answer.members[0].member_id == id
            &&& answer.members[0].group_instance_id == g.members[id].instance_id
            &&& answer.members[0].metadata == g.members[id].classic->0.supported_protocols[i].metadata
        }),
{
    first_metadata(g.members[id].classic->0.supported_protocols, protocol, i);
}

/// The heartbeat of a hosted member is answered without error exactly while what it synced last is what a sync
/// would hand it now; else it is told to join again. Whoever is not hosted is unknown. It is heard of
/// either way.
pub proof fn hosted_heartbeat_tells_of_another_assignment(g: GroupStateView, id: Seq<char>, image: ReconcileInputView, now: u64)
    ensures
        ({
            let (h, code) = hosted_heartbeat(g, id, image, now);
            let hosted = g.members.contains_key(id) && g.members[id].classic is Some;
            let current = hosted_sync(g, id, image, now).1.assignment;
            &&& code == codes::NONE <==> hosted && g.members[id].classic->0.last_synced_assignment == current
            &&& code == codes::REBALANCE_IN_PROGRESS <==> hosted && g.members[id].classic->0.last_synced_assignment != current
            &&& code == codes::UNKNOWN_MEMBER_ID <==> !hosted
            &&& hosted ==> h.members[id].last_seen == now && h.members[id].assigned_partitions == g.members[id].assigned_partitions
                && h.members[id].partitions_pending_revocation == g.members[id].partitions_pending_revocation && h.members[id].member_epoch
                == g.members[id].member_epoch
            &&& !hosted ==> h == g
            &&& forall|x: Seq<char>| #[trigger] g.members.contains_key(x) && x != id ==> h.members.contains_key(x) && h.members[x] == g.members[x]
            &&& h.target == g.target && h.group_epoch == g.group_epoch
        }),
{
}

/// The sync of a hosted member leaves it with just its target, and its next heartbeat is answered without error.
pub proof fn hosted_sync_hands_over_the_target(
    g: GroupStateView,
    group_id: Seq<char>,
    image: ReconcileInputView,
    id: Seq<char>,
    now: u64,
    now_ms: i64,
    then: u64,
)
    requires
        g.members.contains_key(id),
        g.members[id].classic is Some,
    ensures
        ({
            let (h, turn) = hosted_sync_begun(g, group_id, image, id, now, now_ms);
            let reply = match turn {
                SyncTurnView::Done { reply } => reply->0,
                SyncTurnView::Host { reply, .. } => reply,
                SyncTurnView::Persist { reply, .. } => reply,
            };
            let target = if g.target.contains_key(id) {
                g.target[id]
            } else {
                Map::<u128, Seq<i32>>::empty()
            };
            &&& reply.error_code == codes::NONE
            &&& reply.assignment == crate::wire::assignment_blob(target, image)
            &&& h.members.contains_key(id)
            &&& h.members[id].assigned_partitions == target
            &&& h.members[id].partitions_pending_revocation == Map::<u128, Seq<i32>>::empty()
            &&& h.members[id].assignment_state == MemberAssignmentState::Stable
            &&& h.members[id].last_seen == now
            &&& hosted_heartbeat(h, id, image, then).1 == codes::NONE
            &&& forall|x: Seq<char>| #[trigger] g.members.contains_key(x) && x != id ==> h.members[x] == g.members[x]
        }),
{
}

/// Whoever an identity speaks of is among those that leave.
pub(crate) proof fn leavers_are_named(g: GroupStateView, who: Seq<(Seq<char>, Option<Seq<char>>)>, id: Seq<char>)
    ensures
        leavers(g, who).contains(id) <==> exists|i: int|
            0 <= i < who.len() && leave_verdict(g, (#[trigger] who[i]).0, who[i].1) == Ok::<Seq<char>, i16>(id),
    decreases who.len(),
{
    if who.len() > 0 {
        let rest = who.drop_last();
        let before = leavers(g, rest);
        let all = leavers(g, who);
        leavers_are_named(g, rest, id);
        assert(who[who.len() - 1] == who.last());
        if before.contains(id) {
            let k = choose|k: int| 0 <= k < before.len() && before[k] == id;
            assert(all[k] == id);
            let i = choose|i: int| 0 <= i < rest.len() && leave_verdict(g, (#[trigger] rest[i]).0, rest[i].1) == Ok::<Seq<char>, i16>(id);
            assert(who[i] == rest[i]);
        }
        if leave_verdict(g, who.last().0, who.last().1) == Ok::<Seq<char>, i16>(id) && !before.contains(id) {
            assert(all[all.len() - 1] == id);
        }
        if all.contains(id) && !before.contains(id) {
            let k = choose|k: int| 0 <= k < all.len() && all[k] == id;
            if k < before.len() {
                assert(before[k] == id);
            }
        }
        if exists|i: int| 0 <= i < who.len() && leave_verdict(g, (#[trigger] who[i]).0, who[i].1) == Ok::<Seq<char>, i16>(id) {
            let i = choose|i: int| 0 <= i < who.len() && leave_verdict(g, (#[trigger] who[i]).0, who[i].1) == Ok::<Seq<char>, i16>(id);
            if i < rest.len() {
                assert(rest[i] == who[i]);
            }
        }
    }
}

/// A `LeaveGroup` in a consumer group takes out the members that it names by id, and nobody else; each identity
/// is answered in its place, without error if it names a member. Where anybody leaves the next epoch begins.
pub proof fn leave_takes_out_who_is_named<A: Assignor>(
    g: GroupStateView,
    group_id: Seq<char>,
    config: NextGenConfig<A>,
    input: ReconcileInputView,
    req: LeaveGroupRequest,
    version: i16,
    now_ms: i64,
    id: Seq<char>,
)
    requires
        g.group_epoch < i32::MAX,
        g.members.contains_key(id),
        forall|i: int| 0 <= i < leave_identities(req, version).len() ==> (#[trigger] leave_identities(req, version)[i]).1 is None,
    ensures
        ({
            let who = leave_identities(req, version);
            let (h, turn) = consumer_leave_begun(g, group_id, config, input, req, version, now_ms);
            let answers = leave_answers(g, who);
            let named = exists|i: int| 0 <= i < who.len() && (#[trigger] who[i]).0 == id;
            &&& h.members.contains_key(id) <==> !named
            &&& !named ==> h.members[id] == g.members[id]
            &&& named ==> h.group_epoch == g.group_epoch + 1 && turn is Delta
            &&& answers.len() == who.len()
            &&& forall|i: int|
                0 <= i < who.len() ==> (#[trigger] answers[i]).member_id == who[i].0 && (answers[i].error_code == codes::NONE <==> g.members.contains_key(
                    who[i].0,
                )) && (!g.members.contains_key(who[i].0) ==> answers[i].error_code == codes::UNKNOWN_MEMBER_ID)
        }),
{
    let who = leave_identities(req, version);
    let gone = leavers(g, who);
    leavers_are_named(g, who, id);
    without_members_facts(g, gone);
    if exists|i: int| 0 <= i < who.len() && (#[trigger] who[i]).0 == id {
        let i = choose|i: int| 0 <= i < who.len() && (#[trigger] who[i]).0 == id;
        assert(leave_verdict(g, who[i].0, who[i].1) == Ok::<Seq<char>, i16>(id));
        assert(gone.contains(id));
    }
    if gone.contains(id) {
        let i = choose|i: int| 0 <= i < who.len() && leave_verdict(g, (#[trigger] who[i]).0, who[i].1) == Ok::<Seq<char>, i16>(id);
        assert(who[i].1 is None);
        assert(who[i].0 == id);
    }
    assert forall|i: int| 0 <= i < who.len() implies (#[trigger] leave_answers(g, who)[i]).member_id == who[i].0 && (leave_answers(g, who)[i].error_code
        == codes::NONE <==> g.members.contains_key(who[i].0)) && (!g.members.contains_key(who[i].0) ==> leave_answers(g, who)[i].error_code
        == codes::UNKNOWN_MEMBER_ID) by {
        assert(who[i].1 is None);
    }
}

/// A heartbeat of the consumer protocol finds a classic group only where the group may become a consumer group:
/// the policy allows it, it is a group of consumers, and what every member subscribes to can be read.
/// Otherwise there is no such group for it, and nothing changes.
pub proof fn upgrade_is_for_groups_of_consumers<A: Assignor>(
    g: CoordinatorGroupView,
    classic: ClassicGroupView,
    config: NextGenConfig<A>,
    input: ReconcileInputView,
    req: HeartbeatRequestView,
    minted: Seq<char>,
    client: ClientIdentityView,
    now: u64,
    now_ms: i64,
    authorized: Set<Seq<char>>,
    id: Seq<char>,
    topic: Seq<char>,
)
    requires
        g.kind == GroupKindView::Classic(classic),
        sound(classic),
    ensures
        ({
            let (after, turn) = heartbeat_begun(g, config, input, req, minted, client, now, now_ms, authorized);
            let allowed = config.migration_policy == ConsumerGroupMigrationPolicy::Upgrade || config.migration_policy
                == ConsumerGroupMigrationPolicy::Bidirectional;
            let readable = forall|x: Seq<char>| #[trigger]
                classic.members.contains_key(x) ==> subscription_topics(classic.members[x].protocol_metadata) is Some;
            &&& after == g
            &&& turn is Upgrade <==> allowed && readable && classic.protocol_type == Some("consumer"@)
            &&& !(turn is Upgrade) ==> turn is Answered && turn->Answered_reply.error_code == codes::GROUP_ID_NOT_FOUND
            &&& turn is Upgrade ==> {
                let h = turn->Upgrade_state;
                let m = h.members[id];
                &&& h.group_id == classic.group_id
                &&& h.group_epoch == classic.generation_id
                &&& h.dirty
                &&& h.members.dom() == classic.members.dom()
                &&& classic.members.contains_key(id) ==> {
                    &&& m.member_id == id
                    &&& m.classic is Some && m.classic->0.supported_protocols == classic.members[id].protocols
                    &&& m.classic->0.session_timeout == classic.members[id].session_timeout
                    &&& m.instance_id == classic.members[id].group_instance_id
                    &&& m.client_id == classic.members[id].client_id && m.client_host == classic.members[id].client_host
                    &&& m.rebalance_timeout == classic.members[id].rebalance_timeout
                    &&& m.member_epoch == classic.generation_id
                    &&& m.last_seen == now
                    &&& m.subscribed_topic_names.contains(topic) <==> subscription_topics(classic.members[id].protocol_metadata)->0.contains(topic)
                    &&& classic.members[id].assignment is Some ==> m.classic->0.last_synced_assignment == classic.members[id].assignment->0
                }
            }
        }),
{
    let h = upgraded(classic, now);
    assert(h.members.dom() =~= classic.members.dom());
    if classic.members.contains_key(id) && subscription_topics(classic.members[id].protocol_metadata) is Some {
        name_set_holds(subscription_topics(classic.members[id].protocol_metadata)->0, topic);
    }
}

/// A consumer group becomes classic only where the policy allows it and it has members, all of the classic
/// protocol. It then is stable in the generation of its epoch, with the same members, each assigned
/// the bytes that its sync would have been handed, and led by the first.
pub proof fn downgrade_is_for_groups_of_classic_members(
    g: CoordinatorGroupView,
    state: GroupStateView,
    policy: ConsumerGroupMigrationPolicy,
    image: ReconcileInputView,
    now: u64,
    now_ms: i64,
    id: Seq<char>,
)
    requires
        g.kind == GroupKindView::Consumer(state),
        state.members.dom().finite(),
    ensures
        ({
            let plan = downgrade_planned(g, policy, image, now_ms);
            let allowed = policy == ConsumerGroupMigrationPolicy::Downgrade || policy == ConsumerGroupMigrationPolicy::Bidirectional;
            let h = plan->0.classic;
            &&& plan is Some <==> allowed && (exists|x: Seq<char>| #[trigger] state.members.contains_key(x)) && (forall|x: Seq<char>| #[trigger]
                state.members.contains_key(x) ==> state.members[x].classic is Some)
            &&& plan is Some ==> {
                &&& h.group_id == state.group_id
                &&& h.state == ClassicGroupState::Stable
                &&& h.generation_id == state.group_epoch
                &&& h.protocol_type == Some("consumer"@)
                &&& h.members.dom() == state.members.dom()
                &&& h.leader_id is Some && h.members.contains_key(h.leader_id->0)
                &&& h.joined_this_round == Set::<Seq<char>>::empty() && h.pending_members == Map::<Seq<char>, u64>::empty()
                &&& state.members.contains_key(id) ==> {
                    let m = h.members[id];
                    &&& m.id == id
                    &&& m.assignment == Some(hosted_sync(state, id, image, now).1.assignment)
                    &&& m.protocols == state.members[id].classic->0.supported_protocols
                    &&& m.session_timeout == state.members[id].classic->0.session_timeout
                    &&& m.rebalance_timeout == state.members[id].rebalance_timeout
                    &&& m.group_instance_id == state.members[id].instance_id
                    &&& m.client_id == state.members[id].client_id && m.client_host == state.members[id].client_host
                    &&& m.last_heartbeat == state.members[id].last_seen
                }
            }
        }),
{
    let members = classic_members(state, image);
    let h = downgraded(state, image);
    if exists|x: Seq<char>| #[trigger] state.members.contains_key(x) {
        let x = choose|x: Seq<char>| #[trigger] state.members.contains_key(x);
        assert(members.contains_key(x));
        assert(members.dom() =~= state.members.dom());
        assert(h.members.dom() =~= state.members.dom());
        crate::classic_laws::first_of_member(members);
    } else {
        assert(state.members =~= Map::<Seq<char>, MemberStateView>::empty());
    }
}

} // verus!
