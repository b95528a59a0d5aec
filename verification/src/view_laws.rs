//! How what the admin requests show of a group agrees with what its members were told.

use crate::assignor::Assignor;
use crate::classic_join::join_result;
use crate::classic_laws::sound;
use crate::classic_state::{ClassicGroupView, GroupState as ClassicGroupState};
use crate::classic_sync::sync_result;
use crate::codes;
use crate::config::NextGenConfig;
use crate::consumer_laws::{heartbeat_keeps_keyed, keyed};
use crate::consumer_state::{GroupStateView, ReconcileInputView};
use crate::group::{CoordinatorGroupView, GroupKindView};
use crate::heartbeat::{ClientIdentityView, HeartbeatRequestView, beat, spoken_id};
use crate::hosting::hosted_sync;
use crate::ordmap::{finite_listed, listed_at, listing, listing_holds};
use crate::round_laws::leader_is_told_of_every_member;
use crate::subscription_laws::name_set_holds;
use crate::views::{described, reported_classic, reported_group, shown_classic};
use vstd::prelude::*;

verus! {

/// A description of a consumer group shows every member once and nobody else: who it is, its epoch,
/// the names it subscribes to and the partitions it is assigned.
pub proof fn description_shows_every_member(g: GroupStateView, id: Seq<char>)
    requires
        keyed(g),
        g.members.dom().finite(),
    ensures
        ({
            let shown = described(g);
            &&& shown.group_id == g.group_id
            &&& shown.group_epoch == g.group_epoch
            &&& shown.assignment_epoch == g.target_epoch
            &&& g.members.contains_key(id) <==> exists|i: int| 0 <= i < shown.members.len() && (#[trigger] shown.members[i]).member_id == id
            &&& forall|i: int, j: int| 0 <= i < j < shown.members.len() ==> (#[trigger] shown.members[i]).member_id != (#[trigger] shown.members[j]).member_id
            &&& forall|i: int|
                0 <= i < shown.members.len() && (#[trigger] shown.members[i]).member_id == id ==> {
                    let s = shown.members[i];
                    let m = g.members[id];
                    &&& s.instance_id == m.instance_id
                    &&& s.member_epoch == m.member_epoch
                    &&& s.client_id == m.client_id
                    &&& s.client_host == m.client_host
                    &&& s.assigned_partitions == m.assigned_partitions
                    &&& s.is_classic == (m.classic is Some)
                    &&& m.subscribed_topic_names.finite() ==> forall|name: Seq<char>| #[trigger]
                        s.subscribed_topic_names.contains(name) <==> m.subscribed_topic_names.contains(name)
                }
        }),
{
    let shown = described(g);
    let ids = listing::<String>(g.members.dom());
    listing_holds::<String>(g.members.dom());
    assert forall|i: int| 0 <= i < ids.len() implies (#[trigger] shown.members[i]).member_id == ids[i] && g.members.contains_key(ids[i]) by {
        assert(g.members.dom().contains(ids[i]));
    }
    if g.members.contains_key(id) {
        let i = listed_at::<String>(g.members.dom(), id);
        assert(shown.members[i].member_id == id);
        let m = g.members[id];
        if m.subscribed_topic_names.finite() {
            finite_listed::<String>(m.subscribed_topic_names);
            let names = listing::<String>(m.subscribed_topic_names);
            assert forall|name: Seq<char>| #[trigger] names.contains(name) <==> m.subscribed_topic_names.contains(name) by {
                if names.contains(name) {
                    let k = choose|k: int| 0 <= k < names.len() && names[k] == name;
                    assert(m.subscribed_topic_names.contains(names[k]));
                }
            }
        }
    }
}

/// What a description shows of a member is what its last heartbeat was answered: the same partitions,
/// under the same epoch; and the client that sent it, with the names that it listed.
pub proof fn description_shows_what_was_answered<A: Assignor>(
    g: GroupStateView,
    config: NextGenConfig<A>,
    input: ReconcileInputView,
    req: HeartbeatRequestView,
    minted: Seq<char>,
    client: ClientIdentityView,
    now: u64,
    authorized: Set<Seq<char>>,
)
    requires
        keyed(g),
        g.members.dom().finite(),
        req.member_epoch >= 0,
        beat(g, config, input, req, minted, client, now, authorized).1.response.error_code == codes::NONE,
    ensures
        ({
            let id = spoken_id(req, minted);
            let (after, step) = beat(g, config, input, req, minted, client, now, authorized);
            let shown = described(after).members;
            exists|i: int|
                0 <= i < shown.len() && (#[trigger] shown[i]).member_id == id && step.response.member_id == Some(id) && step.response.assignment == Some(
                    shown[i].assigned_partitions,
                ) && step.response.member_epoch == shown[i].member_epoch && shown[i].client_id == client.id && shown[i].client_host == client.host && (
                req.subscribed_topic_names is Some ==> forall|name: Seq<char>| #[trigger]
                    shown[i].subscribed_topic_names.contains(name) <==> req.subscribed_topic_names->0.contains(name))
        }),
{
    let id = spoken_id(req, minted);
    let (after, step) = beat(g, config, input, req, minted, client, now, authorized);
    heartbeat_keeps_keyed(g, config, input, req, minted, client, now, authorized);
    if let Some(instance) = req.instance_id {
        if g.holders(instance) != Set::<Seq<char>>::empty() {
            assert(g.holders(instance).subset_of(g.members.dom()));
            vstd::set_lib::lemma_set_subset_finite(g.members.dom(), g.holders(instance));
            finite_listed::<String>(g.holders(instance));
            assert(exists|x: Seq<char>| g.holders(instance).contains(x)) by {
                if forall|x: Seq<char>| !g.holders(instance).contains(x) {
                    assert(g.holders(instance) =~= Set::empty());
                }
            }
            let x = choose|x: Seq<char>| g.holders(instance).contains(x);
            assert(listing::<String>(g.holders(instance)).contains(x));
            assert(g.holders(instance).contains(listing::<String>(g.holders(instance))[0]));
        }
    }
    assert(after.members.contains_key(id));
    assert(after.members.dom().finite());
    description_shows_every_member(after, id);
    if let Some(list) = req.subscribed_topic_names {
        assert forall|name: Seq<char>| after.members[id].subscribed_topic_names.contains(name) <==> #[trigger] list.contains(name) by {
            name_set_holds(list, name);
        }
        assert(after.members[id].subscribed_topic_names =~= list.to_set()) by {
            assert forall|name: Seq<char>| after.members[id].subscribed_topic_names.contains(name) <==> #[trigger] list.to_set().contains(name) by {
                assert(list.contains(name) <==> list.to_set().contains(name));
            }
        }
        vstd::seq_lib::seq_to_set_is_finite(list);
    }
}

/// What is reported of a classic group agrees with what its members were told: under the generation,
/// protocol and state of the group every member is reported once and nobody else, with the metadata
/// that the leader was told of it and, once the group is stable, the bytes that its `SyncGroup` reads.
pub proof fn report_agrees_with_the_round(g: CoordinatorGroupView, state: ClassicGroupView, image: ReconcileInputView, id: Seq<char>)
    requires
        g.kind == GroupKindView::Classic(state),
        sound(state),
        state.leader_id is Some,
    ensures
        ({
            let shown = reported_group(g, image);
            let told = join_result(state, state.leader_id->0);
            &&& shown.group_id == state.group_id
            &&& shown.state == state.state
            &&& shown.generation_id == told.generation_id
            &&& shown.protocol_name == told.protocol_name
            &&& shown.protocol_type == told.protocol_type
            &&& state.members.contains_key(id) <==> exists|i: int| 0 <= i < shown.members.len() && (#[trigger] shown.members[i]).member_id == id
            &&& forall|i: int, j: int| 0 <= i < j < shown.members.len() ==> (#[trigger] shown.members[i]).member_id != (#[trigger] shown.members[j]).member_id
            &&& forall|i: int, k: int|
                0 <= i < shown.members.len() && 0 <= k < told.members.len() && (#[trigger] shown.members[i]).member_id == (#[trigger] told.members[k]).member_id
                    ==> shown.members[i].protocol_metadata == told.members[k].metadata
            &&& forall|i: int|
                0 <= i < shown.members.len() && (#[trigger] shown.members[i]).member_id == id ==> {
                    &&& shown.members[i].client_id == state.members[id].client_id
                    &&& shown.members[i].client_host == state.members[id].client_host
                    &&& shown.members[i].protocol_metadata == state.members[id].protocol_metadata
                    &&& state.state == ClassicGroupState::Stable ==> shown.members[i].assignment == sync_result(
                        state,
                        id,
                        state.protocol_type,
                        state.protocol_name,
                    ).assignment
                    &&& state.members[id].assignment is Some ==> shown.members[i].assignment == state.members[id].assignment->0
                    &&& state.members[id].assignment is None ==> shown.members[i].assignment.len() == 0
                }
        }),
{
    let shown = reported_group(g, image);
    let told = join_result(state, state.leader_id->0);
    let ids = listing::<String>(state.members.dom());
    listing_holds::<String>(state.members.dom());
    assert forall|i: int| 0 <= i < ids.len() implies (#[trigger] shown.members[i]).member_id == ids[i] && state.members.contains_key(ids[i])
        && shown.members[i].protocol_metadata == state.members[ids[i]].protocol_metadata by {
        assert(state.members.dom().contains(ids[i]));
    }
    if state.members.contains_key(id) {
        let i = listed_at::<String>(state.members.dom(), id);
        assert(shown.members[i].member_id == id);
    }
    assert forall|i: int, k: int|
        0 <= i < shown.members.len() && 0 <= k < told.members.len() && (#[trigger] shown.members[i]).member_id == (#[trigger] told.members[k]).member_id
            implies shown.members[i].protocol_metadata == told.members[k].metadata by {
        leader_is_told_of_every_member(state, state.leader_id->0, ids[i]);
    }
}

/// What is reported of a classic group without a leader is its members all the same.
pub proof fn report_shows_every_member(state: ClassicGroupView, id: Seq<char>)
    requires
        sound(state),
    ensures
        ({
            let shown = shown_classic(state);
            let reported = reported_classic(shown);
            &&& reported.group_id == state.group_id && reported.state == state.state && reported.generation_id == state.generation_id
            &&& reported.protocol_type == state.protocol_type && reported.protocol_name == state.protocol_name
            &&& shown.group_id == state.group_id && shown.state == state.state && shown.generation_id == state.generation_id
            &&& shown.protocol_type == state.protocol_type && shown.protocol_name == state.protocol_name
            &&& shown.members.len() == reported.members.len()
            &&& state.members.contains_key(id) <==> exists|i: int| 0 <= i < shown.members.len() && (#[trigger] shown.members[i]).member_id == id
            &&& forall|i: int|
                0 <= i < shown.members.len() && (#[trigger] shown.members[i]).member_id == id ==> {
                    let m = state.members[id];
                    let s = shown.members[i];
                    let r = reported.members[i];
                    &&& s.client_id == m.client_id && s.host == m.client_host && s.group_instance_id == m.group_instance_id
                    &&& s.protocol_metadata == m.protocol_metadata && s.assignment == m.assignment
                    &&& r.member_id == id && r.client_id == m.client_id && r.client_host == m.client_host
                    &&& r.protocol_metadata == m.protocol_metadata
                }
        }),
{
    let shown = shown_classic(state);
    let ids = listing::<String>(state.members.dom());
    listing_holds::<String>(state.members.dom());
    assert forall|i: int| 0 <= i < ids.len() implies (#[trigger] shown.members[i]).member_id == ids[i] && state.members.contains_key(ids[i]) by {
        assert(state.members.dom().contains(ids[i]));
    }
    if state.members.contains_key(id) {
        let i = listed_at::<String>(state.members.dom(), id);
        assert(shown.members[i].member_id == id);
    }
}

/// What the classic requests report of a consumer group: every member once and nobody else, in the
/// generation of the group's epoch; of a hosted member, the bytes that its own `SyncGroup` would be
/// handed.
pub proof fn report_agrees_with_hosted_sync(g: CoordinatorGroupView, state: GroupStateView, image: ReconcileInputView, id: Seq<char>, now: u64)
    requires
        g.kind == GroupKindView::Consumer(state),
        keyed(state),
        state.members.dom().finite(),
    ensures
        ({
            let shown = reported_group(g, image);
            &&& shown.group_id == state.group_id
            &&& shown.generation_id == state.group_epoch
            &&& shown.state == ClassicGroupState::Stable
            &&& shown.protocol_type == Some("consumer"@)
            &&& shown.protocol_name is None
            &&& state.members.contains_key(id) <==> exists|i: int| 0 <= i < shown.members.len() && (#[trigger] shown.members[i]).member_id == id
            &&& forall|i: int, j: int| 0 <= i < j < shown.members.len() ==> (#[trigger] shown.members[i]).member_id != (#[trigger] shown.members[j]).member_id
            &&& forall|i: int|
                0 <= i < shown.members.len() && (#[trigger] shown.members[i]).member_id == id ==> {
                    &&& shown.members[i].client_id == state.members[id].client_id
                    &&& shown.members[i].client_host == state.members[id].client_host
                    &&& shown.members[i].protocol_metadata.len() == 0
                    &&& state.members[id].classic is Some ==> shown.members[i].assignment == hosted_sync(state, id, image, now).1.assignment
                }
        }),
{
    let shown = reported_group(g, image);
    let ids = listing::<String>(state.members.dom());
    listing_holds::<String>(state.members.dom());
    assert forall|i: int| 0 <= i < ids.len() implies (#[trigger] shown.members[i]).member_id == ids[i] && state.members.contains_key(ids[i]) by {
        assert(state.members.dom().contains(ids[i]));
    }
    if state.members.contains_key(id) {
        let i = listed_at::<String>(state.members.dom(), id);
        assert(shown.members[i].member_id == id);
    }
}

} // verus!
