//! What a consumer group makes of a heartbeat: whom it lets in, whom it fences, when an epoch begins, and
//! what a member may own.

use crate::assignor::Assignor;
use crate::codes;
use crate::config::{NextGenConfig, assignor_called};
use crate::consumer_laws::{exclusive, heartbeat_keeps_exclusive, only_holder, reconciled_holds};
use crate::consumer_state::{
    GroupStateView, LEAVE_GROUP_MEMBER_EPOCH, LEAVE_GROUP_STATIC_MEMBER_EPOCH, MemberStateView, ReconcileInputView, picked_assignor,
    preferred_assignor, reconciled,
};
use crate::heartbeat::{
    ClientIdentityView, HeartbeatErrorView, HeartbeatRequestView, ResolvedView, TopicPartitionsView, all_among, beat, built_member, first_join, leave,
    listed_parts, name_set, owned_by, owns_subset, pattern_complaint, reported, resolution, settled_member, spoken_id, steady, taken_over,
    topic_within, updating, with_refreshed,
};
use crate::ordmap::{finite_listed, listing, listing_holds, listing_len};
use crate::partitions::{PartitionsView, part_of};
use crate::subscription_laws::name_set_holds;
use vstd::prelude::*;

verus! {

/// No partition is ever with two members at once: neither assigned to both, nor assigned to one while the
/// other has not given it up. No heartbeat changes that.
pub proof fn no_partition_is_with_two_members<A: Assignor>(
    g: GroupStateView,
    config: NextGenConfig<A>,
    input: ReconcileInputView,
    req: HeartbeatRequestView,
    minted: Seq<char>,
    client: ClientIdentityView,
    now: u64,
    authorized: Set<Seq<char>>,
)
    requires
        forall|a: Seq<char>, b: Seq<char>, t: u128, p: i32|
            #![trigger g.members[a], g.members[b], part_of(g.members[a].assigned_partitions, t, p)]
            #![trigger g.members[a], g.members[b], part_of(g.members[a].partitions_pending_revocation, t, p)]
            g.members.contains_key(a) && g.members.contains_key(b) && a != b && (part_of(g.members[a].assigned_partitions, t, p) || part_of(
                g.members[a].partitions_pending_revocation,
                t,
                p,
            )) ==> !part_of(g.members[b].assigned_partitions, t, p) && !part_of(g.members[b].partitions_pending_revocation, t, p),
    ensures
        ({
            let h = beat(g, config, input, req, minted, client, now, authorized).0;
            forall|a: Seq<char>, b: Seq<char>, t: u128, p: i32|
                #![trigger h.members[a], h.members[b], part_of(h.members[a].assigned_partitions, t, p)]
                #![trigger h.members[a], h.members[b], part_of(h.members[a].partitions_pending_revocation, t, p)]
                h.members.contains_key(a) && h.members.contains_key(b) && a != b && (part_of(h.members[a].assigned_partitions, t, p) || part_of(
                    h.members[a].partitions_pending_revocation,
                    t,
                    p,
                )) ==> !part_of(h.members[b].assigned_partitions, t, p) && !part_of(h.members[b].partitions_pending_revocation, t, p)
        }),
{
    assert(exclusive(g)) by {
        assert forall|a: Seq<char>, b: Seq<char>, t: u128, p: i32|
            #[trigger] g.members.contains_key(a) && #[trigger] g.members.contains_key(b) && a != b && #[trigger] g.members[a].holds(t, p)
                implies !g.members[b].holds(t, p) by {
            let x = g.members[a];
            let y = g.members[b];
            assert(part_of(x.assigned_partitions, t, p) || part_of(x.partitions_pending_revocation, t, p));
        }
    }
    heartbeat_keeps_exclusive(g, config, input, req, minted, client, now, authorized);
    let h = beat(g, config, input, req, minted, client, now, authorized).0;
    assert forall|a: Seq<char>, b: Seq<char>, t: u128, p: i32|
        #![trigger h.members[a], h.members[b], part_of(h.members[a].assigned_partitions, t, p)]
        #![trigger h.members[a], h.members[b], part_of(h.members[a].partitions_pending_revocation, t, p)]
        h.members.contains_key(a) && h.members.contains_key(b) && a != b && (part_of(h.members[a].assigned_partitions, t, p) || part_of(
            h.members[a].partitions_pending_revocation,
            t,
            p,
        )) implies !part_of(h.members[b].assigned_partitions, t, p) && !part_of(h.members[b].partitions_pending_revocation, t, p) by {
        assert(h.members[a].holds(t, p));
        assert(!h.members[b].holds(t, p));
    }
}

/// A member that goes on is answered all that it is to hold and that is with nobody else, and nothing
/// more; what it is to give up is what it has, reports, and is not to hold; everybody else keeps
/// what they have.
pub proof fn member_is_answered_all_that_is_free<A: Assignor>(
    g: GroupStateView,
    config: NextGenConfig<A>,
    input: ReconcileInputView,
    req: HeartbeatRequestView,
    minted: Seq<char>,
    client: ClientIdentityView,
    now: u64,
    authorized: Set<Seq<char>>,
    t: u128,
    p: i32,
)
    requires
        req.member_epoch > 0,
        req.member_id.len() > 0,
        g.members.contains_key(req.member_id),
        beat(g, config, input, req, minted, client, now, authorized).1.response.error_code == codes::NONE,
    ensures
        ({
            let id = req.member_id;
            let (h, step) = beat(g, config, input, req, minted, client, now, authorized);
            let before = g.members[id];
            let after = h.members[id];
            let with_another = exists|x: Seq<char>| #[trigger]
                g.members.contains_key(x) && x != id && (part_of(g.members[x].assigned_partitions, t, p) || part_of(
                    g.members[x].partitions_pending_revocation,
                    t,
                    p,
                ));
            let reports = if req.topic_partitions is Some {
                part_of(reported(req), t, p)
            } else {
                part_of(before.assigned_partitions, t, p)
            };
            let had = part_of(before.assigned_partitions, t, p) || part_of(before.partitions_pending_revocation, t, p);
            let target = h.target.contains_key(id) && part_of(h.target[id], t, p);
            &&& h.members.contains_key(id)
            &&& step.response.assignment == Some(after.assigned_partitions)
            &&& part_of(after.assigned_partitions, t, p) <==> target && !with_another
            &&& part_of(after.partitions_pending_revocation, t, p) <==> had && reports && !target
            &&& h.members.dom() == g.members.dom()
            &&& forall|x: Seq<char>| #[trigger] g.members.contains_key(x) && x != id ==> h.members[x] == g.members[x]
        }),
{
    let id = req.member_id;
    let (h, step) = beat(g, config, input, req, minted, client, now, authorized);
    assert(resolution(g, req, id) is Ok);
    let g1 = with_refreshed(g, id, req, client, now, authorized);
    let g2 = reconciled(g1, config.assignors@, input);
    let g3 = if g2.target_epoch > g1.members[id].member_epoch {
        g2.advanced(id)
    } else {
        g2
    };
    let owned = owned_by(g3, id, req);
    assert(h == g3.with_reconciled(id, owned));
    reconciled_holds(g3, id, owned, t, p);
    if g3.held_elsewhere(id, t, p) {
        let x = choose|x: Seq<char>| #[trigger] g3.members.contains_key(x) && x != id && g3.members[x].holds(t, p);
        assert(g.members.contains_key(x));
    }
    if exists|x: Seq<char>| #[trigger]
        g.members.contains_key(x) && x != id && (part_of(g.members[x].assigned_partitions, t, p) || part_of(
            g.members[x].partitions_pending_revocation,
            t,
            p,
        )) {
        let x = choose|x: Seq<char>| #[trigger]
            g.members.contains_key(x) && x != id && (part_of(g.members[x].assigned_partitions, t, p) || part_of(
                g.members[x].partitions_pending_revocation,
                t,
                p,
            ));
        assert(g3.members.contains_key(x) && g3.members[x].holds(t, p));
    }
    assert(h.members.dom() =~= g.members.dom());
    assert forall|x: Seq<char>| #[trigger] g.members.contains_key(x) && x != id implies h.members[x] == g.members[x] by {}
}

/// The report of a heartbeat counts as sent: a partition is reported exactly when the last entry of its
/// topic lists it.
pub proof fn report_counts_as_sent(list: Seq<TopicPartitionsView>, t: u128, p: i32)
    ensures
        part_of(listed_parts(list), t, p) <==> exists|i: int|
            0 <= i < list.len() && (#[trigger] list[i]).topic_id == t && list[i].partitions.contains(p) && forall|j: int|
                i < j < list.len() ==> (#[trigger] list[j]).topic_id != t,
    decreases list.len(),
{
    if list.len() > 0 {
        let rest = list.drop_last();
        let n = list.len() - 1;
        report_counts_as_sent(rest, t, p);
        assert(list[n] == list.last());
        if list.last().topic_id == t {
            if exists|i: int|
                0 <= i < list.len() && (#[trigger] list[i]).topic_id == t && list[i].partitions.contains(p) && forall|j: int|
                    i < j < list.len() ==> (#[trigger] list[j]).topic_id != t {
                let i = choose|i: int|
                    0 <= i < list.len() && (#[trigger] list[i]).topic_id == t && list[i].partitions.contains(p) && forall|j: int|
                        i < j < list.len() ==> (#[trigger] list[j]).topic_id != t;
                if i < n {
                    assert(list[n].topic_id != t);
                }
            }
        } else {
            if part_of(listed_parts(rest), t, p) {
                let i = choose|i: int|
                    0 <= i < rest.len() && (#[trigger] rest[i]).topic_id == t && rest[i].partitions.contains(p) && forall|j: int|
                        i < j < rest.len() ==> (#[trigger] rest[j]).topic_id != t;
                assert(list[i] == rest[i]);
                assert forall|j: int| i < j < list.len() implies (#[trigger] list[j]).topic_id != t by {
                    if j < n {
                        assert(rest[j] == list[j]);
                    }
                }
            }
            if exists|i: int|
                0 <= i < list.len() && (#[trigger] list[i]).topic_id == t && list[i].partitions.contains(p) && forall|j: int|
                    i < j < list.len() ==> (#[trigger] list[j]).topic_id != t {
                let i = choose|i: int|
                    0 <= i < list.len() && (#[trigger] list[i]).topic_id == t && list[i].partitions.contains(p) && forall|j: int|
                        i < j < list.len() ==> (#[trigger] list[j]).topic_id != t;
                assert(i < n);
                assert(rest[i] == list[i]);
                assert forall|j: int| i < j < rest.len() implies (#[trigger] rest[j]).topic_id != t by {
                    assert(list[j] == rest[j]);
                }
            }
        }
    }
}

/// Which epoch a member without a static identity may go on at: its own; none, which is zero; or the one
/// before, where it reports nothing that it is not assigned. At any other it is fenced. Somebody who is
/// no member joins at zero, and is unknown at any other.
pub proof fn member_goes_on_at_its_epoch<A: Assignor>(
    g: GroupStateView,
    config: NextGenConfig<A>,
    input: ReconcileInputView,
    req: HeartbeatRequestView,
    minted: Seq<char>,
    client: ClientIdentityView,
    now: u64,
    authorized: Set<Seq<char>>,
)
    requires
        req.member_epoch >= 0,
        req.member_id.len() > 0,
        req.instance_id is None,
        req.server_assignor is None,
        req.subscribed_topic_regex is None,
        g.members.dom().finite(),
        g.members.dom().len() < config.max_size,
    ensures
        ({
            let id = req.member_id;
            let m = g.members[id];
            let (h, step) = beat(g, config, input, req, minted, client, now, authorized);
            let code = step.response.error_code;
            let confirms = req.topic_partitions is Some && forall|i: int, k: int|
                0 <= i < req.topic_partitions->0.len() && 0 <= k < req.topic_partitions->0[i].partitions.len() ==> part_of(
                    m.assigned_partitions,
                    (#[trigger] req.topic_partitions->0[i]).topic_id,
                    #[trigger] req.topic_partitions->0[i].partitions[k],
                );
            &&& g.members.contains_key(id) && (req.member_epoch == 0 || req.member_epoch == m.member_epoch) ==> code == codes::NONE
            &&& g.members.contains_key(id) && req.member_epoch > m.member_epoch && req.member_epoch > 0 ==> code == codes::FENCED_MEMBER_EPOCH
            &&& g.members.contains_key(id) && 0 < req.member_epoch < m.member_epoch && (req.member_epoch != m.previous_member_epoch || !confirms)
                ==> code == codes::FENCED_MEMBER_EPOCH
            &&& g.members.contains_key(id) && 0 < req.member_epoch < m.member_epoch && req.member_epoch == m.previous_member_epoch && confirms && (forall|
                i: int,
            |
                0 <= i < req.topic_partitions->0.len() ==> (#[trigger] req.topic_partitions->0[i]).partitions.len() > 0) ==> code == codes::NONE
            &&& !g.members.contains_key(id) && req.member_epoch == 0 ==> code == codes::NONE && h.members.contains_key(id)
            &&& !g.members.contains_key(id) && req.member_epoch > 0 ==> code == codes::UNKNOWN_MEMBER_ID
            &&& code != codes::NONE ==> h == g
            &&& code == codes::NONE ==> step.response.member_epoch >= h.target_epoch && step.response.member_id == Some(id)
            &&& code == codes::NONE && g.members.contains_key(id) ==> step.response.member_epoch == m.member_epoch || step.response.member_epoch
                == h.target_epoch
            &&& code == codes::NONE && g.members.contains_key(id) && step.response.member_epoch != m.member_epoch ==> h.members[id].previous_member_epoch
                == m.member_epoch
        }),
{
    let id = req.member_id;
    listing_len::<String>(g.members.dom());
    if g.members.contains_key(id) {
        let m = g.members[id];
        if let Some(list) = req.topic_partitions {
            if owns_subset(req.topic_partitions, m) {
                assert forall|i: int, k: int| 0 <= i < list.len() && 0 <= k < list[i].partitions.len() implies part_of(
                    m.assigned_partitions,
                    (#[trigger] list[i]).topic_id,
                    #[trigger] list[i].partitions[k],
                ) by {
                    assert(topic_within(list[i], m.assigned_partitions));
                }
            }
            if (forall|i: int, k: int| 0 <= i < list.len() && 0 <= k < list[i].partitions.len() ==> part_of(
                m.assigned_partitions,
                (#[trigger] list[i]).topic_id,
                #[trigger] list[i].partitions[k],
            )) && (forall|i: int| 0 <= i < list.len() ==> (#[trigger] list[i]).partitions.len() > 0) {
                assert forall|i: int| 0 <= i < list.len() implies topic_within(#[trigger] list[i], m.assigned_partitions) by {
                    assert(part_of(m.assigned_partitions, list[i].topic_id, list[i].partitions[0]));
                    assert forall|k: int| 0 <= k < list[i].partitions.len() implies m.assigned_partitions[list[i].topic_id].contains(
                        #[trigger] list[i].partitions[k],
                    ) by {
                        assert(part_of(m.assigned_partitions, list[i].topic_id, list[i].partitions[k]));
                    }
                }
                assert(owns_subset(req.topic_partitions, m));
            }
        }
    }
}

/// When an epoch begins with the heartbeat of a member that goes on: when the target no longer fitted, or
/// the names it lists, or its pattern, or what its pattern may reach have become others. The topics
/// that it does not mention stay.
pub proof fn epoch_begins_for_a_new_subscription<A: Assignor>(
    g: GroupStateView,
    config: NextGenConfig<A>,
    input: ReconcileInputView,
    req: HeartbeatRequestView,
    minted: Seq<char>,
    client: ClientIdentityView,
    now: u64,
    authorized: Set<Seq<char>>,
)
    requires
        req.member_epoch > 0,
        req.member_id.len() > 0,
        g.members.contains_key(req.member_id),
        g.group_epoch < i32::MAX,
        beat(g, config, input, req, minted, client, now, authorized).1.response.error_code == codes::NONE,
    ensures
        ({
            let id = req.member_id;
            let m = g.members[id];
            let (h, step) = beat(g, config, input, req, minted, client, now, authorized);
            let other_names = req.subscribed_topic_names is Some && exists|name: Seq<char>|
                #![trigger req.subscribed_topic_names->0.contains(name)]
                req.subscribed_topic_names->0.contains(name) != m.subscribed_topic_names.contains(name);
            let other_pattern = req.subscribed_topic_regex != m.subscribed_topic_regex || (req.subscribed_topic_regex is Some && authorized
                != m.regex_authorized_topics);
            &&& h.group_epoch == if g.dirty || other_names || other_pattern {
                g.group_epoch + 1
            } else {
                g.group_epoch as int
            }
            &&& h.group_epoch > g.group_epoch ==> h.target_epoch == h.group_epoch && step.response.member_epoch >= h.group_epoch
            &&& h.group_epoch == g.group_epoch ==> h.target == g.target && h.target_epoch == g.target_epoch
            &&& req.subscribed_topic_names is Some ==> forall|name: Seq<char>| #[trigger]
                req.subscribed_topic_names->0.contains(name) <==> h.members[id].subscribed_topic_names.contains(name)
            &&& req.subscribed_topic_names is None ==> h.members[id].subscribed_topic_names == m.subscribed_topic_names
            &&& h.members[id].subscribed_topic_regex == req.subscribed_topic_regex
            &&& h.members[id].last_seen == now && h.members[id].client_id == client.id && h.members[id].client_host == client.host
            &&& h.members[id].instance_id == m.instance_id && h.members[id].rack_id == m.rack_id && h.members[id].server_assignor == m.server_assignor
        }),
{
    let id = req.member_id;
    let m = g.members[id];
    assert(resolution(g, req, id) is Ok);
    if let Some(list) = req.subscribed_topic_names {
        assert forall|name: Seq<char>| #[trigger] list.contains(name) <==> name_set(list).contains(name) by {
            name_set_holds(list, name);
        }
        if name_set(list) != m.subscribed_topic_names {
            assert(exists|name: Seq<char>| name_set(list).contains(name) != m.subscribed_topic_names.contains(name)) by {
                if forall|name: Seq<char>| name_set(list).contains(name) == m.subscribed_topic_names.contains(name) {
                    assert(name_set(list) =~= m.subscribed_topic_names);
                }
            }
            let name = choose|name: Seq<char>| name_set(list).contains(name) != m.subscribed_topic_names.contains(name);
            assert(list.contains(name) != m.subscribed_topic_names.contains(name));
        }
    }
}

/// A heartbeat turns a newcomer away when the group has as many members as it may have, and only then.
pub proof fn only_a_full_group_refuses_newcomers<A: Assignor>(
    g: GroupStateView,
    config: NextGenConfig<A>,
    input: ReconcileInputView,
    req: HeartbeatRequestView,
    minted: Seq<char>,
    client: ClientIdentityView,
    now: u64,
    authorized: Set<Seq<char>>,
)
    requires
        req.member_epoch >= 0,
        req.server_assignor is None,
        g.members.dom().finite(),
    ensures
        beat(g, config, input, req, minted, client, now, authorized).1.response.error_code == codes::GROUP_MAX_SIZE_REACHED <==> g.members.dom().len()
            >= config.max_size && (req.member_id.len() == 0 || !g.members.contains_key(req.member_id)),
{
    listing_len::<String>(g.members.dom());
}

proof fn called_is_named<A: Assignor>(assignors: Seq<A>, name: Seq<char>)
    ensures
        assignor_called(assignors, name) is Some ==> 0 <= assignor_called(assignors, name)->0 < assignors.len() && assignors[assignor_called(
            assignors,
            name,
        )->0].named() == name,
        assignor_called(assignors, name) is None ==> forall|i: int| 0 <= i < assignors.len() ==> (#[trigger] assignors[i]).named() != name,
    decreases assignors.len(),
{
    if assignors.len() > 0 {
        let rest = assignors.drop_last();
        called_is_named(rest, name);
        if assignor_called(rest, name) is None && assignors.last().named() != name {
            assert forall|i: int| 0 <= i < assignors.len() implies (#[trigger] assignors[i]).named() != name by {
                if i < rest.len() {
                    assert(rest[i] == assignors[i]);
                }
            }
        }
    }
}

/// A heartbeat that asks for an assignor that there is not is refused, and only then for that.
pub proof fn unknown_assignor_is_refused<A: Assignor>(
    g: GroupStateView,
    config: NextGenConfig<A>,
    input: ReconcileInputView,
    req: HeartbeatRequestView,
    minted: Seq<char>,
    client: ClientIdentityView,
    now: u64,
    authorized: Set<Seq<char>>,
)
    requires
        req.member_epoch >= 0,
    ensures
        beat(g, config, input, req, minted, client, now, authorized).1.response.error_code == codes::UNSUPPORTED_ASSIGNOR <==> req.server_assignor is Some
            && forall|i: int| 0 <= i < config.assignors@.len() ==> (#[trigger] config.assignors@[i]).named() != req.server_assignor->0,
{
    if let Some(name) = req.server_assignor {
        called_is_named(config.assignors@, name);
    }
}

proof fn preferred_is_asked_for<A: Assignor>(g: GroupStateView, ids: Seq<Seq<char>>, assignors: Seq<A>)
    ensures
        match preferred_assignor(g, ids, assignors) {
            Some(k) => 0 <= k < assignors.len() && exists|i: int|
                0 <= i < ids.len() && g.members[#[trigger] ids[i]].server_assignor == Some(assignors[k].named()),
            None => forall|i: int, k: int|
                0 <= i < ids.len() && 0 <= k < assignors.len() ==> g.members[#[trigger] ids[i]].server_assignor != Some((#[trigger] assignors[k]).named()),
        },
    decreases ids.len(),
{
    if ids.len() > 0 {
        let rest = ids.drop_last();
        preferred_is_asked_for(g, rest, assignors);
        assert(ids[ids.len() - 1] == ids.last());
        match preferred_assignor(g, rest, assignors) {
            Some(k) => {
                let i = choose|i: int| 0 <= i < rest.len() && g.members[#[trigger] rest[i]].server_assignor == Some(assignors[k].named());
                assert(ids[i] == rest[i]);
            },
            None => {
                if let Some(name) = g.members[ids.last()].server_assignor {
                    called_is_named(assignors, name);
                }
                if preferred_assignor(g, ids, assignors) is None {
                    assert forall|i: int, k: int| 0 <= i < ids.len() && 0 <= k < assignors.len() implies g.members[#[trigger] ids[i]].server_assignor
                        != Some((#[trigger] assignors[k]).named()) by {
                        if i < rest.len() {
                            assert(rest[i] == ids[i]);
                        }
                    }
                }
            },
        }
    }
}

/// A new target is computed by an assignor that a member asks for, where one asks for one that there is;
/// else by the first there is. It is computed from what all members ask for.
pub proof fn target_comes_from_the_assignor_asked_for<A: Assignor>(g: GroupStateView, assignors: Seq<A>, input: ReconcileInputView)
    requires
        g.dirty,
        g.group_epoch < i32::MAX,
        g.members.dom().finite(),
        assignors.len() > 0,
    ensures
        ({
            let h = reconciled(g, assignors, input);
            let asked = exists|x: Seq<char>, k: int|
                #![trigger g.members[x], assignors[k]]
                g.members.contains_key(x) && 0 <= k < assignors.len() && g.members[x].server_assignor == Some(assignors[k].named());
            &&& h.members == g.members
            &&& h.group_epoch == g.group_epoch + 1 && h.target_epoch == h.group_epoch && !h.dirty
            &&& !asked ==> h.target == assignors[0].assigns(g.subscriptions(input), input.topics)
            &&& asked ==> exists|x: Seq<char>, k: int|
                #![trigger g.members[x], assignors[k]]
                g.members.contains_key(x) && 0 <= k < assignors.len() && g.members[x].server_assignor == Some(assignors[k].named()) && h.target
                    == assignors[k].assigns(g.subscriptions(input), input.topics)
        }),
{
    let ids = listing::<String>(g.members.dom());
    let h = reconciled(g, assignors, input);
    finite_listed::<String>(g.members.dom());
    preferred_is_asked_for(g, ids, assignors);
    match preferred_assignor(g, ids, assignors) {
        Some(k) => {
            let i = choose|i: int| 0 <= i < ids.len() && g.members[#[trigger] ids[i]].server_assignor == Some(assignors[k].named());
            assert(g.members.dom().contains(ids[i]));
            let x = ids[i];
            let m = g.members[x];
            let a = assignors[k];
            assert(g.members.contains_key(x) && m.server_assignor == Some(a.named()) && h.target == a.assigns(g.subscriptions(input), input.topics));
        },
        None => {
            assert forall|x: Seq<char>, k: int|
                #![trigger g.members[x], assignors[k]]
                g.members.contains_key(x) && 0 <= k < assignors.len() implies g.members[x].server_assignor != Some(assignors[k].named()) by {
                assert(ids.contains(x));
                let i = choose|i: int| 0 <= i < ids.len() && ids[i] == x;
                assert(g.members[ids[i]].server_assignor != Some(assignors[k].named()));
            }
        },
    }
}

/// A static identity that a member holds. Under it, another process may join only once the member has let
/// it go, or is hosted; it then takes the member's place, with what the member had. Anybody else who
/// claims it at an epoch is fenced. An identity that nobody holds is unknown at any epoch but zero.
pub proof fn static_identity_passes_on_when_released<A: Assignor>(
    g: GroupStateView,
    config: NextGenConfig<A>,
    input: ReconcileInputView,
    req: HeartbeatRequestView,
    minted: Seq<char>,
    client: ClientIdentityView,
    now: u64,
    authorized: Set<Seq<char>>,
    owner: Seq<char>,
)
    requires
        req.member_epoch >= 0,
        req.instance_id is Some,
        req.server_assignor is None,
        req.subscribed_topic_regex is None,
        g.members.dom().finite(),
        g.members.dom().len() < config.max_size,
        forall|x: Seq<char>| #[trigger] g.members.contains_key(x) && g.members[x].instance_id == req.instance_id ==> x == owner,
    ensures
        ({
            let id = spoken_id(req, minted);
            let (h, step) = beat(g, config, input, req, minted, client, now, authorized);
            let code = step.response.error_code;
            let held = g.members.contains_key(owner) && g.members[owner].instance_id == req.instance_id;
            let free = held && (g.members[owner].classic is Some || g.members[owner].member_epoch == LEAVE_GROUP_STATIC_MEMBER_EPOCH);
            &&& held && req.member_epoch == 0 && !free ==> code == codes::UNRELEASED_INSTANCE_ID && h == g
            &&& held && req.member_epoch == 0 && free ==> {
                &&& code == codes::NONE
                &&& h.members.contains_key(id)
                &&& id != owner ==> !h.members.contains_key(owner)
                &&& h.members[id].instance_id == req.instance_id
                &&& h.members[id].classic is None
                &&& step.response.member_id == Some(id)
            }
            &&& held && req.member_epoch > 0 && id != owner ==> code == codes::FENCED_INSTANCE_ID && h == g
            &&& !held && req.member_epoch > 0 ==> code == codes::UNKNOWN_MEMBER_ID && h == g
            &&& !held && req.member_epoch == 0 ==> code == codes::NONE && h.members.contains_key(id)
            &&& !held && req.member_epoch == 0 && !g.members.contains_key(id) ==> h.members[id].instance_id == req.instance_id
        }),
{
    let instance = req.instance_id->0;
    listing_len::<String>(g.members.dom());
    let s = g.holders(instance);
    if g.members.contains_key(owner) && g.members[owner].instance_id == req.instance_id {
        assert(s.contains(owner));
        only_holder(s, owner);
    } else {
        assert(s =~= Set::<Seq<char>>::empty()) by {
            assert forall|x: Seq<char>| !(#[trigger] s.contains(x)) by {}
        }
    }
}

/// A static member that leaves for a while keeps its place: it stays a member, with all that it has, at
/// the epoch that says so, and no epoch begins. The next that joins under its identity then takes over
/// just what it had.
pub proof fn static_member_that_pauses_keeps_its_place<A: Assignor>(
    g: GroupStateView,
    config: NextGenConfig<A>,
    input: ReconcileInputView,
    req: HeartbeatRequestView,
    minted: Seq<char>,
    client: ClientIdentityView,
    now: u64,
    authorized: Set<Seq<char>>,
    id: Seq<char>,
)
    requires
        req.member_epoch == LEAVE_GROUP_STATIC_MEMBER_EPOCH,
        req.instance_id is Some,
        req.member_id == id,
        g.members.contains_key(id),
        g.members[id].instance_id == req.instance_id,
        forall|x: Seq<char>| #[trigger] g.members.contains_key(x) && g.members[x].instance_id == req.instance_id ==> x == id,
    ensures
        ({
            let (h, step) = beat(g, config, input, req, minted, client, now, authorized);
            &&& step.response.error_code == codes::NONE
            &&& step.response.member_epoch == LEAVE_GROUP_STATIC_MEMBER_EPOCH
            &&& h.members == g.members.insert(id, (MemberStateView { member_epoch: LEAVE_GROUP_STATIC_MEMBER_EPOCH, ..g.members[id] }))
            &&& h.group_epoch == g.group_epoch && h.target == g.target && h.target_epoch == g.target_epoch && h.dirty == g.dirty
            &&& ({
                let back = crate::heartbeat::taken_over(h, id, minted, req);
                &&& back.members.contains_key(minted)
                &&& back.members[minted].assigned_partitions == g.members[id].assigned_partitions
                &&& back.members[minted].partitions_pending_revocation == g.members[id].partitions_pending_revocation
                &&& back.members[minted].subscribed_topic_names == g.members[id].subscribed_topic_names
                &&& back.members[minted].instance_id == req.instance_id
                &&& back.target_of(minted) == g.target_of(id) || !g.target.contains_key(id)
                &&& back.group_epoch == g.group_epoch
            })
        }),
{
    let instance = req.instance_id->0;
    assert(g.holders(instance).contains(id));
    only_holder(g.holders(instance), id);
}

/// Whoever joins by a heartbeat is a member with what it sent: its identity, its rack, its client, the topics, the
/// pattern and the assignor that it asks for, and the time it may take. It is answered under the id that it gave, or
/// that was made for it, at the epoch of the target.
pub proof fn newcomer_is_kept_as_sent<A: Assignor>(
    g: GroupStateView,
    config: NextGenConfig<A>,
    input: ReconcileInputView,
    req: HeartbeatRequestView,
    minted: Seq<char>,
    client: ClientIdentityView,
    now: u64,
    authorized: Set<Seq<char>>,
    id: Seq<char>,
)
    requires
        req.member_epoch == 0,
        id == if req.member_id.len() == 0 {
            minted
        } else {
            req.member_id
        },
        !g.members.contains_key(id),
        req.instance_id is Some ==> forall|x: Seq<char>| #[trigger] g.members.contains_key(x) ==> g.members[x].instance_id != req.instance_id,
        beat(g, config, input, req, minted, client, now, authorized).1.response.error_code == codes::NONE,
    ensures
        ({
            let (h, step) = beat(g, config, input, req, minted, client, now, authorized);
            let m = h.members[id];
            &&& h.members.contains_key(id)
            &&& m.member_id == id && m.instance_id == req.instance_id && m.rack_id == req.rack_id
            &&& m.client_id == client.id && m.client_host == client.host && m.last_seen == now && m.classic is None
            &&& m.subscribed_topic_regex == req.subscribed_topic_regex && m.regex_authorized_topics == authorized
            &&& m.server_assignor == req.server_assignor
            &&& req.subscribed_topic_names is Some ==> forall|name: Seq<char>| #[trigger]
                m.subscribed_topic_names.contains(name) <==> req.subscribed_topic_names->0.contains(name)
            &&& req.subscribed_topic_names is None ==> m.subscribed_topic_names == Set::<Seq<char>>::empty()
            &&& req.rebalance_timeout_ms >= 0 ==> m.rebalance_timeout == req.rebalance_timeout_ms
            &&& m.member_epoch == h.target_epoch
            &&& step.response.member_id == Some(id) && step.response.member_epoch == h.target_epoch && step.response.assignment == Some(
                m.assigned_partitions,
            )
        }),
{
    if let Some(instance) = req.instance_id {
        assert(g.holders(instance) =~= Set::<Seq<char>>::empty()) by {
            assert forall|x: Seq<char>| !(#[trigger] g.holders(instance).contains(x)) by {
                if g.holders(instance).contains(x) {
                    assert(g.members.contains_key(x));
                }
            }
        }
    }
    if let Some(list) = req.subscribed_topic_names {
        assert forall|name: Seq<char>| #[trigger] name_set(list).contains(name) <==> list.contains(name) by {
            name_set_holds(list, name);
        }
    }
}

/// A heartbeat changes nothing of anybody but the member that sends it.
pub proof fn heartbeat_touches_its_sender_alone<A: Assignor>(
    g: GroupStateView,
    config: NextGenConfig<A>,
    input: ReconcileInputView,
    req: HeartbeatRequestView,
    minted: Seq<char>,
    client: ClientIdentityView,
    now: u64,
    authorized: Set<Seq<char>>,
    x: Seq<char>,
)
    requires
        req.instance_id is None,
        x != if req.member_id.len() == 0 {
            minted
        } else {
            req.member_id
        },
        req.member_epoch < 0 ==> x != req.member_id,
    ensures
        ({
            let h = beat(g, config, input, req, minted, client, now, authorized).0;
            &&& h.members.contains_key(x) <==> g.members.contains_key(x)
            &&& g.members.contains_key(x) ==> h.members[x] == g.members[x]
        }),
{
}

/// A heartbeat that says its sender leaves takes it out, and the others get a new target; one from nobody that is known
/// changes nothing.
pub proof fn leaving_heartbeat_takes_its_sender_out<A: Assignor>(
    g: GroupStateView,
    config: NextGenConfig<A>,
    input: ReconcileInputView,
    req: HeartbeatRequestView,
    minted: Seq<char>,
    client: ClientIdentityView,
    now: u64,
    authorized: Set<Seq<char>>,
)
    requires
        req.member_epoch == LEAVE_GROUP_MEMBER_EPOCH,
        req.instance_id is None,
        g.group_epoch < i32::MAX,
    ensures
        ({
            let (h, step) = beat(g, config, input, req, minted, client, now, authorized);
            let known = g.members.contains_key(req.member_id);
            &&& known ==> h.members == g.members.remove(req.member_id) && h.group_epoch == g.group_epoch + 1 && h.target_epoch == h.group_epoch
            &&& known ==> step.response.error_code == codes::NONE && step.response.member_id == Some(req.member_id) && step.response.member_epoch
                == LEAVE_GROUP_MEMBER_EPOCH && step.response.assignment is None
            &&& !known ==> h == g && step.response.error_code == codes::UNKNOWN_MEMBER_ID
        }),
{
}

/// Every answer tells how often to send heartbeats: as often as configured.
pub proof fn answer_tells_how_often_to_beat<A: Assignor>(
    g: GroupStateView,
    config: NextGenConfig<A>,
    input: ReconcileInputView,
    req: HeartbeatRequestView,
    minted: Seq<char>,
    client: ClientIdentityView,
    now: u64,
    authorized: Set<Seq<char>>,
)
    ensures
        config.heartbeat_interval <= i32::MAX ==> beat(g, config, input, req, minted, client, now, authorized).1.response.heartbeat_interval_ms
            == config.heartbeat_interval,
{
}

} // verus!
