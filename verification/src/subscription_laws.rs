//! What the members of a consumer group get of the topics that they ask for.

use crate::assignor::{
    UniformAssignor, assigned, assignment_is_balanced, assignment_is_complete, assignment_prefers_racks, assignment_is_sound, assignment_is_unique, available, collocated,
    listed_member, lone_subscriber_gets_all, rackless, share_is_increasing, subscribers, subscribes,
};
use crate::codes;
use crate::config::NextGenConfig;
use crate::consumer_laws::keyed;
use crate::consumer_state::{GroupStateView, MemberStateView, ReconcileInputView, chosen_topics, reconciled, subscription_of};
use crate::heartbeat::{ClientIdentityView, HeartbeatRequestView, beat, built_member, first_join, name_set, spoken_id};
use crate::ordmap::{finite_listed, listed_at, listing, listing_holds, listing_unique, lists};
use crate::partitions::{PartitionsView, part_of};
use crate::regexes::regex_matches;
use vstd::prelude::*;

verus! {

proof fn chosen_topics_hold(m: MemberStateView, input: ReconcileInputView, names: Seq<Seq<char>>, topic: u128)
    ensures
        chosen_topics(m, input, names).contains(topic) <==> exists|i: int|
            0 <= i < names.len() && m.wants(#[trigger] names[i]) && input.topic_id_by_name[names[i]] == topic,
    decreases names.len(),
{
    if names.len() > 0 {
        let before = chosen_topics(m, input, names.drop_last());
        let all = chosen_topics(m, input, names);
        chosen_topics_hold(m, input, names.drop_last(), topic);
        assert(names.last() == names[names.len() - 1]);
        if all.contains(topic) {
            let k = choose|k: int| 0 <= k < all.len() && all[k] == topic;
            if k < before.len() {
                assert(before[k] == topic);
                let i = choose|i: int|
                    0 <= i < names.len() - 1 && m.wants(#[trigger] names.drop_last()[i]) && input.topic_id_by_name[names.drop_last()[i]] == topic;
                assert(m.wants(names[i]));
            } else {
                assert(m.wants(names[names.len() - 1]));
            }
        }
        if exists|i: int| 0 <= i < names.len() && m.wants(#[trigger] names[i]) && input.topic_id_by_name[names[i]] == topic {
            let i = choose|i: int| 0 <= i < names.len() && m.wants(#[trigger] names[i]) && input.topic_id_by_name[names[i]] == topic;
            if i < names.len() - 1 {
                assert(m.wants(names.drop_last()[i]));
                let k = choose|k: int| 0 <= k < before.len() && before[k] == topic;
                assert(all[k] == topic);
            } else {
                assert(all[all.len() - 1] == topic);
            }
        }
    }
}

/// The assignor is told of every member once: its rack, and the id of each topic there is that the
/// member lists by name, or that its pattern matches and its client may see; and of nothing else.
pub proof fn assignor_is_told_of_every_member(g: GroupStateView, input: ReconcileInputView, id: Seq<char>, topic: u128)
    requires
        keyed(g),
        g.members.dom().finite(),
        input.topic_id_by_name.dom().finite(),
        g.members.contains_key(id),
    ensures
        ({
            let m = g.members[id];
            let told = g.subscriptions(input);
            exists|i: int|
                0 <= i < told.len() && (#[trigger] told[i]).member_id == id && told[i].rack_id == m.rack_id && (told[i].subscribed_topic_ids.contains(topic)
                    <==> exists|name: Seq<char>| #[trigger]
                    input.topic_id_by_name.contains_key(name) && input.topic_id_by_name[name] == topic && (m.subscribed_topic_names.contains(name) || (
                    m.subscribed_topic_regex is Some && m.regex_authorized_topics.contains(name) && regex_matches(m.subscribed_topic_regex->0, name))))
        }),
        forall|i: int, j: int| 0 <= i < j < g.subscriptions(input).len() ==> (#[trigger] g.subscriptions(input)[i]).member_id != (#[trigger] g.subscriptions(
            input,
        )[j]).member_id,
        forall|i: int| 0 <= i < g.subscriptions(input).len() ==> g.members.contains_key((#[trigger] g.subscriptions(input)[i]).member_id),
{
    let ids = listing::<String>(g.members.dom());
    let told = g.subscriptions(input);
    listing_holds::<String>(g.members.dom());
    let i = listed_at::<String>(g.members.dom(), id);
    assert(told[i] == subscription_of(g.members[id], input));
    subscription_holds_what_is_asked_for(g.members[id], input, topic);
    assert forall|j: int| 0 <= j < told.len() implies g.members.contains_key((#[trigger] told[j]).member_id) && told[j].member_id == ids[j] by {
        assert(g.members.dom().contains(ids[j]));
    }
    assert forall|a: int, b: int| 0 <= a < b < told.len() implies (#[trigger] told[a]).member_id != (#[trigger] told[b]).member_id by {
        assert(told[a].member_id == ids[a] && told[b].member_id == ids[b]);
    }
}

proof fn subscription_holds_what_is_asked_for(m: MemberStateView, input: ReconcileInputView, topic: u128)
    requires
        input.topic_id_by_name.dom().finite(),
    ensures
        subscription_of(m, input).subscribed_topic_ids.contains(topic) <==> exists|name: Seq<char>| #[trigger]
            input.topic_id_by_name.contains_key(name) && input.topic_id_by_name[name] == topic && (m.subscribed_topic_names.contains(name) || (
            m.subscribed_topic_regex is Some && m.regex_authorized_topics.contains(name) && regex_matches(m.subscribed_topic_regex->0, name))),
{
    let names = listing::<String>(input.topic_id_by_name.dom());
    finite_listed::<String>(input.topic_id_by_name.dom());
    chosen_topics_hold(m, input, names, topic);
    if subscription_of(m, input).subscribed_topic_ids.contains(topic) {
        let i = choose|i: int| 0 <= i < names.len() && m.wants(#[trigger] names[i]) && input.topic_id_by_name[names[i]] == topic;
        assert(input.topic_id_by_name.dom().contains(names[i]));
        assert(input.topic_id_by_name.contains_key(names[i]));
    }
    if exists|name: Seq<char>| #[trigger]
        input.topic_id_by_name.contains_key(name) && input.topic_id_by_name[name] == topic && (m.subscribed_topic_names.contains(name) || (
        m.subscribed_topic_regex is Some && m.regex_authorized_topics.contains(name) && regex_matches(m.subscribed_topic_regex->0, name))) {
        let name = choose|name: Seq<char>| #[trigger]
            input.topic_id_by_name.contains_key(name) && input.topic_id_by_name[name] == topic && (m.subscribed_topic_names.contains(name) || (
            m.subscribed_topic_regex is Some && m.regex_authorized_topics.contains(name) && regex_matches(m.subscribed_topic_regex->0, name)));
        assert(names.contains(name));
        let i = choose|i: int| 0 <= i < names.len() && names[i] == name;
        assert(m.wants(names[i]));
    }
}

/// A new target gives out every partition of every topic that a member asks for, by name or by
/// pattern: each is to be held by one member, and by that one alone.
pub proof fn target_covers_what_is_asked_for(
    g: GroupStateView,
    assignors: Seq<UniformAssignor>,
    input: ReconcileInputView,
    id: Seq<char>,
    name: Seq<char>,
    p: i32,
)
    requires
        g.dirty,
        g.group_epoch < i32::MAX,
        keyed(g),
        g.members.dom().finite(),
        input.topic_id_by_name.dom().finite(),
        g.members.contains_key(id),
        input.topic_id_by_name.contains_key(name),
        g.members[id].subscribed_topic_names.contains(name) || (g.members[id].subscribed_topic_regex is Some
            && g.members[id].regex_authorized_topics.contains(name) && regex_matches(g.members[id].subscribed_topic_regex->0, name)),
        input.topics.partitions_per_topic.contains_key(input.topic_id_by_name[name]),
        0 <= p < input.topics.partitions_per_topic[input.topic_id_by_name[name]],
    ensures
        ({
            let target = reconciled(g, assignors, input).target;
            let t = input.topic_id_by_name[name];
            exists|x: Seq<char>|
                #![trigger target.contains_key(x)]
                {
                    &&& g.members.contains_key(x)
                    &&& target.contains_key(x) && part_of(target[x], t, p)
                    &&& forall|y: Seq<char>| #[trigger] target.contains_key(y) && part_of(target[y], t, p) ==> y == x
                }
        }),
{
    let target = reconciled(g, assignors, input).target;
    let t = input.topic_id_by_name[name];
    let told = g.subscriptions(input);
    assignor_is_told_of_every_member(g, input, id, t);
    let i = choose|i: int|
        0 <= i < told.len() && (#[trigger] told[i]).member_id == id && told[i].rack_id == g.members[id].rack_id && (told[i].subscribed_topic_ids.contains(t)
            <==> exists|name: Seq<char>| #[trigger]
            input.topic_id_by_name.contains_key(name) && input.topic_id_by_name[name] == t && (g.members[id].subscribed_topic_names.contains(name) || (
            g.members[id].subscribed_topic_regex is Some && g.members[id].regex_authorized_topics.contains(name) && regex_matches(
                g.members[id].subscribed_topic_regex->0,
                name,
            ))));
    assert(subscribes(told[i], t));
    assignment_is_complete(told, input.topics, t, p);
    let k = choose|k: int|
        0 <= k < told.len() && subscribes(#[trigger] told[k], t) && assigned(told, input.topics, told[k].member_id, t).contains(p);
    let x = told[k].member_id;
    assert(listed_member(told, x));
    assert(target.contains_key(x) && part_of(target[x], t, p));
    assert forall|y: Seq<char>| #[trigger] target.contains_key(y) && part_of(target[y], t, p) implies y == x by {
        assignment_is_unique(told, input.topics, t, p, x, y);
    }
}

/// A new target gives a member only partitions that there are, of topics that it asks for.
pub proof fn target_holds_only_what_is_asked_for(
    g: GroupStateView,
    assignors: Seq<UniformAssignor>,
    input: ReconcileInputView,
    id: Seq<char>,
    t: u128,
    p: i32,
)
    requires
        g.dirty,
        g.group_epoch < i32::MAX,
        keyed(g),
        g.members.dom().finite(),
        input.topic_id_by_name.dom().finite(),
        part_of(reconciled(g, assignors, input).target_of(id), t, p),
    ensures
        g.members.contains_key(id),
        input.topics.partitions_per_topic.contains_key(t),
        0 <= p < input.topics.partitions_per_topic[t],
        ({
            let m = g.members[id];
            exists|name: Seq<char>| #[trigger]
                input.topic_id_by_name.contains_key(name) && input.topic_id_by_name[name] == t && (m.subscribed_topic_names.contains(name) || (
                m.subscribed_topic_regex is Some && m.regex_authorized_topics.contains(name) && regex_matches(m.subscribed_topic_regex->0, name)))
        }),
{
    let told = g.subscriptions(input);
    let ids = listing::<String>(g.members.dom());
    assignment_is_sound(told, input.topics, t, p, id);
    let i = choose|i: int| 0 <= i < told.len() && subscribes(#[trigger] told[i], t) && told[i].member_id == id;
    finite_listed::<String>(g.members.dom());
    assert(g.members.dom().contains(ids[i]));
    assert(told[i] == subscription_of(g.members[ids[i]], input));
    assert(ids[i] == id);
    subscription_holds_what_is_asked_for(g.members[id], input, t);
}

/// A list of names stands for the names in it.
pub(crate) proof fn name_set_holds(list: Seq<Seq<char>>, name: Seq<char>)
    ensures
        name_set(list).contains(name) <==> list.contains(name),
    decreases list.len(),
{
    if list.len() > 0 {
        let rest = list.drop_last();
        name_set_holds(rest, name);
        if list.contains(name) && name != list.last() {
            let i = choose|i: int| 0 <= i < list.len() && list[i] == name;
            assert(rest[i] == name);
        }
        if rest.contains(name) {
            let i = choose|i: int| 0 <= i < rest.len() && rest[i] == name;
            assert(list[i] == name);
        }
        assert(list[list.len() - 1] == list.last());
    }
}

/// The first member of a group that the uniform assignor serves is told to own every partition of
/// every topic that it lists.
pub proof fn first_member_owns_what_it_lists(
    g: GroupStateView,
    config: NextGenConfig<UniformAssignor>,
    input: ReconcileInputView,
    req: HeartbeatRequestView,
    minted: Seq<char>,
    client: ClientIdentityView,
    now: u64,
    authorized: Set<Seq<char>>,
    k: int,
)
    requires
        g.members == Map::<Seq<char>, MemberStateView>::empty(),
        g.group_epoch < i32::MAX,
        input.topic_id_by_name.dom().finite(),
        req.member_epoch == 0,
        req.subscribed_topic_names is Some,
        0 <= k < req.subscribed_topic_names->0.len(),
        beat(g, config, input, req, minted, client, now, authorized).1.response.error_code == codes::NONE,
        input.topic_id_by_name.contains_key(req.subscribed_topic_names->0[k]),
        input.topics.partitions_per_topic.contains_key(input.topic_id_by_name[req.subscribed_topic_names->0[k]]),
        input.topics.partitions_per_topic[input.topic_id_by_name[req.subscribed_topic_names->0[k]]] > 0,
    ensures
        ({
            let t = input.topic_id_by_name[req.subscribed_topic_names->0[k]];
            let response = beat(g, config, input, req, minted, client, now, authorized).1.response;
            &&& response.assignment is Some
            &&& response.assignment->0.contains_key(t)
            &&& response.assignment->0[t] == Seq::new(input.topics.partitions_per_topic[t] as nat, |p: int| p as i32)
            &&& response.member_epoch == g.group_epoch + 1
        }),
{
    let id = spoken_id(req, minted);
    let name = req.subscribed_topic_names->0[k];
    let t = input.topic_id_by_name[name];
    let m = built_member(id, req, client, now, authorized);
    let g1 = g.with_member(m);
    if let Some(instance) = req.instance_id {
        assert(g.holders(instance) =~= Set::<Seq<char>>::empty());
    }
    assert(beat(g, config, input, req, minted, client, now, authorized) == first_join(g, config, input, id, req, client, now, authorized));
    assert(g1.members.dom() =~= Set::<Seq<char>>::empty().insert(id));
    lone_listing(id);
    let told = g1.subscriptions(input);
    assert(told =~= seq![subscription_of(m, input)]);
    name_set_holds(req.subscribed_topic_names->0, name);
    subscription_holds_what_is_asked_for(m, input, t);
    assert(subscribes(told[0], t));
    lone_subscriber_gets_all(told, input.topics, t);
    assert(listed_member(told, id)) by {
        assert(told[0].member_id == id);
    }
    let g2 = reconciled(g1, config.assignors@, input).advanced(id);
    let all = Seq::new(input.topics.partitions_per_topic[t] as nat, |p: int| p as i32);
    assert(g2.target_of(id).contains_key(t) && g2.target_of(id)[t] == all);
    assert forall|t: u128, p: i32| !g2.held_elsewhere(id, t, p) by {}
    crate::partitions::parts_where_all(g2.target_of(id), |t: u128, p: i32| !g2.held_elsewhere(id, t, p), t);
}

proof fn lone_listing(id: Seq<char>)
    ensures
        listing::<String>(Set::<Seq<char>>::empty().insert(id)) == seq![id],
{
    let s = Set::<Seq<char>>::empty().insert(id);
    let ids = seq![id];
    assert(lists::<String>(ids, s)) by {
        assert(ids[0] == id);
        assert forall|x: Seq<char>| #[trigger] s.contains(x) implies ids.contains(x) by {
            assert(x == ids[0]);
        }
    }
    listing_unique::<String>(ids, s);
}

/// A member's part of a topic is listed in order, each partition once.
pub proof fn target_lists_partitions_in_order(
    g: GroupStateView,
    assignors: Seq<UniformAssignor>,
    input: ReconcileInputView,
    id: Seq<char>,
    t: u128,
    i: int,
    j: int,
)
    requires
        g.dirty,
        g.group_epoch < i32::MAX,
        reconciled(g, assignors, input).target_of(id).contains_key(t),
        0 <= i < j < reconciled(g, assignors, input).target_of(id)[t].len(),
    ensures
        reconciled(g, assignors, input).target_of(id)[t][i] < reconciled(g, assignors, input).target_of(id)[t][j],
{
    let told = g.subscriptions(input);
    share_is_increasing(input.topics, t, subscribers(told, t), id, available(input.topics, t));
}

/// A topic is shared out evenly: of two members without a rack that both list it, among members that all have none,
/// neither is to hold more than one partition of it beyond the other.
pub proof fn target_is_even(
    g: GroupStateView,
    assignors: Seq<UniformAssignor>,
    input: ReconcileInputView,
    a: Seq<char>,
    b: Seq<char>,
    name: Seq<char>,
    p: i32,
)
    requires
        g.dirty,
        g.group_epoch < i32::MAX,
        keyed(g),
        g.members.dom().finite(),
        input.topic_id_by_name.dom().finite(),
        forall|x: Seq<char>| #[trigger] g.members.contains_key(x) ==> g.members[x].rack_id is None,
        g.members.contains_key(a),
        g.members.contains_key(b),
        input.topic_id_by_name.contains_key(name),
        g.members[a].subscribed_topic_names.contains(name),
        g.members[b].subscribed_topic_names.contains(name),
        part_of(reconciled(g, assignors, input).target_of(a), input.topic_id_by_name[name], p),
    ensures
        ({
            let t = input.topic_id_by_name[name];
            let h = reconciled(g, assignors, input);
            let other = if h.target_of(b).contains_key(t) {
                h.target_of(b)[t].len()
            } else {
                0
            };
            h.target_of(a)[t].len() <= other + 1
        }),
{
    let t = input.topic_id_by_name[name];
    let told = g.subscriptions(input);
    let ids = listing::<String>(g.members.dom());
    listing_holds::<String>(g.members.dom());
    assignor_is_told_of_every_member(g, input, a, t);
    let i = listed_at::<String>(g.members.dom(), a);
    let j = listed_at::<String>(g.members.dom(), b);
    assert(told[i] == subscription_of(g.members[a], input) && told[j] == subscription_of(g.members[b], input));
    subscription_holds_what_is_asked_for(g.members[a], input, t);
    subscription_holds_what_is_asked_for(g.members[b], input, t);
    assert forall|k: int, q: i32| 0 <= k < told.len() && subscribes(told[k], t) implies !#[trigger] collocated(input.topics, t, q, told[k]) by {
        assert(g.members.dom().contains(ids[k]));
        assert(g.members.contains_key(ids[k]));
        assert(told[k] == subscription_of(g.members[ids[k]], input));
    }
    assert(rackless(told, input.topics, t));
    assignment_is_balanced(told, input.topics, t, i, j);
    assert(listed_member(told, b)) by {
        assert(told[j].member_id == b);
    }
}

/// Where a member that lists a topic sits in a rack with a replica of a partition of it, the partition goes to a member
/// in such a rack.
pub proof fn target_prefers_racks(
    g: GroupStateView,
    assignors: Seq<UniformAssignor>,
    input: ReconcileInputView,
    near: Seq<char>,
    owner: Seq<char>,
    name: Seq<char>,
    p: i32,
)
    requires
        g.dirty,
        g.group_epoch < i32::MAX,
        keyed(g),
        g.members.dom().finite(),
        input.topic_id_by_name.dom().finite(),
        g.members.contains_key(near),
        g.members.contains_key(owner),
        input.topic_id_by_name.contains_key(name),
        g.members[near].subscribed_topic_names.contains(name),
        input.topics.partition_racks.contains_key((input.topic_id_by_name[name], p)),
        g.members[near].rack_id is Some,
        input.topics.partition_racks[(input.topic_id_by_name[name], p)].contains(g.members[near].rack_id->0),
        part_of(reconciled(g, assignors, input).target_of(owner), input.topic_id_by_name[name], p),
    ensures
        g.members[owner].rack_id is Some,
        input.topics.partition_racks[(input.topic_id_by_name[name], p)].contains(g.members[owner].rack_id->0),
{
    let t = input.topic_id_by_name[name];
    let told = g.subscriptions(input);
    let ids = listing::<String>(g.members.dom());
    listing_holds::<String>(g.members.dom());
    assignor_is_told_of_every_member(g, input, near, t);
    let i = listed_at::<String>(g.members.dom(), near);
    let j = listed_at::<String>(g.members.dom(), owner);
    assert(told[i] == subscription_of(g.members[near], input) && told[j] == subscription_of(g.members[owner], input));
    subscription_holds_what_is_asked_for(g.members[near], input, t);
    assert(subscribes(told[i], t) && collocated(input.topics, t, p, told[i]));
    assignment_prefers_racks(told, input.topics, t, p, owner);
    let k = choose|k: int| 0 <= k < told.len() && (#[trigger] told[k]).member_id == owner && collocated(input.topics, t, p, told[k]);
    assert(g.members.dom().contains(ids[k]));
    assert(told[k] == subscription_of(g.members[ids[k]], input));
    assert(g.members.contains_key(ids[k]));
    assert(ids[k] == owner);
}

} // verus!
