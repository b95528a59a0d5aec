//! When a classic group lets a member in, when it begins a round, and what the round comes to.

use crate::classic_join::{
    CompletionView, FIRST_KNOWN_MEMBER_ID_VERSION, JoinActionView, JoinContext, completing, gathered, join_result, joining,
};
use crate::classic_laws::sound;
use crate::classic_state::{
    ClassicGroupView, GroupState, InitialJoin, MemberView, ProtocolView, ballot, candidate, common, elected, first_of, is_longest, longest_timeout,
    selected_protocol, supports, tally, votes,
};
use crate::codes;
use crate::ids::member_id_of;
use crate::ordmap::{Key, finite_listed, listed_at, listing, listing_holds, listing_len, str_lt};
use crate::requests::{JoinGroupRequestView, JoinResultView};

use crate::waiters::{ParkedView, deadline_passed};
use vstd::prelude::*;

verus! {

/// A group is full for a newcomer when it has as many members as it may have, or, while a round
/// gathers, as many that wait in it. A newcomer is turned away for that, and only then; whoever is a
/// member, or waits in the round, is not, and an empty group takes anybody.
pub proof fn only_a_full_group_turns_newcomers_away(g: ClassicGroupView, req: JoinGroupRequestView, ctx: JoinContext, suffix: Seq<char>)
    requires
        g.members.dom().finite(),
        g.joined_this_round.finite(),
    ensures
        ({
            let answer = joining(g, req, ctx, suffix).outcome.action;
            let full = match g.state {
                GroupState::Empty => false,
                GroupState::PreparingRebalance => g.joined_this_round.len() >= ctx.max_size && !(g.members.contains_key(req.member_id)
                    && g.joined_this_round.contains(req.member_id)),
                _ => g.members.dom().len() >= ctx.max_size && !g.members.contains_key(req.member_id),
            };
            full <==> answer is Immediate && answer->Immediate_0.error_code == codes::GROUP_MAX_SIZE_REACHED
        }),
{
    listing_len::<String>(g.members.dom());
    listing_len::<String>(g.joined_this_round);
}

/// A member is turned away for its protocols when it brings none, or of another type than the group's,
/// or none that every member has; an empty group takes any.
pub proof fn protocols_must_be_shared(g: ClassicGroupView, req: JoinGroupRequestView, ctx: JoinContext, suffix: Seq<char>)
    requires
        g.members.dom().finite(),
        g.members.dom().len() < ctx.max_size,
        g.joined_this_round.finite(),
        g.joined_this_round.len() < ctx.max_size,
    ensures
        ({
            let answer = joining(g, req, ctx, suffix).outcome.action;
            let fits = if g.state == GroupState::Empty {
                req.protocol_type.len() > 0 && req.protocols.len() > 0
            } else {
                g.protocol_type == Some(req.protocol_type) && exists|i: int|
                    0 <= i < req.protocols.len() && forall|x: Seq<char>| #[trigger]
                        g.members.contains_key(x) ==> exists|j: int|
                            0 <= j < g.members[x].protocols.len() && (#[trigger] g.members[x].protocols[j]).name == (#[trigger] req.protocols[i]).name
            };
            !fits <==> answer is Immediate && answer->Immediate_0.error_code == codes::INCONSISTENT_GROUP_PROTOCOL
        }),
{
    listing_len::<String>(g.members.dom());
    listing_len::<String>(g.joined_this_round);
    if g.state != GroupState::Empty {
        assert forall|i: int| 0 <= i < req.protocols.len() implies (common(g.members, (#[trigger] req.protocols[i]).name) <==> forall|x: Seq<char>| #[trigger]
            g.members.contains_key(x) ==> exists|j: int|
                0 <= j < g.members[x].protocols.len() && (#[trigger] g.members[x].protocols[j]).name == req.protocols[i].name) by {
            if common(g.members, req.protocols[i].name) {
                assert forall|x: Seq<char>| #[trigger] g.members.contains_key(x) implies exists|j: int|
                    0 <= j < g.members[x].protocols.len() && (#[trigger] g.members[x].protocols[j]).name == req.protocols[i].name by {
                    assert(supports(g.members[x].protocols, req.protocols[i].name));
                }
            } else {
                let x = choose|x: Seq<char>| #[trigger] g.members.contains_key(x) && !supports(g.members[x].protocols, req.protocols[i].name);
                assert(g.members.contains_key(x));
            }
        }
    }
}

/// A request that names a member id must name one that it may speak for. One that the group was to
/// await joins, unless it claims a static identity; else the id is that of a member, and of the holder
/// of the static identity where it gives one.
pub proof fn named_id_must_be_known(g: ClassicGroupView, req: JoinGroupRequestView, ctx: JoinContext, suffix: Seq<char>)
    requires
        sound(g),
        req.member_id.len() > 0,
        g.supports_protocols(req.protocol_type, req.protocols),
        g.joined_this_round.finite(),
        g.members.dom().len() < ctx.max_size,
        g.joined_this_round.len() < ctx.max_size,
    ensures
        ({
            let step = joining(g, req, ctx, suffix);
            let answer = step.outcome.action;
            let id = req.member_id;
            let refused = answer is Immediate && answer->Immediate_0.error_code != codes::NONE;
            let code = answer->Immediate_0.error_code;
            &&& step.outcome.fenced_member is None
            &&& refused ==> step.group == g && answer->Immediate_0.member_id == id
            &&& g.pending_members.contains_key(id) ==> (refused <==> req.group_instance_id is Some)
            &&& !g.pending_members.contains_key(id) && req.group_instance_id is None ==> (refused <==> !g.members.contains_key(id)) && (refused ==> code
                == codes::UNKNOWN_MEMBER_ID)
            &&& !g.pending_members.contains_key(id) && req.group_instance_id is Some ==> {
                let held = g.static_members.contains_key(req.group_instance_id->0);
                &&& refused <==> !held || g.static_members[req.group_instance_id->0] != id
                &&& refused && !held ==> code == codes::UNKNOWN_MEMBER_ID
                &&& refused && held ==> code == codes::FENCED_INSTANCE_ID
            }
        }),
{
    listing_len::<String>(g.members.dom());
    listing_len::<String>(g.joined_this_round);
    if let Some(i) = req.group_instance_id {
        if g.static_members.contains_key(i) {
            assert(g.members.contains_key(g.static_members[i]));
        }
    }
}

/// A member that joins again. While a round gathers it waits in that. In a generation that has begun,
/// one that brings what it brought before is told of the generation again, and nothing happens, unless
/// it leads a stable group; in every other case a round opens that everybody has to join again.
pub proof fn rejoin_opens_a_round_only_for_a_change(g: ClassicGroupView, req: JoinGroupRequestView, ctx: JoinContext, suffix: Seq<char>)
    requires
        sound(g),
        g.members.contains_key(req.member_id),
        req.member_id.len() > 0,
        req.group_instance_id is None || g.pinned(req.group_instance_id->0) == Some(req.member_id),
        g.supports_protocols(req.protocol_type, req.protocols),
        g.joined_this_round.finite(),
        g.joined_this_round.len() < ctx.max_size,
    ensures
        ({
            let step = joining(g, req, ctx, suffix);
            let id = req.member_id;
            let repeats = g.members[id].protocols == req.protocols;
            let quiet = repeats && (g.state == GroupState::CompletingRebalance || (g.state == GroupState::Stable && g.leader_id != Some(id)));
            &&& quiet ==> step.group == g && step.outcome.action == JoinActionView::Immediate(join_result(g, id))
            &&& !quiet ==> step.group.state == GroupState::PreparingRebalance && step.group.joined_this_round.contains(id) && (step.outcome.action is Park
                || step.outcome.action is CompleteNow)
            &&& !quiet && g.state != GroupState::PreparingRebalance ==> forall|x: Seq<char>| #[trigger]
                step.group.joined_this_round.contains(x) ==> x == id
            &&& g.state == GroupState::PreparingRebalance ==> step.group.joined_this_round == g.joined_this_round.insert(id)
                && step.group.rebalance_deadline == g.rebalance_deadline
        }),
{
    listing_len::<String>(g.joined_this_round);
}

/// A round is over at once exactly when every member waits in it and no id is awaited, unless it is the
/// round that an empty group began, which waits for others to come.
pub proof fn round_is_over_when_all_wait(g: ClassicGroupView, req: JoinGroupRequestView, ctx: JoinContext, suffix: Seq<char>)
    requires
        joining(g, req, ctx, suffix).outcome.action is Park || joining(g, req, ctx, suffix).outcome.action is CompleteNow,
    ensures
        ({
            let step = joining(g, req, ctx, suffix);
            let h = step.group;
            let from_empty = g.state == GroupState::Empty || (g.state == GroupState::PreparingRebalance && g.rebalance_from_empty);
            step.outcome.action is CompleteNow <==> !from_empty && (forall|x: Seq<char>| #[trigger]
                h.members.contains_key(x) ==> h.joined_this_round.contains(x)) && h.pending_members == Map::<Seq<char>, u64>::empty()
        }),
{
}

/// Where a round opens the group waits for it: as long as its slowest member may take, or, where the
/// group was empty, for the initial delay.
pub proof fn round_waits_for_the_slowest(g: ClassicGroupView, req: JoinGroupRequestView, ctx: JoinContext, suffix: Seq<char>)
    requires
        sound(g),
        g.state != GroupState::PreparingRebalance,
        joining(g, req, ctx, suffix).group.state == GroupState::PreparingRebalance,
        joining(g, req, ctx, suffix).group.members.dom().finite(),
    ensures
        ({
            let h = joining(g, req, ctx, suffix).group;
            &&& h.rebalance_deadline is Some
            &&& g.state == GroupState::Empty ==> h.rebalance_from_empty && (ctx.now + ctx.initial_rebalance_delay <= u64::MAX ==> h.rebalance_deadline->0
                == ctx.now + ctx.initial_rebalance_delay)
            &&& g.state != GroupState::Empty ==> !h.rebalance_from_empty && h.initial_join is None
            &&& g.state != GroupState::Empty ==> forall|x: Seq<char>| #[trigger]
                h.members.contains_key(x) && ctx.now + h.members[x].rebalance_timeout <= u64::MAX ==> ctx.now + h.members[x].rebalance_timeout
                    <= h.rebalance_deadline->0
            &&& g.state != GroupState::Empty ==> h.rebalance_deadline->0 == ctx.now || h.rebalance_deadline->0 == u64::MAX || exists|x: Seq<char>| #[trigger]
                h.members.contains_key(x) && h.rebalance_deadline->0 == ctx.now + h.members[x].rebalance_timeout
            &&& g.state == GroupState::Empty ==> h.initial_join is Some && h.initial_join->0.delay == ctx.initial_rebalance_delay && forall|x: Seq<char>| #[trigger]
                h.members.contains_key(x) ==> h.members[x].rebalance_timeout <= h.initial_join->0.delay + h.initial_join->0.remaining
        }),
{
    let h = joining(g, req, ctx, suffix).group;
    longest_is_longest(h.members);
}

proof fn longest_is_longest(members: Map<Seq<char>, MemberView>)
    requires
        members.dom().finite(),
    ensures
        is_longest(members, longest_timeout(members)),
{
    let t = longest_among(members, members.dom());
    if t > 0 {
        let id = choose|id: Seq<char>| #[trigger] members.dom().contains(id) && members[id].rebalance_timeout == t;
        assert(members.contains_key(id));
    }
    assert(is_longest(members, t));
}

proof fn longest_among(members: Map<Seq<char>, MemberView>, s: Set<Seq<char>>) -> (t: u64)
    requires
        s.finite(),
    ensures
        forall|id: Seq<char>| #[trigger] s.contains(id) ==> members[id].rebalance_timeout <= t,
        t > 0 ==> exists|id: Seq<char>| #[trigger] s.contains(id) && members[id].rebalance_timeout == t,
    decreases s.len(),
{
    if s.len() == 0 {
        assert(s =~= Set::empty());
        0
    } else {
        let a = s.choose();
        let rest = s.remove(a);
        let before = longest_among(members, rest);
        let own = members[a].rebalance_timeout;
        let t = if own > before {
            own
        } else {
            before
        };
        assert forall|id: Seq<char>| #[trigger] s.contains(id) implies members[id].rebalance_timeout <= t by {
            if id != a {
                assert(rest.contains(id));
            }
        }
        if t > 0 {
            if own > before {
                assert(s.contains(a) && members[a].rebalance_timeout == t);
            } else {
                let id = choose|id: Seq<char>| #[trigger] rest.contains(id) && members[id].rebalance_timeout == t;
                assert(s.contains(id) && members[id].rebalance_timeout == t);
            }
        }
        t
    }
}

/// The first round of a group waits on, when its deadline comes, while members came meanwhile and
/// there is time left: for the initial delay or what is left of it, which is then used up. Else it ends.
pub proof fn first_round_waits_on_for_newcomers(g: ClassicGroupView, parked: ParkedView, now: u64)
    requires
        g.state == GroupState::PreparingRebalance,
    ensures
        ({
            let r = deadline_passed(g, parked, now);
            let waits = g.initial_join is Some && g.new_member_added && g.initial_join->0.remaining > 0;
            &&& waits ==> r.parked == parked && r.group.members == g.members && r.group.state == g.state && !r.group.new_member_added
            &&& waits ==> r.group.initial_join is Some && r.group.rebalance_deadline is Some
            &&& waits ==> ({
                let used = g.initial_join->0.remaining - r.group.initial_join->0.remaining;
                &&& 0 <= used <= g.initial_join->0.delay
                &&& used == g.initial_join->0.delay || r.group.initial_join->0.remaining == 0
                &&& now + used <= u64::MAX ==> r.group.rebalance_deadline->0 == now + used
            })
            &&& !waits ==> r.group == crate::waiters::ended_round(g, parked, now).group
        }),
{
}

/// The one that led stays the leader of the next generation if it joined again; else the first that did,
/// in the order of the ids, leads.
pub proof fn leader_stays_if_it_joined(g: ClassicGroupView, now: u64)
    requires
        sound(g),
        completing(g, now).1 is Ok,
        completing(g, now).1->Ok_0 is Generation,
    ensures
        ({
            let h = completing(g, now).0;
            &&& h.leader_id is Some
            &&& g.leader_id is Some && g.joined_this_round.contains(g.leader_id->0) ==> h.leader_id == g.leader_id
            &&& g.leader_id is None || !g.joined_this_round.contains(g.leader_id->0) ==> g.joined_this_round.contains(h.leader_id->0) && forall|
                x: Seq<char>,
            | #[trigger]
                g.joined_this_round.contains(x) && x != h.leader_id->0 ==> str_lt(h.leader_id->0, x)
            &&& h.generation_id == g.generation_id + 1
            &&& h.state == GroupState::CompletingRebalance
            &&& h.joined_this_round == Set::<Seq<char>>::empty()
            &&& h.rebalance_deadline is None
            &&& h.protocol_type == g.protocol_type
        }),
{
    let k = gathered(g);
    let s = k.joined_members();
    assert(s.subset_of(g.members.dom()));
    vstd::set_lib::lemma_set_subset_finite(g.members.dom(), s);
    finite_listed::<String>(s);
    assert forall|x: Seq<char>| s.contains(x) <==> #[trigger] g.joined_this_round.contains(x) by {}
    let list = listing::<String>(s);
    if !(g.leader_id is Some && g.joined_this_round.contains(g.leader_id->0)) {
        assert(s != Set::<Seq<char>>::empty());
        assert(exists|x: Seq<char>| s.contains(x)) by {
            if forall|x: Seq<char>| !s.contains(x) {
                assert(s =~= Set::empty());
            }
        }
        let x = choose|x: Seq<char>| s.contains(x);
        assert(list.contains(x));
        assert(s.contains(list[0]));
        assert forall|x: Seq<char>| #[trigger] g.joined_this_round.contains(x) && x != list[0] implies str_lt(list[0], x) by {
            assert(s.contains(x));
            assert(list.contains(x));
            let i = choose|i: int| 0 <= i < list.len() && list[i] == x;
            assert(<String as Key>::lt(list[0], list[i]));
        }
    }
}

/// Whether the member `id` votes for `name`: of what it brings, in its order, `name` is the first that
/// every member has.
pub open spec fn favours(members: Map<Seq<char>, MemberView>, id: Seq<char>, name: Seq<char>) -> bool {
    let list = members[id].protocols;
    &&& members.contains_key(id)
    &&& exists|i: int|
        0 <= i < list.len() && (#[trigger] list[i]).name == name && common(members, name) && forall|j: int|
            0 <= j < i ==> !common(members, (#[trigger] list[j]).name)
}

proof fn ballot_is_first_shared(members: Map<Seq<char>, MemberView>, list: Seq<ProtocolView>, name: Seq<char>)
    ensures
        ballot(members, list) == Some(name) <==> exists|i: int|
            0 <= i < list.len() && (#[trigger] list[i]).name == name && common(members, name) && forall|j: int|
                0 <= j < i ==> !common(members, (#[trigger] list[j]).name),
    decreases list.len(),
{
    if list.len() > 0 {
        let rest = list.drop_first();
        ballot_is_first_shared(members, rest, name);
        if common(members, list[0].name) {
            if exists|i: int|
                0 <= i < list.len() && (#[trigger] list[i]).name == name && common(members, name) && forall|j: int|
                    0 <= j < i ==> !common(members, (#[trigger] list[j]).name) {
                let i = choose|i: int|
                    0 <= i < list.len() && (#[trigger] list[i]).name == name && common(members, name) && forall|j: int|
                        0 <= j < i ==> !common(members, (#[trigger] list[j]).name);
                assert(i == 0);
            }
            if list[0].name == name {
                assert(list[0].name == name && common(members, name));
            }
        } else {
            if ballot(members, rest) == Some(name) {
                let i = choose|i: int|
                    0 <= i < rest.len() && (#[trigger] rest[i]).name == name && common(members, name) && forall|j: int|
                        0 <= j < i ==> !common(members, (#[trigger] rest[j]).name);
                assert(list[i + 1] == rest[i]);
                assert forall|j: int| 0 <= j < i + 1 implies !common(members, (#[trigger] list[j]).name) by {
                    if j > 0 {
                        assert(rest[j - 1] == list[j]);
                    }
                }
            }
            if exists|i: int|
                0 <= i < list.len() && (#[trigger] list[i]).name == name && common(members, name) && forall|j: int|
                    0 <= j < i ==> !common(members, (#[trigger] list[j]).name) {
                let i = choose|i: int|
                    0 <= i < list.len() && (#[trigger] list[i]).name == name && common(members, name) && forall|j: int|
                        0 <= j < i ==> !common(members, (#[trigger] list[j]).name);
                assert(i > 0);
                assert(rest[i - 1] == list[i]);
                assert forall|j: int| 0 <= j < i - 1 implies !common(members, (#[trigger] rest[j]).name) by {
                    assert(list[j + 1] == rest[j]);
                }
            }
        }
    }
}

proof fn tally_counts(members: Map<Seq<char>, MemberView>, ids: Seq<Seq<char>>, name: Seq<char>)
    requires
        ids.no_duplicates(),
        forall|i: int| 0 <= i < ids.len() ==> members.contains_key(#[trigger] ids[i]),
    ensures
        ids.to_set().filter(|id: Seq<char>| favours(members, id, name)).finite(),
        tally(members, ids, name) == ids.to_set().filter(|id: Seq<char>| favours(members, id, name)).len(),
    decreases ids.len(),
{
    let f = |id: Seq<char>| favours(members, id, name);
    let all = ids.to_set().filter(f);
    vstd::seq_lib::seq_to_set_is_finite(ids);
    vstd::set_lib::lemma_set_subset_finite(ids.to_set(), all);
    if ids.len() == 0 {
        assert(all =~= Set::empty());
    } else {
        let front = ids.drop_last();
        let id = ids.last();
        assert forall|i: int| 0 <= i < front.len() implies members.contains_key(#[trigger] front[i]) by {
            assert(front[i] == ids[i]);
        }
        tally_counts(members, front, name);
        assert(members.contains_key(ids[ids.len() - 1]));
        ballot_is_first_shared(members, members[id].protocols, name);
        let before = front.to_set().filter(f);
        assert(!before.contains(id)) by {
            if front.to_set().contains(id) {
                let i = choose|i: int| 0 <= i < front.len() && front[i] == id;
                assert(ids[i] == ids[ids.len() - 1]);
            }
        }
        assert(ids.to_set() =~= front.to_set().insert(id)) by {
            assert forall|x: Seq<char>| ids.to_set().contains(x) <==> #[trigger] front.to_set().insert(id).contains(x) by {
                if ids.contains(x) && x != id {
                    let i = choose|i: int| 0 <= i < ids.len() && ids[i] == x;
                    assert(front[i] == x);
                }
                if front.contains(x) {
                    let i = choose|i: int| 0 <= i < front.len() && front[i] == x;
                    assert(ids[i] == x);
                }
                assert(ids[ids.len() - 1] == id);
            }
        }
        if favours(members, id, name) {
            assert(all =~= before.insert(id));
        } else {
            assert(all =~= before);
        }
    }
}

proof fn votes_counted(members: Map<Seq<char>, MemberView>, name: Seq<char>)
    requires
        members.dom().finite(),
    ensures
        votes(members, name) == members.dom().filter(|id: Seq<char>| favours(members, id, name)).len(),
{
    let ids = listing::<String>(members.dom());
    finite_listed::<String>(members.dom());
    listing_holds::<String>(members.dom());
    assert(ids.no_duplicates());
    assert(ids.to_set() =~= members.dom()) by {
        assert forall|x: Seq<char>| ids.to_set().contains(x) <==> #[trigger] members.dom().contains(x) by {
            if ids.contains(x) {
                let i = choose|i: int| 0 <= i < ids.len() && ids[i] == x;
                assert(members.dom().contains(ids[i]));
            }
            if members.dom().contains(x) {
                assert(ids.contains(x));
            }
        }
    }
    tally_counts(members, ids, name);
}

/// The protocol of a generation is one that every member brought and that no fewer of them vote for
/// than for any other such; of several that are even, the first by name.
pub proof fn generation_takes_the_protocol_with_most_votes(g: ClassicGroupView, now: u64, other: Seq<char>)
    requires
        sound(g),
        completing(g, now).1 is Ok,
        completing(g, now).1->Ok_0 is Generation,
        forall|id: Seq<char>| #[trigger] completing(g, now).0.members.contains_key(id) ==> exists|i: int|
            0 <= i < g.members[id].protocols.len() && (#[trigger] g.members[id].protocols[i]).name == other,
    ensures
        ({
            let h = completing(g, now).0;
            let name = h.protocol_name->0;
            let mine = h.members.dom().filter(|id: Seq<char>| favours(h.members, id, name)).len();
            let theirs = h.members.dom().filter(|id: Seq<char>| favours(h.members, id, other)).len();
            &&& h.protocol_name is Some
            &&& forall|id: Seq<char>| #[trigger] h.members.contains_key(id) ==> exists|i: int|
                0 <= i < g.members[id].protocols.len() && (#[trigger] g.members[id].protocols[i]).name == name
            &&& theirs <= mine
            &&& theirs == mine ==> !str_lt(other, name)
        }),
{
    let h = completing(g, now).0;
    let k = gathered(g);
    let name = selected_protocol(k.members)->0;
    assert(elected(k.members, name));
    assert(k.members.dom() =~= h.members.dom());
    assert(h.members.dom().subset_of(g.members.dom()));
    vstd::set_lib::lemma_set_subset_finite(g.members.dom(), h.members.dom());
    assert forall|id: Seq<char>| #[trigger] h.members.contains_key(id) implies h.members[id].protocols == k.members[id].protocols
        && k.members[id].protocols == g.members[id].protocols by {
        assert(k.members.contains_key(id));
    }
    assert forall|n: Seq<char>| #[trigger] common(h.members, n) <==> common(k.members, n) by {
        if common(h.members, n) {
            assert forall|id: Seq<char>| #[trigger] k.members.contains_key(id) implies supports(k.members[id].protocols, n) by {
                assert(h.members.contains_key(id));
            }
        }
        if common(k.members, n) {
            assert forall|id: Seq<char>| #[trigger] h.members.contains_key(id) implies supports(h.members[id].protocols, n) by {
                assert(k.members.contains_key(id));
            }
        }
    }
    assert(common(k.members, other)) by {
        assert forall|id: Seq<char>| #[trigger] k.members.contains_key(id) implies supports(k.members[id].protocols, other) by {
            assert(h.members.contains_key(id));
        }
    }
    assert(k.members.dom() != Set::<Seq<char>>::empty()) by {
        if k.members.dom() == Set::<Seq<char>>::empty() {
            assert(k.members =~= Map::<Seq<char>, MemberView>::empty());
        }
    }
    let someone = choose|x: Seq<char>| k.members.dom().contains(x);
    assert(exists|x: Seq<char>| k.members.dom().contains(x)) by {
        if forall|x: Seq<char>| !k.members.dom().contains(x) {
            assert(k.members.dom() =~= Set::empty());
        }
    }
    assert(k.members.contains_key(someone) && supports(k.members[someone].protocols, other));
    assert(candidate(k.members, other));
    votes_counted(k.members, name);
    votes_counted(k.members, other);
    assert forall|n: Seq<char>, id: Seq<char>| #[trigger] favours(h.members, id, n) <==> favours(k.members, id, n) by {
        assert(common(h.members, n) <==> common(k.members, n));
        if h.members.contains_key(id) {
            let list = h.members[id].protocols;
            if favours(h.members, id, n) {
                let i = choose|i: int|
                    0 <= i < list.len() && (#[trigger] list[i]).name == n && common(h.members, n) && forall|j: int|
                        0 <= j < i ==> !common(h.members, (#[trigger] list[j]).name);
                assert forall|j: int| 0 <= j < i implies !common(k.members, (#[trigger] list[j]).name) by {
                    assert(!common(h.members, list[j].name));
                }
                assert(k.members[id].protocols[i].name == n);
            }
            if favours(k.members, id, n) {
                let i = choose|i: int|
                    0 <= i < list.len() && (#[trigger] list[i]).name == n && common(k.members, n) && forall|j: int|
                        0 <= j < i ==> !common(k.members, (#[trigger] list[j]).name);
                assert forall|j: int| 0 <= j < i implies !common(h.members, (#[trigger] list[j]).name) by {
                    assert(!common(k.members, list[j].name));
                }
                assert(h.members[id].protocols[i].name == n);
            }
        }
    }
    assert(h.members.dom().filter(|id: Seq<char>| favours(h.members, id, name)) =~= k.members.dom().filter(|id: Seq<char>| favours(k.members, id, name)));
    assert(h.members.dom().filter(|id: Seq<char>| favours(h.members, id, other)) =~= k.members.dom().filter(
        |id: Seq<char>| favours(k.members, id, other),
    ));
    assert forall|id: Seq<char>| #[trigger] h.members.contains_key(id) implies exists|i: int|
        0 <= i < g.members[id].protocols.len() && (#[trigger] g.members[id].protocols[i]).name == name by {
        assert(k.members.contains_key(id));
        assert(supports(k.members[id].protocols, name));
    }
}

/// A static member that comes back without its id keeps what it had: it takes the place of the old id,
/// in the round and as the leader, and in a stable group whose protocol still wins it is told of the
/// generation as it stands, with its assignment.
pub proof fn returning_static_member_keeps_its_place(g: ClassicGroupView, req: JoinGroupRequestView, ctx: JoinContext, suffix: Seq<char>)
    requires
        sound(g),
        crate::classic_laws::fresh_for(g, req, ctx, suffix),
        req.member_id.len() == 0,
        req.group_instance_id is Some,
        g.static_members.contains_key(req.group_instance_id->0),
        g.supports_protocols(req.protocol_type, req.protocols),
        g.members.dom().len() < ctx.max_size,
        g.joined_this_round.finite(),
        g.joined_this_round.len() < ctx.max_size,
    ensures
        ({
            let step = joining(g, req, ctx, suffix);
            let from = g.static_members[req.group_instance_id->0];
            let to = step.member_id;
            let m = step.group.members[to];
            &&& to == member_id_of(req.group_instance_id->0, suffix)
            &&& step.outcome.fenced_member == Some(from)
            &&& !step.group.members.contains_key(from)
            &&& step.group.members.contains_key(to)
            &&& step.group.static_members == g.static_members.insert(req.group_instance_id->0, to)
            &&& m.assignment == g.members[from].assignment
            &&& m.client_id == g.members[from].client_id && m.client_host == g.members[from].client_host
            &&& m.last_heartbeat == ctx.now
            &&& g.leader_id == Some(from) ==> step.group.leader_id == Some(to)
            &&& g.leader_id != Some(from) ==> step.group.leader_id == g.leader_id
            &&& !step.group.joined_this_round.contains(from)
            &&& step.outcome.action is PersistThenReply ==> step.group.state == GroupState::Stable && step.group.generation_id == g.generation_id && ({
                let answer = step.outcome.action->PersistThenReply_0;
                &&& answer.error_code == codes::NONE
                &&& answer.generation_id == g.generation_id
                &&& answer.member_id == to
                &&& answer.protocol_name == g.protocol_name
            })
            &&& !(step.outcome.action is PersistThenReply) && g.state != GroupState::Empty ==> step.group.state == GroupState::PreparingRebalance
                && step.group.joined_this_round.contains(to)
        }),
{
    listing_len::<String>(g.members.dom());
    listing_len::<String>(g.joined_this_round);
    let from = g.static_members[req.group_instance_id->0];
    assert(g.members.contains_key(from));
}

} // verus!
