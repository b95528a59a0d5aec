//! Who stays in a group as time goes by.

use crate::assignor::{Assignor, UniformAssignor};
use crate::classic_laws::{expiry_keeps_sound, sound};
use crate::classic_state::{ClassicGroupView, GroupState as ClassicGroupState};
use crate::classic_sync::beating;
use crate::codes;
use crate::config::NextGenConfig;
use crate::consumer_laws::{heartbeat_keeps_keyed, keyed};
use crate::consumer_state::{GroupStateView, MemberStateView, ReconcileInputView, reconciled};
use crate::group::{CoordinatorGroupView, GroupKindView};
use crate::group_laws::without_members_facts;
use crate::heartbeat::{ClientIdentityView, HeartbeatRequestView, beat, spoken_id};
use crate::ordmap::{finite_listed, listing};
use crate::partitions::part_of;
use crate::requests::HeartbeatRequest;
use crate::subscription_laws::target_covers_what_is_asked_for;
use crate::tick_turn::{TickTurnView, tick_begun};
use crate::waiters::ParkedView;
use vstd::prelude::*;

verus! {

proof fn silent_listed<A: Assignor>(state: GroupStateView, config: NextGenConfig<A>, now: u64)
    requires
        state.members.dom().finite(),
    ensures
        forall|id: Seq<char>| #[trigger]
            listing::<String>(state.silent_members(now, config.session_timeout)).contains(id) <==> state.members.contains_key(id) && now
                >= state.members[id].last_seen + config.session_timeout,
{
    let s = state.silent_members(now, config.session_timeout);
    let list = listing::<String>(s);
    assert(s.subset_of(state.members.dom()));
    vstd::set_lib::lemma_set_subset_finite(state.members.dom(), s);
    finite_listed::<String>(s);
    assert forall|id: Seq<char>| #[trigger] list.contains(id) <==> s.contains(id) by {
        if list.contains(id) {
            let i = choose|i: int| 0 <= i < list.len() && list[i] == id;
            assert(s.contains(list[i]));
        }
    }
}

/// A tick takes out of a consumer group each member, whatever its identity, that was last heard of as
/// long ago as the session timeout or longer, and nobody else. Those that stay are as they were. Where
/// anybody goes the next epoch begins, and what is kept of those that went is written off; else
/// the group is as it was.
pub proof fn tick_takes_out_who_was_not_heard_of<A: Assignor>(
    g: CoordinatorGroupView,
    state: GroupStateView,
    parked: ParkedView,
    config: NextGenConfig<A>,
    input: ReconcileInputView,
    now: u64,
    now_ms: i64,
    id: Seq<char>,
)
    requires
        g.kind == GroupKindView::Consumer(state),
        state.members.dom().finite(),
        state.members.contains_key(id),
        state.group_epoch < i32::MAX,
    ensures
        ({
            let (after, _, turn) = tick_begun(g, parked, config, input, now, now_ms);
            let left = after.kind->Consumer_0;
            let gone = now >= state.members[id].last_seen + config.session_timeout;
            &&& after.kind is Consumer
            &&& left.members.contains_key(id) <==> !gone
            &&& !gone ==> left.members[id] == state.members[id]
            &&& forall|x: Seq<char>| #[trigger] left.members.contains_key(x) ==> state.members.contains_key(x)
            &&& gone ==> left.group_epoch == state.group_epoch + 1 && left.target_epoch == left.group_epoch && turn is Delta
            &&& gone ==> turn->Delta_pending.member_metadata.contains((id, None)) && turn->Delta_pending.target_per_member.contains((id, None))
                && turn->Delta_pending.current_per_member.contains((id, None))
            &&& (forall|x: Seq<char>| #[trigger]
                state.members.contains_key(x) ==> now < state.members[x].last_seen + config.session_timeout) ==> after == g && turn is Done
        }),
{
    let silent = listing::<String>(state.silent_members(now, config.session_timeout));
    silent_listed(state, config, now);
    without_members_facts(state, silent);
    let (after, _, turn) = tick_begun(g, parked, config, input, now, now_ms);
    if silent.len() == 0 {
        assert(!silent.contains(id));
    } else {
        assert(silent.contains(silent[0]));
        if now >= state.members[id].last_seen + config.session_timeout {
            assert(silent.contains(id));
            let p = crate::persistence::snapshot(after.kind->Consumer_0, seq![], true);
            all_gone_written(p, silent, id);
        }
        assert(reconciled(state.without_members(silent), config.assignors@, input).members == state.without_members(silent).members);
    }
}

proof fn all_gone_written(p: crate::pending_records::PendingRecordsView, ids: Seq<Seq<char>>, id: Seq<char>)
    requires
        ids.contains(id),
    ensures
        p.and_all_gone(ids).member_metadata.contains((id, None)),
        p.and_all_gone(ids).target_per_member.contains((id, None)),
        p.and_all_gone(ids).current_per_member.contains((id, None)),
    decreases ids.len(),
{
    let rest = ids.drop_last();
    let before = p.and_all_gone(rest);
    let after = p.and_all_gone(ids);
    if ids.last() == id {
        assert(after.member_metadata.last() == (id, None::<crate::records::MemberMetadataView>));
        assert(after.target_per_member.last() == (id, None::<crate::partitions::PartitionsView>));
        assert(after.current_per_member.last() == (id, None::<crate::records::CurrentAssignmentView>));
    } else {
        let i = choose|i: int| 0 <= i < ids.len() && ids[i] == id;
        assert(rest[i] == id);
        all_gone_written(p, rest, id);
        let a = choose|a: int| 0 <= a < before.member_metadata.len() && before.member_metadata[a] == (id, None::<crate::records::MemberMetadataView>);
        assert(after.member_metadata[a] == before.member_metadata[a]);
        let b = choose|b: int| 0 <= b < before.target_per_member.len() && before.target_per_member[b] == (id, None::<crate::partitions::PartitionsView>);
        assert(after.target_per_member[b] == before.target_per_member[b]);
        let c = choose|c: int|
            0 <= c < before.current_per_member.len() && before.current_per_member[c] == (id, None::<crate::records::CurrentAssignmentView>);
        assert(after.current_per_member[c] == before.current_per_member[c]);
    }
}

/// What a member had that a tick takes out is given to those that stay: of each topic that one of
/// them lists, every partition is then to be held by one of them.
pub proof fn partitions_pass_to_who_stays(
    g: CoordinatorGroupView,
    state: GroupStateView,
    parked: ParkedView,
    config: NextGenConfig<UniformAssignor>,
    input: ReconcileInputView,
    now: u64,
    now_ms: i64,
    gone: Seq<char>,
    stays: Seq<char>,
    name: Seq<char>,
    p: i32,
)
    requires
        g.kind == GroupKindView::Consumer(state),
        keyed(state),
        state.members.dom().finite(),
        input.topic_id_by_name.dom().finite(),
        state.group_epoch < i32::MAX,
        state.members.contains_key(gone),
        now >= state.members[gone].last_seen + config.session_timeout,
        state.members.contains_key(stays),
        now < state.members[stays].last_seen + config.session_timeout,
        state.members[stays].subscribed_topic_names.contains(name),
        input.topic_id_by_name.contains_key(name),
        input.topics.partitions_per_topic.contains_key(input.topic_id_by_name[name]),
        0 <= p < input.topics.partitions_per_topic[input.topic_id_by_name[name]],
    ensures
        ({
            let left = tick_begun(g, parked, config, input, now, now_ms).0.kind->Consumer_0;
            exists|x: Seq<char>|
                #![trigger left.target.contains_key(x)]
                left.members.contains_key(x) && now < state.members[x].last_seen + config.session_timeout && left.target.contains_key(x) && part_of(
                    left.target[x],
                    input.topic_id_by_name[name],
                    p,
                )
        }),
{
    let silent = listing::<String>(state.silent_members(now, config.session_timeout));
    silent_listed(state, config, now);
    without_members_facts(state, silent);
    assert(silent.contains(gone));
    let rest = state.without_members(silent);
    assert(rest.members.dom().subset_of(state.members.dom())) by {
        assert forall|x: Seq<char>| #[trigger] rest.members.dom().contains(x) implies state.members.dom().contains(x) by {
            assert(rest.members.contains_key(x));
        }
    }
    vstd::set_lib::lemma_set_subset_finite(state.members.dom(), rest.members.dom());
    assert(!silent.contains(stays));
    assert(rest.members.contains_key(stays));
    assert(keyed(rest)) by {
        assert forall|x: Seq<char>| #[trigger] rest.members.contains_key(x) implies rest.members[x].member_id == x by {
            assert(state.members.contains_key(x));
        }
    }
    target_covers_what_is_asked_for(rest, config.assignors@, input, stays, name, p);
    let left = reconciled(rest, config.assignors@, input);
    assert(left == tick_begun(g, parked, config, input, now, now_ms).0.kind->Consumer_0);
    let t = input.topic_id_by_name[name];
    let x = choose|x: Seq<char>|
        #![trigger left.target.contains_key(x)]
        rest.members.contains_key(x) && left.target.contains_key(x) && part_of(left.target[x], t, p) && forall|y: Seq<char>| #[trigger]
            left.target.contains_key(y) && part_of(left.target[y], t, p) ==> y == x;
    assert(left.members.contains_key(x));
    assert(!silent.contains(x));
}

/// A heartbeat that is answered without error keeps its member in a consumer group for the session
/// timeout from then on, and no longer.
pub proof fn heartbeat_keeps_a_member_for_its_session<A: Assignor>(
    state: GroupStateView,
    config: NextGenConfig<A>,
    input: ReconcileInputView,
    req: HeartbeatRequestView,
    minted: Seq<char>,
    client: ClientIdentityView,
    heard: u64,
    authorized: Set<Seq<char>>,
    g: CoordinatorGroupView,
    parked: ParkedView,
    now: u64,
    now_ms: i64,
)
    requires
        state.members.dom().finite(),
        req.member_epoch >= 0,
        beat(state, config, input, req, minted, client, heard, authorized).1.response.error_code == codes::NONE,
        beat(state, config, input, req, minted, client, heard, authorized).0.members.contains_key(spoken_id(req, minted)),
        g.kind == GroupKindView::Consumer(beat(state, config, input, req, minted, client, heard, authorized).0),
        beat(state, config, input, req, minted, client, heard, authorized).0.group_epoch < i32::MAX,
    ensures
        tick_begun(g, parked, config, input, now, now_ms).0.kind->Consumer_0.members.contains_key(spoken_id(req, minted)) <==> now < heard
            + config.session_timeout,
{
    let id = spoken_id(req, minted);
    let after = beat(state, config, input, req, minted, client, heard, authorized).0;
    assert(after.members.dom().finite());
    assert(after.members[id].last_seen == heard);
    tick_takes_out_who_was_not_heard_of(g, after, parked, config, input, now, now_ms, id);
}

/// A tick takes out of a classic group each member that does not wait in `JoinGroup` and was last heard
/// of as long ago as its own session timeout or longer, and nobody else; and it lets go of each
/// awaited id whose time has come. (A group whose generations are used up stays as it is.)
pub proof fn tick_ends_the_sessions_that_ran_out<A: Assignor>(
    g: CoordinatorGroupView,
    state: ClassicGroupView,
    parked: ParkedView,
    config: NextGenConfig<A>,
    input: ReconcileInputView,
    now: u64,
    now_ms: i64,
    id: Seq<char>,
)
    requires
        g.kind == GroupKindView::Classic(state),
        sound(state),
        state.generation_id < i32::MAX,
    ensures
        ({
            let after = tick_begun(g, parked, config, input, now, now_ms).0;
            let left = after.kind->Classic_0;
            &&& after.kind is Classic
            &&& left.members.contains_key(id) <==> state.members.contains_key(id) && (state.joined_this_round.contains(id) || now
                < state.members[id].last_heartbeat + state.members[id].session_timeout)
            &&& left.pending_members.contains_key(id) <==> state.pending_members.contains_key(id) && now < state.pending_members[id]
        }),
{
    let delay = config.classic_initial_rebalance_delay;
    let h = state.expired(now, delay);
    expiry_keeps_sound(state, now, delay);
    let dead = listing::<String>(state.dead_members(now));
    let a = ClassicGroupView {
        pending_members: Map::new(
            |id: Seq<char>| state.pending_members.contains_key(id) && state.pending_members[id] > now,
            |id: Seq<char>| state.pending_members[id],
        ),
        ..state
    };
    pending_without(a, dead);
    assert(state.dead_members(now).subset_of(state.members.dom()));
    vstd::set_lib::lemma_set_subset_finite(state.members.dom(), state.dead_members(now));
    finite_listed::<String>(state.dead_members(now));
    assert forall|x: Seq<char>| dead.contains(x) implies !(#[trigger] a.pending_members.contains_key(x)) by {
        let i = choose|i: int| 0 <= i < dead.len() && dead[i] == x;
        assert(state.dead_members(now).contains(dead[i]));
    }
    assert(h.members.contains_key(id) <==> state.members.contains_key(id) && !state.dead_members(now).contains(id));
    if dead.len() > 0 && h.members != Map::<Seq<char>, crate::classic_state::MemberView>::empty() && crate::waiters::ends_early(h) {
        let k = crate::classic_join::completing(h, now).0;
        assert(crate::classic_join::gathered(h).members =~= h.members);
        assert(k.members.dom() =~= h.members.dom());
        assert(k.members.contains_key(id) <==> h.members.contains_key(id));
    }
}

proof fn pending_without(g: ClassicGroupView, ids: Seq<Seq<char>>)
    ensures
        forall|x: Seq<char>| #[trigger]
            g.without_members(ids).pending_members.contains_key(x) <==> g.pending_members.contains_key(x) && !ids.contains(x),
    decreases ids.len(),
{
    if ids.len() > 0 {
        let front = ids.drop_last();
        pending_without(g, front);
        assert forall|x: Seq<char>| #[trigger]
            g.without_members(ids).pending_members.contains_key(x) <==> g.pending_members.contains_key(x) && !ids.contains(x) by {
            if front.contains(x) {
                let i = choose|i: int| 0 <= i < front.len() && front[i] == x;
                assert(ids[i] == x);
            }
            if ids.contains(x) && x != ids.last() {
                let i = choose|i: int| 0 <= i < ids.len() && ids[i] == x;
                assert(front[i] == x);
            }
            assert(ids[ids.len() - 1] == ids.last());
        }
    }
}

/// A heartbeat that a classic group lets through keeps its member for the member's own session timeout
/// from then on; one that it does not let through changes nothing.
pub proof fn classic_heartbeat_keeps_a_member_for_its_session<A: Assignor>(
    state: ClassicGroupView,
    req: HeartbeatRequest,
    heard: u64,
    g: CoordinatorGroupView,
    parked: ParkedView,
    config: NextGenConfig<A>,
    input: ReconcileInputView,
    now: u64,
    now_ms: i64,
)
    requires
        sound(state),
        state.generation_id < i32::MAX,
        !state.joined_this_round.contains(req.member_id@),
        g.kind == GroupKindView::Classic(beating(state, req, heard).0),
    ensures
        ({
            let (after, code) = beating(state, req, heard);
            let left = tick_begun(g, parked, config, input, now, now_ms).0.kind->Classic_0;
            let id = req.member_id@;
            &&& code == codes::NONE || code == codes::REBALANCE_IN_PROGRESS ==> (left.members.contains_key(id) <==> now < heard
                + state.members[id].session_timeout)
            &&& code != codes::NONE && code != codes::REBALANCE_IN_PROGRESS ==> after == state
        }),
{
    let after = beating(state, req, heard).0;
    crate::classic_laws::heartbeat_keeps_sound(state, req, heard);
    assert(after.generation_id == state.generation_id);
    tick_ends_the_sessions_that_ran_out(g, after, parked, config, input, now, now_ms, req.member_id@);
}

} // verus!
