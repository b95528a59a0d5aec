//! What always holds of classic groups.

use crate::classic_join::{
    CompleteError, CompletionView, FIRST_KNOWN_MEMBER_ID_VERSION, JoinActionView, JoinContext, accepts, completing, gathered, gathering, joining, left_behind,
    new_member, plain, rebalance_timeout_of, refusal, session_timeout_of,
};
use crate::classic_state::{ClassicGroupView, GroupState, MemberView, candidate, common, elected, first_of, later, selected_protocol, supports};
use crate::classic_sync::{SyncActionView, beating, leaver, leaves, leaving, supplied, sync_check, sync_result, syncing};
use crate::codes;
use crate::ids::member_id_of;
use crate::ordmap::{finite_listed, listing};
use crate::replay::fresh_classic;
use crate::requests::{
    HeartbeatRequest, JoinGroupRequestView, JoinResultView, LeaveGroupRequest, SyncGroupRequest, SyncResultView, leave_identities,
    sync_error,
};
use crate::waiters::{ParkedView, RepliesView, all_joined_answers, all_synced, ended_round, turned_away};
use vstd::prelude::*;

verus! {

/// What holds of every classic group: members stand under their own ids; a static identity is that
/// of the one member that holds it; only members wait in `JoinGroup`; an id that is still to join is
/// no member; the leader of a generation is a member; and an empty group has no members.
pub open spec fn sound(g: ClassicGroupView) -> bool {
    &&& g.members.dom().finite()
    &&& forall|id: Seq<char>| #[trigger] g.members.contains_key(id) ==> g.members[id].id == id
    &&& forall|i: Seq<char>| #[trigger]
        g.static_members.contains_key(i) ==> g.members.contains_key(g.static_members[i]) && g.members[g.static_members[i]].group_instance_id == Some(i)
    &&& forall|id: Seq<char>| #[trigger]
        g.members.contains_key(id) && g.members[id].group_instance_id is Some ==> g.pinned(g.members[id].group_instance_id->0) == Some(id)
    &&& forall|id: Seq<char>| #[trigger] g.joined_this_round.contains(id) ==> g.members.contains_key(id)
    &&& forall|id: Seq<char>| #[trigger] g.pending_members.contains_key(id) ==> !g.members.contains_key(id)
    &&& led(g)
    &&& g.state == GroupState::Empty ==> g.members == Map::<Seq<char>, MemberView>::empty()
}

/// Whether a generation that has begun is led by a member.
pub open spec fn led(g: ClassicGroupView) -> bool {
    g.state == GroupState::CompletingRebalance || g.state == GroupState::Stable ==> g.leader_id is Some && g.members.contains_key(g.leader_id->0)
}

/// A group starts sound.
pub proof fn new_group_is_sound(group_id: Seq<char>)
    ensures
        sound(fresh_classic(group_id)),
{
}

proof fn preparing_sound(g: ClassicGroupView, delay: u64, now: u64)
    requires
        sound(g),
    ensures
        sound(g.preparing(delay, now)),
        g.preparing(delay, now).generation_id == g.generation_id,
{
}

/// The first of the members is one.
pub(crate) proof fn first_of_member(members: Map<Seq<char>, MemberView>)
    requires
        members.dom().finite(),
        members != Map::<Seq<char>, MemberView>::empty(),
    ensures
        first_of(members.dom()) is Some,
        members.contains_key(first_of(members.dom())->0),
{
    let s = members.dom();
    finite_listed::<String>(s);
    let list = listing::<String>(s);
    if s == Set::<Seq<char>>::empty() {
        assert(members =~= Map::empty());
    }
    let x = choose|x: Seq<char>| s.contains(x);
    assert(exists|x: Seq<char>| s.contains(x)) by {
        if forall|x: Seq<char>| !s.contains(x) {
            assert(s =~= Set::empty());
        }
    }
    assert(list.contains(x));
    assert(s.contains(list[0]));
}

proof fn without_sound(g: ClassicGroupView, id: Seq<char>)
    requires
        sound(g),
    ensures
        sound(g.without_member(id)),
        g.without_member(id).members == g.members.remove(id),
        g.without_member(id).generation_id == g.generation_id,
{
    let members = g.members.remove(id);
    let h = g.without_member(id);
    if members != Map::<Seq<char>, MemberView>::empty() {
        first_of_member(members);
    }
    if !g.members.contains_key(id) {
        assert(members =~= g.members);
    }
    assert forall|x: Seq<char>| #[trigger] h.members.contains_key(x) && h.members[x].group_instance_id is Some implies h.pinned(
        h.members[x].group_instance_id->0,
    ) == Some(x) by {
        assert(g.members.contains_key(x));
    }
    assert(sound(h));
}

proof fn without_all_sound(g: ClassicGroupView, ids: Seq<Seq<char>>)
    requires
        sound(g),
    ensures
        sound(g.without_members(ids)),
        g.without_members(ids).generation_id == g.generation_id,
    decreases ids.len(),
{
    if ids.len() > 0 {
        without_all_sound(g, ids.drop_last());
        without_sound(g.without_members(ids.drop_last()), ids.last());
    }
}

proof fn gathering_sound(g: ClassicGroupView, id: Seq<char>, ctx: JoinContext)
    requires
        sound(ClassicGroupView { state: GroupState::PreparingRebalance, ..g }),
        g.members.contains_key(id),
    ensures
        sound(gathering(g, id, ctx).0),
        gathering(g, id, ctx).0.generation_id == g.generation_id,
        gathering(g, id, ctx).0.members == g.members,
        gathering(g, id, ctx).0.joined_this_round.contains(id),
{
    let a = ClassicGroupView { state: GroupState::PreparingRebalance, ..g };
    let h = gathering(g, id, ctx).0;
    assert forall|x: Seq<char>| #[trigger] h.joined_this_round.contains(x) implies h.members.contains_key(x) by {
        if x != id {
            assert(a.joined_this_round.contains(x));
        }
    }
    assert forall|i: Seq<char>| #[trigger] h.static_members.contains_key(i) implies h.members.contains_key(h.static_members[i])
        && h.members[h.static_members[i]].group_instance_id == Some(i) by {
        assert(a.static_members.contains_key(i));
    }
    assert forall|x: Seq<char>| #[trigger] h.members.contains_key(x) && h.members[x].group_instance_id is Some implies h.pinned(
        h.members[x].group_instance_id->0,
    ) == Some(x) by {
        assert(a.members.contains_key(x));
    }
    assert forall|x: Seq<char>| #[trigger] h.pending_members.contains_key(x) implies !h.members.contains_key(x) by {
        assert(a.pending_members.contains_key(x));
    }
    assert forall|x: Seq<char>| #[trigger] h.members.contains_key(x) implies h.members[x].id == x by {
        assert(a.members.contains_key(x));
    }
}

proof fn joining_sound(g: ClassicGroupView, m: MemberView, protocol_type: Seq<char>)
    requires
        sound(g),
        !g.members.contains_key(m.id),
        m.group_instance_id is Some ==> g.pinned(m.group_instance_id->0) is None,
    ensures
        sound(ClassicGroupView { state: GroupState::PreparingRebalance, ..g.with_joining(m, protocol_type) }),
{
    let h = ClassicGroupView { state: GroupState::PreparingRebalance, ..g.with_joining(m, protocol_type) };
    assert forall|x: Seq<char>| #[trigger] h.members.contains_key(x) && h.members[x].group_instance_id is Some implies h.pinned(
        h.members[x].group_instance_id->0,
    ) == Some(x) by {
        if x != m.id {
            assert(g.members.contains_key(x));
        }
    }
    assert forall|i: Seq<char>| #[trigger] h.static_members.contains_key(i) implies h.members.contains_key(h.static_members[i])
        && h.members[h.static_members[i]].group_instance_id == Some(i) by {
        if m.group_instance_id != Some(i) {
            assert(g.static_members.contains_key(i));
        }
    }
}

proof fn updated_sound(g: ClassicGroupView, id: Seq<char>, req: JoinGroupRequestView)
    requires
        sound(g),
    ensures
        sound(g.with_updated(id, req.protocols, rebalance_timeout_of(req), session_timeout_of(req))),
{
    let h = g.with_updated(id, req.protocols, rebalance_timeout_of(req), session_timeout_of(req));
    if g.members.contains_key(id) {
        assert(h.members.dom() =~= g.members.dom());
        assert forall|x: Seq<char>| #[trigger] h.members.contains_key(x) implies h.members[x].id == g.members[x].id && h.members[x].group_instance_id
            == g.members[x].group_instance_id && g.members.contains_key(x) by {}
        if g.state == GroupState::Empty {
            assert(!g.members.contains_key(id));
        }
    }
}

proof fn refreshed_sound(g: ClassicGroupView, id: Seq<char>, now: u64)
    requires
        sound(g),
    ensures
        sound(g.refreshed(id, now)),
{
    let h = g.refreshed(id, now);
    if g.members.contains_key(id) {
        assert(h.members.dom() =~= g.members.dom());
        assert forall|x: Seq<char>| #[trigger] h.members.contains_key(x) implies h.members[x].id == g.members[x].id && h.members[x].group_instance_id
            == g.members[x].group_instance_id && g.members.contains_key(x) by {}
        if g.state == GroupState::Empty {
            assert(!g.members.contains_key(id));
        }
    }
}

proof fn replaced_sound(g: ClassicGroupView, instance: Seq<char>, to: Seq<char>)
    requires
        sound(g),
        g.static_members.contains_key(instance),
        !g.members.contains_key(to),
        !g.pending_members.contains_key(to),
    ensures
        sound(g.with_replaced(instance, g.static_members[instance], to)),
{
    let from = g.static_members[instance];
    let h = g.with_replaced(instance, from, to);
    assert(g.members.contains_key(from));
    assert forall|x: Seq<char>| #[trigger] h.members.contains_key(x) && h.members[x].group_instance_id is Some implies h.pinned(
        h.members[x].group_instance_id->0,
    ) == Some(x) by {
        if x != to {
            assert(g.members.contains_key(x));
            assert(g.members[x].group_instance_id != Some(instance));
        }
    }
    assert forall|i: Seq<char>| #[trigger] h.static_members.contains_key(i) implies h.members.contains_key(h.static_members[i])
        && h.members[h.static_members[i]].group_instance_id == Some(i) by {
        if i != instance {
            assert(g.static_members.contains_key(i));
        }
    }
    if g.state == GroupState::Empty {
        assert(!g.members.contains_key(from));
    }
}

/// Whether the id that a request without one would be given is nobody's yet.
pub open spec fn fresh_for(g: ClassicGroupView, req: JoinGroupRequestView, ctx: JoinContext, suffix: Seq<char>) -> bool {
    let id = member_id_of(
        match req.group_instance_id {
            Some(i) => i,
            None => ctx.client_id@,
        },
        suffix,
    );
    !g.members.contains_key(id) && !g.pending_members.contains_key(id)
}

/// A `JoinGroup` keeps a group sound, and begins no generation by itself. (The id it hands out is
/// nobody's yet.)
pub proof fn join_keeps_sound(g: ClassicGroupView, req: JoinGroupRequestView, ctx: JoinContext, suffix: Seq<char>)
    requires
        sound(g),
        fresh_for(g, req, ctx, suffix),
    ensures
        sound(joining(g, req, ctx, suffix).group),
        joining(g, req, ctx, suffix).group.generation_id == g.generation_id,
{
    let step = joining(g, req, ctx, suffix);
    without_sound(g, req.member_id);
    if step.group != g.without_member(req.member_id) {
        let prefix = match req.group_instance_id {
            Some(i) => i,
            None => ctx.client_id@,
        };
        let id = if req.member_id.len() == 0 {
            member_id_of(prefix, suffix)
        } else {
            req.member_id
        };
        let noted = ClassicGroupView {
            new_member_added: g.new_member_added || (g.state == GroupState::PreparingRebalance && g.rebalance_from_empty),
            ..g
        };
        assert(sound(noted));
        let m = new_member(req, id, ctx);
        if !g.members.contains_key(id) && (req.group_instance_id is None || g.pinned(req.group_instance_id->0) is None) {
            joining_sound(noted, m, req.protocol_type);
            gathering_sound(noted.with_joining(m, req.protocol_type), id, ctx);
        }
        if req.group_instance_id is Some && g.pinned(req.group_instance_id->0) is Some && req.member_id.len() == 0 {
            let i = req.group_instance_id->0;
            replaced_sound(g, i, id);
            let a = g.with_replaced(i, g.static_members[i], id);
            refreshed_sound(a, id, ctx.now);
            updated_sound(a.refreshed(id, ctx.now), id, req);
            let h = a.refreshed(id, ctx.now).with_updated(id, req.protocols, rebalance_timeout_of(req), session_timeout_of(req));
            assert(g.members.contains_key(g.static_members[i]));
            assert(h.members.contains_key(id));
            assert(sound(ClassicGroupView { state: GroupState::PreparingRebalance, ..h }));
            gathering_sound(h, id, ctx);
        }
        if g.members.contains_key(req.member_id) {
            updated_sound(g, req.member_id, req);
            let h = g.with_updated(req.member_id, req.protocols, rebalance_timeout_of(req), session_timeout_of(req));
            assert(sound(ClassicGroupView { state: GroupState::PreparingRebalance, ..h }));
            gathering_sound(h, req.member_id, ctx);
        }
    }
}

/// Whoever is let in is a member, and waits in `JoinGroup` or has its answer.
pub proof fn joined_is_member(g: ClassicGroupView, req: JoinGroupRequestView, ctx: JoinContext, suffix: Seq<char>)
    requires
        sound(g),
        fresh_for(g, req, ctx, suffix),
        !(joining(g, req, ctx, suffix).outcome.action is Immediate),
    ensures
        ({
            let step = joining(g, req, ctx, suffix);
            &&& step.group.members.contains_key(step.member_id)
            &&& !(step.outcome.action is PersistThenReply) ==> step.group.joined_this_round.contains(step.member_id)
        }),
{
    if req.member_id.len() == 0 && req.group_instance_id is Some && g.pinned(req.group_instance_id->0) is Some {
        assert(g.members.contains_key(g.static_members[req.group_instance_id->0]));
    }
}

/// A `JoinGroup` that is refused changes nothing, unless it is told its new id, is one too many, or
/// speaks for a static identity.
pub proof fn refused_join_changes_nothing(g: ClassicGroupView, req: JoinGroupRequestView, ctx: JoinContext, suffix: Seq<char>, answer: JoinResultView)
    requires
        joining(g, req, ctx, suffix).outcome.action == JoinActionView::Immediate(answer),
        joining(g, req, ctx, suffix).outcome.fenced_member is None,
        answer.error_code != codes::MEMBER_ID_REQUIRED,
        answer.error_code != codes::GROUP_MAX_SIZE_REACHED,
    ensures
        joining(g, req, ctx, suffix).group == g,
{
}

/// The three steps by which a member without an id comes in. The first request is told an id that
/// begins with the client's, which is then awaited and is nobody's yet. Another request under an id
/// that nobody was told is refused and changes nothing. The request under the told id lets its
/// member in, and nobody else: it waits in the open round, and its id is no longer awaited.
pub proof fn told_id_joins(
    g: ClassicGroupView,
    first: JoinGroupRequestView,
    first_ctx: JoinContext,
    first_suffix: Seq<char>,
    stray: JoinGroupRequestView,
    stray_ctx: JoinContext,
    stray_suffix: Seq<char>,
    second: JoinGroupRequestView,
    second_ctx: JoinContext,
    second_suffix: Seq<char>,
)
    requires
        fresh_for(g, first, first_ctx, first_suffix),
        first.member_id.len() == 0,
        first.group_instance_id is None,
        first_ctx.version >= FIRST_KNOWN_MEMBER_ID_VERSION,
        accepts(g, first.member_id, first_ctx.max_size as int),
        g.supports_protocols(first.protocol_type, first.protocols),
        stray.member_id.len() > 0,
        stray.member_id != member_id_of(first_ctx.client_id@, first_suffix),
        !g.members.contains_key(stray.member_id),
        !g.pending_members.contains_key(stray.member_id),
        stray.group_instance_id is None,
        accepts(g, stray.member_id, stray_ctx.max_size as int),
        g.supports_protocols(stray.protocol_type, stray.protocols),
        second.member_id == member_id_of(first_ctx.client_id@, first_suffix),
        second.group_instance_id is None,
        accepts(g, second.member_id, second_ctx.max_size as int),
        g.supports_protocols(second.protocol_type, second.protocols),
    ensures
        ({
            let told = member_id_of(first_ctx.client_id@, first_suffix);
            let a = joining(g, first, first_ctx, first_suffix);
            let b = joining(a.group, stray, stray_ctx, stray_suffix);
            let c = joining(b.group, second, second_ctx, second_suffix);
            &&& (first_ctx.client_id@ + "-"@).is_prefix_of(told)
            &&& a.outcome == refusal(codes::MEMBER_ID_REQUIRED, told)
            &&& a.group == (ClassicGroupView {
                pending_members: g.pending_members.insert(told, later(first_ctx.now, session_timeout_of(first))),
                ..g
            })
            &&& b.outcome == refusal(codes::UNKNOWN_MEMBER_ID, stray.member_id)
            &&& b.group == a.group
            &&& c.outcome.fenced_member is None
            &&& c.outcome.action is Park || c.outcome.action is CompleteNow
            &&& g.state == GroupState::Empty ==> c.outcome.action is Park
            &&& c.member_id == told
            &&& c.group.state == GroupState::PreparingRebalance
            &&& c.group.members == g.members.insert(told, new_member(second, told, second_ctx))
            &&& c.group.joined_this_round.contains(told)
            &&& c.group.pending_members == g.pending_members
        }),
{
    let told = member_id_of(first_ctx.client_id@, first_suffix);
    reveal_strlit("-");
    assert(told.len() > 0);
    let a = joining(g, first, first_ctx, first_suffix);
    let b = joining(a.group, stray, stray_ctx, stray_suffix);
    let c = joining(b.group, second, second_ctx, second_suffix);
    assert(a.group.supports_protocols(stray.protocol_type, stray.protocols));
    assert(b.group == a.group);
    assert(b.group.supports_protocols(second.protocol_type, second.protocols));
    assert(g.pending_members.insert(told, later(first_ctx.now, session_timeout_of(first))).remove(told) =~= g.pending_members);
}

/// The first member of an empty group: told an id, then let in under it. It waits alone, and nothing
/// else is awaited.
pub proof fn told_id_joins_an_empty_group(
    g: ClassicGroupView,
    first: JoinGroupRequestView,
    first_ctx: JoinContext,
    first_suffix: Seq<char>,
    stray: JoinGroupRequestView,
    stray_ctx: JoinContext,
    stray_suffix: Seq<char>,
    second: JoinGroupRequestView,
    second_ctx: JoinContext,
    second_suffix: Seq<char>,
)
    requires
        g.state == GroupState::Empty,
        g.members == Map::<Seq<char>, MemberView>::empty(),
        g.pending_members == Map::<Seq<char>, u64>::empty(),
        first.member_id.len() == 0,
        first.group_instance_id is None,
        first_ctx.version >= FIRST_KNOWN_MEMBER_ID_VERSION,
        first.protocol_type.len() > 0,
        first.protocols.len() > 0,
        stray.member_id.len() > 0,
        stray.member_id != member_id_of(first_ctx.client_id@, first_suffix),
        stray.group_instance_id is None,
        stray.protocol_type.len() > 0,
        stray.protocols.len() > 0,
        second.member_id == member_id_of(first_ctx.client_id@, first_suffix),
        second.group_instance_id is None,
        second.protocol_type.len() > 0,
        second.protocols.len() > 0,
    ensures
        ({
            let told = member_id_of(first_ctx.client_id@, first_suffix);
            let a = joining(g, first, first_ctx, first_suffix);
            let b = joining(a.group, stray, stray_ctx, stray_suffix);
            let c = joining(b.group, second, second_ctx, second_suffix);
            &&& (first_ctx.client_id@ + "-"@).is_prefix_of(told)
            &&& a.outcome == refusal(codes::MEMBER_ID_REQUIRED, told)
            &&& a.group.members == Map::<Seq<char>, MemberView>::empty()
            &&& a.group.state == GroupState::Empty
            &&& b.outcome == refusal(codes::UNKNOWN_MEMBER_ID, stray.member_id)
            &&& b.group == a.group
            &&& c.outcome == plain(JoinActionView::Park)
            &&& c.group.members == Map::<Seq<char>, MemberView>::empty().insert(told, new_member(second, told, second_ctx))
            &&& c.group.members.dom() == Set::<Seq<char>>::empty().insert(told)
            &&& c.group.pending_members == Map::<Seq<char>, u64>::empty()
        }),
{
    told_id_joins(g, first, first_ctx, first_suffix, stray, stray_ctx, stray_suffix, second, second_ctx, second_suffix);
}

/// The end of a round keeps a group sound. It begins one generation, or none.
pub proof fn round_keeps_sound(g: ClassicGroupView, now: u64)
    requires
        sound(g),
    ensures
        sound(completing(g, now).0),
        ({
            let (h, result) = completing(g, now);
            h.generation_id == if result is Ok && (result->Ok_0 is Generation || result->Ok_0 is Emptied) {
                g.generation_id + 1
            } else {
                g.generation_id as int
            }
        }),
{
    let h = gathered(g);
    assert(h.members.dom().subset_of(g.members.dom()));
    vstd::set_lib::lemma_set_subset_finite(g.members.dom(), h.members.dom());
    if g.state == GroupState::PreparingRebalance {
        assert forall|id: Seq<char>| #[trigger] h.joined_this_round.contains(id) implies h.members.contains_key(id) by {}
        assert forall|i: Seq<char>| #[trigger] h.static_members.contains_key(i) implies h.members.contains_key(h.static_members[i])
            && h.members[h.static_members[i]].group_instance_id == Some(i) by {
            assert(g.static_members.contains_key(i));
        }
        assert forall|x: Seq<char>| #[trigger] h.members.contains_key(x) && h.members[x].group_instance_id is Some implies h.pinned(
            h.members[x].group_instance_id->0,
        ) == Some(x) by {
            assert(g.members.contains_key(x));
        }
        assert(sound(h));
        let vote = selected_protocol(h.members);
        if h.joined_leader() is Some {
            joined_leader_is_member(h);
        }
        if h.joined_leader() is Some && vote is Some && g.generation_id < i32::MAX && h.members != Map::<Seq<char>, MemberView>::empty() {
            let k = completing(g, now).0;
            assert(k.members.dom() =~= h.members.dom());
            assert forall|x: Seq<char>| #[trigger] k.members.contains_key(x) implies k.members[x].id == h.members[x].id && k.members[x].group_instance_id
                == h.members[x].group_instance_id && h.members.contains_key(x) by {}
            assert(sound(k));
        }
    }
}

/// A round that nobody waits in, in a group without static members, leaves nobody: all the members
/// are removed, and the group is empty, without a leader, in the next generation.
pub proof fn abandoned_round_empties(g: ClassicGroupView, now: u64)
    requires
        g.state == GroupState::PreparingRebalance,
        g.joined_this_round == Set::<Seq<char>>::empty(),
        forall|id: Seq<char>| #[trigger] g.members.contains_key(id) ==> !g.members[id].is_static(),
        g.generation_id < i32::MAX,
    ensures
        ({
            let (h, result) = completing(g, now);
            &&& result == Ok::<CompletionView, CompleteError>(CompletionView::Emptied { removed: listing::<String>(g.members.dom()) })
            &&& h.state == GroupState::Empty
            &&& h.generation_id == g.generation_id + 1
            &&& h.leader_id is None
            &&& h.members == Map::<Seq<char>, MemberView>::empty()
        }),
{
    assert(left_behind(g) =~= g.members.dom());
    assert(gathered(g).members =~= Map::<Seq<char>, MemberView>::empty());
}

proof fn joined_leader_is_member(g: ClassicGroupView)
    requires
        g.members.dom().finite(),
        g.joined_leader() is Some,
    ensures
        g.joined_members().contains(g.joined_leader()->0),
{
    let s = g.joined_members();
    assert(s.subset_of(g.members.dom()));
    vstd::set_lib::lemma_set_subset_finite(g.members.dom(), s);
    finite_listed::<String>(s);
    if first_of(s) is Some {
        let list = listing::<String>(s);
        assert(exists|x: Seq<char>| s.contains(x)) by {
            if forall|x: Seq<char>| !s.contains(x) {
                assert(s =~= Set::empty());
            }
        }
        let x = choose|x: Seq<char>| s.contains(x);
        assert(list.contains(x));
        assert(s.contains(list[0]));
    }
}

/// A generation begins with everybody that waited for it, led by one of them, under a protocol that
/// every member supports; nobody that waited and nobody with a static identity is left behind.
pub proof fn generation_is_agreed(g: ClassicGroupView, now: u64)
    requires
        sound(g),
        completing(g, now).1 is Ok,
        completing(g, now).1->Ok_0 is Generation,
    ensures
        ({
            let h = completing(g, now).0;
            &&& h.state == GroupState::CompletingRebalance
            &&& h.leader_id is Some && g.joined_this_round.contains(h.leader_id->0) && h.members.contains_key(h.leader_id->0)
            &&& h.protocol_name is Some && common(h.members, h.protocol_name->0)
            &&& forall|id: Seq<char>| #[trigger]
                g.members.contains_key(id) ==> (h.members.contains_key(id) <==> g.joined_this_round.contains(id) || g.members[id].is_static())
        }),
{
    let h = gathered(g);
    assert(h.members.dom().subset_of(g.members.dom()));
    vstd::set_lib::lemma_set_subset_finite(g.members.dom(), h.members.dom());
    joined_leader_is_member(h);
    let name = selected_protocol(h.members)->0;
    assert(elected(h.members, name));
    assert(candidate(h.members, name));
    let k = completing(g, now).0;
    assert forall|id: Seq<char>| #[trigger] k.members.contains_key(id) implies supports(k.members[id].protocols, name) by {
        assert(h.members.contains_key(id));
    }
}

/// A `SyncGroup` keeps a group sound and its generation.
pub proof fn sync_keeps_sound(g: ClassicGroupView, req: SyncGroupRequest)
    requires
        sound(g),
    ensures
        sound(syncing(g, req).0),
        syncing(g, req).0.generation_id == g.generation_id,
{
    let h = syncing(g, req).0;
    if syncing(g, req).1 is LeaderInstalled {
        assert(h.members.dom() =~= g.members.dom());
        assert forall|x: Seq<char>| #[trigger] h.members.contains_key(x) implies h.members[x].id == g.members[x].id && h.members[x].group_instance_id
            == g.members[x].group_instance_id && g.members.contains_key(x) by {}
    }
}

/// What the leader assigns is what every member reads: at once where it waits, and later while the
/// generation lasts.
pub proof fn assignments_read_back(g: ClassicGroupView, leader: SyncGroupRequest, follower: SyncGroupRequest)
    requires
        syncing(g, leader).1 is LeaderInstalled,
        sync_check(syncing(g, leader).0, follower) is Ok,
    ensures
        ({
            let h = syncing(g, leader).0;
            let id = follower.member_id@;
            let read = SyncResultView {
                error_code: codes::NONE,
                assignment: supplied(leader.assignments@, id),
                protocol_type: g.protocol_type,
                protocol_name: g.protocol_name,
            };
            &&& syncing(h, follower) == (h, SyncActionView::Immediate(read))
            &&& sync_result(h, id, h.protocol_type, h.protocol_name) == read
        }),
{
}

/// A `SyncGroup` changes the group only where it is the leader's and installs the assignments.
pub proof fn only_the_leader_assigns(g: ClassicGroupView, req: SyncGroupRequest)
    ensures
        syncing(g, req).0 != g ==> g.leader_id == Some(req.member_id@) && g.state == GroupState::CompletingRebalance,
{
}

/// A `Heartbeat` keeps a group sound and its generation; one that is answered with an error other
/// than that a round gathers changes nothing.
pub proof fn heartbeat_keeps_sound(g: ClassicGroupView, req: HeartbeatRequest, now: u64)
    requires
        sound(g),
    ensures
        sound(beating(g, req, now).0),
        beating(g, req, now).0.generation_id == g.generation_id,
        beating(g, req, now).1 != codes::NONE && beating(g, req, now).1 != codes::REBALANCE_IN_PROGRESS ==> beating(g, req, now).0 == g,
{
    refreshed_sound(g, req.member_id@, now);
}

/// A member that was heard of stays for a whole session; one that waits in `JoinGroup` stays
/// whatever time passes.
pub proof fn heard_member_stays(g: ClassicGroupView, req: HeartbeatRequest, now: u64, then: u64)
    requires
        beating(g, req, now).1 == codes::NONE,
        then < now + g.members[req.member_id@].session_timeout,
    ensures
        !beating(g, req, now).0.dead_members(then).contains(req.member_id@),
        forall|id: Seq<char>| #[trigger] g.joined_this_round.contains(id) ==> !g.dead_members(then).contains(id),
{
}

proof fn leaves_sound(g: ClassicGroupView, idents: Seq<(Seq<char>, Option<Seq<char>>)>)
    requires
        sound(g),
    ensures
        sound(leaves(g, idents).group),
        leaves(g, idents).group.generation_id == g.generation_id,
        leaves(g, idents).group.members.dom().subset_of(g.members.dom()),
        !leaves(g, idents).any_removed ==> leaves(g, idents).group == g,
    decreases idents.len(),
{
    if idents.len() > 0 {
        let before = leaves(g, idents.drop_last());
        leaves_sound(g, idents.drop_last());
        let (id, instance) = idents.last();
        match leaver(before.group, id, instance) {
            Ok(gone) => {
                without_sound(before.group, gone);
            },
            Err(_) => {},
        }
    }
}

/// A `LeaveGroup` keeps a group sound, lets nobody in, and answers every identity that it names.
pub proof fn leave_keeps_sound(g: ClassicGroupView, req: LeaveGroupRequest, version: i16, now: u64)
    requires
        sound(g),
    ensures
        sound(leaving(g, req, version, now).0),
        leaving(g, req, version, now).0.generation_id == g.generation_id,
        leaving(g, req, version, now).0.members.dom().subset_of(g.members.dom()),
        leaving(g, req, version, now).1.len() == leave_identities(req, version).len(),
{
    leaves_sound(g, leave_identities(req, version));
    leaves_answered(g, leave_identities(req, version));
}

/// The identities of a `LeaveGroup` are dealt with one after the other: each is answered by what the
/// ones before it left of the group, and takes out whom it names and nobody else.
pub proof fn leave_goes_in_turn(g: ClassicGroupView, idents: Seq<(Seq<char>, Option<Seq<char>>)>, i: int)
    requires
        0 <= i < idents.len(),
    ensures
        ({
            let before = leaves(g, idents.take(i)).group;
            let after = leaves(g, idents.take(i + 1)).group;
            let (id, instance) = idents[i];
            let response = leaves(g, idents).responses[i];
            &&& response.member_id == id
            &&& response.group_instance_id == instance
            &&& match leaver(before, id, instance) {
                Ok(gone) => response.error_code == codes::NONE && after == before.without_member(gone),
                Err(code) => response.error_code == code && after == before,
            }
        }),
    decreases idents.len(),
{
    leaves_answered(g, idents.drop_last());
    if i < idents.len() - 1 {
        leave_goes_in_turn(g, idents.drop_last(), i);
        assert(idents.drop_last().take(i) =~= idents.take(i));
        assert(idents.drop_last().take(i + 1) =~= idents.take(i + 1));
    } else {
        assert(idents.take(i) =~= idents.drop_last());
        assert(idents.take(i + 1) =~= idents);
    }
}

proof fn leaves_answered(g: ClassicGroupView, idents: Seq<(Seq<char>, Option<Seq<char>>)>)
    ensures
        leaves(g, idents).responses.len() == idents.len(),
    decreases idents.len(),
{
    if idents.len() > 0 {
        leaves_answered(g, idents.drop_last());
    }
}

/// Whoever left is no member, and is told so from then on.
pub proof fn left_member_is_unknown(g: ClassicGroupView, id: Seq<char>, instance: Option<Seq<char>>)
    requires
        sound(g),
        leaver(g, id, instance) is Ok,
    ensures
        ({
            let gone = leaver(g, id, instance)->Ok_0;
            let h = g.without_member(gone);
            &&& !h.members.contains_key(gone)
            &&& h.validate_member(gone, instance) == Err::<(), i16>(codes::UNKNOWN_MEMBER_ID)
            &&& leaver(h, id, instance) == Err::<Seq<char>, i16>(codes::UNKNOWN_MEMBER_ID)
        }),
{
    let gone = leaver(g, id, instance)->Ok_0;
    without_sound(g, gone);
    let h = g.without_member(gone);
    if let Some(i) = instance {
        assert(g.static_members.contains_key(i) && g.static_members[i] == gone);
        assert(!h.static_members.contains_key(i));
    }
}

/// Dropping the members whose session ran out keeps a group sound and its generation; just those
/// are gone.
pub proof fn expiry_keeps_sound(g: ClassicGroupView, now: u64, delay: u64)
    requires
        sound(g),
    ensures
        sound(g.expired(now, delay)),
        g.expired(now, delay).generation_id == g.generation_id,
        forall|id: Seq<char>| #[trigger]
            g.expired(now, delay).members.contains_key(id) <==> g.members.contains_key(id) && !g.dead_members(now).contains(id),
{
    let s = g.dead_members(now);
    assert(s.subset_of(g.members.dom()));
    vstd::set_lib::lemma_set_subset_finite(g.members.dom(), s);
    finite_listed::<String>(s);
    let dead = listing::<String>(s);
    let a = ClassicGroupView {
        pending_members: Map::new(
            |id: Seq<char>| g.pending_members.contains_key(id) && g.pending_members[id] > now,
            |id: Seq<char>| g.pending_members[id],
        ),
        ..g
    };
    assert(sound(a));
    without_all_sound(a, dead);
    without_all_members(a, dead);
    assert forall|id: Seq<char>| s.contains(id) <==> dead.contains(id) by {
        if dead.contains(id) {
            let i = choose|i: int| 0 <= i < dead.len() && dead[i] == id;
            assert(s.contains(dead[i]));
        }
    }
    preparing_sound(a.without_members(dead), delay, now);
}

proof fn without_all_members(g: ClassicGroupView, ids: Seq<Seq<char>>)
    requires
        sound(g),
    ensures
        forall|id: Seq<char>| #[trigger] g.without_members(ids).members.contains_key(id) <==> g.members.contains_key(id) && !ids.contains(id),
    decreases ids.len(),
{
    if ids.len() > 0 {
        let front = ids.drop_last();
        without_all_members(g, front);
        without_all_sound(g, front);
        without_sound(g.without_members(front), ids.last());
        assert forall|id: Seq<char>| #[trigger] g.without_members(ids).members.contains_key(id) <==> g.members.contains_key(id) && !ids.contains(id) by {
            if front.contains(id) {
                let i = choose|i: int| 0 <= i < front.len() && front[i] == id;
                assert(ids[i] == id);
            }
            if ids.contains(id) && id != ids.last() {
                let i = choose|i: int| 0 <= i < ids.len() && ids[i] == id;
                assert(front[i] == id);
            }
            assert(ids[ids.len() - 1] == ids.last());
        }
    }
}

/// Once a static member is back under a new id, whoever still speaks under the old one is fenced.
pub proof fn replaced_id_is_fenced(g: ClassicGroupView, req: JoinGroupRequestView, ctx: JoinContext, suffix: Seq<char>)
    requires
        sound(g),
        fresh_for(g, req, ctx, suffix),
        joining(g, req, ctx, suffix).outcome.fenced_member is Some,
    ensures
        ({
            let step = joining(g, req, ctx, suffix);
            let from = step.outcome.fenced_member->0;
            &&& from != step.member_id
            &&& step.group.validate_member(from, req.group_instance_id) == Err::<(), i16>(codes::FENCED_INSTANCE_ID)
            &&& step.group.validate_member(step.member_id, req.group_instance_id) is Ok
        }),
{
    let i = req.group_instance_id->0;
    assert(g.members.contains_key(g.static_members[i]));
}

/// Whether `replies` holds an answer for `id`.
pub open spec fn answers_join(replies: RepliesView, id: Seq<char>) -> bool {
    exists|i: int| 0 <= i < replies.joins.len() && (#[trigger] replies.joins[i]).0 == id
}

/// Whether `replies` holds an answer for the `SyncGroup` of `id`.
pub open spec fn answers_sync(replies: RepliesView, id: Seq<char>) -> bool {
    exists|i: int| 0 <= i < replies.syncs.len() && (#[trigger] replies.syncs[i]).0 == id
}

proof fn turned_away_answers(parked: ParkedView, ids: Seq<Seq<char>>, code: i16, id: Seq<char>)
    ensures
        ({
            let (left, told) = turned_away(parked, ids, code);
            &&& left.joiners.subset_of(parked.joiners)
            &&& left.followers.subset_of(parked.followers)
            &&& answers_join(told, id) <==> parked.joiners.contains(id) && !left.joiners.contains(id)
        }),
    decreases ids.len(),
{
    if ids.len() > 0 {
        let (before, said) = turned_away(parked, ids.drop_last(), code);
        turned_away_answers(parked, ids.drop_last(), code, id);
        let (left, told) = turned_away(parked, ids, code);
        if answers_join(said, id) {
            let i = choose|i: int| 0 <= i < said.joins.len() && (#[trigger] said.joins[i]).0 == id;
            assert(told.joins[i].0 == id);
        }
        if before.joiners.contains(ids.last()) {
            assert(told.joins[told.joins.len() - 1].0 == ids.last());
        }
        if answers_join(told, id) {
            let i = choose|i: int| 0 <= i < told.joins.len() && (#[trigger] told.joins[i]).0 == id;
            if i < said.joins.len() {
                assert(said.joins[i].0 == id);
            }
        }
    }
}

/// The end of a round leaves nobody hanging: every `JoinGroup` that waited is answered or goes on
/// waiting, not both; every `SyncGroup` is answered.
pub proof fn round_answers_everybody(g: ClassicGroupView, parked: ParkedView, now: u64, id: Seq<char>)
    requires
        parked.joiners.finite(),
        parked.followers.finite(),
    ensures
        ({
            let r = ended_round(g, parked, now);
            &&& answers_join(r.replies, id) <==> parked.joiners.contains(id) && !r.parked.joiners.contains(id)
            &&& r.parked.joiners.subset_of(parked.joiners)
            &&& parked.followers.contains(id) ==> answers_sync(r.replies, id)
            &&& r.parked.followers == Set::<Seq<char>>::empty()
        }),
{
    let r = ended_round(g, parked, now);
    let (h, result) = completing(g, now);
    finite_listed::<String>(parked.followers);
    let follow = listing::<String>(parked.followers);
    let syncs = all_synced(parked.followers, sync_error(codes::REBALANCE_IN_PROGRESS));
    if parked.followers.contains(id) {
        assert(follow.contains(id));
        let i = choose|i: int| 0 <= i < follow.len() && follow[i] == id;
        assert(syncs[i].0 == id);
        assert(r.replies.syncs[i] == syncs[i]);
    }
    let woken = ParkedView { followers: Set::empty(), ..parked };
    match result {
        Err(_) => {
            all_answered(woken.joiners, h, true, id);
            assert(r.replies.joins == all_joined_answers(parked.joiners, h, true));
            assert(answers_join(r.replies, id) <==> parked.joiners.contains(id));
        },
        Ok(CompletionView::NotPreparing) => {
            all_answered(woken.joiners, h, false, id);
            assert(r.replies.joins == all_joined_answers(parked.joiners, h, false));
            assert(answers_join(r.replies, id) <==> parked.joiners.contains(id));
        },
        Ok(CompletionView::Postponed { removed }) => {
            turned_away_answers(woken, removed, codes::UNKNOWN_MEMBER_ID, id);
            let told = turned_away(woken, removed, codes::UNKNOWN_MEMBER_ID).1;
            assert(r.replies.joins =~= told.joins);
            assert(answers_join(r.replies, id) <==> answers_join(told, id));
            assert(r.parked.followers =~= Set::empty());
        },
        Ok(CompletionView::Generation { removed }) => {
            rest_answered(woken, removed, h, id, r.replies);
            turned_away_answers(woken, removed, codes::UNKNOWN_MEMBER_ID, id);
            assert(r.parked.followers =~= Set::empty());
        },
        Ok(CompletionView::Emptied { removed }) => {
            rest_answered(woken, removed, h, id, r.replies);
            turned_away_answers(woken, removed, codes::UNKNOWN_MEMBER_ID, id);
            assert(r.parked.followers =~= Set::empty());
        },
    }
}

proof fn all_answered(ids: Set<Seq<char>>, g: ClassicGroupView, failed: bool, id: Seq<char>)
    requires
        ids.finite(),
    ensures
        (exists|i: int| 0 <= i < all_joined_answers(ids, g, failed).len() && (#[trigger] all_joined_answers(ids, g, failed)[i]).0 == id) <==> ids.contains(
            id,
        ),
{
    finite_listed::<String>(ids);
    let list = listing::<String>(ids);
    let all = all_joined_answers(ids, g, failed);
    if ids.contains(id) {
        assert(list.contains(id));
        let i = choose|i: int| 0 <= i < list.len() && list[i] == id;
        assert(all[i].0 == id);
    }
    if exists|i: int| 0 <= i < all.len() && (#[trigger] all[i]).0 == id {
        let i = choose|i: int| 0 <= i < all.len() && (#[trigger] all[i]).0 == id;
        assert(ids.contains(list[i]));
    }
}

proof fn rest_answered(woken: ParkedView, removed: Seq<Seq<char>>, h: ClassicGroupView, id: Seq<char>, replies: RepliesView)
    requires
        woken.joiners.finite(),
        replies.joins == turned_away(woken, removed, codes::UNKNOWN_MEMBER_ID).1.joins + all_joined_answers(
            turned_away(woken, removed, codes::UNKNOWN_MEMBER_ID).0.joiners,
            h,
            false,
        ) || replies.joins == seq![] + turned_away(woken, removed, codes::UNKNOWN_MEMBER_ID).1.joins + all_joined_answers(
            turned_away(woken, removed, codes::UNKNOWN_MEMBER_ID).0.joiners,
            h,
            false,
        ),
    ensures
        answers_join(replies, id) <==> woken.joiners.contains(id),
{
    let (left, told) = turned_away(woken, removed, codes::UNKNOWN_MEMBER_ID);
    let rest = all_joined_answers(left.joiners, h, false);
    turned_away_answers(woken, removed, codes::UNKNOWN_MEMBER_ID, id);
    vstd::set_lib::lemma_set_subset_finite(woken.joiners, left.joiners);
    all_answered(left.joiners, h, false, id);
    let all = told.joins + rest;
    assert(replies.joins =~= all);
    if answers_join(told, id) {
        let i = choose|i: int| 0 <= i < told.joins.len() && (#[trigger] told.joins[i]).0 == id;
        assert(replies.joins[i].0 == id);
    }
    if left.joiners.contains(id) {
        let i = choose|i: int| 0 <= i < rest.len() && (#[trigger] rest[i]).0 == id;
        assert(replies.joins[told.joins.len() + i].0 == id);
    }
    if answers_join(replies, id) {
        let i = choose|i: int| 0 <= i < replies.joins.len() && (#[trigger] replies.joins[i]).0 == id;
        if i < told.joins.len() {
            assert(told.joins[i].0 == id);
        } else {
            assert(rest[i - told.joins.len()].0 == id);
        }
    }
}

} // verus!
