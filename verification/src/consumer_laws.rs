//! What holds of every consumer group, whatever heartbeats it gets.

use crate::assignor::{Assignor, UniformAssignor, available, listed_member, lone_subscriber_gets_all, subscribes};
use crate::classic_state::first_of;
use crate::codes;
use crate::config::NextGenConfig;
use crate::consumer_state::{
    GroupStateView, LEAVE_GROUP_MEMBER_EPOCH, LEAVE_GROUP_STATIC_MEMBER_EPOCH, MemberAssignmentState, MemberStateView, ReconcileInputView,
    reconciled, subscription_of,
};
use crate::heartbeat::{
    ClientIdentityView, HeartbeatErrorView, HeartbeatRequestView, ResolvedView, assigned_answer, beat, built_member, first_join, goes_on, leave,
    leaving_member, owned_by, reported, resolution, spoken_id, steady, taken_over, with_refreshed,
};
use crate::ordmap::{finite_listed, listing, listing_unique, lists};
use crate::partitions::{PartitionsView, merged_has, part_of, parts_where, parts_where_has};
use crate::pending_records::PendingRecordsView;
use crate::persistence::{apart, current_entries, kept_assignment, present, snapshot, target_entries};
use crate::records::{CurrentAssignmentView, MemberMetadataView};
use vstd::prelude::*;

verus! {

/// Whether no partition is held by two members.
pub open spec fn exclusive(g: GroupStateView) -> bool {
    forall|a: Seq<char>, b: Seq<char>, t: u128, p: i32|
        #[trigger] g.members.contains_key(a) && #[trigger] g.members.contains_key(b) && a != b && #[trigger] g.members[a].holds(t, p)
            ==> !g.members[b].holds(t, p)
}

/// Whether every member stands under its own id.
pub open spec fn keyed(g: GroupStateView) -> bool {
    forall|id: Seq<char>| #[trigger] g.members.contains_key(id) ==> g.members[id].member_id == id
}

/// Whether `a` and `b` hold the same partitions.
pub open spec fn holds_alike(a: MemberStateView, b: MemberStateView) -> bool {
    a.assigned_partitions == b.assigned_partitions && a.partitions_pending_revocation == b.partitions_pending_revocation
}

/// What a member that moved towards its target holds: of its target, what nobody else holds; and
/// of what it held before, what it still reports to own.
pub proof fn reconciled_holds(g: GroupStateView, id: Seq<char>, owned: PartitionsView, t: u128, p: i32)
    requires
        g.members.contains_key(id),
    ensures
        part_of(g.with_reconciled(id, owned).members[id].assigned_partitions, t, p) <==> part_of(g.target_of(id), t, p) && !g.held_elsewhere(id, t, p),
        part_of(g.with_reconciled(id, owned).members[id].partitions_pending_revocation, t, p) <==> g.members[id].holds(t, p) && part_of(owned, t, p)
            && !part_of(g.target_of(id), t, p),
{
    parts_where_has(g.target_of(id), |t: u128, p: i32| !g.held_elsewhere(id, t, p), t, p);
    let m = g.members[id];
    parts_where_has(m.held(), |t: u128, p: i32| part_of(owned, t, p) && !part_of(g.target_of(id), t, p), t, p);
    merged_has(m.assigned_partitions, m.partitions_pending_revocation, t, p);
}

/// Moving a member towards its target hands no partition to two members.
pub proof fn reconcile_keeps_exclusive(g: GroupStateView, id: Seq<char>, owned: PartitionsView)
    requires
        exclusive(g),
    ensures
        exclusive(g.with_reconciled(id, owned)),
{
    if g.members.contains_key(id) {
        let after = g.with_reconciled(id, owned);
        assert forall|a: Seq<char>, b: Seq<char>, t: u128, p: i32|
            #[trigger] after.members.contains_key(a) && #[trigger] after.members.contains_key(b) && a != b && #[trigger] after.members[a].holds(
                t,
                p,
            ) implies !after.members[b].holds(t, p) by {
            reconciled_holds(g, id, owned, t, p);
            assert(g.members.contains_key(a) && g.members.contains_key(b));
            if a == id {
                assert(after.members[b] == g.members[b]);
                if after.members[b].holds(t, p) {
                    assert(g.held_elsewhere(id, t, p));
                    assert(g.members[id].holds(t, p));
                }
            } else if b == id {
                assert(after.members[a] == g.members[a]);
                assert(g.held_elsewhere(id, t, p));
                assert(g.members[a].holds(t, p));
                if after.members[b].holds(t, p) {
                    assert(g.members[id].holds(t, p));
                }
            } else {
                assert(g.members[a].holds(t, p));
            }
        }
    }
}

/// A group whose members hold what they held before, or are gone, hands out nothing new.
proof fn alike_keeps_exclusive(g: GroupStateView, after: GroupStateView)
    requires
        exclusive(g),
        forall|id: Seq<char>| #[trigger] after.members.contains_key(id) ==> g.members.contains_key(id) && holds_alike(after.members[id], g.members[id]),
    ensures
        exclusive(after),
{
    assert forall|a: Seq<char>, b: Seq<char>, t: u128, p: i32|
        #[trigger] after.members.contains_key(a) && #[trigger] after.members.contains_key(b) && a != b && #[trigger] after.members[a].holds(
            t,
            p,
        ) implies !after.members[b].holds(t, p) by {
        assert(g.members[a].holds(t, p));
    }
}

/// A member that takes the place of another holds what that one held, and nobody else does.
proof fn takeover_keeps_exclusive(g: GroupStateView, previous: Seq<char>, id: Seq<char>, req: HeartbeatRequestView)
    requires
        exclusive(g),
    ensures
        exclusive(taken_over(g, previous, id, req)),
{
    let after = taken_over(g, previous, id, req);
    if g.members.contains_key(previous) {
        assert forall|a: Seq<char>, b: Seq<char>, t: u128, p: i32|
            #[trigger] after.members.contains_key(a) && #[trigger] after.members.contains_key(b) && a != b && #[trigger] after.members[a].holds(
                t,
                p,
            ) implies !after.members[b].holds(t, p) by {
            let from_a = if a == id {
                previous
            } else {
                a
            };
            let from_b = if b == id {
                previous
            } else {
                b
            };
            assert(g.members.contains_key(from_a) && g.members.contains_key(from_b));
            assert(holds_alike(after.members[a], g.members[from_a]));
            assert(holds_alike(after.members[b], g.members[from_b]));
            assert(g.members[from_a].holds(t, p));
        }
    } else {
        alike_keeps_exclusive(g, after);
    }
}

proof fn steady_keeps_exclusive<A: Assignor>(
    g: GroupStateView,
    config: NextGenConfig<A>,
    input: ReconcileInputView,
    id: Seq<char>,
    replaced: Option<Seq<char>>,
    req: HeartbeatRequestView,
    client: ClientIdentityView,
    now: u64,
    authorized: Set<Seq<char>>,
)
    requires
        exclusive(g),
    ensures
        exclusive(steady(g, config, input, id, replaced, req, client, now, authorized).0),
{
    let g1 = with_refreshed(g, id, req, client, now, authorized);
    alike_keeps_exclusive(g, g1);
    let g2 = reconciled(g1, config.assignors@, input);
    alike_keeps_exclusive(g1, g2);
    let g3 = if g1.members.contains_key(id) && g2.target_epoch > g1.members[id].member_epoch {
        g2.advanced(id)
    } else {
        g2
    };
    alike_keeps_exclusive(g2, g3);
    reconcile_keeps_exclusive(g3, id, owned_by(g3, id, req));
}

/// No heartbeat makes two members hold the same partition: neither a join nor a change of the
/// subscription, neither a restart under a static identity nor a leave.
pub proof fn heartbeat_keeps_exclusive<A: Assignor>(
    g: GroupStateView,
    config: NextGenConfig<A>,
    input: ReconcileInputView,
    req: HeartbeatRequestView,
    minted: Seq<char>,
    client: ClientIdentityView,
    now: u64,
    authorized: Set<Seq<char>>,
)
    requires
        exclusive(g),
    ensures
        exclusive(beat(g, config, input, req, minted, client, now, authorized).0),
{
    let id = spoken_id(req, minted);
    let after = beat(g, config, input, req, minted, client, now, authorized).0;
    if req.member_epoch == LEAVE_GROUP_MEMBER_EPOCH || req.member_epoch == LEAVE_GROUP_STATIC_MEMBER_EPOCH {
        alike_keeps_exclusive(g, after);
    } else {
        match resolution(g, req, id) {
            Err(_) => {},
            Ok(ResolvedView::Existing) => {
                steady_keeps_exclusive(g, config, input, id, None, req, client, now, authorized);
            },
            Ok(ResolvedView::New) => {
                let g1 = g.with_member(built_member(id, req, client, now, authorized));
                assert forall|a: Seq<char>, b: Seq<char>, t: u128, p: i32|
                    #[trigger] g1.members.contains_key(a) && #[trigger] g1.members.contains_key(b) && a != b && #[trigger] g1.members[a].holds(
                        t,
                        p,
                    ) implies !g1.members[b].holds(t, p) by {
                    if a != id && b != id {
                        assert(g.members[a].holds(t, p));
                    }
                }
                let g2 = reconciled(g1, config.assignors@, input);
                alike_keeps_exclusive(g1, g2);
                alike_keeps_exclusive(g2, g2.advanced(id));
                reconcile_keeps_exclusive(g2.advanced(id), id, crate::heartbeat::reported(req));
            },
            Ok(ResolvedView::Replaces { previous }) => {
                takeover_keeps_exclusive(g, previous, id, req);
                steady_keeps_exclusive(taken_over(g, previous, id, req), config, input, id, Some(previous), req, client, now, authorized);
            },
        }
    }
}

/// A heartbeat that is answered with an error leaves the group as it was and writes nothing.
pub proof fn refused_heartbeat_changes_nothing<A: Assignor>(
    g: GroupStateView,
    config: NextGenConfig<A>,
    input: ReconcileInputView,
    req: HeartbeatRequestView,
    minted: Seq<char>,
    client: ClientIdentityView,
    now: u64,
    authorized: Set<Seq<char>>,
)
    requires
        beat(g, config, input, req, minted, client, now, authorized).1.response.error_code != codes::NONE,
    ensures
        beat(g, config, input, req, minted, client, now, authorized).0 == g,
        beat(g, config, input, req, minted, client, now, authorized).1.pending == PendingRecordsView::none(),
{
}

/// A heartbeat begins at most one epoch, and never goes back.
pub proof fn heartbeat_epochs_advance<A: Assignor>(
    g: GroupStateView,
    config: NextGenConfig<A>,
    input: ReconcileInputView,
    req: HeartbeatRequestView,
    minted: Seq<char>,
    client: ClientIdentityView,
    now: u64,
    authorized: Set<Seq<char>>,
)
    ensures
        g.group_epoch <= beat(g, config, input, req, minted, client, now, authorized).0.group_epoch <= g.group_epoch + 1,
{
}

proof fn steady_keeps_keyed<A: Assignor>(
    g: GroupStateView,
    config: NextGenConfig<A>,
    input: ReconcileInputView,
    id: Seq<char>,
    replaced: Option<Seq<char>>,
    req: HeartbeatRequestView,
    client: ClientIdentityView,
    now: u64,
    authorized: Set<Seq<char>>,
)
    requires
        keyed(g),
    ensures
        keyed(steady(g, config, input, id, replaced, req, client, now, authorized).0),
{
    let g1 = with_refreshed(g, id, req, client, now, authorized);
    assert(keyed(g1));
    let g2 = reconciled(g1, config.assignors@, input);
    assert(keyed(g2));
    let g3 = if g1.members.contains_key(id) && g2.target_epoch > g1.members[id].member_epoch {
        g2.advanced(id)
    } else {
        g2
    };
    assert(keyed(g3));
    assert(keyed(g3.with_reconciled(id, owned_by(g3, id, req))));
}

/// Members stand under their own ids, whatever heartbeats come.
pub proof fn heartbeat_keeps_keyed<A: Assignor>(
    g: GroupStateView,
    config: NextGenConfig<A>,
    input: ReconcileInputView,
    req: HeartbeatRequestView,
    minted: Seq<char>,
    client: ClientIdentityView,
    now: u64,
    authorized: Set<Seq<char>>,
)
    requires
        keyed(g),
    ensures
        keyed(beat(g, config, input, req, minted, client, now, authorized).0),
{
    let id = spoken_id(req, minted);
    if req.member_epoch == LEAVE_GROUP_MEMBER_EPOCH || req.member_epoch == LEAVE_GROUP_STATIC_MEMBER_EPOCH {
        assert(keyed(leave(g, config, input, req).0));
    } else {
        match resolution(g, req, id) {
            Err(_) => {},
            Ok(ResolvedView::Existing) => {
                steady_keeps_keyed(g, config, input, id, None, req, client, now, authorized);
            },
            Ok(ResolvedView::New) => {
                assert(keyed(first_join(g, config, input, id, req, client, now, authorized).0));
            },
            Ok(ResolvedView::Replaces { previous }) => {
                assert(keyed(taken_over(g, previous, id, req)));
                steady_keeps_keyed(taken_over(g, previous, id, req), config, input, id, Some(previous), req, client, now, authorized);
            },
        }
    }
}

/// A member that stays gets no partition beyond its target, and none that another member holds;
/// the answer names exactly what it was given.
pub proof fn heartbeat_grants_only_free_target<A: Assignor>(
    g: GroupStateView,
    config: NextGenConfig<A>,
    input: ReconcileInputView,
    req: HeartbeatRequestView,
    minted: Seq<char>,
    client: ClientIdentityView,
    now: u64,
    authorized: Set<Seq<char>>,
    t: u128,
    p: i32,
)
    requires
        beat(g, config, input, req, minted, client, now, authorized).1.response.error_code == codes::NONE,
        req.member_epoch >= 0,
    ensures
        ({
            let (after, step) = beat(g, config, input, req, minted, client, now, authorized);
            let id = spoken_id(req, minted);
            &&& after.members.contains_key(id) ==> step.response.assignment == Some(after.members[id].assigned_partitions)
            &&& after.members.contains_key(id) && part_of(after.members[id].assigned_partitions, t, p) ==> part_of(after.target_of(id), t, p)
                && !after.held_elsewhere(id, t, p)
        }),
{
    let id = spoken_id(req, minted);
    match resolution(g, req, id) {
        Err(_) => {},
        Ok(ResolvedView::Existing) => {
            steady_grants(g, config, input, id, None, req, client, now, authorized, t, p);
        },
        Ok(ResolvedView::New) => {
            let g1 = g.with_member(built_member(id, req, client, now, authorized));
            let g2 = reconciled(g1, config.assignors@, input).advanced(id);
            granted_is_free(g2, id, crate::heartbeat::reported(req), t, p);
        },
        Ok(ResolvedView::Replaces { previous }) => {
            steady_grants(taken_over(g, previous, id, req), config, input, id, Some(previous), req, client, now, authorized, t, p);
        },
    }
}

proof fn granted_is_free(g: GroupStateView, id: Seq<char>, owned: PartitionsView, t: u128, p: i32)
    ensures
        ({
            let after = g.with_reconciled(id, owned);
            g.members.contains_key(id) && part_of(after.members[id].assigned_partitions, t, p) ==> part_of(after.target_of(id), t, p)
                && !after.held_elsewhere(id, t, p)
        }),
{
    let after = g.with_reconciled(id, owned);
    if g.members.contains_key(id) {
        reconciled_holds(g, id, owned, t, p);
        if after.held_elsewhere(id, t, p) {
            let other = choose|other: Seq<char>| #[trigger] after.members.contains_key(other) && other != id && after.members[other].holds(t, p);
            assert(g.members.contains_key(other) && g.members[other].holds(t, p));
            assert(g.held_elsewhere(id, t, p));
        }
    }
}

proof fn steady_grants<A: Assignor>(
    g: GroupStateView,
    config: NextGenConfig<A>,
    input: ReconcileInputView,
    id: Seq<char>,
    replaced: Option<Seq<char>>,
    req: HeartbeatRequestView,
    client: ClientIdentityView,
    now: u64,
    authorized: Set<Seq<char>>,
    t: u128,
    p: i32,
)
    requires
        steady(g, config, input, id, replaced, req, client, now, authorized).1.response.error_code == codes::NONE,
    ensures
        ({
            let (after, step) = steady(g, config, input, id, replaced, req, client, now, authorized);
            &&& step.response.assignment == Some(after.members[id].assigned_partitions)
            &&& after.members.contains_key(id) && part_of(after.members[id].assigned_partitions, t, p) ==> part_of(after.target_of(id), t, p)
                && !after.held_elsewhere(id, t, p)
        }),
{
    let g1 = with_refreshed(g, id, req, client, now, authorized);
    let g2 = reconciled(g1, config.assignors@, input);
    let g3 = if g1.members.contains_key(id) && g2.target_epoch > g1.members[id].member_epoch {
        g2.advanced(id)
    } else {
        g2
    };
    granted_is_free(g3, id, owned_by(g3, id, req), t, p);
}

/// A member that reports nothing gives up nothing but what it is assigned: of what it was already
/// giving up, nothing is left with it.
pub proof fn silent_report_ends_revocation(g: GroupStateView, id: Seq<char>, req: HeartbeatRequestView, t: u128, p: i32)
    requires
        g.members.contains_key(id),
        req.topic_partitions is None,
    ensures
        part_of(g.with_reconciled(id, owned_by(g, id, req)).members[id].partitions_pending_revocation, t, p) <==> part_of(
            g.members[id].assigned_partitions,
            t,
            p,
        ) && !part_of(g.target_of(id), t, p),
{
    reconciled_holds(g, id, owned_by(g, id, req), t, p);
    merged_has(g.members[id].assigned_partitions, g.members[id].partitions_pending_revocation, t, p);
}

/// Whether `id` has all of its target that nobody else holds, and nothing to give up.
pub open spec fn at_rest(g: GroupStateView, id: Seq<char>) -> bool {
    &&& g.members.contains_key(id)
    &&& g.members[id].assigned_partitions == g.granted(id)
    &&& g.members[id].partitions_pending_revocation == Map::<u128, Seq<i32>>::empty()
    &&& g.members[id].assignment_state == if g.withheld(id) != Map::<u128, Seq<i32>>::empty() {
        MemberAssignmentState::UnreleasedPartitions
    } else {
        MemberAssignmentState::Stable
    }
}

/// Whether the groups differ in the member `id` alone, and in nothing that it is to hold.
spec fn alike_but_for(a: GroupStateView, b: GroupStateView, id: Seq<char>) -> bool {
    &&& a.target_of(id) == b.target_of(id)
    &&& forall|x: Seq<char>| x != id ==> (#[trigger] a.members.contains_key(x) <==> b.members.contains_key(x))
    &&& forall|x: Seq<char>| x != id && #[trigger] a.members.contains_key(x) ==> a.members[x] == b.members[x]
}

proof fn granted_alike(a: GroupStateView, b: GroupStateView, id: Seq<char>)
    requires
        alike_but_for(a, b, id),
    ensures
        a.granted(id) == b.granted(id),
        a.withheld(id) == b.withheld(id),
{
    assert forall|t: u128, p: i32| a.held_elsewhere(id, t, p) == b.held_elsewhere(id, t, p) by {
        if a.held_elsewhere(id, t, p) {
            let x = choose|x: Seq<char>| #[trigger] a.members.contains_key(x) && x != id && a.members[x].holds(t, p);
            assert(b.members.contains_key(x) && b.members[x].holds(t, p));
        }
        if b.held_elsewhere(id, t, p) {
            let x = choose|x: Seq<char>| #[trigger] b.members.contains_key(x) && x != id && b.members[x].holds(t, p);
            assert(a.members.contains_key(x));
            assert(a.members[x].holds(t, p));
        }
    }
    assert((|t: u128, p: i32| a.held_elsewhere(id, t, p)) =~= (|t: u128, p: i32| b.held_elsewhere(id, t, p)));
    assert((|t: u128, p: i32| !a.held_elsewhere(id, t, p)) =~= (|t: u128, p: i32| !b.held_elsewhere(id, t, p)));
}

proof fn nothing_revoked(g: GroupStateView, id: Seq<char>, owned: PartitionsView)
    requires
        forall|t: u128, p: i32| #[trigger] g.members[id].holds(t, p) ==> part_of(g.target_of(id), t, p),
    ensures
        g.revoking(id, owned) == Map::<u128, Seq<i32>>::empty(),
{
    let m = g.members[id];
    let f = |t: u128, p: i32| part_of(owned, t, p) && !part_of(g.target_of(id), t, p);
    let r = parts_where(m.held(), f);
    assert forall|t: u128| !#[trigger] r.contains_key(t) by {
        if r.contains_key(t) {
            let p = r[t][0];
            assert(r[t].contains(p));
            parts_where_has(m.held(), f, t, p);
            merged_has(m.assigned_partitions, m.partitions_pending_revocation, t, p);
            assert(m.holds(t, p));
        }
    }
    assert(r =~= Map::<u128, Seq<i32>>::empty());
}

/// A member at rest stays so when it moves towards the same target again, whatever it reports.
proof fn rest_goes_on(g: GroupStateView, id: Seq<char>, owned: PartitionsView)
    requires
        at_rest(g, id),
    ensures
        g.with_reconciled(id, owned) == g,
{
    let m = g.members[id];
    assert forall|t: u128, p: i32| #[trigger] m.holds(t, p) implies part_of(g.target_of(id), t, p) by {
        parts_where_has(g.target_of(id), |t: u128, p: i32| !g.held_elsewhere(id, t, p), t, p);
    }
    nothing_revoked(g, id, owned);
    assert(g.reconciled_member(id, owned) == m);
    assert(g.members.insert(id, m) =~= g.members);
}

/// Who is the only one in a set is the first.
pub(crate) proof fn only_holder(s: Set<Seq<char>>, id: Seq<char>)
    requires
        s.contains(id),
        forall|x: Seq<char>| #[trigger] s.contains(x) ==> x == id,
    ensures
        first_of(s) == Some(id),
{
    assert(s =~= Set::<Seq<char>>::empty().insert(id));
    assert(s.finite());
    finite_listed::<String>(s);
    let list = listing::<String>(s);
    assert(list.contains(id));
    assert(s.contains(list[0]));
}

/// A heartbeat that only goes on, of a member at rest at the target's epoch, writes nothing, and
/// changes nothing but when the member was last heard of. It is told again what it has.
pub proof fn unchanged_heartbeat_writes_nothing<A: Assignor>(
    g: GroupStateView,
    config: NextGenConfig<A>,
    input: ReconcileInputView,
    req: HeartbeatRequestView,
    minted: Seq<char>,
    client: ClientIdentityView,
    now: u64,
    authorized: Set<Seq<char>>,
)
    requires
        goes_on(g, req, authorized),
        at_rest(g, req.member_id),
        g.target_epoch <= g.members[req.member_id].member_epoch,
        beat(g, config, input, req, minted, client, now, authorized).1.response.error_code == codes::NONE,
        client.id == g.members[req.member_id].client_id,
        client.host == g.members[req.member_id].client_host,
    ensures
        ({
            let id = req.member_id;
            let (after, step) = beat(g, config, input, req, minted, client, now, authorized);
            &&& step.pending == PendingRecordsView::none()
            &&& step.response == assigned_answer(g, id, config.heartbeat_interval)
            &&& after == (GroupStateView {
                members: g.members.insert(id, MemberStateView { last_seen: now, regex_authorized_topics: authorized, ..g.members[id] }),
                ..g
            })
            &&& at_rest(after, id)
        }),
{
    let id = req.member_id;
    let g1 = with_refreshed(g, id, req, client, now, authorized);
    assert(g1 == (GroupStateView {
        members: g.members.insert(id, MemberStateView { last_seen: now, regex_authorized_topics: authorized, ..g.members[id] }),
        ..g
    }));
    granted_alike(g, g1, id);
    assert(at_rest(g1, id));
    rest_goes_on(g1, id, owned_by(g1, id, req));
    assert(resolution(g, req, id) is Ok);
}

/// A member that joined and sends the next heartbeat as it was told, with the same subscription, is
/// told the same again, and nothing more is written.
pub proof fn heartbeat_after_join_writes_nothing<A: Assignor>(
    g: GroupStateView,
    config: NextGenConfig<A>,
    input: ReconcileInputView,
    req: HeartbeatRequestView,
    minted: Seq<char>,
    client: ClientIdentityView,
    now: u64,
    authorized: Set<Seq<char>>,
    next: HeartbeatRequestView,
    other_input: ReconcileInputView,
    other_minted: Seq<char>,
    then: u64,
)
    requires
        resolution(g, req, spoken_id(req, minted)) == Ok::<ResolvedView, HeartbeatErrorView>(ResolvedView::New),
        beat(g, config, input, req, minted, client, now, authorized).1.response.error_code == codes::NONE,
        spoken_id(req, minted).len() > 0,
        0 <= g.group_epoch < i32::MAX,
        next.member_id == spoken_id(req, minted),
        next.member_epoch == beat(g, config, input, req, minted, client, now, authorized).1.response.member_epoch,
        next.instance_id is None || next.instance_id == req.instance_id,
        next.server_assignor is None || next.server_assignor == req.server_assignor,
        next.subscribed_topic_names == req.subscribed_topic_names,
        next.subscribed_topic_regex == req.subscribed_topic_regex,
    ensures
        ({
            let id = spoken_id(req, minted);
            let (joined, first) = beat(g, config, input, req, minted, client, now, authorized);
            let (after, second) = beat(joined, config, other_input, next, other_minted, client, then, authorized);
            &&& first.response.member_epoch == g.group_epoch + 1
            &&& first.pending != PendingRecordsView::none()
            &&& second.response == first.response
            &&& second.pending == PendingRecordsView::none()
            &&& after == (GroupStateView { members: joined.members.insert(id, MemberStateView { last_seen: then, ..joined.members[id] }), ..joined })
        }),
{
    let id = spoken_id(req, minted);
    let (joined, first) = beat(g, config, input, req, minted, client, now, authorized);
    let g1 = reconciled(g.with_member(built_member(id, req, client, now, authorized)), config.assignors@, input).advanced(id);
    assert((joined, first) == first_join(g, config, input, id, req, client, now, authorized));
    let m = g1.members[id];
    assert forall|t: u128, p: i32| #[trigger] m.holds(t, p) implies part_of(g1.target_of(id), t, p) by {
        assert(m.assigned_partitions == Map::<u128, Seq<i32>>::empty());
        assert(m.partitions_pending_revocation == Map::<u128, Seq<i32>>::empty());
    }
    nothing_revoked(g1, id, reported(req));
    assert(joined == g1.with_reconciled(id, reported(req)));
    granted_alike(g1, joined, id);
    assert(at_rest(joined, id));
    if let Some(instance) = next.instance_id {
        assert(g.holders(instance) == Set::<Seq<char>>::empty());
        assert forall|x: Seq<char>| #[trigger] joined.holders(instance).contains(x) implies x == id by {
            if x != id {
                assert(g.holders(instance).contains(x));
            }
        }
        assert(joined.holders(instance).contains(id));
        only_holder(joined.holders(instance), id);
    }
    assert(resolution(joined, next, id) == Ok::<ResolvedView, HeartbeatErrorView>(ResolvedView::Existing));
    unchanged_heartbeat_writes_nothing(joined, config, other_input, next, other_minted, client, then, authorized);
    let after = beat(joined, config, other_input, next, other_minted, client, then, authorized).0;
    assert(after.members[id] == MemberStateView { last_seen: then, ..joined.members[id] });
}

/// A member that leaves for good is gone, and the next epoch begins for those that stay. Everything
/// that is kept of it goes; of each that stays, what it is to hold and what it holds is written.
pub proof fn departed_member_is_written_off<A: Assignor>(
    g: GroupStateView,
    config: NextGenConfig<A>,
    input: ReconcileInputView,
    req: HeartbeatRequestView,
    minted: Seq<char>,
    client: ClientIdentityView,
    now: u64,
    authorized: Set<Seq<char>>,
    id: Seq<char>,
)
    requires
        req.member_epoch == LEAVE_GROUP_MEMBER_EPOCH,
        leaving_member(g, req) == Ok::<Seq<char>, HeartbeatErrorView>(id),
        g.members.dom().finite(),
        g.group_epoch < i32::MAX,
    ensures
        ({
            let (after, step) = beat(g, config, input, req, minted, client, now, authorized);
            &&& step.response.error_code == codes::NONE
            &&& after.members == g.members.remove(id)
            &&& after.group_epoch == g.group_epoch + 1
            &&& after.target_epoch == after.group_epoch
            &&& step.pending.member_metadata.contains((id, None))
            &&& step.pending.target_per_member.contains((id, None))
            &&& step.pending.current_per_member.contains((id, None))
            &&& forall|x: Seq<char>| #[trigger]
                after.members.contains_key(x) ==> step.pending.target_per_member.contains(
                    (
                        x,
                        if after.target.contains_key(x) {
                            Some(after.target[x])
                        } else {
                            None
                        },
                    ),
                ) && step.pending.current_per_member.contains((x, Some(kept_assignment(after.members[x]))))
        }),
{
    let (after, step) = beat(g, config, input, req, minted, client, now, authorized);
    let p = snapshot(after, seq![], true);
    let all = listing::<String>(after.members.dom());
    finite_listed::<String>(after.members.dom());
    nobody_apart(all);
    assert(present(after, seq![]) =~= seq![]);
    assert(p.current_per_member =~= current_entries(after, all));
    assert(step.pending == p.and_gone(id));
    assert(step.pending.member_metadata.last() == (id, None::<MemberMetadataView>));
    assert(step.pending.target_per_member.last() == (id, None::<PartitionsView>));
    assert(step.pending.current_per_member.last() == (id, None::<CurrentAssignmentView>));
    assert forall|x: Seq<char>| #[trigger] after.members.contains_key(x) implies step.pending.target_per_member.contains(
        (
            x,
            if after.target.contains_key(x) {
                Some(after.target[x])
            } else {
                None
            },
        ),
    ) && step.pending.current_per_member.contains((x, Some(kept_assignment(after.members[x])))) by {
        assert(all.contains(x));
        let i = choose|i: int| 0 <= i < all.len() && all[i] == x;
        assert(step.pending.target_per_member[i] == target_entries(after, all)[i]);
        assert(step.pending.current_per_member[i] == current_entries(after, all)[i]);
    }
}

proof fn nobody_apart(all: Seq<Seq<char>>)
    ensures
        apart(all, seq![]) == all,
    decreases all.len(),
{
    if all.len() > 0 {
        nobody_apart(all.drop_last());
        assert(all.drop_last().push(all.last()) =~= all);
    }
}

/// A group of one member is given a new target: every partition of every topic that the member
/// subscribes to.
pub proof fn lone_member_is_given_all(g: GroupStateView, assignors: Seq<UniformAssignor>, input: ReconcileInputView, id: Seq<char>, topic: u128)
    requires
        g.dirty,
        g.group_epoch < i32::MAX,
        g.members.dom() == Set::<Seq<char>>::empty().insert(id),
        g.members[id].member_id == id,
        subscribes(subscription_of(g.members[id], input), topic),
        available(input.topics, topic) > 0,
    ensures
        ({
            let target = reconciled(g, assignors, input).target_of(id);
            &&& target.contains_key(topic)
            &&& target[topic] == Seq::new(available(input.topics, topic), |p: int| p as i32)
        }),
{
    let ids = seq![id];
    assert(lists::<String>(ids, g.members.dom())) by {
        assert(ids[0] == id);
        assert forall|x: Seq<char>| g.members.dom().contains(x) implies ids.contains(x) by {
            assert(x == ids[0]);
        }
    }
    listing_unique::<String>(ids, g.members.dom());
    let subs = g.subscriptions(input);
    assert(subs =~= seq![subscription_of(g.members[id], input)]);
    assert(subs[0].member_id == id);
    assert(listed_member(subs, id));
    lone_subscriber_gets_all(subs, input.topics, topic);
}

} // verus!
