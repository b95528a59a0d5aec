//! What a consumer group writes is enough to restore it.

use crate::assignor::Assignor;
use crate::codes;
use crate::config::NextGenConfig;
use crate::consumer_state::{GroupStateView, LEAVE_GROUP_MEMBER_EPOCH, LEAVE_GROUP_STATIC_MEMBER_EPOCH, MemberStateView, ReconcileInputView, reconciled};
use crate::group::{CoordinatorGroupView, GroupKindView};
use crate::group_laws::without_members_facts;
use crate::heartbeat::{
    ClientIdentityView, HeartbeatErrorView, HeartbeatRequestView, ResolvedView, beat, built_member, first_join, leave, leaving_member, resolution,
    settled_member, spoken_id, steady, taken_over, takeover_records, targets_hold, updating, with_refreshed,
};
use crate::ordmap::{finite_listed, listed_at, listing, listing_holds};
use crate::partitions::PartitionsView;
use crate::pending_records::{GroupSeedView, PendingRecordsView, folded};
use crate::persistence::{apart, current_entries, kept_assignment, kept_member, member_entries, present, snapshot, target_entries};
use crate::replay_laws::{folded_elsewhere, folded_last};
use crate::tick_turn::{TickTurnView, tick_begun};
use crate::waiters::ParkedView;
use vstd::prelude::*;

verus! {

/// Whether the seed tells of `x` as the group has it: who it is, what it holds and what it is to hold; or nothing
/// where it is no member.
pub open spec fn tells_of(seed: GroupSeedView, g: GroupStateView, x: Seq<char>) -> bool {
    if g.members.contains_key(x) {
        &&& seed.members.contains_key(x) && seed.members[x] == kept_member(g.members[x])
        &&& seed.current_per_member.contains_key(x) && seed.current_per_member[x] == kept_assignment(g.members[x])
        &&& (if seed.target_per_member.contains_key(x) {
            seed.target_per_member[x]
        } else {
            Map::<u128, Seq<i32>>::empty()
        }) == (if g.target.contains_key(x) {
            g.target[x]
        } else {
            Map::<u128, Seq<i32>>::empty()
        })
    } else {
        !seed.members.contains_key(x) && !seed.current_per_member.contains_key(x)
    }
}

/// Whether the seed tells all of the group that is to be restored.
pub open spec fn tells_all(seed: GroupSeedView, g: GroupStateView) -> bool {
    &&& seed.group_epoch == g.group_epoch
    &&& seed.target_epoch == g.target_epoch
    &&& forall|x: Seq<char>| #[trigger] tells_of(seed, g, x)
}

proof fn apart_holds(all: Seq<Seq<char>>, ids: Seq<Seq<char>>)
    requires
        all.no_duplicates(),
    ensures
        apart(all, ids).no_duplicates(),
        forall|x: Seq<char>| #[trigger] apart(all, ids).contains(x) <==> all.contains(x) && !ids.contains(x),
    decreases all.len(),
{
    if all.len() > 0 {
        let rest = all.drop_last();
        let before = apart(rest, ids);
        let out = apart(all, ids);
        assert(rest.no_duplicates());
        apart_holds(rest, ids);
        let last = all.last();
        assert(all[all.len() - 1] == last);
        assert(!rest.contains(last)) by {
            if rest.contains(last) {
                let i = choose|i: int| 0 <= i < rest.len() && rest[i] == last;
                assert(all[i] == all[all.len() - 1]);
            }
        }
        assert forall|x: Seq<char>| all.contains(x) <==> #[trigger] rest.contains(x) || x == last by {
            if all.contains(x) && x != last {
                let i = choose|i: int| 0 <= i < all.len() && all[i] == x;
                assert(rest[i] == x);
            }
            if rest.contains(x) {
                let i = choose|i: int| 0 <= i < rest.len() && rest[i] == x;
                assert(all[i] == x);
            }
        }
        if !ids.contains(last) {
            assert(!before.contains(last));
            assert forall|x: Seq<char>| #[trigger] out.contains(x) <==> before.contains(x) || x == last by {
                if before.contains(x) {
                    let i = choose|i: int| 0 <= i < before.len() && before[i] == x;
                    assert(out[i] == x);
                }
                if out.contains(x) && x != last {
                    let i = choose|i: int| 0 <= i < out.len() && out[i] == x;
                    assert(before[i] == x);
                }
                assert(out[out.len() - 1] == last);
            }
            assert(out.no_duplicates()) by {
                assert forall|i: int, j: int| 0 <= i < out.len() && 0 <= j < out.len() && i != j implies out[i] != out[j] by {
                    if i < before.len() && j < before.len() {
                        assert(before[i] != before[j]);
                    } else if i < before.len() {
                        assert(before.contains(before[i]));
                    } else {
                        assert(before.contains(before[j]));
                    }
                }
            }
        }
        assert forall|x: Seq<char>| #[trigger] out.contains(x) <==> all.contains(x) && !ids.contains(x) by {
            assert(all.contains(x) <==> rest.contains(x) || x == last);
            assert(before.contains(x) <==> rest.contains(x) && !ids.contains(x));
        }
    }
}

proof fn listing_is_distinct(s: Set<Seq<char>>)
    requires
        s.finite(),
    ensures
        listing::<String>(s).no_duplicates(),
        forall|x: Seq<char>| #[trigger] listing::<String>(s).contains(x) <==> s.contains(x),
{
    finite_listed::<String>(s);
    listing_holds::<String>(s);
    let l = listing::<String>(s);
    assert forall|x: Seq<char>| #[trigger] l.contains(x) <==> s.contains(x) by {
        if l.contains(x) {
            let i = choose|i: int| 0 <= i < l.len() && l[i] == x;
            assert(s.contains(l[i]));
        }
    }
}

/// What a change with a new target writes of `x`.
proof fn whole_change_tells(seed: GroupSeedView, g: GroupStateView, ids: Seq<Seq<char>>, x: Seq<char>)
    requires
        g.members.dom().finite(),
        ids.len() <= 1,
    ensures
        ({
            let after = snapshot(g, ids, true).applied(seed);
            &&& after.group_epoch == g.group_epoch && after.target_epoch == g.target_epoch
            &&& g.members.contains_key(x) && (ids.contains(x) || (seed.members.contains_key(x) && seed.members[x] == kept_member(g.members[x])))
                ==> tells_of(after, g, x)
            &&& !g.members.contains_key(x) ==> (after.members.contains_key(x) <==> seed.members.contains_key(x)) && (
            after.current_per_member.contains_key(x) <==> seed.current_per_member.contains_key(x))
        }),
{
    let all = listing::<String>(g.members.dom());
    let p = snapshot(g, ids, true);
    listing_is_distinct(g.members.dom());
    apart_holds(all, ids);
    let here = present(g, ids);
    if ids.len() == 1 {
        assert(ids.drop_last() =~= seq![]);
        assert(present(g, ids.drop_last()) =~= seq![]);
        assert(ids[0] == ids.last());
        assert(ids.contains(x) <==> x == ids[0]) by {
            assert(ids.contains(ids[0]));
        }
    }
    assert(here.len() <= 1);
    assert(forall|i: int| 0 <= i < here.len() ==> #[trigger] here[i] == ids[0] && g.members.contains_key(ids[0]));
    // who the members are
    if ids.contains(x) && g.members.contains_key(x) {
        assert(here =~= seq![x]);
        folded_last(seed.members, p.member_metadata, 0);
    } else {
        assert forall|i: int| 0 <= i < p.member_metadata.len() implies (#[trigger] p.member_metadata[i]).0 != x by {
            assert(here[i] == ids[0]);
        }
        folded_elsewhere(seed.members, p.member_metadata, x);
    }
    // what they are to hold
    if g.members.contains_key(x) {
        let k = listed_at::<String>(g.members.dom(), x);
        assert forall|i: int| k < i < p.target_per_member.len() implies (#[trigger] p.target_per_member[i]).0 != x by {
            assert(all[i] != all[k]);
        }
        folded_last(seed.target_per_member, p.target_per_member, k);
    }
    // what they hold
    let rest = apart(all, ids);
    let a = current_entries(g, here);
    let b = current_entries(g, rest);
    let both = p.current_per_member;
    assert(both =~= a + b);
    if g.members.contains_key(x) {
        assert(all.contains(x));
        if ids.contains(x) {
            assert(here =~= seq![x]);
            assert forall|i: int| 0 < i < both.len() implies (#[trigger] both[i]).0 != x by {
                assert(both[i] == b[i - 1]);
                assert(rest.contains(rest[i - 1]));
            }
            assert(both[0] == a[0]);
            folded_last(seed.current_per_member, both, 0);
        } else {
            assert(rest.contains(x));
            let k = choose|k: int| 0 <= k < rest.len() && rest[k] == x;
            assert(both[here.len() + k] == b[k]);
            assert forall|i: int| here.len() + k < i < both.len() implies (#[trigger] both[i]).0 != x by {
                assert(both[i] == b[i - here.len()]);
                assert(rest[i - here.len()] != rest[k]);
            }
            folded_last(seed.current_per_member, both, here.len() + k);
        }
    } else {
        assert forall|i: int| 0 <= i < both.len() implies (#[trigger] both[i]).0 != x by {
            if i < here.len() {
                assert(both[i] == a[i]);
                assert(here[i] == ids[0]);
            } else {
                assert(both[i] == b[i - here.len()]);
                assert(rest.contains(rest[i - here.len()]));
                assert(all.contains(rest[i - here.len()]));
            }
        }
        folded_elsewhere(seed.current_per_member, both, x);
    }
}

/// What a change of the member `id` alone writes of `x`.
proof fn small_change_tells(seed: GroupSeedView, g: GroupStateView, id: Seq<char>, x: Seq<char>)
    requires
        g.members.contains_key(id),
    ensures
        ({
            let after = snapshot(g, seq![id], false).applied(seed);
            &&& after.group_epoch == g.group_epoch && after.target_epoch == seed.target_epoch && after.target_per_member == seed.target_per_member
            &&& x == id ==> after.members.contains_key(x) && after.members[x] == kept_member(g.members[x]) && after.current_per_member.contains_key(x)
                && after.current_per_member[x] == kept_assignment(g.members[x])
            &&& x != id ==> (after.members.contains_key(x) <==> seed.members.contains_key(x)) && (seed.members.contains_key(x) ==> after.members[x]
                == seed.members[x]) && (after.current_per_member.contains_key(x) <==> seed.current_per_member.contains_key(x)) && (
            seed.current_per_member.contains_key(x) ==> after.current_per_member[x] == seed.current_per_member[x])
        }),
{
    let ids = seq![id];
    let p = snapshot(g, ids, false);
    assert(ids.drop_last() =~= seq![]);
    assert(present(g, ids.drop_last()) =~= seq![]);
    assert(present(g, ids) =~= seq![id]);
    if x == id {
        folded_last(seed.members, p.member_metadata, 0);
        folded_last(seed.current_per_member, p.current_per_member, 0);
    } else {
        folded_elsewhere(seed.members, p.member_metadata, x);
        folded_elsewhere(seed.current_per_member, p.current_per_member, x);
    }
}

proof fn gone_is_untold(p: PendingRecordsView, seed: GroupSeedView, id: Seq<char>)
    ensures
        p.and_gone(id).applied(seed).members == p.applied(seed).members.remove(id),
        p.and_gone(id).applied(seed).current_per_member == p.applied(seed).current_per_member.remove(id),
        p.and_gone(id).applied(seed).target_per_member == p.applied(seed).target_per_member.remove(id),
        p.and_gone(id).applied(seed).group_epoch == p.applied(seed).group_epoch,
        p.and_gone(id).applied(seed).target_epoch == p.applied(seed).target_epoch,
{
    let q = p.and_gone(id);
    assert(q.member_metadata.drop_last() =~= p.member_metadata);
    assert(q.target_per_member.drop_last() =~= p.target_per_member);
    assert(q.current_per_member.drop_last() =~= p.current_per_member);
}

proof fn all_gone_is_untold(p: PendingRecordsView, seed: GroupSeedView, ids: Seq<Seq<char>>, x: Seq<char>)
    ensures
        ({
            let a = p.applied(seed);
            let b = p.and_all_gone(ids).applied(seed);
            &&& b.group_epoch == a.group_epoch && b.target_epoch == a.target_epoch
            &&& ids.contains(x) ==> !b.members.contains_key(x) && !b.current_per_member.contains_key(x)
            &&& !ids.contains(x) ==> {
                &&& b.members.contains_key(x) <==> a.members.contains_key(x)
                &&& a.members.contains_key(x) ==> b.members[x] == a.members[x]
                &&& b.current_per_member.contains_key(x) <==> a.current_per_member.contains_key(x)
                &&& a.current_per_member.contains_key(x) ==> b.current_per_member[x] == a.current_per_member[x]
                &&& b.target_per_member.contains_key(x) <==> a.target_per_member.contains_key(x)
                &&& a.target_per_member.contains_key(x) ==> b.target_per_member[x] == a.target_per_member[x]
            }
        }),
    decreases ids.len(),
{
    if ids.len() > 0 {
        let front = ids.drop_last();
        all_gone_is_untold(p, seed, front, x);
        gone_is_untold(p.and_all_gone(front), seed, ids.last());
        assert(ids[ids.len() - 1] == ids.last());
        if ids.contains(x) && x != ids.last() {
            let i = choose|i: int| 0 <= i < ids.len() && ids[i] == x;
            assert(front[i] == x);
        }
        if front.contains(x) {
            let i = choose|i: int| 0 <= i < front.len() && front[i] == x;
            assert(ids[i] == x);
        }
    }
}

/// Where the records tell all of a group, they still do once what a tick writes is there.
pub proof fn tick_writes_enough<A: Assignor>(
    seed: GroupSeedView,
    g: CoordinatorGroupView,
    state: GroupStateView,
    parked: ParkedView,
    config: NextGenConfig<A>,
    input: ReconcileInputView,
    now: u64,
    now_ms: i64,
)
    requires
        g.kind == GroupKindView::Consumer(state),
        state.members.dom().finite(),
        tells_all(seed, state),
    ensures
        ({
            let (after, _, turn) = tick_begun(g, parked, config, input, now, now_ms);
            match turn {
                TickTurnView::Delta { pending, .. } => tells_all(pending.applied(seed), after.kind->Consumer_0),
                _ => tells_all(seed, after.kind->Consumer_0),
            }
        }),
{
    let silent = listing::<String>(state.silent_members(now, config.session_timeout));
    if silent.len() > 0 {
        let h = tick_begun(g, parked, config, input, now, now_ms).0.kind->Consumer_0;
        without_members_facts(state, silent);
        let rest = state.without_members(silent);
        assert(h.members == rest.members);
        assert(h.members.dom().subset_of(state.members.dom())) by {
            assert forall|x: Seq<char>| #[trigger] h.members.dom().contains(x) implies state.members.dom().contains(x) by {
                assert(rest.members.contains_key(x));
            }
        }
        vstd::set_lib::lemma_set_subset_finite(state.members.dom(), h.members.dom());
        let p = snapshot(h, seq![], true);
        let after = p.and_all_gone(silent).applied(seed);
        whole_change_tells(seed, h, seq![], silent[0]);
        all_gone_is_untold(p, seed, silent, silent[0]);
        assert forall|x: Seq<char>| #[trigger] tells_of(after, h, x) by {
            assert(tells_of(seed, state, x));
            whole_change_tells(seed, h, seq![], x);
            all_gone_is_untold(p, seed, silent, x);
            assert(rest.members.contains_key(x) <==> state.members.contains_key(x) && !silent.contains(x));
            if h.members.contains_key(x) {
                assert(h.members[x] == state.members[x]);
            }
        }
    }
}

proof fn steady_writes_enough<A: Assignor>(
    seed: GroupSeedView,
    before: GroupStateView,
    g: GroupStateView,
    config: NextGenConfig<A>,
    input: ReconcileInputView,
    id: Seq<char>,
    replaced: Option<Seq<char>>,
    req: HeartbeatRequestView,
    client: ClientIdentityView,
    now: u64,
    authorized: Set<Seq<char>>,
)
    requires
        g.members.contains_key(id),
        g.members.dom().finite(),
        g.target_epoch <= g.group_epoch,
        seed.group_epoch == g.group_epoch,
        seed.target_epoch == g.target_epoch,
        replaced is None ==> tells_of(seed, g, id),
        forall|x: Seq<char>| x != id && replaced != Some(x) ==> #[trigger] tells_of(seed, g, x),
        replaced is Some && replaced->0 != id ==> !g.members.contains_key(replaced->0),
        steady(g, config, input, id, replaced, req, client, now, authorized).1.response.error_code == codes::NONE,
    ensures
        tells_all(
            steady(g, config, input, id, replaced, req, client, now, authorized).1.pending.applied(seed),
            steady(g, config, input, id, replaced, req, client, now, authorized).0,
        ),
{
    let (h, step) = steady(g, config, input, id, replaced, req, client, now, authorized);
    let g1 = with_refreshed(g, id, req, client, now, authorized);
    let changed = updating(g, config.assignors@, input, id, req, client, now, authorized)->Ok_0.1;
    let flag = h.target_epoch != g.target_epoch;
    assert(h.members.dom() =~= g.members.dom());
    assert forall|x: Seq<char>| x != id && #[trigger] g.members.contains_key(x) implies h.members[x] == g.members[x] by {}
    assert(!flag ==> h.target == g.target);
    let p = if changed || replaced is Some {
        snapshot(h, seq![id], flag)
    } else {
        PendingRecordsView::none()
    };
    let mid = p.applied(seed);
    assert(seq![id].contains(id)) by {
        assert(seq![id][0] == id);
    }
    // everything but the one that was replaced, and the target of the member where nothing new is written
    assert forall|x: Seq<char>| replaced != Some(x) && x != id implies #[trigger] tells_of(mid, h, x) by {
        assert(tells_of(seed, g, x));
        if changed || replaced is Some {
            if flag {
                whole_change_tells(seed, h, seq![id], x);
            } else {
                small_change_tells(seed, h, id, x);
            }
        }
    }
    if changed || replaced is Some {
        if flag {
            whole_change_tells(seed, h, seq![id], id);
        } else {
            small_change_tells(seed, h, id, id);
        }
    }
    assert(mid.group_epoch == h.group_epoch && mid.target_epoch == h.target_epoch);
    if replaced is None {
        assert(tells_of(mid, h, id));
        assert forall|x: Seq<char>| #[trigger] tells_of(mid, h, x) by {}
    } else {
        let previous = replaced->0;
        let q = if targets_hold(p.target_per_member, id) {
            p
        } else {
            PendingRecordsView { target_per_member: p.target_per_member.push((id, Some(h.target_of(id)))), ..p }
        };
        let told = q.applied(seed);
        if !targets_hold(p.target_per_member, id) {
            assert(q.target_per_member.drop_last() =~= p.target_per_member);
        } else if !flag {
            assert(p.target_per_member.len() == 0);
        }
        assert(tells_of(told, h, id));
        let last = step.pending.applied(seed);
        if previous != id {
            gone_is_untold(q, seed, previous);
        }
        assert forall|x: Seq<char>| #[trigger] tells_of(last, h, x) by {
            if x != id && x != previous {
                assert(tells_of(mid, h, x));
            }
        }
    }
}

/// Where the records tell all of a group, they still do once what a heartbeat writes is there: whatever it
/// changed, a group that is restored from its records has every member, epoch, target and assignment
/// that the answer told of.
#[verifier::rlimit(40)]
pub proof fn heartbeat_writes_enough<A: Assignor>(
    seed: GroupSeedView,
    g: GroupStateView,
    config: NextGenConfig<A>,
    input: ReconcileInputView,
    req: HeartbeatRequestView,
    minted: Seq<char>,
    client: ClientIdentityView,
    now: u64,
    authorized: Set<Seq<char>>,
)
    requires
        g.members.dom().finite(),
        g.target_epoch <= g.group_epoch,
        tells_all(seed, g),
        beat(g, config, input, req, minted, client, now, authorized).1.response.error_code == codes::NONE,
    ensures
        tells_all(
            beat(g, config, input, req, minted, client, now, authorized).1.pending.applied(seed),
            beat(g, config, input, req, minted, client, now, authorized).0,
        ),
{
    let id = spoken_id(req, minted);
    let (h, step) = beat(g, config, input, req, minted, client, now, authorized);
    let after = step.pending.applied(seed);
    if req.member_epoch == LEAVE_GROUP_MEMBER_EPOCH || req.member_epoch == LEAVE_GROUP_STATIC_MEMBER_EPOCH {
        leave_writes_enough(seed, g, config, input, req);
    } else {
        match resolution(g, req, id) {
            Err(_) => {},
            Ok(ResolvedView::Existing) => {
                existing_is_member(g, req, id);
                assert(tells_of(seed, g, id));
                assert forall|x: Seq<char>| x != id implies #[trigger] tells_of(seed, g, x) by {}
                steady_writes_enough(seed, g, g, config, input, id, None, req, client, now, authorized);
            },
            Ok(ResolvedView::New) => {
                assert(h.members.dom() =~= g.members.dom().insert(id));
                assert(seq![id].contains(id)) by {
                    assert(seq![id][0] == id);
                }
                whole_change_tells(seed, h, seq![id], id);
                assert forall|x: Seq<char>| #[trigger] tells_of(after, h, x) by {
                    assert(tells_of(seed, g, x));
                    whole_change_tells(seed, h, seq![id], x);
                    if x != id && h.members.contains_key(x) {
                        assert(h.members[x] == g.members[x]);
                    }
                }
            },
            Ok(ResolvedView::Replaces { previous }) => {
                pinned_is_member(g, req.instance_id->0);
                let g0 = taken_over(g, previous, id, req);
                assert forall|x: Seq<char>| x != id && Some(previous) != Some(x) implies #[trigger] tells_of(seed, g0, x) by {
                    assert(tells_of(seed, g, x));
                }
                steady_writes_enough(seed, g, g0, config, input, id, Some(previous), req, client, now, authorized);
            },
        }
    }
}

proof fn pinned_is_member(g: GroupStateView, instance: Seq<char>)
    requires
        g.members.dom().finite(),
        g.pinned(instance) is Some,
    ensures
        g.members.contains_key(g.pinned(instance)->0),
{
    let s = g.holders(instance);
    assert(s.subset_of(g.members.dom()));
    vstd::set_lib::lemma_set_subset_finite(g.members.dom(), s);
    finite_listed::<String>(s);
    assert(exists|x: Seq<char>| s.contains(x)) by {
        if forall|x: Seq<char>| !s.contains(x) {
            assert(s =~= Set::empty());
        }
    }
    let x = choose|x: Seq<char>| s.contains(x);
    assert(listing::<String>(s).contains(x));
    assert(s.contains(listing::<String>(s)[0]));
}

proof fn existing_is_member(g: GroupStateView, req: HeartbeatRequestView, id: Seq<char>)
    requires
        g.members.dom().finite(),
        resolution(g, req, id) == Ok::<ResolvedView, HeartbeatErrorView>(ResolvedView::Existing),
    ensures
        g.members.contains_key(id),
{
    if let Some(instance) = req.instance_id {
        if g.pinned(instance) is Some {
            pinned_is_member(g, instance);
        }
    }
}

proof fn leave_writes_enough<A: Assignor>(
    seed: GroupSeedView,
    g: GroupStateView,
    config: NextGenConfig<A>,
    input: ReconcileInputView,
    req: HeartbeatRequestView,
)
    requires
        g.members.dom().finite(),
        tells_all(seed, g),
        leaving_member(g, req) is Ok,
    ensures
        tells_all(leave(g, config, input, req).1.pending.applied(seed), leave(g, config, input, req).0),
{
    let id = leaving_member(g, req)->Ok_0;
    let (h, step) = leave(g, config, input, req);
    let after = step.pending.applied(seed);
    if let Some(instance) = req.instance_id {
        pinned_is_member(g, instance);
    }
    assert(g.members.contains_key(id));
    if req.instance_id is Some && req.member_epoch == LEAVE_GROUP_STATIC_MEMBER_EPOCH {
        let p = step.pending;
        assert(folded(seed.members, p.member_metadata) == seed.members);
        assert(folded(seed.target_per_member, p.target_per_member) == seed.target_per_member);
        assert forall|x: Seq<char>| #[trigger] tells_of(after, h, x) by {
            assert(tells_of(seed, g, x));
            if x == id {
                folded_last(seed.current_per_member, p.current_per_member, 0);
            } else {
                folded_elsewhere(seed.current_per_member, p.current_per_member, x);
            }
        }
    } else {
        let p = snapshot(h, seq![], true);
        assert(h.members == g.members.remove(id));
        whole_change_tells(seed, h, seq![], id);
        gone_is_untold(p, seed, id);
        assert forall|x: Seq<char>| #[trigger] tells_of(after, h, x) by {
            assert(tells_of(seed, g, x));
            whole_change_tells(seed, h, seq![], x);
        }
    }
}

} // verus!
