//! What becomes of a request that takes more than one step: whom a `LeaveGroup` takes out, who is told of it, and what
//! stands where a group could not be written.

use crate::assignor::Assignor;
use crate::classic_join::{CompletionView, JoinContext, completing};
use crate::classic_laws::sound;
use crate::classic_state::{ClassicGroupView, GroupState, MemberView};
use crate::classic_sync::{leaver, leaves, leaving};
use crate::codes;
use crate::config::NextGenConfig;
use crate::consumer_laws::only_holder;
use crate::consumer_state::{GroupStateView, MemberStateView, ReconcileInputView};
use crate::directory::{DirectoryView, GroupType, swept};
use crate::group::{CoordinatorGroupView, GroupKindView, PartitionKeyView};
use crate::group_laws::without_members_facts;
use crate::hosting::{leave_verdict, leavers};
use crate::hosting_laws::leavers_are_named;
use crate::join_turn::{JoinTurnView, classic_join_begun};
use crate::leave_turn::{LeaveTurnView, classic_leave_begun, classic_leave_finished, consumer_leave_begun, consumer_leave_finished, departed, lost_members};
use crate::ordmap::{listed_at, listing_holds, listing_len};
use crate::records::{GroupRecordView, RecordBatchView};
use crate::requests::{JoinGroupRequestView, LeaveGroupRequest, SyncGroupRequest, leave_answer, leave_identities};
use crate::sync_turn::{SyncTurnView, classic_sync_begun};
use crate::text::opt_str;
use crate::tick_turn::{TickTurnView, classic_tick_begun, classic_tick_finished};
use crate::waiters::{ParkedView, ended_round, turned_away};
use vstd::prelude::*;

verus! {

/// Whether a `LeaveGroup` that gives this member id, and this static identity, speaks of the member `x`: by its id, or
/// by the static identity that it holds, with no other id beside it.
pub open spec fn speaks_of(g: ClassicGroupView, id: Seq<char>, instance: Option<Seq<char>>, x: Seq<char>) -> bool {
    match instance {
        Some(i) => g.static_members.contains_key(i) && g.static_members[i] == x && (id.len() == 0 || id == x),
        None => id == x,
    }
}

spec fn spoken_of(g: ClassicGroupView, who: Seq<(Seq<char>, Option<Seq<char>>)>, x: Seq<char>) -> bool {
    exists|i: int| 0 <= i < who.len() && speaks_of(g, (#[trigger] who[i]).0, who[i].1, x)
}

proof fn spoken_of_last(g: ClassicGroupView, who: Seq<(Seq<char>, Option<Seq<char>>)>, x: Seq<char>)
    requires
        who.len() > 0,
    ensures
        spoken_of(g, who, x) <==> spoken_of(g, who.drop_last(), x) || speaks_of(g, who.last().0, who.last().1, x),
{
    let front = who.drop_last();
    if spoken_of(g, front, x) {
        let i = choose|i: int| 0 <= i < front.len() && speaks_of(g, (#[trigger] front[i]).0, front[i].1, x);
        assert(who[i] == front[i]);
    }
    if spoken_of(g, who, x) {
        let i = choose|i: int| 0 <= i < who.len() && speaks_of(g, (#[trigger] who[i]).0, who[i].1, x);
        if i < front.len() {
            assert(front[i] == who[i]);
        }
    }
    assert(who[who.len() - 1] == who.last());
}

proof fn leaves_take_out(g: ClassicGroupView, who: Seq<(Seq<char>, Option<Seq<char>>)>)
    requires
        sound(g),
    ensures
        ({
            let h = leaves(g, who).group;
            &&& forall|x: Seq<char>| #[trigger] h.members.contains_key(x) <==> g.members.contains_key(x) && !spoken_of(g, who, x)
            &&& forall|x: Seq<char>| #[trigger] h.members.contains_key(x) ==> h.members[x] == g.members[x]
            &&& forall|i: Seq<char>| #[trigger]
                h.static_members.contains_key(i) <==> g.static_members.contains_key(i) && h.members.contains_key(g.static_members[i])
            &&& forall|i: Seq<char>| #[trigger] h.static_members.contains_key(i) ==> h.static_members[i] == g.static_members[i]
        }),
    decreases who.len(),
{
    if who.len() > 0 {
        let front = who.drop_last();
        let b = leaves(g, front).group;
        let h = leaves(g, who).group;
        let (id, instance) = who.last();
        leaves_take_out(g, front);
        assert forall|x: Seq<char>| #[trigger] h.members.contains_key(x) <==> g.members.contains_key(x) && !spoken_of(g, who, x) by {
            spoken_of_last(g, who, x);
        }
        match leaver(b, id, instance) {
            Ok(gone) => {
                assert(h.members =~= b.members.remove(gone));
                assert forall|i: Seq<char>| #[trigger]
                    h.static_members.contains_key(i) <==> g.static_members.contains_key(i) && h.members.contains_key(g.static_members[i]) by {
                    assert(b.static_members.contains_key(i) <==> g.static_members.contains_key(i) && b.members.contains_key(g.static_members[i]));
                }
            },
            Err(_) => {},
        }
    } else {
        assert forall|i: Seq<char>| #[trigger] g.static_members.contains_key(i) implies g.members.contains_key(g.static_members[i]) by {}
    }
}

proof fn leaves_answer_each(g: ClassicGroupView, who: Seq<(Seq<char>, Option<Seq<char>>)>)
    requires
        sound(g),
    ensures
        ({
            let answers = leaves(g, who).responses;
            &&& answers.len() == who.len()
            &&& forall|i: int|
                0 <= i < who.len() ==> (#[trigger] answers[i]).member_id == who[i].0 && answers[i].group_instance_id == who[i].1 && (answers[i].error_code
                    == codes::NONE <==> exists|x: Seq<char>|
                    #![trigger g.members.contains_key(x)]
                    g.members.contains_key(x) && speaks_of(g, who[i].0, who[i].1, x) && !spoken_of(g, who.take(i), x))
        }),
    decreases who.len(),
{
    if who.len() > 0 {
        let front = who.drop_last();
        let n = front.len() as int;
        let b = leaves(g, front).group;
        let answers = leaves(g, who).responses;
        let before = leaves(g, front).responses;
        let (id, instance) = who.last();
        leaves_answer_each(g, front);
        leaves_take_out(g, front);
        assert(who.take(n) =~= front);
        assert forall|i: int| 0 <= i < who.len() implies (#[trigger] answers[i]).member_id == who[i].0 && answers[i].group_instance_id == who[i].1 && (
        answers[i].error_code == codes::NONE <==> exists|x: Seq<char>|
            #![trigger g.members.contains_key(x)]
            g.members.contains_key(x) && speaks_of(g, who[i].0, who[i].1, x) && !spoken_of(g, who.take(i), x)) by {
            if i < n {
                assert(answers[i] == before[i]);
                assert(who[i] == front[i]);
                assert(who.take(i) =~= front.take(i));
            } else {
                let x = match instance {
                    Some(s) => g.static_members[s],
                    None => id,
                };
                match leaver(b, id, instance) {
                    Ok(gone) => {
                        assert(b.members.contains_key(gone)) by {
                            if instance is Some {
                                assert(b.static_members.contains_key(instance->0));
                            }
                        }
                        assert(g.members.contains_key(gone) && speaks_of(g, id, instance, gone) && !spoken_of(g, front, gone));
                    },
                    Err(_) => {
                        assert(!b.members.contains_key(x) || !speaks_of(g, id, instance, x));
                    },
                }
            }
        }
    }
}

/// A `LeaveGroup` takes out of a classic group every member that it speaks of, and nobody else: up to version 2 it
/// speaks of the one member that it gives, from then on of each in its list, by its id or by its static identity.
/// Who stays is as before.
pub proof fn leave_takes_out_all_that_it_lists(g: ClassicGroupView, req: LeaveGroupRequest, version: i16, now: u64, x: Seq<char>)
    requires
        sound(g),
        g.members.contains_key(x),
    ensures
        ({
            let h = leaving(g, req, version, now).0;
            &&& version >= 3 ==> (h.members.contains_key(x) <==> !exists|i: int|
                0 <= i < req.members@.len() && speaks_of(g, (#[trigger] req.members@[i]).member_id@, opt_str(req.members@[i].group_instance_id), x))
            &&& version <= 2 ==> (h.members.contains_key(x) <==> req.member_id@ != x)
            &&& h.members.contains_key(x) ==> h.members[x] == g.members[x]
            &&& forall|y: Seq<char>| #[trigger] h.members.contains_key(y) ==> g.members.contains_key(y)
        }),
{
    let who = leave_identities(req, version);
    leaves_take_out(g, who);
    if version >= 3 {
        if spoken_of(g, who, x) {
            let i = choose|i: int| 0 <= i < who.len() && speaks_of(g, (#[trigger] who[i]).0, who[i].1, x);
            assert(speaks_of(g, req.members@[i].member_id@, opt_str(req.members@[i].group_instance_id), x));
        }
        if exists|i: int| 0 <= i < req.members@.len() && speaks_of(g, (#[trigger] req.members@[i]).member_id@, opt_str(req.members@[i].group_instance_id), x) {
            let i = choose|i: int|
                0 <= i < req.members@.len() && speaks_of(g, (#[trigger] req.members@[i]).member_id@, opt_str(req.members@[i].group_instance_id), x);
            assert(speaks_of(g, who[i].0, who[i].1, x));
        }
    } else {
        assert(who[0].0 == req.member_id@ && who[0].1 is None);
    }
}

/// Each identity in the list of a `LeaveGroup` is answered in its place, and fares well just when it speaks of a member
/// that no identity before it spoke of.
pub proof fn leave_answers_each_that_it_lists(g: ClassicGroupView, req: LeaveGroupRequest, version: i16, now: u64, i: int)
    requires
        sound(g),
        version >= 3,
        0 <= i < req.members@.len(),
    ensures
        ({
            let answers = leaving(g, req, version, now).1;
            let one = req.members@[i];
            &&& answers.len() == req.members@.len()
            &&& answers[i].member_id == one.member_id@
            &&& answers[i].group_instance_id == opt_str(one.group_instance_id)
            &&& answers[i].error_code == codes::NONE <==> exists|x: Seq<char>|
                #![trigger g.members.contains_key(x)]
                g.members.contains_key(x) && speaks_of(g, one.member_id@, opt_str(one.group_instance_id), x) && forall|j: int|
                    0 <= j < i ==> !speaks_of(g, (#[trigger] req.members@[j]).member_id@, opt_str(req.members@[j].group_instance_id), x)
        }),
{
    let who = leave_identities(req, version);
    leaves_answer_each(g, who);
    let answers = leaving(g, req, version, now).1;
    assert(answers[i].member_id == who[i].0);
    assert forall|x: Seq<char>| #[trigger]
        g.members.contains_key(x) implies (!spoken_of(g, who.take(i), x) <==> forall|j: int|
        0 <= j < i ==> !speaks_of(g, (#[trigger] req.members@[j]).member_id@, opt_str(req.members@[j].group_instance_id), x)) by {
        let front = who.take(i);
        if spoken_of(g, front, x) {
            let j = choose|j: int| 0 <= j < front.len() && speaks_of(g, (#[trigger] front[j]).0, front[j].1, x);
            assert(speaks_of(g, req.members@[j].member_id@, opt_str(req.members@[j].group_instance_id), x));
        } else {
            assert forall|j: int| 0 <= j < i implies !speaks_of(g, (#[trigger] req.members@[j]).member_id@, opt_str(req.members@[j].group_instance_id), x) by {
                assert(front[j] == who[j]);
            }
        }
    }
}

proof fn turned_away_are_told(parked: ParkedView, ids: Seq<Seq<char>>, code: i16, id: Seq<char>)
    ensures
        ({
            let (left, told) = turned_away(parked, ids, code);
            &&& left.joiners.contains(id) <==> parked.joiners.contains(id) && !ids.contains(id)
            &&& left.followers.contains(id) <==> parked.followers.contains(id) && !ids.contains(id)
            &&& parked.joiners.contains(id) && ids.contains(id) ==> exists|i: int|
                0 <= i < told.joins.len() && (#[trigger] told.joins[i]).0 == id && told.joins[i].1.error_code == code && told.joins[i].1.member_id == id
                    && told.joins[i].1.members.len() == 0
            &&& parked.followers.contains(id) && ids.contains(id) ==> exists|i: int|
                0 <= i < told.syncs.len() && (#[trigger] told.syncs[i]).0 == id && told.syncs[i].1.error_code == code && told.syncs[i].1.assignment.len() == 0
            &&& forall|i: int| 0 <= i < told.joins.len() ==> ids.contains((#[trigger] told.joins[i]).0)
            &&& forall|i: int| 0 <= i < told.syncs.len() ==> ids.contains((#[trigger] told.syncs[i]).0)
        }),
    decreases ids.len(),
{
    if ids.len() > 0 {
        let front = ids.drop_last();
        let (before, said) = turned_away(parked, front, code);
        let (left, told) = turned_away(parked, ids, code);
        turned_away_are_told(parked, front, code, id);
        assert(ids.contains(id) <==> front.contains(id) || ids.last() == id) by {
            if front.contains(id) {
                let k = choose|k: int| 0 <= k < front.len() && front[k] == id;
                assert(ids[k] == id);
            }
            if ids.contains(id) {
                let k = choose|k: int| 0 <= k < ids.len() && ids[k] == id;
                if k < front.len() {
                    assert(front[k] == id);
                }
            }
            assert(ids[ids.len() - 1] == ids.last());
        }
        if parked.joiners.contains(id) && front.contains(id) {
            let i = choose|i: int|
                0 <= i < said.joins.len() && (#[trigger] said.joins[i]).0 == id && said.joins[i].1.error_code == code && said.joins[i].1.member_id == id
                    && said.joins[i].1.members.len() == 0;
            assert(told.joins[i] == said.joins[i]);
        } else if parked.joiners.contains(id) && ids.last() == id {
            assert(told.joins[said.joins.len() as int].0 == id);
        }
        if parked.followers.contains(id) && front.contains(id) {
            let i = choose|i: int|
                0 <= i < said.syncs.len() && (#[trigger] said.syncs[i]).0 == id && said.syncs[i].1.error_code == code && said.syncs[i].1.assignment.len() == 0;
            assert(told.syncs[i] == said.syncs[i]);
        } else if parked.followers.contains(id) && ids.last() == id {
            assert(told.syncs[said.syncs.len() as int].0 == id);
        }
        assert forall|i: int| 0 <= i < told.joins.len() implies ids.contains((#[trigger] told.joins[i]).0) by {
            if i < said.joins.len() {
                let k = choose|k: int| 0 <= k < front.len() && front[k] == said.joins[i].0;
                assert(ids[k] == told.joins[i].0);
            } else {
                assert(ids[ids.len() - 1] == told.joins[i].0);
            }
        }
        assert forall|i: int| 0 <= i < told.syncs.len() implies ids.contains((#[trigger] told.syncs[i]).0) by {
            if i < said.syncs.len() {
                let k = choose|k: int| 0 <= k < front.len() && front[k] == said.syncs[i].0;
                assert(ids[k] == told.syncs[i].0);
            } else {
                assert(ids[ids.len() - 1] == told.syncs[i].0);
            }
        }
    }
}

proof fn ended_round_keeps_fewer(g: ClassicGroupView, parked: ParkedView, now: u64, id: Seq<char>)
    ensures
        ended_round(g, parked, now).parked.joiners.contains(id) ==> parked.joiners.contains(id),
        !ended_round(g, parked, now).parked.followers.contains(id),
{
    let woken = ParkedView { followers: Set::empty(), ..parked };
    let result = completing(g, now).1;
    if let Ok(CompletionView::Postponed { removed }) = result {
        turned_away_are_told(woken, removed, codes::UNKNOWN_MEMBER_ID, id);
    }
    if let Ok(CompletionView::Generation { removed }) = result {
        turned_away_are_told(woken, removed, codes::UNKNOWN_MEMBER_ID, id);
    }
    if let Ok(CompletionView::Emptied { removed }) = result {
        turned_away_are_told(woken, removed, codes::UNKNOWN_MEMBER_ID, id);
    }
}

/// What a member that is gone had waiting is answered: it is told that it is no member, and waits no longer. While no
/// round is open nobody else is answered, and who else waits goes on waiting.
pub proof fn departed_are_told(g: ClassicGroupView, parked: ParkedView, removed: Seq<Seq<char>>, now: u64, id: Seq<char>)
    ensures
        ({
            let r = departed(g, parked, removed, now);
            &&& removed.contains(id) ==> !r.parked.joiners.contains(id) && !r.parked.followers.contains(id)
            &&& removed.contains(id) && parked.joiners.contains(id) ==> exists|i: int|
                0 <= i < r.replies.joins.len() && (#[trigger] r.replies.joins[i]).0 == id && r.replies.joins[i].1.error_code == codes::UNKNOWN_MEMBER_ID
                    && r.replies.joins[i].1.member_id == id && r.replies.joins[i].1.members.len() == 0
            &&& removed.contains(id) && parked.followers.contains(id) ==> exists|i: int|
                0 <= i < r.replies.syncs.len() && (#[trigger] r.replies.syncs[i]).0 == id && r.replies.syncs[i].1.error_code == codes::UNKNOWN_MEMBER_ID
                    && r.replies.syncs[i].1.assignment.len() == 0
            &&& g.state != GroupState::PreparingRebalance ==> {
                &&& r.group == g
                &&& !removed.contains(id) ==> (r.parked.joiners.contains(id) <==> parked.joiners.contains(id)) && (r.parked.followers.contains(id)
                    <==> parked.followers.contains(id))
                &&& forall|i: int| 0 <= i < r.replies.joins.len() ==> removed.contains((#[trigger] r.replies.joins[i]).0)
                &&& forall|i: int| 0 <= i < r.replies.syncs.len() ==> removed.contains((#[trigger] r.replies.syncs[i]).0)
            }
        }),
{
    let (left, told) = turned_away(parked, removed, codes::UNKNOWN_MEMBER_ID);
    let r = departed(g, parked, removed, now);
    turned_away_are_told(parked, removed, codes::UNKNOWN_MEMBER_ID, id);
    ended_round_keeps_fewer(g, left, now, id);
    if removed.contains(id) && parked.joiners.contains(id) {
        let i = choose|i: int|
            0 <= i < told.joins.len() && (#[trigger] told.joins[i]).0 == id && told.joins[i].1.error_code == codes::UNKNOWN_MEMBER_ID
                && told.joins[i].1.member_id == id && told.joins[i].1.members.len() == 0;
        assert(r.replies.joins[i] == told.joins[i]);
    }
    if removed.contains(id) && parked.followers.contains(id) {
        let i = choose|i: int|
            0 <= i < told.syncs.len() && (#[trigger] told.syncs[i]).0 == id && told.syncs[i].1.error_code == codes::UNKNOWN_MEMBER_ID
                && told.syncs[i].1.assignment.len() == 0;
        assert(r.replies.syncs[i] == told.syncs[i]);
    }
    if g.state != GroupState::PreparingRebalance {
        assert(r.replies.joins =~= told.joins);
        assert(r.replies.syncs =~= told.syncs);
    }
}

/// A `LeaveGroup` of the last members that could not be written changes nothing: the group and who waits are as before
/// it, and the answer says to try again. One that was written leaves the next generation, without members, and answers
/// each identity.
pub proof fn unwritten_leave_changes_nothing(
    state: ClassicGroupView,
    parked: ParkedView,
    req: LeaveGroupRequest,
    version: i16,
    now: u64,
    now_ms: i64,
    later_now: u64,
    later_ms: i64,
)
    requires
        classic_leave_begun(state, parked, req, version, now, now_ms).2 is Persist,
        sound(state),
    ensures
        ({
            let (h, left, turn) = classic_leave_begun(state, parked, req, version, now, now_ms);
            let (k, kept, end) = classic_leave_finished(
                h,
                left,
                turn->previous,
                turn->Persist_responses,
                turn->removed,
                version,
                false,
                later_now,
                later_ms,
            );
            let (done, _, told) = classic_leave_finished(
                h,
                left,
                turn->previous,
                turn->Persist_responses,
                turn->removed,
                version,
                true,
                later_now,
                later_ms,
            );
            &&& k == state
            &&& kept == parked
            &&& end is Done && end->running && end->reply.error_code == codes::COORDINATOR_LOAD_IN_PROGRESS && end->reply.members.len() == 0
            &&& end->Done_replies.joins.len() == 0 && end->Done_replies.syncs.len() == 0 && end->emptied is None
            &&& done.members == Map::<Seq<char>, MemberView>::empty()
            &&& done.state == GroupState::Empty
            &&& done.generation_id == state.generation_id + 1
            &&& told is Done && told->running && told->reply.members == leaving(state, req, version, now).1
            &&& version >= 3 ==> told->reply.error_code == codes::NONE
            &&& version <= 2 ==> told->reply.error_code == told->reply.members[0].error_code
        }),
{
    let (h, left, turn) = classic_leave_begun(state, parked, req, version, now, now_ms);
    crate::classic_laws::leave_keeps_sound(state, req, version, now);
    leaves_answer_each(state, leave_identities(req, version));
    leave_empties(state, leave_identities(req, version));
    let after = leaving(state, req, version, now).0;
    if !leaves(state, leave_identities(req, version)).any_removed {
        assert(lost_members(state, after) =~= Set::<Seq<char>>::empty());
        listing_len::<String>(Set::empty());
    }
}

proof fn leave_empties(g: ClassicGroupView, who: Seq<(Seq<char>, Option<Seq<char>>)>)
    requires
        sound(g),
    ensures
        ({
            let step = leaves(g, who);
            step.any_removed && step.group.members == Map::<Seq<char>, MemberView>::empty() ==> step.group.state == GroupState::Empty
        }),
        leaves(g, who).group.generation_id == g.generation_id,
        !leaves(g, who).any_removed ==> leaves(g, who).group == g,
    decreases who.len(),
{
    if who.len() > 0 {
        let front = who.drop_last();
        leave_empties(g, front);
        leaves_take_out(g, front);
        let b = leaves(g, front).group;
        let (id, instance) = who.last();
        match leaver(b, id, instance) {
            Ok(gone) => {
                assert(b.members.contains_key(gone)) by {
                    if instance is Some {
                        assert(b.static_members.contains_key(instance->0));
                    }
                }
            },
            Err(_) => {},
        }
    }
}

/// A tick that took the last members of a classic group and could not be written changes nothing.
pub proof fn unwritten_tick_changes_nothing(
    state: ClassicGroupView,
    parked: ParkedView,
    delay: u64,
    now: u64,
    now_ms: i64,
    later_now: u64,
    later_ms: i64,
)
    requires
        classic_tick_begun(state, parked, delay, now, now_ms).2 is Persist,
    ensures
        ({
            let (h, left, turn) = classic_tick_begun(state, parked, delay, now, now_ms);
            let (k, kept, end) = classic_tick_finished(h, left, turn->previous, turn->removed, false, later_now, later_ms);
            &&& h.members == Map::<Seq<char>, MemberView>::empty()
            &&& h.generation_id == state.expired(now, delay).generation_id + 1
            &&& k == state
            &&& kept == parked
            &&& end is Done && end->running && end->replies.joins.len() == 0 && end->replies.syncs.len() == 0 && end->emptied is None
        }),
{
}

/// A `SyncGroup` or a `JoinGroup` that is to be written hands out the group as it was before it, for the case that it
/// cannot be.
pub proof fn what_is_written_first_can_be_undone(
    state: ClassicGroupView,
    parked: ParkedView,
    sync: SyncGroupRequest,
    join: JoinGroupRequestView,
    ctx: JoinContext,
    suffix: Seq<char>,
    now_ms: i64,
)
    ensures
        ({
            let turn = classic_sync_begun(state, parked, sync, now_ms).2;
            turn is Persist ==> turn->Persist_previous == state && turn->Persist_batch.group_id == classic_sync_begun(state, parked, sync, now_ms).0.group_id
        }),
        ({
            let turn = classic_join_begun(state, parked, join, ctx, suffix, now_ms).2;
            turn is Persist ==> turn->previous == state && turn->Persist_batch.group_id == classic_join_begun(
                state,
                parked,
                join,
                ctx,
                suffix,
                now_ms,
            ).0.group_id
        }),
        crate::join_turn::unwritten(state, suffix).error_code == codes::COORDINATOR_LOAD_IN_PROGRESS,
        crate::join_turn::unwritten(state, suffix).member_id == suffix,
        crate::join_turn::unwritten(state, suffix).members.len() == 0,
        crate::sync_turn::unwritten(state).error_code == codes::COORDINATOR_LOAD_IN_PROGRESS,
        crate::sync_turn::unwritten(state).assignment.len() == 0,
{
}

/// A batch holds the records in the order they are given, numbered from zero without a gap.
pub proof fn batch_numbers_its_records(group_id: Seq<char>, records: Seq<GroupRecordView>, max_timestamp: i64, i: int)
    requires
        0 <= i < records.len() <= usize::MAX,
    ensures
        ({
            let b = RecordBatchView::of(group_id, records, max_timestamp);
            &&& b.group_id == group_id && b.max_timestamp == max_timestamp
            &&& b.records.len() == records.len() && b.records[i] == records[i]
            &&& b.offset_deltas.len() == records.len() && b.offset_deltas[i] == i
            &&& b.last_offset_delta == records.len() - 1
        }),
{
}

/// A retention pass looks at each group that is owned here and keeps its own members, and at no share or streams group.
pub proof fn pass_looks_at_owned_groups(dir: DirectoryView, ids: Seq<Seq<char>>, owned: Set<Seq<char>>, id: Seq<char>)
    ensures
        swept(dir, ids, owned).contains(id) <==> {
            &&& ids.contains(id)
            &&& owned.contains(id)
            &&& !dir.share_groups.contains(id)
            &&& !dir.streams_groups.contains(id)
            &&& !(dir.types.contains_key(id) && (dir.types[id] == GroupType::Share || dir.types[id] == GroupType::Streams))
        },
    decreases ids.len(),
{
    if ids.len() > 0 {
        let front = ids.drop_last();
        let before = swept(dir, front, owned);
        let all = swept(dir, ids, owned);
        pass_looks_at_owned_groups(dir, front, owned, id);
        assert(ids.contains(id) <==> front.contains(id) || ids.last() == id) by {
            if front.contains(id) {
                let k = choose|k: int| 0 <= k < front.len() && front[k] == id;
                assert(ids[k] == id);
            }
            if ids.contains(id) {
                let k = choose|k: int| 0 <= k < ids.len() && ids[k] == id;
                if k < front.len() {
                    assert(front[k] == id);
                }
            }
            assert(ids[ids.len() - 1] == ids.last());
        }
        if before.contains(id) {
            let k = choose|k: int| 0 <= k < before.len() && before[k] == id;
            assert(all[k] == id);
        }
        if all.contains(id) {
            let k = choose|k: int| 0 <= k < all.len() && all[k] == id;
            if k < before.len() {
                assert(before[k] == id);
            }
        }
        if all.len() > before.len() {
            assert(all[before.len() as int] == ids.last());
        }
    }
}

/// What is dropped of a group is dropped of it alone, and what is kept of other kinds of groups stays: a group that is
/// gone is bound to nothing and cannot be restored; a streams group that is gone is not served and cannot be
/// restored; an id whose share group is gone is free, unless something else took it.
pub proof fn forgetting_is_of_one_group(dir: DirectoryView, id: Seq<char>, other: Seq<char>)
    requires
        other != id,
    ensures
        ({
            let d = dir.without(id);
            &&& !d.types.contains_key(id) && !d.seeds.contains_key(id)
            &&& d.types.contains_key(other) == dir.types.contains_key(other) && d.types[other] == dir.types[other]
            &&& d.seeds.contains_key(other) == dir.seeds.contains_key(other) && d.seeds[other] == dir.seeds[other]
            &&& d.share_groups == dir.share_groups && d.streams_groups == dir.streams_groups && d.share_seeds == dir.share_seeds && d.streams_seeds
                == dir.streams_seeds
        }),
        ({
            let d = dir.without_streams(id);
            &&& !d.streams_groups.contains(id) && !d.streams_seeds.contains_key(id)
            &&& d.streams_groups.contains(other) == dir.streams_groups.contains(other)
            &&& d.streams_seeds.contains_key(other) == dir.streams_seeds.contains_key(other) && d.streams_seeds[other] == dir.streams_seeds[other]
            &&& d.share_groups == dir.share_groups && d.seeds == dir.seeds && d.share_seeds == dir.share_seeds && d.types == dir.types
        }),
        ({
            let d = dir.without_share(id);
            &&& !d.share_groups.contains(id)
            &&& !(d.types.contains_key(id) && d.types[id] == GroupType::Share)
            &&& dir.types.contains_key(id) && dir.types[id] != GroupType::Share ==> d.types.contains_key(id) && d.types[id] == dir.types[id]
            &&& d.share_groups.contains(other) == dir.share_groups.contains(other)
            &&& d.types.contains_key(other) == dir.types.contains_key(other) && d.types[other] == dir.types[other]
            &&& d.streams_groups == dir.streams_groups && d.seeds == dir.seeds && d.share_seeds == dir.share_seeds && d.streams_seeds == dir.streams_seeds
        }),
        ({
            let d = dir.with_classic(id);
            &&& d.types.contains_key(id) && d.types[id] == GroupType::Classic && !d.seeds.contains_key(id)
            &&& d.types.contains_key(other) == dir.types.contains_key(other) && d.types[other] == dir.types[other]
            &&& d.seeds.contains_key(other) == dir.seeds.contains_key(other) && d.seeds[other] == dir.seeds[other]
            &&& d.share_groups == dir.share_groups && d.streams_groups == dir.streams_groups && d.share_seeds == dir.share_seeds && d.streams_seeds
                == dir.streams_seeds
        }),
{
}

/// Whether a `LeaveGroup` that gives this member id, and this static identity, speaks of the member `x` of a consumer
/// group.
pub open spec fn speaks_of_consumer(g: GroupStateView, id: Seq<char>, instance: Option<Seq<char>>, x: Seq<char>) -> bool {
    &&& g.members.contains_key(x)
    &&& match instance {
        Some(_) => g.members[x].instance_id == instance && (id.len() == 0 || id == x),
        None => id == x,
    }
}

proof fn verdict_speaks_of(g: GroupStateView, id: Seq<char>, instance: Option<Seq<char>>, x: Seq<char>)
    requires
        g.members.dom().finite(),
        forall|a: Seq<char>, b: Seq<char>| #[trigger]
            g.members.contains_key(a) && #[trigger] g.members.contains_key(b) && g.members[a].instance_id is Some && g.members[a].instance_id
                == g.members[b].instance_id ==> a == b,
    ensures
        leave_verdict(g, id, instance) == Ok::<Seq<char>, i16>(x) <==> speaks_of_consumer(g, id, instance, x),
{
    if let Some(i) = instance {
        let s = g.holders(i);
        assert(s.subset_of(g.members.dom()));
        vstd::set_lib::lemma_set_subset_finite(g.members.dom(), s);
        if s.contains(x) {
            assert forall|y: Seq<char>| #[trigger] s.contains(y) implies y == x by {
                assert(g.members.contains_key(y) && g.members.contains_key(x));
            }
            only_holder(s, x);
        } else if g.pinned(i) is Some {
            assert(exists|y: Seq<char>| s.contains(y)) by {
                if forall|y: Seq<char>| !s.contains(y) {
                    assert(s =~= Set::empty());
                }
            }
            let y = choose|y: Seq<char>| s.contains(y);
            let k = listed_at::<String>(s, y);
            listing_holds::<String>(s);
            assert(s.contains(g.pinned(i)->0));
        }
    }
}

/// A `LeaveGroup` takes out of a consumer group every member that it speaks of, and nobody else: up to version 2 it
/// speaks of the one member that it gives, from then on of each in its list, by its id or by its static identity.
pub proof fn consumer_leave_takes_out_all_that_it_lists<A: Assignor>(
    g: GroupStateView,
    group_id: Seq<char>,
    config: NextGenConfig<A>,
    input: ReconcileInputView,
    req: LeaveGroupRequest,
    version: i16,
    now_ms: i64,
    x: Seq<char>,
)
    requires
        g.members.dom().finite(),
        forall|a: Seq<char>, b: Seq<char>| #[trigger]
            g.members.contains_key(a) && #[trigger] g.members.contains_key(b) && g.members[a].instance_id is Some && g.members[a].instance_id
                == g.members[b].instance_id ==> a == b,
        g.members.contains_key(x),
    ensures
        ({
            let h = consumer_leave_begun(g, group_id, config, input, req, version, now_ms).0;
            &&& version >= 3 ==> (h.members.contains_key(x) <==> !exists|i: int|
                0 <= i < req.members@.len() && speaks_of_consumer(
                    g,
                    (#[trigger] req.members@[i]).member_id@,
                    opt_str(req.members@[i].group_instance_id),
                    x,
                ))
            &&& version <= 2 ==> (h.members.contains_key(x) <==> req.member_id@ != x)
            &&& h.members.contains_key(x) ==> h.members[x] == g.members[x]
        }),
{
    let who = leave_identities(req, version);
    let gone = leavers(g, who);
    leavers_are_named(g, who, x);
    without_members_facts(g, gone);
    if gone.contains(x) {
        let i = choose|i: int| 0 <= i < who.len() && leave_verdict(g, (#[trigger] who[i]).0, who[i].1) == Ok::<Seq<char>, i16>(x);
        verdict_speaks_of(g, who[i].0, who[i].1, x);
        if version >= 3 {
            assert(speaks_of_consumer(g, req.members@[i].member_id@, opt_str(req.members@[i].group_instance_id), x));
        }
    } else {
        assert forall|i: int| 0 <= i < who.len() implies !speaks_of_consumer(g, (#[trigger] who[i]).0, who[i].1, x) by {
            verdict_speaks_of(g, who[i].0, who[i].1, x);
        }
        if version >= 3 {
            assert forall|i: int| 0 <= i < req.members@.len() implies !speaks_of_consumer(
                g,
                (#[trigger] req.members@[i]).member_id@,
                opt_str(req.members@[i].group_instance_id),
                x,
            ) by {
                assert(!speaks_of_consumer(g, who[i].0, who[i].1, x));
            }
        } else {
            assert(who[0].0 == req.member_id@ && who[0].1 is None);
            assert(!speaks_of_consumer(g, who[0].0, who[0].1, x));
        }
    }
}

/// Each identity in the list of a `LeaveGroup` in a consumer group is answered in its place: without error where it
/// speaks of a member, as fenced where another member holds the static identity, and else as unknown. Nobody is
/// answered otherwise where the group is written, and where it could not be the answer says to try again.
pub proof fn consumer_leave_answers_each_that_it_lists<A: Assignor>(
    g: CoordinatorGroupView,
    state: GroupStateView,
    config: NextGenConfig<A>,
    input: ReconcileInputView,
    req: LeaveGroupRequest,
    version: i16,
    now_ms: i64,
    after: CoordinatorGroupView,
    i: int,
)
    requires
        state.members.dom().finite(),
        forall|a: Seq<char>, b: Seq<char>| #[trigger]
            state.members.contains_key(a) && #[trigger] state.members.contains_key(b) && state.members[a].instance_id is Some && state.members[a].instance_id
                == state.members[b].instance_id ==> a == b,
        version >= 3,
        0 <= i < req.members@.len(),
    ensures
        ({
            let turn = consumer_leave_begun(state, g.group_id, config, input, req, version, now_ms).1;
            let answers = if turn is Delta {
                turn->Delta_responses
            } else {
                turn->reply.members
            };
            let one = req.members@[i];
            let named = exists|x: Seq<char>| #[trigger] speaks_of_consumer(state, one.member_id@, opt_str(one.group_instance_id), x);
            let held = one.group_instance_id is Some && exists|x: Seq<char>| #[trigger]
                state.members.contains_key(x) && state.members[x].instance_id == opt_str(one.group_instance_id);
            let end = consumer_leave_finished(after, config.migration_policy, input, answers, version, true, now_ms);
            let failed = consumer_leave_finished(after, config.migration_policy, input, answers, version, false, now_ms);
            &&& turn is Delta || turn is Done && turn->running && turn->reply.error_code == codes::NONE
            &&& answers.len() == req.members@.len()
            &&& answers[i].member_id == one.member_id@
            &&& answers[i].group_instance_id == opt_str(one.group_instance_id)
            &&& answers[i].error_code == codes::NONE <==> named
            &&& !named ==> answers[i].error_code == if held {
                codes::FENCED_INSTANCE_ID
            } else {
                codes::UNKNOWN_MEMBER_ID
            }
            &&& end is Done ==> end->running && end->reply.members == answers && end->reply.error_code == codes::NONE
            &&& end is Downgrade ==> end->Downgrade_responses == answers
            &&& end is Done || end is Downgrade
            &&& failed is Done && !failed->running && failed->reply.error_code == codes::COORDINATOR_LOAD_IN_PROGRESS && failed->reply.members.len() == 0
        }),
{
    let one = req.members@[i];
    let id = one.member_id@;
    let instance = opt_str(one.group_instance_id);
    let who = leave_identities(req, version);
    assert(who[i].0 == id && who[i].1 == instance);
    match leave_verdict(state, id, instance) {
        Ok(x) => {
            verdict_speaks_of(state, id, instance, x);
        },
        Err(_) => {
            assert forall|x: Seq<char>| !#[trigger] speaks_of_consumer(state, id, instance, x) by {
                verdict_speaks_of(state, id, instance, x);
            }
        },
    }
    if let Some(n) = instance {
        let s = state.holders(n);
        assert(s.subset_of(state.members.dom()));
        vstd::set_lib::lemma_set_subset_finite(state.members.dom(), s);
        listing_holds::<String>(s);
        if exists|x: Seq<char>| #[trigger] state.members.contains_key(x) && state.members[x].instance_id == instance {
            let x = choose|x: Seq<char>| #[trigger] state.members.contains_key(x) && state.members[x].instance_id == instance;
            assert(s.contains(x));
            let k = listed_at::<String>(s, x);
        } else {
            assert(s =~= Set::<Seq<char>>::empty());
            listing_len::<String>(s);
        }
    }
}

/// A group without members remembers since when it has none; one with members remembers nothing.
pub proof fn emptiness_is_remembered(g: CoordinatorGroupView, now_ms: i64)
    ensures
        ({
            let peopled = match g.kind {
                GroupKindView::Classic(c) => exists|x: Seq<char>| #[trigger] c.members.contains_key(x),
                GroupKindView::Consumer(c) => exists|x: Seq<char>| #[trigger] c.members.contains_key(x),
            };
            let h = g.observed(now_ms);
            &&& peopled ==> h.empty_since_ms is None
            &&& !peopled && g.empty_since_ms is Some ==> h.empty_since_ms == g.empty_since_ms
            &&& !peopled && g.empty_since_ms is None ==> h.empty_since_ms == Some(now_ms)
            &&& h.kind == g.kind && h.committed_offsets == g.committed_offsets && h.pending_txn == g.pending_txn && h.reserved_txn == g.reserved_txn
        }),
{
    match g.kind {
        GroupKindView::Classic(c) => {
            if !exists|x: Seq<char>| #[trigger] c.members.contains_key(x) {
                assert(c.members =~= Map::<Seq<char>, MemberView>::empty());
            }
        },
        GroupKindView::Consumer(c) => {
            if !exists|x: Seq<char>| #[trigger] c.members.contains_key(x) {
                assert(c.members =~= Map::<Seq<char>, MemberStateView>::empty());
            }
        },
    }
}

/// An offset that an open transaction is about to write is unresolved until that is given back, or the write is known.
pub proof fn reserved_offsets_are_unresolved(g: CoordinatorGroupView, producer: i64, keys: Seq<PartitionKeyView>, k: PartitionKeyView)
    ensures
        g.reserved(producer, keys).unresolved_keys().contains(k) <==> g.unresolved_keys().contains(k) || keys.contains(k),
        g.unreserved(producer, keys).unresolved_keys().contains(k) <==> {
            ||| exists|p: i64| #[trigger] g.pending_txn.contains_key(p) && g.pending_txn[p].contains_key(k)
            ||| exists|p: i64| #[trigger] g.reserved_txn.contains_key(p) && g.reserved_txn[p].contains(k) && (p != producer || !keys.contains(k))
        },
        g.reserved(producer, keys).committed_offsets == g.committed_offsets,
        g.unreserved(producer, keys).committed_offsets == g.committed_offsets,
        g.reserved(producer, keys).pending_txn == g.pending_txn,
        g.unreserved(producer, keys).pending_txn == g.pending_txn,
{
    let r = g.reserved(producer, keys);
    let u = g.unreserved(producer, keys);
    assert(r.pending_keys() == g.pending_keys());
    assert(u.pending_keys() == g.pending_keys());
    if keys.contains(k) {
        assert(r.reserved_txn.contains_key(producer) && r.reserved_txn[producer].contains(k));
    }
    if exists|p: i64| #[trigger] g.reserved_txn.contains_key(p) && g.reserved_txn[p].contains(k) {
        let p = choose|p: i64| #[trigger] g.reserved_txn.contains_key(p) && g.reserved_txn[p].contains(k);
        assert(r.reserved_txn.contains_key(p) && r.reserved_txn[p].contains(k));
    }
    if exists|p: i64| #[trigger] r.reserved_txn.contains_key(p) && r.reserved_txn[p].contains(k) {
        let p = choose|p: i64| #[trigger] r.reserved_txn.contains_key(p) && r.reserved_txn[p].contains(k);
        if !keys.contains(k) {
            assert(g.reserved_txn.contains_key(p) && g.reserved_txn[p].contains(k));
        }
    }
    if exists|p: i64| #[trigger] u.reserved_txn.contains_key(p) && u.reserved_txn[p].contains(k) {
        let p = choose|p: i64| #[trigger] u.reserved_txn.contains_key(p) && u.reserved_txn[p].contains(k);
        assert(g.reserved_txn.contains_key(p) && g.reserved_txn[p].contains(k) && (p != producer || !keys.contains(k)));
    }
    if exists|p: i64| #[trigger] g.reserved_txn.contains_key(p) && g.reserved_txn[p].contains(k) && (p != producer || !keys.contains(k)) {
        let p = choose|p: i64| #[trigger] g.reserved_txn.contains_key(p) && g.reserved_txn[p].contains(k) && (p != producer || !keys.contains(k));
        assert(u.reserved_txn.contains_key(p) && u.reserved_txn[p].contains(k));
    }
}

} // verus!
