//! The classic requests that wait for a round to end, and how they are answered.

use crate::classic_join::{Completion, CompletionView, build_join_result, completing, join_result, try_complete};
use crate::classic_state::{ClassicGroup, ClassicGroupView, GroupState};
use crate::classic_sync::{read_sync_result, sync_result};
use crate::codes;
use crate::ordmap::{Dup, OrdSet, listing, views};
use crate::persistence::{classic_pending_records, classic_snapshot, list_of};
use crate::records::{RecordBatch, RecordBatchView, opt_view};
use crate::requests::{JoinResult, JoinResultView, SyncResult, SyncResultView, join_error, sync_error};
use crate::text::dup_opt_str;
use vstd::prelude::*;

verus! {

/// The members whose `JoinGroup` and `SyncGroup` wait.
#[derive(Debug, PartialEq, Eq)]
pub struct Parked {
    pub joiners: OrdSet<String>,
    pub followers: OrdSet<String>,
}

#[verifier::ext_equal]
pub struct ParkedView {
    pub joiners: Set<Seq<char>>,
    pub followers: Set<Seq<char>>,
}

impl View for Parked {
    type V = ParkedView;

    open spec fn view(&self) -> ParkedView {
        ParkedView { joiners: self.joiners@, followers: self.followers@ }
    }
}

impl Parked {
    /// Nobody waits.
    pub fn none() -> (r: Self)
        ensures
            r@.joiners == Set::<Seq<char>>::empty(),
            r@.followers == Set::<Seq<char>>::empty(),
    {
        Parked { joiners: OrdSet::new(), followers: OrdSet::new() }
    }
}

/// The answer to a `JoinGroup` that waited.
#[derive(Debug, PartialEq, Eq)]
pub struct JoinReply {
    pub member_id: String,
    pub result: JoinResult,
}

impl View for JoinReply {
    type V = (Seq<char>, JoinResultView);

    open spec fn view(&self) -> (Seq<char>, JoinResultView) {
        (self.member_id@, self.result@)
    }
}

/// The answer to a `SyncGroup` that waited.
#[derive(Debug, PartialEq, Eq)]
pub struct SyncReply {
    pub member_id: String,
    pub result: SyncResult,
}

impl View for SyncReply {
    type V = (Seq<char>, SyncResultView);

    open spec fn view(&self) -> (Seq<char>, SyncResultView) {
        (self.member_id@, self.result@)
    }
}

/// Answers to requests that waited.
#[derive(Debug, PartialEq, Eq)]
pub struct Replies {
    pub joins: Vec<JoinReply>,
    pub syncs: Vec<SyncReply>,
}

#[verifier::ext_equal]
pub struct RepliesView {
    pub joins: Seq<(Seq<char>, JoinResultView)>,
    pub syncs: Seq<(Seq<char>, SyncResultView)>,
}

impl View for Replies {
    type V = RepliesView;

    open spec fn view(&self) -> RepliesView {
        RepliesView { joins: views(self.joins@), syncs: views(self.syncs@) }
    }
}

impl RepliesView {
    /// No answers.
    pub open spec fn none() -> RepliesView {
        RepliesView { joins: seq![], syncs: seq![] }
    }

    /// These answers, then those.
    pub open spec fn and(self, more: RepliesView) -> RepliesView {
        RepliesView { joins: self.joins + more.joins, syncs: self.syncs + more.syncs }
    }
}

impl Replies {
    /// No answers.
    pub fn none() -> (r: Self)
        ensures
            r@ == RepliesView::none(),
    {
        let r = Replies { joins: Vec::new(), syncs: Vec::new() };
        assert(views(r.joins@) =~= seq![]);
        assert(views(r.syncs@) =~= seq![]);
        r
    }

    /// Adds answers after those there are.
    pub fn append(&mut self, more: Replies)
        ensures
            final(self)@ == old(self)@.and(more@),
    {
        let ghost before = self@;
        let mut joins: Vec<JoinReply> = more.joins;
        let mut syncs: Vec<SyncReply> = more.syncs;
        self.joins.append(&mut joins);
        self.syncs.append(&mut syncs);
        assert(self@.joins =~= before.joins + more@.joins);
        assert(self@.syncs =~= before.syncs + more@.syncs);
    }
}

/// Every `SyncGroup` that waits is answered alike.
pub open spec fn all_synced(ids: Set<Seq<char>>, answer: SyncResultView) -> Seq<(Seq<char>, SyncResultView)> {
    let list = listing::<String>(ids);
    Seq::new(list.len(), |i: int| (list[i], answer))
}

/// Every `SyncGroup` that waits reads its assignment.
pub open spec fn all_assigned(ids: Set<Seq<char>>, g: ClassicGroupView) -> Seq<(Seq<char>, SyncResultView)> {
    let list = listing::<String>(ids);
    Seq::new(list.len(), |i: int| (list[i], sync_result(g, list[i], g.protocol_type, g.protocol_name)))
}

/// The answer where no protocol is common to all.
pub open spec fn no_protocol(g: ClassicGroupView, id: Seq<char>) -> JoinResultView {
    JoinResultView { protocol_type: g.protocol_type, ..join_error(codes::INCONSISTENT_GROUP_PROTOCOL, id) }
}

/// Every `JoinGroup` that waits is answered: for the generation that began, or that none could.
pub open spec fn all_joined_answers(ids: Set<Seq<char>>, g: ClassicGroupView, failed: bool) -> Seq<(Seq<char>, JoinResultView)> {
    let list = listing::<String>(ids);
    Seq::new(
        list.len(),
        |i: int|
            (
                list[i],
                if failed {
                    no_protocol(g, list[i])
                } else {
                    join_result(g, list[i])
                },
            ),
    )
}

/// The requests of `ids` are answered `code`, and wait no longer.
pub open spec fn turned_away(parked: ParkedView, ids: Seq<Seq<char>>, code: i16) -> (ParkedView, RepliesView)
    decreases ids.len(),
{
    if ids.len() == 0 {
        (parked, RepliesView::none())
    } else {
        let (left, replies) = turned_away(parked, ids.drop_last(), code);
        let id = ids.last();
        (
            ParkedView { joiners: left.joiners.remove(id), followers: left.followers.remove(id) },
            RepliesView {
                joins: if left.joiners.contains(id) {
                    replies.joins.push((id, join_error(code, id)))
                } else {
                    replies.joins
                },
                syncs: if left.followers.contains(id) {
                    replies.syncs.push((id, sync_error(code)))
                } else {
                    replies.syncs
                },
            },
        )
    }
}

/// How a round ended: the group, who still waits, the answers, and whether the group is to be
/// written since it has emptied.
#[verifier::ext_equal]
pub struct RoundView {
    pub group: ClassicGroupView,
    pub parked: ParkedView,
    pub replies: RepliesView,
    pub emptied: bool,
}

/// Nothing happens.
pub open spec fn no_round(g: ClassicGroupView, parked: ParkedView) -> RoundView {
    RoundView { group: g, parked, replies: RepliesView::none(), emptied: false }
}

/// A round ends. Each `SyncGroup` that still waits is told to rejoin. Where no generation can begin
/// every `JoinGroup` is told so and the deadline goes; else those that were left behind are told
/// that they are no members, and the others get the generation, unless nobody waits for it and the
/// round goes on.
pub open spec fn ended_round(g: ClassicGroupView, parked: ParkedView, now: u64) -> RoundView {
    let (h, result) = completing(g, now);
    let syncs = RepliesView { joins: seq![], syncs: all_synced(parked.followers, sync_error(codes::REBALANCE_IN_PROGRESS)) };
    let woken = ParkedView { followers: Set::empty(), ..parked };
    match result {
        Err(_) => RoundView {
            group: ClassicGroupView { rebalance_deadline: None, joined_this_round: Set::empty(), ..h },
            parked: ParkedView { joiners: Set::empty(), ..woken },
            replies: RepliesView { joins: all_joined_answers(woken.joiners, h, true), ..syncs },
            emptied: false,
        },
        Ok(CompletionView::NotPreparing) => RoundView {
            group: h,
            parked: ParkedView { joiners: Set::empty(), ..woken },
            replies: RepliesView { joins: all_joined_answers(woken.joiners, h, false), ..syncs },
            emptied: false,
        },
        Ok(CompletionView::Postponed { removed }) => {
            let (left, told) = turned_away(woken, removed, codes::UNKNOWN_MEMBER_ID);
            RoundView { group: h, parked: left, replies: syncs.and(told), emptied: false }
        },
        Ok(CompletionView::Generation { removed }) => {
            let (left, told) = turned_away(woken, removed, codes::UNKNOWN_MEMBER_ID);
            RoundView {
                group: h,
                parked: ParkedView { joiners: Set::empty(), ..left },
                replies: syncs.and(told).and(RepliesView { joins: all_joined_answers(left.joiners, h, false), syncs: seq![] }),
                emptied: false,
            }
        },
        Ok(CompletionView::Emptied { removed }) => {
            let (left, told) = turned_away(woken, removed, codes::UNKNOWN_MEMBER_ID);
            RoundView {
                group: h,
                parked: ParkedView { joiners: Set::empty(), ..left },
                replies: syncs.and(told).and(RepliesView { joins: all_joined_answers(left.joiners, h, false), syncs: seq![] }),
                emptied: true,
            }
        },
    }
}

/// Whether the open round may end early: everybody waits in it, and it is not the group's first.
pub open spec fn ends_early(g: ClassicGroupView) -> bool {
    g.generation_id > 0 && g.state == GroupState::PreparingRebalance && g.all_joined()
}

/// A round that may end early does.
pub open spec fn maybe_ended(g: ClassicGroupView, parked: ParkedView, now: u64) -> RoundView {
    if ends_early(g) {
        ended_round(g, parked, now)
    } else {
        no_round(g, parked)
    }
}

/// The deadline of a round passed: the first round of a group waits on while members come to it;
/// any other ends.
pub open spec fn deadline_passed(g: ClassicGroupView, parked: ParkedView, now: u64) -> RoundView {
    if g.extends_initial_join() {
        no_round(g.extended(now), parked)
    } else {
        ended_round(g, parked, now)
    }
}

/// A group that emptied and is to be written, and what it was before.
#[derive(Debug, PartialEq, Eq)]
pub struct Emptied {
    pub batch: RecordBatch,
    pub previous: ClassicGroup,
}

#[verifier::ext_equal]
pub struct EmptiedView {
    pub batch: RecordBatchView,
    pub previous: ClassicGroupView,
}

impl View for Emptied {
    type V = EmptiedView;

    open spec fn view(&self) -> EmptiedView {
        EmptiedView { batch: self.batch@, previous: self.previous@ }
    }
}

impl RoundView {
    /// What is to be written of a round that began with the group `before`.
    pub open spec fn to_write(self, before: ClassicGroupView, now_ms: i64) -> Option<EmptiedView> {
        if self.emptied {
            Some(EmptiedView { batch: snapshot_batch(self.group, now_ms), previous: before })
        } else {
            None
        }
    }
}

/// How a round ended.
#[derive(Debug, PartialEq, Eq)]
pub struct Round {
    pub replies: Replies,
    pub emptied: Option<Emptied>,
}

impl Round {
    /// Whether this is how `expected` says the round ended, from `before`.
    pub open spec fn is(self, expected: RoundView, before: ClassicGroupView, now_ms: i64) -> bool {
        &&& self.replies@ == expected.replies
        &&& opt_view(self.emptied) == expected.to_write(before, now_ms)
    }
}

/// The batch that writes a whole classic group.
pub open spec fn snapshot_batch(g: ClassicGroupView, now_ms: i64) -> RecordBatchView {
    RecordBatchView::of(g.group_id, classic_snapshot(g, now_ms).written(), now_ms)
}

/// The batch that writes a whole classic group.
pub fn classic_batch(state: &ClassicGroup, now_ms: i64) -> (r: RecordBatch)
    ensures
        r@ == snapshot_batch(state@, now_ms),
{
    classic_pending_records(state, now_ms).to_batch(&state.group_id, now_ms)
}

/// Answers every `SyncGroup` that waits alike.
pub fn answer_all_syncs(parked: &mut Parked, error_code: i16, protocol_type: &Option<String>, protocol_name: &Option<String>) -> (r: Vec<SyncReply>)
    ensures
        views(r@) == all_synced(
            old(parked)@.followers,
            (SyncResultView {
                protocol_type: crate::text::opt_str(*protocol_type),
                protocol_name: crate::text::opt_str(*protocol_name),
                ..sync_error(error_code)
            }),
        ),
        final(parked)@ == (ParkedView { followers: Set::empty(), ..old(parked)@ }),
{
    let ghost answer = SyncResultView {
        protocol_type: crate::text::opt_str(*protocol_type),
        protocol_name: crate::text::opt_str(*protocol_name),
        ..sync_error(error_code)
    };
    let ids: Vec<String> = list_of(&parked.followers);
    let ghost list = views(ids@);
    let mut out: Vec<SyncReply> = Vec::new();
    let mut i: usize = 0;
    while i < ids.len()
        invariant
            0 <= i <= ids@.len(),
            list == views(ids@),
            out@.len() == i,
            answer == (SyncResultView {
                protocol_type: crate::text::opt_str(*protocol_type),
                protocol_name: crate::text::opt_str(*protocol_name),
                ..sync_error(error_code)
            }),
            forall|j: int| 0 <= j < i ==> (#[trigger] out@[j])@ == (list[j], answer),
        decreases ids@.len() - i,
    {
        let mut result = SyncResult::error(error_code);
        result.protocol_type = dup_opt_str(protocol_type);
        result.protocol_name = dup_opt_str(protocol_name);
        out.push(SyncReply { member_id: ids[i].clone(), result });
        i = i + 1;
    }
    assert(views(out@) =~= all_synced(parked@.followers, answer));
    parked.followers = OrdSet::new();
    out
}

/// Hands every `SyncGroup` that waits its assignment.
pub fn drain_parked_followers(state: &ClassicGroup, parked: &mut Parked) -> (r: Vec<SyncReply>)
    ensures
        views(r@) == all_assigned(old(parked)@.followers, state@),
        final(parked)@ == (ParkedView { followers: Set::empty(), ..old(parked)@ }),
{
    let ids: Vec<String> = list_of(&parked.followers);
    let ghost list = views(ids@);
    let ghost g = state@;
    let mut out: Vec<SyncReply> = Vec::new();
    let mut i: usize = 0;
    while i < ids.len()
        invariant
            0 <= i <= ids@.len(),
            list == views(ids@),
            g == state@,
            out@.len() == i,
            forall|j: int| 0 <= j < i ==> (#[trigger] out@[j])@ == (list[j], sync_result(g, list[j], g.protocol_type, g.protocol_name)),
        decreases ids@.len() - i,
    {
        let result = read_sync_result(state, &ids[i], dup_opt_str(&state.protocol_type), dup_opt_str(&state.protocol_name));
        out.push(SyncReply { member_id: ids[i].clone(), result });
        i = i + 1;
    }
    assert(views(out@) =~= all_assigned(parked@.followers, g));
    parked.followers = OrdSet::new();
    out
}

/// Answers every `JoinGroup` that waits: for the generation that began, or that none could.
fn answer_all_joins(state: &ClassicGroup, parked: &mut Parked, failed: bool) -> (r: Vec<JoinReply>)
    ensures
        views(r@) == all_joined_answers(old(parked)@.joiners, state@, failed),
        final(parked)@ == (ParkedView { joiners: Set::empty(), ..old(parked)@ }),
{
    let ids: Vec<String> = list_of(&parked.joiners);
    let ghost list = views(ids@);
    let ghost g = state@;
    let ghost answers = all_joined_answers(parked@.joiners, g, failed);
    let mut out: Vec<JoinReply> = Vec::new();
    let mut i: usize = 0;
    while i < ids.len()
        invariant
            0 <= i <= ids@.len(),
            list == views(ids@),
            g == state@,
            answers.len() == list.len(),
            forall|j: int|
                0 <= j < list.len() ==> #[trigger] answers[j] == (
                    list[j],
                    if failed {
                        no_protocol(g, list[j])
                    } else {
                        join_result(g, list[j])
                    },
                ),
            out@.len() == i,
            forall|j: int| 0 <= j < i ==> (#[trigger] out@[j])@ == answers[j],
        decreases ids@.len() - i,
    {
        let result = if failed {
            let mut r = JoinResult::error(codes::INCONSISTENT_GROUP_PROTOCOL, ids[i].clone());
            r.protocol_type = dup_opt_str(&state.protocol_type);
            r
        } else {
            build_join_result(state, &ids[i])
        };
        out.push(JoinReply { member_id: ids[i].clone(), result });
        i = i + 1;
    }
    assert(views(out@) =~= answers);
    parked.joiners = OrdSet::new();
    out
}

/// Answers the requests of those of `ids` that wait.
pub fn turn_away(parked: &mut Parked, ids: &Vec<String>, code: i16) -> (r: Replies)
    ensures
        (final(parked)@, r@) == turned_away(old(parked)@, views(ids@), code),
{
    let ghost before = parked@;
    let ghost all = views(ids@);
    let mut out = Replies::none();
    let mut i: usize = 0;
    assert(all.take(0) =~= seq![]);
    while i < ids.len()
        invariant
            0 <= i <= ids@.len(),
            all == views(ids@),
            (parked@, out@) == turned_away(before, all.take(i as int), code),
        decreases ids@.len() - i,
    {
        let ghost next = all.take(i + 1);
        assert(next.drop_last() =~= all.take(i as int));
        assert(next.last() == ids@[i as int]@);
        if parked.joiners.remove(&ids[i]) {
            let ghost was = out.joins@;
            out.joins.push(JoinReply { member_id: ids[i].clone(), result: JoinResult::error(code, ids[i].clone()) });
            assert(views(out.joins@) =~= views(was).push((next.last(), join_error(code, next.last()))));
        }
        if parked.followers.remove(&ids[i]) {
            let ghost was = out.syncs@;
            out.syncs.push(SyncReply { member_id: ids[i].clone(), result: SyncResult::error(code) });
            assert(views(out.syncs@) =~= views(was).push((next.last(), sync_error(code))));
        }
        assert(parked@ =~= turned_away(before, next, code).0);
        i = i + 1;
    }
    assert(all.take(all.len() as int) =~= all);
    out
}

/// Ends a round.
pub fn complete_classic_rebalance(state: &mut ClassicGroup, parked: &mut Parked, now: u64, now_ms: i64) -> (r: Round)
    ensures
        final(state)@ == ended_round(old(state)@, old(parked)@, now).group,
        final(parked)@ == ended_round(old(state)@, old(parked)@, now).parked,
        r.is(ended_round(old(state)@, old(parked)@, now), old(state)@, now_ms),
{
    let ghost g = state@;
    let ghost p = parked@;
    let previous: ClassicGroup = state.dup();
    let mut replies = Replies::none();
    replies.syncs = answer_all_syncs(parked, codes::REBALANCE_IN_PROGRESS, &None, &None);
    let ghost woken = ParkedView { followers: Set::empty(), ..p };
    let ghost syncs = RepliesView { joins: seq![], syncs: all_synced(p.followers, sync_error(codes::REBALANCE_IN_PROGRESS)) };
    assert(replies@ =~= syncs);
    match try_complete(state, now) {
        Err(_) => {
            replies.joins = answer_all_joins(state, parked, true);
            state.rebalance_deadline = None;
            state.joined_this_round = OrdSet::new();
            Round { replies, emptied: None }
        },
        Ok(Completion::NotPreparing) => {
            replies.joins = answer_all_joins(state, parked, false);
            Round { replies, emptied: None }
        },
        Ok(Completion::Postponed { removed }) => {
            let told = turn_away(parked, &removed, codes::UNKNOWN_MEMBER_ID);
            replies.append(told);
            Round { replies, emptied: None }
        },
        Ok(Completion::Generation { removed }) => {
            let told = turn_away(parked, &removed, codes::UNKNOWN_MEMBER_ID);
            replies.append(told);
            let more = Replies { joins: answer_all_joins(state, parked, false), syncs: Vec::new() };
            assert(views(more.syncs@) =~= seq![]);
            replies.append(more);
            Round { replies, emptied: None }
        },
        Ok(Completion::Emptied { removed }) => {
            let told = turn_away(parked, &removed, codes::UNKNOWN_MEMBER_ID);
            replies.append(told);
            let more = Replies { joins: answer_all_joins(state, parked, false), syncs: Vec::new() };
            assert(views(more.syncs@) =~= seq![]);
            replies.append(more);
            let batch = classic_batch(state, now_ms);
            Round { replies, emptied: Some(Emptied { batch, previous }) }
        },
    }
}

/// Ends a round that may end early.
pub fn maybe_complete_classic(state: &mut ClassicGroup, parked: &mut Parked, now: u64, now_ms: i64) -> (r: Round)
    ensures
        final(state)@ == maybe_ended(old(state)@, old(parked)@, now).group,
        final(parked)@ == maybe_ended(old(state)@, old(parked)@, now).parked,
        r.is(maybe_ended(old(state)@, old(parked)@, now), old(state)@, now_ms),
{
    if state.generation_id > 0 && state.state == GroupState::PreparingRebalance && state.has_all_members_joined() {
        complete_classic_rebalance(state, parked, now, now_ms)
    } else {
        Round { replies: Replies::none(), emptied: None }
    }
}

/// Does what a round's deadline asks for, once it passed.
pub fn pass_deadline(state: &mut ClassicGroup, parked: &mut Parked, now: u64, now_ms: i64) -> (r: Round)
    ensures
        final(state)@ == deadline_passed(old(state)@, old(parked)@, now).group,
        final(parked)@ == deadline_passed(old(state)@, old(parked)@, now).parked,
        r.is(deadline_passed(old(state)@, old(parked)@, now), old(state)@, now_ms),
{
    if state.extend_initial_join(now) {
        Round { replies: Replies::none(), emptied: None }
    } else {
        complete_classic_rebalance(state, parked, now, now_ms)
    }
}

/// What becomes of a group that emptied once its batch was appended or not: it is what it was
/// before where it could not be written.
pub fn finish_emptied(state: &mut ClassicGroup, emptied: Emptied, appended: bool)
    ensures
        final(state)@ == if appended {
            old(state)@
        } else {
            emptied.previous@
        },
{
    if !appended {
        *state = emptied.previous;
    }
}

} // verus!
