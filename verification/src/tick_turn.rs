//! The periodic expiry of members, with the appends that it waits for.

use crate::assignor::Assignor;
use crate::classic_state::{ClassicGroup, ClassicGroupView, MemberView};
use crate::config::{ConsumerGroupMigrationPolicy, NextGenConfig};
use crate::consumer_state::{GroupStateView, ReconcileInput, ReconcileInputView, reconciled};
use crate::directory::{Directory, DirectoryView};
use crate::downgrade::{Downgrade, DowngradeView, downgrade_is_due, downgrade_planned, is_downgrade_due, opt_downgrade, plan_downgrade};
use crate::group::{CoordinatorGroup, CoordinatorGroupView, GroupKind, GroupKindView};
use crate::heartbeat_turn::delta_batch;
use crate::leave_turn::{depart, departed};
use crate::ordmap::{Dup, listing, views};
use crate::pending_records::{PendingRecords, PendingRecordsView, seeds_after};
use crate::persistence::{snapshot, snapshot_pending_after_change};
use crate::records::{RecordBatch, RecordBatchView, opt_view};
use crate::waiters::{Emptied, EmptiedView, Parked, ParkedView, Replies, RepliesView, classic_batch, snapshot_batch};
use vstd::prelude::*;

verus! {

/// How far a tick has come.
#[derive(Debug, PartialEq, Eq)]
pub enum TickTurn {
    /// It is over, but for a downgrade that may follow. `running` tells whether the group can still
    /// be served.
    Done { replies: Replies, emptied: Option<Emptied>, downgrade: Option<Downgrade>, running: bool },
    /// It goes on once the classic group that it emptied is written.
    Persist { batch: RecordBatch, previous: ClassicGroup, removed: Vec<String> },
    /// It goes on once the consumer group is written.
    Delta { batch: RecordBatch, pending: PendingRecords },
}

#[verifier::ext_equal]
pub enum TickTurnView {
    Done { replies: RepliesView, emptied: Option<EmptiedView>, downgrade: Option<DowngradeView>, running: bool },
    Persist { batch: RecordBatchView, previous: ClassicGroupView, removed: Seq<Seq<char>> },
    Delta { batch: RecordBatchView, pending: PendingRecordsView },
}

impl View for TickTurn {
    type V = TickTurnView;

    open spec fn view(&self) -> TickTurnView {
        match self {
            TickTurn::Done { replies, emptied, downgrade, running } => TickTurnView::Done {
                replies: replies@,
                emptied: opt_view(*emptied),
                downgrade: opt_downgrade(*downgrade),
                running: *running,
            },
            TickTurn::Persist { batch, previous, removed } => TickTurnView::Persist { batch: batch@, previous: previous@, removed: views(removed@) },
            TickTurn::Delta { batch, pending } => TickTurnView::Delta { batch: batch@, pending: pending@ },
        }
    }
}

/// A tick that is over, with nothing else to do.
pub open spec fn ticked(downgrade: Option<DowngradeView>, running: bool) -> TickTurnView {
    TickTurnView::Done { replies: RepliesView::none(), emptied: None, downgrade, running }
}

/// A tick of a classic group: the members whose session ran out are gone. Where they were the last,
/// a generation without members begins, to be written first; where generations are used up the group
/// stays as it is and can no longer be served.
pub open spec fn classic_tick_begun(state: ClassicGroupView, parked: ParkedView, delay: u64, now: u64, now_ms: i64) -> (
    ClassicGroupView,
    ParkedView,
    TickTurnView,
) {
    let dropped = listing::<String>(state.dead_members(now));
    let h = state.expired(now, delay);
    if dropped.len() == 0 {
        (h, parked, ticked(None, true))
    } else if h.members == Map::<Seq<char>, MemberView>::empty() {
        if h.generation_id == i32::MAX {
            (state, parked, ticked(None, false))
        } else {
            let k = ClassicGroupView { generation_id: (h.generation_id + 1) as i32, ..h };
            (k, parked, TickTurnView::Persist { batch: snapshot_batch(k, now_ms), previous: state, removed: dropped })
        }
    } else {
        let round = departed(h, parked, dropped, now);
        (
            round.group,
            round.parked,
            TickTurnView::Done { replies: round.replies, emptied: round.to_write(h, now_ms), downgrade: None, running: true },
        )
    }
}

/// The members of a consumer group that were not heard of are gone, and the others get a new target.
pub open spec fn evicted<A: Assignor>(state: GroupStateView, config: NextGenConfig<A>, input: ReconcileInputView, now: u64) -> GroupStateView {
    let silent = listing::<String>(state.silent_members(now, config.session_timeout));
    reconciled(state.without_members(silent), config.assignors@, input)
}

/// A tick begins.
pub open spec fn tick_begun<A: Assignor>(
    g: CoordinatorGroupView,
    parked: ParkedView,
    config: NextGenConfig<A>,
    input: ReconcileInputView,
    now: u64,
    now_ms: i64,
) -> (CoordinatorGroupView, ParkedView, TickTurnView) {
    match g.kind {
        GroupKindView::Classic(state) => {
            let (h, left, turn) = classic_tick_begun(state, parked, config.classic_initial_rebalance_delay, now, now_ms);
            (CoordinatorGroupView { kind: GroupKindView::Classic(h), ..g }, left, turn)
        },
        GroupKindView::Consumer(state) => {
            let silent = listing::<String>(state.silent_members(now, config.session_timeout));
            if silent.len() == 0 {
                (g, parked, ticked(downgrade_planned(g, config.migration_policy, input, now_ms), true))
            } else {
                let h = evicted(state, config, input, now);
                let pending = snapshot(h, seq![], true).and_all_gone(silent);
                (
                    CoordinatorGroupView { kind: GroupKindView::Consumer(h), ..g },
                    parked,
                    TickTurnView::Delta { batch: delta_batch(g.group_id, pending, now_ms), pending },
                )
            }
        },
    }
}

/// Whether what the topics look like may matter to a tick: a consumer group has lost members, or is
/// to become classic.
pub open spec fn topics_matter_to_tick<A: Assignor>(g: CoordinatorGroupView, config: NextGenConfig<A>, now: u64) -> bool {
    &&& g.kind is Consumer
    &&& listing::<String>(g.kind->Consumer_0.silent_members(now, config.session_timeout)).len() > 0 || downgrade_is_due(g, config.migration_policy)
}

/// Whether what the topics look like may matter to a tick.
pub fn tick_looks_at_topics<A: Assignor>(group: &CoordinatorGroup, config: &NextGenConfig<A>, now: u64) -> (r: bool)
    ensures
        r == topics_matter_to_tick(group@, *config, now),
{
    match &group.kind {
        GroupKind::Classic(_) => false,
        GroupKind::Consumer(state) => {
            let silent = state.silent(now, config.session_timeout);
            assert(views(silent@).len() == silent@.len());
            silent.len() > 0 || is_downgrade_due(group, config.migration_policy)
        },
    }
}

/// Where the topics do not matter to a tick, it is the same whatever they look like.
pub proof fn quiet_tick_ignores_topics<A: Assignor>(
    g: CoordinatorGroupView,
    parked: ParkedView,
    config: NextGenConfig<A>,
    a: ReconcileInputView,
    b: ReconcileInputView,
    now: u64,
    now_ms: i64,
)
    requires
        !topics_matter_to_tick(g, config, now),
    ensures
        tick_begun(g, parked, config, a, now, now_ms) == tick_begun(g, parked, config, b, now, now_ms),
{
}

fn begin_classic_tick(state: &mut ClassicGroup, parked: &mut Parked, delay: u64, now: u64, now_ms: i64) -> (r: TickTurn)
    ensures
        (final(state)@, final(parked)@, r@) == classic_tick_begun(old(state)@, old(parked)@, delay, now, now_ms),
{
    let previous: ClassicGroup = state.dup();
    let removed = state.expire_dead_members(now, delay);
    assert(views(removed@).len() == removed@.len());
    if removed.len() == 0 {
        return TickTurn::Done { replies: Replies::none(), emptied: None, downgrade: None, running: true };
    }
    if state.members.is_empty() {
        if state.generation_id == i32::MAX {
            *state = previous;
            return TickTurn::Done { replies: Replies::none(), emptied: None, downgrade: None, running: false };
        }
        state.generation_id = state.generation_id + 1;
        let batch = classic_batch(state, now_ms);
        return TickTurn::Persist { batch, previous, removed };
    }
    let (replies, emptied) = depart(state, parked, &removed, now, now_ms);
    TickTurn::Done { replies, emptied, downgrade: None, running: true }
}

/// Begins a tick.
pub fn begin_tick<A: Assignor>(group: &mut CoordinatorGroup, parked: &mut Parked, config: &NextGenConfig<A>, input: &ReconcileInput, now: u64, now_ms: i64) -> (r:
    TickTurn)
    requires
        config.assignors@.len() > 0,
    ensures
        (final(group)@, final(parked)@, r@) == tick_begun(old(group)@, old(parked)@, *config, input@, now, now_ms),
{
    let ghost g = group@;
    let gone: Vec<String> = match &mut group.kind {
        GroupKind::Classic(state) => {
            return begin_classic_tick(state, parked, config.classic_initial_rebalance_delay, now, now_ms);
        },
        GroupKind::Consumer(state) => state.evict_expired(now, config.session_timeout),
    };
    assert(views(gone@).len() == gone@.len());
    if gone.len() == 0 {
        assert(views(gone@) =~= seq![]);
        assert(group@ =~= g);
        let downgrade = plan_downgrade(group, config.migration_policy, input, now_ms);
        return TickTurn::Done { replies: Replies::none(), emptied: None, downgrade, running: true };
    }
    let mut pending = match &mut group.kind {
        GroupKind::Classic(_) => PendingRecords::none(),
        GroupKind::Consumer(state) => {
            state.reconcile_if_dirty(input, config);
            let none: Vec<String> = Vec::new();
            assert(views(none@) =~= seq![]);
            snapshot_pending_after_change(state, &none, true)
        },
    };
    pending.push_all_gone(&gone);
    let batch = pending.to_batch(&group.group_id, now_ms);
    TickTurn::Delta { batch, pending }
}

/// The rest of a tick that emptied a classic group.
pub open spec fn classic_tick_finished(
    state: ClassicGroupView,
    parked: ParkedView,
    previous: ClassicGroupView,
    removed: Seq<Seq<char>>,
    appended: bool,
    now: u64,
    now_ms: i64,
) -> (ClassicGroupView, ParkedView, TickTurnView) {
    if appended {
        let round = departed(state, parked, removed, now);
        (
            round.group,
            round.parked,
            TickTurnView::Done { replies: round.replies, emptied: round.to_write(state, now_ms), downgrade: None, running: true },
        )
    } else {
        (previous, parked, ticked(None, true))
    }
}

/// Goes on with a tick that emptied a classic group once that is written. Where it could not be, the
/// group is what it was before, and the next tick tries again.
pub fn finish_classic_tick(
    state: &mut ClassicGroup,
    parked: &mut Parked,
    previous: ClassicGroup,
    removed: &Vec<String>,
    appended: bool,
    now: u64,
    now_ms: i64,
) -> (r: TickTurn)
    ensures
        (final(state)@, final(parked)@, r@) == classic_tick_finished(old(state)@, old(parked)@, previous@, views(removed@), appended, now, now_ms),
{
    if !appended {
        *state = previous;
        return TickTurn::Done { replies: Replies::none(), emptied: None, downgrade: None, running: true };
    }
    let (replies, emptied) = depart(state, parked, removed, now, now_ms);
    TickTurn::Done { replies, emptied, downgrade: None, running: true }
}

/// Goes on with a tick of a consumer group once that is written, and brings the records to the seeds.
/// Where it could not be, the group can no longer be served.
pub fn finish_consumer_tick(
    group: &CoordinatorGroup,
    dir: &mut Directory,
    policy: ConsumerGroupMigrationPolicy,
    input: &ReconcileInput,
    pending: PendingRecords,
    appended: bool,
    now_ms: i64,
) -> (r: TickTurn)
    ensures
        r@ == if appended {
            ticked(downgrade_planned(group@, policy, input@, now_ms), true)
        } else {
            ticked(None, false)
        },
        final(dir)@ == if appended {
            (DirectoryView { seeds: seeds_after(old(dir)@.seeds, group@.group_id, pending@), ..old(dir)@ })
        } else {
            old(dir)@
        },
{
    if !appended {
        return TickTurn::Done { replies: Replies::none(), emptied: None, downgrade: None, running: false };
    }
    pending.apply_to_cache(&mut dir.seeds, &group.group_id);
    let downgrade = plan_downgrade(group, policy, input, now_ms);
    TickTurn::Done { replies: Replies::none(), emptied: None, downgrade, running: true }
}

/// When the open round of a classic group is to end.
pub fn classic_deadline(group: &CoordinatorGroup) -> (r: Option<u64>)
    ensures
        r == match group@.kind {
            GroupKindView::Classic(state) => state.rebalance_deadline,
            GroupKindView::Consumer(_) => None,
        },
{
    match &group.kind {
        GroupKind::Classic(state) => state.rebalance_deadline,
        GroupKind::Consumer(_) => None,
    }
}

} // verus!
