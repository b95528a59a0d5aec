//! A `ConsumerGroupHeartbeat` from request to answer, with the appends that it waits for.

use crate::assignor::Assignor;
use crate::classic_sync::{beating, handle_heartbeat};
use crate::codes;
use crate::config::{ConsumerGroupMigrationPolicy, NextGenConfig};
use crate::consumer_state::{GroupState, GroupStateView, ReconcileInput, ReconcileInputView, reconciled};
use crate::directory::{Directory, DirectoryView};
use crate::downgrade::{Downgrade, DowngradeView, downgrade_planned, opt_downgrade, plan_downgrade};
use crate::group::{CoordinatorGroup, CoordinatorGroupView, GroupKind, GroupKindView};
use crate::heartbeat::{
    ClientIdentity, ClientIdentityView, ConsumerGroupHeartbeatRequest, ConsumerGroupHeartbeatResponse, HeartbeatRequestView, HeartbeatResponseView, beat,
    goes_on, only_goes_on, step_heartbeat_with_id, with_refreshed,
};
use crate::hosting::{hosted_heartbeat, serve_classic_heartbeat};
use crate::ids::{fresh_uuid, uuid_text};
use crate::migration::{
    all_classic, classic_is_convertible, convert_classic_to_consumer, convertible, upgrade_pending_records, upgrade_records, upgraded,
};
use crate::ordmap::OrdSet;
use crate::pending_records::{PendingRecords, PendingRecordsView, seeds_after};
use crate::records::{RecordBatch, RecordBatchView};
use crate::requests::HeartbeatRequest;
use vstd::prelude::*;

verus! {

/// The batch that a delta is written as.
pub open spec fn delta_batch(group_id: Seq<char>, pending: PendingRecordsView, now_ms: i64) -> RecordBatchView {
    RecordBatchView::of(group_id, pending.written(), now_ms)
}

/// How far a heartbeat has come.
#[derive(Debug, PartialEq, Eq)]
pub enum HeartbeatTurn {
    /// It is answered; the group may have to become classic after it.
    Answered { reply: ConsumerGroupHeartbeatResponse, downgrade: Option<Downgrade> },
    /// The group becomes a consumer group once the batch is appended; then the heartbeat begins.
    Upgrade { batch: RecordBatch, pending: PendingRecords, state: GroupState },
    /// It is answered once the batch is appended.
    Persist { batch: RecordBatch, pending: PendingRecords, reply: ConsumerGroupHeartbeatResponse },
}

#[verifier::ext_equal]
pub enum HeartbeatTurnView {
    Answered { reply: HeartbeatResponseView, downgrade: Option<DowngradeView> },
    Upgrade { batch: RecordBatchView, pending: PendingRecordsView, state: GroupStateView },
    Persist { batch: RecordBatchView, pending: PendingRecordsView, reply: HeartbeatResponseView },
}

impl View for HeartbeatTurn {
    type V = HeartbeatTurnView;

    open spec fn view(&self) -> HeartbeatTurnView {
        match self {
            HeartbeatTurn::Answered { reply, downgrade } => HeartbeatTurnView::Answered { reply: reply@, downgrade: opt_downgrade(*downgrade) },
            HeartbeatTurn::Upgrade { batch, pending, state } => HeartbeatTurnView::Upgrade { batch: batch@, pending: pending@, state: state@ },
            HeartbeatTurn::Persist { batch, pending, reply } => HeartbeatTurnView::Persist { batch: batch@, pending: pending@, reply: reply@ },
        }
    }
}

/// A heartbeat begins. A classic group that may not become a consumer group does not know it; one
/// that may becomes one first. In a consumer group the heartbeat is decided, and answered at once
/// where it writes nothing.
pub open spec fn heartbeat_begun<A: Assignor>(
    g: CoordinatorGroupView,
    config: NextGenConfig<A>,
    input: ReconcileInputView,
    req: HeartbeatRequestView,
    minted: Seq<char>,
    client: ClientIdentityView,
    now: u64,
    now_ms: i64,
    authorized: Set<Seq<char>>,
) -> (CoordinatorGroupView, HeartbeatTurnView) {
    match g.kind {
        GroupKindView::Classic(classic) => if !config.migration_policy.upgrades() || !convertible(classic) {
            (g, HeartbeatTurnView::Answered { reply: HeartbeatResponseView::bare(codes::GROUP_ID_NOT_FOUND), downgrade: None })
        } else {
            let state = upgraded(classic, now);
            let pending = upgrade_records(state);
            (g, HeartbeatTurnView::Upgrade { batch: delta_batch(g.group_id, pending, now_ms), pending, state })
        },
        GroupKindView::Consumer(state) => {
            let (after, step) = beat(state, config, input, req, minted, client, now, authorized);
            let h = CoordinatorGroupView { kind: GroupKindView::Consumer(after), ..g };
            if step.pending == PendingRecordsView::none() {
                (
                    h,
                    HeartbeatTurnView::Answered { reply: step.response, downgrade: downgrade_planned(h, config.migration_policy, input, now_ms) },
                )
            } else {
                (
                    h,
                    HeartbeatTurnView::Persist { batch: delta_batch(g.group_id, step.pending, now_ms), pending: step.pending, reply: step.response },
                )
            }
        },
    }
}

/// Whether what the topics look like may matter to a heartbeat. It does not to one that only goes on,
/// nor to a group that is classic yet.
pub open spec fn topics_matter(g: CoordinatorGroupView, req: HeartbeatRequestView, authorized: Set<Seq<char>>) -> bool {
    g.kind is Consumer && !goes_on(g.kind->Consumer_0, req, authorized)
}

/// Whether what the topics look like may matter to a heartbeat.
pub fn heartbeat_looks_at_topics(group: &CoordinatorGroup, req: &ConsumerGroupHeartbeatRequest, authorized: &OrdSet<String>) -> (r: bool)
    ensures
        r == topics_matter(group@, req@, authorized@),
{
    match &group.kind {
        GroupKind::Classic(_) => false,
        GroupKind::Consumer(state) => !only_goes_on(state, req, authorized),
    }
}

/// Where the topics do not matter to a heartbeat, the answer, the group after it and what is written
/// are the same whatever they look like: they need not be looked at.
pub proof fn steady_heartbeat_ignores_topics<A: Assignor>(
    g: CoordinatorGroupView,
    config: NextGenConfig<A>,
    a: ReconcileInputView,
    b: ReconcileInputView,
    req: HeartbeatRequestView,
    minted: Seq<char>,
    client: ClientIdentityView,
    now: u64,
    now_ms: i64,
    authorized: Set<Seq<char>>,
)
    requires
        !topics_matter(g, req, authorized),
    ensures
        heartbeat_begun(g, config, a, req, minted, client, now, now_ms, authorized) == heartbeat_begun(
            g,
            config,
            b,
            req,
            minted,
            client,
            now,
            now_ms,
            authorized,
        ),
{
    if let GroupKindView::Consumer(state) = g.kind {
        let id = req.member_id;
        let g1 = with_refreshed(state, id, req, client, now, authorized);
        assert(!g1.dirty);
        assert(reconciled(g1, config.assignors@, a) == g1);
        assert(reconciled(g1, config.assignors@, b) == g1);
        let (after, _) = beat(state, config, a, req, minted, client, now, authorized);
        assert(after.members.contains_key(id) && after.members[id].classic is None);
        assert(!all_classic(after));
    }
}

/// Begins a heartbeat; `minted` is the id for a member that sends none.
pub fn begin_heartbeat_with_id<A: Assignor>(
    group: &mut CoordinatorGroup,
    config: &NextGenConfig<A>,
    input: &ReconcileInput,
    req: &ConsumerGroupHeartbeatRequest,
    minted: &String,
    client: &ClientIdentity,
    now: u64,
    now_ms: i64,
    authorized: &OrdSet<String>,
) -> (r: HeartbeatTurn)
    requires
        config.assignors@.len() > 0,
    ensures
        (final(group)@, r@) == heartbeat_begun(old(group)@, *config, input@, req@, minted@, client@, now, now_ms, authorized@),
{
    let ghost g = group@;
    let step = match &mut group.kind {
        GroupKind::Classic(classic) => {
            if !config.migration_policy.allows_upgrade() || !classic_is_convertible(classic) {
                return HeartbeatTurn::Answered { reply: ConsumerGroupHeartbeatResponse::bare(codes::GROUP_ID_NOT_FOUND), downgrade: None };
            }
            let state = convert_classic_to_consumer(classic, now);
            let pending = upgrade_pending_records(&state);
            let batch = pending.to_batch(&group.group_id, now_ms);
            return HeartbeatTurn::Upgrade { batch, pending, state };
        },
        GroupKind::Consumer(state) => step_heartbeat_with_id(state, config, input, req, minted, client, now, authorized),
    };
    if step.pending.is_empty() {
        let downgrade = plan_downgrade(group, config.migration_policy, input, now_ms);
        return HeartbeatTurn::Answered { reply: step.response, downgrade };
    }
    let batch = step.pending.to_batch(&group.group_id, now_ms);
    HeartbeatTurn::Persist { batch, pending: step.pending, reply: step.response }
}

/// Begins a heartbeat. A member that sends no id gets a fresh one.
pub fn begin_heartbeat<A: Assignor>(
    group: &mut CoordinatorGroup,
    config: &NextGenConfig<A>,
    input: &ReconcileInput,
    req: &ConsumerGroupHeartbeatRequest,
    client: &ClientIdentity,
    now: u64,
    now_ms: i64,
    authorized: &OrdSet<String>,
) -> (r: HeartbeatTurn)
    requires
        config.assignors@.len() > 0,
    ensures
        exists|minted: Seq<char>| #[trigger] uuid_text(minted) && (final(group)@, r@) == heartbeat_begun(
            old(group)@,
            *config,
            input@,
            req@,
            minted,
            client@,
            now,
            now_ms,
            authorized@,
        ),
{
    let minted = fresh_uuid();
    begin_heartbeat_with_id(group, config, input, req, &minted, client, now, now_ms, authorized)
}

/// Makes the group a consumer group once its records are appended. Where they could not be, the
/// result is the answer, and the group can no longer be served.
pub fn finish_upgrade(group: &mut CoordinatorGroup, dir: &mut Directory, pending: PendingRecords, state: GroupState, appended: bool) -> (r: Option<
    ConsumerGroupHeartbeatResponse,
>)
    ensures
        match r {
            Some(reply) => !appended && reply@ == HeartbeatResponseView::bare(codes::COORDINATOR_LOAD_IN_PROGRESS),
            None => appended,
        },
        final(group)@ == if appended {
            (CoordinatorGroupView { kind: GroupKindView::Consumer(state@), ..old(group)@ })
        } else {
            old(group)@
        },
        final(dir)@ == if appended {
            (DirectoryView { seeds: seeds_after(old(dir)@.seeds, old(group)@.group_id, pending@), ..old(dir)@ })
        } else {
            old(dir)@
        },
{
    if !appended {
        return Some(ConsumerGroupHeartbeatResponse::bare(codes::COORDINATOR_LOAD_IN_PROGRESS));
    }
    pending.apply_to_cache(&mut dir.seeds, &group.group_id);
    group.kind = GroupKind::Consumer(state);
    None
}

/// The end of a heartbeat.
#[derive(Debug, PartialEq, Eq)]
pub struct HeartbeatEnd {
    pub reply: ConsumerGroupHeartbeatResponse,
    /// What has to be appended for the group to become classic, if it is to.
    pub downgrade: Option<Downgrade>,
    /// Whether the group can still be served.
    pub running: bool,
}

/// Answers a heartbeat once its records are appended, and brings them to the seeds. Where they
/// could not be, the group can no longer be served.
pub fn finish_heartbeat(
    group: &CoordinatorGroup,
    dir: &mut Directory,
    policy: ConsumerGroupMigrationPolicy,
    input: &ReconcileInput,
    pending: PendingRecords,
    reply: ConsumerGroupHeartbeatResponse,
    appended: bool,
    now_ms: i64,
) -> (r: HeartbeatEnd)
    ensures
        r.running == appended,
        r.reply@ == if appended {
            reply@
        } else {
            HeartbeatResponseView::bare(codes::COORDINATOR_LOAD_IN_PROGRESS)
        },
        opt_downgrade(r.downgrade) == if appended {
            downgrade_planned(group@, policy, input@, now_ms)
        } else {
            None
        },
        final(dir)@ == if appended {
            (DirectoryView { seeds: seeds_after(old(dir)@.seeds, group@.group_id, pending@), ..old(dir)@ })
        } else {
            old(dir)@
        },
{
    if !appended {
        return HeartbeatEnd {
            reply: ConsumerGroupHeartbeatResponse::bare(codes::COORDINATOR_LOAD_IN_PROGRESS),
            downgrade: None,
            running: false,
        };
    }
    pending.apply_to_cache(&mut dir.seeds, &group.group_id);
    let downgrade = plan_downgrade(group, policy, input, now_ms);
    HeartbeatEnd { reply, downgrade, running: true }
}

/// A classic `Heartbeat`, in whichever protocol the group speaks.
pub open spec fn classic_beat(g: CoordinatorGroupView, req: HeartbeatRequest, image: ReconcileInputView, now: u64) -> (CoordinatorGroupView, i16) {
    match g.kind {
        GroupKindView::Classic(state) => {
            let (h, code) = beating(state, req, now);
            (CoordinatorGroupView { kind: GroupKindView::Classic(h), ..g }, code)
        },
        GroupKindView::Consumer(state) => {
            let (h, code) = hosted_heartbeat(state, req.member_id@, image, now);
            (CoordinatorGroupView { kind: GroupKindView::Consumer(h), ..g }, code)
        },
    }
}

/// Answers a classic `Heartbeat`.
pub fn handle_classic_heartbeat_message(group: &mut CoordinatorGroup, image: &ReconcileInput, req: &HeartbeatRequest, now: u64) -> (r: i16)
    ensures
        (final(group)@, r) == classic_beat(old(group)@, *req, image@, now),
{
    match &mut group.kind {
        GroupKind::Classic(state) => handle_heartbeat(state, req, now),
        GroupKind::Consumer(state) => serve_classic_heartbeat(state, &req.member_id, image, now),
    }
}

} // verus!
