//! When a consumer group becomes a classic group again.

use crate::classic_state::{ClassicGroup, ClassicGroupView};
use crate::config::ConsumerGroupMigrationPolicy;
use crate::consumer_state::{GroupStateView, MemberStateView, ReconcileInput, ReconcileInputView};
use crate::directory::Directory;
use crate::group::{CoordinatorGroup, CoordinatorGroupView, GroupKind, GroupKindView};
use crate::migration::{all_classic, consumer_is_convertible, convert_consumer_to_classic, downgrade_pending_records, downgrade_records, downgraded};
use crate::records::{RecordBatch, RecordBatchView};
use vstd::prelude::*;

verus! {

/// A consumer group that becomes classic once its records are appended.
#[derive(Debug, PartialEq, Eq)]
pub struct Downgrade {
    pub batch: RecordBatch,
    pub classic: ClassicGroup,
}

#[verifier::ext_equal]
pub struct DowngradeView {
    pub batch: RecordBatchView,
    pub classic: ClassicGroupView,
}

impl View for Downgrade {
    type V = DowngradeView;

    open spec fn view(&self) -> DowngradeView {
        DowngradeView { batch: self.batch@, classic: self.classic@ }
    }
}

/// What an optional downgrade stands for.
pub open spec fn opt_downgrade(o: Option<Downgrade>) -> Option<DowngradeView> {
    match o {
        Some(d) => Some(d@),
        None => None,
    }
}

/// Whether a consumer group is to become classic: it has members, all of them speak the classic
/// protocol, and the policy allows it.
pub open spec fn downgrades(g: GroupStateView, policy: ConsumerGroupMigrationPolicy) -> bool {
    policy.downgrades() && g.members != Map::<Seq<char>, MemberStateView>::empty() && all_classic(g)
}

/// Whether the group is to become classic now.
pub open spec fn downgrade_is_due(g: CoordinatorGroupView, policy: ConsumerGroupMigrationPolicy) -> bool {
    g.kind is Consumer && downgrades(g.kind->Consumer_0, policy)
}

/// Whether the group is to become classic now.
pub fn is_downgrade_due(group: &CoordinatorGroup, policy: ConsumerGroupMigrationPolicy) -> (r: bool)
    ensures
        r == downgrade_is_due(group@, policy),
{
    match &group.kind {
        GroupKind::Classic(_) => false,
        GroupKind::Consumer(state) => policy.allows_downgrade() && !state.members.is_empty() && consumer_is_convertible(state),
    }
}

/// What is to be appended for a group to become classic, and what it becomes, if it is to.
pub open spec fn downgrade_planned(
    g: CoordinatorGroupView,
    policy: ConsumerGroupMigrationPolicy,
    image: ReconcileInputView,
    now_ms: i64,
) -> Option<DowngradeView> {
    match g.kind {
        GroupKindView::Classic(_) => None,
        GroupKindView::Consumer(state) => if downgrades(state, policy) {
            let classic = downgraded(state, image);
            Some(
                DowngradeView {
                    batch: RecordBatchView::of(g.group_id, downgrade_records(state, classic, now_ms).written(), now_ms),
                    classic,
                },
            )
        } else {
            None
        },
    }
}

/// What is to be appended for a group to become classic, if it is to.
pub fn plan_downgrade(group: &CoordinatorGroup, policy: ConsumerGroupMigrationPolicy, image: &ReconcileInput, now_ms: i64) -> (r: Option<Downgrade>)
    ensures
        opt_downgrade(r) == downgrade_planned(group@, policy, image@, now_ms),
{
    match &group.kind {
        GroupKind::Classic(_) => None,
        GroupKind::Consumer(state) => {
            if !is_downgrade_due(group, policy) {
                return None;
            }
            let classic = convert_consumer_to_classic(state, image);
            let pending = downgrade_pending_records(state, &classic, now_ms);
            let batch = pending.to_batch(&group.group_id, now_ms);
            Some(Downgrade { batch, classic })
        },
    }
}

/// Makes the group classic once its records are appended. Where they could not be, the group stays
/// as it is and can no longer be served; the result is whether it can.
pub fn finish_downgrade(group: &mut CoordinatorGroup, dir: &mut Directory, plan: Downgrade, appended: bool) -> (running: bool)
    ensures
        running == appended,
        final(group)@ == if appended {
            (CoordinatorGroupView { kind: GroupKindView::Classic(plan.classic@), ..old(group)@ })
        } else {
            old(group)@
        },
        final(dir)@ == if appended {
            old(dir)@.with_classic(old(group)@.group_id)
        } else {
            old(dir)@
        },
{
    if !appended {
        return false;
    }
    dir.mark_classic_after_downgrade(&group.group_id);
    group.kind = GroupKind::Classic(plan.classic);
    true
}

} // verus!
