//! What is written of a group: its state as records.

use crate::classic_state::{ClassicGroup, ClassicGroupView, Member, MemberView, dup_protocols};
use crate::consumer_state::{ClassicMemberFacadeView, GroupState, GroupStateView, MemberState, MemberStateView};
use crate::ordmap::{Dup, Key, OrdMap, OrdSet, listing, views};
use crate::partitions::{Partitions, PartitionsView};
use crate::pending_records::{Entry, PendingRecords, PendingRecordsView};
use crate::records::{
    ClassicGroupMetadataValue, ClassicGroupMetadataView, ClassicMemberMetadata, ClassicMemberMetadataView, ClassicMemberRecord, ClassicMemberRecordView,
    CurrentAssignmentView, CurrentMemberAssignmentValue, MemberMetadataValue, MemberMetadataView, opt_view,
};
use crate::text::{dup_opt_str, holds_str};
use vstd::prelude::*;

verus! {

/// What a session timeout is taken for that does not fit its record, in milliseconds.
pub const FALLBACK_SESSION_TIMEOUT_MS: i32 = 30_000;

/// What a rebalance timeout is taken for that does not fit its record, in milliseconds.
pub const FALLBACK_REBALANCE_TIMEOUT_MS: i32 = 60_000;

/// A time as a record holds it, or `fallback` where it does not fit.
pub open spec fn fitted(ms: u64, fallback: i32) -> i32 {
    if ms <= i32::MAX {
        ms as i32
    } else {
        fallback
    }
}

/// A time as a record holds it.
pub fn fit(ms: u64, fallback: i32) -> (r: i32)
    ensures
        r == fitted(ms, fallback),
{
    if ms <= 2_147_483_647 {
        ms as i32
    } else {
        fallback
    }
}

/// The members of a set, in order.
pub fn list_of<K: Key>(set: &OrdSet<K>) -> (r: Vec<K>)
    ensures
        views(r@) == listing::<K>(set@),
{
    let n: usize = set.len();
    let mut out: Vec<K> = Vec::new();
    let mut i: usize = 0;
    while i < n
        invariant
            0 <= i <= n,
            n == set.keys().len(),
            out@.len() == i,
            forall|j: int| 0 <= j < i ==> (#[trigger] out@[j])@ == set.keys()[j],
        decreases n - i,
    {
        out.push(set.at(i).dup());
        i = i + 1;
    }
    assert(views(out@) =~= set.keys());
    out
}

/// The keys of a map, in order.
pub fn keys_of<V: View>(map: &OrdMap<String, V>) -> (r: Vec<String>)
    ensures
        views(r@) == listing::<String>(map@.dom()),
{
    let n: usize = map.len();
    let mut out: Vec<String> = Vec::new();
    let mut i: usize = 0;
    while i < n
        invariant
            0 <= i <= n,
            n == map.keys().len(),
            out@.len() == i,
            forall|j: int| 0 <= j < i ==> (#[trigger] out@[j])@ == map.keys()[j],
        decreases n - i,
    {
        out.push(map.key_at(i).clone());
        i = i + 1;
    }
    assert(views(out@) =~= map.keys());
    out
}

/// What is kept of a member's classic side.
pub open spec fn kept_facade(f: ClassicMemberFacadeView) -> ClassicMemberMetadataView {
    ClassicMemberMetadataView {
        session_timeout_ms: fitted(f.session_timeout, FALLBACK_SESSION_TIMEOUT_MS),
        supported_protocols: f.supported_protocols,
        last_synced_assignment: f.last_synced_assignment,
    }
}

/// What is kept of who a member is.
pub open spec fn kept_member(m: MemberStateView) -> MemberMetadataView {
    MemberMetadataView {
        instance_id: m.instance_id,
        rack_id: m.rack_id,
        client_id: m.client_id,
        client_host: m.client_host,
        subscribed_topic_names: listing::<String>(m.subscribed_topic_names),
        subscribed_topic_regex: m.subscribed_topic_regex,
        server_assignor: m.server_assignor,
        rebalance_timeout_ms: fitted(m.rebalance_timeout, FALLBACK_REBALANCE_TIMEOUT_MS),
        classic: match m.classic {
            Some(f) => Some(kept_facade(f)),
            None => None,
        },
    }
}

/// What is kept of what a member holds.
pub open spec fn kept_assignment(m: MemberStateView) -> CurrentAssignmentView {
    CurrentAssignmentView {
        member_epoch: m.member_epoch,
        previous_member_epoch: m.previous_member_epoch,
        state: m.assignment_state,
        assigned_partitions: m.assigned_partitions,
        partitions_pending_revocation: m.partitions_pending_revocation,
    }
}

fn classic_member_metadata(m: &MemberState) -> (r: Option<ClassicMemberMetadata>)
    ensures
        opt_view(r) == kept_member(m@).classic,
{
    match &m.classic {
        Some(f) => Some(
            ClassicMemberMetadata {
                session_timeout_ms: fit(f.session_timeout, FALLBACK_SESSION_TIMEOUT_MS),
                supported_protocols: dup_protocols(&f.supported_protocols),
                last_synced_assignment: f.last_synced_assignment.dup(),
            },
        ),
        None => None,
    }
}

/// What is kept of who a member is.
pub fn member_metadata_value(m: &MemberState) -> (r: MemberMetadataValue)
    ensures
        r@ == kept_member(m@),
{
    MemberMetadataValue {
        instance_id: dup_opt_str(&m.instance_id),
        rack_id: dup_opt_str(&m.rack_id),
        client_id: m.client_id.clone(),
        client_host: m.client_host.clone(),
        subscribed_topic_names: list_of(&m.subscribed_topic_names),
        subscribed_topic_regex: dup_opt_str(&m.subscribed_topic_regex),
        server_assignor: dup_opt_str(&m.server_assignor),
        rebalance_timeout_ms: fit(m.rebalance_timeout, FALLBACK_REBALANCE_TIMEOUT_MS),
        classic: classic_member_metadata(m),
    }
}

/// What is kept of what a member holds.
pub fn current_assignment_value(m: &MemberState) -> (r: CurrentMemberAssignmentValue)
    ensures
        r@ == kept_assignment(m@),
{
    CurrentMemberAssignmentValue {
        member_epoch: m.member_epoch,
        previous_member_epoch: m.previous_member_epoch,
        state: m.assignment_state,
        assigned_partitions: m.assigned_partitions.dup(),
        partitions_pending_revocation: m.partitions_pending_revocation.dup(),
    }
}

/// Those of `ids` that are members of the group.
pub open spec fn present(g: GroupStateView, ids: Seq<Seq<char>>) -> Seq<Seq<char>>
    decreases ids.len(),
{
    if ids.len() == 0 {
        seq![]
    } else if g.members.contains_key(ids.last()) {
        present(g, ids.drop_last()).push(ids.last())
    } else {
        present(g, ids.drop_last())
    }
}

/// Those of `all` that are not among `ids`.
pub open spec fn apart(all: Seq<Seq<char>>, ids: Seq<Seq<char>>) -> Seq<Seq<char>>
    decreases all.len(),
{
    if all.len() == 0 {
        seq![]
    } else if ids.contains(all.last()) {
        apart(all.drop_last(), ids)
    } else {
        apart(all.drop_last(), ids).push(all.last())
    }
}

/// What is written of who the members `ids` are.
pub open spec fn member_entries(g: GroupStateView, ids: Seq<Seq<char>>) -> Seq<(Seq<char>, Option<MemberMetadataView>)> {
    Seq::new(ids.len(), |i: int| (ids[i], Some(kept_member(g.members[ids[i]]))))
}

/// What is written of what the members `ids` hold.
pub open spec fn current_entries(g: GroupStateView, ids: Seq<Seq<char>>) -> Seq<(Seq<char>, Option<CurrentAssignmentView>)> {
    Seq::new(ids.len(), |i: int| (ids[i], Some(kept_assignment(g.members[ids[i]]))))
}

/// What is written of what `ids` are to hold.
pub open spec fn target_entries(g: GroupStateView, ids: Seq<Seq<char>>) -> Seq<(Seq<char>, Option<PartitionsView>)> {
    Seq::new(
        ids.len(),
        |i: int|
            (
                ids[i],
                if g.target.contains_key(ids[i]) {
                    Some(g.target[ids[i]])
                } else {
                    None
                },
            ),
    )
}

/// What a change of the group writes: who the members `ids` are and what they hold; where there is
/// a new target, the target of everyone and what everyone holds.
pub open spec fn snapshot(g: GroupStateView, ids: Seq<Seq<char>>, target_changed: bool) -> PendingRecordsView {
    let all = listing::<String>(g.members.dom());
    PendingRecordsView {
        group_metadata: Some(g.group_epoch),
        member_metadata: member_entries(g, present(g, ids)),
        target_metadata: if target_changed {
            Some(g.target_epoch)
        } else {
            None
        },
        target_per_member: if target_changed {
            target_entries(g, all)
        } else {
            seq![]
        },
        current_per_member: if target_changed {
            current_entries(g, present(g, ids)) + current_entries(g, apart(all, ids))
        } else {
            current_entries(g, present(g, ids))
        },
        ..PendingRecordsView::none()
    }
}

/// What a change of the group writes.
pub fn snapshot_pending_after_change(state: &GroupState, affected: &Vec<String>, target_changed: bool) -> (r: PendingRecords)
    ensures
        r@ == snapshot(state@, views(affected@), target_changed),
{
    let ghost g = state@;
    let ghost ids = views(affected@);
    let mut members: Vec<Entry<MemberMetadataValue>> = Vec::new();
    let mut currents: Vec<Entry<CurrentMemberAssignmentValue>> = Vec::new();
    let mut i: usize = 0;
    assert(ids.take(0) =~= seq![]);
    assert(views(members@) =~= member_entries(g, seq![]));
    assert(views(currents@) =~= current_entries(g, seq![]));
    while i < affected.len()
        invariant
            0 <= i <= affected@.len(),
            g == state@,
            ids == views(affected@),
            views(members@) == member_entries(g, present(g, ids.take(i as int))),
            views(currents@) == current_entries(g, present(g, ids.take(i as int))),
        decreases affected@.len() - i,
    {
        let ghost before = present(g, ids.take(i as int));
        let ghost next = ids.take(i + 1);
        assert(next.drop_last() =~= ids.take(i as int));
        assert(next.last() == affected@[i as int]@);
        let ghost old_members = members@;
        let ghost old_currents = currents@;
        if let Some(m) = state.members.get(&affected[i]) {
            members.push(Entry { member_id: affected[i].clone(), value: Some(member_metadata_value(m)) });
            currents.push(Entry { member_id: affected[i].clone(), value: Some(current_assignment_value(m)) });
            assert(present(g, next) == before.push(ids[i as int]));
            assert(member_entries(g, present(g, next)) =~= member_entries(g, before).push((ids[i as int], Some(kept_member(m@)))));
            assert(views(members@) =~= views(old_members).push((ids[i as int], Some(kept_member(m@)))));
            assert(current_entries(g, present(g, next)) =~= current_entries(g, before).push((ids[i as int], Some(kept_assignment(m@)))));
            assert(views(currents@) =~= views(old_currents).push((ids[i as int], Some(kept_assignment(m@)))));
        }
        i = i + 1;
    }
    assert(ids.take(ids.len() as int) =~= ids);
    let ghost front = views(currents@);
    let mut targets: Vec<Entry<Partitions>> = Vec::new();
    let target_metadata: Option<i32> = if target_changed {
        Some(state.target.epoch)
    } else {
        None
    };
    if target_changed {
        let n: usize = state.members.len();
        let ghost all = state.members.keys();
        let mut k: usize = 0;
        assert(all.take(0) =~= seq![]);
        assert(views(currents@) =~= front + current_entries(g, seq![]));
        assert(views(targets@) =~= target_entries(g, seq![]));
        while k < n
            invariant
                0 <= k <= n,
                n == all.len(),
                g == state@,
                ids == views(affected@),
                all == state.members.keys(),
                all == listing::<String>(g.members.dom()),
                views(currents@) == front + current_entries(g, apart(all.take(k as int), ids)),
                views(targets@) == target_entries(g, all.take(k as int)),
            decreases n - k,
        {
            let ghost before = apart(all.take(k as int), ids);
            let ghost next = all.take(k + 1);
            assert(next.drop_last() =~= all.take(k as int));
            assert(next.last() == all[k as int]);
            let id = state.members.key_at(k);
            let m = state.members.value_at(k);
            let listed: bool = holds_str(affected, id.as_str());
            proof {
                assert(listed == ids.contains(id@)) by {
                    if ids.contains(id@) {
                        let j = choose|j: int| 0 <= j < ids.len() && ids[j] == id@;
                        assert(affected@[j]@ == id@);
                    }
                    if listed {
                        let j = choose|j: int| 0 <= j < affected@.len() && (#[trigger] affected@[j])@ == id@;
                        assert(ids[j] == id@);
                    }
                }
            }
            let ghost old_currents = currents@;
            if !listed {
                currents.push(Entry { member_id: id.clone(), value: Some(current_assignment_value(m)) });
                assert(apart(next, ids) == before.push(all[k as int]));
                assert(current_entries(g, apart(next, ids)) =~= current_entries(g, before).push((id@, Some(kept_assignment(m@)))));
                assert(views(currents@) =~= views(old_currents).push((id@, Some(kept_assignment(m@)))));
                assert(views(currents@) =~= front + current_entries(g, apart(next, ids)));
            }
            let target: Option<Partitions> = match state.target.per_member.get(id) {
                Some(t) => Some(t.dup()),
                None => None,
            };
            let ghost old_targets = targets@;
            targets.push(Entry { member_id: id.clone(), value: target });
            assert(target_entries(g, next) =~= target_entries(g, all.take(k as int)).push((id@, opt_view(target))));
            assert(views(targets@) =~= views(old_targets).push((id@, opt_view(target))));
            k = k + 1;
        }
        assert(all.take(n as int) =~= all);
    }
    let r = PendingRecords {
        group_metadata: Some(state.group_epoch),
        member_metadata: members,
        target_metadata,
        target_per_member: targets,
        current_per_member: currents,
        classic_group_metadata_tombstone: false,
        next_gen_group_metadata_tombstone: false,
        next_gen_target_metadata_tombstone: false,
        classic_group_metadata: None,
    };
    assert(r@ =~= snapshot(g, ids, target_changed));
    r
}

/// Those of `ids` that have a target.
pub open spec fn targeted(g: GroupStateView, ids: Seq<Seq<char>>) -> Seq<Seq<char>>
    decreases ids.len(),
{
    if ids.len() == 0 {
        seq![]
    } else if g.target.contains_key(ids.last()) {
        targeted(g, ids.drop_last()).push(ids.last())
    } else {
        targeted(g, ids.drop_last())
    }
}

/// The whole group as records: its epoch; of each member who it is and what it holds; the epoch of
/// the target where there has been one, and the target of each member that has one.
pub open spec fn full_snapshot(g: GroupStateView) -> PendingRecordsView {
    let all = listing::<String>(g.members.dom());
    PendingRecordsView {
        group_metadata: Some(g.group_epoch),
        member_metadata: member_entries(g, all),
        target_metadata: if g.target_epoch == 0 {
            None
        } else {
            Some(g.target_epoch)
        },
        target_per_member: target_entries(g, targeted(g, all)),
        current_per_member: current_entries(g, all),
        ..PendingRecordsView::none()
    }
}

/// The whole group as records.
pub fn full_pending_records(state: &GroupState) -> (r: PendingRecords)
    ensures
        r@ == full_snapshot(state@),
{
    let ghost g = state@;
    let n: usize = state.members.len();
    let ghost all = state.members.keys();
    let mut r = PendingRecords::none();
    let mut i: usize = 0;
    assert(all.take(0) =~= seq![]);
    assert(views(r.member_metadata@) =~= member_entries(g, all.take(0)));
    assert(views(r.target_per_member@) =~= target_entries(g, targeted(g, all.take(0))));
    assert(views(r.current_per_member@) =~= current_entries(g, all.take(0)));
    while i < n
        invariant
            0 <= i <= n,
            n == all.len(),
            g == state@,
            all == state.members.keys(),
            all == listing::<String>(g.members.dom()),
            r@ == (PendingRecordsView {
                member_metadata: member_entries(g, all.take(i as int)),
                target_per_member: target_entries(g, targeted(g, all.take(i as int))),
                current_per_member: current_entries(g, all.take(i as int)),
                ..PendingRecordsView::none()
            }),
        decreases n - i,
    {
        let ghost before = r;
        let ghost next = all.take(i + 1);
        let ghost wanted = targeted(g, all.take(i as int));
        assert(next.drop_last() =~= all.take(i as int));
        assert(next.last() == all[i as int]);
        let id = state.members.key_at(i);
        let m = state.members.value_at(i);
        r.member_metadata.push(Entry { member_id: id.clone(), value: Some(member_metadata_value(m)) });
        r.current_per_member.push(Entry { member_id: id.clone(), value: Some(current_assignment_value(m)) });
        if let Some(t) = state.target.per_member.get(id) {
            r.target_per_member.push(Entry { member_id: id.clone(), value: Some(t.dup()) });
            assert(targeted(g, next) == wanted.push(id@));
            assert(views(r.target_per_member@) =~= views(before.target_per_member@).push((id@, Some(g.target[id@]))));
            assert(target_entries(g, targeted(g, next)) =~= target_entries(g, wanted).push((id@, Some(g.target[id@]))));
        }
        assert(views(r.member_metadata@) =~= views(before.member_metadata@).push((id@, Some(kept_member(m@)))));
        assert(member_entries(g, next) =~= member_entries(g, all.take(i as int)).push((id@, Some(kept_member(m@)))));
        assert(views(r.current_per_member@) =~= views(before.current_per_member@).push((id@, Some(kept_assignment(m@)))));
        assert(current_entries(g, next) =~= current_entries(g, all.take(i as int)).push((id@, Some(kept_assignment(m@)))));
        i = i + 1;
    }
    assert(all.take(n as int) =~= all);
    r.group_metadata = Some(state.group_epoch);
    if state.target.epoch != 0 {
        r.target_metadata = Some(state.target.epoch);
    }
    assert(r@ =~= full_snapshot(g));
    r
}

/// What is kept of a member of a classic group.
pub open spec fn kept_classic_member(m: MemberView) -> ClassicMemberRecordView {
    ClassicMemberRecordView {
        member_id: m.id,
        group_instance_id: m.group_instance_id,
        client_id: m.client_id,
        client_host: m.client_host,
        rebalance_timeout_ms: fitted(m.rebalance_timeout, FALLBACK_REBALANCE_TIMEOUT_MS),
        session_timeout_ms: fitted(m.session_timeout, FALLBACK_SESSION_TIMEOUT_MS),
        subscription: m.protocol_metadata,
        assignment: match m.assignment {
            Some(a) => a,
            None => seq![],
        },
    }
}

/// What is kept of a classic group; one without a protocol type counts as a consumer group.
pub open spec fn kept_classic(g: ClassicGroupView, now_ms: i64) -> ClassicGroupMetadataView {
    let ids = listing::<String>(g.members.dom());
    ClassicGroupMetadataView {
        protocol_type: match g.protocol_type {
            Some(t) => t,
            None => "consumer"@,
        },
        generation: g.generation_id,
        protocol_name: g.protocol_name,
        leader: g.leader_id,
        current_state_timestamp_ms: now_ms,
        members: Seq::new(ids.len(), |i: int| kept_classic_member(g.members[ids[i]])),
    }
}

fn classic_member_record(m: &Member) -> (r: ClassicMemberRecord)
    ensures
        r@ == kept_classic_member(m@),
{
    let assignment: Vec<u8> = match &m.assignment {
        Some(a) => a.dup(),
        None => Vec::new(),
    };
    assert(assignment@ =~= kept_classic_member(m@).assignment);
    ClassicMemberRecord {
        member_id: m.id.clone(),
        group_instance_id: dup_opt_str(&m.group_instance_id),
        client_id: m.client_id.clone(),
        client_host: m.client_host.clone(),
        rebalance_timeout_ms: fit(m.rebalance_timeout, FALLBACK_REBALANCE_TIMEOUT_MS),
        session_timeout_ms: fit(m.session_timeout, FALLBACK_SESSION_TIMEOUT_MS),
        subscription: m.protocol_metadata.dup(),
        assignment,
    }
}

/// What is kept of a classic group.
pub fn classic_group_metadata_record(state: &ClassicGroup, now_ms: i64) -> (r: ClassicGroupMetadataValue)
    ensures
        r@ == kept_classic(state@, now_ms),
{
    let n: usize = state.members.len();
    let ghost ids = state.members.keys();
    let mut members: Vec<ClassicMemberRecord> = Vec::new();
    let mut i: usize = 0;
    while i < n
        invariant
            0 <= i <= n,
            n == ids.len(),
            ids == state.members.keys(),
            ids == listing::<String>(state@.members.dom()),
            members@.len() == i,
            forall|j: int| 0 <= j < i ==> (#[trigger] members@[j])@ == kept_classic(state@, now_ms).members[j],
        decreases n - i,
    {
        members.push(classic_member_record(state.members.value_at(i)));
        i = i + 1;
    }
    assert(views(members@) =~= kept_classic(state@, now_ms).members);
    ClassicGroupMetadataValue {
        protocol_type: match &state.protocol_type {
            Some(t) => t.clone(),
            None => "consumer".to_owned(),
        },
        generation: state.generation_id,
        protocol_name: dup_opt_str(&state.protocol_name),
        leader: dup_opt_str(&state.leader_id),
        current_state_timestamp_ms: now_ms,
        members,
    }
}

/// The delta that writes a whole classic group.
pub open spec fn classic_snapshot(g: ClassicGroupView, now_ms: i64) -> PendingRecordsView {
    PendingRecordsView { classic_group_metadata: Some(kept_classic(g, now_ms)), ..PendingRecordsView::none() }
}

/// The delta that writes a whole classic group.
pub fn classic_pending_records(state: &ClassicGroup, now_ms: i64) -> (r: PendingRecords)
    ensures
        r@ == classic_snapshot(state@, now_ms),
{
    let mut r = PendingRecords::none();
    r.classic_group_metadata = Some(classic_group_metadata_record(state, now_ms));
    r
}

} // verus!
