//! A consumer group from its seed.
//!
//! What a hosted classic member last synced is not taken from its records: it is what the member
//! holds, in the translation that a sync answers. A member that does not hold its target therefore
//! still owes a sync, as it did before.

use crate::classic_state::dup_protocols;
use crate::consumer_state::{
    ClassicMemberFacade, ClassicMemberFacadeView, GroupState, GroupStateView, MemberAssignmentState, MemberState, MemberStateView, ReconcileInput,
    ReconcileInputView,
};
use crate::heartbeat::{name_set, set_of_names, to_unsigned, unsigned};
use crate::ordmap::{Change, Dup, OrdMap, OrdSet, Turn};
use crate::partitions::{Partitions, PartitionsView};
use crate::pending_records::{GroupSeed, GroupSeedView};
use crate::records::{CurrentAssignmentView, CurrentMemberAssignmentValue, MemberMetadataValue, MemberMetadataView};
use crate::text::{bytes_eq, dup_opt_str};
use crate::wire::{assignment_blob, target_to_consumer_assignment};
use vstd::prelude::*;

verus! {

/// The member that a record tells of, before anything is known of what it holds.
pub open spec fn seeded_member(id: Seq<char>, meta: MemberMetadataView, generation: i32, now: u64) -> MemberStateView {
    MemberStateView {
        member_id: id,
        instance_id: meta.instance_id,
        rack_id: meta.rack_id,
        client_id: meta.client_id,
        client_host: meta.client_host,
        subscribed_topic_names: name_set(meta.subscribed_topic_names),
        subscribed_topic_regex: meta.subscribed_topic_regex,
        regex_authorized_topics: Set::empty(),
        server_assignor: meta.server_assignor,
        rebalance_timeout: unsigned(meta.rebalance_timeout_ms),
        member_epoch: 0,
        previous_member_epoch: 0,
        assignment_state: MemberAssignmentState::Stable,
        assigned_partitions: Map::empty(),
        partitions_pending_revocation: Map::empty(),
        last_seen: now,
        classic: match meta.classic {
            Some(c) => Some(
                ClassicMemberFacadeView {
                    generation_id: generation,
                    supported_protocols: c.supported_protocols,
                    session_timeout: unsigned(c.session_timeout_ms),
                    last_synced_assignment: seq![],
                    awaiting_sync: true,
                },
            ),
            None => None,
        },
    }
}

/// The member with the epochs and partitions that a record tells of.
pub open spec fn holding(m: MemberStateView, cur: CurrentAssignmentView) -> MemberStateView {
    MemberStateView {
        member_epoch: cur.member_epoch,
        previous_member_epoch: cur.previous_member_epoch,
        assignment_state: cur.state,
        assigned_partitions: m.assigned_partitions.union_prefer_right(cur.assigned_partitions),
        partitions_pending_revocation: m.partitions_pending_revocation.union_prefer_right(cur.partitions_pending_revocation),
        ..m
    }
}

/// The member with the sync state that follows from what it holds and what it is to hold.
pub open spec fn resynced(m: MemberStateView, target: PartitionsView, image: ReconcileInputView) -> MemberStateView {
    match m.classic {
        Some(f) => MemberStateView {
            classic: Some(
                ClassicMemberFacadeView {
                    last_synced_assignment: assignment_blob(m.held(), image),
                    awaiting_sync: assignment_blob(m.held(), image) != assignment_blob(target, image),
                    ..f
                },
            ),
            ..m
        },
        None => m,
    }
}

/// The members that the seed tells of, in place of those of the same ids.
pub open spec fn seeded_members(members: Map<Seq<char>, MemberStateView>, seed: GroupSeedView, now: u64) -> Map<Seq<char>, MemberStateView> {
    let all = members.union_prefer_right(
        Map::new(|id: Seq<char>| seed.members.contains_key(id), |id: Seq<char>| seeded_member(id, seed.members[id], seed.group_epoch, now)),
    );
    Map::new(
        |id: Seq<char>| all.contains_key(id),
        |id: Seq<char>|
            if seed.current_per_member.contains_key(id) {
                holding(all[id], seed.current_per_member[id])
            } else {
                all[id]
            },
    )
}

/// The group with everything that the seed tells of.
pub open spec fn seeded(g: GroupStateView, seed: GroupSeedView, image: ReconcileInputView, now: u64) -> GroupStateView {
    let members = seeded_members(g.members, seed, now);
    let g1 = GroupStateView {
        group_epoch: seed.group_epoch,
        target_epoch: seed.target_epoch,
        target: g.target.union_prefer_right(seed.target_per_member),
        dirty: false,
        ..g
    };
    GroupStateView {
        members: Map::new(|id: Seq<char>| members.contains_key(id), |id: Seq<char>| resynced(members[id], g1.target_of(id), image)),
        ..g1
    }
}

struct FromMetadata {
    generation: i32,
    now: u64,
}

impl Turn<String, MemberMetadataValue, MemberState> for FromMetadata {
    closed spec fn turned(&self, k: Seq<char>, v: MemberMetadataView) -> MemberStateView {
        seeded_member(k, v, self.generation, self.now)
    }

    fn turn(&self, k: &String, v: &MemberMetadataValue) -> (r: MemberState) {
        let classic: Option<ClassicMemberFacade> = match &v.classic {
            Some(c) => {
                let nothing: Vec<u8> = Vec::new();
                assert(nothing@ =~= seq![]);
                Some(
                    ClassicMemberFacade {
                        generation_id: self.generation,
                        supported_protocols: dup_protocols(&c.supported_protocols),
                        session_timeout: to_unsigned(c.session_timeout_ms),
                        last_synced_assignment: nothing,
                        awaiting_sync: true,
                    },
                )
            },
            None => None,
        };
        MemberState {
            member_id: k.clone(),
            instance_id: dup_opt_str(&v.instance_id),
            rack_id: dup_opt_str(&v.rack_id),
            client_id: v.client_id.clone(),
            client_host: v.client_host.clone(),
            subscribed_topic_names: set_of_names(&v.subscribed_topic_names),
            subscribed_topic_regex: dup_opt_str(&v.subscribed_topic_regex),
            regex_authorized_topics: OrdSet::new(),
            server_assignor: dup_opt_str(&v.server_assignor),
            rebalance_timeout: to_unsigned(v.rebalance_timeout_ms),
            member_epoch: 0,
            previous_member_epoch: 0,
            assignment_state: MemberAssignmentState::Stable,
            assigned_partitions: OrdMap::new(),
            partitions_pending_revocation: OrdMap::new(),
            last_seen: self.now,
            classic,
        }
    }
}

struct WithCurrent<'a> {
    current: &'a OrdMap<String, CurrentMemberAssignmentValue>,
}

impl<'a> Change<String, MemberState> for WithCurrent<'a> {
    closed spec fn changed(&self, k: Seq<char>, v: MemberStateView) -> MemberStateView {
        if self.current@.contains_key(k) {
            holding(v, self.current@[k])
        } else {
            v
        }
    }

    fn change(&self, k: &String, v: &MemberState) -> (r: MemberState) {
        let mut m = v.dup();
        if let Some(cur) = self.current.get(k) {
            m.member_epoch = cur.member_epoch;
            m.previous_member_epoch = cur.previous_member_epoch;
            m.assignment_state = cur.state;
            m.assigned_partitions.overlay(&cur.assigned_partitions);
            m.partitions_pending_revocation.overlay(&cur.partitions_pending_revocation);
        }
        m
    }
}

struct Resync<'a> {
    target: &'a OrdMap<String, Partitions>,
    image: &'a ReconcileInput,
}

impl<'a> Change<String, MemberState> for Resync<'a> {
    closed spec fn changed(&self, k: Seq<char>, v: MemberStateView) -> MemberStateView {
        resynced(
            v,
            if self.target@.contains_key(k) {
                self.target@[k]
            } else {
                Map::empty()
            },
            self.image@,
        )
    }

    fn change(&self, k: &String, v: &MemberState) -> (r: MemberState) {
        let mut m = v.dup();
        if let Some(mut f) = m.classic {
            let held = v.held_partitions();
            let synced = target_to_consumer_assignment(&held, self.image);
            let none: Partitions = OrdMap::new();
            let target: &Partitions = match self.target.get(k) {
                Some(t) => t,
                None => &none,
            };
            let wanted = target_to_consumer_assignment(target, self.image);
            f.awaiting_sync = !bytes_eq(&synced, &wanted);
            f.last_synced_assignment = synced;
            m.classic = Some(f);
        } else {
            m.classic = None;
        }
        m
    }
}

/// Brings everything that a seed tells of into a group.
pub fn apply_seed(state: &mut GroupState, seed: &GroupSeed, image: &ReconcileInput, now: u64)
    ensures
        final(state)@ == seeded(old(state)@, seed@, image@, now),
{
    let ghost g = state@;
    state.group_epoch = seed.group_epoch;
    state.target.epoch = seed.target_epoch;
    let turn = FromMetadata { generation: seed.group_epoch, now };
    let fresh = seed.members.turn_each(&turn);
    assert(fresh@ =~= Map::new(
        |id: Seq<char>| seed@.members.contains_key(id),
        |id: Seq<char>| seeded_member(id, seed@.members[id], seed@.group_epoch, now),
    ));
    state.members.overlay(&fresh);
    let current = WithCurrent { current: &seed.current_per_member };
    state.members.change_each(&current);
    assert(state.members@ =~= seeded_members(g.members, seed@, now));
    state.target.per_member.overlay(&seed.target_per_member);
    let resync = Resync { target: &state.target.per_member, image };
    state.members.change_each(&resync);
    state.dirty = false;
    assert(state@.members =~= seeded(g, seed@, image@, now).members);
}

} // verus!
