//! A group changes its protocol while it lives: a classic group becomes a consumer group that
//! hosts its members, and a consumer group that hosts classic members alone becomes classic again.
//! In between, a hosted member goes on with the classic requests, answered from the target.

use crate::classic_state::{
    ClassicGroup, ClassicGroupView, GroupState as ClassicGroupState, Member, MemberView, Protocol, dup_protocols, first_of, select_protocol,
    selected_protocol,
};
use crate::consumer_state::{
    ClassicMemberFacade, ClassicMemberFacadeView, GroupState, GroupStateView, MemberAssignmentState, MemberState, MemberStateView, ReconcileInput,
    ReconcileInputView,
};
use crate::heartbeat::{name_set, set_of_names};
use crate::ordmap::{Dup, OrdMap, OrdSet, Test, Turn, listing, views};
use crate::partitions::{Partitions, PartitionsView};
use crate::pending_records::{PendingRecords, PendingRecordsView};
use crate::persistence::{classic_group_metadata_record, full_pending_records, full_snapshot, kept_classic, keys_of};
use crate::text::{dup_opt_str, opt_is};
use crate::wire::{assignment_blob, decode_subscribed_topics, subscription_topics, target_to_consumer_assignment};
use vstd::prelude::*;

verus! {

/// The topics that a member's metadata subscribes to, none where it cannot be read.
pub open spec fn metadata_topics(metadata: Seq<u8>) -> Set<Seq<char>> {
    match subscription_topics(metadata) {
        Some(names) => name_set(names),
        None => Set::empty(),
    }
}

/// Whether a classic group can become a consumer group: it speaks the consumer protocol, and the
/// subscriptions of all members can be read.
pub open spec fn convertible(g: ClassicGroupView) -> bool {
    &&& g.protocol_type == Some("consumer"@)
    &&& forall|id: Seq<char>| #[trigger] g.members.contains_key(id) ==> subscription_topics(g.members[id].protocol_metadata) is Some
}

struct Unreadable;

impl Test<String, Member> for Unreadable {
    closed spec fn holds(&self, k: Seq<char>, v: MemberView) -> bool {
        subscription_topics(v.protocol_metadata) is None
    }

    fn test(&self, k: &String, v: &Member) -> (r: bool) {
        decode_subscribed_topics(&v.protocol_metadata).is_none()
    }
}

/// Whether a classic group can become a consumer group.
pub fn classic_is_convertible(state: &ClassicGroup) -> (r: bool)
    ensures
        r == convertible(state@),
{
    if !opt_is(&state.protocol_type, "consumer") {
        return false;
    }
    let t = Unreadable;
    let bad = state.members.any(&t);
    proof {
        if bad {
            let id = choose|id: Seq<char>| #[trigger] state.members@.contains_key(id) && t.holds(id, state.members@[id]);
            assert(state@.members.contains_key(id));
        } else {
            assert forall|id: Seq<char>| #[trigger] state@.members.contains_key(id) implies subscription_topics(state@.members[id].protocol_metadata) is Some by {
                assert(!t.holds(id, state.members@[id]));
            }
        }
    }
    !bad
}

/// A classic member as a consumer group hosts it: at the epoch of its generation, without
/// partitions, and owing a sync.
pub open spec fn hosted_member(m: MemberView, generation: i32, now: u64) -> MemberStateView {
    MemberStateView {
        member_id: m.id,
        instance_id: m.group_instance_id,
        rack_id: None,
        client_id: m.client_id,
        client_host: m.client_host,
        subscribed_topic_names: metadata_topics(m.protocol_metadata),
        subscribed_topic_regex: None,
        regex_authorized_topics: Set::empty(),
        server_assignor: None,
        rebalance_timeout: m.rebalance_timeout,
        member_epoch: generation,
        previous_member_epoch: generation,
        assignment_state: MemberAssignmentState::Stable,
        assigned_partitions: Map::empty(),
        partitions_pending_revocation: Map::empty(),
        last_seen: now,
        classic: Some(
            ClassicMemberFacadeView {
                generation_id: generation,
                supported_protocols: m.protocols,
                session_timeout: m.session_timeout,
                last_synced_assignment: match m.assignment {
                    Some(a) => a,
                    None => seq![],
                },
                awaiting_sync: true,
            },
        ),
    }
}

/// The consumer group that a classic group becomes: its epoch is the generation, and its target is
/// still to be computed.
pub open spec fn upgraded(g: ClassicGroupView, now: u64) -> GroupStateView {
    GroupStateView {
        group_id: g.group_id,
        group_epoch: g.generation_id,
        members: Map::new(|id: Seq<char>| g.members.contains_key(id), |id: Seq<char>| hosted_member(g.members[id], g.generation_id, now)),
        target_epoch: 0,
        target: Map::empty(),
        dirty: true,
    }
}

struct Host {
    generation: i32,
    now: u64,
}

impl Turn<String, Member, MemberState> for Host {
    closed spec fn turned(&self, k: Seq<char>, v: MemberView) -> MemberStateView {
        hosted_member(v, self.generation, self.now)
    }

    fn turn(&self, k: &String, v: &Member) -> (r: MemberState) {
        let names: OrdSet<String> = match decode_subscribed_topics(&v.protocol_metadata) {
            Some(list) => set_of_names(&list),
            None => OrdSet::new(),
        };
        let synced: Vec<u8> = match &v.assignment {
            Some(a) => a.dup(),
            None => Vec::new(),
        };
        assert(synced@ =~= hosted_member(v@, self.generation, self.now).classic->0.last_synced_assignment);
        MemberState {
            member_id: v.id.clone(),
            instance_id: dup_opt_str(&v.group_instance_id),
            rack_id: None,
            client_id: v.client_id.clone(),
            client_host: v.client_host.clone(),
            subscribed_topic_names: names,
            subscribed_topic_regex: None,
            regex_authorized_topics: OrdSet::new(),
            server_assignor: None,
            rebalance_timeout: v.rebalance_timeout,
            member_epoch: self.generation,
            previous_member_epoch: self.generation,
            assignment_state: MemberAssignmentState::Stable,
            assigned_partitions: OrdMap::new(),
            partitions_pending_revocation: OrdMap::new(),
            last_seen: self.now,
            classic: Some(
                ClassicMemberFacade {
                    generation_id: self.generation,
                    supported_protocols: dup_protocols(&v.protocols),
                    session_timeout: v.session_timeout,
                    last_synced_assignment: synced,
                    awaiting_sync: true,
                },
            ),
        }
    }
}

/// Makes the consumer group that a classic group becomes.
pub fn convert_classic_to_consumer(state: &ClassicGroup, now: u64) -> (r: GroupState)
    ensures
        r@ == upgraded(state@, now),
{
    let host = Host { generation: state.generation_id, now };
    let mut r = GroupState::new(state.group_id.clone());
    r.group_epoch = state.generation_id;
    r.members = state.members.turn_each(&host);
    r.dirty = true;
    assert(r@.members =~= upgraded(state@, now).members);
    r
}

/// What a group writes that becomes a consumer group: all of it, and the record of the classic
/// group goes.
pub open spec fn upgrade_records(g: GroupStateView) -> PendingRecordsView {
    PendingRecordsView { classic_group_metadata_tombstone: true, ..full_snapshot(g) }
}

/// What a group writes that becomes a consumer group.
pub fn upgrade_pending_records(state: &GroupState) -> (r: PendingRecords)
    ensures
        r@ == upgrade_records(state@),
{
    let mut r = full_pending_records(state);
    r.classic_group_metadata_tombstone = true;
    r
}

/// Whether every member speaks the classic protocol.
pub open spec fn all_classic(g: GroupStateView) -> bool {
    forall|id: Seq<char>| #[trigger] g.members.contains_key(id) ==> g.members[id].classic is Some
}

struct Native;

impl Test<String, MemberState> for Native {
    closed spec fn holds(&self, k: Seq<char>, v: MemberStateView) -> bool {
        v.classic is None
    }

    fn test(&self, k: &String, v: &MemberState) -> (r: bool) {
        !v.is_classic()
    }
}

/// Whether every member speaks the classic protocol.
pub fn consumer_is_convertible(state: &GroupState) -> (r: bool)
    ensures
        r == all_classic(state@),
{
    let t = Native;
    let native = state.members.any(&t);
    proof {
        if native {
            let id = choose|id: Seq<char>| #[trigger] state.members@.contains_key(id) && t.holds(id, state.members@[id]);
            assert(state@.members.contains_key(id));
        } else {
            assert forall|id: Seq<char>| #[trigger] state@.members.contains_key(id) implies state@.members[id].classic is Some by {
                assert(!t.holds(id, state.members@[id]));
            }
        }
    }
    !native
}

/// A hosted member as a classic group has it: its assignment is its target.
pub open spec fn classic_member(id: Seq<char>, m: MemberStateView, target: PartitionsView, image: ReconcileInputView) -> MemberView {
    let protocols = match m.classic {
        Some(f) => f.supported_protocols,
        None => seq![],
    };
    MemberView {
        id,
        client_id: m.client_id,
        client_host: m.client_host,
        session_timeout: match m.classic {
            Some(f) => f.session_timeout,
            None => 0,
        },
        rebalance_timeout: m.rebalance_timeout,
        protocols,
        group_instance_id: m.instance_id,
        protocol_metadata: if protocols.len() == 0 {
            seq![]
        } else {
            protocols[0].metadata
        },
        assignment: Some(assignment_blob(target, image)),
        last_heartbeat: m.last_seen,
        is_new: false,
    }
}

/// The members as a classic group has them.
pub open spec fn classic_members(g: GroupStateView, image: ReconcileInputView) -> Map<Seq<char>, MemberView> {
    Map::new(|id: Seq<char>| g.members.contains_key(id), |id: Seq<char>| classic_member(id, g.members[id], g.target_of(id), image))
}

/// Whether some member holds the static identity `instance`.
pub open spec fn held_identity(g: GroupStateView, instance: Seq<char>) -> bool {
    exists|id: Seq<char>| #[trigger] g.members.contains_key(id) && g.members[id].instance_id == Some(instance)
}

/// The classic group that a consumer group becomes: stable in the generation of its epoch, led by
/// the first member, with the protocol that the vote selects.
pub open spec fn downgraded(g: GroupStateView, image: ReconcileInputView) -> ClassicGroupView {
    let members = classic_members(g, image);
    let h = ClassicGroupView {
        group_id: g.group_id,
        state: if members == Map::<Seq<char>, MemberView>::empty() {
            ClassicGroupState::Empty
        } else {
            ClassicGroupState::Stable
        },
        protocol_type: Some("consumer"@),
        protocol_name: selected_protocol(members),
        generation_id: g.group_epoch,
        leader_id: first_of(members.dom()),
        members,
        static_members: Map::new(|i: Seq<char>| held_identity(g, i), |i: Seq<char>| g.pinned(i)->0),
        joined_this_round: Set::empty(),
        pending_members: Map::empty(),
        rebalance_deadline: None,
        rebalance_from_empty: false,
        initial_join: None,
        new_member_added: false,
    };
    match selected_protocol(members) {
        Some(name) => h.resolved(name),
        None => h,
    }
}

struct Unhost<'a> {
    state: &'a GroupState,
    image: &'a ReconcileInput,
}

impl<'a> Turn<String, MemberState, Member> for Unhost<'a> {
    closed spec fn turned(&self, k: Seq<char>, v: MemberStateView) -> MemberView {
        classic_member(k, v, self.state@.target_of(k), self.image@)
    }

    fn turn(&self, k: &String, v: &MemberState) -> (r: Member) {
        let none: Partitions = OrdMap::new();
        let target: &Partitions = match self.state.target.per_member.get(k) {
            Some(t) => t,
            None => &none,
        };
        assert(target@ =~= self.state@.target_of(k@));
        let blob = target_to_consumer_assignment(target, self.image);
        let (protocols, session_timeout): (Vec<Protocol>, u64) = match &v.classic {
            Some(f) => (dup_protocols(&f.supported_protocols), f.session_timeout),
            None => (Vec::new(), 0),
        };
        assert(views(protocols@) =~= classic_member(k@, v@, target@, self.image@).protocols);
        let mut m = Member::new(k.clone(), v.client_id.clone(), v.client_host.clone(), session_timeout, v.rebalance_timeout, protocols);
        m.group_instance_id = dup_opt_str(&v.instance_id);
        m.assignment = Some(blob);
        m.last_heartbeat = v.last_seen;
        m
    }
}

fn identities(state: &GroupState) -> (r: OrdMap<String, String>)
    ensures
        r@ == Map::new(|i: Seq<char>| held_identity(state@, i), |i: Seq<char>| state@.pinned(i)->0),
{
    let ghost g = state@;
    let n: usize = state.members.len();
    let mut out: OrdMap<String, String> = OrdMap::new();
    let mut i: usize = 0;
    while i < n
        invariant
            0 <= i <= n,
            n == state.members.keys().len(),
            state.members.listed(),
            g == state@,
            forall|k: Seq<char>| #[trigger] out@.contains_key(k) ==> held_identity(g, k) && out@[k] == g.pinned(k)->0,
            forall|j: int|
                0 <= j < i && g.members[#[trigger] state.members.keys()[j]].instance_id is Some ==> out@.contains_key(
                    g.members[state.members.keys()[j]].instance_id->0,
                ),
        decreases n - i,
    {
        let m = state.members.value_at(i);
        let ghost id = state.members.keys()[i as int];
        assert(g.members.contains_key(id));
        if let Some(instance) = &m.instance_id {
            assert(held_identity(g, instance@));
            if let Some(owner) = state.current_member_for_instance(instance) {
                out.insert(instance.clone(), owner);
            } else {
                proof {
                    assert(g.holders(instance@).contains(id));
                    assert(false);
                }
            }
        }
        i = i + 1;
    }
    proof {
        let m = Map::new(|i: Seq<char>| held_identity(g, i), |i: Seq<char>| g.pinned(i)->0);
        assert forall|k: Seq<char>| #[trigger] m.contains_key(k) implies out@.contains_key(k) by {
            let id = choose|id: Seq<char>| #[trigger] g.members.contains_key(id) && g.members[id].instance_id == Some(k);
            assert(state.members@.contains_key(id));
            let j = choose|j: int| 0 <= j < state.members.keys().len() && state.members.keys()[j] == id;
            assert(g.members[state.members.keys()[j]].instance_id is Some);
        }
        assert(out@ =~= m);
    }
    out
}

/// Makes the classic group that a consumer group becomes.
pub fn convert_consumer_to_classic(state: &GroupState, image: &ReconcileInput) -> (r: ClassicGroup)
    ensures
        r@ == downgraded(state@, image@),
{
    let unhost = Unhost { state, image };
    let members = state.members.turn_each(&unhost);
    assert(members@ =~= classic_members(state@, image@));
    let name = select_protocol(&members);
    let leader: Option<String> = if members.len() == 0 {
        assert(members@.dom() =~= Set::<Seq<char>>::empty()) by {
            assert forall|k: Seq<char>| !members@.dom().contains(k) by {
                if members@.contains_key(k) {
                    assert(members.keys().contains(k));
                }
            }
        }
        None
    } else {
        assert(members@.contains_key(members.keys()[0]));
        Some(members.key_at(0).clone())
    };
    let empty: bool = members.is_empty();
    let mut r = ClassicGroup::new(state.group_id.clone());
    r.state = if empty {
        ClassicGroupState::Empty
    } else {
        ClassicGroupState::Stable
    };
    r.protocol_type = Some("consumer".to_owned());
    r.protocol_name = dup_opt_str(&name);
    r.generation_id = state.group_epoch;
    r.leader_id = leader;
    r.members = members;
    r.static_members = identities(state);
    if let Some(name) = &name {
        r.resolve_selected_protocol_metadata(name);
    }
    assert(r@ =~= downgraded(state@, image@));
    r
}

/// What a group writes that becomes classic: the classic group; everything that is kept of the
/// consumer group goes.
pub open spec fn downgrade_records(g: GroupStateView, classic: ClassicGroupView, now_ms: i64) -> PendingRecordsView {
    PendingRecordsView {
        next_gen_group_metadata_tombstone: true,
        next_gen_target_metadata_tombstone: true,
        classic_group_metadata: Some(kept_classic(classic, now_ms)),
        ..PendingRecordsView::none().and_all_gone(listing::<String>(g.members.dom()))
    }
}

/// What a group writes that becomes classic.
pub fn downgrade_pending_records(state: &GroupState, classic: &ClassicGroup, now_ms: i64) -> (r: PendingRecords)
    ensures
        r@ == downgrade_records(state@, classic@, now_ms),
{
    let mut r = PendingRecords::none();
    let all = keys_of(&state.members);
    r.push_all_gone(&all);
    r.next_gen_group_metadata_tombstone = true;
    r.next_gen_target_metadata_tombstone = true;
    r.classic_group_metadata = Some(classic_group_metadata_record(classic, now_ms));
    r
}

} // verus!
