//! The consumer group: members with epochs, a target assignment, and how members move towards it.

use crate::assignor::{Assignor, MemberSubscription, MemberSubscriptionView, TopicMetadata, TopicMetadataView};
use crate::classic_state::{Protocol, ProtocolView, dup_protocols, first_of};
use crate::config::{NextGenConfig, assignor_called};
use crate::ordmap::{Dup, OrdMap, OrdSet, Test, listing, passing, str_eq, views};
use crate::partitions::{PartTest, Partitions, PartitionsView, filter_parts, part_of, has_partition, merge_parts, merged, parts_eq, parts_where};
use crate::regexes::{is_match, regex_matches};
use crate::text::{dup_opt_str, opt_is, opt_str};
use vstd::prelude::*;

verus! {

/// The epoch of a heartbeat that leaves the group.
pub const LEAVE_GROUP_MEMBER_EPOCH: i32 = -1;

/// The epoch of a static member that left for a while.
pub const LEAVE_GROUP_STATIC_MEMBER_EPOCH: i32 = -2;

/// How far a member has come with its assignment.
#[derive(Clone, Copy, Debug, PartialEq, Eq, Structural)]
pub enum MemberAssignmentState {
    /// It holds its target.
    Stable,
    /// It is to give partitions up.
    UnrevokedPartitions,
    /// It waits for partitions that others hold.
    UnreleasedPartitions,
}

/// What a member that speaks the classic protocol has beyond the others. Times are milliseconds.
#[derive(Debug, PartialEq, Eq)]
pub struct ClassicMemberFacade {
    pub generation_id: i32,
    pub supported_protocols: Vec<Protocol>,
    pub session_timeout: u64,
    /// The assignment that its last `SyncGroup` was answered.
    pub last_synced_assignment: Vec<u8>,
    pub awaiting_sync: bool,
}

#[verifier::ext_equal]
pub struct ClassicMemberFacadeView {
    pub generation_id: i32,
    pub supported_protocols: Seq<ProtocolView>,
    pub session_timeout: u64,
    pub last_synced_assignment: Seq<u8>,
    pub awaiting_sync: bool,
}

impl View for ClassicMemberFacade {
    type V = ClassicMemberFacadeView;

    open spec fn view(&self) -> ClassicMemberFacadeView {
        ClassicMemberFacadeView {
            generation_id: self.generation_id,
            supported_protocols: views(self.supported_protocols@),
            session_timeout: self.session_timeout,
            last_synced_assignment: self.last_synced_assignment@,
            awaiting_sync: self.awaiting_sync,
        }
    }
}

impl Dup for ClassicMemberFacade {
    fn dup(&self) -> (r: Self) {
        ClassicMemberFacade {
            generation_id: self.generation_id,
            supported_protocols: dup_protocols(&self.supported_protocols),
            session_timeout: self.session_timeout,
            last_synced_assignment: self.last_synced_assignment.dup(),
            awaiting_sync: self.awaiting_sync,
        }
    }
}

/// What an optional facade stands for.
pub open spec fn opt_facade(o: Option<ClassicMemberFacade>) -> Option<ClassicMemberFacadeView> {
    match o {
        Some(f) => Some(f@),
        None => None,
    }
}

/// A member of a consumer group. Times are milliseconds.
#[derive(Debug, PartialEq, Eq)]
pub struct MemberState {
    pub member_id: String,
    pub instance_id: Option<String>,
    pub rack_id: Option<String>,
    pub client_id: String,
    pub client_host: String,
    pub subscribed_topic_names: OrdSet<String>,
    pub subscribed_topic_regex: Option<String>,
    /// The topics that its pattern may resolve to: those that its client may see.
    pub regex_authorized_topics: OrdSet<String>,
    pub server_assignor: Option<String>,
    pub rebalance_timeout: u64,
    pub member_epoch: i32,
    pub previous_member_epoch: i32,
    pub assignment_state: MemberAssignmentState,
    /// The partitions of its target that it may own now.
    pub assigned_partitions: Partitions,
    /// The partitions that it is to give up and has not yet.
    pub partitions_pending_revocation: Partitions,
    pub last_seen: u64,
    /// Set of a member that speaks the classic protocol.
    pub classic: Option<ClassicMemberFacade>,
}

#[verifier::ext_equal]
pub struct MemberStateView {
    pub member_id: Seq<char>,
    pub instance_id: Option<Seq<char>>,
    pub rack_id: Option<Seq<char>>,
    pub client_id: Seq<char>,
    pub client_host: Seq<char>,
    pub subscribed_topic_names: Set<Seq<char>>,
    pub subscribed_topic_regex: Option<Seq<char>>,
    pub regex_authorized_topics: Set<Seq<char>>,
    pub server_assignor: Option<Seq<char>>,
    pub rebalance_timeout: u64,
    pub member_epoch: i32,
    pub previous_member_epoch: i32,
    pub assignment_state: MemberAssignmentState,
    pub assigned_partitions: PartitionsView,
    pub partitions_pending_revocation: PartitionsView,
    pub last_seen: u64,
    pub classic: Option<ClassicMemberFacadeView>,
}

impl View for MemberState {
    type V = MemberStateView;

    open spec fn view(&self) -> MemberStateView {
        MemberStateView {
            member_id: self.member_id@,
            instance_id: opt_str(self.instance_id),
            rack_id: opt_str(self.rack_id),
            client_id: self.client_id@,
            client_host: self.client_host@,
            subscribed_topic_names: self.subscribed_topic_names@,
            subscribed_topic_regex: opt_str(self.subscribed_topic_regex),
            regex_authorized_topics: self.regex_authorized_topics@,
            server_assignor: opt_str(self.server_assignor),
            rebalance_timeout: self.rebalance_timeout,
            member_epoch: self.member_epoch,
            previous_member_epoch: self.previous_member_epoch,
            assignment_state: self.assignment_state,
            assigned_partitions: self.assigned_partitions@,
            partitions_pending_revocation: self.partitions_pending_revocation@,
            last_seen: self.last_seen,
            classic: opt_facade(self.classic),
        }
    }
}

impl Dup for MemberState {
    fn dup(&self) -> (r: Self) {
        MemberState {
            member_id: self.member_id.clone(),
            instance_id: dup_opt_str(&self.instance_id),
            rack_id: dup_opt_str(&self.rack_id),
            client_id: self.client_id.clone(),
            client_host: self.client_host.clone(),
            subscribed_topic_names: self.subscribed_topic_names.dup(),
            subscribed_topic_regex: dup_opt_str(&self.subscribed_topic_regex),
            regex_authorized_topics: self.regex_authorized_topics.dup(),
            server_assignor: dup_opt_str(&self.server_assignor),
            rebalance_timeout: self.rebalance_timeout,
            member_epoch: self.member_epoch,
            previous_member_epoch: self.previous_member_epoch,
            assignment_state: self.assignment_state,
            assigned_partitions: self.assigned_partitions.dup(),
            partitions_pending_revocation: self.partitions_pending_revocation.dup(),
            last_seen: self.last_seen,
            classic: match &self.classic {
                Some(f) => Some(f.dup()),
                None => None,
            },
        }
    }
}

impl MemberStateView {
    /// Whether the member holds partition `p` of topic `t`: it owns it or has not given it up.
    pub open spec fn holds(self, t: u128, p: i32) -> bool {
        part_of(self.assigned_partitions, t, p) || part_of(self.partitions_pending_revocation, t, p)
    }

    /// Everything the member holds.
    pub open spec fn held(self) -> PartitionsView {
        merged(self.assigned_partitions, self.partitions_pending_revocation)
    }

    /// Whether the member's pattern resolves to the topic `name`: it matches, and the member's
    /// client may see the topic.
    pub open spec fn resolves(self, name: Seq<char>) -> bool {
        self.subscribed_topic_regex is Some && self.regex_authorized_topics.contains(name) && regex_matches(self.subscribed_topic_regex->0, name)
    }

    /// Whether the member subscribes to the topic `name`, by name or by pattern.
    pub open spec fn wants(self, name: Seq<char>) -> bool {
        self.subscribed_topic_names.contains(name) || self.resolves(name)
    }

    /// Whether the member has not been heard of for the session timeout.
    pub open spec fn silent(self, now: u64, session_timeout: u64) -> bool {
        now >= self.last_seen + session_timeout
    }
}

impl MemberState {
    /// Whether the member speaks the classic protocol.
    pub fn is_classic(&self) -> (r: bool)
        ensures
            r == (self@.classic is Some),
    {
        self.classic.is_some()
    }

    /// Everything the member holds.
    pub fn held_partitions(&self) -> (r: Partitions)
        ensures
            r@ == self@.held(),
    {
        merge_parts(&self.assigned_partitions, &self.partitions_pending_revocation)
    }

    fn holds_partition(&self, t: u128, p: i32) -> (r: bool)
        ensures
            r == self@.holds(t, p),
    {
        has_partition(&self.assigned_partitions, t, p) || has_partition(&self.partitions_pending_revocation, t, p)
    }

    /// Whether the member's pattern resolves to the topic `name`.
    pub fn resolves(&self, name: &String) -> (r: bool)
        ensures
            r == self@.resolves(name@),
    {
        match &self.subscribed_topic_regex {
            Some(pattern) => {
                if self.regex_authorized_topics.contains(name) {
                    is_match(pattern.as_str(), name.as_str())
                } else {
                    false
                }
            },
            None => false,
        }
    }

    fn is_subscribed(&self, name: &String) -> (r: bool)
        ensures
            r == self@.wants(name@),
    {
        if self.subscribed_topic_names.contains(name) {
            return true;
        }
        self.resolves(name)
    }
}

/// What each member is to hold, and since which epoch.
#[derive(Debug, PartialEq, Eq)]
pub struct TargetAssignment {
    pub epoch: i32,
    pub per_member: OrdMap<String, Partitions>,
}

/// A consumer group.
#[derive(Debug, PartialEq, Eq)]
pub struct GroupState {
    pub group_id: String,
    pub group_epoch: i32,
    pub members: OrdMap<String, MemberState>,
    pub target: TargetAssignment,
    /// Whether the target no longer fits the members and is to be computed anew.
    pub dirty: bool,
}

#[verifier::ext_equal]
pub struct GroupStateView {
    pub group_id: Seq<char>,
    pub group_epoch: i32,
    pub members: Map<Seq<char>, MemberStateView>,
    pub target_epoch: i32,
    pub target: Map<Seq<char>, PartitionsView>,
    pub dirty: bool,
}

impl View for GroupState {
    type V = GroupStateView;

    open spec fn view(&self) -> GroupStateView {
        GroupStateView {
            group_id: self.group_id@,
            group_epoch: self.group_epoch,
            members: self.members@,
            target_epoch: self.target.epoch,
            target: self.target.per_member@,
            dirty: self.dirty,
        }
    }
}

impl Dup for GroupState {
    fn dup(&self) -> (r: Self) {
        GroupState {
            group_id: self.group_id.clone(),
            group_epoch: self.group_epoch,
            members: self.members.dup(),
            target: TargetAssignment { epoch: self.target.epoch, per_member: self.target.per_member.dup() },
            dirty: self.dirty,
        }
    }
}

/// What the topics look like: their ids by name, their partitions and racks by id.
#[derive(Debug, PartialEq, Eq)]
pub struct ReconcileInput {
    pub topic_id_by_name: OrdMap<String, u128>,
    pub topics: TopicMetadata,
}

#[verifier::ext_equal]
pub struct ReconcileInputView {
    pub topic_id_by_name: Map<Seq<char>, u128>,
    pub topics: TopicMetadataView,
}

impl View for ReconcileInput {
    type V = ReconcileInputView;

    open spec fn view(&self) -> ReconcileInputView {
        ReconcileInputView { topic_id_by_name: self.topic_id_by_name@, topics: self.topics@ }
    }
}

impl ReconcileInput {
    /// No topics.
    pub fn empty() -> (r: Self)
        ensures
            r@.topic_id_by_name == Map::<Seq<char>, u128>::empty(),
            r@.topics.partitions_per_topic == Map::<u128, i32>::empty(),
            r@.topics.partition_racks == Map::<(u128, i32), Set<Seq<char>>>::empty(),
    {
        ReconcileInput {
            topic_id_by_name: OrdMap::new(),
            topics: TopicMetadata { partitions_per_topic: OrdMap::new(), partition_racks: OrdMap::new() },
        }
    }
}

/// The ids of those of the topics `names` that the member subscribes to.
pub open spec fn chosen_topics(m: MemberStateView, input: ReconcileInputView, names: Seq<Seq<char>>) -> Seq<u128>
    decreases names.len(),
{
    if names.len() == 0 {
        seq![]
    } else {
        let before = chosen_topics(m, input, names.drop_last());
        if m.wants(names.last()) {
            before.push(input.topic_id_by_name[names.last()])
        } else {
            before
        }
    }
}

/// What a member asks of the assignor.
pub open spec fn subscription_of(m: MemberStateView, input: ReconcileInputView) -> MemberSubscriptionView {
    MemberSubscriptionView {
        member_id: m.member_id,
        rack_id: m.rack_id,
        subscribed_topic_ids: chosen_topics(m, input, listing::<String>(input.topic_id_by_name.dom())),
    }
}

impl GroupStateView {
    /// The members that hold the static identity `instance`.
    pub open spec fn holders(self, instance: Seq<char>) -> Set<Seq<char>> {
        Set::new(|id: Seq<char>| self.members.contains_key(id) && self.members[id].instance_id == Some(instance))
    }

    /// Who holds the static identity `instance`.
    pub open spec fn pinned(self, instance: Seq<char>) -> Option<Seq<char>> {
        first_of(self.holders(instance))
    }

    /// What `id` is to hold.
    pub open spec fn target_of(self, id: Seq<char>) -> PartitionsView {
        if self.target.contains_key(id) {
            self.target[id]
        } else {
            Map::empty()
        }
    }

    /// A member joined or changed.
    pub open spec fn with_member(self, m: MemberStateView) -> GroupStateView {
        GroupStateView { members: self.members.insert(m.member_id, m), dirty: true, ..self }
    }

    /// A member is gone.
    pub open spec fn without_member(self, id: Seq<char>) -> GroupStateView {
        GroupStateView { members: self.members.remove(id), target: self.target.remove(id), dirty: true, ..self }
    }

    /// Those of `ids` are gone, one after the other.
    pub open spec fn without_members(self, ids: Seq<Seq<char>>) -> GroupStateView
        decreases ids.len(),
    {
        if ids.len() == 0 {
            self
        } else {
            self.without_members(ids.drop_last()).without_member(ids.last())
        }
    }

    /// The member comes to the epoch of the target, and remembers the one it comes from.
    pub open spec fn advanced(self, id: Seq<char>) -> GroupStateView {
        if self.members.contains_key(id) && self.members[id].member_epoch != self.target_epoch {
            GroupStateView {
                members: self.members.insert(
                    id,
                    MemberStateView { previous_member_epoch: self.members[id].member_epoch, member_epoch: self.target_epoch, ..self.members[id] },
                ),
                ..self
            }
        } else {
            self
        }
    }

    /// Whether a member other than `id` holds partition `p` of topic `t`.
    pub open spec fn held_elsewhere(self, id: Seq<char>, t: u128, p: i32) -> bool {
        exists|other: Seq<char>| #[trigger] self.members.contains_key(other) && other != id && self.members[other].holds(t, p)
    }

    /// What of its target a member may own now: all that nobody else holds.
    pub open spec fn granted(self, id: Seq<char>) -> PartitionsView {
        parts_where(self.target_of(id), |t: u128, p: i32| !self.held_elsewhere(id, t, p))
    }

    /// What of its target a member has to wait for.
    pub open spec fn withheld(self, id: Seq<char>) -> PartitionsView {
        parts_where(self.target_of(id), |t: u128, p: i32| self.held_elsewhere(id, t, p))
    }

    /// What a member is to give up: what it holds beyond its target and still reports to own.
    pub open spec fn revoking(self, id: Seq<char>, owned: PartitionsView) -> PartitionsView {
        parts_where(self.members[id].held(), |t: u128, p: i32| part_of(owned, t, p) && !part_of(self.target_of(id), t, p))
    }

    /// The member moves towards its target, as far as what others hold allows.
    pub open spec fn reconciled_member(self, id: Seq<char>, owned: PartitionsView) -> MemberStateView {
        let pending = self.revoking(id, owned);
        MemberStateView {
            assigned_partitions: self.granted(id),
            partitions_pending_revocation: pending,
            assignment_state: if pending != Map::<u128, Seq<i32>>::empty() {
                MemberAssignmentState::UnrevokedPartitions
            } else if self.withheld(id) != Map::<u128, Seq<i32>>::empty() {
                MemberAssignmentState::UnreleasedPartitions
            } else {
                MemberAssignmentState::Stable
            },
            ..self.members[id]
        }
    }

    /// The group once `id` has moved towards its target.
    pub open spec fn with_reconciled(self, id: Seq<char>, owned: PartitionsView) -> GroupStateView {
        if self.members.contains_key(id) {
            GroupStateView { members: self.members.insert(id, self.reconciled_member(id, owned)), ..self }
        } else {
            self
        }
    }

    /// A static member leaves for a while: it stays, at the epoch that says so.
    pub open spec fn released(self, id: Seq<char>) -> GroupStateView {
        if self.members.contains_key(id) {
            GroupStateView { members: self.members.insert(id, MemberStateView { member_epoch: LEAVE_GROUP_STATIC_MEMBER_EPOCH, ..self.members[id] }), ..self }
        } else {
            self
        }
    }

    /// The member `to` takes the place of `from`, with its subscription, target and assignment,
    /// at epoch zero.
    pub open spec fn replaced(self, from: Seq<char>, to: Seq<char>) -> GroupStateView {
        if self.members.contains_key(from) {
            GroupStateView {
                members: self.members.remove(from).insert(
                    to,
                    MemberStateView { member_id: to, member_epoch: 0, previous_member_epoch: 0, classic: None, ..self.members[from] },
                ),
                target: if self.target.contains_key(from) {
                    self.target.remove(from).insert(to, self.target[from])
                } else {
                    self.target
                },
                ..self
            }
        } else {
            self
        }
    }

    /// The members that have not been heard of for the session timeout.
    pub open spec fn silent_members(self, now: u64, session_timeout: u64) -> Set<Seq<char>> {
        Set::new(|id: Seq<char>| self.members.contains_key(id) && self.members[id].silent(now, session_timeout))
    }

    /// What the members ask of the assignor, in the order of their ids.
    pub open spec fn subscriptions(self, input: ReconcileInputView) -> Seq<MemberSubscriptionView> {
        let ids = listing::<String>(self.members.dom());
        Seq::new(ids.len(), |i: int| subscription_of(self.members[ids[i]], input))
    }
}

/// The assignor that the first member asks for that asks for one there is.
pub open spec fn preferred_assignor<A: Assignor>(g: GroupStateView, ids: Seq<Seq<char>>, assignors: Seq<A>) -> Option<int>
    decreases ids.len(),
{
    if ids.len() == 0 {
        None
    } else {
        match preferred_assignor(g, ids.drop_last(), assignors) {
            Some(i) => Some(i),
            None => match g.members[ids.last()].server_assignor {
                Some(name) => assignor_called(assignors, name),
                None => None,
            },
        }
    }
}

/// The assignor of the group: the one that a member prefers, else the first there is.
pub open spec fn picked_assignor<A: Assignor>(g: GroupStateView, assignors: Seq<A>) -> int {
    match preferred_assignor(g, listing::<String>(g.members.dom()), assignors) {
        Some(i) => i,
        None => 0,
    }
}

/// A group whose target no longer fits gets a new one: the next epoch begins, and the assignor
/// says what each member is to hold. One whose target fits, or whose epochs are used up, stays.
pub open spec fn reconciled<A: Assignor>(g: GroupStateView, assignors: Seq<A>, input: ReconcileInputView) -> GroupStateView {
    if g.dirty && g.group_epoch < i32::MAX {
        GroupStateView {
            group_epoch: (g.group_epoch + 1) as i32,
            target_epoch: (g.group_epoch + 1) as i32,
            target: assignors[picked_assignor(g, assignors)].assigns(g.subscriptions(input), input.topics),
            dirty: false,
            ..g
        }
    } else {
        g
    }
}

struct HoldsInstance<'a> {
    instance: &'a String,
}

impl<'a> Test<String, MemberState> for HoldsInstance<'a> {
    closed spec fn holds(&self, k: Seq<char>, v: MemberStateView) -> bool {
        v.instance_id == Some(self.instance@)
    }

    fn test(&self, k: &String, v: &MemberState) -> (r: bool) {
        opt_is(&v.instance_id, self.instance.as_str())
    }
}

struct Silent {
    now: u64,
    session_timeout: u64,
}

impl Test<String, MemberState> for Silent {
    closed spec fn holds(&self, k: Seq<char>, v: MemberStateView) -> bool {
        v.silent(self.now, self.session_timeout)
    }

    fn test(&self, k: &String, v: &MemberState) -> (r: bool) {
        self.now >= v.last_seen && self.now - v.last_seen >= self.session_timeout
    }
}

struct HeldByOther<'a> {
    id: &'a String,
    t: u128,
    p: i32,
}

impl<'a> Test<String, MemberState> for HeldByOther<'a> {
    closed spec fn holds(&self, k: Seq<char>, v: MemberStateView) -> bool {
        k != self.id@ && v.holds(self.t, self.p)
    }

    fn test(&self, k: &String, v: &MemberState) -> (r: bool) {
        !str_eq(k.as_str(), self.id.as_str()) && v.holds_partition(self.t, self.p)
    }
}

struct Free<'a> {
    state: &'a GroupState,
    id: &'a String,
}

impl<'a> PartTest for Free<'a> {
    closed spec fn holds(&self, t: u128, p: i32) -> bool {
        !self.state@.held_elsewhere(self.id@, t, p)
    }

    fn test(&self, t: u128, p: i32) -> (r: bool) {
        !self.state.is_held_elsewhere(self.id, t, p)
    }
}

struct Taken<'a> {
    state: &'a GroupState,
    id: &'a String,
}

impl<'a> PartTest for Taken<'a> {
    closed spec fn holds(&self, t: u128, p: i32) -> bool {
        self.state@.held_elsewhere(self.id@, t, p)
    }

    fn test(&self, t: u128, p: i32) -> (r: bool) {
        self.state.is_held_elsewhere(self.id, t, p)
    }
}

struct Surplus<'a> {
    owned: &'a Partitions,
    target: &'a Partitions,
}

impl<'a> PartTest for Surplus<'a> {
    closed spec fn holds(&self, t: u128, p: i32) -> bool {
        part_of(self.owned@, t, p) && !part_of(self.target@, t, p)
    }

    fn test(&self, t: u128, p: i32) -> (r: bool) {
        has_partition(self.owned, t, p) && !has_partition(self.target, t, p)
    }
}

impl GroupState {
    /// A group without members.
    pub fn new(group_id: String) -> (r: Self)
        ensures
            r@ == (GroupStateView {
                group_id: group_id@,
                group_epoch: 0,
                members: Map::empty(),
                target_epoch: 0,
                target: Map::empty(),
                dirty: false,
            }),
    {
        GroupState {
            group_id,
            group_epoch: 0,
            members: OrdMap::new(),
            target: TargetAssignment { epoch: 0, per_member: OrdMap::new() },
            dirty: false,
        }
    }

    /// Who holds the static identity `instance`.
    pub fn current_member_for_instance(&self, instance: &String) -> (r: Option<String>)
        ensures
            opt_str(r) == self@.pinned(instance@),
            r is Some ==> self@.members.contains_key(r->0@) && self@.members[r->0@].instance_id == Some(instance@),
    {
        let t = HoldsInstance { instance };
        let found = self.members.keys_where(&t);
        assert(passing::<String, MemberState, HoldsInstance>(self.members@, t) =~= self@.holders(instance@));
        if found.len() == 0 {
            assert(self@.holders(instance@) =~= Set::<Seq<char>>::empty()) by {
                assert forall|id: Seq<char>| !self@.holders(instance@).contains(id) by {
                    if self@.holders(instance@).contains(id) {
                        assert(views(found@).contains(id));
                    }
                }
            }
            None
        } else {
            assert(self@.holders(instance@).contains(views(found@)[0]));
            Some(found[0].clone())
        }
    }

    /// Puts a member in, or in place of the one of its id.
    pub fn add_or_update_member(&mut self, member: MemberState)
        ensures
            final(self)@ == old(self)@.with_member(member@),
    {
        let id = member.member_id.clone();
        self.members.insert(id, member);
        self.dirty = true;
    }

    /// Takes a member out.
    pub fn remove_member(&mut self, id: &String)
        ensures
            final(self)@ == old(self)@.without_member(id@),
    {
        let _ = self.members.remove(id);
        let _ = self.target.per_member.remove(id);
        self.dirty = true;
    }

    /// Brings a member to the epoch of the target.
    pub fn advance_member_epoch(&mut self, id: &String)
        ensures
            final(self)@ == old(self)@.advanced(id@),
    {
        let ghost before = self@;
        if let Some(mut m) = self.members.remove(id) {
            if m.member_epoch != self.target.epoch {
                m.previous_member_epoch = m.member_epoch;
                m.member_epoch = self.target.epoch;
            }
            self.members.insert(id.clone(), m);
            assert(self@.members =~= before.advanced(id@).members);
        } else {
            assert(self@.members =~= before.members);
        }
    }

    fn is_held_elsewhere(&self, id: &String, t: u128, p: i32) -> (r: bool)
        ensures
            r == self@.held_elsewhere(id@, t, p),
    {
        let test = HeldByOther { id, t, p };
        let r = self.members.any(&test);
        proof {
            if r {
                let k = choose|k: Seq<char>| #[trigger] self.members@.contains_key(k) && test.holds(k, self.members@[k]);
                assert(self@.members.contains_key(k));
            }
            if self@.held_elsewhere(id@, t, p) {
                let k = choose|k: Seq<char>| #[trigger] self@.members.contains_key(k) && k != id@ && self@.members[k].holds(t, p);
                assert(self.members@.contains_key(k) && test.holds(k, self.members@[k]));
            }
        }
        r
    }

    /// Moves a member towards its target, given what it reports to own: it is granted what of its
    /// target nobody else holds, and is to give up what it holds beyond it. Says whether anything
    /// changed.
    pub fn reconcile_member(&mut self, id: &String, owned: &Partitions) -> (changed: bool)
        ensures
            final(self)@ == old(self)@.with_reconciled(id@, owned@),
            changed == (old(self)@.members.contains_key(id@) && ({
                let before = old(self)@.members[id@];
                let after = old(self)@.reconciled_member(id@, owned@);
                before.assigned_partitions != after.assigned_partitions || before.partitions_pending_revocation != after.partitions_pending_revocation
                    || before.assignment_state != after.assignment_state
            })),
    {
        let ghost g = self@;
        let none: Partitions = OrdMap::new();
        let target: &Partitions = match self.target.per_member.get(id) {
            Some(t) => t,
            None => &none,
        };
        assert(target@ == g.target_of(id@));
        let free = Free { state: self, id };
        let granted = filter_parts(target, &free);
        assert((|t: u128, p: i32| free.holds(t, p)) =~= (|t: u128, p: i32| !g.held_elsewhere(id@, t, p)));
        let taken = Taken { state: self, id };
        let withheld = filter_parts(target, &taken);
        assert((|t: u128, p: i32| taken.holds(t, p)) =~= (|t: u128, p: i32| g.held_elsewhere(id@, t, p)));
        let surplus = Surplus { owned, target };
        let revoking: Option<Partitions> = match self.members.get(id) {
            Some(m) => {
                let held = m.held_partitions();
                let r = filter_parts(&held, &surplus);
                assert((|t: u128, p: i32| surplus.holds(t, p)) =~= (|t: u128, p: i32| part_of(owned@, t, p) && !part_of(g.target_of(id@), t, p)));
                Some(r)
            },
            None => None,
        };
        match (self.members.remove(id), revoking) {
            (Some(mut m), Some(pending)) => {
                let state = if !pending.is_empty() {
                    MemberAssignmentState::UnrevokedPartitions
                } else if !withheld.is_empty() {
                    MemberAssignmentState::UnreleasedPartitions
                } else {
                    MemberAssignmentState::Stable
                };
                let changed: bool = !parts_eq(&m.assigned_partitions, &granted) || !parts_eq(&m.partitions_pending_revocation, &pending)
                    || m.assignment_state != state;
                m.assigned_partitions = granted;
                m.partitions_pending_revocation = pending;
                m.assignment_state = state;
                assert(m@ =~= g.reconciled_member(id@, owned@));
                self.members.insert(id.clone(), m);
                assert(self@.members =~= g.with_reconciled(id@, owned@).members);
                changed
            },
            _ => {
                assert(self@.members =~= g.members);
                false
            },
        }
    }

    /// Lets a static member leave for a while.
    pub fn release_static_member(&mut self, id: &String)
        ensures
            final(self)@ == old(self)@.released(id@),
    {
        let ghost before = self@;
        if let Some(mut m) = self.members.remove(id) {
            m.member_epoch = LEAVE_GROUP_STATIC_MEMBER_EPOCH;
            self.members.insert(id.clone(), m);
            assert(self@.members =~= before.released(id@).members);
        } else {
            assert(self@.members =~= before.members);
        }
    }

    /// Puts the member `to` in the place of `from`.
    pub fn replace_static_member(&mut self, from: &String, to: &String)
        ensures
            final(self)@ == old(self)@.replaced(from@, to@),
    {
        let ghost before = self@;
        if let Some(mut m) = self.members.remove(from) {
            m.member_id = to.clone();
            m.member_epoch = 0;
            m.previous_member_epoch = 0;
            m.classic = None;
            self.members.insert(to.clone(), m);
            if let Some(t) = self.target.per_member.remove(from) {
                self.target.per_member.insert(to.clone(), t);
            } else {
                assert(self@.target =~= before.target);
            }
            assert(self@ =~= before.replaced(from@, to@));
        } else {
            assert(self@.members =~= before.members);
        }
    }

    /// Takes those of `ids` out, one after the other.
    pub fn remove_members(&mut self, ids: &Vec<String>)
        ensures
            final(self)@ == old(self)@.without_members(views(ids@)),
    {
        let ghost before = self@;
        let ghost all = views(ids@);
        let mut i: usize = 0;
        assert(all.take(0) =~= seq![]);
        while i < ids.len()
            invariant
                0 <= i <= ids@.len(),
                all == views(ids@),
                self@ == before.without_members(all.take(i as int)),
            decreases ids@.len() - i,
        {
            assert(all.take(i + 1).drop_last() =~= all.take(i as int));
            assert(all.take(i + 1).last() == ids@[i as int]@);
            self.remove_member(&ids[i]);
            i = i + 1;
        }
        assert(all.take(ids@.len() as int) =~= all);
    }

    /// Takes out the members that have not been heard of for the session timeout.
    pub fn evict_expired(&mut self, now: u64, session_timeout: u64) -> (evicted: Vec<String>)
        ensures
            views(evicted@) == listing::<String>(old(self)@.silent_members(now, session_timeout)),
            final(self)@ == old(self)@.without_members(views(evicted@)),
    {
        let evicted = self.silent(now, session_timeout);
        self.remove_members(&evicted);
        evicted
    }

    /// The members that were not heard of in time, in order.
    pub fn silent(&self, now: u64, session_timeout: u64) -> (r: Vec<String>)
        ensures
            views(r@) == listing::<String>(self@.silent_members(now, session_timeout)),
    {
        let t = Silent { now, session_timeout };
        assert(passing::<String, MemberState, Silent>(self.members@, t) =~= self@.silent_members(now, session_timeout));
        self.members.keys_where(&t)
    }

    fn subscription(m: &MemberState, input: &ReconcileInput) -> (r: MemberSubscription)
        ensures
            r@ == subscription_of(m@, input@),
    {
        let n: usize = input.topic_id_by_name.len();
        let ghost names = input.topic_id_by_name.keys();
        let mut ids: Vec<u128> = Vec::new();
        let mut i: usize = 0;
        assert(names.take(0) =~= seq![]);
        while i < n
            invariant
                0 <= i <= n,
                n == names.len(),
                names == input.topic_id_by_name.keys(),
                ids@ == chosen_topics(m@, input@, names.take(i as int)),
            decreases n - i,
        {
            assert(names.take(i + 1).drop_last() =~= names.take(i as int));
            assert(names.take(i + 1).last() == names[i as int]);
            let name = input.topic_id_by_name.key_at(i);
            let id = input.topic_id_by_name.value_at(i);
            if m.is_subscribed(name) {
                ids.push(*id);
            }
            i = i + 1;
        }
        assert(names.take(n as int) =~= names);
        MemberSubscription { member_id: m.member_id.clone(), rack_id: dup_opt_str(&m.rack_id), subscribed_topic_ids: ids }
    }

    fn subscription_list(&self, input: &ReconcileInput) -> (r: Vec<MemberSubscription>)
        ensures
            views(r@) == self@.subscriptions(input@),
    {
        let n: usize = self.members.len();
        let ghost ids = self.members.keys();
        let mut out: Vec<MemberSubscription> = Vec::new();
        let mut i: usize = 0;
        while i < n
            invariant
                0 <= i <= n,
                n == ids.len(),
                ids == self.members.keys(),
                ids == listing::<String>(self@.members.dom()),
                out@.len() == i,
                forall|j: int| 0 <= j < i ==> (#[trigger] out@[j])@ == self@.subscriptions(input@)[j],
            decreases n - i,
        {
            out.push(Self::subscription(self.members.value_at(i), input));
            i = i + 1;
        }
        assert(views(out@) =~= self@.subscriptions(input@));
        out
    }

    /// Computes the target anew where it no longer fits.
    pub fn reconcile_if_dirty<A: Assignor>(&mut self, input: &ReconcileInput, config: &NextGenConfig<A>)
        requires
            config.assignors@.len() > 0,
        ensures
            final(self)@ == reconciled(old(self)@, config.assignors@, input@),
    {
        if !self.dirty || self.group_epoch == i32::MAX {
            return;
        }
        let i: usize = pick_assignor(self, config);
        let members = self.subscription_list(input);
        let assignment = config.assignors[i].assign(members.as_slice(), &input.topics);
        self.group_epoch = self.group_epoch + 1;
        self.target = TargetAssignment { epoch: self.group_epoch, per_member: assignment };
        self.dirty = false;
    }
}

proof fn called_in_range<A: Assignor>(assignors: Seq<A>, name: Seq<char>)
    ensures
        assignor_called(assignors, name) is Some ==> 0 <= assignor_called(assignors, name)->0 < assignors.len(),
    decreases assignors.len(),
{
    if assignors.len() > 0 {
        called_in_range(assignors.drop_last(), name);
    }
}

proof fn preferred_in_front<A: Assignor>(g: GroupStateView, ids: Seq<Seq<char>>, n: int, assignors: Seq<A>)
    requires
        0 <= n <= ids.len(),
        preferred_assignor(g, ids.take(n), assignors) is Some,
    ensures
        preferred_assignor(g, ids, assignors) == preferred_assignor(g, ids.take(n), assignors),
    decreases ids.len(),
{
    if n == ids.len() {
        assert(ids.take(n) =~= ids);
    } else {
        assert(ids.drop_last().take(n) =~= ids.take(n));
        preferred_in_front(g, ids.drop_last(), n, assignors);
    }
}

/// The place of the group's assignor: the one that a member prefers, else the first.
pub fn pick_assignor<A: Assignor>(state: &GroupState, config: &NextGenConfig<A>) -> (r: usize)
    requires
        config.assignors@.len() > 0,
    ensures
        r < config.assignors@.len(),
        r == picked_assignor(state@, config.assignors@),
{
    let n: usize = state.members.len();
    let ghost ids = state.members.keys();
    let mut i: usize = 0;
    assert(ids.take(0) =~= seq![]);
    while i < n
        invariant
            0 <= i <= n,
            n == ids.len(),
            ids == state.members.keys(),
            ids == listing::<String>(state@.members.dom()),
            preferred_assignor(state@, ids.take(i as int), config.assignors@) is None,
        decreases n - i,
    {
        assert(ids.take(i + 1).drop_last() =~= ids.take(i as int));
        assert(ids.take(i + 1).last() == ids[i as int]);
        let m = state.members.value_at(i);
        if let Some(name) = &m.server_assignor {
            if let Some(found) = config.find_assignor(name.as_str()) {
                proof {
                    preferred_in_front(state@, ids, i + 1, config.assignors@);
                }
                return found;
            }
        }
        i = i + 1;
    }
    assert(ids.take(n as int) =~= ids);
    0
}

/// Where the coordinator gets what it knows of the topics.
pub trait MetadataProvider {
    /// What the topics look like now.
    fn snapshot(&self) -> ReconcileInput;
}

/// Computes the target anew where it no longer fits, from what the topics look like now; the
/// topics are not looked at where it fits.
pub fn run_reconcile<A: Assignor, M: MetadataProvider>(state: &mut GroupState, config: &NextGenConfig<A>, metadata: &M)
    requires
        config.assignors@.len() > 0,
    ensures
        !old(state)@.dirty ==> final(state)@ == old(state)@,
        old(state)@.dirty ==> exists|input: ReconcileInput| #[trigger]
            call_ensures(M::snapshot, (metadata,), input) && reconciled(old(state)@, config.assignors@, input@) == final(state)@,
        old(state)@.group_epoch < i32::MAX ==> !final(state)@.dirty,
{
    if !state.dirty {
        return;
    }
    let input = metadata.snapshot();
    assert(call_ensures(M::snapshot, (metadata,), input));
    state.reconcile_if_dirty(&input, config);
}

} // verus!
