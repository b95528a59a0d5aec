//! The classic group: its members, its five states and the steps between them.

use crate::codes;
use crate::ordmap::{Change, Dup, Key, OrdMap, OrdSet, Order, Test, listing, passing, str_eq, str_lt, views};
use crate::text::{bytes_eq, dup_opt_bytes, dup_opt_str, opt_bytes, opt_is, opt_str};
use vstd::prelude::*;

verus! {

/// Where a classic group stands between two generations.
#[derive(Clone, Copy, Debug, PartialEq, Eq, Structural)]
pub enum GroupState {
    /// No member.
    Empty,
    /// Members gather for the next generation.
    PreparingRebalance,
    /// The generation began; the leader's assignments are awaited.
    CompletingRebalance,
    /// The assignments are installed.
    Stable,
}

/// An embedded protocol that a member supports, with its metadata.
#[derive(Debug, PartialEq, Eq)]
pub struct Protocol {
    pub name: String,
    pub metadata: Vec<u8>,
}

#[verifier::ext_equal]
pub struct ProtocolView {
    pub name: Seq<char>,
    pub metadata: Seq<u8>,
}

impl View for Protocol {
    type V = ProtocolView;

    open spec fn view(&self) -> ProtocolView {
        ProtocolView { name: self.name@, metadata: self.metadata@ }
    }
}

impl Dup for Protocol {
    fn dup(&self) -> (r: Self) {
        Protocol { name: self.name.clone(), metadata: self.metadata.dup() }
    }
}

pub fn dup_protocols(list: &Vec<Protocol>) -> (r: Vec<Protocol>)
    ensures
        views(r@) == views(list@),
{
    let mut r: Vec<Protocol> = Vec::new();
    let mut i: usize = 0;
    while i < list.len()
        invariant
            0 <= i <= list@.len(),
            r@.len() == i,
            forall|j: int| 0 <= j < i ==> (#[trigger] r@[j])@ == list@[j]@,
        decreases list@.len() - i,
    {
        r.push(list[i].dup());
        i = i + 1;
    }
    assert(views(r@) =~= views(list@));
    r
}

pub fn protocols_eq(a: &Vec<Protocol>, b: &Vec<Protocol>) -> (r: bool)
    ensures
        r == (views(a@) == views(b@)),
{
    if a.len() != b.len() {
        assert(views(a@).len() != views(b@).len());
        return false;
    }
    let mut i: usize = 0;
    while i < a.len()
        invariant
            0 <= i <= a@.len(),
            a@.len() == b@.len(),
            forall|j: int| 0 <= j < i ==> a@[j]@ == b@[j]@,
        decreases a@.len() - i,
    {
        if !str_eq(a[i].name.as_str(), b[i].name.as_str()) || !bytes_eq(&a[i].metadata, &b[i].metadata) {
            assert(views(a@)[i as int] != views(b@)[i as int]);
            return false;
        }
        i = i + 1;
    }
    assert(views(a@) =~= views(b@));
    true
}

/// Whether a protocol called `name` is among `protocols`.
pub open spec fn supports(protocols: Seq<ProtocolView>, name: Seq<char>) -> bool {
    exists|i: int| 0 <= i < protocols.len() && (#[trigger] protocols[i]).name == name
}

/// The metadata of the first protocol called `name`, or `otherwise` where there is none.
pub open spec fn metadata_of(protocols: Seq<ProtocolView>, name: Seq<char>, otherwise: Seq<u8>) -> Seq<u8>
    decreases protocols.len(),
{
    if protocols.len() == 0 {
        otherwise
    } else if protocols[0].name == name {
        protocols[0].metadata
    } else {
        metadata_of(protocols.drop_first(), name, otherwise)
    }
}

/// A member of a classic group. Times are milliseconds.
#[derive(Debug, PartialEq, Eq)]
pub struct Member {
    pub id: String,
    pub client_id: String,
    pub client_host: String,
    pub session_timeout: u64,
    pub rebalance_timeout: u64,
    pub protocols: Vec<Protocol>,
    pub group_instance_id: Option<String>,
    /// The metadata of the protocol that the generation selected.
    pub protocol_metadata: Vec<u8>,
    pub assignment: Option<Vec<u8>>,
    pub last_heartbeat: u64,
    /// Whether the member has not seen a generation begin yet.
    pub is_new: bool,
}

#[verifier::ext_equal]
pub struct MemberView {
    pub id: Seq<char>,
    pub client_id: Seq<char>,
    pub client_host: Seq<char>,
    pub session_timeout: u64,
    pub rebalance_timeout: u64,
    pub protocols: Seq<ProtocolView>,
    pub group_instance_id: Option<Seq<char>>,
    pub protocol_metadata: Seq<u8>,
    pub assignment: Option<Seq<u8>>,
    pub last_heartbeat: u64,
    pub is_new: bool,
}

impl View for Member {
    type V = MemberView;

    open spec fn view(&self) -> MemberView {
        MemberView {
            id: self.id@,
            client_id: self.client_id@,
            client_host: self.client_host@,
            session_timeout: self.session_timeout,
            rebalance_timeout: self.rebalance_timeout,
            protocols: views(self.protocols@),
            group_instance_id: opt_str(self.group_instance_id),
            protocol_metadata: self.protocol_metadata@,
            assignment: opt_bytes(self.assignment),
            last_heartbeat: self.last_heartbeat,
            is_new: self.is_new,
        }
    }
}

impl Dup for Member {
    fn dup(&self) -> (r: Self) {
        Member {
            id: self.id.clone(),
            client_id: self.client_id.clone(),
            client_host: self.client_host.clone(),
            session_timeout: self.session_timeout,
            rebalance_timeout: self.rebalance_timeout,
            protocols: dup_protocols(&self.protocols),
            group_instance_id: dup_opt_str(&self.group_instance_id),
            protocol_metadata: self.protocol_metadata.dup(),
            assignment: dup_opt_bytes(&self.assignment),
            last_heartbeat: self.last_heartbeat,
            is_new: self.is_new,
        }
    }
}

impl MemberView {
    /// Whether the member keeps its identity over restarts.
    pub open spec fn is_static(self) -> bool {
        self.group_instance_id is Some
    }

    /// Whether the session has run out by `now`.
    pub open spec fn lapsed(self, now: u64) -> bool {
        now >= self.last_heartbeat + self.session_timeout
    }
}

impl Member {
    /// A member that has not joined a generation yet, its metadata that of its first protocol.
    pub fn new(id: String, client_id: String, client_host: String, session_timeout: u64, rebalance_timeout: u64, protocols: Vec<Protocol>) -> (r: Self)
        ensures
            r@ == (MemberView {
                id: id@,
                client_id: client_id@,
                client_host: client_host@,
                session_timeout,
                rebalance_timeout,
                protocols: views(protocols@),
                group_instance_id: None,
                protocol_metadata: if protocols@.len() == 0 {
                    seq![]
                } else {
                    protocols@[0].metadata@
                },
                assignment: None,
                last_heartbeat: 0,
                is_new: false,
            }),
    {
        let protocol_metadata: Vec<u8> = if protocols.len() == 0 {
            Vec::new()
        } else {
            protocols[0].metadata.dup()
        };
        Member {
            id,
            client_id,
            client_host,
            session_timeout,
            rebalance_timeout,
            protocols,
            group_instance_id: None,
            protocol_metadata,
            assignment: None,
            last_heartbeat: 0,
            is_new: false,
        }
    }

    /// The member under a static identity, or under none.
    pub fn with_instance_id(self, group_instance_id: Option<String>) -> (r: Self)
        ensures
            r@ == (MemberView { group_instance_id: opt_str(group_instance_id), ..self@ }),
    {
        let mut m = self;
        m.group_instance_id = group_instance_id;
        m
    }

    pub fn is_static(&self) -> (r: bool)
        ensures
            r == self@.is_static(),
    {
        self.group_instance_id.is_some()
    }
}

fn supports_name(protocols: &Vec<Protocol>, name: &str) -> (r: bool)
    ensures
        r == supports(views(protocols@), name@),
{
    let mut i: usize = 0;
    while i < protocols.len()
        invariant
            0 <= i <= protocols@.len(),
            forall|j: int| 0 <= j < i ==> (#[trigger] protocols@[j]).name@ != name@,
        decreases protocols@.len() - i,
    {
        if str_eq(protocols[i].name.as_str(), name) {
            assert(views(protocols@)[i as int].name == name@);
            return true;
        }
        i = i + 1;
    }
    proof {
        if supports(views(protocols@), name@) {
            let j = choose|j: int| 0 <= j < views(protocols@).len() && (#[trigger] views(protocols@)[j]).name == name@;
            assert(protocols@[j].name@ == name@);
        }
    }
    false
}

/// The metadata of the first protocol called `name`, or `otherwise` where there is none.
pub fn metadata_for(protocols: &Vec<Protocol>, name: &str, otherwise: &Vec<u8>) -> (r: Vec<u8>)
    ensures
        r@ == metadata_of(views(protocols@), name@, otherwise@),
{
    let ghost all = views(protocols@);
    let mut i: usize = 0;
    assert(all.skip(0) =~= all);
    while i < protocols.len()
        invariant
            0 <= i <= protocols@.len(),
            all == views(protocols@),
            metadata_of(all, name@, otherwise@) == metadata_of(all.skip(i as int), name@, otherwise@),
        decreases protocols@.len() - i,
    {
        assert(all.skip(i as int)[0] == protocols@[i as int]@);
        if str_eq(protocols[i].name.as_str(), name) {
            return protocols[i].metadata.dup();
        }
        assert(all.skip(i as int).drop_first() =~= all.skip(i + 1));
        i = i + 1;
    }
    otherwise.dup()
}

/// How long the delay of a round from an empty group is, and how much of it may still be added.
#[derive(Clone, Copy, Debug, PartialEq, Eq, Structural)]
pub struct InitialJoin {
    pub delay: u64,
    pub remaining: u64,
}

/// A classic group. Times are milliseconds.
#[derive(Debug, PartialEq, Eq)]
pub struct ClassicGroup {
    pub group_id: String,
    pub state: GroupState,
    pub protocol_type: Option<String>,
    pub protocol_name: Option<String>,
    pub generation_id: i32,
    pub leader_id: Option<String>,
    pub members: OrdMap<String, Member>,
    /// Which member holds a static identity.
    pub static_members: OrdMap<String, String>,
    /// The members that wait in `JoinGroup`.
    pub joined_this_round: OrdSet<String>,
    /// Member ids that were given out but have not joined, and until when they may.
    pub pending_members: OrdMap<String, u64>,
    pub rebalance_deadline: Option<u64>,
    pub rebalance_from_empty: bool,
    pub initial_join: Option<InitialJoin>,
    pub new_member_added: bool,
}

#[verifier::ext_equal]
pub struct ClassicGroupView {
    pub group_id: Seq<char>,
    pub state: GroupState,
    pub protocol_type: Option<Seq<char>>,
    pub protocol_name: Option<Seq<char>>,
    pub generation_id: i32,
    pub leader_id: Option<Seq<char>>,
    pub members: Map<Seq<char>, MemberView>,
    pub static_members: Map<Seq<char>, Seq<char>>,
    pub joined_this_round: Set<Seq<char>>,
    pub pending_members: Map<Seq<char>, u64>,
    pub rebalance_deadline: Option<u64>,
    pub rebalance_from_empty: bool,
    pub initial_join: Option<InitialJoin>,
    pub new_member_added: bool,
}

impl View for ClassicGroup {
    type V = ClassicGroupView;

    open spec fn view(&self) -> ClassicGroupView {
        ClassicGroupView {
            group_id: self.group_id@,
            state: self.state,
            protocol_type: opt_str(self.protocol_type),
            protocol_name: opt_str(self.protocol_name),
            generation_id: self.generation_id,
            leader_id: opt_str(self.leader_id),
            members: self.members@,
            static_members: self.static_members@,
            joined_this_round: self.joined_this_round@,
            pending_members: self.pending_members@,
            rebalance_deadline: self.rebalance_deadline,
            rebalance_from_empty: self.rebalance_from_empty,
            initial_join: self.initial_join,
            new_member_added: self.new_member_added,
        }
    }
}

impl Dup for ClassicGroup {
    fn dup(&self) -> (r: Self) {
        ClassicGroup {
            group_id: self.group_id.clone(),
            state: self.state,
            protocol_type: dup_opt_str(&self.protocol_type),
            protocol_name: dup_opt_str(&self.protocol_name),
            generation_id: self.generation_id,
            leader_id: dup_opt_str(&self.leader_id),
            members: self.members.dup(),
            static_members: self.static_members.dup(),
            joined_this_round: self.joined_this_round.dup(),
            pending_members: self.pending_members.dup(),
            rebalance_deadline: self.rebalance_deadline,
            rebalance_from_empty: self.rebalance_from_empty,
            initial_join: self.initial_join,
            new_member_added: self.new_member_added,
        }
    }
}

/// The sum, or the largest time where it does not fit.
pub open spec fn later(now: u64, by: u64) -> u64 {
    if now + by > u64::MAX {
        u64::MAX
    } else {
        (now + by) as u64
    }
}

/// Whether every member supports the protocol `name`.
pub open spec fn common(members: Map<Seq<char>, MemberView>, name: Seq<char>) -> bool {
    forall|id: Seq<char>| #[trigger] members.contains_key(id) ==> supports(members[id].protocols, name)
}

/// The first protocol of a member's list that every member supports.
pub open spec fn ballot(members: Map<Seq<char>, MemberView>, protocols: Seq<ProtocolView>) -> Option<Seq<char>>
    decreases protocols.len(),
{
    if protocols.len() == 0 {
        None
    } else if common(members, protocols[0].name) {
        Some(protocols[0].name)
    } else {
        ballot(members, protocols.drop_first())
    }
}

/// How many of the members `ids` vote for `name`.
pub open spec fn tally(members: Map<Seq<char>, MemberView>, ids: Seq<Seq<char>>, name: Seq<char>) -> nat
    decreases ids.len(),
{
    if ids.len() == 0 {
        0
    } else {
        tally(members, ids.drop_last(), name) + if ballot(members, members[ids.last()].protocols) == Some(name) {
            1nat
        } else {
            0
        }
    }
}

/// How many members vote for `name`.
pub open spec fn votes(members: Map<Seq<char>, MemberView>, name: Seq<char>) -> nat {
    tally(members, listing::<String>(members.dom()), name)
}

/// Whether `name` can be selected: some member has it and every member supports it.
pub open spec fn candidate(members: Map<Seq<char>, MemberView>, name: Seq<char>) -> bool {
    &&& exists|id: Seq<char>| #[trigger] members.contains_key(id) && supports(members[id].protocols, name)
    &&& common(members, name)
}

/// Whether `name` has the most votes of all candidates, and is the first by name of those.
pub open spec fn elected(members: Map<Seq<char>, MemberView>, name: Seq<char>) -> bool {
    &&& candidate(members, name)
    &&& forall|other: Seq<char>| #[trigger] candidate(members, other) ==> votes(members, other) <= votes(members, name)
    &&& forall|other: Seq<char>| #[trigger] candidate(members, other) && votes(members, other) == votes(members, name) ==> !str_lt(other, name)
}

/// The protocol that the members' vote selects, where they have one in common.
pub open spec fn selected_protocol(members: Map<Seq<char>, MemberView>) -> Option<Seq<char>> {
    if exists|name: Seq<char>| elected(members, name) {
        Some(choose|name: Seq<char>| elected(members, name))
    } else {
        None
    }
}

/// Whether `t` is the longest rebalance timeout of the members, zero of none.
pub open spec fn is_longest(members: Map<Seq<char>, MemberView>, t: u64) -> bool {
    &&& forall|id: Seq<char>| #[trigger] members.contains_key(id) ==> members[id].rebalance_timeout <= t
    &&& t > 0 ==> exists|id: Seq<char>| #[trigger] members.contains_key(id) && members[id].rebalance_timeout == t
}

/// The longest rebalance timeout of the members.
pub open spec fn longest_timeout(members: Map<Seq<char>, MemberView>) -> u64 {
    choose|t: u64| is_longest(members, t)
}

/// The first of the members in `s`.
pub open spec fn first_of(s: Set<Seq<char>>) -> Option<Seq<char>> {
    if s == Set::<Seq<char>>::empty() {
        None
    } else {
        Some(listing::<String>(s)[0])
    }
}

impl ClassicGroupView {
    /// Who holds the static identity `instance`.
    pub open spec fn pinned(self, instance: Seq<char>) -> Option<Seq<char>> {
        if self.static_members.contains_key(instance) {
            Some(self.static_members[instance])
        } else {
            None
        }
    }

    /// Whether a request may speak for `id`: an instance id must be held, and held by `id`, and
    /// `id` must be a member.
    pub open spec fn validate_member(self, id: Seq<char>, instance: Option<Seq<char>>) -> Result<(), i16> {
        if instance is Some && self.pinned(instance->0) is None {
            Err(codes::UNKNOWN_MEMBER_ID)
        } else if instance is Some && self.pinned(instance->0) != Some(id) {
            Err(codes::FENCED_INSTANCE_ID)
        } else if !self.members.contains_key(id) {
            Err(codes::UNKNOWN_MEMBER_ID)
        } else {
            Ok(())
        }
    }

    /// Whether a member with these protocols fits in: an empty group takes any that are named;
    /// else the type must be the group's, and one protocol shared by all members.
    pub open spec fn supports_protocols(self, protocol_type: Seq<char>, protocols: Seq<ProtocolView>) -> bool {
        if self.state == GroupState::Empty {
            protocol_type.len() > 0 && protocols.len() > 0
        } else {
            &&& self.protocol_type == Some(protocol_type)
            &&& exists|i: int| 0 <= i < protocols.len() && common(self.members, (#[trigger] protocols[i]).name)
        }
    }

    /// Whether every member waits in `JoinGroup` and no id is still to join.
    pub open spec fn all_joined(self) -> bool {
        &&& forall|id: Seq<char>| #[trigger] self.members.contains_key(id) ==> self.joined_this_round.contains(id)
        &&& self.pending_members == Map::<Seq<char>, u64>::empty()
    }

    /// The members that wait in `JoinGroup`.
    pub open spec fn joined_members(self) -> Set<Seq<char>> {
        Set::new(|id: Seq<char>| self.members.contains_key(id) && self.joined_this_round.contains(id))
    }

    /// A round opens: from an empty group after the initial delay, else after the longest
    /// rebalance timeout.
    pub open spec fn preparing(self, delay: u64, now: u64) -> ClassicGroupView {
        let longest = longest_timeout(self.members);
        if self.state == GroupState::Empty {
            ClassicGroupView {
                state: GroupState::PreparingRebalance,
                joined_this_round: Set::empty(),
                rebalance_from_empty: true,
                rebalance_deadline: Some(later(now, delay)),
                initial_join: Some(InitialJoin { delay, remaining: if longest > delay { (longest - delay) as u64 } else { 0 } }),
                new_member_added: false,
                ..self
            }
        } else {
            ClassicGroupView {
                state: GroupState::PreparingRebalance,
                joined_this_round: Set::empty(),
                rebalance_from_empty: false,
                rebalance_deadline: Some(later(now, longest)),
                initial_join: None,
                new_member_added: false,
                ..self
            }
        }
    }

    /// `id` waits in `JoinGroup`.
    pub open spec fn awaiting(self, id: Seq<char>) -> ClassicGroupView {
        ClassicGroupView { joined_this_round: self.joined_this_round.insert(id), ..self }
    }

    /// No round is open and the group has no members' state left.
    pub open spec fn emptied(self) -> ClassicGroupView {
        ClassicGroupView {
            state: GroupState::Empty,
            leader_id: None,
            protocol_name: None,
            rebalance_deadline: None,
            joined_this_round: Set::empty(),
            rebalance_from_empty: false,
            initial_join: None,
            new_member_added: false,
            ..self
        }
    }

    /// `id` is gone: out of the members, the round, the pending ids and the static identities. A
    /// leader that went is followed by the first member left; a group that lost its last member
    /// is empty.
    pub open spec fn without_member(self, id: Seq<char>) -> ClassicGroupView {
        let members = self.members.remove(id);
        let g = ClassicGroupView {
            members,
            joined_this_round: self.joined_this_round.remove(id),
            pending_members: self.pending_members.remove(id),
            static_members: Map::new(
                |i: Seq<char>| self.static_members.contains_key(i) && self.static_members[i] != id,
                |i: Seq<char>| self.static_members[i],
            ),
            leader_id: if self.leader_id == Some(id) {
                first_of(members.dom())
            } else {
                self.leader_id
            },
            ..self
        };
        if self.members.contains_key(id) && members == Map::<Seq<char>, MemberView>::empty() {
            g.emptied()
        } else {
            g
        }
    }

    /// A member joins: no longer pending, pinned to its static identity, the leader of a group
    /// that has none, and the one whose protocol type a group without members takes.
    pub open spec fn with_joining(self, m: MemberView, protocol_type: Seq<char>) -> ClassicGroupView {
        ClassicGroupView {
            protocol_type: if self.members == Map::<Seq<char>, MemberView>::empty() {
                Some(protocol_type)
            } else {
                self.protocol_type
            },
            leader_id: if self.leader_id is None {
                Some(m.id)
            } else {
                self.leader_id
            },
            members: self.members.insert(m.id, m),
            static_members: match m.group_instance_id {
                Some(i) => self.static_members.insert(i, m.id),
                None => self.static_members,
            },
            pending_members: self.pending_members.remove(m.id),
            ..self
        }
    }

    /// A member that joins again brings its protocols and timeouts.
    pub open spec fn with_updated(self, id: Seq<char>, protocols: Seq<ProtocolView>, rebalance_timeout: u64, session_timeout: u64) -> ClassicGroupView {
        if self.members.contains_key(id) {
            ClassicGroupView {
                members: self.members.insert(id, MemberView { protocols, rebalance_timeout, session_timeout, ..self.members[id] }),
                ..self
            }
        } else {
            self
        }
    }

    /// The session of `id` begins anew.
    pub open spec fn refreshed(self, id: Seq<char>, now: u64) -> ClassicGroupView {
        if self.members.contains_key(id) {
            ClassicGroupView { members: self.members.insert(id, MemberView { last_heartbeat: now, ..self.members[id] }), ..self }
        } else {
            self
        }
    }

    /// The member behind a static identity takes a new id; its old id waits for nothing.
    pub open spec fn with_replaced(self, instance: Seq<char>, from: Seq<char>, to: Seq<char>) -> ClassicGroupView {
        ClassicGroupView {
            members: if self.members.contains_key(from) {
                self.members.remove(from).insert(to, MemberView { id: to, ..self.members[from] })
            } else {
                self.members
            },
            static_members: self.static_members.insert(instance, to),
            leader_id: if self.leader_id == Some(from) {
                Some(to)
            } else {
                self.leader_id
            },
            joined_this_round: self.joined_this_round.remove(from),
            ..self
        }
    }

    /// The leader after the round: the one before while it joined again, else the first member
    /// that did; none where nobody did.
    pub open spec fn joined_leader(self) -> Option<Seq<char>> {
        if self.leader_id is Some && self.joined_members().contains(self.leader_id->0) {
            self.leader_id
        } else {
            first_of(self.joined_members())
        }
    }

    /// Every member's metadata is that of the protocol `name`, where it has it.
    pub open spec fn resolved(self, name: Seq<char>) -> ClassicGroupView {
        ClassicGroupView {
            members: Map::new(
                |id: Seq<char>| self.members.contains_key(id),
                |id: Seq<char>|
                    MemberView {
                        protocol_metadata: metadata_of(self.members[id].protocols, name, self.members[id].protocol_metadata),
                        ..self.members[id]
                    },
            ),
            ..self
        }
    }

    /// The next generation begins with the protocol `name`.
    pub open spec fn completed(self, name: Seq<char>) -> ClassicGroupView {
        ClassicGroupView {
            state: GroupState::CompletingRebalance,
            generation_id: (self.generation_id + 1) as i32,
            protocol_name: Some(name),
            rebalance_deadline: None,
            joined_this_round: Set::empty(),
            rebalance_from_empty: false,
            initial_join: None,
            new_member_added: false,
            ..self
        }
    }

    /// Every session begins anew and no member is new any more.
    pub open spec fn settled(self, now: u64) -> ClassicGroupView {
        ClassicGroupView {
            members: Map::new(
                |id: Seq<char>| self.members.contains_key(id),
                |id: Seq<char>| MemberView { last_heartbeat: now, is_new: false, ..self.members[id] },
            ),
            ..self
        }
    }

    /// The assignments are installed: the group is stable.
    pub open spec fn installed(self, assignments: Map<Seq<char>, Seq<u8>>) -> ClassicGroupView {
        ClassicGroupView {
            state: GroupState::Stable,
            members: Map::new(
                |id: Seq<char>| self.members.contains_key(id),
                |id: Seq<char>|
                    if assignments.contains_key(id) {
                        MemberView { assignment: Some(assignments[id]), ..self.members[id] }
                    } else {
                        self.members[id]
                    },
            ),
            ..self
        }
    }

    /// The members whose session has run out and that do not wait in `JoinGroup`.
    pub open spec fn dead_members(self, now: u64) -> Set<Seq<char>> {
        Set::new(|id: Seq<char>| self.members.contains_key(id) && self.members[id].lapsed(now) && !self.joined_this_round.contains(id))
    }

    /// Those of `ids` are gone, one after the other.
    pub open spec fn without_members(self, ids: Seq<Seq<char>>) -> ClassicGroupView
        decreases ids.len(),
    {
        if ids.len() == 0 {
            self
        } else {
            self.without_members(ids.drop_last()).without_member(ids.last())
        }
    }
}

impl ClassicGroupView {
    /// A member is put into the group and waits in `JoinGroup`; a round is open.
    pub open spec fn added(self, m: MemberView) -> ClassicGroupView {
        ClassicGroupView {
            state: GroupState::PreparingRebalance,
            joined_this_round: self.joined_this_round.insert(m.id),
            protocol_type: self.protocol_type,
            ..self.with_joining(m, seq![])
        }
    }

    /// What is left once the members whose session ran out are dropped, and the ids that were
    /// not taken up in time. A generation that lost members makes way for the next.
    pub open spec fn expired(self, now: u64, delay: u64) -> ClassicGroupView {
        let dead = listing::<String>(self.dead_members(now));
        let g = ClassicGroupView {
            pending_members: Map::new(
                |id: Seq<char>| self.pending_members.contains_key(id) && self.pending_members[id] > now,
                |id: Seq<char>| self.pending_members[id],
            ),
            ..self
        }.without_members(dead);
        if dead.len() > 0 && g.members != Map::<Seq<char>, MemberView>::empty() && (g.state == GroupState::Stable || g.state
            == GroupState::CompletingRebalance) {
            g.preparing(delay, now)
        } else {
            g
        }
    }

    /// Whether the round from an empty group waits once more, since a member came meanwhile.
    pub open spec fn extends_initial_join(self) -> bool {
        self.initial_join is Some && self.new_member_added && self.initial_join->0.remaining > 0
    }

    /// The initial delay runs once more, as far as is left of it.
    pub open spec fn extended(self, now: u64) -> ClassicGroupView {
        let join = self.initial_join->0;
        let delay = if join.delay < join.remaining {
            join.delay
        } else {
            join.remaining
        };
        ClassicGroupView {
            initial_join: Some(InitialJoin { delay: join.delay, remaining: (join.remaining - delay) as u64 }),
            new_member_added: false,
            rebalance_deadline: Some(later(now, delay)),
            ..self
        }
    }
}

struct LacksProtocol<'a> {
    name: &'a str,
}

impl<'a> Test<String, Member> for LacksProtocol<'a> {
    closed spec fn holds(&self, k: Seq<char>, v: MemberView) -> bool {
        !supports(v.protocols, self.name@)
    }

    fn test(&self, k: &String, v: &Member) -> (r: bool) {
        !supports_name(&v.protocols, self.name)
    }
}

struct NotJoined<'a> {
    joined: &'a OrdSet<String>,
}

impl<'a> Test<String, Member> for NotJoined<'a> {
    closed spec fn holds(&self, k: Seq<char>, v: MemberView) -> bool {
        !self.joined@.contains(k)
    }

    fn test(&self, k: &String, v: &Member) -> (r: bool) {
        !self.joined.contains(k)
    }
}

struct Joined<'a> {
    joined: &'a OrdSet<String>,
}

impl<'a> Test<String, Member> for Joined<'a> {
    closed spec fn holds(&self, k: Seq<char>, v: MemberView) -> bool {
        self.joined@.contains(k)
    }

    fn test(&self, k: &String, v: &Member) -> (r: bool) {
        self.joined.contains(k)
    }
}

struct Dead<'a> {
    joined: &'a OrdSet<String>,
    now: u64,
}

impl<'a> Test<String, Member> for Dead<'a> {
    closed spec fn holds(&self, k: Seq<char>, v: MemberView) -> bool {
        v.lapsed(self.now) && !self.joined@.contains(k)
    }

    fn test(&self, k: &String, v: &Member) -> (r: bool) {
        self.now >= v.last_heartbeat && self.now - v.last_heartbeat >= v.session_timeout && !self.joined.contains(k)
    }
}

struct PinnedElsewhere<'a> {
    id: &'a String,
}

impl<'a> Test<String, String> for PinnedElsewhere<'a> {
    closed spec fn holds(&self, k: Seq<char>, v: Seq<char>) -> bool {
        v != self.id@
    }

    fn test(&self, k: &String, v: &String) -> (r: bool) {
        !str_eq(v.as_str(), self.id.as_str())
    }
}

struct StillPending {
    now: u64,
}

impl Test<String, u64> for StillPending {
    closed spec fn holds(&self, k: Seq<char>, v: u64) -> bool {
        v > self.now
    }

    fn test(&self, k: &String, v: &u64) -> (r: bool) {
        *v > self.now
    }
}

struct ResolveMetadata<'a> {
    name: &'a str,
}

impl<'a> Change<String, Member> for ResolveMetadata<'a> {
    closed spec fn changed(&self, k: Seq<char>, v: MemberView) -> MemberView {
        MemberView { protocol_metadata: metadata_of(v.protocols, self.name@, v.protocol_metadata), ..v }
    }

    fn change(&self, k: &String, v: &Member) -> (r: Member) {
        let mut m = v.dup();
        m.protocol_metadata = metadata_for(&v.protocols, self.name, &v.protocol_metadata);
        m
    }
}

struct Settle {
    now: u64,
}

impl Change<String, Member> for Settle {
    closed spec fn changed(&self, k: Seq<char>, v: MemberView) -> MemberView {
        MemberView { last_heartbeat: self.now, is_new: false, ..v }
    }

    fn change(&self, k: &String, v: &Member) -> (r: Member) {
        let mut m = v.dup();
        m.last_heartbeat = self.now;
        m.is_new = false;
        m
    }
}

struct Install<'a> {
    assignments: &'a OrdMap<String, Vec<u8>>,
}

impl<'a> Change<String, Member> for Install<'a> {
    closed spec fn changed(&self, k: Seq<char>, v: MemberView) -> MemberView {
        if self.assignments@.contains_key(k) {
            MemberView { assignment: Some(self.assignments@[k]), ..v }
        } else {
            v
        }
    }

    fn change(&self, k: &String, v: &Member) -> (r: Member) {
        let mut m = v.dup();
        if let Some(a) = self.assignments.get(k) {
            m.assignment = Some(a.dup());
        }
        m
    }
}

/// Whether every member supports the protocol `name`.
fn is_common(members: &OrdMap<String, Member>, name: &str) -> (r: bool)
    ensures
        r == common(members@, name@),
{
    let t = LacksProtocol { name };
    let lacking = members.any(&t);
    proof {
        if lacking {
            let id = choose|id: Seq<char>| #[trigger] members@.contains_key(id) && t.holds(id, members@[id]);
            assert(!supports(members@[id].protocols, name@));
        } else {
            assert forall|id: Seq<char>| #[trigger] members@.contains_key(id) implies supports(members@[id].protocols, name@) by {
                assert(!t.holds(id, members@[id]));
            }
        }
    }
    !lacking
}

/// Whether a member's vote goes to `name`.
fn votes_for(members: &OrdMap<String, Member>, protocols: &Vec<Protocol>, name: &str) -> (r: bool)
    ensures
        r == (ballot(members@, views(protocols@)) == Some(name@)),
{
    let ghost all = views(protocols@);
    let mut i: usize = 0;
    assert(all.skip(0) =~= all);
    while i < protocols.len()
        invariant
            0 <= i <= protocols@.len(),
            all == views(protocols@),
            ballot(members@, all) == ballot(members@, all.skip(i as int)),
        decreases protocols@.len() - i,
    {
        assert(all.skip(i as int)[0] == protocols@[i as int]@);
        if is_common(members, protocols[i].name.as_str()) {
            return str_eq(protocols[i].name.as_str(), name);
        }
        assert(all.skip(i as int).drop_first() =~= all.skip(i + 1));
        i = i + 1;
    }
    false
}

fn count_votes(members: &OrdMap<String, Member>, name: &str) -> (r: usize)
    ensures
        r == votes(members@, name@),
{
    let n: usize = members.len();
    let ghost ids = members.keys();
    let mut count: usize = 0;
    let mut i: usize = 0;
    assert(ids.take(0) =~= seq![]);
    while i < n
        invariant
            0 <= i <= n,
            n == ids.len(),
            ids == members.keys(),
            members.listed(),
            count <= i,
            count == tally(members@, ids.take(i as int), name@),
        decreases n - i,
    {
        assert(ids.take(i + 1).drop_last() =~= ids.take(i as int));
        assert(ids.take(i + 1).last() == ids[i as int]);
        let m = members.value_at(i);
        if votes_for(members, &m.protocols, name) {
            count = count + 1;
        }
        i = i + 1;
    }
    assert(ids.take(n as int) =~= ids);
    count
}

proof fn elected_unique(members: Map<Seq<char>, MemberView>, a: Seq<char>, b: Seq<char>)
    requires
        elected(members, a),
        elected(members, b),
    ensures
        a == b,
{
    assert(candidate(members, a) && candidate(members, b));
    String::lt_total(a, b);
}

/// The protocol with the most votes, each member voting for its first one that all support.
pub fn select_protocol(members: &OrdMap<String, Member>) -> (r: Option<String>)
    ensures
        opt_str(r) == selected_protocol(members@),
{
    let n: usize = members.len();
    if n == 0 {
        proof {
            assert forall|name: Seq<char>| !elected(members@, name) by {
                if elected(members@, name) {
                    let id = choose|id: Seq<char>| #[trigger] members@.contains_key(id) && supports(members@[id].protocols, name);
                    assert(members.keys().contains(id));
                }
            }
        }
        return None;
    }
    let first = members.value_at(0);
    let ghost first_id = members.keys()[0];
    let ghost all = views(first.protocols@);
    let mut best: Option<(&String, usize)> = None;
    let mut i: usize = 0;
    while i < first.protocols.len()
        invariant
            0 <= i <= first.protocols@.len(),
            all == views(first.protocols@),
            members@.contains_key(first_id),
            all == members@[first_id].protocols,
            best is None ==> forall|j: int| 0 <= j < i ==> !common(members@, (#[trigger] all[j]).name),
            best is Some ==> {
                let (name, count) = best->0;
                &&& candidate(members@, name@)
                &&& count == votes(members@, name@)
                &&& forall|j: int|
                    0 <= j < i && common(members@, (#[trigger] all[j]).name) ==> votes(members@, all[j].name) < count || (votes(members@, all[j].name) == count
                        && !str_lt(all[j].name, name@))
            },
        decreases first.protocols@.len() - i,
    {
        let name = &first.protocols[i].name;
        assert(all[i as int].name == name@);
        if is_common(members, name.as_str()) {
            assert(supports(members@[first_id].protocols, name@));
            assert(candidate(members@, name@));
            let count: usize = count_votes(members, name.as_str());
            proof {
                String::lt_irreflexive(name@);
            }
            match best {
                None => {
                    best = Some((name, count));
                },
                Some((other, most)) => {
                    let better: bool = count > most || (count == most && matches!(crate::ordmap::str_order(name.as_str(), other.as_str()), Order::Less));
                    proof {
                        if better && count == most {
                            assert forall|j: int|
                                0 <= j < i && common(members@, (#[trigger] all[j]).name) implies votes(members@, all[j].name) < count || !str_lt(
                                all[j].name,
                                name@,
                            ) by {
                                if str_lt(all[j].name, name@) {
                                    String::lt_transitive(all[j].name, name@, other@);
                                }
                            }
                        }
                        if !better && count == most {
                            if str_lt(name@, other@) {
                                if str_lt(other@, name@) {
                                    String::lt_transitive(name@, other@, name@);
                                }
                            }
                        }
                    }
                    if better {
                        best = Some((name, count));
                    }
                },
            }
        }
        i = i + 1;
    }
    proof {
        assert forall|name: Seq<char>| #[trigger] candidate(members@, name) implies exists|j: int|
            0 <= j < all.len() && (#[trigger] all[j]).name == name && common(members@, all[j].name) by {
            assert(supports(members@[first_id].protocols, name));
            let j = choose|j: int| 0 <= j < all.len() && (#[trigger] all[j]).name == name;
            assert(all[j].name == name);
        }
    }
    match best {
        None => {
            proof {
                assert forall|name: Seq<char>| !elected(members@, name) by {
                    if elected(members@, name) {
                        assert(candidate(members@, name));
                        let j = choose|j: int| 0 <= j < all.len() && (#[trigger] all[j]).name == name && common(members@, all[j].name);
                        assert(!common(members@, all[j].name));
                    }
                }
            }
            None
        },
        Some((name, count)) => {
            proof {
                assert forall|other: Seq<char>| #[trigger] candidate(members@, other) implies votes(members@, other) <= count && (votes(members@, other) == count
                    ==> !str_lt(other, name@)) by {
                    let j = choose|j: int| 0 <= j < all.len() && (#[trigger] all[j]).name == other && common(members@, all[j].name);
                    assert(common(members@, all[j].name));
                }
                assert(elected(members@, name@));
                elected_unique(members@, name@, choose|n: Seq<char>| elected(members@, n));
            }
            Some(name.clone())
        },
    }
}

impl ClassicGroup {
    /// An empty group.
    pub fn new(group_id: String) -> (r: Self)
        ensures
            r@ == (ClassicGroupView {
                group_id: group_id@,
                state: GroupState::Empty,
                protocol_type: None,
                protocol_name: None,
                generation_id: 0,
                leader_id: None,
                members: Map::empty(),
                static_members: Map::empty(),
                joined_this_round: Set::empty(),
                pending_members: Map::empty(),
                rebalance_deadline: None,
                rebalance_from_empty: false,
                initial_join: None,
                new_member_added: false,
            }),
    {
        ClassicGroup {
            group_id,
            state: GroupState::Empty,
            protocol_type: None,
            protocol_name: None,
            generation_id: 0,
            leader_id: None,
            members: OrdMap::new(),
            static_members: OrdMap::new(),
            joined_this_round: OrdSet::new(),
            pending_members: OrdMap::new(),
            rebalance_deadline: None,
            rebalance_from_empty: false,
            initial_join: None,
            new_member_added: false,
        }
    }

    /// Who holds the static identity `instance`.
    pub fn current_member_id_for_instance(&self, instance: &String) -> (r: Option<&String>)
        ensures
            match r {
                Some(id) => self@.pinned(instance@) == Some(id@),
                None => self@.pinned(instance@) is None,
            },
    {
        self.static_members.get(instance)
    }

    /// Whether a request may speak for `id`.
    pub fn validate_member(&self, id: &String, instance: &Option<String>) -> (r: Result<(), i16>)
        ensures
            r == self@.validate_member(id@, opt_str(*instance)),
    {
        if let Some(i) = instance {
            match self.static_members.get(i) {
                None => {
                    return Err(codes::UNKNOWN_MEMBER_ID);
                },
                Some(pinned) => {
                    if !str_eq(pinned.as_str(), id.as_str()) {
                        return Err(codes::FENCED_INSTANCE_ID);
                    }
                },
            }
        }
        if self.members.contains_key(id) {
            Ok(())
        } else {
            Err(codes::UNKNOWN_MEMBER_ID)
        }
    }

    /// Whether a member with these protocols fits in.
    pub fn supports_protocols(&self, protocol_type: &String, protocols: &Vec<Protocol>) -> (r: bool)
        ensures
            r == self@.supports_protocols(protocol_type@, views(protocols@)),
    {
        if self.state == GroupState::Empty {
            return !protocol_type.as_str().is_empty() && protocols.len() > 0;
        }
        if !opt_is(&self.protocol_type, protocol_type.as_str()) {
            return false;
        }
        let ghost all = views(protocols@);
        let mut i: usize = 0;
        while i < protocols.len()
            invariant
                0 <= i <= protocols@.len(),
                all == views(protocols@),
                self@.state != GroupState::Empty,
                self@.protocol_type == Some(protocol_type@),
                forall|j: int| 0 <= j < i ==> !common(self@.members, (#[trigger] all[j]).name),
            decreases protocols@.len() - i,
        {
            if is_common(&self.members, protocols[i].name.as_str()) {
                assert(common(self@.members, all[i as int].name));
                return true;
            }
            assert(!common(self@.members, all[i as int].name));
            i = i + 1;
        }
        false
    }

    /// The longest rebalance timeout of the members.
    pub fn rebalance_timeout(&self) -> (r: u64)
        ensures
            r == longest_timeout(self@.members),
    {
        let n: usize = self.members.len();
        let ghost ids = self.members.keys();
        let mut longest: u64 = 0;
        let mut i: usize = 0;
        while i < n
            invariant
                0 <= i <= n,
                n == ids.len(),
                ids == self.members.keys(),
                self.members.listed(),
                forall|j: int| 0 <= j < i ==> self@.members[#[trigger] ids[j]].rebalance_timeout <= longest,
                longest > 0 ==> exists|id: Seq<char>| #[trigger] self@.members.contains_key(id) && self@.members[id].rebalance_timeout == longest,
            decreases n - i,
        {
            let t: u64 = self.members.value_at(i).rebalance_timeout;
            if t > longest {
                assert(self@.members.contains_key(ids[i as int]));
                longest = t;
            }
            i = i + 1;
        }
        proof {
            assert forall|id: Seq<char>| #[trigger] self@.members.contains_key(id) implies self@.members[id].rebalance_timeout <= longest by {
                assert(ids.contains(id));
                let j = choose|j: int| 0 <= j < ids.len() && ids[j] == id;
                assert(self@.members[ids[j]].rebalance_timeout <= longest);
            }
            assert(is_longest(self@.members, longest));
            let t = longest_timeout(self@.members);
            assert(is_longest(self@.members, t));
        }
        longest
    }

    /// Opens a round.
    pub fn prepare_rebalance(&mut self, delay: u64, now: u64)
        ensures
            final(self)@ == old(self)@.preparing(delay, now),
    {
        let longest: u64 = self.rebalance_timeout();
        if self.state == GroupState::Empty {
            self.rebalance_from_empty = true;
            self.rebalance_deadline = Some(now.saturating_add(delay));
            self.initial_join = Some(InitialJoin { delay, remaining: longest.saturating_sub(delay) });
        } else {
            self.rebalance_from_empty = false;
            self.rebalance_deadline = Some(now.saturating_add(longest));
            self.initial_join = None;
        }
        self.new_member_added = false;
        self.joined_this_round = OrdSet::new();
        self.state = GroupState::PreparingRebalance;
    }

    /// `id` waits in `JoinGroup` from here on.
    pub fn mark_awaiting_join(&mut self, id: &String)
        ensures
            final(self)@ == old(self)@.awaiting(id@),
    {
        self.joined_this_round.insert(id.clone());
    }

    /// Whether every member waits in `JoinGroup` and no id is still to join.
    pub fn has_all_members_joined(&self) -> (r: bool)
        ensures
            r == self@.all_joined(),
    {
        let t = NotJoined { joined: &self.joined_this_round };
        if self.members.any(&t) {
            proof {
                let id = choose|id: Seq<char>| #[trigger] self.members@.contains_key(id) && t.holds(id, self.members@[id]);
                assert(self@.members.contains_key(id) && !self@.joined_this_round.contains(id));
            }
            return false;
        }
        assert forall|id: Seq<char>| #[trigger] self@.members.contains_key(id) implies self@.joined_this_round.contains(id) by {
            assert(self.members@.contains_key(id));
            assert(!t.holds(id, self.members@[id]));
        }
        self.pending_members.is_empty()
    }

    /// Reserves `id` for a member that is to join before `deadline`.
    pub fn add_pending_member(&mut self, id: String, deadline: u64)
        ensures
            final(self)@ == (ClassicGroupView { pending_members: old(self)@.pending_members.insert(id@, deadline), ..old(self)@ }),
    {
        self.pending_members.insert(id, deadline);
    }

    /// The first member left, where there is one.
    fn first_member(&self) -> (r: Option<String>)
        ensures
            opt_str(r) == first_of(self@.members.dom()),
    {
        let n: usize = self.members.len();
        if n == 0 {
            assert(self@.members.dom() =~= Set::<Seq<char>>::empty()) by {
                assert forall|id: Seq<char>| !self@.members.contains_key(id) by {
                    if self@.members.contains_key(id) {
                        assert(self.members.keys().contains(id));
                    }
                }
            }
            None
        } else {
            assert(self@.members.contains_key(self.members.keys()[0]));
            assert(self@.members.dom().contains(self.members.keys()[0]));
            Some(self.members.key_at(0).clone())
        }
    }

    /// Drops what an empty group does not have.
    fn empty_out(&mut self)
        ensures
            final(self)@ == old(self)@.emptied(),
    {
        self.state = GroupState::Empty;
        self.leader_id = None;
        self.protocol_name = None;
        self.rebalance_deadline = None;
        self.joined_this_round = OrdSet::new();
        self.rebalance_from_empty = false;
        self.initial_join = None;
        self.new_member_added = false;
    }

    /// Takes `id` out of the group.
    pub fn remove_member(&mut self, id: &String)
        ensures
            final(self)@ == old(self)@.without_member(id@),
    {
        let ghost before = self@;
        let removed = self.members.remove(id);
        let _ = self.joined_this_round.remove(id);
        let _ = self.pending_members.remove(id);
        let t = PinnedElsewhere { id };
        self.static_members.retain(&t);
        assert(self@.static_members =~= before.without_member(id@).static_members);
        if opt_is(&self.leader_id, id.as_str()) {
            self.leader_id = self.first_member();
        }
        if removed.is_some() && self.members.is_empty() {
            self.empty_out();
        }
        assert(self@ =~= before.without_member(id@));
    }

    /// Takes those of `ids` out of the group, one after the other.
    pub fn remove_members(&mut self, ids: &Vec<String>)
        ensures
            final(self)@ == old(self)@.without_members(views(ids@)),
    {
        let ghost before = self@;
        let ghost all = views(ids@);
        let mut i: usize = 0;
        assert(all.take(0) =~= seq![]);
        while i < ids.len()
            invariant
                0 <= i <= ids@.len(),
                all == views(ids@),
                self@ == before.without_members(all.take(i as int)),
            decreases ids@.len() - i,
        {
            assert(all.take(i + 1).drop_last() =~= all.take(i as int));
            assert(all.take(i + 1).last() == ids@[i as int]@);
            self.remove_member(&ids[i]);
            i = i + 1;
        }
        assert(all.take(ids@.len() as int) =~= all);
    }

    /// Puts in a member that joins for the first time.
    pub fn insert_joining_member(&mut self, member: Member, protocol_type: &String)
        ensures
            final(self)@ == old(self)@.with_joining(member@, protocol_type@),
    {
        let ghost before = self@;
        if self.members.is_empty() {
            self.protocol_type = Some(protocol_type.clone());
        }
        if self.leader_id.is_none() {
            self.leader_id = Some(member.id.clone());
        }
        let _ = self.pending_members.remove(&member.id);
        if let Some(i) = &member.group_instance_id {
            self.static_members.insert(i.clone(), member.id.clone());
        }
        let id = member.id.clone();
        self.members.insert(id, member);
        assert(self@ =~= before.with_joining(member@, protocol_type@));
    }

    /// Puts a member in and opens a round for it.
    pub fn add_member(&mut self, member: Member)
        ensures
            final(self)@ == old(self)@.added(member@),
    {
        let ghost before = self@;
        let protocol_type = dup_opt_str(&self.protocol_type);
        let id = member.id.clone();
        self.insert_joining_member(member, &String::new());
        self.protocol_type = protocol_type;
        self.joined_this_round.insert(id);
        self.state = GroupState::PreparingRebalance;
        assert(self@ =~= before.added(member@));
    }

    /// Takes over what a member that joins again brings.
    pub fn update_joining_member(&mut self, id: &String, protocols: Vec<Protocol>, rebalance_timeout: u64, session_timeout: u64)
        ensures
            final(self)@ == old(self)@.with_updated(id@, views(protocols@), rebalance_timeout, session_timeout),
    {
        let ghost before = self@;
        if let Some(mut m) = self.members.remove(id) {
            m.protocols = protocols;
            m.rebalance_timeout = rebalance_timeout;
            m.session_timeout = session_timeout;
            self.members.insert(id.clone(), m);
            assert(self@.members =~= before.with_updated(id@, views(protocols@), rebalance_timeout, session_timeout).members);
        } else {
            assert(self@.members =~= before.members);
        }
    }

    /// Begins the session of `id` anew.
    pub fn refresh_session(&mut self, id: &String, now: u64)
        ensures
            final(self)@ == old(self)@.refreshed(id@, now),
    {
        let ghost before = self@;
        if let Some(mut m) = self.members.remove(id) {
            m.last_heartbeat = now;
            self.members.insert(id.clone(), m);
            assert(self@.members =~= before.refreshed(id@, now).members);
        } else {
            assert(self@.members =~= before.members);
        }
    }

    /// Gives the member behind a static identity a new id.
    pub fn replace_static_member(&mut self, instance: &String, from: &String, to: &String)
        ensures
            final(self)@ == old(self)@.with_replaced(instance@, from@, to@),
    {
        let ghost before = self@;
        if let Some(mut m) = self.members.remove(from) {
            m.id = to.clone();
            self.members.insert(to.clone(), m);
        } else {
            assert(self@.members =~= before.members);
        }
        self.static_members.insert(instance.clone(), to.clone());
        if opt_is(&self.leader_id, from.as_str()) {
            self.leader_id = Some(to.clone());
        }
        let _ = self.joined_this_round.remove(from);
        assert(self@ =~= before.with_replaced(instance@, from@, to@));
    }

    /// Keeps the leader that joined again, or elects the first member that did; whether there is
    /// one.
    pub fn maybe_elect_new_joined_leader(&mut self) -> (r: bool)
        ensures
            r == (old(self)@.joined_leader() is Some),
            r ==> final(self)@ == (ClassicGroupView { leader_id: old(self)@.joined_leader(), ..old(self)@ }),
            !r ==> final(self)@ == old(self)@,
    {
        let ghost before = self@;
        if let Some(leader) = &self.leader_id {
            if self.members.contains_key(leader) && self.joined_this_round.contains(leader) {
                return true;
            }
        }
        let t = Joined { joined: &self.joined_this_round };
        let joined = self.members.keys_where(&t);
        assert(passing::<String, Member, Joined>(self.members@, t) =~= before.joined_members());
        if joined.len() == 0 {
            assert(before.joined_members() =~= Set::<Seq<char>>::empty()) by {
                assert forall|id: Seq<char>| !before.joined_members().contains(id) by {
                    if before.joined_members().contains(id) {
                        assert(views(joined@).contains(id));
                    }
                }
            }
            false
        } else {
            assert(before.joined_members().contains(views(joined@)[0]));
            self.leader_id = Some(joined[0].clone());
            true
        }
    }

    /// Takes every member's metadata from the selected protocol.
    pub fn resolve_selected_protocol_metadata(&mut self, name: &String)
        ensures
            final(self)@ == old(self)@.resolved(name@),
    {
        let ghost before = self@;
        let c = ResolveMetadata { name: name.as_str() };
        self.members.change_each(&c);
        assert(self@.members =~= before.resolved(name@).members);
    }

    /// Begins the next generation; whether there is one left to begin.
    pub fn complete_rebalance(&mut self, name: String) -> (r: bool)
        ensures
            r == (old(self)@.generation_id < i32::MAX),
            r ==> final(self)@ == old(self)@.completed(name@),
            !r ==> final(self)@ == old(self)@,
    {
        if self.generation_id == i32::MAX {
            return false;
        }
        self.generation_id = self.generation_id + 1;
        self.state = GroupState::CompletingRebalance;
        self.protocol_name = Some(name);
        self.rebalance_deadline = None;
        self.joined_this_round = OrdSet::new();
        self.rebalance_from_empty = false;
        self.initial_join = None;
        self.new_member_added = false;
        true
    }

    /// Begins every session anew, as a generation begins.
    pub fn settle(&mut self, now: u64)
        ensures
            final(self)@ == old(self)@.settled(now),
    {
        let ghost before = self@;
        let c = Settle { now };
        self.members.change_each(&c);
        assert(self@.members =~= before.settled(now).members);
    }

    /// Installs assignments.
    pub fn install_assignments(&mut self, assignments: &OrdMap<String, Vec<u8>>)
        ensures
            final(self)@ == old(self)@.installed(assignments@),
    {
        let ghost before = self@;
        let c = Install { assignments };
        self.members.change_each(&c);
        self.state = GroupState::Stable;
        assert(self@.members =~= before.installed(assignments@).members);
    }

    /// Ends the round as that of an empty group in the next generation; whether there is one
    /// left to begin.
    pub fn empty_generation(&mut self) -> (r: bool)
        ensures
            r == (old(self)@.generation_id < i32::MAX),
            r ==> final(self)@ == (ClassicGroupView { generation_id: (old(self)@.generation_id + 1) as i32, ..old(self)@.emptied() }),
            !r ==> final(self)@ == old(self)@,
    {
        if self.generation_id == i32::MAX {
            return false;
        }
        self.empty_out();
        self.generation_id = self.generation_id + 1;
        true
    }

    /// Drops the members whose session ran out, and the ids that were not taken up in time.
    pub fn expire_dead_members(&mut self, now: u64, delay: u64) -> (dropped: Vec<String>)
        ensures
            views(dropped@) == listing::<String>(old(self)@.dead_members(now)),
            final(self)@ == old(self)@.expired(now, delay),
    {
        let ghost before = self@;
        let t = Dead { joined: &self.joined_this_round, now };
        let dropped = self.members.keys_where(&t);
        assert(passing::<String, Member, Dead>(self.members@, t) =~= before.dead_members(now));
        let p = StillPending { now };
        self.pending_members.retain(&p);
        let ghost pruned = ClassicGroupView {
            pending_members: Map::new(
                |id: Seq<char>| before.pending_members.contains_key(id) && before.pending_members[id] > now,
                |id: Seq<char>| before.pending_members[id],
            ),
            ..before
        };
        assert(self@ =~= pruned);
        self.remove_members(&dropped);
        if dropped.len() > 0 && !self.members.is_empty() && (self.state == GroupState::Stable || self.state == GroupState::CompletingRebalance) {
            self.prepare_rebalance(delay, now);
        }
        dropped
    }

    /// Extends the initial delay where a member came meanwhile; whether it did.
    pub fn extend_initial_join(&mut self, now: u64) -> (r: bool)
        ensures
            r == old(self)@.extends_initial_join(),
            r ==> final(self)@ == old(self)@.extended(now),
            !r ==> final(self)@ == old(self)@,
    {
        if let Some(join) = self.initial_join {
            if self.new_member_added && join.remaining > 0 {
                let delay: u64 = if join.delay < join.remaining {
                    join.delay
                } else {
                    join.remaining
                };
                self.initial_join = Some(InitialJoin { delay: join.delay, remaining: join.remaining - delay });
                self.new_member_added = false;
                self.rebalance_deadline = Some(now.saturating_add(delay));
                return true;
            }
        }
        false
    }
}

} // verus!
