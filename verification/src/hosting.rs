//! The classic requests of a member that a consumer group hosts.

use crate::classic_state::{Protocol, ProtocolView, dup_protocols, metadata_for, metadata_of};
use crate::codes;
use crate::consumer_state::{
    ClassicMemberFacade, ClassicMemberFacadeView, GroupState, GroupStateView, MemberAssignmentState, MemberState, MemberStateView, ReconcileInput,
    ReconcileInputView,
};
use crate::heartbeat::{name_set, same_set, set_of_names, to_unsigned, unsigned};
use crate::ordmap::{Dup, OrdMap, OrdSet, str_eq, views};
use crate::partitions::Partitions;
use crate::requests::{
    JoinGroupRequest, JoinGroupRequestView, JoinResult, JoinResultMember, JoinResultMemberView, JoinResultView, LeaveGroupRequest, MemberResponse,
    MemberResponseView, SyncResult, SyncResultView, sync_error,
    leave_identities,
};
use crate::text::{bytes_eq, dup_opt_str, holds_str, opt_str};
use crate::wire::{assignment_blob, decode_subscribed_topics, subscription_topics, target_to_consumer_assignment};
use vstd::prelude::*;

verus! {

/// What a classic member registers with.
#[derive(Debug, PartialEq, Eq)]
pub struct ClassicMemberRegistration {
    pub member_id: String,
    pub subscription_topics: OrdSet<String>,
    pub protocols: Vec<Protocol>,
    pub client_id: String,
    pub client_host: String,
    pub session_timeout: u64,
    pub rebalance_timeout: u64,
    pub instance_id: Option<String>,
}

#[verifier::ext_equal]
pub struct RegistrationView {
    pub member_id: Seq<char>,
    pub subscription_topics: Set<Seq<char>>,
    pub protocols: Seq<ProtocolView>,
    pub client_id: Seq<char>,
    pub client_host: Seq<char>,
    pub session_timeout: u64,
    pub rebalance_timeout: u64,
    pub instance_id: Option<Seq<char>>,
}

impl View for ClassicMemberRegistration {
    type V = RegistrationView;

    open spec fn view(&self) -> RegistrationView {
        RegistrationView {
            member_id: self.member_id@,
            subscription_topics: self.subscription_topics@,
            protocols: views(self.protocols@),
            client_id: self.client_id@,
            client_host: self.client_host@,
            session_timeout: self.session_timeout,
            rebalance_timeout: self.rebalance_timeout,
            instance_id: opt_str(self.instance_id),
        }
    }
}

/// The first protocol whose metadata is a subscription that can be read.
pub open spec fn readable_protocol(protocols: Seq<ProtocolView>) -> Option<int>
    decreases protocols.len(),
{
    if protocols.len() == 0 {
        None
    } else {
        match readable_protocol(protocols.drop_last()) {
            Some(i) => Some(i),
            None => if subscription_topics(protocols.last().metadata) is Some {
                Some(protocols.len() - 1)
            } else {
                None
            },
        }
    }
}

/// The protocol that a hosted member is answered with: the first that can be read, else the first.
pub open spec fn hosted_protocol(protocols: Seq<ProtocolView>) -> Option<Seq<char>> {
    match readable_protocol(protocols) {
        Some(i) => Some(protocols[i].name),
        None => if protocols.len() > 0 {
            Some(protocols[0].name)
        } else {
            None
        },
    }
}

/// The topics that a hosted member subscribes to.
pub open spec fn hosted_topics(protocols: Seq<ProtocolView>) -> Set<Seq<char>> {
    match readable_protocol(protocols) {
        Some(i) => name_set(subscription_topics(protocols[i].metadata)->0),
        None => Set::empty(),
    }
}

/// What a `JoinGroup` registers a hosted member with.
pub open spec fn registration(req: JoinGroupRequestView, client_id: Seq<char>, client_host: Seq<char>) -> RegistrationView {
    RegistrationView {
        member_id: req.member_id,
        subscription_topics: hosted_topics(req.protocols),
        protocols: req.protocols,
        client_id,
        client_host,
        session_timeout: unsigned(req.session_timeout_ms),
        rebalance_timeout: unsigned(req.rebalance_timeout_ms),
        instance_id: req.group_instance_id,
    }
}

proof fn readable_in_front(protocols: Seq<ProtocolView>, n: int)
    requires
        0 <= n <= protocols.len(),
        readable_protocol(protocols.take(n)) is Some,
    ensures
        readable_protocol(protocols) == readable_protocol(protocols.take(n)),
    decreases protocols.len(),
{
    if n == protocols.len() {
        assert(protocols.take(n) =~= protocols);
    } else {
        assert(protocols.drop_last().take(n) =~= protocols.take(n));
        readable_in_front(protocols.drop_last(), n);
    }
}

/// Reads what a `JoinGroup` registers a hosted member with, and the protocol it is answered with.
pub fn register(req: &JoinGroupRequest, client_id: &String, client_host: &String) -> (r: (ClassicMemberRegistration, Option<String>))
    ensures
        r.0@ == registration(req@, client_id@, client_host@),
        opt_str(r.1) == hosted_protocol(req@.protocols),
{
    let ghost all = req@.protocols;
    let mut topics: OrdSet<String> = OrdSet::new();
    let mut name: Option<String> = None;
    let mut i: usize = 0;
    let mut found: bool = false;
    assert(all.take(0) =~= seq![]);
    while i < req.protocols.len() && !found
        invariant
            0 <= i <= req.protocols@.len(),
            all == views(req.protocols@),
            !found ==> readable_protocol(all.take(i as int)) is None && topics@ == Set::<Seq<char>>::empty() && name is None,
            found ==> readable_protocol(all) is Some && topics@ == hosted_topics(all) && opt_str(name) == hosted_protocol(all),
        decreases req.protocols@.len() - i,
    {
        let ghost next = all.take(i + 1);
        assert(next.drop_last() =~= all.take(i as int));
        assert(next.last() == req.protocols@[i as int]@);
        if let Some(list) = decode_subscribed_topics(&req.protocols[i].metadata) {
            proof {
                readable_in_front(all, i + 1);
            }
            topics = set_of_names(&list);
            name = Some(req.protocols[i].name.clone());
            found = true;
        }
        i = i + 1;
    }
    if !found {
        assert(all.take(all.len() as int) =~= all);
        if req.protocols.len() > 0 {
            name = Some(req.protocols[0].name.clone());
        }
    }
    let r = ClassicMemberRegistration {
        member_id: req.member_id.clone(),
        subscription_topics: topics,
        protocols: dup_protocols(&req.protocols),
        client_id: client_id.clone(),
        client_host: client_host.clone(),
        session_timeout: to_unsigned(req.session_timeout_ms),
        rebalance_timeout: to_unsigned(req.rebalance_timeout_ms),
        instance_id: dup_opt_str(&req.group_instance_id),
    };
    (r, name)
}

/// The classic side of a member that registers; what it synced before stays known.
pub open spec fn registered_facade(before: Option<ClassicMemberFacadeView>, reg: RegistrationView, generation: i32) -> ClassicMemberFacadeView {
    ClassicMemberFacadeView {
        generation_id: generation,
        supported_protocols: reg.protocols,
        session_timeout: reg.session_timeout,
        last_synced_assignment: match before {
            Some(f) => f.last_synced_assignment,
            None => seq![],
        },
        awaiting_sync: match before {
            Some(f) => f.awaiting_sync,
            None => true,
        },
    }
}

/// The group once a classic member registered. A new member, and one that subscribes to other
/// topics, calls for a new target.
pub open spec fn registered(g: GroupStateView, reg: RegistrationView, now: u64) -> GroupStateView {
    if g.members.contains_key(reg.member_id) {
        let before = g.members[reg.member_id];
        let after = MemberStateView {
            instance_id: reg.instance_id,
            client_id: reg.client_id,
            client_host: reg.client_host,
            subscribed_topic_names: reg.subscription_topics,
            rebalance_timeout: reg.rebalance_timeout,
            last_seen: now,
            classic: Some(registered_facade(before.classic, reg, g.group_epoch)),
            ..before
        };
        GroupStateView {
            members: g.members.insert(reg.member_id, after),
            dirty: g.dirty || before.subscribed_topic_names != reg.subscription_topics,
            ..g
        }
    } else {
        g.with_member(
            MemberStateView {
                member_id: reg.member_id,
                instance_id: reg.instance_id,
                rack_id: None,
                client_id: reg.client_id,
                client_host: reg.client_host,
                subscribed_topic_names: reg.subscription_topics,
                subscribed_topic_regex: None,
                regex_authorized_topics: Set::empty(),
                server_assignor: None,
                rebalance_timeout: reg.rebalance_timeout,
                member_epoch: 0,
                previous_member_epoch: 0,
                assignment_state: MemberAssignmentState::Stable,
                assigned_partitions: Map::empty(),
                partitions_pending_revocation: Map::empty(),
                last_seen: now,
                classic: Some(registered_facade(None, reg, g.group_epoch)),
            },
        )
    }
}

/// Brings a classic member that registers into the group.
pub fn upsert_classic_member(state: &mut GroupState, reg: ClassicMemberRegistration, now: u64)
    ensures
        final(state)@ == registered(old(state)@, reg@, now),
{
    let ghost g = state@;
    let id = reg.member_id.clone();
    match state.members.remove(&id) {
        Some(mut m) => {
            let ghost before = m@;
            let (synced, awaiting): (Vec<u8>, bool) = match m.classic {
                Some(f) => (f.last_synced_assignment, f.awaiting_sync),
                None => (Vec::new(), true),
            };
            assert(synced@ =~= registered_facade(before.classic, reg@, g.group_epoch).last_synced_assignment);
            let changed: bool = !same_set(&m.subscribed_topic_names, &reg.subscription_topics);
            m.instance_id = reg.instance_id;
            m.client_id = reg.client_id;
            m.client_host = reg.client_host;
            m.subscribed_topic_names = reg.subscription_topics;
            m.rebalance_timeout = reg.rebalance_timeout;
            m.last_seen = now;
            m.classic = Some(
                ClassicMemberFacade {
                    generation_id: state.group_epoch,
                    supported_protocols: reg.protocols,
                    session_timeout: reg.session_timeout,
                    last_synced_assignment: synced,
                    awaiting_sync: awaiting,
                },
            );
            state.members.insert(id, m);
            if changed {
                state.dirty = true;
            }
            assert(state@.members =~= registered(g, reg@, now).members);
        },
        None => {
            assert(state@.members =~= g.members);
            let nothing: Vec<u8> = Vec::new();
            assert(nothing@ =~= seq![]);
            let m = MemberState {
                member_id: id,
                instance_id: reg.instance_id,
                rack_id: None,
                client_id: reg.client_id,
                client_host: reg.client_host,
                subscribed_topic_names: reg.subscription_topics,
                subscribed_topic_regex: None,
                regex_authorized_topics: OrdSet::new(),
                server_assignor: None,
                rebalance_timeout: reg.rebalance_timeout,
                member_epoch: 0,
                previous_member_epoch: 0,
                assignment_state: MemberAssignmentState::Stable,
                assigned_partitions: OrdMap::new(),
                partitions_pending_revocation: OrdMap::new(),
                last_seen: now,
                classic: Some(
                    ClassicMemberFacade {
                        generation_id: state.group_epoch,
                        supported_protocols: reg.protocols,
                        session_timeout: reg.session_timeout,
                        last_synced_assignment: nothing,
                        awaiting_sync: true,
                    },
                ),
            };
            state.add_or_update_member(m);
            assert(state@ =~= registered(g, reg@, now));
        },
    }
}

/// The answer to the `JoinGroup` of a hosted member: it leads a group of itself, in the generation
/// of the group's epoch.
pub open spec fn hosted_join_result(g: GroupStateView, id: Seq<char>, protocol: Option<Seq<char>>) -> JoinResultView {
    JoinResultView {
        error_code: codes::NONE,
        generation_id: g.group_epoch,
        protocol_type: Some("consumer"@),
        protocol_name: protocol,
        leader: id,
        skip_assignment: false,
        member_id: id,
        members: if g.members.contains_key(id) {
            seq![
                JoinResultMemberView {
                    member_id: id,
                    group_instance_id: g.members[id].instance_id,
                    metadata: match (g.members[id].classic, protocol) {
                        (Some(f), Some(name)) => metadata_of(f.supported_protocols, name, seq![]),
                        _ => seq![],
                    },
                },
            ]
        } else {
            seq![]
        },
    }
}

/// The answer to the `JoinGroup` of a hosted member.
pub fn build_hosted_classic_join_result(state: &GroupState, id: &String, protocol: Option<String>) -> (r: JoinResult)
    ensures
        r@ == hosted_join_result(state@, id@, opt_str(protocol)),
{
    let mut members: Vec<JoinResultMember> = Vec::new();
    if let Some(m) = state.members.get(id) {
        let nothing: Vec<u8> = Vec::new();
        assert(nothing@ =~= seq![]);
        let metadata: Vec<u8> = match (&m.classic, &protocol) {
            (Some(f), Some(name)) => metadata_for(&f.supported_protocols, name.as_str(), &nothing),
            _ => nothing,
        };
        members.push(JoinResultMember { member_id: id.clone(), group_instance_id: dup_opt_str(&m.instance_id), metadata });
    }
    let r = JoinResult {
        error_code: codes::NONE,
        generation_id: state.group_epoch,
        protocol_type: Some("consumer".to_owned()),
        protocol_name: protocol,
        leader: id.clone(),
        skip_assignment: false,
        member_id: id.clone(),
        members,
    };
    assert(r@.members =~= hosted_join_result(state@, id@, opt_str(protocol)).members);
    r
}

/// The group once `id` was heard of, with its sync state as given.
pub open spec fn with_sync_state(g: GroupStateView, id: Seq<char>, synced: Seq<u8>, awaiting: bool, now: u64) -> GroupStateView {
    let m = g.members[id];
    GroupStateView {
        members: g.members.insert(
            id,
            MemberStateView {
                last_seen: now,
                classic: Some(ClassicMemberFacadeView { last_synced_assignment: synced, awaiting_sync: awaiting, ..m.classic->0 }),
                ..m
            },
        ),
        ..g
    }
}

/// Whether `id` is a hosted classic member.
pub open spec fn hosts(g: GroupStateView, id: Seq<char>) -> bool {
    g.members.contains_key(id) && g.members[id].classic is Some
}

/// The heartbeat of a hosted member: it is told to rejoin while what it synced is not its target.
pub open spec fn hosted_heartbeat(g: GroupStateView, id: Seq<char>, image: ReconcileInputView, now: u64) -> (GroupStateView, i16) {
    if hosts(g, id) {
        let synced = g.members[id].classic->0.last_synced_assignment;
        if synced == assignment_blob(g.target_of(id), image) {
            (with_sync_state(g, id, synced, g.members[id].classic->0.awaiting_sync, now), codes::NONE)
        } else {
            (with_sync_state(g, id, synced, true, now), codes::REBALANCE_IN_PROGRESS)
        }
    } else {
        (g, codes::UNKNOWN_MEMBER_ID)
    }
}

/// The sync of a hosted member: it is handed its target.
pub open spec fn hosted_sync(g: GroupStateView, id: Seq<char>, image: ReconcileInputView, now: u64) -> (GroupStateView, SyncResultView) {
    if hosts(g, id) {
        let blob = assignment_blob(g.target_of(id), image);
        let protocols = g.members[id].classic->0.supported_protocols;
        (
            with_sync_state(g, id, blob, false, now),
            SyncResultView {
                error_code: codes::NONE,
                assignment: blob,
                protocol_type: Some("consumer"@),
                protocol_name: hosted_protocol(protocols),
            },
        )
    } else {
        (g, sync_error(codes::UNKNOWN_MEMBER_ID))
    }
}

fn target_blob(state: &GroupState, id: &String, image: &ReconcileInput) -> (r: Vec<u8>)
    ensures
        r@ == assignment_blob(state@.target_of(id@), image@),
{
    let none: Partitions = OrdMap::new();
    let target: &Partitions = match state.target.per_member.get(id) {
        Some(t) => t,
        None => &none,
    };
    assert(target@ =~= state@.target_of(id@));
    target_to_consumer_assignment(target, image)
}

/// Answers the heartbeat of a hosted member.
pub fn serve_classic_heartbeat(state: &mut GroupState, id: &String, image: &ReconcileInput, now: u64) -> (r: i16)
    ensures
        (final(state)@, r) == hosted_heartbeat(old(state)@, id@, image@, now),
{
    let ghost g = state@;
    let blob = target_blob(state, id, image);
    match state.members.remove(id) {
        Some(mut m) => match m.classic {
            Some(mut f) => {
                let in_step: bool = bytes_eq(&f.last_synced_assignment, &blob);
                if !in_step {
                    f.awaiting_sync = true;
                }
                m.classic = Some(f);
                m.last_seen = now;
                state.members.insert(id.clone(), m);
                assert(state@ =~= hosted_heartbeat(g, id@, image@, now).0);
                if in_step {
                    codes::NONE
                } else {
                    codes::REBALANCE_IN_PROGRESS
                }
            },
            None => {
                m.classic = None;
                state.members.insert(id.clone(), m);
                assert(state@ =~= g);
                codes::UNKNOWN_MEMBER_ID
            },
        },
        None => {
            assert(state@ =~= g);
            codes::UNKNOWN_MEMBER_ID
        },
    }
}

fn protocol_of(protocols: &Vec<Protocol>) -> (r: Option<String>)
    ensures
        opt_str(r) == hosted_protocol(views(protocols@)),
{
    let ghost all = views(protocols@);
    let mut i: usize = 0;
    assert(all.take(0) =~= seq![]);
    while i < protocols.len()
        invariant
            0 <= i <= protocols@.len(),
            all == views(protocols@),
            readable_protocol(all.take(i as int)) is None,
        decreases protocols@.len() - i,
    {
        let ghost next = all.take(i + 1);
        assert(next.drop_last() =~= all.take(i as int));
        assert(next.last() == protocols@[i as int]@);
        if decode_subscribed_topics(&protocols[i].metadata).is_some() {
            proof {
                readable_in_front(all, i + 1);
            }
            return Some(protocols[i].name.clone());
        }
        i = i + 1;
    }
    assert(all.take(all.len() as int) =~= all);
    if protocols.len() > 0 {
        Some(protocols[0].name.clone())
    } else {
        None
    }
}

/// Answers the sync of a hosted member.
pub fn serve_classic_sync(state: &mut GroupState, id: &String, image: &ReconcileInput, now: u64) -> (r: SyncResult)
    ensures
        (final(state)@, r@) == hosted_sync(old(state)@, id@, image@, now),
{
    let ghost g = state@;
    let blob = target_blob(state, id, image);
    match state.members.remove(id) {
        Some(mut m) => match m.classic {
            Some(mut f) => {
                let protocol_name = protocol_of(&f.supported_protocols);
                f.last_synced_assignment = blob.dup();
                f.awaiting_sync = false;
                m.classic = Some(f);
                m.last_seen = now;
                state.members.insert(id.clone(), m);
                assert(state@ =~= hosted_sync(g, id@, image@, now).0);
                SyncResult { error_code: codes::NONE, assignment: blob, protocol_type: Some("consumer".to_owned()), protocol_name }
            },
            None => {
                m.classic = None;
                state.members.insert(id.clone(), m);
                assert(state@ =~= g);
                SyncResult::error(codes::UNKNOWN_MEMBER_ID)
            },
        },
        None => {
            assert(state@ =~= g);
            SyncResult::error(codes::UNKNOWN_MEMBER_ID)
        },
    }
}

/// A hosted member that was handed its target holds it, and has given up what else it held.
pub open spec fn target_taken(g: GroupStateView, id: Seq<char>) -> GroupStateView {
    GroupStateView {
        members: g.members.insert(
            id,
            MemberStateView {
                assigned_partitions: g.target_of(id),
                partitions_pending_revocation: Map::empty(),
                assignment_state: MemberAssignmentState::Stable,
                ..g.members[id]
            },
        ),
        ..g
    }
}

/// What a member's part in a `LeaveGroup` comes to: who leaves, or why nobody does. A static
/// identity speaks for its holder where the member id is left out or is the holder's.
pub open spec fn leave_verdict(g: GroupStateView, member_id: Seq<char>, instance: Option<Seq<char>>) -> Result<Seq<char>, i16> {
    match instance {
        Some(i) => match g.pinned(i) {
            Some(current) => if member_id.len() == 0 || current == member_id {
                Ok(current)
            } else {
                Err(codes::FENCED_INSTANCE_ID)
            },
            None => Err(codes::UNKNOWN_MEMBER_ID),
        },
        None => if g.members.contains_key(member_id) {
            Ok(member_id)
        } else {
            Err(codes::UNKNOWN_MEMBER_ID)
        },
    }
}

/// The answers to identities that leave.
pub open spec fn leave_answers(g: GroupStateView, who: Seq<(Seq<char>, Option<Seq<char>>)>) -> Seq<MemberResponseView> {
    Seq::new(
        who.len(),
        |i: int|
            MemberResponseView {
                member_id: who[i].0,
                group_instance_id: who[i].1,
                error_code: match leave_verdict(g, who[i].0, who[i].1) {
                    Ok(_) => codes::NONE,
                    Err(code) => code,
                },
            },
    )
}

/// Who leaves, each once, in the order of the request.
pub open spec fn leavers(g: GroupStateView, who: Seq<(Seq<char>, Option<Seq<char>>)>) -> Seq<Seq<char>>
    decreases who.len(),
{
    if who.len() == 0 {
        seq![]
    } else {
        let before = leavers(g, who.drop_last());
        match leave_verdict(g, who.last().0, who.last().1) {
            Ok(id) => if before.contains(id) {
                before
            } else {
                before.push(id)
            },
            Err(_) => before,
        }
    }
}

fn judge_leave(state: &GroupState, member_id: &String, instance: &Option<String>) -> (r: Result<String, i16>)
    ensures
        match r {
            Ok(id) => leave_verdict(state@, member_id@, opt_str(*instance)) == Ok::<Seq<char>, i16>(id@),
            Err(code) => leave_verdict(state@, member_id@, opt_str(*instance)) == Err::<Seq<char>, i16>(code),
        },
{
    match instance {
        Some(i) => match state.current_member_for_instance(i) {
            Some(current) => if member_id.as_str().is_empty() || str_eq(current.as_str(), member_id.as_str()) {
                Ok(current)
            } else {
                Err(codes::FENCED_INSTANCE_ID)
            },
            None => Err(codes::UNKNOWN_MEMBER_ID),
        },
        None => if state.members.contains_key(member_id) {
            Ok(member_id.clone())
        } else {
            Err(codes::UNKNOWN_MEMBER_ID)
        },
    }
}

fn judge_one(state: &GroupState, member_id: &String, instance: &Option<String>, responses: &mut Vec<MemberResponse>, removed: &mut Vec<String>)
    ensures
        ({
            let verdict = leave_verdict(state@, member_id@, opt_str(*instance));
            &&& views(final(responses)@) == views(old(responses)@).push(
                MemberResponseView {
                    member_id: member_id@,
                    group_instance_id: opt_str(*instance),
                    error_code: match verdict {
                        Ok(_) => codes::NONE,
                        Err(code) => code,
                    },
                },
            )
            &&& views(final(removed)@) == match verdict {
                Ok(id) => if views(old(removed)@).contains(id) {
                    views(old(removed)@)
                } else {
                    views(old(removed)@).push(id)
                },
                Err(_) => views(old(removed)@),
            }
        }),
{
    let ghost was = responses@;
    let ghost gone = removed@;
    let error_code: i16 = match judge_leave(state, member_id, instance) {
        Ok(id) => {
            let listed: bool = holds_str(removed, id.as_str());
            proof {
                assert(listed == views(gone).contains(id@)) by {
                    if views(gone).contains(id@) {
                        let j = choose|j: int| 0 <= j < views(gone).len() && views(gone)[j] == id@;
                        assert(gone[j]@ == id@);
                    }
                    if listed {
                        let j = choose|j: int| 0 <= j < gone.len() && (#[trigger] gone[j])@ == id@;
                        assert(views(gone)[j] == id@);
                    }
                }
            }
            if !listed {
                removed.push(id);
                assert(views(removed@) =~= views(gone).push(id@));
            }
            codes::NONE
        },
        Err(code) => code,
    };
    let response = MemberResponse { member_id: member_id.clone(), group_instance_id: dup_opt_str(instance), error_code };
    responses.push(response);
    assert(views(responses@) =~= views(was).push(response@));
}

/// Finds who leaves with a classic `LeaveGroup`, and what each is answered. All are found before
/// anyone is removed: one that is named twice leaves once.
pub fn resolve_consumer_classic_leave(state: &GroupState, req: &LeaveGroupRequest, version: i16) -> (r: (Vec<MemberResponse>, Vec<String>))
    ensures
        views(r.0@) == leave_answers(state@, leave_identities(*req, version)),
        views(r.1@) == leavers(state@, leave_identities(*req, version)),
{
    let ghost g = state@;
    let ghost who = leave_identities(*req, version);
    let mut responses: Vec<MemberResponse> = Vec::new();
    let mut removed: Vec<String> = Vec::new();
    assert(views(responses@) =~= leave_answers(g, who.take(0)));
    assert(who.take(0) =~= seq![]);
    assert(views(removed@) =~= leavers(g, who.take(0)));
    if version >= 3 {
        let mut i: usize = 0;
        while i < req.members.len()
            invariant
                0 <= i <= req.members@.len(),
                g == state@,
                who == leave_identities(*req, version),
                version >= 3,
                views(responses@) == leave_answers(g, who.take(i as int)),
                views(removed@) == leavers(g, who.take(i as int)),
            decreases req.members@.len() - i,
        {
            let ghost next = who.take(i + 1);
            assert(next.drop_last() =~= who.take(i as int));
            assert(next.last() == who[i as int]);
            judge_one(state, &req.members[i].member_id, &req.members[i].group_instance_id, &mut responses, &mut removed);
            assert(views(responses@) =~= leave_answers(g, next));
            i = i + 1;
        }
        assert(who.take(who.len() as int) =~= who);
    } else {
        assert(who.drop_last() =~= who.take(0));
        judge_one(state, &req.member_id, &None, &mut responses, &mut removed);
        assert(views(responses@) =~= leave_answers(g, who));
        assert(views(removed@) =~= leavers(g, who));
    }
    (responses, removed)
}

} // verus!
