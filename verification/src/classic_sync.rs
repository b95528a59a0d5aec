//! The classic `SyncGroup`, `Heartbeat` and `LeaveGroup`, and who may commit offsets.

use crate::classic_state::{ClassicGroup, ClassicGroupView, GroupState, MemberView, later, longest_timeout};
use crate::codes;
use crate::ordmap::{Dup, OrdMap, str_eq, views};
use crate::requests::{
    HeartbeatRequest, LeaveGroupRequest, MemberResponse, MemberResponseView, SyncGroupRequest, SyncGroupRequestAssignment, SyncResult,
    SyncResultView, sync_error,
    leave_identities,
};
use crate::text::{dup_opt_str, opt_is, opt_str};
use vstd::prelude::*;

verus! {

/// What is to be done about a `SyncGroup`.
#[derive(Debug, PartialEq, Eq)]
pub enum SyncAction {
    Immediate(SyncResult),
    /// Park the follower until the leader's assignments come.
    Park,
    /// The leader installed assignments: reply to it and to the parked followers.
    LeaderInstalled(SyncResult),
}

#[verifier::ext_equal]
pub enum SyncActionView {
    Immediate(SyncResultView),
    Park,
    LeaderInstalled(SyncResultView),
}

impl View for SyncAction {
    type V = SyncActionView;

    open spec fn view(&self) -> SyncActionView {
        match self {
            SyncAction::Immediate(r) => SyncActionView::Immediate(r@),
            SyncAction::Park => SyncActionView::Park,
            SyncAction::LeaderInstalled(r) => SyncActionView::LeaderInstalled(r@),
        }
    }
}

/// Whether a protocol type or name that both sides give differs.
pub open spec fn inconsistent(requested: Option<Seq<char>>, group: Option<Seq<char>>) -> bool {
    requested is Some && group is Some && requested != group
}

/// Whether a `SyncGroup` may proceed: the member, then the generation, then the protocol.
pub open spec fn sync_check(g: ClassicGroupView, req: SyncGroupRequest) -> Result<(), i16> {
    let validated = g.validate_member(req.member_id@, opt_str(req.group_instance_id));
    if validated is Err {
        validated
    } else if g.generation_id != req.generation_id {
        Err(codes::ILLEGAL_GENERATION)
    } else if inconsistent(opt_str(req.protocol_type), g.protocol_type) || inconsistent(opt_str(req.protocol_name), g.protocol_name) {
        Err(codes::INCONSISTENT_GROUP_PROTOCOL)
    } else {
        Ok(())
    }
}

/// What the leader assigns to `id`: the last entry for it, or nothing where it has none.
pub open spec fn supplied(assignments: Seq<SyncGroupRequestAssignment>, id: Seq<char>) -> Seq<u8>
    decreases assignments.len(),
{
    if assignments.len() == 0 {
        seq![]
    } else if assignments.last().member_id@ == id {
        assignments.last().assignment@
    } else {
        supplied(assignments.drop_last(), id)
    }
}

/// The leader's assignments for every current member.
pub open spec fn assignments_of(g: ClassicGroupView, assignments: Seq<SyncGroupRequestAssignment>) -> Map<Seq<char>, Seq<u8>> {
    Map::new(|id: Seq<char>| g.members.contains_key(id), |id: Seq<char>| supplied(assignments, id))
}

/// What a member reads of its assignment: nothing before the group is stable.
pub open spec fn sync_result(g: ClassicGroupView, id: Seq<char>, protocol_type: Option<Seq<char>>, protocol_name: Option<Seq<char>>) -> SyncResultView {
    if g.state != GroupState::Stable {
        sync_error(codes::REBALANCE_IN_PROGRESS)
    } else {
        SyncResultView {
            error_code: codes::NONE,
            assignment: if g.members.contains_key(id) && g.members[id].assignment is Some {
                g.members[id].assignment->0
            } else {
                seq![]
            },
            protocol_type,
            protocol_name,
        }
    }
}

/// A `SyncGroup`. Only the leader's installs assignments, and only while they are awaited;
/// followers wait for it; in a stable group everybody reads what is installed.
pub open spec fn syncing(g: ClassicGroupView, req: SyncGroupRequest) -> (ClassicGroupView, SyncActionView) {
    let id = req.member_id@;
    let checked = sync_check(g, req);
    if checked is Err {
        (g, SyncActionView::Immediate(sync_error(checked->Err_0)))
    } else {
        match g.state {
            GroupState::PreparingRebalance | GroupState::Empty => (g, SyncActionView::Immediate(sync_error(codes::REBALANCE_IN_PROGRESS))),
            GroupState::CompletingRebalance => if g.leader_id == Some(id) {
                let h = g.installed(assignments_of(g, req.assignments@));
                (h, SyncActionView::LeaderInstalled(sync_result(h, id, h.protocol_type, h.protocol_name)))
            } else {
                (g, SyncActionView::Park)
            },
            GroupState::Stable => (g, SyncActionView::Immediate(sync_result(g, id, g.protocol_type, g.protocol_name))),
        }
    }
}

/// Whether a protocol type or name that both sides give differs.
pub fn is_protocol_inconsistent(requested: &Option<String>, group: &Option<String>) -> (r: bool)
    ensures
        r == inconsistent(opt_str(*requested), opt_str(*group)),
{
    match (requested, group) {
        (Some(a), Some(b)) => !str_eq(a.as_str(), b.as_str()),
        _ => false,
    }
}

fn validate_sync(state: &ClassicGroup, req: &SyncGroupRequest) -> (r: Result<(), i16>)
    ensures
        r == sync_check(state@, *req),
{
    if let Err(code) = state.validate_member(&req.member_id, &req.group_instance_id) {
        return Err(code);
    }
    if state.generation_id != req.generation_id {
        return Err(codes::ILLEGAL_GENERATION);
    }
    if is_protocol_inconsistent(&req.protocol_type, &state.protocol_type) || is_protocol_inconsistent(&req.protocol_name, &state.protocol_name) {
        return Err(codes::INCONSISTENT_GROUP_PROTOCOL);
    }
    Ok(())
}

fn supplied_for(assignments: &Vec<SyncGroupRequestAssignment>, id: &String) -> (r: Vec<u8>)
    ensures
        r@ == supplied(assignments@, id@),
{
    let mut i: usize = assignments.len();
    assert(assignments@.take(i as int) =~= assignments@);
    while i > 0
        invariant
            0 <= i <= assignments@.len(),
            supplied(assignments@, id@) == supplied(assignments@.take(i as int), id@),
        decreases i,
    {
        assert(assignments@.take(i as int).last() == assignments@[i - 1]);
        assert(assignments@.take(i as int).drop_last() =~= assignments@.take(i - 1));
        i = i - 1;
        if str_eq(assignments[i].member_id.as_str(), id.as_str()) {
            return assignments[i].assignment.dup();
        }
    }
    let none: Vec<u8> = Vec::new();
    assert(none@ =~= seq![]);
    none
}

/// Installs the leader's assignments over every current member; one that the leader left out gets
/// an empty assignment.
fn install_leader_assignments(state: &mut ClassicGroup, req: &SyncGroupRequest)
    ensures
        final(state)@ == old(state)@.installed(assignments_of(old(state)@, req.assignments@)),
{
    let n: usize = state.members.len();
    let ghost ids = state.members.keys();
    let mut out: OrdMap<String, Vec<u8>> = OrdMap::new();
    let mut i: usize = 0;
    while i < n
        invariant
            0 <= i <= n,
            n == ids.len(),
            ids == state.members.keys(),
            state.members.listed(),
            *state == *old(state),
            forall|id: Seq<char>| #[trigger] out@.contains_key(id) <==> ids.take(i as int).contains(id),
            forall|id: Seq<char>| #[trigger] out@.contains_key(id) ==> out@[id] == supplied(req.assignments@, id),
        decreases n - i,
    {
        let id = state.members.key_at(i);
        let ghost before = out@;
        out.insert(id.clone(), supplied_for(&req.assignments, id));
        proof {
            let next = ids.take(i + 1);
            assert forall|x: Seq<char>| #[trigger] out@.contains_key(x) <==> next.contains(x) by {
                if ids.take(i as int).contains(x) {
                    let j = choose|j: int| 0 <= j < i && ids.take(i as int)[j] == x;
                    assert(next[j] == x);
                }
                assert(next[i as int] == ids[i as int]);
                if next.contains(x) && x != ids[i as int] {
                    let j = choose|j: int| 0 <= j < next.len() && next[j] == x;
                    assert(ids.take(i as int)[j] == x);
                }
            }
        }
        i = i + 1;
    }
    proof {
        assert(ids.take(n as int) =~= ids);
        assert forall|id: Seq<char>| #[trigger] out@.contains_key(id) <==> state@.members.contains_key(id) by {
            if ids.contains(id) {
                let j = choose|j: int| 0 <= j < ids.len() && ids[j] == id;
                assert(state.members@.contains_key(ids[j]));
            }
            if state@.members.contains_key(id) {
                assert(state.members@.contains_key(id));
            }
        }
        assert(out@ =~= assignments_of(state@, req.assignments@));
    }
    state.install_assignments(&out);
}

/// What `member_id` reads of its assignment.
pub fn read_sync_result(state: &ClassicGroup, member_id: &String, protocol_type: Option<String>, protocol_name: Option<String>) -> (r: SyncResult)
    ensures
        r@ == sync_result(state@, member_id@, opt_str(protocol_type), opt_str(protocol_name)),
{
    if state.state != GroupState::Stable {
        return SyncResult::error(codes::REBALANCE_IN_PROGRESS);
    }
    let mut assignment: Vec<u8> = Vec::new();
    assert(assignment@ =~= seq![]);
    if let Some(m) = state.members.get(member_id) {
        if let Some(a) = &m.assignment {
            assignment = a.dup();
        }
    }
    SyncResult { error_code: codes::NONE, assignment, protocol_type, protocol_name }
}

fn read_current(state: &ClassicGroup, member_id: &String) -> (r: SyncResult)
    ensures
        r@ == sync_result(state@, member_id@, state@.protocol_type, state@.protocol_name),
{
    read_sync_result(state, member_id, dup_opt_str(&state.protocol_type), dup_opt_str(&state.protocol_name))
}

/// A `SyncGroup`.
pub fn handle_sync(state: &mut ClassicGroup, req: &SyncGroupRequest) -> (r: SyncAction)
    ensures
        (final(state)@, r@) == syncing(old(state)@, *req),
{
    if let Err(code) = validate_sync(state, req) {
        return SyncAction::Immediate(SyncResult::error(code));
    }
    match state.state {
        GroupState::PreparingRebalance | GroupState::Empty => SyncAction::Immediate(SyncResult::error(codes::REBALANCE_IN_PROGRESS)),
        GroupState::CompletingRebalance => {
            if opt_is(&state.leader_id, req.member_id.as_str()) {
                install_leader_assignments(state, req);
                SyncAction::LeaderInstalled(read_current(state, &req.member_id))
            } else {
                SyncAction::Park
            }
        },
        GroupState::Stable => SyncAction::Immediate(read_current(state, &req.member_id)),
    }
}

/// A `Heartbeat`: the member and its generation are checked, the state answers, and the session
/// begins anew in every state that has members.
pub open spec fn beating(g: ClassicGroupView, req: HeartbeatRequest, now: u64) -> (ClassicGroupView, i16) {
    let validated = g.validate_member(req.member_id@, opt_str(req.group_instance_id));
    if validated is Err {
        (g, validated->Err_0)
    } else if g.generation_id != req.generation_id {
        (g, codes::ILLEGAL_GENERATION)
    } else {
        match g.state {
            GroupState::Empty => (g, codes::UNKNOWN_MEMBER_ID),
            GroupState::PreparingRebalance => (g.refreshed(req.member_id@, now), codes::REBALANCE_IN_PROGRESS),
            GroupState::CompletingRebalance | GroupState::Stable => (g.refreshed(req.member_id@, now), codes::NONE),
        }
    }
}

/// A `Heartbeat`, at the time `now`.
pub fn handle_heartbeat(state: &mut ClassicGroup, req: &HeartbeatRequest, now: u64) -> (code: i16)
    ensures
        (final(state)@, code) == beating(old(state)@, *req, now),
{
    if let Err(code) = state.validate_member(&req.member_id, &req.group_instance_id) {
        return code;
    }
    if state.generation_id != req.generation_id {
        return codes::ILLEGAL_GENERATION;
    }
    let code: i16 = match state.state {
        GroupState::Empty => {
            return codes::UNKNOWN_MEMBER_ID;
        },
        GroupState::PreparingRebalance => codes::REBALANCE_IN_PROGRESS,
        GroupState::CompletingRebalance | GroupState::Stable => codes::NONE,
    };
    state.refresh_session(&req.member_id, now);
    code
}

/// Whom an identity names: the holder of its static identity, who must be the member id where one
/// is given, or else the member of that id.
pub open spec fn leaver(g: ClassicGroupView, id: Seq<char>, instance: Option<Seq<char>>) -> Result<Seq<char>, i16> {
    match instance {
        Some(i) => match g.pinned(i) {
            None => Err(codes::UNKNOWN_MEMBER_ID),
            Some(pinned) => if id.len() == 0 || pinned == id {
                Ok(pinned)
            } else {
                Err(codes::FENCED_INSTANCE_ID)
            },
        },
        None => if g.members.contains_key(id) {
            Ok(id)
        } else {
            Err(codes::UNKNOWN_MEMBER_ID)
        },
    }
}

/// What has happened once the first identities of a `LeaveGroup` are dealt with.
#[verifier::ext_equal]
pub struct LeaveStep {
    pub group: ClassicGroupView,
    pub any_removed: bool,
    pub responses: Seq<MemberResponseView>,
}

/// The identities leave one after the other, each answered in its turn.
pub open spec fn leaves(g: ClassicGroupView, idents: Seq<(Seq<char>, Option<Seq<char>>)>) -> LeaveStep
    decreases idents.len(),
{
    if idents.len() == 0 {
        LeaveStep { group: g, any_removed: false, responses: seq![] }
    } else {
        let before = leaves(g, idents.drop_last());
        let (id, instance) = idents.last();
        match leaver(before.group, id, instance) {
            Ok(gone) => LeaveStep {
                group: before.group.without_member(gone),
                any_removed: true,
                responses: before.responses.push(MemberResponseView { member_id: id, group_instance_id: instance, error_code: codes::NONE }),
            },
            Err(code) => LeaveStep {
                responses: before.responses.push(MemberResponseView { member_id: id, group_instance_id: instance, error_code: code }),
                ..before
            },
        }
    }
}

/// A `LeaveGroup`: a stable group that lost a member and has others left opens a round for them.
pub open spec fn leaving(g: ClassicGroupView, req: LeaveGroupRequest, version: i16, now: u64) -> (ClassicGroupView, Seq<MemberResponseView>) {
    let step = leaves(g, leave_identities(req, version));
    let h = step.group;
    (
        if step.any_removed && h.members != Map::<Seq<char>, MemberView>::empty() && h.state == GroupState::Stable {
            ClassicGroupView {
                state: GroupState::PreparingRebalance,
                rebalance_from_empty: false,
                rebalance_deadline: Some(later(now, longest_timeout(h.members))),
                ..h
            }
        } else {
            h
        },
        step.responses,
    )
}

fn leave_one(state: &mut ClassicGroup, id: &String, instance: &Option<String>) -> (code: i16)
    ensures
        match leaver(old(state)@, id@, opt_str(*instance)) {
            Ok(gone) => code == codes::NONE && final(state)@ == old(state)@.without_member(gone),
            Err(e) => code == e && code != codes::NONE && final(state)@ == old(state)@,
        },
{
    let gone: String = match instance {
        Some(i) => match state.current_member_id_for_instance(i) {
            None => {
                return codes::UNKNOWN_MEMBER_ID;
            },
            Some(pinned) => {
                if !id.as_str().is_empty() && !str_eq(pinned.as_str(), id.as_str()) {
                    return codes::FENCED_INSTANCE_ID;
                }
                pinned.clone()
            },
        },
        None => {
            if !state.members.contains_key(id) {
                return codes::UNKNOWN_MEMBER_ID;
            }
            id.clone()
        },
    };
    state.remove_member(&gone);
    codes::NONE
}

/// A `LeaveGroup`, at the time `now`: the answers to its members, in their order.
pub fn handle_leave(state: &mut ClassicGroup, req: &LeaveGroupRequest, version: i16, now: u64) -> (r: Vec<MemberResponse>)
    ensures
        (final(state)@, views(r@)) == leaving(old(state)@, *req, version, now),
{
    let ghost g = state@;
    let ghost idents = leave_identities(*req, version);
    let mut responses: Vec<MemberResponse> = Vec::new();
    let mut any_removed: bool = false;
    if version >= 3 {
        let mut i: usize = 0;
        assert(idents.take(0) =~= seq![]);
        assert(views(responses@) =~= seq![]);
        while i < req.members.len()
            invariant
                0 <= i <= req.members@.len(),
                version >= 3,
                idents == leave_identities(*req, version),
                state@ == leaves(g, idents.take(i as int)).group,
                any_removed == leaves(g, idents.take(i as int)).any_removed,
                views(responses@) == leaves(g, idents.take(i as int)).responses,
            decreases req.members@.len() - i,
        {
            let ghost before = responses@;
            proof {
                assert(idents.take(i + 1).drop_last() =~= idents.take(i as int));
                assert(idents.take(i + 1).last() == idents[i as int]);
            }
            let m = &req.members[i];
            let code: i16 = leave_one(state, &m.member_id, &m.group_instance_id);
            if code == codes::NONE {
                any_removed = true;
            }
            responses.push(MemberResponse { member_id: m.member_id.clone(), group_instance_id: dup_opt_str(&m.group_instance_id), error_code: code });
            assert(views(responses@) =~= views(before).push(responses@[before.len() as int]@));
            i = i + 1;
        }
        assert(idents.take(req.members@.len() as int) =~= idents);
    } else {
        proof {
            assert(idents.drop_last() =~= seq![]);
            assert(leaves(g, idents.drop_last()) == LeaveStep { group: g, any_removed: false, responses: seq![] });
        }
        let code: i16 = leave_one(state, &req.member_id, &None);
        any_removed = code == codes::NONE;
        responses.push(MemberResponse { member_id: req.member_id.clone(), group_instance_id: None, error_code: code });
        assert(views(responses@) =~= leaves(g, idents).responses);
    }
    if any_removed && !state.members.is_empty() && state.state == GroupState::Stable {
        let longest: u64 = state.rebalance_timeout();
        state.state = GroupState::PreparingRebalance;
        state.rebalance_from_empty = false;
        state.rebalance_deadline = Some(now.saturating_add(longest));
    }
    responses
}

/// Whether an `OffsetCommit` may proceed. A negative generation commits on an empty group; a
/// request that names a member, an instance or a generation must be that of a member of the
/// current one; one that names none is refused where there are members; and nobody commits while
/// the leader's assignments are awaited.
pub open spec fn offset_commit_check(g: ClassicGroupView, id: Seq<char>, instance: Option<Seq<char>>, generation_id: i32) -> Result<(), i16> {
    let empty = g.state == GroupState::Empty;
    let named = generation_id >= 0 || id.len() > 0 || instance is Some;
    let validated = g.validate_member(id, instance);
    if generation_id < 0 && empty {
        Ok(())
    } else if named && validated is Err {
        validated
    } else if named && generation_id != g.generation_id {
        Err(codes::ILLEGAL_GENERATION)
    } else if !named && !empty {
        Err(codes::UNKNOWN_MEMBER_ID)
    } else if g.state == GroupState::CompletingRebalance {
        Err(codes::REBALANCE_IN_PROGRESS)
    } else {
        Ok(())
    }
}

/// Whether an `OffsetCommit` may proceed.
pub fn validate_offset_commit(state: &ClassicGroup, member_id: &String, group_instance_id: &Option<String>, generation_id: i32) -> (r: Result<(), i16>)
    ensures
        r == offset_commit_check(state@, member_id@, opt_str(*group_instance_id), generation_id),
{
    let empty: bool = state.state == GroupState::Empty;
    if generation_id < 0 && empty {
        return Ok(());
    }
    if generation_id >= 0 || !member_id.as_str().is_empty() || group_instance_id.is_some() {
        if let Err(code) = state.validate_member(member_id, group_instance_id) {
            return Err(code);
        }
        if generation_id != state.generation_id {
            return Err(codes::ILLEGAL_GENERATION);
        }
    } else if !empty {
        return Err(codes::UNKNOWN_MEMBER_ID);
    }
    if state.state == GroupState::CompletingRebalance {
        return Err(codes::REBALANCE_IN_PROGRESS);
    }
    Ok(())
}

/// The group after a member committed: its session begins anew while the group is stable or
/// gathers.
pub open spec fn committer_refreshed(g: ClassicGroupView, id: Seq<char>, now: u64) -> ClassicGroupView {
    if g.state == GroupState::Stable || g.state == GroupState::PreparingRebalance {
        g.refreshed(id, now)
    } else {
        g
    }
}

/// Begins the session of the member that committed anew, while the group is stable or gathers.
pub fn refresh_committer_session(state: &mut ClassicGroup, member_id: &String, now: u64)
    ensures
        final(state)@ == committer_refreshed(old(state)@, member_id@, now),
{
    if state.state == GroupState::Stable || state.state == GroupState::PreparingRebalance {
        state.refresh_session(member_id, now);
    }
}

/// Why a `TxnOffsetCommit` is refused, if it is: one that names nobody passes; a static identity
/// must be held, by the member where one is named; a member must be known; and the generation
/// must be the current one.
pub open spec fn txn_commit_error(g: ClassicGroupView, id: Seq<char>, instance: Option<Seq<char>>, generation_id: i32) -> Option<i16> {
    if id.len() == 0 && instance is None {
        None
    } else if instance is Some && g.pinned(instance->0) is None {
        Some(codes::UNKNOWN_MEMBER_ID)
    } else if instance is Some && id.len() > 0 && g.pinned(instance->0) != Some(id) {
        Some(codes::FENCED_INSTANCE_ID)
    } else if instance is None && !g.members.contains_key(id) {
        Some(codes::UNKNOWN_MEMBER_ID)
    } else if g.generation_id != generation_id {
        Some(codes::ILLEGAL_GENERATION)
    } else {
        None
    }
}

/// Why a `TxnOffsetCommit` is refused, if it is.
pub fn validate_commit(state: &ClassicGroup, member_id: &String, group_instance_id: &Option<String>, generation_id: i32) -> (r: Option<i16>)
    ensures
        r == txn_commit_error(state@, member_id@, opt_str(*group_instance_id), generation_id),
{
    match group_instance_id {
        Some(i) => match state.current_member_id_for_instance(i) {
            None => {
                return Some(codes::UNKNOWN_MEMBER_ID);
            },
            Some(pinned) => {
                if !member_id.as_str().is_empty() && !str_eq(pinned.as_str(), member_id.as_str()) {
                    return Some(codes::FENCED_INSTANCE_ID);
                }
            },
        },
        None => {
            if member_id.as_str().is_empty() {
                return None;
            }
            if !state.members.contains_key(member_id) {
                return Some(codes::UNKNOWN_MEMBER_ID);
            }
        },
    }
    if state.generation_id != generation_id {
        return Some(codes::ILLEGAL_GENERATION);
    }
    None
}

} // verus!
