//! The classic `JoinGroup`: who may join, under which id, and when a round completes.

use crate::classic_state::{
    ClassicGroup, ClassicGroupView, GroupState, Member, MemberView, dup_protocols, later, longest_timeout, protocols_eq, select_protocol,
    selected_protocol,
};
use crate::codes;
use crate::ids::{fresh_uuid, member_id_from, member_id_of, uuid_text};
use crate::ordmap::{Dup, OrdSet, Test, kept, listing, passing, views};
use crate::requests::{JoinGroupRequest, JoinGroupRequestView, JoinResult, JoinResultMember, JoinResultMemberView, JoinResultView, join_error};
use crate::text::{dup_opt_str, opt_is, opt_same, opt_str};
use vstd::prelude::*;

verus! {

pub const DEFAULT_SESSION_TIMEOUT_MS: u64 = 30_000;

pub const DEFAULT_REBALANCE_TIMEOUT_MS: u64 = 60_000;

/// The first version in which a member without a static identity must name its id.
pub const FIRST_KNOWN_MEMBER_ID_VERSION: i16 = 4;

/// The first version that lets a leader skip the assignment.
pub const FIRST_SKIP_ASSIGNMENT_VERSION: i16 = 9;

/// What a `JoinGroup` depends on besides its request. Times are milliseconds.
#[derive(Debug, PartialEq, Eq)]
pub struct JoinContext {
    pub client_id: String,
    pub client_host: String,
    pub version: i16,
    pub initial_rebalance_delay: u64,
    pub max_size: usize,
    pub now: u64,
}

/// What is to be done about a `JoinGroup`.
#[derive(Debug, PartialEq, Eq)]
pub enum JoinAction {
    /// Reply; there is nothing to persist.
    Immediate(JoinResult),
    /// Persist the group, then reply.
    PersistThenReply(JoinResult),
    /// Park the reply until the round completes.
    Park,
    /// Complete the round now.
    CompleteNow,
}

#[verifier::ext_equal]
pub enum JoinActionView {
    Immediate(JoinResultView),
    PersistThenReply(JoinResultView),
    Park,
    CompleteNow,
}

impl View for JoinAction {
    type V = JoinActionView;

    open spec fn view(&self) -> JoinActionView {
        match self {
            JoinAction::Immediate(r) => JoinActionView::Immediate(r@),
            JoinAction::PersistThenReply(r) => JoinActionView::PersistThenReply(r@),
            JoinAction::Park => JoinActionView::Park,
            JoinAction::CompleteNow => JoinActionView::CompleteNow,
        }
    }
}

/// The outcome of a `JoinGroup`.
#[derive(Debug, PartialEq, Eq)]
pub struct JoinOutcome {
    pub action: JoinAction,
    /// The old id of a static member that came back under a new one: what it had parked is
    /// fenced.
    pub fenced_member: Option<String>,
}

#[verifier::ext_equal]
pub struct JoinOutcomeView {
    pub action: JoinActionView,
    pub fenced_member: Option<Seq<char>>,
}

impl View for JoinOutcome {
    type V = JoinOutcomeView;

    open spec fn view(&self) -> JoinOutcomeView {
        JoinOutcomeView { action: self.action@, fenced_member: opt_str(self.fenced_member) }
    }
}

/// The group, the id that the request goes by, and the outcome, after a `JoinGroup`.
#[verifier::ext_equal]
pub struct JoinStep {
    pub group: ClassicGroupView,
    pub member_id: Seq<char>,
    pub outcome: JoinOutcomeView,
}

pub open spec fn plain(action: JoinActionView) -> JoinOutcomeView {
    JoinOutcomeView { action, fenced_member: None }
}

pub open spec fn refusal(error_code: i16, member_id: Seq<char>) -> JoinOutcomeView {
    plain(JoinActionView::Immediate(join_error(error_code, member_id)))
}

impl JoinOutcome {
    pub fn of(action: JoinAction) -> (r: Self)
        ensures
            r@ == plain(action@),
    {
        JoinOutcome { action, fenced_member: None }
    }

    pub fn error(error_code: i16, member_id: String) -> (r: Self)
        ensures
            r@ == refusal(error_code, member_id@),
    {
        JoinOutcome::of(JoinAction::Immediate(JoinResult::error(error_code, member_id)))
    }
}

pub open spec fn session_timeout_of(req: JoinGroupRequestView) -> u64 {
    if req.session_timeout_ms >= 0 {
        req.session_timeout_ms as u64
    } else {
        DEFAULT_SESSION_TIMEOUT_MS
    }
}

pub open spec fn rebalance_timeout_of(req: JoinGroupRequestView) -> u64 {
    if req.rebalance_timeout_ms >= 0 {
        req.rebalance_timeout_ms as u64
    } else {
        DEFAULT_REBALANCE_TIMEOUT_MS
    }
}

/// Whether the group has room for `id`. While a round gathers, those that wait in it count, so
/// that the last to come back are the ones turned away.
pub open spec fn accepts(g: ClassicGroupView, id: Seq<char>, max_size: int) -> bool {
    match g.state {
        GroupState::Empty => true,
        GroupState::PreparingRebalance => (g.members.contains_key(id) && g.joined_this_round.contains(id)) || listing::<String>(
            g.joined_this_round,
        ).len() < max_size,
        GroupState::CompletingRebalance | GroupState::Stable => g.members.contains_key(id) || listing::<String>(g.members.dom()).len() < max_size,
    }
}

/// The members as the leader's answer lists them, in the order of their ids.
pub open spec fn member_list(g: ClassicGroupView) -> Seq<JoinResultMemberView> {
    let ids = listing::<String>(g.members.dom());
    Seq::new(
        ids.len(),
        |i: int|
            JoinResultMemberView {
                member_id: g.members[ids[i]].id,
                group_instance_id: g.members[ids[i]].group_instance_id,
                metadata: g.members[ids[i]].protocol_metadata,
            },
    )
}

/// The answer to `id` for the current generation; the leader's lists the members.
pub open spec fn join_result(g: ClassicGroupView, id: Seq<char>) -> JoinResultView {
    JoinResultView {
        error_code: codes::NONE,
        generation_id: g.generation_id,
        protocol_type: g.protocol_type,
        protocol_name: g.protocol_name,
        leader: match g.leader_id {
            Some(l) => l,
            None => seq![],
        },
        skip_assignment: false,
        member_id: id,
        members: if g.leader_id == Some(id) {
            member_list(g)
        } else {
            seq![]
        },
    }
}

/// `id` waits, in the round that is open or in one that opens for it; the round completes at once
/// where everybody waits in it and it did not open from an empty group.
pub open spec fn gathering(g: ClassicGroupView, id: Seq<char>, ctx: JoinContext) -> (ClassicGroupView, JoinActionView) {
    if g.state != GroupState::PreparingRebalance {
        let h = g.preparing(ctx.initial_rebalance_delay, ctx.now).awaiting(id);
        (h, if g.state != GroupState::Empty && h.all_joined() {
            JoinActionView::CompleteNow
        } else {
            JoinActionView::Park
        })
    } else {
        let h = g.awaiting(id);
        (h, if !h.rebalance_from_empty && h.all_joined() {
            JoinActionView::CompleteNow
        } else {
            JoinActionView::Park
        })
    }
}

/// The member that a request brings in.
pub open spec fn new_member(req: JoinGroupRequestView, id: Seq<char>, ctx: JoinContext) -> MemberView {
    MemberView {
        id,
        client_id: ctx.client_id@,
        client_host: ctx.client_host@,
        session_timeout: session_timeout_of(req),
        rebalance_timeout: rebalance_timeout_of(req),
        protocols: req.protocols,
        group_instance_id: req.group_instance_id,
        protocol_metadata: if req.protocols.len() == 0 {
            seq![]
        } else {
            req.protocols[0].metadata
        },
        assignment: None,
        last_heartbeat: ctx.now,
        is_new: true,
    }
}

/// A new member comes in and waits. One that comes during the initial delay extends it.
pub open spec fn adding(g: ClassicGroupView, req: JoinGroupRequestView, id: Seq<char>, ctx: JoinContext) -> (ClassicGroupView, JoinActionView) {
    let noted = ClassicGroupView {
        new_member_added: g.new_member_added || (g.state == GroupState::PreparingRebalance && g.rebalance_from_empty),
        ..g
    };
    gathering(noted.with_joining(new_member(req, id, ctx), req.protocol_type), id, ctx)
}

/// A member that is there already brings what it has now, and waits.
pub open spec fn updating(g: ClassicGroupView, req: JoinGroupRequestView, ctx: JoinContext) -> (ClassicGroupView, JoinActionView) {
    gathering(
        g.with_updated(req.member_id, req.protocols, rebalance_timeout_of(req), session_timeout_of(req)),
        req.member_id,
        ctx,
    )
}

/// A static member comes back under the new id `to`. A stable group whose vote does not change
/// keeps its generation; any other gathers again.
pub open spec fn replacing(g: ClassicGroupView, req: JoinGroupRequestView, ctx: JoinContext, instance: Seq<char>, from: Seq<char>, to: Seq<char>) -> JoinStep {
    let h = g.with_replaced(instance, from, to).refreshed(to, ctx.now).with_updated(
        to,
        req.protocols,
        rebalance_timeout_of(req),
        session_timeout_of(req),
    );
    let (group, action) = if h.state == GroupState::Stable && h.protocol_name == selected_protocol(h.members) {
        let current = join_result(h, to);
        (h, JoinActionView::PersistThenReply(
            if ctx.version >= FIRST_SKIP_ASSIGNMENT_VERSION {
                JoinResultView { skip_assignment: h.leader_id == Some(to), ..current }
            } else {
                JoinResultView {
                    members: seq![],
                    leader: match g.leader_id {
                        Some(l) => l,
                        None => seq![],
                    },
                    ..current
                }
            },
        ))
    } else if h.state == GroupState::Empty {
        (h, JoinActionView::Immediate(join_error(codes::UNKNOWN_SERVER_ERROR, to)))
    } else {
        gathering(h, to, ctx)
    };
    JoinStep { group, member_id: to, outcome: JoinOutcomeView { action, fenced_member: Some(from) } }
}

/// A request without a member id: `suffix` makes the id it is given.
pub open spec fn joining_new(g: ClassicGroupView, req: JoinGroupRequestView, ctx: JoinContext, suffix: Seq<char>) -> JoinStep {
    let prefix = match req.group_instance_id {
        Some(i) => i,
        None => ctx.client_id@,
    };
    let id = member_id_of(prefix, suffix);
    if !g.supports_protocols(req.protocol_type, req.protocols) {
        JoinStep { group: g, member_id: req.member_id, outcome: refusal(codes::INCONSISTENT_GROUP_PROTOCOL, seq![]) }
    } else if req.group_instance_id is Some && g.pinned(req.group_instance_id->0) is Some {
        replacing(g, req, ctx, req.group_instance_id->0, g.pinned(req.group_instance_id->0)->0, id)
    } else if req.group_instance_id is None && ctx.version >= FIRST_KNOWN_MEMBER_ID_VERSION {
        JoinStep {
            group: ClassicGroupView { pending_members: g.pending_members.insert(id, later(ctx.now, session_timeout_of(req))), ..g },
            member_id: req.member_id,
            outcome: refusal(codes::MEMBER_ID_REQUIRED, id),
        }
    } else {
        let (group, action) = adding(g, req, id, ctx);
        JoinStep { group, member_id: id, outcome: plain(action) }
    }
}

/// Whether a known member's `JoinGroup` starts a round: always while one gathers; the leader's in
/// a stable group; else where what it brings has changed.
pub open spec fn rejoin_rebalances(g: ClassicGroupView, req: JoinGroupRequestView) -> bool {
    let unchanged = g.members[req.member_id].protocols == req.protocols;
    match g.state {
        GroupState::PreparingRebalance => true,
        GroupState::CompletingRebalance => !unchanged,
        GroupState::Stable => g.leader_id == Some(req.member_id) || !unchanged,
        GroupState::Empty => false,
    }
}

/// A request that names its member id.
pub open spec fn joining_again(g: ClassicGroupView, req: JoinGroupRequestView, ctx: JoinContext) -> JoinStep {
    let id = req.member_id;
    let refused = |code: i16| JoinStep { group: g, member_id: id, outcome: refusal(code, id) };
    let validated = g.validate_member(id, req.group_instance_id);
    if !g.supports_protocols(req.protocol_type, req.protocols) {
        refused(codes::INCONSISTENT_GROUP_PROTOCOL)
    } else if g.pending_members.contains_key(id) {
        if req.group_instance_id is Some {
            refused(codes::UNKNOWN_SERVER_ERROR)
        } else {
            let (group, action) = adding(g, req, id, ctx);
            JoinStep { group, member_id: id, outcome: plain(action) }
        }
    } else if validated is Err {
        refused(validated->Err_0)
    } else if g.state == GroupState::Empty {
        refused(codes::UNKNOWN_MEMBER_ID)
    } else if rejoin_rebalances(g, req) {
        let (group, action) = updating(g, req, ctx);
        JoinStep { group, member_id: id, outcome: plain(action) }
    } else {
        JoinStep { group: g, member_id: id, outcome: plain(JoinActionView::Immediate(join_result(g, id))) }
    }
}

/// A `JoinGroup`: a full group turns it away, else it goes by whether it names its member id.
pub open spec fn joining(g: ClassicGroupView, req: JoinGroupRequestView, ctx: JoinContext, suffix: Seq<char>) -> JoinStep {
    if !accepts(g, req.member_id, ctx.max_size as int) {
        JoinStep { group: g.without_member(req.member_id), member_id: req.member_id, outcome: refusal(codes::GROUP_MAX_SIZE_REACHED, seq![]) }
    } else if req.member_id.len() == 0 {
        joining_new(g, req, ctx, suffix)
    } else {
        joining_again(g, req, ctx)
    }
}

fn session_timeout(req: &JoinGroupRequest) -> (r: u64)
    ensures
        r == session_timeout_of(req@),
{
    if req.session_timeout_ms >= 0 {
        req.session_timeout_ms as u64
    } else {
        DEFAULT_SESSION_TIMEOUT_MS
    }
}

fn rebalance_timeout(req: &JoinGroupRequest) -> (r: u64)
    ensures
        r == rebalance_timeout_of(req@),
{
    if req.rebalance_timeout_ms >= 0 {
        req.rebalance_timeout_ms as u64
    } else {
        DEFAULT_REBALANCE_TIMEOUT_MS
    }
}

/// Whether the group has room for `member_id`.
pub fn accept_joining_member(state: &ClassicGroup, member_id: &String, max_size: usize) -> (r: bool)
    ensures
        r == accepts(state@, member_id@, max_size as int),
{
    match state.state {
        GroupState::Empty => true,
        GroupState::PreparingRebalance => {
            (state.members.contains_key(member_id) && state.joined_this_round.contains(member_id)) || state.joined_this_round.len() < max_size
        },
        GroupState::CompletingRebalance | GroupState::Stable => { state.members.contains_key(member_id) || state.members.len() < max_size },
    }
}

/// The answer to `member_id` for the current generation.
pub fn build_join_result(state: &ClassicGroup, member_id: &String) -> (r: JoinResult)
    ensures
        r@ == join_result(state@, member_id@),
{
    let mut members: Vec<JoinResultMember> = Vec::new();
    if opt_is(&state.leader_id, member_id.as_str()) {
        let n: usize = state.members.len();
        let ghost ids = state.members.keys();
        let mut i: usize = 0;
        while i < n
            invariant
                0 <= i <= n,
                n == ids.len(),
                ids == state.members.keys(),
                ids == listing::<String>(state@.members.dom()),
                members@.len() == i,
                forall|j: int| 0 <= j < i ==> (#[trigger] members@[j])@ == member_list(state@)[j],
            decreases n - i,
        {
            let m = state.members.value_at(i);
            members.push(
                JoinResultMember { member_id: m.id.clone(), group_instance_id: dup_opt_str(&m.group_instance_id), metadata: m.protocol_metadata.dup() },
            );
            i = i + 1;
        }
        assert(views(members@) =~= member_list(state@));
    } else {
        assert(views(members@) =~= seq![]);
    }
    let leader: String = match &state.leader_id {
        Some(l) => l.clone(),
        None => String::new(),
    };
    proof {
        if state.leader_id is None {
            assert(leader@ =~= seq![]);
        }
    }
    JoinResult {
        error_code: codes::NONE,
        generation_id: state.generation_id,
        protocol_type: dup_opt_str(&state.protocol_type),
        protocol_name: dup_opt_str(&state.protocol_name),
        leader,
        skip_assignment: false,
        member_id: member_id.clone(),
        members,
    }
}

fn prepare_rebalance_or_complete_join(state: &mut ClassicGroup, member_id: &String, ctx: &JoinContext) -> (r: JoinAction)
    ensures
        (final(state)@, r@) == gathering(old(state)@, member_id@, *ctx),
{
    if state.state != GroupState::PreparingRebalance {
        let initial: bool = state.state == GroupState::Empty;
        state.prepare_rebalance(ctx.initial_rebalance_delay, ctx.now);
        state.mark_awaiting_join(member_id);
        if !initial && state.has_all_members_joined() {
            JoinAction::CompleteNow
        } else {
            JoinAction::Park
        }
    } else {
        state.mark_awaiting_join(member_id);
        if !state.rebalance_from_empty && state.has_all_members_joined() {
            JoinAction::CompleteNow
        } else {
            JoinAction::Park
        }
    }
}

fn add_member_then_rebalance(state: &mut ClassicGroup, req: &JoinGroupRequest, id: &String, ctx: &JoinContext) -> (r: JoinAction)
    ensures
        (final(state)@, r@) == adding(old(state)@, req@, id@, *ctx),
{
    let mut member = Member::new(
        id.clone(),
        ctx.client_id.clone(),
        ctx.client_host.clone(),
        session_timeout(req),
        rebalance_timeout(req),
        dup_protocols(&req.protocols),
    ).with_instance_id(dup_opt_str(&req.group_instance_id));
    member.is_new = true;
    member.last_heartbeat = ctx.now;
    proof {
        if req.protocols@.len() > 0 {
            assert(views(req.protocols@)[0].metadata == req.protocols@[0].metadata@);
        }
        assert(member@ =~= new_member(req@, id@, *ctx));
    }
    if state.state == GroupState::PreparingRebalance && state.rebalance_from_empty {
        state.new_member_added = true;
    }
    state.insert_joining_member(member, &req.protocol_type);
    prepare_rebalance_or_complete_join(state, id, ctx)
}

/// Lets a static member come back under the id `to`, in the place of `from`.
pub fn update_static_member(state: &mut ClassicGroup, req: &mut JoinGroupRequest, ctx: &JoinContext, instance: &String, from: String, to: String) -> (r:
    JoinOutcome)
    ensures
        ({
            let step = replacing(old(state)@, old(req)@, *ctx, instance@, from@, to@);
            &&& final(state)@ == step.group
            &&& final(req)@ == (JoinGroupRequestView { member_id: step.member_id, ..old(req)@ })
            &&& r@ == step.outcome
        }),
{
    let ghost g = state@;
    let ghost asked = req@;
    let current_leader: String = match &state.leader_id {
        Some(l) => l.clone(),
        None => String::new(),
    };
    proof {
        if state.leader_id is None {
            assert(current_leader@ =~= seq![]);
        }
    }
    state.replace_static_member(instance, &from, &to);
    state.refresh_session(&to, ctx.now);
    state.update_joining_member(&to, dup_protocols(&req.protocols), rebalance_timeout(req), session_timeout(req));
    req.member_id = to.clone();
    let ghost h = state@;
    let keeps: bool = state.state == GroupState::Stable && {
        let chosen = select_protocol(&state.members);
        opt_same(&state.protocol_name, &chosen)
    };
    let action = if keeps {
        let is_leader: bool = opt_is(&state.leader_id, to.as_str());
        let mut result = build_join_result(state, &to);
        if ctx.version >= FIRST_SKIP_ASSIGNMENT_VERSION {
            result.skip_assignment = is_leader;
        } else {
            result.members = Vec::new();
            result.leader = current_leader;
            assert(views(result.members@) =~= seq![]);
        }
        JoinAction::PersistThenReply(result)
    } else if state.state == GroupState::Empty {
        JoinAction::Immediate(JoinResult::error(codes::UNKNOWN_SERVER_ERROR, to.clone()))
    } else {
        prepare_rebalance_or_complete_join(state, &to, ctx)
    };
    JoinOutcome { action, fenced_member: Some(from) }
}

/// A `JoinGroup` without a member id, with the suffix of the id that it is given.
pub fn join_new_member(state: &mut ClassicGroup, req: &mut JoinGroupRequest, ctx: &JoinContext, suffix: &str) -> (r: JoinOutcome)
    ensures
        ({
            let step = joining_new(old(state)@, old(req)@, *ctx, suffix@);
            &&& final(state)@ == step.group
            &&& final(req)@ == (JoinGroupRequestView { member_id: step.member_id, ..old(req)@ })
            &&& r@ == step.outcome
        }),
{
    if !state.supports_protocols(&req.protocol_type, &req.protocols) {
        let none = String::new();
        assert(none@ =~= seq![]);
        return JoinOutcome::error(codes::INCONSISTENT_GROUP_PROTOCOL, none);
    }
    let id: String = match &req.group_instance_id {
        Some(i) => member_id_from(i.as_str(), suffix),
        None => member_id_from(ctx.client_id.as_str(), suffix),
    };
    let instance = dup_opt_str(&req.group_instance_id);
    if let Some(i) = instance {
        let held: Option<String> = match state.current_member_id_for_instance(&i) {
            Some(from) => Some(from.clone()),
            None => None,
        };
        if let Some(from) = held {
            return update_static_member(state, req, ctx, &i, from, id);
        }
    } else if ctx.version >= FIRST_KNOWN_MEMBER_ID_VERSION {
        let deadline: u64 = ctx.now.saturating_add(session_timeout(req));
        state.add_pending_member(id.clone(), deadline);
        return JoinOutcome::error(codes::MEMBER_ID_REQUIRED, id);
    }
    let action = add_member_then_rebalance(state, req, &id, ctx);
    req.member_id = id;
    JoinOutcome::of(action)
}

/// A `JoinGroup` that names its member id.
pub fn join_existing_member(state: &mut ClassicGroup, req: &JoinGroupRequest, ctx: &JoinContext) -> (r: JoinOutcome)
    ensures
        ({
            let step = joining_again(old(state)@, req@, *ctx);
            &&& final(state)@ == step.group
            &&& step.member_id == req@.member_id
            &&& r@ == step.outcome
        }),
{
    let id = req.member_id.clone();
    if !state.supports_protocols(&req.protocol_type, &req.protocols) {
        return JoinOutcome::error(codes::INCONSISTENT_GROUP_PROTOCOL, id);
    }
    if state.pending_members.contains_key(&id) {
        if req.group_instance_id.is_some() {
            return JoinOutcome::error(codes::UNKNOWN_SERVER_ERROR, id);
        }
        return JoinOutcome::of(add_member_then_rebalance(state, req, &id, ctx));
    }
    if let Err(code) = state.validate_member(&id, &req.group_instance_id) {
        return JoinOutcome::error(code, id);
    }
    let unchanged: bool = match state.members.get(&id) {
        Some(m) => protocols_eq(&m.protocols, &req.protocols),
        None => false,
    };
    let is_leader: bool = opt_is(&state.leader_id, id.as_str());
    let rebalance: bool = match state.state {
        GroupState::PreparingRebalance => true,
        GroupState::CompletingRebalance => !unchanged,
        GroupState::Stable => is_leader || !unchanged,
        GroupState::Empty => {
            return JoinOutcome::error(codes::UNKNOWN_MEMBER_ID, id);
        },
    };
    if rebalance {
        state.update_joining_member(&id, dup_protocols(&req.protocols), rebalance_timeout(req), session_timeout(req));
        JoinOutcome::of(prepare_rebalance_or_complete_join(state, &id, ctx))
    } else {
        JoinOutcome::of(JoinAction::Immediate(build_join_result(state, &id)))
    }
}

/// A `JoinGroup`, with the suffix of the id that a member without one is given.
pub fn handle_join_with_suffix(state: &mut ClassicGroup, req: &mut JoinGroupRequest, ctx: &JoinContext, suffix: &str) -> (r: JoinOutcome)
    ensures
        ({
            let step = joining(old(state)@, old(req)@, *ctx, suffix@);
            &&& final(state)@ == step.group
            &&& final(req)@ == (JoinGroupRequestView { member_id: step.member_id, ..old(req)@ })
            &&& r@ == step.outcome
        }),
{
    if !accept_joining_member(state, &req.member_id, ctx.max_size) {
        state.remove_member(&req.member_id);
        let none = String::new();
        assert(none@ =~= seq![]);
        JoinOutcome::error(codes::GROUP_MAX_SIZE_REACHED, none)
    } else if req.member_id.as_str().is_empty() {
        join_new_member(state, req, ctx, suffix)
    } else {
        join_existing_member(state, req, ctx)
    }
}

/// A `JoinGroup`. A member without an id is given one with a fresh suffix, and the request then
/// goes by it.
pub fn handle_join(state: &mut ClassicGroup, req: &mut JoinGroupRequest, ctx: &JoinContext) -> (r: JoinOutcome)
    ensures
        exists|suffix: Seq<char>| #[trigger]
            uuid_text(suffix) && {
                let step = joining(old(state)@, old(req)@, *ctx, suffix);
                &&& final(state)@ == step.group
                &&& final(req)@ == (JoinGroupRequestView { member_id: step.member_id, ..old(req)@ })
                &&& r@ == step.outcome
            },
{
    let suffix = fresh_uuid();
    handle_join_with_suffix(state, req, ctx, suffix.as_str())
}

/// Why a round could not complete.
#[derive(Clone, Copy, Debug, PartialEq, Eq, Structural)]
pub enum CompleteError {
    /// No protocol is common to all members.
    InconsistentProtocol,
    /// The generation numbers are used up.
    EpochExhausted,
}

/// How a round ended. `removed` lists the members that had not joined again, now gone.
#[derive(Debug, PartialEq, Eq)]
pub enum Completion {
    /// No round was open.
    NotPreparing,
    /// A generation began.
    Generation { removed: Vec<String> },
    /// Nobody is left; the group is empty in a new generation, which is to be persisted.
    Emptied { removed: Vec<String> },
    /// Nobody waits in `JoinGroup`; the deadline moved.
    Postponed { removed: Vec<String> },
}

#[verifier::ext_equal]
pub enum CompletionView {
    NotPreparing,
    Generation { removed: Seq<Seq<char>> },
    Emptied { removed: Seq<Seq<char>> },
    Postponed { removed: Seq<Seq<char>> },
}

impl View for Completion {
    type V = CompletionView;

    open spec fn view(&self) -> CompletionView {
        match self {
            Completion::NotPreparing => CompletionView::NotPreparing,
            Completion::Generation { removed } => CompletionView::Generation { removed: views(removed@) },
            Completion::Emptied { removed } => CompletionView::Emptied { removed: views(removed@) },
            Completion::Postponed { removed } => CompletionView::Postponed { removed: views(removed@) },
        }
    }
}

/// The members that a round leaves behind: those without a static identity that did not join
/// again.
pub open spec fn left_behind(g: ClassicGroupView) -> Set<Seq<char>> {
    Set::new(|id: Seq<char>| g.members.contains_key(id) && !g.members[id].is_static() && !g.joined_this_round.contains(id))
}

/// The group without those left behind.
pub open spec fn gathered(g: ClassicGroupView) -> ClassicGroupView {
    ClassicGroupView {
        members: Map::new(|id: Seq<char>| g.members.contains_key(id) && !left_behind(g).contains(id), |id: Seq<char>| g.members[id]),
        ..g
    }
}

/// The end of a round. Those that did not join again leave. A group that nobody is left in is
/// empty in the next generation; one that nobody waits in is given more time; else the next
/// generation begins, with the leader kept while it joined and the protocol that the vote selects.
/// Where no generation can begin the group loses those left behind and nothing else changes.
pub open spec fn completing(g: ClassicGroupView, now: u64) -> (ClassicGroupView, Result<CompletionView, CompleteError>) {
    let removed = listing::<String>(left_behind(g));
    let h = gathered(g);
    let led = ClassicGroupView { leader_id: h.joined_leader(), ..h };
    let vote = selected_protocol(h.members);
    if g.state != GroupState::PreparingRebalance {
        (g, Ok(CompletionView::NotPreparing))
    } else if h.members == Map::<Seq<char>, MemberView>::empty() {
        if g.generation_id == i32::MAX {
            (h, Err(CompleteError::EpochExhausted))
        } else {
            (ClassicGroupView { generation_id: (g.generation_id + 1) as i32, ..h.emptied() }, Ok(CompletionView::Emptied { removed }))
        }
    } else if h.joined_leader() is None {
        (
            ClassicGroupView { rebalance_deadline: Some(later(now, longest_timeout(g.members))), initial_join: None, ..h },
            Ok(CompletionView::Postponed { removed }),
        )
    } else if vote is None {
        (h, Err(CompleteError::InconsistentProtocol))
    } else if g.generation_id == i32::MAX {
        (h, Err(CompleteError::EpochExhausted))
    } else {
        (led.resolved(vote->0).completed(vote->0).settled(now), Ok(CompletionView::Generation { removed }))
    }
}

struct LeftBehind<'a> {
    joined: &'a OrdSet<String>,
}

impl<'a> Test<String, Member> for LeftBehind<'a> {
    closed spec fn holds(&self, k: Seq<char>, v: MemberView) -> bool {
        !v.is_static() && !self.joined@.contains(k)
    }

    fn test(&self, k: &String, v: &Member) -> (r: bool) {
        !v.is_static() && !self.joined.contains(k)
    }
}

struct Gathered<'a> {
    joined: &'a OrdSet<String>,
}

impl<'a> Test<String, Member> for Gathered<'a> {
    closed spec fn holds(&self, k: Seq<char>, v: MemberView) -> bool {
        v.is_static() || self.joined@.contains(k)
    }

    fn test(&self, k: &String, v: &Member) -> (r: bool) {
        v.is_static() || self.joined.contains(k)
    }
}

/// Ends a round.
pub fn try_complete(state: &mut ClassicGroup, now: u64) -> (r: Result<Completion, CompleteError>)
    ensures
        ({
            let (group, result) = completing(old(state)@, now);
            &&& final(state)@ == group
            &&& match r {
                Ok(c) => result == Ok::<CompletionView, CompleteError>(c@),
                Err(e) => result == Err::<CompletionView, CompleteError>(e),
            }
        }),
{
    if state.state != GroupState::PreparingRebalance {
        return Ok(Completion::NotPreparing);
    }
    let ghost g = state@;
    let t = LeftBehind { joined: &state.joined_this_round };
    let removed = state.members.keys_where(&t);
    assert(passing::<String, Member, LeftBehind>(state.members@, t) =~= left_behind(g));
    let timeout: u64 = state.rebalance_timeout();
    let keep = Gathered { joined: &state.joined_this_round };
    state.members.retain(&keep);
    assert(state@ =~= gathered(g));
    let ghost h = state@;
    if state.members.is_empty() {
        if state.empty_generation() {
            return Ok(Completion::Emptied { removed });
        }
        return Err(CompleteError::EpochExhausted);
    }
    let leader = dup_opt_str(&state.leader_id);
    if !state.maybe_elect_new_joined_leader() {
        state.rebalance_deadline = Some(now.saturating_add(timeout));
        state.initial_join = None;
        return Ok(Completion::Postponed { removed });
    }
    match select_protocol(&state.members) {
        None => {
            state.leader_id = leader;
            Err(CompleteError::InconsistentProtocol)
        },
        Some(chosen) => {
            if state.generation_id == i32::MAX {
                state.leader_id = leader;
                return Err(CompleteError::EpochExhausted);
            }
            state.resolve_selected_protocol_metadata(&chosen);
            let _ = state.complete_rebalance(chosen);
            state.settle(now);
            Ok(Completion::Generation { removed })
        },
    }
}

} // verus!
