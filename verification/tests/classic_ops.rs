use krabka_coordinator::classic_join::{
    build_join_result, handle_join, handle_join_with_suffix, join_existing_member, join_new_member,
    try_complete, update_static_member, CompleteError, Completion, JoinAction, JoinContext,
    JoinOutcome,
};
use krabka_coordinator::classic_state::{
    select_protocol, ClassicGroup, GroupState, InitialJoin, Member, Protocol,
};
use krabka_coordinator::classic_sync::{
    handle_heartbeat, handle_leave, handle_sync, is_protocol_inconsistent, read_sync_result,
    refresh_committer_session, validate_commit, validate_offset_commit, SyncAction,
};
use krabka_coordinator::codes;
use krabka_coordinator::ordmap::{Dup, OrdMap, OrdSet};
use krabka_coordinator::requests::{
    classic_leave_result, HeartbeatRequest, JoinGroupRequest, JoinResult, JoinResultMember,
    LeaveGroupRequest, MemberIdentity, MemberResponse, SyncGroupRequest,
    SyncGroupRequestAssignment, SyncResult,
};

const NOW: u64 = 1_000_000;

fn s(text: &str) -> String {
    text.to_string()
}

fn protocol(name: &str, metadata: &[u8]) -> Protocol {
    Protocol { name: s(name), metadata: metadata.to_vec() }
}

fn protocols(names: &[&str]) -> Vec<Protocol> {
    names.iter().map(|name| protocol(name, b"meta")).collect()
}

/// A `JoinGroup` v5 context from client `client-a` on `client_host`.
fn join_ctx(client_host: &str) -> JoinContext {
    JoinContext {
        client_id: s("client-a"),
        client_host: s(client_host),
        version: 5,
        initial_rebalance_delay: 3_000,
        max_size: usize::MAX,
        now: NOW,
    }
}

fn join_req(member_id: &str, instance: Option<&str>) -> JoinGroupRequest {
    JoinGroupRequest {
        group_id: s("g"),
        session_timeout_ms: 30_000,
        rebalance_timeout_ms: 60_000,
        member_id: s(member_id),
        group_instance_id: instance.map(String::from),
        protocol_type: s("consumer"),
        protocols: vec![protocol("range", b"meta")],
    }
}

/// Joins `req` into `state` under the member id the request names. A dynamic member's id is first
/// reserved as a pending id; a new static member joins without an id, and the id it is given is
/// then replaced by the named one.
fn join_as(state: &mut ClassicGroup, req: &JoinGroupRequest, client_host: &str) -> JoinAction {
    let mut req = req.dup();
    let ctx = join_ctx(client_host);
    if !req.member_id.is_empty() && !state.members.contains_key(&req.member_id) {
        match req.group_instance_id.clone() {
            None => {
                state.add_pending_member(req.member_id.clone(), ctx.now + 60_000);
            }
            Some(instance_id) if state.current_member_id_for_instance(&instance_id).is_none() => {
                let wanted = std::mem::take(&mut req.member_id);
                let outcome = handle_join(state, &mut req, &ctx);
                let awaiting = state.joined_this_round.contains(&req.member_id);
                state.replace_static_member(&instance_id, &req.member_id, &wanted);
                if awaiting {
                    state.mark_awaiting_join(&wanted);
                }
                return outcome.action;
            }
            Some(_) => {}
        }
    }
    handle_join(state, &mut req, &ctx).action
}

/// A group in `CompletingRebalance` at generation 1 with members `m1`, the leader, and `m2`.
fn stable_two_member_group() -> ClassicGroup {
    let mut g = ClassicGroup::new(s("g"));
    let _ = join_as(&mut g, &join_req("m1", None), "h");
    let _ = join_as(&mut g, &join_req("m2", None), "h");
    try_complete(&mut g, NOW).unwrap();
    g
}

fn assignments(entries: &[(&str, &[u8])]) -> OrdMap<String, Vec<u8>> {
    let mut out = OrdMap::new();
    for (id, bytes) in entries {
        out.insert(s(id), bytes.to_vec());
    }
    out
}

/// A `Stable` group at generation 1 with members `m1`, the leader, and `m2`.
fn stable_group() -> ClassicGroup {
    let mut g = stable_two_member_group();
    g.install_assignments(&assignments(&[("m1", b"a1"), ("m2", b"a2")]));
    g
}

fn sorted_members(state: &ClassicGroup) -> Vec<String> {
    (0..state.members.len()).map(|i| state.members.key_at(i).clone()).collect()
}

fn names(list: &[&str]) -> Vec<String> {
    list.iter().map(|n| s(n)).collect()
}

fn update_member(state: &mut ClassicGroup, id: &str, change: fn(&mut Member)) {
    let mut m = state.members.remove(&s(id)).unwrap();
    change(&mut m);
    state.members.insert(s(id), m);
}

fn member<'a>(state: &'a ClassicGroup, id: &str) -> &'a Member {
    state.members.get(&s(id)).unwrap()
}

fn current(state: &ClassicGroup, member_id: &str) -> JoinOutcome {
    JoinOutcome::of(JoinAction::Immediate(build_join_result(state, &s(member_id))))
}

fn parked() -> JoinOutcome {
    JoinOutcome::of(JoinAction::Park)
}

fn error(error_code: i16, member_id: &str) -> JoinOutcome {
    JoinOutcome::error(error_code, s(member_id))
}

/// The protocol gate turns away only the joining member, and the group does not change.
#[test]
fn protocol_gate_rejects_only_the_joining_member() {
    let rows: Vec<(&str, bool, &str, &str, Vec<&str>, JoinOutcome, Vec<&str>)> = vec![
        (
            "empty group, empty protocol type",
            false,
            "",
            "",
            vec!["range"],
            error(codes::INCONSISTENT_GROUP_PROTOCOL, ""),
            vec![],
        ),
        (
            "empty group, no protocols",
            false,
            "",
            "consumer",
            vec![],
            error(codes::INCONSISTENT_GROUP_PROTOCOL, ""),
            vec![],
        ),
        (
            "stable group, new member with a disjoint protocol",
            true,
            "",
            "consumer",
            vec!["roundrobin"],
            error(codes::INCONSISTENT_GROUP_PROTOCOL, ""),
            vec!["m1", "m2"],
        ),
        (
            "stable group, new member with another protocol type",
            true,
            "",
            "connect",
            vec!["range"],
            error(codes::INCONSISTENT_GROUP_PROTOCOL, ""),
            vec!["m1", "m2"],
        ),
        (
            "stable group, known member switches to a disjoint protocol",
            true,
            "m2",
            "consumer",
            vec!["roundrobin"],
            error(codes::INCONSISTENT_GROUP_PROTOCOL, "m2"),
            vec!["m1", "m2"],
        ),
        (
            "stable group, pending member with one shared protocol",
            true,
            "m3",
            "consumer",
            vec!["roundrobin", "range"],
            parked(),
            vec!["m1", "m2", "m3"],
        ),
    ];
    for (name, stable, member_id, protocol_type, list, want, members_after) in rows {
        let mut g = if stable { stable_group() } else { ClassicGroup::new(s("g")) };
        if member_id == "m3" {
            g.add_pending_member(s("m3"), NOW + 60_000);
        }
        let mut req = join_req(member_id, None);
        req.protocol_type = s(protocol_type);
        req.protocols = protocols(&list);
        let outcome = handle_join(&mut g, &mut req, &join_ctx("h"));
        assert!(outcome == want, "{}", name);
        assert!(sorted_members(&g) == names(&members_after), "{}", name);
    }
}

/// A known member's `JoinGroup` per group state.
#[test]
fn existing_member_join_follows_group_state() {
    let want_parked = |_: &ClassicGroup| parked();
    let rows: Vec<(&str, bool, &str, bool, Box<dyn Fn(&ClassicGroup) -> JoinOutcome>, GroupState)> = vec![
        (
            "stable follower, unchanged: current generation",
            true,
            "m2",
            false,
            Box::new(|g: &ClassicGroup| current(g, "m2")),
            GroupState::Stable,
        ),
        (
            "stable leader, unchanged: rebalance",
            true,
            "m1",
            false,
            Box::new(want_parked),
            GroupState::PreparingRebalance,
        ),
        (
            "stable follower, changed: rebalance",
            true,
            "m2",
            true,
            Box::new(want_parked),
            GroupState::PreparingRebalance,
        ),
        (
            "completing follower, unchanged: current generation",
            false,
            "m2",
            false,
            Box::new(|g: &ClassicGroup| current(g, "m2")),
            GroupState::CompletingRebalance,
        ),
        (
            "completing leader, unchanged: current generation with members",
            false,
            "m1",
            false,
            Box::new(|g: &ClassicGroup| current(g, "m1")),
            GroupState::CompletingRebalance,
        ),
        (
            "completing follower, changed: rebalance",
            false,
            "m2",
            true,
            Box::new(want_parked),
            GroupState::PreparingRebalance,
        ),
        (
            "unknown member id",
            true,
            "ghost",
            false,
            Box::new(|_: &ClassicGroup| error(codes::UNKNOWN_MEMBER_ID, "ghost")),
            GroupState::Stable,
        ),
    ];
    for (name, stable, member_id, changed, want, state_after) in rows {
        let mut g = if stable { stable_group() } else { stable_two_member_group() };
        let want = want(&g);
        let mut req = join_req(member_id, None);
        if changed {
            req.protocols[0].metadata = b"changed".to_vec();
        }
        let outcome = handle_join(&mut g, &mut req, &join_ctx("h"));
        assert!(outcome == want, "{}", name);
        assert!(g.state == state_after, "{}", name);
        assert!(g.generation_id == 1, "{}", name);
    }
}

/// A dynamic member gets `MEMBER_ID_REQUIRED` from version 4 on and joins with that id; an id the
/// group never gave out is unknown.
#[test]
fn member_id_required_then_join_with_the_given_id() {
    let mut g = ClassicGroup::new(s("g"));
    let outcome = handle_join(&mut g, &mut join_req("", None), &join_ctx("h"));
    let JoinAction::Immediate(required) = outcome.action else {
        panic!("expected MEMBER_ID_REQUIRED");
    };
    assert!(required.member_id.starts_with("client-a-"));
    assert!(required == JoinResult::error(codes::MEMBER_ID_REQUIRED, required.member_id.clone()));
    assert!(g.members.is_empty());
    assert!(g.state == GroupState::Empty);

    assert!(
        handle_join(&mut g, &mut join_req("made-up", None), &join_ctx("h"))
            == error(codes::UNKNOWN_MEMBER_ID, "made-up")
    );

    let outcome = handle_join(&mut g, &mut join_req(&required.member_id, None), &join_ctx("h"));
    assert!(outcome == parked());
    assert!(sorted_members(&g) == vec![required.member_id.clone()]);
    assert!(g.pending_members.is_empty());
}

#[test]
fn the_ways_into_a_group_answer_on_their_own() {
    let ctx = join_ctx("h");
    let mut g = ClassicGroup::new(s("g"));
    let outcome = join_new_member(&mut g, &mut join_req("", None), &ctx, "1");
    assert!(outcome == error(codes::MEMBER_ID_REQUIRED, "client-a-1"));
    assert!(join_existing_member(&mut g, &join_req("client-a-2", None), &ctx) == error(codes::UNKNOWN_MEMBER_ID, "client-a-2"));
    assert!(join_existing_member(&mut g, &join_req("client-a-1", None), &ctx) == parked());
    assert!(sorted_members(&g) == vec![s("client-a-1")]);

    let mut request = join_req("", Some("i"));
    assert!(join_new_member(&mut g, &mut request, &ctx, "3") == parked());
    assert!(request.member_id == "i-3");
    let mut back = join_req("", Some("i"));
    let outcome = update_static_member(&mut g, &mut back, &ctx, &s("i"), s("i-3"), s("i-4"));
    assert!(outcome == JoinOutcome { action: JoinAction::Park, fenced_member: Some(s("i-3")) });
    assert!(back.member_id == "i-4");
    assert!(sorted_members(&g) == vec![s("client-a-1"), s("i-4")]);
}

/// Before version 4 a dynamic member joins at once with a generated id.
#[test]
fn legacy_join_with_empty_member_id_adds_generated_member() {
    let mut g = ClassicGroup::new(s("g"));
    let mut request = join_req("", None);
    let ctx = JoinContext { version: 3, ..join_ctx("h") };
    assert!(handle_join(&mut g, &mut request, &ctx) == parked());
    assert!(request.member_id.starts_with("client-a-"));
    assert!(sorted_members(&g) == vec![request.member_id.clone()]);
}

/// A static member that joins again without a member id gets a new one at every version, and the
/// old id is fenced.
#[test]
fn static_rejoin_replaces_member_id_and_fences_the_old_one() {
    let rows: Vec<(&str, i16, bool, Box<dyn Fn(&ClassicGroup, &str) -> JoinAction>, GroupState)> = vec![
        (
            "stable, v4: persist, leader from before the join",
            4,
            true,
            Box::new(|g: &ClassicGroup, new: &str| {
                JoinAction::PersistThenReply(JoinResult {
                    members: Vec::new(),
                    leader: s("m1"),
                    ..build_join_result(g, &s(new))
                })
            }),
            GroupState::Stable,
        ),
        (
            "stable, v9: persist, leader skips assignment",
            9,
            true,
            Box::new(|g: &ClassicGroup, new: &str| {
                JoinAction::PersistThenReply(JoinResult {
                    skip_assignment: true,
                    ..build_join_result(g, &s(new))
                })
            }),
            GroupState::Stable,
        ),
        (
            "completing, v5: rebalance",
            5,
            false,
            Box::new(|_: &ClassicGroup, _: &str| JoinAction::Park),
            GroupState::PreparingRebalance,
        ),
    ];
    for (name, version, stable, want, state_after) in rows {
        let mut g = ClassicGroup::new(s("g"));
        let _ = join_as(&mut g, &join_req("m1", Some("i1")), "h");
        let _ = join_as(&mut g, &join_req("m2", None), "h");
        try_complete(&mut g, NOW).unwrap();
        if stable {
            g.install_assignments(&assignments(&[("m1", b"a1"), ("m2", b"a2")]));
        }

        let mut req = join_req("", Some("i1"));
        let ctx = JoinContext { version, ..join_ctx("h") };
        let outcome = handle_join(&mut g, &mut req, &ctx);

        let new_id = req.member_id.clone();
        assert!(new_id.starts_with("i1-"), "{}", name);
        assert!(
            outcome == JoinOutcome { action: want(&g, &new_id), fenced_member: Some(s("m1")) },
            "{}",
            name
        );
        assert!(g.state == state_after, "{}", name);
        assert!(g.generation_id == 1, "{}", name);
        assert!(g.leader_id.as_deref() == Some(new_id.as_str()), "{}", name);
        assert!(g.current_member_id_for_instance(&s("i1")) == Some(&new_id), "{}", name);
        let old_heartbeat = HeartbeatRequest {
            group_id: s("g"),
            generation_id: 1,
            member_id: s("m1"),
            group_instance_id: Some(s("i1")),
        };
        assert!(
            handle_heartbeat(&mut g, &old_heartbeat, NOW) == codes::FENCED_INSTANCE_ID,
            "{}",
            name
        );
    }
}

/// A new static member joins at once, without `MEMBER_ID_REQUIRED`.
#[test]
fn new_static_member_joins_without_member_id_required() {
    let mut g = ClassicGroup::new(s("g"));
    let mut req = join_req("", Some("i1"));
    assert!(handle_join(&mut g, &mut req, &join_ctx("h")) == parked());
    assert!(req.member_id.starts_with("i1-"));
    assert!(g.current_member_id_for_instance(&s("i1")) == Some(&req.member_id));
}

#[test]
fn full_group_turns_away_only_new_members() {
    for (name, member_id) in [("new member", ""), ("known member", "m2")] {
        let mut g = stable_group();
        let want = if member_id.is_empty() {
            error(codes::GROUP_MAX_SIZE_REACHED, "")
        } else {
            current(&g, member_id)
        };
        let ctx = JoinContext { max_size: 2, ..join_ctx("h") };
        let outcome = handle_join(&mut g, &mut join_req(member_id, None), &ctx);
        assert!(outcome == want, "{name}");
        assert!(sorted_members(&g) == names(&["m1", "m2"]), "{name}");
    }
}

/// At the deadline the dynamic members that did not join again leave, and the leader stays while
/// it joined.
#[test]
fn completion_removes_members_that_did_not_rejoin() {
    for (name, rejoined, leader) in [
        ("leader rejoined", "m1", "m1"),
        ("only the follower rejoined", "m2", "m2"),
    ] {
        let mut g = stable_group();
        assert!(
            handle_join(&mut g, &mut join_req("m1", None), &join_ctx("h")) == parked(),
            "{name}"
        );
        g.joined_this_round = OrdSet::new();
        g.mark_awaiting_join(&s(rejoined));
        let removed = if rejoined == "m1" { "m2" } else { "m1" };
        assert!(
            try_complete(&mut g, NOW) == Ok(Completion::Generation { removed: vec![s(removed)] }),
            "{name}"
        );
        assert!(sorted_members(&g) == vec![s(rejoined)], "{name}");
        assert!(g.leader_id.as_deref() == Some(leader), "{name}");
        assert!(g.generation_id == 2, "{name}");
        assert!(
            build_join_result(&g, &s(leader)).members
                == vec![JoinResultMember {
                    member_id: s(rejoined),
                    group_instance_id: None,
                    metadata: b"meta".to_vec(),
                }],
            "{name}"
        );
    }
}

#[test]
fn completion_of_a_round_nobody_rejoined_empties_the_group() {
    let mut g = stable_group();
    let _ = handle_join(&mut g, &mut join_req("m1", None), &join_ctx("h"));
    g.joined_this_round = OrdSet::new();
    assert!(
        try_complete(&mut g, NOW) == Ok(Completion::Emptied { removed: vec![s("m1"), s("m2")] })
    );
    assert!(g.state == GroupState::Empty);
    assert!(g.generation_id == 2);
    assert!(g.leader_id == None);
}

#[test]
fn all_members_rejoined_completes_now() {
    let mut g = stable_group();
    let mut changed = join_req("m2", None);
    changed.protocols[0].metadata = b"changed".to_vec();
    assert!(handle_join(&mut g, &mut changed, &join_ctx("h")) == parked());
    assert!(
        handle_join(&mut g, &mut join_req("m1", None), &join_ctx("h"))
            == JoinOutcome::of(JoinAction::CompleteNow)
    );
}

/// A round from `Empty` does not complete early even when every member joined.
#[test]
fn round_from_empty_waits_out_the_initial_delay() {
    let mut g = ClassicGroup::new(s("g"));
    let _ = join_as(&mut g, &join_req("m1", None), "h");
    assert!(g.rebalance_from_empty);
    assert!(g.initial_join == Some(InitialJoin { delay: 3_000, remaining: 57_000 }));
    let deadline = g.rebalance_deadline.expect("rebalance deadline");
    assert!(deadline >= NOW + 3_000);
    assert!(!g.new_member_added);
    assert!(join_as(&mut g, &join_req("m2", None), "h") == JoinAction::Park);
    assert!(g.new_member_added);
}

#[test]
fn a_member_that_came_meanwhile_extends_the_initial_delay_once() {
    let mut g = ClassicGroup::new(s("g"));
    let _ = join_as(&mut g, &join_req("m1", None), "h");
    assert!(!g.extend_initial_join(NOW + 3_000));
    let _ = join_as(&mut g, &join_req("m2", None), "h");
    assert!(g.extend_initial_join(NOW + 3_000));
    assert!(g.initial_join == Some(InitialJoin { delay: 3_000, remaining: 54_000 }));
    assert!(g.rebalance_deadline == Some(NOW + 6_000));
    assert!(!g.extend_initial_join(NOW + 6_000));
}

#[test]
fn try_complete_with_no_common_protocol_is_inconsistent() {
    let mut g = stable_group();
    update_member(&mut g, "m2", |m| m.protocols = vec![protocol("roundrobin", b"")]);
    g.state = GroupState::PreparingRebalance;
    g.mark_awaiting_join(&s("m1"));
    g.mark_awaiting_join(&s("m2"));
    assert!(try_complete(&mut g, NOW) == Err(CompleteError::InconsistentProtocol));
}

#[test]
fn try_complete_reports_a_used_up_generation_and_changes_nothing_else() {
    let mut g = stable_group();
    g.state = GroupState::PreparingRebalance;
    g.generation_id = i32::MAX;
    g.mark_awaiting_join(&s("m1"));
    g.mark_awaiting_join(&s("m2"));
    let before = g.dup();
    assert!(try_complete(&mut g, NOW) == Err(CompleteError::EpochExhausted));
    assert!(g == before);
}

#[test]
fn a_round_only_static_members_are_missing_from_is_postponed() {
    let mut g = ClassicGroup::new(s("g"));
    let _ = join_as(&mut g, &join_req("m1", Some("i1")), "h");
    try_complete(&mut g, NOW).unwrap();
    g.prepare_rebalance(3_000, NOW);
    assert!(try_complete(&mut g, NOW + 1) == Ok(Completion::Postponed { removed: vec![] }));
    assert!(g.rebalance_deadline == Some(NOW + 1 + 60_000));
    assert!(sorted_members(&g) == names(&["m1"]));
}

#[test]
fn no_round_means_nothing_completes() {
    let mut g = stable_group();
    let before = g.dup();
    assert!(try_complete(&mut g, NOW) == Ok(Completion::NotPreparing));
    assert!(g == before);
}

#[test]
fn build_join_result_leader_lists_members_follower_empty() {
    let g = stable_two_member_group();
    assert!(build_join_result(&g, &s("m1")).members.len() == 2);
    assert!(build_join_result(&g, &s("m2")).members.is_empty());
}

#[test]
fn the_vote_goes_to_the_protocol_most_members_put_first() {
    let mut members = OrdMap::new();
    for (id, list) in [
        ("a", vec!["x", "y"]),
        ("b", vec!["y", "x"]),
        ("c", vec!["z", "y", "x"]),
    ] {
        members.insert(s(id), Member::new(s(id), s("c"), s("h"), 1, 1, protocols(&list)));
    }
    assert!(select_protocol(&members) == Some(s("y")));
    let mut tied = OrdMap::new();
    tied.insert(s("a"), Member::new(s("a"), s("c"), s("h"), 1, 1, protocols(&["y", "x"])));
    tied.insert(s("b"), Member::new(s("b"), s("c"), s("h"), 1, 1, protocols(&["x", "y"])));
    assert!(select_protocol(&tied) == Some(s("x")));
    assert!(select_protocol(&OrdMap::new()) == None);
}

#[test]
fn a_given_suffix_makes_the_member_id() {
    let mut g = ClassicGroup::new(s("g"));
    let mut req = join_req("", Some("i1"));
    let _ = handle_join_with_suffix(&mut g, &mut req, &join_ctx("h"), "7");
    assert!(req.member_id == "i1-7");
    let mut two = ClassicGroup::new(s("g"));
    let outcome =
        handle_join_with_suffix(&mut two, &mut join_req("", None), &join_ctx("h"), "7");
    assert!(outcome == error(codes::MEMBER_ID_REQUIRED, "client-a-7"));
    assert!(two.pending_members.get(&s("client-a-7")) == Some(&(NOW + 30_000)));
}

#[test]
fn generated_ids_are_distinct_uuids() {
    let mut g = ClassicGroup::new(s("g"));
    let mut ids = Vec::new();
    for _ in 0..2 {
        let outcome = handle_join(&mut g, &mut join_req("", None), &join_ctx("h"));
        let JoinAction::Immediate(result) = outcome.action else {
            panic!("expected an answer");
        };
        assert!(result.member_id.len() == "client-a-".len() + 36);
        assert!(result.member_id.as_bytes()["client-a-".len() + 14] == b'4');
        ids.push(result.member_id);
    }
    assert!(ids[0] != ids[1]);
}

#[test]
fn a_pending_id_cannot_be_claimed_by_a_static_member() {
    let mut g = stable_group();
    g.add_pending_member(s("m3"), NOW + 60_000);
    let outcome = handle_join(&mut g, &mut join_req("m3", Some("i3")), &join_ctx("h"));
    assert!(outcome == error(codes::UNKNOWN_SERVER_ERROR, "m3"));
}

// ── SyncGroup ──

fn sync_req(member_id: &str, generation: i32) -> SyncGroupRequest {
    SyncGroupRequest {
        group_id: s("g"),
        generation_id: generation,
        member_id: s(member_id),
        group_instance_id: None,
        protocol_type: None,
        protocol_name: None,
        assignments: Vec::new(),
    }
}

fn assign(member_id: &str, assignment: &[u8]) -> SyncGroupRequestAssignment {
    SyncGroupRequestAssignment { member_id: s(member_id), assignment: assignment.to_vec() }
}

fn sync_ok(assignment: &[u8]) -> SyncResult {
    SyncResult {
        error_code: codes::NONE,
        assignment: assignment.to_vec(),
        protocol_type: Some(s("consumer")),
        protocol_name: Some(s("range")),
    }
}

#[derive(Clone, Copy, PartialEq, Eq)]
enum Start {
    Completing,
    Stable,
    Preparing,
}

fn group(start: Start) -> ClassicGroup {
    let mut g = stable_two_member_group();
    if start != Start::Completing {
        g.install_assignments(&assignments(&[("m1", b"L"), ("m2", b"F")]));
    }
    if start == Start::Preparing {
        let _ = join_as(&mut g, &join_req("m3", None), "h");
        assert!(g.state == GroupState::PreparingRebalance);
    }
    g
}

struct SyncRow {
    name: &'static str,
    start: Start,
    member: &'static str,
    instance: Option<&'static str>,
    generation_delta: i32,
    protocol_type: Option<&'static str>,
    protocol_name: Option<&'static str>,
    want: SyncAction,
    state_after: GroupState,
}

fn sync_row(
    name: &'static str,
    start: Start,
    member: &'static str,
    want: SyncAction,
    state_after: GroupState,
) -> SyncRow {
    SyncRow {
        name,
        start,
        member,
        instance: None,
        generation_delta: 0,
        protocol_type: None,
        protocol_name: None,
        want,
        state_after,
    }
}

#[test]
fn sync_follows_kafka_state_and_validation_rules() {
    let immediate = |code| SyncAction::Immediate(SyncResult::error(code));
    let rows = vec![
        sync_row(
            "preparing leader",
            Start::Preparing,
            "m1",
            immediate(codes::REBALANCE_IN_PROGRESS),
            GroupState::PreparingRebalance,
        ),
        sync_row(
            "preparing follower",
            Start::Preparing,
            "m2",
            immediate(codes::REBALANCE_IN_PROGRESS),
            GroupState::PreparingRebalance,
        ),
        sync_row(
            "completing follower parks",
            Start::Completing,
            "m2",
            SyncAction::Park,
            GroupState::CompletingRebalance,
        ),
        sync_row(
            "completing leader installs",
            Start::Completing,
            "m1",
            SyncAction::LeaderInstalled(sync_ok(b"new-L")),
            GroupState::Stable,
        ),
        sync_row(
            "stable follower reads current",
            Start::Stable,
            "m2",
            SyncAction::Immediate(sync_ok(b"F")),
            GroupState::Stable,
        ),
        sync_row(
            "stable leader reads current",
            Start::Stable,
            "m1",
            SyncAction::Immediate(sync_ok(b"L")),
            GroupState::Stable,
        ),
        SyncRow {
            protocol_type: Some("consumer"),
            protocol_name: Some("range"),
            ..sync_row(
                "matching protocol",
                Start::Stable,
                "m2",
                SyncAction::Immediate(sync_ok(b"F")),
                GroupState::Stable,
            )
        },
        SyncRow {
            protocol_type: Some("connect"),
            ..sync_row(
                "other protocol type",
                Start::Completing,
                "m1",
                immediate(codes::INCONSISTENT_GROUP_PROTOCOL),
                GroupState::CompletingRebalance,
            )
        },
        SyncRow {
            protocol_name: Some("roundrobin"),
            ..sync_row(
                "other protocol name",
                Start::Stable,
                "m2",
                immediate(codes::INCONSISTENT_GROUP_PROTOCOL),
                GroupState::Stable,
            )
        },
        SyncRow {
            generation_delta: 1,
            protocol_type: Some("connect"),
            ..sync_row(
                "generation before protocol",
                Start::Stable,
                "m2",
                immediate(codes::ILLEGAL_GENERATION),
                GroupState::Stable,
            )
        },
        sync_row(
            "unknown member",
            Start::Stable,
            "ghost",
            immediate(codes::UNKNOWN_MEMBER_ID),
            GroupState::Stable,
        ),
        SyncRow {
            instance: Some("i-unknown"),
            ..sync_row(
                "unknown instance",
                Start::Preparing,
                "m1",
                immediate(codes::UNKNOWN_MEMBER_ID),
                GroupState::PreparingRebalance,
            )
        },
    ];
    for r in rows {
        let mut g = group(r.start);
        let mut req = sync_req(r.member, g.generation_id + r.generation_delta);
        req.group_instance_id = r.instance.map(String::from);
        req.protocol_type = r.protocol_type.map(String::from);
        req.protocol_name = r.protocol_name.map(String::from);
        req.assignments = vec![assign("m1", b"new-L"), assign("m2", b"new-F")];
        let before: Vec<_> =
            ["m1", "m2"].iter().map(|m| member(&g, m).assignment.clone()).collect();

        let got = handle_sync(&mut g, &req);

        assert!(got == r.want, "{}", r.name);
        assert!(g.state == r.state_after, "{}", r.name);
        if !matches!(r.want, SyncAction::LeaderInstalled(_)) {
            let after: Vec<_> =
                ["m1", "m2"].iter().map(|m| member(&g, m).assignment.clone()).collect();
            assert!(after == before, "{}: assignments must not change", r.name);
        }
    }
}

#[test]
fn sync_unknown_member_and_wrong_generation() {
    let mut g = stable_two_member_group();
    let cur_gen = g.generation_id;
    g.static_members.insert(s("i2"), s("m2"));
    for (member, instance, want) in [
        ("m1", "i-expired", codes::UNKNOWN_MEMBER_ID),
        ("m1", "i2", codes::FENCED_INSTANCE_ID),
    ] {
        let mut req = sync_req(member, cur_gen);
        req.group_instance_id = Some(s(instance));
        assert!(
            handle_sync(&mut g, &req) == SyncAction::Immediate(SyncResult::error(want)),
            "{member} {instance}"
        );
    }
}

#[test]
fn sync_leader_installs_follower_parks_then_reads() {
    let mut g = stable_two_member_group();
    let cur_gen = g.generation_id;
    let leader = g.leader_id.clone().unwrap();
    let follower = if leader == "m1" { "m2" } else { "m1" };
    assert!(matches!(handle_sync(&mut g, &sync_req(follower, cur_gen)), SyncAction::Park));
    let mut req = sync_req(&leader, cur_gen);
    req.assignments = vec![assign(&leader, b"L"), assign(follower, b"F")];
    assert!(handle_sync(&mut g, &req) == SyncAction::LeaderInstalled(sync_ok(b"L")));
    assert!(g.state == GroupState::Stable);
    assert!(
        handle_sync(&mut g, &sync_req(follower, cur_gen)) == SyncAction::Immediate(sync_ok(b"F"))
    );
}

#[test]
fn sync_leader_clears_omitted_member_assignment() {
    let mut g = stable_two_member_group();
    let generation = g.generation_id;
    let leader = g.leader_id.clone().unwrap();
    let omitted = if leader == "m1" { "m2" } else { "m1" };
    update_member(&mut g, omitted, |m| m.assignment = Some(b"stale".to_vec()));

    let mut req = sync_req(&leader, generation);
    req.assignments = vec![assign(&leader, b"leader")];
    assert!(matches!(handle_sync(&mut g, &req), SyncAction::LeaderInstalled(_)));
    assert!(member(&g, omitted).assignment.as_deref() == Some(&b""[..]));
}

#[test]
fn read_sync_result_rebalance_in_progress_when_not_stable() {
    let mut g = stable_two_member_group();
    let r = read_sync_result(&g, &s("m1"), Some(s("consumer")), Some(s("range")));
    assert!(r == SyncResult::error(codes::REBALANCE_IN_PROGRESS));
    let leader = g.leader_id.clone().unwrap();
    let cur_gen = g.generation_id;
    let mut req = sync_req(&leader, cur_gen);
    req.assignments = vec![assign(&leader, b"")];
    let _ = handle_sync(&mut g, &req);
    let r = read_sync_result(&g, &leader, None, None);
    assert!(r.error_code == codes::NONE);
}

#[test]
fn leader_sync_in_stable_reads_current_assignment() {
    let mut g = group(Start::Stable);
    let generation = g.generation_id;
    assert!(
        handle_sync(&mut g, &sync_req("m1", generation)) == SyncAction::Immediate(sync_ok(b"L"))
    );
    assert!(member(&g, "m2").assignment.as_deref() == Some(&b"F"[..]));
}

#[test]
fn protocols_are_inconsistent_only_where_both_are_given_and_differ() {
    assert!(!is_protocol_inconsistent(&None, &Some(s("a"))));
    assert!(!is_protocol_inconsistent(&Some(s("a")), &None));
    assert!(!is_protocol_inconsistent(&Some(s("a")), &Some(s("a"))));
    assert!(is_protocol_inconsistent(&Some(s("a")), &Some(s("b"))));
}

// ── Heartbeat ──

#[test]
fn heartbeat_answers_by_state_and_refreshes_the_session() {
    let rows = [
        ("preparing", GroupState::PreparingRebalance, "m1", None, 0, codes::REBALANCE_IN_PROGRESS, true),
        ("completing", GroupState::CompletingRebalance, "m1", None, 0, codes::NONE, true),
        ("stable", GroupState::Stable, "m1", None, 0, codes::NONE, true),
        ("unknown member", GroupState::Stable, "ghost", None, 0, codes::UNKNOWN_MEMBER_ID, false),
        ("wrong generation", GroupState::Stable, "m1", None, 9, codes::ILLEGAL_GENERATION, false),
        (
            "instance nobody holds",
            GroupState::Stable,
            "m1",
            Some("i-expired"),
            0,
            codes::UNKNOWN_MEMBER_ID,
            false,
        ),
        (
            "instance another member holds",
            GroupState::Stable,
            "m1",
            Some("i2"),
            0,
            codes::FENCED_INSTANCE_ID,
            false,
        ),
        ("own instance", GroupState::Stable, "m2", Some("i2"), 0, codes::NONE, true),
    ];
    for (name, state, member_id, instance, offset, want, refreshed) in rows {
        let mut g = stable_two_member_group();
        g.state = state;
        g.static_members.insert(s("i2"), s("m2"));
        for id in ["m1", "m2"] {
            update_member(&mut g, id, |m| m.last_heartbeat = NOW - 10_000);
        }
        let req = HeartbeatRequest {
            group_id: s("g"),
            generation_id: g.generation_id + offset,
            member_id: s(member_id),
            group_instance_id: instance.map(str::to_string),
        };
        assert!(handle_heartbeat(&mut g, &req, NOW) == want, "{}", name);
        let got = g.members.get(&s(member_id)).is_some_and(|m| m.last_heartbeat > NOW - 10_000);
        assert!(got == refreshed, "{}", name);
    }
}

#[test]
fn heartbeat_of_an_empty_group_is_unknown() {
    let mut g = stable_two_member_group();
    g.state = GroupState::Empty;
    let req = HeartbeatRequest {
        group_id: s("g"),
        generation_id: g.generation_id,
        member_id: s("m1"),
        group_instance_id: None,
    };
    assert!(handle_heartbeat(&mut g, &req, NOW) == codes::UNKNOWN_MEMBER_ID);
}

#[test]
fn heartbeat_during_rebalance_keeps_the_member() {
    let mut g = stable_two_member_group();
    g.state = GroupState::PreparingRebalance;
    for id in ["m1", "m2"] {
        update_member(&mut g, id, |m| {
            m.session_timeout = 5_000;
            m.last_heartbeat = NOW - 10_000;
        });
    }
    let req = HeartbeatRequest {
        group_id: s("g"),
        generation_id: g.generation_id,
        member_id: s("m1"),
        group_instance_id: None,
    };
    assert!(handle_heartbeat(&mut g, &req, NOW) == codes::REBALANCE_IN_PROGRESS);

    let dropped = g.expire_dead_members(NOW, 3_000);

    assert!(dropped == vec![s("m2")]);
    assert!(g.members.contains_key(&s("m1")));
}

#[test]
fn expiry_in_a_stable_group_opens_a_round_and_forgets_stale_ids() {
    let mut g = stable_group();
    g.add_pending_member(s("late"), NOW + 29_999);
    g.add_pending_member(s("early"), NOW + 30_001);
    update_member(&mut g, "m1", |m| m.last_heartbeat = NOW + 10_000);
    let dropped = g.expire_dead_members(NOW + 30_000, 3_000);
    assert!(dropped == vec![s("m2")]);
    assert!(g.state == GroupState::PreparingRebalance);
    assert!(g.rebalance_deadline == Some(NOW + 90_000));
    assert!(g.pending_members.contains_key(&s("early")));
    assert!(!g.pending_members.contains_key(&s("late")));
}

// ── LeaveGroup ──

fn identity(member_id: &str, instance: Option<&str>) -> MemberIdentity {
    MemberIdentity { member_id: s(member_id), group_instance_id: instance.map(String::from) }
}

#[test]
fn leave_v2_single_member_removed() {
    let mut g = stable_two_member_group();
    g.state = GroupState::Stable;
    let req = LeaveGroupRequest { group_id: s("g"), member_id: s("m1"), members: vec![] };
    let out = handle_leave(&mut g, &req, 2, NOW);
    assert!(out.len() == 1);
    assert!(out[0].error_code == codes::NONE);
    assert!(!g.members.contains_key(&s("m1")));
    assert!(g.state == GroupState::PreparingRebalance);
}

#[test]
fn leave_v3_list_with_instance_resolution_and_unknown() {
    let mut g = ClassicGroup::new(s("g"));
    let _ = join_as(&mut g, &join_req("m1", Some("inst-a")), "h");
    let req = LeaveGroupRequest {
        group_id: s("g"),
        member_id: s(""),
        members: vec![identity("", Some("inst-a")), identity("ghost", None)],
    };
    let out = handle_leave(&mut g, &req, 3, NOW);
    assert!(out.len() == 2);
    assert!(out[0].error_code == codes::NONE);
    assert!(out[1].error_code == codes::UNKNOWN_MEMBER_ID);
    assert!(!g.members.contains_key(&s("m1")));
}

#[test]
fn leave_fences_an_instance_that_another_member_holds() {
    let mut g = stable_group();
    g.static_members.insert(s("i2"), s("m2"));
    let req = LeaveGroupRequest {
        group_id: s("g"),
        member_id: s(""),
        members: vec![identity("m1", Some("i2")), identity("m1", Some("i9"))],
    };
    let before = g.dup();
    let out = handle_leave(&mut g, &req, 3, NOW);
    assert!(out[0].error_code == codes::FENCED_INSTANCE_ID);
    assert!(out[1].error_code == codes::UNKNOWN_MEMBER_ID);
    assert!(g == before);
}

#[test]
fn the_last_member_to_leave_empties_the_group() {
    let mut g = stable_group();
    for id in ["m1", "m2"] {
        let req = LeaveGroupRequest { group_id: s("g"), member_id: s(id), members: vec![] };
        let _ = handle_leave(&mut g, &req, 2, NOW);
    }
    assert!(g.state == GroupState::Empty);
    assert!(g.leader_id == None);
    assert!(g.protocol_name == None);
}

#[test]
fn classic_leave_result_uses_the_wire_versions_error_shape() {
    let unknown = || MemberResponse {
        member_id: s(""),
        group_instance_id: None,
        error_code: codes::UNKNOWN_MEMBER_ID,
    };
    let legacy = classic_leave_result(2, Ok(vec![unknown()]));
    assert!(legacy.error_code == codes::UNKNOWN_MEMBER_ID);
    assert!(legacy.members[0].error_code == codes::UNKNOWN_MEMBER_ID);

    let batched = classic_leave_result(3, Ok(vec![unknown()]));
    assert!(batched.error_code == codes::NONE);
    assert!(batched.members[0].error_code == codes::UNKNOWN_MEMBER_ID);

    let failed = classic_leave_result(3, Err(codes::COORDINATOR_LOAD_IN_PROGRESS));
    assert!(failed.error_code == codes::COORDINATOR_LOAD_IN_PROGRESS);
    assert!(failed.members.is_empty());
}

// ── offset validation ──

#[test]
fn validate_commit_branches() {
    let mut g = stable_two_member_group();
    g.state = GroupState::Stable;
    for (member, instance, gen_id, want) in [
        ("", None, -1, None),
        ("ghost", None, g.generation_id, Some(codes::UNKNOWN_MEMBER_ID)),
        ("m1", None, g.generation_id + 9, Some(codes::ILLEGAL_GENERATION)),
        ("m1", None, g.generation_id, None),
        ("", Some(s("nope")), g.generation_id, Some(codes::UNKNOWN_MEMBER_ID)),
    ] {
        assert!(validate_commit(&g, &s(member), &instance, gen_id) == want);
    }
    g.static_members.insert(s("i2"), s("m2"));
    assert!(
        validate_commit(&g, &s("m1"), &Some(s("i2")), g.generation_id)
            == Some(codes::FENCED_INSTANCE_ID)
    );
}

#[test]
fn offset_commit_follows_kafka_classic_group_rule() {
    let cases: [(GroupState, &str, Option<&str>, Option<i32>, Result<(), i16>); 16] = [
        (GroupState::Empty, "", None, Some(-1), Ok(())),
        (GroupState::Empty, "ghost", None, Some(-1), Ok(())),
        (GroupState::Stable, "", None, Some(-1), Err(codes::UNKNOWN_MEMBER_ID)),
        (GroupState::PreparingRebalance, "", None, Some(-1), Err(codes::UNKNOWN_MEMBER_ID)),
        (GroupState::Stable, "", None, None, Err(codes::UNKNOWN_MEMBER_ID)),
        (GroupState::Empty, "", None, Some(0), Err(codes::UNKNOWN_MEMBER_ID)),
        (GroupState::Stable, "ghost", None, None, Err(codes::UNKNOWN_MEMBER_ID)),
        (GroupState::Stable, "m1", None, Some(-1), Err(codes::ILLEGAL_GENERATION)),
        (GroupState::Stable, "m1", None, Some(99), Err(codes::ILLEGAL_GENERATION)),
        (GroupState::Stable, "m1", None, None, Ok(())),
        (GroupState::PreparingRebalance, "m1", None, None, Ok(())),
        (GroupState::CompletingRebalance, "m1", None, None, Err(codes::REBALANCE_IN_PROGRESS)),
        (GroupState::Stable, "", Some("i1"), None, Err(codes::FENCED_INSTANCE_ID)),
        (GroupState::Stable, "m2", Some("i1"), None, Err(codes::FENCED_INSTANCE_ID)),
        (GroupState::Stable, "m1", Some("i9"), None, Err(codes::UNKNOWN_MEMBER_ID)),
        (GroupState::Stable, "m1", Some("i1"), None, Ok(())),
    ];
    let mut group = stable_two_member_group();
    group.static_members.insert(s("i1"), s("m1"));
    let current = group.generation_id;
    for (state, member, instance, generation, want) in cases {
        group.state = state;
        let generation = generation.unwrap_or(current);
        let got =
            validate_offset_commit(&group, &s(member), &instance.map(String::from), generation);
        assert!(got == want, "{:?} {} {:?} {}", state, member, instance, generation);
    }
}

#[test]
fn commit_refreshes_the_session_in_stable_and_preparing_rebalance() {
    for (state, refreshed) in [
        (GroupState::Empty, false),
        (GroupState::PreparingRebalance, true),
        (GroupState::CompletingRebalance, false),
        (GroupState::Stable, true),
    ] {
        let mut group = stable_two_member_group();
        group.state = state;
        update_member(&mut group, "m1", |m| m.last_heartbeat = NOW - 60_000);
        refresh_committer_session(&mut group, &s("m1"), NOW);
        refresh_committer_session(&mut group, &s("ghost"), NOW);
        assert!((member(&group, "m1").last_heartbeat > NOW - 60_000) == refreshed);
    }
}
