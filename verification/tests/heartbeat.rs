use std::cell::Cell;

use krabka_coordinator::assignor::{Assignor, TopicMetadata, UniformAssignor};
use krabka_coordinator::codes;
use krabka_coordinator::config::NextGenConfig;
use krabka_coordinator::consumer_state::{pick_assignor, run_reconcile, GroupState, MemberAssignmentState, MetadataProvider, ReconcileInput};
use krabka_coordinator::heartbeat::{
    build_member, leave_step, reported_owned, resolve_leaving_member, step_heartbeat, step_heartbeat_with_id,
    try_build_member, update_member_state, validate_epoch, ClientIdentity,
    ConsumerGroupHeartbeatRequest, ConsumerGroupHeartbeatResponse, HeartbeatStep, TopicPartitions,
};
use krabka_coordinator::ordmap::{OrdMap, OrdSet};
use krabka_coordinator::partitions::Partitions;
use krabka_coordinator::pending_records::Entry;
use krabka_coordinator::regexes::{check_subscribed_topic_regex, re2j_unsupported_inline_flag, regex_verdict};

const NOW: u64 = 1_000_000;

const IDENTITY_TOPIC: u128 = 0x0909_0909;

fn s(text: &str) -> String {
    text.to_string()
}

fn standard() -> NextGenConfig<UniformAssignor> {
    NextGenConfig::standard()
}

fn client(id: &str, host: &str) -> ClientIdentity {
    ClientIdentity { id: s(id), host: s(host) }
}

fn nobody() -> OrdSet<String> {
    OrdSet::new()
}

fn names(list: &[&str]) -> OrdSet<String> {
    let mut out = OrdSet::new();
    for name in list {
        out.insert(s(name));
    }
    out
}

fn parts(topic: u128, list: &[i32]) -> Partitions {
    let mut out = OrdMap::new();
    out.insert(topic, list.to_vec());
    out
}

fn input(topics: &[(&str, u128, i32)]) -> ReconcileInput {
    let mut topic_id_by_name = OrdMap::new();
    let mut partitions_per_topic = OrdMap::new();
    for (name, id, count) in topics {
        topic_id_by_name.insert(s(name), *id);
        partitions_per_topic.insert(*id, *count);
    }
    ReconcileInput { topic_id_by_name, topics: TopicMetadata { partitions_per_topic, partition_racks: OrdMap::new() } }
}

fn blank() -> ConsumerGroupHeartbeatRequest {
    ConsumerGroupHeartbeatRequest {
        group_id: s("g"),
        member_id: String::new(),
        member_epoch: 0,
        instance_id: None,
        rack_id: None,
        rebalance_timeout_ms: 60_000,
        subscribed_topic_names: None,
        subscribed_topic_regex: None,
        server_assignor: None,
        topic_partitions: None,
    }
}

fn beat(member_id: &str, member_epoch: i32, topic: Option<&str>) -> ConsumerGroupHeartbeatRequest {
    ConsumerGroupHeartbeatRequest {
        member_id: s(member_id),
        member_epoch,
        subscribed_topic_names: topic.map(|t| vec![s(t)]),
        ..blank()
    }
}

fn step(state: &mut GroupState, input: &ReconcileInput, req: &ConsumerGroupHeartbeatRequest) -> HeartbeatStep {
    step_heartbeat(state, &standard(), input, req, &client("c", "h"), NOW, &nobody())
}

fn sorted_ids<T>(entries: &[Entry<T>]) -> Vec<String> {
    let mut out: Vec<String> = entries.iter().map(|e| e.member_id.clone()).collect();
    out.sort_unstable();
    out
}

struct IdentityRow {
    name: &'static str,
    release_s1_first: bool,
    member_id: &'static str,
    instance_id: Option<&'static str>,
    member_epoch: i32,
    owned: Option<Vec<i32>>,
    expected: ConsumerGroupHeartbeatResponse,
    members_after: Vec<(&'static str, i32)>,
    i1_after: Option<&'static str>,
}

impl IdentityRow {
    fn new(
        name: &'static str,
        (member_id, instance_id, member_epoch): (&'static str, Option<&'static str>, i32),
        owned: Option<Vec<i32>>,
        expected: ConsumerGroupHeartbeatResponse,
    ) -> Self {
        Self {
            name,
            release_s1_first: false,
            member_id,
            instance_id,
            member_epoch,
            owned,
            expected,
            members_after: vec![("m1", 5), ("s1", 5)],
            i1_after: Some("s1"),
        }
    }
}

fn heartbeat_interval_ms() -> i32 {
    i32::try_from(standard().heartbeat_interval).unwrap()
}

fn identity_ok(member_id: &str, member_epoch: i32, partitions: Option<Vec<i32>>) -> ConsumerGroupHeartbeatResponse {
    ConsumerGroupHeartbeatResponse {
        error_code: codes::NONE,
        error_message: None,
        member_id: Some(s(member_id)),
        member_epoch,
        heartbeat_interval_ms: heartbeat_interval_ms(),
        assignment: partitions.map(|partitions| parts(IDENTITY_TOPIC, &partitions)),
    }
}

fn identity_error(error_code: i16, message: &str) -> ConsumerGroupHeartbeatResponse {
    ConsumerGroupHeartbeatResponse {
        error_code,
        error_message: Some(s(message)),
        member_id: None,
        member_epoch: 0,
        heartbeat_interval_ms: heartbeat_interval_ms(),
        assignment: None,
    }
}

fn fenced_epoch(direction: &str, received: i32) -> ConsumerGroupHeartbeatResponse {
    identity_error(
        codes::FENCED_MEMBER_EPOCH,
        &format!(
            "The consumer group member has a {direction} member epoch ({received}) than the one \
             known by the group coordinator (5). The member must abandon all its partitions and \
             rejoin."
        ),
    )
}

fn fenced_by_s1() -> ConsumerGroupHeartbeatResponse {
    identity_error(
        codes::FENCED_INSTANCE_ID,
        "Static member m9 with instance id i1 was fenced by member s1.",
    )
}

fn identity_rows() -> Vec<IdentityRow> {
    vec![
        IdentityRow {
            members_after: vec![("m1", 5), ("s1", -2)],
            ..IdentityRow::new(
                "static member leaves with epoch -2",
                ("s1", Some("i1"), -2),
                None,
                identity_ok("s1", -2, None),
            )
        },
        IdentityRow {
            release_s1_first: true,
            members_after: vec![("m1", 5), ("s2", 5)],
            i1_after: Some("s2"),
            ..IdentityRow::new(
                "new member takes a released instance id",
                ("s2", Some("i1"), 0),
                Some(vec![]),
                identity_ok("s2", 5, Some(vec![2, 3])),
            )
        },
        IdentityRow::new(
            "new member with an unreleased instance id",
            ("s2", Some("i1"), 0),
            Some(vec![]),
            identity_error(
                codes::UNRELEASED_INSTANCE_ID,
                "Static member s2 with instance id i1 cannot join the group because the instance \
                 id is owned by s1 member.",
            ),
        ),
        IdentityRow::new(
            "known member rejoins with epoch 0",
            ("m1", None, 0),
            Some(vec![]),
            identity_ok("m1", 5, Some(vec![0, 1])),
        ),
        IdentityRow::new(
            "previous epoch with a subset of the assignment",
            ("m1", None, 4),
            Some(vec![0]),
            identity_ok("m1", 5, Some(vec![0, 1])),
        ),
        IdentityRow::new(
            "previous epoch with a superset of the assignment",
            ("m1", None, 4),
            Some(vec![0, 1, 2]),
            fenced_epoch("smaller", 4),
        ),
        IdentityRow::new(
            "epoch older than the previous epoch",
            ("m1", None, 3),
            Some(vec![0]),
            fenced_epoch("smaller", 3),
        ),
        IdentityRow::new(
            "greater epoch",
            ("m1", None, 6),
            Some(vec![0, 1]),
            fenced_epoch("greater", 6),
        ),
        IdentityRow::new(
            "leave of an unknown member",
            ("ghost", None, -1),
            None,
            identity_error(codes::UNKNOWN_MEMBER_ID, "Member ghost is not a member of group g."),
        ),
        IdentityRow {
            members_after: vec![("s1", 5)],
            ..IdentityRow::new(
                "dynamic member leaves with epoch -1",
                ("m1", None, -1),
                None,
                identity_ok("m1", -1, None),
            )
        },
        IdentityRow::new(
            "static heartbeat from another member id",
            ("m9", Some("i1"), 5),
            Some(vec![2, 3]),
            fenced_by_s1(),
        ),
        IdentityRow::new(
            "static leave from another member id",
            ("m9", Some("i1"), -2),
            None,
            fenced_by_s1(),
        ),
        IdentityRow::new(
            "static heartbeat with an unknown instance id",
            ("s1", Some("i9"), 5),
            Some(vec![2, 3]),
            identity_error(codes::UNKNOWN_MEMBER_ID, "Instance id i9 is unknown."),
        ),
    ]
}

fn identity_request(member_id: &str, instance_id: Option<&str>, member_epoch: i32, owned: Option<Vec<i32>>) -> ConsumerGroupHeartbeatRequest {
    ConsumerGroupHeartbeatRequest {
        instance_id: instance_id.map(str::to_string),
        topic_partitions: owned.map(|partitions| vec![TopicPartitions { topic_id: IDENTITY_TOPIC, partitions }]),
        ..beat(member_id, member_epoch, Some("t"))
    }
}

/// A dynamic member `m1` on partitions 0 and 1 and a static member `s1` (instance `i1`) on partitions
/// 2 and 3, both at epoch 5 with previous epoch 4, and a settled target.
fn identity_group() -> GroupState {
    let mut state = GroupState::new(s("g"));
    state.group_epoch = 5;
    for (member_id, instance_id, partitions) in [("m1", None, vec![0, 1]), ("s1", Some("i1"), vec![2, 3])] {
        let mut member = build_member(
            &s(member_id),
            &identity_request(member_id, instance_id, 0, None),
            &client("c", "h"),
            NOW,
            &nobody(),
        );
        member.member_epoch = 5;
        member.previous_member_epoch = 4;
        member.assigned_partitions = parts(IDENTITY_TOPIC, &partitions);
        state.add_or_update_member(member);
        state.target.per_member.insert(s(member_id), parts(IDENTITY_TOPIC, &partitions));
    }
    state.target.epoch = 5;
    state.dirty = false;
    state
}

#[test]
fn heartbeat_identity_rules_follow_kafka() {
    let topics = input(&[("t", IDENTITY_TOPIC, 4)]);
    for row in identity_rows() {
        let mut state = identity_group();
        if row.release_s1_first {
            let released = step(&mut state, &topics, &identity_request("s1", Some("i1"), -2, None));
            assert_eq!(released.response.error_code, codes::NONE, "{}", row.name);
        }
        let got = step(
            &mut state,
            &topics,
            &identity_request(row.member_id, row.instance_id, row.member_epoch, row.owned),
        );
        let members: Vec<(&str, i32)> = (0..state.members.len())
            .map(|i| {
                let m = state.members.value_at(i);
                (m.member_id.as_str(), m.member_epoch)
            })
            .collect();
        assert_eq!(got.response, row.expected, "{}", row.name);
        assert_eq!(members, row.members_after, "{}", row.name);
        assert_eq!(state.current_member_for_instance(&s("i1")).as_deref(), row.i1_after, "{}", row.name);
    }
}

fn written<T>(records: &[Entry<T>]) -> Vec<(String, bool)> {
    let mut out: Vec<(String, bool)> = records.iter().map(|e| (e.member_id.clone(), e.value.is_some())).collect();
    out.sort_unstable();
    out
}

#[test]
fn static_replacement_writes_new_records_and_tombstones_the_released_member() {
    let none = ReconcileInput::empty();
    let join = |member_id: &str, member_epoch: i32| identity_request(member_id, Some("i1"), member_epoch, Some(vec![]));
    let mut state = GroupState::new(s("g"));
    let joined = step(&mut state, &none, &join("s1", 0));
    assert_eq!(joined.response.error_code, codes::NONE);

    let left = step(&mut state, &none, &join("s1", -2));
    let current: Vec<(&str, Option<i32>)> = left
        .pending
        .current_per_member
        .iter()
        .map(|e| (e.member_id.as_str(), e.value.as_ref().map(|value| value.member_epoch)))
        .collect();
    assert_eq!(current, vec![("s1", Some(-2))]);
    assert!(left.pending.member_metadata.is_empty());
    assert!(left.pending.group_metadata.is_none());

    let replaced = step(
        &mut state,
        &none,
        &ConsumerGroupHeartbeatRequest {
            rack_id: Some(s("rack-b")),
            rebalance_timeout_ms: 12_345,
            ..join("s2", 0)
        },
    );
    assert_eq!(replaced.response.error_code, codes::NONE);
    assert_eq!(replaced.response.member_epoch, joined.response.member_epoch);
    let expected = vec![(s("s1"), false), (s("s2"), true)];
    assert_eq!(written(&replaced.pending.member_metadata), expected);
    assert_eq!(written(&replaced.pending.target_per_member), expected);
    assert_eq!(written(&replaced.pending.current_per_member), expected);
    let metadata_of_s2 = replaced
        .pending
        .member_metadata
        .iter()
        .find_map(|e| if e.member_id == "s2" { e.value.as_ref() } else { None })
        .expect("s2 member metadata");
    assert_eq!(metadata_of_s2.rack_id.as_deref(), Some("rack-b"));
    assert_eq!(metadata_of_s2.rebalance_timeout_ms, 12_345);
}

#[test]
fn leave_reconciles_and_persists_survivor_assignments() {
    let topic_id: u128 = 0x0808;
    let topics = input(&[("t", topic_id, 2)]);
    let mut state = GroupState::new(s("g"));
    for member_id in ["m1", "m2"] {
        state.add_or_update_member(build_member(
            &s(member_id),
            &beat("", 0, Some("t")),
            &client("client", "host"),
            NOW,
            &nobody(),
        ));
    }
    state.reconcile_if_dirty(&topics, &standard());
    let epoch_before = state.group_epoch;

    let got = step(&mut state, &topics, &beat("m2", -1, None));

    assert_eq!(state.group_epoch, epoch_before + 1);
    assert_eq!(state.target.per_member.get(&s("m1")), Some(&parts(topic_id, &[0, 1])));
    assert!(got.pending.target_per_member.iter().any(|e| e.member_id == "m1" && e.value.is_some()));
    assert!(got.pending.current_per_member.iter().any(|e| e.member_id == "m1" && e.value.is_some()));
    assert!(got.pending.member_metadata.iter().any(|e| e.member_id == "m2" && e.value.is_none()));
}

#[test]
fn step_heartbeat_first_join_targets_all_partitions() {
    let topic_id: u128 = 0x0707;
    let topics = input(&[("t", topic_id, 2)]);
    let mut group = GroupState::new(s("g"));
    let got = step(&mut group, &topics, &beat("m1", 0, Some("t")));
    assert_eq!(got.response.error_code, 0);
    assert_eq!(got.response.member_epoch, 1);
    assert_eq!(group.target.per_member.get(&s("m1")), Some(&parts(topic_id, &[0, 1])));
    assert!(!got.pending.is_empty());
}

#[test]
fn subscription_change_persists_every_reconciled_assignment() {
    let topics = input(&[("first", 10, 2), ("second", 11, 2)]);
    let mut state = GroupState::new(s("g"));
    for member_id in ["m1", "m2"] {
        state.add_or_update_member(build_member(
            &s(member_id),
            &beat("", 0, Some("first")),
            &client("client", "host"),
            NOW,
            &nobody(),
        ));
    }
    state.reconcile_if_dirty(&topics, &standard());
    state.advance_member_epoch(&s("m1"));
    state.advance_member_epoch(&s("m2"));
    let member_epoch = state.group_epoch;

    let got = step(&mut state, &topics, &beat("m2", member_epoch, Some("second")));

    assert!(got.pending.target_metadata.is_some());
    assert_eq!(sorted_ids(&got.pending.target_per_member), vec!["m1", "m2"]);
    assert_eq!(sorted_ids(&got.pending.current_per_member), vec!["m1", "m2"]);
}

fn by_pattern(pattern: &str, member_epoch: i32) -> ConsumerGroupHeartbeatRequest {
    ConsumerGroupHeartbeatRequest { subscribed_topic_regex: Some(s(pattern)), ..beat("m1", member_epoch, None) }
}

fn orders() -> ReconcileInput {
    input(&[("orders-eu", 12, 2)])
}

fn group_with_regex_member(pattern: &str) -> GroupState {
    let mut state = GroupState::new(s("g"));
    state.add_or_update_member(build_member(
        &s("m1"),
        &by_pattern(pattern, 0),
        &client("client", "host"),
        NOW,
        &names(&["orders-eu"]),
    ));
    state.reconcile_if_dirty(&orders(), &standard());
    state.advance_member_epoch(&s("m1"));
    state
}

#[test]
fn invalid_regex_on_join_rejects_the_heartbeat() {
    for pattern in ["(", "[a-", "a{2,1}"] {
        let mut state = GroupState::new(s("g"));
        let got = step_heartbeat(
            &mut state,
            &standard(),
            &orders(),
            &by_pattern(pattern, 0),
            &client("client", "host"),
            NOW,
            &names(&["orders-eu"]),
        );
        assert_eq!(got.response.error_code, codes::INVALID_REGULAR_EXPRESSION, "{pattern}");
        let message = got.response.error_message.expect("a message");
        assert!(
            message.starts_with(&format!("SubscribedTopicRegex `{pattern}` is not a valid regular expression: ")),
            "{pattern}: {message}"
        );
        assert!(got.pending.is_empty(), "{pattern}");
        assert!(state.members.is_empty(), "{pattern}");
    }
}

#[test]
fn invalid_regex_on_pattern_change_leaves_member_untouched() {
    for pattern in ["(", "[a-", "a{2,1}"] {
        let mut state = group_with_regex_member("^orders-.*");
        let member_epoch = state.members.get(&s("m1")).unwrap().member_epoch;
        let group_epoch = state.group_epoch;

        let result = update_member_state(
            &mut state,
            &standard(),
            &orders(),
            &by_pattern(pattern, member_epoch),
            &client("other-client", "other-host"),
            NOW,
            &names(&["orders-eu"]),
        );

        assert!(result.is_err(), "{pattern}");
        let member = state.members.get(&s("m1")).unwrap();
        assert_eq!(member.subscribed_topic_regex.as_deref(), Some("^orders-.*"), "{pattern}");
        assert_eq!(member.client_id, "client", "{pattern}");
        assert_eq!(member.member_epoch, member_epoch, "{pattern}");
        assert!(!state.dirty, "{pattern}");
        assert_eq!(state.group_epoch, group_epoch, "{pattern}");
    }
}

#[test]
fn valid_regex_still_reconciles() {
    let mut state = GroupState::new(s("g"));
    let got = step_heartbeat(
        &mut state,
        &standard(),
        &orders(),
        &by_pattern("^orders-.*", 0),
        &client("client", "host"),
        NOW,
        &names(&["orders-eu"]),
    );
    assert_eq!(got.response.error_code, 0);
    assert!(got.response.error_message.is_none());
    assert_eq!(state.members.get(&s("m1")).unwrap().assigned_partitions, parts(12, &[0, 1]));
}

#[test]
fn a_pattern_reaches_only_topics_that_the_client_may_see() {
    let topics = input(&[("orders-eu", 12, 2), ("orders-us", 13, 2), ("payments", 14, 2)]);
    let mut state = GroupState::new(s("g"));
    step_heartbeat(
        &mut state,
        &standard(),
        &topics,
        &by_pattern("^orders-.*", 0),
        &client("client", "host"),
        NOW,
        &names(&["orders-eu", "payments"]),
    );
    assert_eq!(state.members.get(&s("m1")).unwrap().assigned_partitions, parts(12, &[0, 1]));
}

#[test]
fn regex_acceptance_matches_re2j() {
    for (pattern, accepted) in [
        (r"\d+", true),
        (r"\w+", true),
        (r"x", true),
        (r"\pN", true),
        (r"\p{Greek}", true),
        (r"(?P<name>a)", true),
        (r"(?<name>a)", true),
        ("(", false),
        ("[a-", false),
        ("(?i)abc", true),
        ("(?im)abc", true),
        ("(?i-s)abc", true),
        ("(?U)a+", true),
        ("(?i:abc)", true),
        ("(?:abc)", true),
        ("(?x) a b c", false),
        ("(?x:abc)", false),
        ("(?iu)abc", false),
        ("(?-u)abc", false),
        ("(?R)abc", false),
        (r"\(?abc", true),
        ("[(?x]abc", true),
        (r"a\[(?x)", false),
    ] {
        assert_eq!(check_subscribed_topic_regex(pattern).is_ok(), accepted, "{pattern}");
    }
}

#[test]
fn an_re2j_unsupported_flag_carries_kafkas_message() {
    assert_eq!(
        check_subscribed_topic_regex("(?x)abc"),
        Err(s("SubscribedTopicRegex `(?x)abc` is not a valid regular expression: \
               invalid or unsupported Perl syntax."))
    );
    assert_eq!(re2j_unsupported_inline_flag("(?x)abc"), Some('x'));
    assert_eq!(re2j_unsupported_inline_flag("(?i)abc"), None);
}

#[test]
fn a_pattern_that_does_not_compile_carries_the_reason() {
    assert_eq!(
        regex_verdict("(", Some(s("unclosed group"))),
        Err(s("SubscribedTopicRegex `(` is not a valid regular expression: unclosed group."))
    );
    assert_eq!(regex_verdict("a", None), Ok(()));
}

#[test]
fn unicode_digit_class_cannot_change_a_topic_name_match() {
    let re = regex::Regex::new(r"^t\d+$").expect("compiles");
    assert!(re.is_match("t42"));
    assert!(!re.is_match("t-42"));
    assert!(re.is_match("t\u{0663}"));
}

#[test]
fn pick_assignor_skips_unregistered_member_preference() {
    let config = standard();
    let mut state = GroupState::new(s("g"));
    let mut m = build_member(&s("m1"), &blank(), &client("client-a", "h"), NOW, &nobody());
    m.server_assignor = Some(s("ghost"));
    state.members.insert(s("m1"), m);
    assert_eq!(config.assignors[pick_assignor(&state, &config)].name(), "uniform");
}

#[test]
fn an_unsupported_assignor_is_refused() {
    let mut state = GroupState::new(s("g"));
    let got = step(
        &mut state,
        &ReconcileInput::empty(),
        &ConsumerGroupHeartbeatRequest { server_assignor: Some(s("ghost")), ..beat("m1", 0, Some("t")) },
    );
    assert_eq!(got.response.error_code, codes::UNSUPPORTED_ASSIGNOR);
    assert!(got.pending.is_empty());
    assert!(state.members.is_empty());
}

#[test]
fn a_minted_id_is_told_to_a_member_without_one() {
    let mut state = GroupState::new(s("g"));
    let got = step_heartbeat_with_id(
        &mut state,
        &standard(),
        &ReconcileInput::empty(),
        &beat("", 0, Some("t")),
        &s("minted"),
        &client("c", "h"),
        NOW,
        &nobody(),
    );
    assert_eq!(got.response.member_id.as_deref(), Some("minted"));
    assert!(state.members.contains_key(&s("minted")));

    let other = step(&mut state, &ReconcileInput::empty(), &beat("", 0, Some("t")));
    let id = other.response.member_id.expect("an id");
    assert_eq!(id.len(), 36);
    assert_ne!(id, "minted");
    assert_eq!(id.as_bytes()[14], b'4');
    assert!(state.members.contains_key(&id));
}

#[test]
fn partitions_move_only_once_they_are_given_up() {
    let topics = input(&[("t", 7, 2)]);
    let mut state = GroupState::new(s("g"));
    let first = step(&mut state, &topics, &beat("m1", 0, Some("t")));
    assert_eq!(first.response.assignment, Some(parts(7, &[0, 1])));
    let own = |list: &[i32], member_id: &str, epoch: i32| ConsumerGroupHeartbeatRequest {
        topic_partitions: Some(vec![TopicPartitions { topic_id: 7, partitions: list.to_vec() }]),
        ..beat(member_id, epoch, Some("t"))
    };

    let second = step(&mut state, &topics, &beat("m2", 0, Some("t")));
    assert_eq!(second.response.assignment, Some(OrdMap::new()));
    assert_eq!(state.members.get(&s("m2")).unwrap().assignment_state, MemberAssignmentState::UnreleasedPartitions);

    let shrunk = step(&mut state, &topics, &own(&[0, 1], "m1", 1));
    assert_eq!(shrunk.response.assignment, Some(parts(7, &[0])));
    let m1 = state.members.get(&s("m1")).unwrap();
    assert_eq!(m1.assignment_state, MemberAssignmentState::UnrevokedPartitions);
    assert_eq!(m1.partitions_pending_revocation, parts(7, &[1]));
    let still = step(&mut state, &topics, &beat("m2", second.response.member_epoch, Some("t")));
    assert_eq!(still.response.error_code, codes::NONE);
    assert_eq!(state.members.get(&s("m2")).unwrap().assigned_partitions, OrdMap::new());

    step(&mut state, &topics, &own(&[0], "m1", shrunk.response.member_epoch));
    step(&mut state, &topics, &own(&[], "m2", second.response.member_epoch));
    assert_eq!(state.members.get(&s("m1")).unwrap().assigned_partitions, parts(7, &[0]));
    assert_eq!(state.members.get(&s("m2")).unwrap().assigned_partitions, parts(7, &[1]));
}

#[test]
fn a_member_that_reports_nothing_owns_what_it_is_assigned() {
    let topics = input(&[("t", 7, 2)]);
    let mut state = GroupState::new(s("g"));
    step(&mut state, &topics, &beat("m1", 0, Some("t")));
    let second = step(&mut state, &topics, &beat("m2", 0, Some("t")));
    let shrunk = step(&mut state, &topics, &beat("m1", 1, Some("t")));
    assert_eq!(shrunk.response.assignment, Some(parts(7, &[0])));
    assert_eq!(state.members.get(&s("m1")).unwrap().partitions_pending_revocation, parts(7, &[1]));

    let again = step(&mut state, &topics, &beat("m1", shrunk.response.member_epoch, Some("t")));
    assert_eq!(again.response.assignment, Some(parts(7, &[0])));
    assert!(!again.pending.is_empty());
    let m1 = state.members.get(&s("m1")).unwrap();
    assert_eq!(m1.partitions_pending_revocation, OrdMap::new());
    assert_eq!(m1.assignment_state, MemberAssignmentState::Stable);

    let granted = step(&mut state, &topics, &beat("m2", second.response.member_epoch, Some("t")));
    assert_eq!(granted.response.assignment, Some(parts(7, &[1])));
    let quiet = step(&mut state, &topics, &beat("m2", second.response.member_epoch, Some("t")));
    assert_eq!(quiet.response, granted.response);
    assert!(quiet.pending.is_empty());
}

#[test]
fn a_heartbeat_that_leaves_is_decided_on_its_own() {
    let topics = input(&[("t", 7, 2)]);
    let mut state = GroupState::new(s("g"));
    step(&mut state, &topics, &beat("m1", 0, Some("t")));
    step(&mut state, &topics, &beat("m2", 0, Some("t")));
    let left = leave_step(&mut state, &standard(), &topics, &beat("m2", -1, None));
    assert_eq!((left.response.error_code, state.group_epoch), (codes::NONE, 3));
    assert_eq!(state.target.per_member.get(&s("m1")), Some(&parts(7, &[0, 1])));
    assert!(!state.members.contains_key(&s("m2")));
    let unknown = leave_step(&mut state, &standard(), &topics, &beat("m2", -1, None));
    assert_eq!((unknown.response.error_code, state.group_epoch), (codes::UNKNOWN_MEMBER_ID, 3));
}

#[test]
fn the_parts_of_a_heartbeat_answer_on_their_own() {
    let state = identity_group();
    let m1 = state.members.get(&s("m1")).unwrap();
    assert_eq!(validate_epoch(m1, 5, &None), Ok(()));
    assert_eq!(validate_epoch(m1, 6, &None).unwrap_err().code, codes::FENCED_MEMBER_EPOCH);
    assert_eq!(validate_epoch(m1, 4, &None).unwrap_err().code, codes::FENCED_MEMBER_EPOCH);
    assert_eq!(
        resolve_leaving_member(&state, &identity_request("s1", Some("i1"), -2, None)),
        Ok(s("s1"))
    );
    assert_eq!(reported_owned(&identity_request("m1", None, 5, Some(vec![1, 0]))), parts(IDENTITY_TOPIC, &[1, 0]));
    assert_eq!(reported_owned(&blank()), OrdMap::new());
    assert!(try_build_member(&s("m"), &by_pattern("[a-", 0), &client("c", "h"), NOW, &nobody()).is_err());
}

struct Counting {
    looks: Cell<usize>,
}

impl MetadataProvider for Counting {
    fn snapshot(&self) -> ReconcileInput {
        self.looks.set(self.looks.get() + 1);
        input(&[("t", 7, 2)])
    }
}

#[test]
fn the_topics_are_looked_at_only_where_the_target_no_longer_fits() {
    let topics = Counting { looks: Cell::new(0) };
    let mut state = GroupState::new(s("g"));
    run_reconcile(&mut state, &standard(), &topics);
    assert_eq!((topics.looks.get(), state.group_epoch), (0, 0));
    state.add_or_update_member(build_member(&s("m1"), &beat("", 0, Some("t")), &client("c", "h"), NOW, &nobody()));
    run_reconcile(&mut state, &standard(), &topics);
    run_reconcile(&mut state, &standard(), &topics);
    assert_eq!((topics.looks.get(), state.group_epoch), (1, 1));
    assert_eq!(state.target.per_member.get(&s("m1")), Some(&parts(7, &[0, 1])));
}
