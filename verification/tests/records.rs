use krabka_coordinator::assignor::TopicMetadata;
use krabka_coordinator::classic_state::{ClassicGroup, GroupState as ClassicGroupState, Member, Protocol};
use krabka_coordinator::codes;
use krabka_coordinator::commit_validation::{validate_commit_message, validate_consumer_offset_commit, CommitFence};
use krabka_coordinator::consumer_state::{ClassicMemberFacade, GroupState, MemberAssignmentState, MemberState, ReconcileInput};
use krabka_coordinator::group::{CoordinatorGroup, GroupKind};
use krabka_coordinator::heartbeat::{build_member, ClientIdentity, ConsumerGroupHeartbeatRequest};
use krabka_coordinator::hosting::{resolve_consumer_classic_leave, serve_classic_heartbeat, serve_classic_sync};
use krabka_coordinator::offset_delete::{classic_guard, consumer_subscribed_topics, offset_delete_guard, SubscribedTopics};
use krabka_coordinator::ordmap::{OrdMap, OrdSet};
use krabka_coordinator::partitions::Partitions;
use krabka_coordinator::pending_records::{Entry, GroupSeed, PendingRecords};
use krabka_coordinator::persistence::{full_pending_records, snapshot_pending_after_change};
use krabka_coordinator::records::{ClassicMemberMetadata, CurrentMemberAssignmentValue, GroupRecord, MemberMetadataValue, NextGenRecord};
use krabka_coordinator::requests::{LeaveGroupRequest, MemberIdentity};
use krabka_coordinator::seed::apply_seed;
use krabka_coordinator::waiters::{complete_classic_rebalance, turn_away, Parked};
use krabka_coordinator::wire::{decode_subscribed_topics, target_to_consumer_assignment};

const NOW: u64 = 1_000_000;
const TOPIC: u128 = 7;

fn s(text: &str) -> String {
    text.to_string()
}

fn parts(topic: u128, list: &[i32]) -> Partitions {
    let mut out = OrdMap::new();
    out.insert(topic, list.to_vec());
    out
}

fn set(list: &[&str]) -> OrdSet<String> {
    let mut out = OrdSet::new();
    for name in list {
        out.insert(s(name));
    }
    out
}

fn request(topic: Option<&str>) -> ConsumerGroupHeartbeatRequest {
    ConsumerGroupHeartbeatRequest {
        group_id: s("g"),
        member_id: String::new(),
        member_epoch: 0,
        instance_id: None,
        rack_id: None,
        rebalance_timeout_ms: 60_000,
        subscribed_topic_names: topic.map(|t| vec![s(t)]),
        subscribed_topic_regex: None,
        server_assignor: None,
        topic_partitions: None,
    }
}

fn member(id: &str, topic: Option<&str>) -> MemberState {
    build_member(
        &s(id),
        &request(topic),
        &ClientIdentity { id: s("client"), host: s("host") },
        NOW,
        &OrdSet::new(),
    )
}

fn ids<T>(entries: &[Entry<T>]) -> Vec<String> {
    let mut out: Vec<String> = entries.iter().map(|e| e.member_id.clone()).collect();
    out.sort_unstable();
    out
}

fn subscription(version: i16, topics: &[&str]) -> Vec<u8> {
    let mut out = version.to_be_bytes().to_vec();
    out.extend((topics.len() as i32).to_be_bytes());
    for topic in topics {
        out.extend((topic.len() as i16).to_be_bytes());
        out.extend(topic.as_bytes());
    }
    out.extend((-1i32).to_be_bytes());
    if version >= 1 {
        out.extend(0i32.to_be_bytes());
    }
    if version >= 2 {
        out.extend((-1i32).to_be_bytes());
    }
    if version >= 3 {
        out.extend((-1i16).to_be_bytes());
    }
    out
}

#[test]
fn pending_records_empty_yields_empty_batch() {
    let p = PendingRecords::none();
    assert!(p.is_empty());
    assert!(p.to_batch(&s("g"), 0).records.is_empty());
}

fn plain_metadata() -> MemberMetadataValue {
    MemberMetadataValue {
        instance_id: None,
        rack_id: None,
        client_id: s("c"),
        client_host: s("h"),
        subscribed_topic_names: vec![s("t")],
        subscribed_topic_regex: None,
        server_assignor: None,
        rebalance_timeout_ms: 60_000,
        classic: None,
    }
}

#[test]
fn pending_records_offset_deltas_are_sequential() {
    let p = PendingRecords {
        group_metadata: Some(1),
        member_metadata: vec![Entry { member_id: s("m1"), value: Some(plain_metadata()) }],
        target_metadata: Some(1),
        ..PendingRecords::none()
    };
    let batch = p.to_batch(&s("g"), 0);
    assert_eq!(batch.records.len(), 3);
    let deltas: Vec<usize> = batch.records.iter().map(|r| r.offset_delta).collect();
    assert_eq!(deltas, vec![0, 1, 2]);
    assert_eq!(batch.last_offset_delta, 2);
}

#[test]
fn pending_records_tombstone_omits_value() {
    let p = PendingRecords { member_metadata: vec![Entry { member_id: s("m1"), value: None }], ..PendingRecords::none() };
    let batch = p.to_batch(&s("g"), 0);
    assert_eq!(batch.records.len(), 1);
    assert!(batch.records[0].record.is_tombstone());
}

#[test]
fn records_are_written_in_a_fixed_order() {
    let mut p = PendingRecords {
        group_metadata: Some(3),
        target_metadata: Some(4),
        classic_group_metadata_tombstone: true,
        next_gen_group_metadata_tombstone: true,
        next_gen_target_metadata_tombstone: true,
        ..PendingRecords::none()
    };
    p.push_gone(&s("m"));
    let got: Vec<GroupRecord> = p.to_batch(&s("g"), 9).records.into_iter().map(|r| r.record).collect();
    assert_eq!(
        got,
        vec![
            GroupRecord::NextGen(NextGenRecord::GroupMetadata { epoch: Some(3) }),
            GroupRecord::NextGen(NextGenRecord::MemberMetadata { member_id: s("m"), value: None }),
            GroupRecord::NextGen(NextGenRecord::TargetAssignmentMetadata { assignment_epoch: Some(4) }),
            GroupRecord::NextGen(NextGenRecord::TargetAssignmentMember { member_id: s("m"), value: None }),
            GroupRecord::NextGen(NextGenRecord::CurrentMemberAssignment { member_id: s("m"), value: None }),
            GroupRecord::ClassicMetadata { value: None },
            GroupRecord::NextGen(NextGenRecord::GroupMetadata { epoch: None }),
            GroupRecord::NextGen(NextGenRecord::TargetAssignmentMetadata { assignment_epoch: None }),
        ]
    );
}

#[test]
fn pending_delta_populates_cache_including_classic_facade() {
    let topic: u128 = 0xEF;
    let mut state = GroupState::new(s("g"));
    state.group_epoch = 7;
    state.target.epoch = 6;
    let mut m = build_member(
        &s("m1"),
        &request(Some("t")),
        &ClientIdentity { id: s("client-a"), host: s("h") },
        NOW,
        &OrdSet::new(),
    );
    m.member_epoch = 7;
    m.previous_member_epoch = 6;
    m.assigned_partitions.insert(topic, vec![0, 1]);
    m.classic = Some(ClassicMemberFacade {
        generation_id: 7,
        supported_protocols: vec![Protocol { name: s("range"), metadata: b"meta".to_vec() }],
        session_timeout: 45_000,
        last_synced_assignment: b"assigned".to_vec(),
        awaiting_sync: false,
    });
    state.target.per_member.insert(s("m1"), parts(topic, &[0, 1, 2]));
    state.add_or_update_member(m);

    let pending = snapshot_pending_after_change(&state, &vec![s("m1")], true);
    let mut seeds = OrdMap::new();
    pending.apply_to_cache(&mut seeds, &s("g"));

    let mut members = OrdMap::new();
    members.insert(
        s("m1"),
        MemberMetadataValue {
            client_id: s("client-a"),
            classic: Some(ClassicMemberMetadata {
                session_timeout_ms: 45_000,
                supported_protocols: vec![Protocol { name: s("range"), metadata: b"meta".to_vec() }],
                last_synced_assignment: b"assigned".to_vec(),
            }),
            ..plain_metadata()
        },
    );
    let mut target_per_member = OrdMap::new();
    target_per_member.insert(s("m1"), parts(topic, &[0, 1, 2]));
    let mut current_per_member = OrdMap::new();
    current_per_member.insert(
        s("m1"),
        CurrentMemberAssignmentValue {
            member_epoch: 7,
            previous_member_epoch: 6,
            state: MemberAssignmentState::Stable,
            assigned_partitions: parts(topic, &[0, 1]),
            partitions_pending_revocation: OrdMap::new(),
        },
    );
    let expected = GroupSeed { group_epoch: 7, target_epoch: 6, members, target_per_member, current_per_member };
    assert_eq!(seeds.get(&s("g")), Some(&expected));
}

#[test]
fn pending_group_tombstone_removes_cached_seed() {
    let mut seeds = OrdMap::new();
    let mut seed = GroupSeed::blank();
    seed.group_epoch = 7;
    seeds.insert(s("g"), seed);
    PendingRecords { next_gen_group_metadata_tombstone: true, ..PendingRecords::none() }.apply_to_cache(&mut seeds, &s("g"));
    assert!(seeds.get(&s("g")).is_none());
}

#[test]
fn reconciled_snapshot_persists_every_members_assignments() {
    let mut state = GroupState::new(s("g"));
    for id in ["m1", "m2"] {
        state.add_or_update_member(member(id, Some("t")));
    }
    state.group_epoch = 2;
    state.target.epoch = 2;
    state.target.per_member.insert(s("m1"), parts(9, &[0]));
    state.target.per_member.insert(s("m2"), parts(9, &[1]));

    let pending = snapshot_pending_after_change(&state, &vec![s("m2")], true);

    assert_eq!(ids(&pending.member_metadata), vec!["m2"]);
    assert_eq!(ids(&pending.target_per_member), vec!["m1", "m2"]);
    assert_eq!(ids(&pending.current_per_member), vec!["m1", "m2"]);
    assert!(pending.target_metadata.is_some());
}

#[test]
fn full_pending_records_contains_every_member_record() {
    let mut state = GroupState::new(s("g"));
    for id in ["m1", "m2"] {
        state.add_or_update_member(member(id, None));
        state.target.per_member.insert(s(id), OrdMap::new());
    }
    state.group_epoch = 4;
    state.target.epoch = 4;

    let pending = full_pending_records(&state);

    assert_eq!(pending.group_metadata, Some(4));
    assert_eq!(pending.target_metadata, Some(4));
    assert_eq!(pending.member_metadata.len(), 2);
    assert_eq!(pending.target_per_member.len(), 2);
    assert_eq!(pending.current_per_member.len(), 2);
}

#[test]
fn a_group_without_a_target_writes_none() {
    let mut state = GroupState::new(s("g"));
    for id in ["m1", "m2"] {
        state.add_or_update_member(member(id, None));
    }
    state.target.per_member.insert(s("m2"), parts(9, &[1]));
    state.group_epoch = 4;

    let pending = full_pending_records(&state);

    assert_eq!(pending.group_metadata, Some(4));
    assert_eq!(pending.target_metadata, None);
    assert_eq!(ids(&pending.member_metadata), vec!["m1", "m2"]);
    assert_eq!(ids(&pending.target_per_member), vec!["m2"]);
    assert_eq!(ids(&pending.current_per_member), vec!["m1", "m2"]);
    assert!(pending.target_per_member.iter().all(|e| e.value.is_some()));
}

#[test]
fn member_only_snapshot_does_not_rewrite_group_target() {
    let mut state = GroupState::new(s("g"));
    state.add_or_update_member(member("m1", None));

    let pending = snapshot_pending_after_change(&state, &vec![s("m1")], false);

    assert_eq!(pending.member_metadata.len(), 1);
    assert_eq!(pending.current_per_member.len(), 1);
    assert!(pending.target_metadata.is_none());
    assert!(pending.target_per_member.is_empty());
}

fn image() -> ReconcileInput {
    let mut topic_id_by_name = OrdMap::new();
    topic_id_by_name.insert(s("t"), TOPIC);
    let mut partitions_per_topic = OrdMap::new();
    partitions_per_topic.insert(TOPIC, 2);
    ReconcileInput { topic_id_by_name, topics: TopicMetadata { partitions_per_topic, partition_racks: OrdMap::new() } }
}

fn hosted_classic_seed(target: &[i32], assigned: &[i32], pending: &[i32]) -> GroupSeed {
    let mut members = OrdMap::new();
    members.insert(
        s("m"),
        MemberMetadataValue {
            client_host: s("/127.0.0.1"),
            classic: Some(ClassicMemberMetadata {
                session_timeout_ms: 30_000,
                supported_protocols: vec![Protocol { name: s("range"), metadata: b"meta".to_vec() }],
                last_synced_assignment: vec![],
            }),
            ..plain_metadata()
        },
    );
    let mut target_per_member = OrdMap::new();
    target_per_member.insert(s("m"), parts(TOPIC, target));
    let mut current_per_member = OrdMap::new();
    current_per_member.insert(
        s("m"),
        CurrentMemberAssignmentValue {
            member_epoch: 5,
            previous_member_epoch: 4,
            state: MemberAssignmentState::Stable,
            assigned_partitions: parts(TOPIC, assigned),
            partitions_pending_revocation: parts(TOPIC, pending),
        },
    );
    GroupSeed { group_epoch: 5, target_epoch: 5, members, target_per_member, current_per_member }
}

#[test]
fn seed_restores_the_per_member_target() {
    let mut state = GroupState::new(s("g"));
    apply_seed(&mut state, &hosted_classic_seed(&[0, 1], &[0, 1], &[]), &image(), NOW);
    assert_eq!(state.target.epoch, 5);
    assert_eq!(state.target.per_member.get(&s("m")), Some(&parts(TOPIC, &[0, 1])));
}

#[test]
fn seeded_hosted_classic_heartbeat_signals_a_resync_only_when_the_assignment_lags() {
    for (target, assigned, pending, want) in [
        (vec![0, 1], vec![0, 1], vec![], codes::NONE),
        (vec![0, 1], vec![0], vec![], codes::REBALANCE_IN_PROGRESS),
        (vec![0, 1], vec![], vec![], codes::REBALANCE_IN_PROGRESS),
        (vec![0], vec![0], vec![1], codes::REBALANCE_IN_PROGRESS),
        (vec![], vec![], vec![0, 1], codes::REBALANCE_IN_PROGRESS),
    ] {
        let mut state = GroupState::new(s("g"));
        apply_seed(&mut state, &hosted_classic_seed(&target, &assigned, &pending), &image(), NOW);
        let got = serve_classic_heartbeat(&mut state, &s("m"), &image(), NOW);
        assert_eq!(got, want, "target = {target:?}, assigned = {assigned:?}, pending = {pending:?}");
    }
}

#[test]
fn seed_rebuilds_the_blob_a_sync_would_have_sent_for_the_held_partitions() {
    let mut state = GroupState::new(s("g"));
    apply_seed(&mut state, &hosted_classic_seed(&[1], &[1], &[0]), &image(), NOW);
    let facade = state.members.get(&s("m")).unwrap().classic.as_ref().expect("classic facade");
    assert_eq!(facade.last_synced_assignment, target_to_consumer_assignment(&parts(TOPIC, &[0, 1]), &image()));
    assert!(facade.awaiting_sync);
}

#[test]
fn an_assignment_is_laid_out_byte_for_byte() {
    let mut target = parts(TOPIC, &[1, 0]);
    target.insert(99, vec![5]);
    assert_eq!(
        target_to_consumer_assignment(&target, &image()),
        vec![
            0, 0, 0, 0, 0, 1, 0, 1, b't', 0, 0, 0, 2, 0, 0, 0, 0, 0, 0, 0, 1, 255, 255, 255, 255,
        ]
    );
}

#[test]
fn a_subscription_is_read_back_and_junk_is_not() {
    assert_eq!(decode_subscribed_topics(&subscription(0, &["a", "\u{e9}t\u{e9}"])), Some(vec![s("a"), s("\u{e9}t\u{e9}")]));
    assert_eq!(decode_subscribed_topics(&subscription(3, &[])), Some(vec![]));
    assert_eq!(decode_subscribed_topics(&vec![0]), None);
    let mut cut = subscription(0, &["abc"]);
    cut.truncate(9);
    assert_eq!(decode_subscribed_topics(&cut), None);
    let mut bad = subscription(0, &["abc"]);
    bad[9] = 0xff;
    assert_eq!(decode_subscribed_topics(&bad), None);
}

#[test]
fn a_synced_member_is_left_in_peace() {
    let mut state = GroupState::new(s("g"));
    apply_seed(&mut state, &hosted_classic_seed(&[0, 1], &[], &[]), &image(), NOW);
    assert_eq!(serve_classic_heartbeat(&mut state, &s("m"), &image(), NOW), codes::REBALANCE_IN_PROGRESS);
    let synced = serve_classic_sync(&mut state, &s("m"), &image(), NOW);
    assert_eq!(synced.assignment, target_to_consumer_assignment(&parts(TOPIC, &[0, 1]), &image()));
    assert_eq!(synced.protocol_type.as_deref(), Some("consumer"));
    assert_eq!(serve_classic_heartbeat(&mut state, &s("m"), &image(), NOW), codes::NONE);
    assert_eq!(serve_classic_heartbeat(&mut state, &s("ghost"), &image(), NOW), codes::UNKNOWN_MEMBER_ID);
}

fn classic_member(id: &str, protocol: &str, metadata: &[u8]) -> Member {
    Member::new(
        s(id),
        s("client"),
        s("127.0.0.1"),
        30_000,
        60_000,
        vec![Protocol { name: s(protocol), metadata: metadata.to_vec() }],
    )
}

#[test]
fn inconsistent_classic_completion_clears_deadline() {
    let mut state = ClassicGroup::new(s("g"));
    state.protocol_type = Some(s("consumer"));
    state.add_member(classic_member("m1", "range", b""));
    state.add_member(classic_member("m2", "cooperative-sticky", b""));
    state.rebalance_deadline = Some(NOW - 1_000);
    assert_eq!(state.state, ClassicGroupState::PreparingRebalance);
    let mut parked = Parked { joiners: set(&["m1", "m2"]), followers: OrdSet::new() };

    let round = complete_classic_rebalance(&mut state, &mut parked, NOW, 0);

    assert!(state.rebalance_deadline.is_none());
    assert_eq!(round.replies.joins.len(), 2);
    for reply in &round.replies.joins {
        assert_eq!(reply.result.error_code, codes::INCONSISTENT_GROUP_PROTOCOL);
    }
    assert!(parked.joiners.is_empty());
}

#[test]
fn removed_classic_members_drain_parked_waiters() {
    let mut parked = Parked { joiners: set(&["m1"]), followers: set(&["m1"]) };
    let replies = turn_away(&mut parked, &vec![s("m1")], codes::UNKNOWN_MEMBER_ID);
    assert!(parked.joiners.is_empty());
    assert!(parked.followers.is_empty());
    assert_eq!(replies.joins[0].result.error_code, codes::UNKNOWN_MEMBER_ID);
    assert_eq!(replies.syncs[0].result.error_code, codes::UNKNOWN_MEMBER_ID);
}

fn classic(state: ClassicGroupState, protocol_type: Option<&str>, protocol_name: Option<&str>, metadata: &[Vec<u8>]) -> ClassicGroup {
    let mut g = ClassicGroup::new(s("g"));
    g.state = state;
    g.protocol_type = protocol_type.map(String::from);
    g.protocol_name = protocol_name.map(String::from);
    for (i, blob) in metadata.iter().enumerate() {
        let id = format!("m{i}");
        g.members.insert(id.clone(), classic_member(&id, "range", blob));
    }
    g
}

fn named(topics: &[&str]) -> SubscribedTopics {
    SubscribedTopics::Named(set(topics))
}

#[test]
fn classic_guard_follows_kafka() {
    let rows = vec![
        (
            "empty consumer group subscribes to nothing",
            classic(ClassicGroupState::Empty, Some("consumer"), None, &[]),
            Ok(named(&[])),
        ),
        (
            "empty connect group subscribes to nothing",
            classic(ClassicGroupState::Empty, Some("connect"), None, &[]),
            Ok(named(&[])),
        ),
        (
            "stable connect group is not empty",
            classic(ClassicGroupState::Stable, Some("connect"), Some("default"), &[b"x".to_vec()]),
            Err(codes::NON_EMPTY_GROUP),
        ),
        (
            "preparing group without a protocol type is not empty",
            classic(ClassicGroupState::PreparingRebalance, None, None, &[vec![]]),
            Err(codes::NON_EMPTY_GROUP),
        ),
        (
            "consumer group unions its members' topics, any version",
            classic(
                ClassicGroupState::Stable,
                Some("consumer"),
                Some("range"),
                &[subscription(0, &["a", "b"]), subscription(3, &["c"])],
            ),
            Ok(named(&["a", "b", "c"])),
        ),
        (
            "undecodable metadata subscribes to every topic",
            classic(
                ClassicGroupState::CompletingRebalance,
                Some("consumer"),
                Some("range"),
                &[subscription(1, &["a"]), b"\x00".to_vec()],
            ),
            Ok(SubscribedTopics::All),
        ),
        (
            "no protocol selected yet subscribes to every topic",
            classic(ClassicGroupState::PreparingRebalance, Some("consumer"), None, &[subscription(0, &["a"])]),
            Ok(SubscribedTopics::All),
        ),
    ];
    for (name, group, want) in rows {
        assert_eq!(classic_guard(&group), want, "{name}");
        assert_eq!(offset_delete_guard(&CoordinatorGroup::seeded(s("g"), GroupKind::Classic(group), OrdMap::new())), want, "{name}");
    }
    assert!(SubscribedTopics::All.contains("anything"));
    assert!(named(&["a"]).contains("a"));
    assert!(!named(&["a"]).contains("b"));
}

#[test]
fn consumer_group_subscribes_to_names_and_resolved_regex() {
    let mut g = GroupState::new(s("g"));
    let mut by_name = member("m1", None);
    by_name.subscribed_topic_names = set(&["orders"]);
    let mut by_regex = member("m2", None);
    by_regex.subscribed_topic_regex = Some(s("pay.*"));
    by_regex.regex_authorized_topics = set(&["payments", "orders-archive"]);
    g.add_or_update_member(by_name);
    g.add_or_update_member(by_regex);
    assert_eq!(consumer_subscribed_topics(&g), named(&["orders", "payments"]));
}

type ConsumerCase = (&'static [(&'static str, i32, bool)], &'static str, i32, i16, Result<(), i16>);

#[test]
fn consumer_group_offset_commit_follows_kafka_rule() {
    const NATIVE: &[(&str, i32, bool)] = &[("native", 5, false)];
    const CLASSIC: &[(&str, i32, bool)] = &[("classic", 5, true)];
    let cases: [ConsumerCase; 12] = [
        (&[], "", -1, 9, Ok(())),
        (&[], "", -1, 2, Ok(())),
        (NATIVE, "", -1, 9, Err(codes::UNKNOWN_MEMBER_ID)),
        (&[], "ghost", 1, 9, Err(codes::UNKNOWN_MEMBER_ID)),
        (NATIVE, "ghost", 5, 9, Err(codes::UNKNOWN_MEMBER_ID)),
        (NATIVE, "native", 5, 9, Ok(())),
        (NATIVE, "native", 6, 9, Err(codes::STALE_MEMBER_EPOCH)),
        (NATIVE, "native", 4, 9, Err(codes::STALE_MEMBER_EPOCH)),
        (NATIVE, "native", 5, 8, Err(codes::UNSUPPORTED_VERSION)),
        (CLASSIC, "classic", 5, 2, Ok(())),
        (CLASSIC, "classic", 6, 9, Err(codes::ILLEGAL_GENERATION)),
        (CLASSIC, "classic", 4, 9, Err(codes::ILLEGAL_GENERATION)),
    ];
    for (members, member_id, epoch, api_version, want) in cases {
        let mut state = GroupState::new(s("g"));
        for &(id, member_epoch, is_classic) in members {
            let mut m = member(id, None);
            m.member_epoch = member_epoch;
            m.classic = is_classic.then_some(ClassicMemberFacade {
                generation_id: member_epoch,
                supported_protocols: Vec::new(),
                session_timeout: 45_000,
                last_synced_assignment: Vec::new(),
                awaiting_sync: false,
            });
            state.members.insert(s(id), m);
        }
        assert_eq!(
            validate_consumer_offset_commit(&state, &s(member_id), epoch, api_version),
            want,
            "{member_id} {epoch} {api_version}"
        );
        let mut group = CoordinatorGroup::seeded(s("g"), GroupKind::Consumer(state), OrdMap::new());
        assert_eq!(
            validate_commit_message(&mut group, &s(member_id), &None, epoch, CommitFence::Offset { api_version }, NOW),
            want
        );
    }
}

#[test]
fn a_transactional_commit_has_its_own_fence() {
    let mut state = GroupState::new(s("g"));
    let mut m = member("m", None);
    m.member_epoch = 5;
    state.members.insert(s("m"), m);
    assert_eq!(state.validate_commit_decision(&s("m"), 5), Ok(()));
    assert_eq!(state.validate_commit_decision(&s("m"), 4), Err(codes::STALE_MEMBER_EPOCH));
    assert_eq!(state.validate_commit_decision(&s("m"), 6), Err(codes::FENCED_MEMBER_EPOCH));
    assert_eq!(state.validate_commit_decision(&s("ghost"), 5), Err(codes::UNKNOWN_MEMBER_ID));
}

fn identity(member_id: &str, instance: Option<&str>) -> MemberIdentity {
    MemberIdentity { member_id: s(member_id), group_instance_id: instance.map(String::from) }
}

#[test]
fn consumer_classic_leave_resolves_batch_and_static_identities() {
    let mut group = GroupState::new(s("g"));
    group.add_or_update_member(member("m1", None));
    let mut fixed = member("m-static", None);
    fixed.instance_id = Some(s("instance-a"));
    group.add_or_update_member(fixed);
    let req = LeaveGroupRequest {
        group_id: String::new(),
        member_id: String::new(),
        members: vec![
            identity("missing", None),
            identity("", Some("instance-a")),
            identity("stale", Some("instance-a")),
            identity("m1", None),
            identity("m1", None),
        ],
    };

    let (responses, removed) = resolve_consumer_classic_leave(&group, &req, 3);
    let got: Vec<(&str, Option<&str>, i16)> =
        responses.iter().map(|r| (r.member_id.as_str(), r.group_instance_id.as_deref(), r.error_code)).collect();
    assert_eq!(
        got,
        vec![
            ("missing", None, codes::UNKNOWN_MEMBER_ID),
            ("", Some("instance-a"), codes::NONE),
            ("stale", Some("instance-a"), codes::FENCED_INSTANCE_ID),
            ("m1", None, codes::NONE),
            ("m1", None, codes::NONE),
        ]
    );
    assert_eq!(removed, vec![s("m-static"), s("m1")]);
    assert_eq!(group.members.len(), 2);

    let legacy = LeaveGroupRequest { group_id: String::new(), member_id: s("m1"), members: vec![] };
    let (responses, removed) = resolve_consumer_classic_leave(&group, &legacy, 2);
    assert_eq!(responses.len(), 1);
    assert_eq!(responses[0].error_code, codes::NONE);
    assert_eq!(removed, vec![s("m1")]);
}
