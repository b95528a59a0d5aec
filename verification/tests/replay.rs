use krabka_coordinator::classic_state::{ClassicGroup, GroupState as ClassicGroupState, Protocol};
use krabka_coordinator::consumer_state::ReconcileInput;
use krabka_coordinator::directory::{Directory, GroupType};
use krabka_coordinator::group::{CoordinatorGroup, GroupKind, GroupKindTag};
use krabka_coordinator::leave_turn::{plan_delete, plan_streams_delete};
use krabka_coordinator::migration::{convert_consumer_to_classic, downgrade_pending_records};
use krabka_coordinator::ordmap::{Dup, OrdMap};
use krabka_coordinator::persistence::full_pending_records;
use krabka_coordinator::records::{
    ClassicGroupMetadataValue, ClassicMemberMetadata, ClassicMemberRecord, GroupRecord, MemberMetadataValue, NextGenRecord, OffsetEntry,
};
use krabka_coordinator::replay::{apply_group_metadata, LoggedRecord, Replayed};
use krabka_coordinator::share_streams::{ShareCurrentAssignment, ShareMemberMetadata, ShareRecord, StreamsCurrentAssignment, StreamsMemberMetadata, StreamsRecord};
use krabka_coordinator::views::build_describe;
use krabka_coordinator::waiters::classic_batch;
use krabka_coordinator::walk::{finalize, replay_records, LogBatch, Walk};

const NOW: u64 = 1_000_000;

fn s(text: &str) -> String {
    text.to_string()
}

fn value(offset: i64) -> OffsetEntry {
    OffsetEntry {
        offset,
        leader_epoch: -1,
        metadata: String::new(),
        commit_timestamp_ms: 0,
        expire_timestamp_ms: None,
        topic_id: None,
    }
}

fn of(group: &str, record: GroupRecord) -> LoggedRecord {
    LoggedRecord::Group { group_id: s(group), record }
}

fn commit(topic: &str, partition: i32, offset: i64) -> LoggedRecord {
    of("g", GroupRecord::OffsetCommit { topic: s(topic), partition, value: Some(value(offset)) })
}

fn gone(group: &str, topic: &str, partition: i32) -> LoggedRecord {
    of(group, GroupRecord::OffsetCommit { topic: s(topic), partition, value: None })
}

/// A log that keeps each batch where the one before ends.
struct Log {
    batches: Vec<LogBatch>,
    next: i64,
}

impl Log {
    fn new() -> Self {
        Log { batches: Vec::new(), next: 0 }
    }

    fn push(&mut self, producer_id: Option<i64>, records: Vec<LoggedRecord>) {
        let count = records.len() as i32;
        self.batches.push(LogBatch {
            base_offset: self.next,
            last_offset_delta: count - 1,
            producer_id: producer_id.unwrap_or(-1),
            transactional: producer_id.is_some(),
            control: false,
            marker_key: None,
            records,
        });
        self.next += i64::from(count);
    }

    fn mark(&mut self, producer_id: i64, commits: bool) {
        self.batches.push(LogBatch {
            base_offset: self.next,
            last_offset_delta: 0,
            producer_id,
            transactional: true,
            control: true,
            marker_key: Some(vec![0, 0, 0, u8::from(commits)]),
            records: vec![],
        });
        self.next += 1;
    }

    fn replay(&self) -> Replayed {
        replay_records(&self.batches, NOW)
    }
}

fn offset(r: &Replayed, group: &str, topic: &str, partition: i32) -> Option<i64> {
    r.committed.get(&s(group)).and_then(|m| m.get(&(s(topic), partition))).map(|e| e.offset)
}

#[test]
fn replay_records_walks_all_batches() {
    let mut log = Log::new();
    log.push(None, vec![commit("t", 0, 100), commit("t", 1, 101)]);
    log.push(None, vec![commit("t", 2, 202)]);
    let replayed = log.replay();
    assert_eq!(replayed.committed.get(&s("g")).unwrap().len(), 3);
    assert_eq!(offset(&replayed, "g", "t", 0), Some(100));
    assert_eq!(offset(&replayed, "g", "t", 1), Some(101));
    assert_eq!(offset(&replayed, "g", "t", 2), Some(202));
}

#[test]
fn a_walk_skips_what_it_read_before() {
    let mut log = Log::new();
    log.push(None, vec![commit("t", 0, 100), commit("t", 1, 101)]);
    log.push(None, vec![commit("t", 2, 202)]);
    let mut walk = Walk::begin();
    assert_eq!(walk.read_from(&log.batches, 0, NOW), Some(3));
    assert_eq!(walk.end(), log.replay());
}

#[test]
fn replay_applies_only_committed_transactional_offsets() {
    let mut log = Log::new();
    log.push(Some(7), vec![commit("t", 0, 111)]);
    log.mark(7, true);
    log.push(Some(7), vec![commit("t", 1, 222)]);
    log.mark(7, false);
    log.push(Some(7), vec![commit("t", 2, 333)]);
    let replayed = log.replay();
    assert_eq!(replayed.committed.get(&s("g")).unwrap().len(), 1);
    assert_eq!(offset(&replayed, "g", "t", 0), Some(111));
    assert_eq!(offset(&replayed, "g", "t", 1), None);
    assert_eq!(offset(&replayed, "g", "t", 2), None);
    let open = replayed.pending_txn.get(&s("g")).unwrap().get(&7).unwrap();
    assert_eq!(open.len(), 1);
    assert_eq!(open.get(&(s("t"), 2)), Some(&4));
}

#[test]
fn replay_honours_offset_and_group_tombstones() {
    let mut log = Log::new();
    log.push(None, vec![commit("t", 0, 100)]);
    log.push(None, vec![commit("t", 1, 101)]);
    log.push(
        None,
        vec![of(
            "g",
            GroupRecord::ClassicMetadata {
                value: Some(ClassicGroupMetadataValue {
                    protocol_type: s("consumer"),
                    generation: 3,
                    protocol_name: None,
                    leader: None,
                    current_state_timestamp_ms: 777,
                    members: vec![],
                }),
            },
        )],
    );
    log.push(None, vec![gone("g", "t", 0)]);
    let replayed = log.replay();
    assert_eq!(offset(&replayed, "g", "t", 0), None);
    assert_eq!(offset(&replayed, "g", "t", 1), Some(101));
    assert_eq!(replayed.empty_since.get(&s("g")), Some(&777));
    assert!(replayed.classic.contains_key(&s("g")));

    log.push(None, vec![of("g", GroupRecord::ClassicMetadata { value: None })]);
    let replayed = log.replay();
    assert!(!replayed.classic.contains_key(&s("g")));
    assert!(!replayed.empty_since.contains_key(&s("g")));
    assert_eq!(offset(&replayed, "g", "t", 1), Some(101));
}

#[test]
fn a_fully_reaped_group_does_not_come_back_after_replay() {
    let mut log = Log::new();
    log.push(None, vec![of("reaped", GroupRecord::OffsetCommit { topic: s("t"), partition: 0, value: Some(value(100)) })]);
    log.push(None, vec![gone("reaped", "t", 0)]);
    log.push(None, vec![of("reaped", GroupRecord::ClassicMetadata { value: None })]);
    let replayed = log.replay();
    assert!(!replayed.committed.contains_key(&s("reaped")));
    assert!(!replayed.classic.contains_key(&s("reaped")));
    let mut dir = Directory::new();
    assert!(!finalize(&mut dir, replayed, &ReconcileInput::empty(), NOW).contains_key(&s("reaped")));
}

fn classic_record(members: Vec<ClassicMemberRecord>) -> ClassicGroupMetadataValue {
    ClassicGroupMetadataValue {
        protocol_type: s("consumer"),
        generation: 3,
        protocol_name: Some(s("range")),
        leader: members.first().map(|m| m.member_id.clone()),
        current_state_timestamp_ms: 0,
        members,
    }
}

fn m1() -> ClassicMemberRecord {
    ClassicMemberRecord {
        member_id: s("m1"),
        group_instance_id: None,
        client_id: s("c1"),
        client_host: s("/127.0.0.1"),
        rebalance_timeout_ms: 60_000,
        session_timeout_ms: 30_000,
        subscription: vec![],
        assignment: b"asn".to_vec(),
    }
}

fn classic_group_record() -> LoggedRecord {
    of("g", GroupRecord::ClassicMetadata { value: Some(classic_record(vec![m1()])) })
}

#[test]
fn a_deleted_group_and_its_offsets_stay_deleted_after_replay() {
    type Row = (&'static str, Vec<LoggedRecord>, Vec<LoggedRecord>, bool, Vec<(&'static str, i32)>);
    let rows: Vec<Row> = vec![
        ("no offsets", vec![], vec![], false, vec![]),
        (
            "two offsets on two topics",
            vec![commit("orders", 0, 10), commit("payments", 3, 30)],
            vec![],
            false,
            vec![("orders", 0), ("payments", 3)],
        ),
        (
            "one pending transactional offset",
            vec![commit("orders", 0, 10)],
            vec![commit("orders", 1, 11)],
            false,
            vec![("orders", 0), ("orders", 1)],
        ),
        (
            "transaction commits after the delete",
            vec![commit("orders", 0, 10)],
            vec![commit("orders", 0, 12), commit("orders", 1, 11)],
            true,
            vec![("orders", 0), ("orders", 1)],
        ),
    ];
    for (name, committed, transactional, commit_after_delete, tombstoned) in rows {
        let mut log = Log::new();
        log.push(None, vec![of("g", GroupRecord::ClassicMetadata { value: Some(classic_record(vec![])) })]);
        if !committed.is_empty() {
            log.push(None, committed);
        }
        if !transactional.is_empty() {
            log.push(Some(7), transactional);
        }
        let mut dir = Directory::new();
        let groups = finalize(&mut dir, log.replay(), &ReconcileInput::empty(), NOW);
        let batch = plan_delete(groups.get(&s("g")).expect("g"), 0).expect("no members");
        let written: Vec<GroupRecord> = batch.records.into_iter().map(|r| r.record).collect();
        let mut expected: Vec<GroupRecord> = tombstoned
            .iter()
            .map(|(topic, partition)| GroupRecord::OffsetCommit { topic: s(topic), partition: *partition, value: None })
            .collect();
        expected.push(GroupRecord::ClassicMetadata { value: None });
        assert_eq!(written, expected, "{name}");

        log.push(None, written.into_iter().map(|r| of("g", r)).collect());
        if commit_after_delete {
            log.mark(7, true);
        }
        let replayed = log.replay();
        assert!(!replayed.committed.contains_key(&s("g")), "{name}");
        assert!(!replayed.pending_txn.contains_key(&s("g")), "{name}");
        let after = finalize(&mut Directory::new(), replayed, &ReconcileInput::empty(), NOW);
        assert!(!after.contains_key(&s("g")), "{name}");
    }
}

fn epoch(epoch: Option<i32>) -> LoggedRecord {
    of("g", GroupRecord::NextGen(NextGenRecord::GroupMetadata { epoch }))
}

fn target_epoch(assignment_epoch: Option<i32>) -> LoggedRecord {
    of("g", GroupRecord::NextGen(NextGenRecord::TargetAssignmentMetadata { assignment_epoch }))
}

fn member(value: Option<MemberMetadataValue>) -> LoggedRecord {
    of("g", GroupRecord::NextGen(NextGenRecord::MemberMetadata { member_id: s("m1"), value }))
}

fn native() -> MemberMetadataValue {
    MemberMetadataValue {
        instance_id: None,
        rack_id: None,
        client_id: s("c1"),
        client_host: s("/127.0.0.1"),
        subscribed_topic_names: vec![s("t")],
        subscribed_topic_regex: None,
        server_assignor: None,
        rebalance_timeout_ms: 60_000,
        classic: None,
    }
}

fn read(records: Vec<LoggedRecord>) -> (Replayed, Directory, OrdMap<String, CoordinatorGroup>) {
    let mut replayed = Replayed::nothing();
    let mut again = Replayed::nothing();
    for r in &records {
        replayed.take_up(r, NOW);
        again.take_up(r, NOW);
    }
    let mut dir = Directory::new();
    let groups = finalize(&mut dir, replayed, &ReconcileInput::empty(), NOW);
    (again, dir, groups)
}

fn classic_of(group: &CoordinatorGroup) -> &ClassicGroup {
    match &group.kind {
        GroupKind::Classic(state) => state,
        GroupKind::Consumer(_) => panic!("a consumer group"),
    }
}

#[test]
fn downgraded_group_replays_as_classic() {
    let (_, dir, groups) = read(vec![
        classic_group_record(),
        of("g", GroupRecord::ClassicMetadata { value: None }),
        epoch(Some(1)),
        member(Some(native())),
        epoch(None),
        member(None),
        classic_group_record(),
    ]);
    assert_ne!(dir.group_type(&s("g")), Some(GroupType::NextGen));
    let group = groups.get(&s("g")).expect("g");
    assert_eq!(group.tag(), GroupKindTag::Classic);
    assert!(classic_of(group).members.contains_key(&s("m1")));
}

#[test]
fn compacted_downgrade_residue_replays_as_classic() {
    let (_, dir, groups) = read(vec![target_epoch(None), classic_group_record()]);
    assert_ne!(dir.group_type(&s("g")), Some(GroupType::NextGen));
    assert!(classic_of(groups.get(&s("g")).expect("g")).members.contains_key(&s("m1")));
}

#[test]
fn surviving_k6_write_resurrects_as_next_gen_without_fix() {
    let (replayed, _, groups) = read(vec![target_epoch(Some(1)), classic_group_record()]);
    assert!(replayed.seeds.contains_key(&s("g")));
    assert_eq!(groups.get(&s("g")).expect("g").tag(), GroupKindTag::Consumer);
}

#[test]
fn upgraded_group_without_tombstone_replays_as_consumer() {
    let (_, dir, groups) = read(vec![epoch(Some(1)), member(Some(native()))]);
    assert_ne!(dir.group_type(&s("g")), Some(GroupType::Classic));
    assert_eq!(groups.get(&s("g")).expect("g").tag(), GroupKindTag::Consumer);
}

#[test]
fn member_with_classic_block_replays_facade() {
    let hosted = MemberMetadataValue {
        classic: Some(ClassicMemberMetadata {
            session_timeout_ms: 30_000,
            supported_protocols: vec![Protocol { name: s("range"), metadata: b"meta".to_vec() }],
            last_synced_assignment: b"asn".to_vec(),
        }),
        ..native()
    };
    let (_, _, groups) = read(vec![epoch(Some(2)), member(Some(hosted))]);
    match &groups.get(&s("g")).expect("g").kind {
        GroupKind::Consumer(state) => {
            let shown = build_describe(state);
            assert_eq!(shown.members[0].member_id, "m1");
            assert!(shown.members[0].is_classic);
        }
        GroupKind::Classic(_) => panic!("a classic group"),
    }
}

#[test]
fn apply_group_metadata_rebuilds_members_and_state() {
    let mut g = ClassicGroup::new(s("g"));
    let v = ClassicGroupMetadataValue {
        protocol_type: s("consumer"),
        generation: 5,
        protocol_name: Some(s("range")),
        leader: Some(s("m1")),
        current_state_timestamp_ms: 0,
        members: vec![ClassicMemberRecord { group_instance_id: Some(s("inst")), ..m1() }],
    };
    apply_group_metadata(&mut g, &v, 0);
    assert_eq!(g.generation_id, 5);
    assert_eq!(g.protocol_type.as_deref(), Some("consumer"));
    assert_eq!(g.leader_id.as_deref(), Some("m1"));
    assert_eq!(g.state, ClassicGroupState::Stable);
    assert_eq!(g.members.get(&s("m1")).unwrap().assignment.as_deref(), Some(b"asn" as &[u8]));
    assert_eq!(g.current_member_id_for_instance(&s("inst")), Some(&s("m1")));

    let mut empty = ClassicGroup::new(s("g2"));
    apply_group_metadata(
        &mut empty,
        &ClassicGroupMetadataValue {
            protocol_type: s("consumer"),
            generation: 0,
            protocol_name: None,
            leader: None,
            current_state_timestamp_ms: 0,
            members: vec![],
        },
        0,
    );
    assert_eq!(empty.state, ClassicGroupState::Empty);
}

#[test]
fn a_classic_group_is_read_back_as_it_was_written() {
    let mut g = ClassicGroup::new(s("g"));
    apply_group_metadata(&mut g, &classic_record(vec![m1()]), NOW);
    let batch = classic_batch(&g, 9);
    assert_eq!(batch.last_offset_delta, 0);
    assert_eq!(batch.records[0].offset_delta, 0);
    let (replayed, _, _) = read(batch.records.into_iter().map(|r| of("g", r.record)).collect());
    assert_eq!(replayed.classic.get(&s("g")), Some(&g));
}

#[test]
fn a_classic_group_is_read_back_over_what_was_read_before() {
    let mut g = ClassicGroup::new(s("g"));
    apply_group_metadata(&mut g, &classic_record(vec![m1()]), NOW);
    let mut member = g.members.remove(&s("m1")).unwrap();
    member.session_timeout = 1 << 40;
    member.rebalance_timeout = 12_345;
    member.assignment = None;
    member.group_instance_id = Some(s("i1"));
    g.members.insert(s("m1"), member);
    g.static_members.insert(s("i1"), s("m1"));
    let mut records = vec![of("g", GroupRecord::ClassicMetadata { value: Some(classic_record(vec![])) })];
    records.extend(classic_batch(&g, 9).records.into_iter().map(|r| of("g", r.record)));
    let (replayed, _, _) = read(records);
    let back = replayed.classic.get(&s("g")).unwrap();
    assert_eq!(back.static_members, g.static_members);
    let m = back.members.get(&s("m1")).unwrap();
    assert_eq!(m.session_timeout, 30_000);
    assert_eq!(m.rebalance_timeout, 12_345);
    assert_eq!(m.assignment, Some(vec![]));
}

#[test]
fn an_open_transaction_alone_makes_no_group() {
    let mut log = Log::new();
    log.push(Some(7), vec![commit("t", 0, 1)]);
    let replayed = log.replay();
    assert!(replayed.pending_txn.contains_key(&s("g")));
    let groups = finalize(&mut Directory::new(), replayed, &ReconcileInput::empty(), NOW);
    assert!(groups.is_empty());
    log.push(None, vec![commit("t", 1, 2)]);
    let groups = finalize(&mut Directory::new(), log.replay(), &ReconcileInput::empty(), NOW);
    assert!(groups.get(&s("g")).unwrap().pending_txn_keys().contains(&(s("t"), 0)));
}

#[test]
fn a_consumer_group_is_read_back_as_it_was_written() {
    let (_, _, groups) = read(vec![epoch(Some(2)), target_epoch(Some(2)), member(Some(native()))]);
    let state = match &groups.get(&s("g")).unwrap().kind {
        GroupKind::Consumer(state) => state,
        GroupKind::Classic(_) => panic!("a classic group"),
    };
    let written = full_pending_records(state).to_batch(&s("g"), 0);
    let (_, _, again) = read(written.records.into_iter().map(|r| of("g", r.record)).collect());
    assert_eq!(again.get(&s("g")).unwrap().kind, GroupKind::Consumer(state.dup()));

    let classic = convert_consumer_to_classic(state, &ReconcileInput::empty());
    let mut records = vec![epoch(Some(2)), member(Some(native()))];
    records.extend(downgrade_pending_records(state, &classic, 0).to_batch(&s("g"), 0).records.into_iter().map(|r| of("g", r.record)));
    let (replayed, _, _) = read(records);
    assert!(!replayed.seeds.contains_key(&s("g")));
    assert_eq!(replayed.classic.get(&s("g")).unwrap().generation_id, 2);
}

#[test]
fn what_two_partitions_hold_is_joined() {
    let mut one = Log::new();
    one.push(None, vec![commit("t", 0, 1)]);
    let mut two = Log::new();
    two.push(None, vec![of("h", GroupRecord::OffsetCommit { topic: s("t"), partition: 0, value: Some(value(2)) })]);
    let mut all = one.replay();
    all.merge(two.replay());
    assert_eq!(offset(&all, "g", "t", 0), Some(1));
    assert_eq!(offset(&all, "h", "t", 0), Some(2));
}

#[test]
fn share_group_records_replay_into_seed() {
    let share = |record: ShareRecord| LoggedRecord::Share { group_id: s("sg"), record };
    let mut parts = OrdMap::new();
    parts.insert(9u128, vec![0, 1]);
    let mut acc = Replayed::nothing();
    for r in [
        share(ShareRecord::GroupMetadata { epoch: Some(4) }),
        share(ShareRecord::MemberMetadata {
            member_id: s("m1"),
            value: Some(ShareMemberMetadata {
                rack_id: None,
                client_id: s("c1"),
                client_host: s("/127.0.0.1"),
                subscribed_topic_names: vec![s("t")],
            }),
        }),
        share(ShareRecord::CurrentMemberAssignment {
            member_id: s("m1"),
            value: Some(ShareCurrentAssignment { member_epoch: 4, assigned_partitions: parts }),
        }),
    ] {
        acc.take_up(&r, NOW);
    }
    assert_eq!(acc.types.get(&s("sg")), Some(&GroupType::Share));
    let seed = acc.share_seeds.get(&s("sg")).expect("a seed");
    assert_eq!(seed.group_epoch, 4);
    assert!(seed.members.contains_key(&s("m1")));
    assert_eq!(seed.current_per_member.get(&s("m1")).unwrap().member_epoch, 4);

    acc.take_up(&share(ShareRecord::MemberMetadata { member_id: s("m1"), value: None }), NOW);
    assert!(!acc.share_seeds.get(&s("sg")).expect("still there").members.contains_key(&s("m1")));
}

#[test]
fn streams_group_records_replay_into_seed() {
    let streams = |record: StreamsRecord| LoggedRecord::Streams { group_id: s("stg"), record };
    let mut active = OrdMap::new();
    active.insert(s("0"), vec![0, 1]);
    let mut acc = Replayed::nothing();
    for r in [
        streams(StreamsRecord::GroupMetadata { epoch: Some(7) }),
        streams(StreamsRecord::MemberMetadata {
            member_id: s("m1"),
            value: Some(StreamsMemberMetadata {
                instance_id: None,
                rack_id: None,
                client_id: s("c1"),
                client_host: s("/127.0.0.1"),
                process_id: s("p1"),
                user_endpoint: None,
                client_tags: vec![],
                rebalance_timeout_ms: 60_000,
                topology_epoch: 2,
            }),
        }),
        streams(StreamsRecord::CurrentMemberAssignment {
            member_id: s("m1"),
            value: Some(StreamsCurrentAssignment {
                member_epoch: 7,
                previous_member_epoch: 6,
                state: 0,
                active,
                standby: OrdMap::new(),
                warmup: OrdMap::new(),
                active_pending_revocation: OrdMap::new(),
            }),
        }),
    ] {
        acc.take_up(&r, NOW);
    }
    assert_eq!(acc.types.get(&s("stg")), Some(&GroupType::Streams));
    let seed = acc.streams_seeds.get(&s("stg")).expect("a seed");
    assert_eq!(seed.group_epoch, 7);
    assert!(seed.members.contains_key(&s("m1")));
    assert_eq!(seed.current_per_member.get(&s("m1")).unwrap().member_epoch, 7);

    acc.take_up(&streams(StreamsRecord::MemberMetadata { member_id: s("m1"), value: None }), NOW);
    assert!(!acc.streams_seeds.get(&s("stg")).expect("still there").members.contains_key(&s("m1")));
}

#[test]
fn a_deleted_streams_group_is_not_read_back() {
    let mut acc = Replayed::nothing();
    for record in [StreamsRecord::GroupMetadata { epoch: Some(7) }, StreamsRecord::TargetAssignmentMetadata { assignment_epoch: Some(7) }] {
        acc.take_up(&LoggedRecord::Streams { group_id: s("stg"), record }, NOW);
    }
    assert!(acc.streams_seeds.contains_key(&s("stg")));
    for record in plan_streams_delete(Some(0)).unwrap() {
        acc.take_up(&LoggedRecord::Streams { group_id: s("stg"), record }, NOW);
    }
    assert!(!acc.streams_seeds.contains_key(&s("stg")));
    assert!(!acc.types.contains_key(&s("stg")));
}
