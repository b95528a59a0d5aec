use krabka_coordinator::classic_state::{ClassicGroup, GroupState as ClassicGroupState, Member, Protocol};
use krabka_coordinator::classic_sync::handle_leave;
use krabka_coordinator::directory::{sweep_order, Directory, GroupType};
use krabka_coordinator::group::{saturate, CommittedOffset, CoordinatorGroup, GroupKind};
use krabka_coordinator::internal_topics::{
    await_offsets_topic, internal_topic_replication_factor, local_partitions, offsets_topic_ready, plan_audit_topic, plan_audit_topic_with_id, plan_offsets_topic,
    plan_offsets_topic_with_id, plan_start, plan_start_with_id, round_robin_replicas, LocalPartition, OffsetsTopicAction, StartRefusal, SubmitOutcome,
};
use krabka_coordinator::metadata::{MetadataImage, TopicRecord};
use krabka_coordinator::ordmap::{Dup, OrdMap, OrdSet};
use krabka_coordinator::pending_records::GroupSeed;
use krabka_coordinator::records::{GroupRecord, OffsetEntry, RecordBatch};
use krabka_coordinator::requests::LeaveGroupRequest;
use krabka_coordinator::retention::{finish_reap, group_empty_since_ms, plan_reap, settled_empty, ReapOutcome};
use krabka_coordinator::topic_deletion::{applicable_deletions, deleted_topics, finish_topic_deletion, plan_topic_deletion, remember_deletions, DeletedTopic};

const TOPIC: &str = "orders";
const RETENTION_MS: i64 = 60_000;
const CHECK_INTERVAL_MS: i64 = 600_000;
const NOW_MS: i64 = 1_700_000_000_000;

fn s(text: &str) -> String {
    text.to_string()
}

fn key(topic: &str, partition: i32) -> (String, i32) {
    (s(topic), partition)
}

fn entry(offset: i64, commit_timestamp_ms: i64, topic_id: Option<u128>) -> OffsetEntry {
    OffsetEntry { offset, leader_epoch: -1, metadata: String::new(), commit_timestamp_ms, expire_timestamp_ms: None, topic_id }
}

/// The groups of a broker with what it keeps about them.
struct Broker {
    groups: OrdMap<String, CoordinatorGroup>,
    dir: Directory,
    log: Vec<RecordBatch>,
    fail_next: bool,
}

impl Broker {
    fn of(groups: Vec<CoordinatorGroup>) -> Self {
        let mut all = OrdMap::new();
        for g in groups {
            all.insert(g.group_id.clone(), g);
        }
        Broker { groups: all, dir: Directory::new(), log: vec![], fail_next: false }
    }

    fn append(&mut self, batch: &RecordBatch) -> bool {
        if self.fail_next {
            self.fail_next = false;
            return false;
        }
        self.log.push(RecordBatch::of(&batch.group_id, batch.records.iter().map(|r| r.record.dup()).collect(), batch.max_timestamp));
        true
    }

    fn ids(&self) -> Vec<String> {
        (0..self.groups.len()).map(|i| self.groups.key_at(i).clone()).collect()
    }

    fn sweep(&mut self, owned: &[&str], now_ms: i64, retention_ms: i64) -> Vec<(String, ReapOutcome)> {
        let mut mine = OrdSet::new();
        for id in owned {
            mine.insert(s(id));
        }
        let mut out = Vec::new();
        for id in sweep_order(&self.dir, &self.ids(), &mine) {
            let mut group = self.groups.remove(&id).unwrap();
            let outcome = match plan_reap(&group, now_ms, retention_ms, CHECK_INTERVAL_MS) {
                Some(reap) => {
                    let appended = self.append(&reap.batch);
                    finish_reap(&mut group, &mut self.dir.seeds, reap, appended)
                }
                None => ReapOutcome::nothing(),
            };
            if outcome.group_deleted {
                self.dir.forget_group(&id, false);
            } else {
                self.groups.insert(id.clone(), group);
            }
            if outcome.changed() {
                out.push((id, outcome));
            }
        }
        out
    }

    fn group(&mut self, id: &str) -> CoordinatorGroup {
        self.groups.remove(&s(id)).unwrap()
    }

    fn fetched(&self) -> i64 {
        self.groups.get(&s("g")).and_then(|g| g.committed_offsets.get(&key(TOPIC, 0))).map_or(-1, |e| e.offset)
    }

    fn tombstoned(&self, record: GroupRecord) -> bool {
        self.log.iter().any(|b| b.records.iter().any(|r| r.record == record))
    }
}

fn offset_tombstone() -> GroupRecord {
    GroupRecord::OffsetCommit { topic: s(TOPIC), partition: 0, value: None }
}

fn group_tombstone() -> GroupRecord {
    GroupRecord::ClassicMetadata { value: None }
}

fn all_of_it() -> Vec<(String, ReapOutcome)> {
    vec![(s("g"), ReapOutcome { reaped: vec![key(TOPIC, 0)], group_deleted: true })]
}

fn group_with_member() -> CoordinatorGroup {
    let mut state = ClassicGroup::new(s("g"));
    state.protocol_type = Some(s("consumer"));
    state.add_member(Member::new(
        s("m1"),
        s("client"),
        s("127.0.0.1"),
        30_000,
        60_000,
        vec![Protocol { name: s("range"), metadata: vec![] }],
    ));
    state.state = ClassicGroupState::Stable;
    state.generation_id = 1;
    let mut group = CoordinatorGroup::seeded(s("g"), GroupKind::Classic(state), OrdMap::new());
    group.observe_membership(NOW_MS);
    group
}

fn commit(group: &mut CoordinatorGroup, retention: Option<i64>) {
    let mut e = entry(42, NOW_MS, None);
    e.expire_timestamp_ms = retention.map(|r| NOW_MS + r);
    group.update_committed(&vec![CommittedOffset { key: key(TOPIC, 0), entry: e }]);
}

fn remove_last_member(group: &mut CoordinatorGroup) {
    if let GroupKind::Classic(state) = &mut group.kind {
        handle_leave(state, &LeaveGroupRequest { group_id: s("g"), member_id: s("m1"), members: vec![] }, 0, 0);
    }
    group.observe_membership(NOW_MS);
}

fn emptied() -> CoordinatorGroup {
    let mut group = group_with_member();
    commit(&mut group, None);
    remove_last_member(&mut group);
    group
}

#[test]
fn empty_group_loses_its_offsets_after_the_retention() {
    let mut broker = Broker::of(vec![emptied()]);
    assert_eq!(broker.fetched(), 42);
    assert_eq!(broker.sweep(&["g"], NOW_MS + RETENTION_MS + 1, RETENTION_MS), all_of_it());
    assert!(!broker.groups.contains_key(&s("g")));
    assert!(broker.tombstoned(offset_tombstone()));
    assert!(broker.tombstoned(group_tombstone()));
    assert!(broker.sweep(&["g"], NOW_MS + RETENTION_MS + 1, RETENTION_MS).is_empty());
}

#[test]
fn live_group_keeps_its_offsets_across_the_same_interval() {
    let mut group = group_with_member();
    commit(&mut group, None);
    let mut broker = Broker::of(vec![group]);
    assert!(broker.sweep(&["g"], NOW_MS + RETENTION_MS * 10, RETENTION_MS).is_empty());
    assert_eq!(broker.fetched(), 42);
    assert!(!broker.tombstoned(offset_tombstone()));
    assert!(broker.groups.contains_key(&s("g")));
}

#[test]
fn per_commit_retention_time_expires_before_the_broker_default() {
    const PER_COMMIT_MS: i64 = 1_000;
    const BROKER_RETENTION_MS: i64 = 7 * 24 * 60 * 60 * 1_000;
    let mut group = group_with_member();
    commit(&mut group, Some(PER_COMMIT_MS));
    remove_last_member(&mut group);
    let mut broker = Broker::of(vec![group]);
    assert!(broker.sweep(&["g"], NOW_MS + PER_COMMIT_MS - 1, BROKER_RETENTION_MS).is_empty());
    assert_eq!(broker.sweep(&["g"], NOW_MS + PER_COMMIT_MS, BROKER_RETENTION_MS).len(), 1);
    assert_eq!(broker.fetched(), -1);
}

#[test]
fn a_group_this_broker_does_not_own_is_not_swept() {
    let mut broker = Broker::of(vec![emptied()]);
    assert!(broker.sweep(&[], NOW_MS + RETENTION_MS + 1, RETENTION_MS).is_empty());
    assert_eq!(broker.fetched(), 42);
}

#[test]
fn a_streams_group_offset_home_is_not_swept() {
    let mut broker = Broker::of(vec![emptied()]);
    broker.dir.types.insert(s("g"), GroupType::Streams);
    assert!(broker.sweep(&["g"], NOW_MS + RETENTION_MS + 1, RETENTION_MS).is_empty());
    assert_eq!(broker.fetched(), 42);
}

#[test]
fn a_broker_with_no_groups_sweeps_nothing() {
    let mut broker = Broker::of(vec![]);
    assert!(broker.sweep(&["g"], NOW_MS + RETENTION_MS + 1, RETENTION_MS).is_empty());
}

#[test]
fn an_empty_group_that_holds_no_offsets_is_reaped() {
    let mut group = CoordinatorGroup::new_classic(s("g"));
    group.observe_membership(NOW_MS);
    let mut broker = Broker::of(vec![group]);
    assert!(broker.sweep(&["g"], NOW_MS, RETENTION_MS).is_empty());
    assert_eq!(
        broker.sweep(&["g"], NOW_MS + CHECK_INTERVAL_MS, RETENTION_MS),
        vec![(s("g"), ReapOutcome { reaped: vec![], group_deleted: true })]
    );
    assert!(!broker.groups.contains_key(&s("g")));
    assert!(broker.tombstoned(group_tombstone()));
}

#[test]
fn a_group_whose_last_offset_was_deleted_is_reaped_next_pass() {
    let mut group = emptied();
    group.remove_committed(&vec![key(TOPIC, 0)]);
    let mut broker = Broker::of(vec![group]);
    assert_eq!(
        broker.sweep(&["g"], NOW_MS + CHECK_INTERVAL_MS, RETENTION_MS),
        vec![(s("g"), ReapOutcome { reaped: vec![], group_deleted: true })]
    );
    assert!(!broker.groups.contains_key(&s("g")));
}

#[test]
fn a_replacement_actor_keeps_its_type_and_seed_when_the_reaped_one_is_forgotten() {
    let mut dir = Directory::new();
    dir.types.insert(s("g"), GroupType::NextGen);
    dir.seeds.insert(s("g"), GroupSeed::blank());
    dir.forget_group(&s("g"), true);
    assert_eq!(dir.group_type(&s("g")), Some(GroupType::NextGen));
    assert!(dir.seeds.contains_key(&s("g")));
    dir.forget_group(&s("g"), false);
    assert_eq!(dir.group_type(&s("g")), None);
    assert!(!dir.seeds.contains_key(&s("g")));
}

fn replayed_group(protocol_type: Option<&str>, empty_since_ms: Option<i64>, committed_at: i64) -> CoordinatorGroup {
    let mut state = ClassicGroup::new(s("g"));
    state.protocol_type = protocol_type.map(String::from);
    let mut offsets = OrdMap::new();
    offsets.insert(key(TOPIC, 0), entry(42, committed_at, None));
    let mut group = CoordinatorGroup::seeded(s("g"), GroupKind::Classic(state), offsets);
    group.empty_since_ms = empty_since_ms;
    group
}

#[test]
fn a_simple_group_expires_from_its_commit_not_from_the_restart() {
    let mut broker = Broker::of(vec![replayed_group(None, None, NOW_MS - RETENTION_MS * 10)]);
    assert_eq!(broker.sweep(&["g"], NOW_MS, RETENTION_MS), all_of_it());
    assert_eq!(broker.fetched(), -1);
}

#[test]
fn a_joined_group_expires_from_the_moment_it_emptied() {
    let mut broker = Broker::of(vec![replayed_group(Some("consumer"), Some(NOW_MS), NOW_MS - RETENTION_MS * 10)]);
    assert!(broker.sweep(&["g"], NOW_MS + RETENTION_MS - 1, RETENTION_MS).is_empty());
    assert_eq!(broker.fetched(), 42);
    assert_eq!(broker.sweep(&["g"], NOW_MS + RETENTION_MS, RETENTION_MS), all_of_it());
    assert_eq!(broker.fetched(), -1);
}

#[test]
fn a_sweep_that_cannot_be_written_takes_nothing() {
    let mut broker = Broker::of(vec![emptied()]);
    broker.fail_next = true;
    assert!(broker.sweep(&["g"], NOW_MS + RETENTION_MS + 1, RETENTION_MS).is_empty());
    assert_eq!(broker.fetched(), 42);
    assert_eq!(broker.sweep(&["g"], NOW_MS + RETENTION_MS + 1, RETENTION_MS), all_of_it());
}

/// A group takes its turns one after the other, so a commit lands before a pass or after it.
#[test]
fn an_acknowledged_commit_is_never_reaped_by_a_concurrent_sweep() {
    for round in 0..16 {
        for commit_first in [true, false] {
            let id = format!("racer-{round}");
            let mut held = OrdMap::new();
            held.insert(key(TOPIC, 0), entry(1, NOW_MS - RETENTION_MS * 10, None));
            let mut broker = Broker::of(vec![CoordinatorGroup::seeded(id.clone(), GroupKind::Classic(ClassicGroup::new(id.clone())), held)]);
            let fresh = vec![CommittedOffset { key: key(TOPIC, 0), entry: entry(99, NOW_MS, None) }];
            if commit_first {
                let mut group = broker.group(&id);
                group.update_committed(&fresh);
                broker.groups.insert(id.clone(), group);
                assert_eq!(broker.sweep(&[&id], NOW_MS, RETENTION_MS), vec![]);
            } else {
                let outcome = ReapOutcome { reaped: vec![key(TOPIC, 0)], group_deleted: true };
                assert_eq!(broker.sweep(&[&id], NOW_MS, RETENTION_MS), vec![(id.clone(), outcome)]);
                let mut group = CoordinatorGroup::new_classic(id.clone());
                group.update_committed(&fresh);
                broker.groups.insert(id.clone(), group);
            }
            assert_eq!(broker.group(&id).committed_offsets.get(&key(TOPIC, 0)).map(|e| e.offset), Some(99));
        }
    }
}

#[test]
fn an_offset_expires_by_its_own_time_or_the_default() {
    let plain = entry(1, 100, None);
    assert!(!plain.is_expired(149, None, 50));
    assert!(plain.is_expired(150, None, 50));
    assert!(!plain.is_expired(150, Some(120), 50));
    assert!(plain.is_expired(170, Some(120), 50));
    let timed = OffsetEntry { expire_timestamp_ms: Some(105), ..entry(1, 100, None) };
    assert!(!timed.is_expired(104, Some(0), 1));
    assert!(timed.is_expired(105, None, 1_000));
    assert_eq!(saturate(i64::MAX, 1), i64::MAX);
    assert_eq!(saturate(i64::MIN, -1), i64::MIN);
    assert_eq!(saturate(2, 3), 5);
}

#[test]
fn emptiness_is_stamped_when_the_last_member_goes() {
    let mut group = group_with_member();
    assert_eq!(group_empty_since_ms(&group), None);
    assert!(!settled_empty(&group, NOW_MS * 2, CHECK_INTERVAL_MS));
    remove_last_member(&mut group);
    assert_eq!(group_empty_since_ms(&group), Some(NOW_MS));
    group.observe_membership(NOW_MS + 5);
    assert_eq!(group_empty_since_ms(&group), Some(NOW_MS));
    assert!(!settled_empty(&group, NOW_MS + CHECK_INTERVAL_MS - 1, CHECK_INTERVAL_MS));
    assert!(settled_empty(&group, NOW_MS + CHECK_INTERVAL_MS, CHECK_INTERVAL_MS));
}

fn image(topics: &[(&str, u128)]) -> MetadataImage {
    let mut image = MetadataImage::new();
    for (name, topic_id) in topics {
        image.topics.insert(s(name), TopicRecord { topic_id: *topic_id, partitions: 1 });
    }
    image
}

fn deleted(name: &str, id: u128) -> DeletedTopic {
    (s(name), id)
}

#[test]
fn deleted_topics_compares_topic_ids() {
    let base: [(&str, u128); 2] = [("orders", 10), ("payments", 20)];
    let rows: [(&str, Vec<(&str, u128)>, Vec<DeletedTopic>); 4] = [
        ("no change", vec![("orders", 10), ("payments", 20)], vec![]),
        ("a new topic", vec![("orders", 10), ("payments", 20), ("refunds", 30)], vec![]),
        ("one topic deleted", vec![("payments", 20)], vec![deleted("orders", 10)]),
        ("deleted and created again with the same name", vec![("orders", 11), ("payments", 20)], vec![deleted("orders", 10)]),
    ];
    for (name, next, expected) in rows {
        assert_eq!(deleted_topics(&image(&base), &image(&next)), expected, "{name}");
    }
}

fn simple(id: &str, offsets: &[(&str, i32)]) -> CoordinatorGroup {
    let mut all = OrdMap::new();
    for (topic, partition) in offsets {
        all.insert(key(topic, *partition), entry(1, 0, None));
    }
    CoordinatorGroup::seeded(s(id), GroupKind::Classic(ClassicGroup::new(s(id))), all)
}

impl Broker {
    fn delete_topics(&mut self, owned: &[&str], topics: &Vec<DeletedTopic>) -> Vec<(String, Vec<(String, i32)>)> {
        let mut out = Vec::new();
        for id in self.ids() {
            if !owned.contains(&id.as_str()) {
                continue;
            }
            let mut group = self.group(&id);
            if let Some(plan) = plan_topic_deletion(&group, topics, NOW_MS) {
                let appended = self.append(&plan.batch);
                let keys = finish_topic_deletion(&mut group, plan, appended);
                if !keys.is_empty() {
                    out.push((id.clone(), keys));
                }
            }
            self.groups.insert(id, group);
        }
        out
    }
}

#[test]
fn a_loaded_partition_applies_the_remembered_deletions() {
    for (name, current, expected) in [("the name is gone", vec![], 1), ("the name exists again", vec![("orders", 11)], 0)] {
        let mut remembered = Vec::new();
        remember_deletions(&mut remembered, &vec![deleted("orders", 10)]);
        let mut broker = Broker::of(vec![simple("g", &[("orders", 0)])]);
        let topics = applicable_deletions(&remembered, &image(&current));
        assert_eq!(broker.delete_topics(&["g"], &topics).len(), expected, "{name}");
    }
}

#[test]
fn on_topics_deleted_tombstones_offsets_in_every_owned_group() {
    let offsets = [("orders", 0), ("payments", 0)];
    let mut broker = Broker::of(vec![simple("a", &offsets), simple("b", &offsets), simple("not-owned", &offsets)]);
    assert_eq!(
        broker.delete_topics(&["a", "b"], &vec![deleted("orders", 10)]),
        vec![(s("a"), vec![key("orders", 0)]), (s("b"), vec![key("orders", 0)])]
    );
    assert_eq!(broker.log.len(), 2);
}

fn keys_of(m: &OrdMap<(String, i32), OffsetEntry>) -> Vec<(String, i32)> {
    (0..m.len()).map(|i| m.key_at(i).clone()).collect()
}

#[test]
fn deleting_a_topic_tombstones_its_offsets_in_the_group() {
    type Row = (&'static str, Vec<&'static str>, bool, Vec<(String, i32)>, Vec<(String, i32)>, Vec<(String, i32)>);
    let all = vec![key("orders", 0), key("orders", 1), key("orders", 3), key("payments", 0)];
    let rows: Vec<Row> = vec![
        (
            "one of two topics, and the offset of the new topic stays",
            vec!["orders"],
            false,
            vec![key("orders", 0), key("orders", 1), key("orders", 2)],
            vec![key("orders", 3), key("payments", 0)],
            vec![key("payments", 1)],
        ),
        (
            "a topic the group never committed",
            vec!["unknown"],
            false,
            vec![],
            all.clone(),
            vec![key("orders", 2), key("payments", 1)],
        ),
        (
            "the append fails",
            vec!["orders", "payments"],
            true,
            vec![],
            all.clone(),
            vec![key("orders", 2), key("payments", 1)],
        ),
    ];
    for (name, topics, fail, reply, committed, pending) in rows {
        let mut group = simple("g", &[]);
        for (k, topic_id) in [(key("orders", 0), None), (key("orders", 1), Some(1)), (key("orders", 3), Some(2)), (key("payments", 0), None)] {
            group.committed_offsets.insert(k, entry(10, 0, topic_id));
        }
        group.add_pending_txn_offsets(7, 100, &vec![key("orders", 2)]);
        group.add_pending_txn_offsets(8, 101, &vec![key("payments", 1)]);
        let mut broker = Broker::of(vec![group]);
        broker.fail_next = fail;
        let topics: Vec<DeletedTopic> = topics.iter().map(|t| deleted(t, 1)).collect();
        let changed = broker.delete_topics(&["g"], &topics);
        let got: Vec<(String, i32)> = changed.into_iter().flat_map(|(_, keys)| keys).collect();
        assert_eq!(got, reply, "{name}");
        let written: Vec<GroupRecord> =
            broker.log.iter().flat_map(|b| b.records.iter().map(|r| r.record.dup())).collect();
        let wanted: Vec<GroupRecord> = reply
            .iter()
            .map(|(topic, partition)| GroupRecord::OffsetCommit { topic: topic.clone(), partition: *partition, value: None })
            .collect();
        assert_eq!(written, wanted, "{name}");
        let group = broker.group("g");
        assert_eq!(keys_of(&group.offsets().committed), committed, "{name}");
        let open = group.offsets().pending_txn;
        assert_eq!((0..open.len()).map(|i| open.at(i).clone()).collect::<Vec<_>>(), pending, "{name}");
    }
}

#[test]
fn a_recreated_topic_does_not_inherit_the_old_committed_offsets() {
    let mut group = simple("g", &[]);
    group.update_committed(&vec![CommittedOffset { key: key(TOPIC, 0), entry: entry(42, 0, Some(10)) }]);
    let mut broker = Broker::of(vec![group]);
    let topics = deleted_topics(&image(&[("orders", 10)]), &image(&[("orders", 11)]));
    broker.delete_topics(&["g"], &topics);
    assert_eq!(broker.fetched(), -1);

    let mut group = broker.group("g");
    group.update_committed(&vec![CommittedOffset { key: key(TOPIC, 0), entry: entry(7, 0, Some(11)) }]);
    broker.groups.insert(s("g"), group);
    assert!(broker.delete_topics(&["g"], &topics).is_empty());
    assert_eq!(broker.fetched(), 7);
}

#[test]
fn a_transaction_ends_with_its_marker() {
    let mut group = simple("g", &[]);
    group.add_pending_txn_offsets(7, 100, &vec![key(TOPIC, 0), key(TOPIC, 1)]);
    group.reserve_txn_offsets(7, &vec![key(TOPIC, 2)], true);
    assert_eq!(group.pending_txn_keys().len(), 2);
    assert_eq!(group.unresolved_txn_keys().len(), 3);
    group.resolve_txn_offsets(7, 150, &vec![CommittedOffset { key: key(TOPIC, 0), entry: entry(5, 0, None) }]);
    assert_eq!(group.committed_offsets.get(&key(TOPIC, 0)).unwrap().offset, 5);
    assert!(group.pending_txn_keys().is_empty());
    group.add_pending_txn_offsets(7, 120, &vec![key(TOPIC, 3)]);
    assert!(group.pending_txn_keys().is_empty());
    group.add_pending_txn_offsets(7, 151, &vec![key(TOPIC, 4)]);
    assert!(group.pending_txn_keys().contains(&key(TOPIC, 4)));
}

fn brokers(ids: &[u64]) -> OrdSet<u64> {
    let mut out = OrdSet::new();
    for id in ids {
        out.insert(*id);
    }
    out
}

#[test]
fn audit_topic_skipped_when_disabled() {
    assert_eq!(plan_audit_topic(false, &MetadataImage::new(), Some(1), 1, &s("audit"), &brokers(&[])), None);
}

#[test]
fn audit_topic_skipped_when_not_leader() {
    assert_eq!(plan_audit_topic(true, &MetadataImage::new(), Some(1), 2, &s("audit"), &brokers(&[])), None);
}

#[test]
fn audit_topic_created_when_leader_and_idempotent() {
    let plan = plan_audit_topic_with_id(true, &MetadataImage::new(), Some(1), 1, &s("audit"), &brokers(&[]), 9).expect("a plan");
    assert_eq!(plan.partitions, 1);
    assert_eq!(plan.replication_factor, 1);
    assert_eq!(plan.placements.len(), 1);
    assert_eq!(plan.topic_id, 9);
    assert_eq!(plan_audit_topic(true, &image(&[("audit", 9)]), Some(1), 1, &s("audit"), &brokers(&[])), None);
}

#[test]
fn audit_topic_scales_partitions_to_all_registered_brokers() {
    let plan = plan_audit_topic(true, &MetadataImage::new(), Some(1), 1, &s("audit"), &brokers(&[1, 2, 3])).expect("a plan");
    assert_eq!(plan.partitions, 3);
    assert_eq!(plan.replication_factor, 1);
    let leaders: Vec<u64> = plan.placements.iter().map(|p| p.leader).collect();
    assert_eq!(leaders, vec![1, 2, 3]);
    assert_eq!(plan.topic_id >> 76 & 0xf, 4);
    let other = plan_audit_topic(true, &MetadataImage::new(), Some(1), 1, &s("audit"), &brokers(&[1, 2, 3])).expect("a plan");
    assert_ne!(plan.topic_id, other.topic_id);
}

#[test]
fn audit_topic_handles_topic_exists_error_idempotently() {
    assert!(SubmitOutcome::TopicExists.is_settled());
    assert!(SubmitOutcome::Registered.is_settled());
}

#[test]
fn audit_topic_fails_on_raft_error() {
    assert!(!SubmitOutcome::Failed.is_settled());
}

#[test]
fn second_bootstrap_does_not_duplicate_offsets_topic() {
    let first = plan_offsets_topic_with_id(&MetadataImage::new(), Some(1), 1, &brokers(&[1]), 50, 3, 9);
    match first {
        OffsetsTopicAction::Register(plan) => {
            assert_eq!(plan.name, "__consumer_offsets");
            assert_eq!(plan.partitions, 50);
            assert_eq!(plan.replication_factor, 1);
            assert_eq!(local_partitions(&plan.placements, 1).len(), 50);
        }
        other => panic!("{other:?}"),
    }
    let there = image(&[("__consumer_offsets", 9)]);
    assert_eq!(plan_offsets_topic(&there, Some(1), 1, &brokers(&[1]), 50, 3), OffsetsTopicAction::Present);
    assert_eq!(plan_offsets_topic(&MetadataImage::new(), Some(2), 1, &brokers(&[1, 2]), 50, 3), OffsetsTopicAction::Await);
}

#[test]
fn a_broker_without_a_log_dir_registers_nothing() {
    let nothing = MetadataImage::new();
    assert_eq!(plan_start(0, &nothing, Some(1), 1, &brokers(&[1]), 50, 3), Err(StartRefusal::NoLogDir));
    assert_eq!(plan_start_with_id(0, &nothing, Some(1), 1, &brokers(&[1]), 50, 3, 9), Err(StartRefusal::NoLogDir));
    match plan_start_with_id(1, &nothing, Some(1), 1, &brokers(&[1]), 50, 3, 9) {
        Ok(OffsetsTopicAction::Register(plan)) => assert_eq!(plan.topic_id, 9),
        other => panic!("{other:?}"),
    }
    let there = image(&[("__consumer_offsets", 9)]);
    assert_eq!(plan_start(1, &there, Some(1), 1, &brokers(&[1]), 50, 3), Ok(OffsetsTopicAction::Present));
}

#[test]
fn the_offsets_topic_is_awaited_until_the_time_is_up() {
    let mut there = MetadataImage::new();
    assert_eq!(await_offsets_topic(&there, 2, 10), Ok(false));
    assert_eq!(await_offsets_topic(&there, 2, 0), Err(StartRefusal::NoOffsetsTopic));
    there.topics.insert(s("__consumer_offsets"), TopicRecord { topic_id: 9, partitions: 2 });
    assert_eq!(await_offsets_topic(&there, 2, 0), Ok(true));
}

#[test]
fn a_second_start_leaves_the_audit_topic_alone() {
    let plan = plan_audit_topic_with_id(true, &MetadataImage::new(), Some(1), 1, &s("audit"), &brokers(&[1]), 9).unwrap();
    let mut there = MetadataImage::new();
    there.topics.insert(plan.name.clone(), TopicRecord { topic_id: plan.topic_id, partitions: plan.partitions });
    assert_eq!(plan_audit_topic_with_id(true, &there, Some(1), 1, &s("audit"), &brokers(&[1]), 10), None);
    assert_eq!(there.topics.get(&s("audit")).unwrap().topic_id, 9);
}

#[test]
fn the_offsets_topic_is_ready_once_it_has_its_partitions() {
    assert!(!offsets_topic_ready(&MetadataImage::new(), 0));
    let mut there = MetadataImage::new();
    there.topics.insert(s("__consumer_offsets"), TopicRecord { topic_id: 9, partitions: 2 });
    assert!(offsets_topic_ready(&there, 2));
    assert!(!offsets_topic_ready(&there, 3));
}

#[test]
fn replicas_go_round_the_brokers() {
    let placed = round_robin_replicas(&vec![5, 6, 7], 4, 2);
    let got: Vec<(i32, u64, Vec<u64>)> = placed.iter().map(|p| (p.partition, p.leader, p.replicas.clone())).collect();
    assert_eq!(
        got,
        vec![(0, 5, vec![5, 6]), (1, 6, vec![6, 7]), (2, 7, vec![7, 5]), (3, 5, vec![5, 6])]
    );
    assert_eq!(
        local_partitions(&placed, 6),
        vec![
            LocalPartition { partition: 0, replay: false },
            LocalPartition { partition: 1, replay: true },
            LocalPartition { partition: 3, replay: false },
        ]
    );
    assert_eq!(internal_topic_replication_factor(3, 2), 2);
    assert_eq!(internal_topic_replication_factor(3, 5), 3);
    assert_eq!(internal_topic_replication_factor(0, 5), 1);
}
