use krabka_coordinator::assignor::{TopicMetadata, UniformAssignor};
use krabka_coordinator::classic_join::JoinContext;
use krabka_coordinator::classic_state::{ClassicGroup, GroupState as ClassicGroupState, Member, Protocol};
use krabka_coordinator::codes;
use krabka_coordinator::commit_validation::{validate_commit_message, CommitFence};
use krabka_coordinator::config::{ConsumerGroupMigrationPolicy, NextGenConfig};
use krabka_coordinator::consumer_state::{GroupState, ReconcileInput};
use krabka_coordinator::directory::{Directory, GroupType};
use krabka_coordinator::downgrade::{finish_downgrade, Downgrade};
use krabka_coordinator::group::{CommittedOffset, CoordinatorGroup, GroupKind, GroupKindTag};
use krabka_coordinator::heartbeat::{build_member, ClientIdentity, ConsumerGroupHeartbeatRequest, ConsumerGroupHeartbeatResponse};
use krabka_coordinator::heartbeat_turn::{begin_heartbeat, finish_heartbeat, finish_upgrade, handle_classic_heartbeat_message, HeartbeatTurn};
use krabka_coordinator::join_turn::{begin_join, finish_classic_join, finish_hosted_join, JoinTurn};
use krabka_coordinator::leave_turn::{
    begin_leave, delete_route, finish_classic_leave, finish_consumer_leave, finish_delete, finish_leave_downgrade, plan_delete, DeleteGroupError,
    DeleteRoute, LeaveTurn,
};
use krabka_coordinator::ordmap::{Dup, OrdMap, OrdSet};
use krabka_coordinator::partitions::Partitions;
use krabka_coordinator::records::{ClassicGroupMetadataValue, GroupRecord, NextGenRecord, OffsetEntry, RecordBatch};
use krabka_coordinator::requests::{
    HeartbeatRequest, JoinGroupRequest, JoinResult, LeaveGroupRequest, LeaveResult, MemberIdentity, SyncGroupRequest, SyncGroupRequestAssignment,
    SyncResult,
};
use krabka_coordinator::seed::apply_seed;
use krabka_coordinator::sync_turn::{begin_sync, finish_classic_sync, finish_hosted_sync, SyncTurn};
use krabka_coordinator::tick_turn::{begin_tick, classic_deadline, finish_classic_tick, finish_consumer_tick, TickTurn};
use krabka_coordinator::views::{build_classic_view, build_consumer_snapshot, build_describe, inspect_any, ClassicView, DescribeView};
use krabka_coordinator::waiters::{finish_emptied, pass_deadline, Emptied, Parked, Replies};

const TOPIC: u128 = 7;

fn s(text: &str) -> String {
    text.to_string()
}

/// A group with everything it is served with: a log in memory, the directory, and a clock.
struct Broker {
    group: CoordinatorGroup,
    parked: Parked,
    dir: Directory,
    log: Vec<RecordBatch>,
    fail_next: bool,
    running: bool,
    config: NextGenConfig<UniformAssignor>,
    input: ReconcileInput,
    now: u64,
    now_ms: i64,
    replies: Replies,
}

fn topics(list: &[(&str, u128, i32)]) -> ReconcileInput {
    let mut topic_id_by_name = OrdMap::new();
    let mut partitions_per_topic = OrdMap::new();
    for (name, id, count) in list {
        topic_id_by_name.insert(s(name), *id);
        partitions_per_topic.insert(*id, *count);
    }
    ReconcileInput { topic_id_by_name, topics: TopicMetadata { partitions_per_topic, partition_racks: OrdMap::new() } }
}

impl Broker {
    fn serving(group: CoordinatorGroup, policy: ConsumerGroupMigrationPolicy) -> Self {
        let mut config = NextGenConfig::<UniformAssignor>::standard();
        config.migration_policy = policy;
        Broker {
            group,
            parked: Parked::none(),
            dir: Directory::new(),
            log: Vec::new(),
            fail_next: false,
            running: true,
            config,
            input: topics(&[("t", TOPIC, 2)]),
            now: 1_000_000,
            now_ms: 5_000_000,
            replies: Replies::none(),
        }
    }

    fn consumer() -> Self {
        Self::serving(CoordinatorGroup::new_consumer(s("g")), ConsumerGroupMigrationPolicy::Bidirectional)
    }

    fn without_topics(mut self) -> Self {
        self.input = ReconcileInput::empty();
        self
    }

    fn append(&mut self, batch: RecordBatch) -> bool {
        if self.fail_next {
            self.fail_next = false;
            false
        } else {
            self.log.push(batch);
            true
        }
    }

    fn settle(&mut self, emptied: Option<Emptied>) {
        if let Some(emptied) = emptied {
            let appended = self.append(copy(&emptied.batch));
            if let GroupKind::Classic(state) = &mut self.group.kind {
                finish_emptied(state, emptied, appended);
            }
        }
    }

    fn downgrade(&mut self, plan: Option<Downgrade>) {
        if let Some(plan) = plan {
            let appended = self.append(copy(&plan.batch));
            self.running = finish_downgrade(&mut self.group, &mut self.dir, plan, appended);
        }
    }

    fn beat(&mut self, req: &ConsumerGroupHeartbeatRequest) -> ConsumerGroupHeartbeatResponse {
        let client = ClientIdentity { id: s("client-a"), host: String::new() };
        loop {
            let turn = begin_heartbeat(&mut self.group, &self.config, &self.input, req, &client, self.now, self.now_ms, &OrdSet::new());
            match turn {
                HeartbeatTurn::Answered { reply, downgrade } => {
                    self.downgrade(downgrade);
                    return reply;
                }
                HeartbeatTurn::Upgrade { batch, pending, state } => {
                    let appended = self.append(batch);
                    if let Some(reply) = finish_upgrade(&mut self.group, &mut self.dir, pending, state, appended) {
                        self.running = false;
                        return reply;
                    }
                }
                HeartbeatTurn::Persist { batch, pending, reply } => {
                    let appended = self.append(batch);
                    let end = finish_heartbeat(
                        &self.group,
                        &mut self.dir,
                        self.config.migration_policy,
                        &self.input,
                        pending,
                        reply,
                        appended,
                        self.now_ms,
                    );
                    self.running = end.running;
                    self.downgrade(end.downgrade);
                    return end.reply;
                }
            }
        }
    }

    fn consumer_heartbeat(&mut self, member_id: &str, member_epoch: i32, topic: Option<&str>) -> ConsumerGroupHeartbeatResponse {
        self.beat(&ConsumerGroupHeartbeatRequest {
            group_id: s("g"),
            member_id: s(member_id),
            member_epoch,
            instance_id: None,
            rack_id: None,
            rebalance_timeout_ms: 60_000,
            subscribed_topic_names: topic.map(|t| vec![s(t)]),
            subscribed_topic_regex: None,
            server_assignor: None,
            topic_partitions: None,
        })
    }

    fn join(&mut self, req: &mut JoinGroupRequest, version: i16, client_id: &str, client_host: &str) -> Option<JoinResult> {
        let ctx = JoinContext {
            client_id: s(client_id),
            client_host: s(client_host),
            version,
            initial_rebalance_delay: self.config.classic_initial_rebalance_delay,
            max_size: self.config.classic_max_size,
            now: self.now,
        };
        match begin_join(&mut self.group, &mut self.parked, &self.config, &self.input, req, &ctx, self.now_ms) {
            JoinTurn::Done { reply, replies, emptied, .. } => {
                self.replies.append(replies);
                self.settle(emptied);
                reply
            }
            JoinTurn::Persist { batch, previous, member_id, reply, replies } => {
                self.replies.append(replies);
                let appended = self.append(batch);
                Some(finish_classic_join(&mut self.group, previous, member_id, reply, appended))
            }
            JoinTurn::Host { batch, pending, member_id, protocol } => {
                let appended = self.append(batch);
                let (reply, running) = finish_hosted_join(&self.group, &mut self.dir, pending, member_id, protocol, appended);
                self.running = running;
                Some(reply)
            }
        }
    }

    fn classic_join(&mut self, member_id: &str, topic: &str) -> JoinResult {
        let mut req = JoinGroupRequest {
            group_id: s("g"),
            session_timeout_ms: 30_000,
            rebalance_timeout_ms: 60_000,
            member_id: s(member_id),
            group_instance_id: None,
            protocol_type: s("consumer"),
            protocols: vec![Protocol { name: s("range"), metadata: subscription_blob(&[topic]) }],
        };
        self.join(&mut req, 4, "client-a", "127.0.0.1").expect("an answer")
    }

    fn sync(&mut self, req: &SyncGroupRequest) -> Option<SyncResult> {
        match begin_sync(&mut self.group, &mut self.parked, &self.input, req, self.now, self.now_ms) {
            SyncTurn::Done { reply } => reply,
            SyncTurn::Persist { batch, previous, reply } => {
                let appended = self.append(batch);
                let (reply, others) = finish_classic_sync(&mut self.group, &mut self.parked, previous, reply, appended);
                self.replies.syncs.extend(others);
                Some(reply)
            }
            SyncTurn::Host { batch, pending, previous, reply } => {
                let appended = self.append(batch);
                Some(finish_hosted_sync(&mut self.group, &mut self.dir, pending, &req.member_id, previous, reply, appended))
            }
        }
    }

    fn classic_sync(&mut self, member_id: &str, generation: i32) -> SyncResult {
        self.sync(&sync_request(member_id, generation, &[])).expect("an answer")
    }

    fn classic_heartbeat(&mut self, member_id: &str) -> i16 {
        let req = HeartbeatRequest { group_id: s("g"), generation_id: 0, member_id: s(member_id), group_instance_id: None };
        handle_classic_heartbeat_message(&mut self.group, &self.input, &req, self.now)
    }

    fn leave(&mut self, req: &LeaveGroupRequest, version: i16) -> LeaveResult {
        let mut turn = begin_leave(&mut self.group, &mut self.parked, &self.config, &self.input, req, version, self.now, self.now_ms);
        loop {
            turn = match turn {
                LeaveTurn::Done { reply, replies, emptied, running } => {
                    self.replies.append(replies);
                    self.settle(emptied);
                    self.running = running;
                    return reply;
                }
                LeaveTurn::Persist { batch, previous, responses, removed } => {
                    let appended = self.append(batch);
                    match &mut self.group.kind {
                        GroupKind::Classic(state) => finish_classic_leave(
                            state,
                            &mut self.parked,
                            previous,
                            responses,
                            &removed,
                            version,
                            appended,
                            self.now,
                            self.now_ms,
                        ),
                        GroupKind::Consumer(_) => unreachable!(),
                    }
                }
                LeaveTurn::Delta { batch, pending, responses } => {
                    let appended = self.append(batch);
                    finish_consumer_leave(
                        &self.group,
                        &mut self.dir,
                        self.config.migration_policy,
                        &self.input,
                        pending,
                        responses,
                        version,
                        appended,
                        self.now_ms,
                    )
                }
                LeaveTurn::Downgrade { plan, responses } => {
                    let appended = self.append(copy(&plan.batch));
                    let (reply, running) = finish_leave_downgrade(&mut self.group, &mut self.dir, plan, responses, version, appended);
                    self.running = running;
                    return reply;
                }
            };
        }
    }

    fn classic_leave(&mut self, member_id: &str) -> LeaveResult {
        self.leave(&leave_request(member_id), 3)
    }

    fn tick(&mut self) -> bool {
        let mut turn = begin_tick(&mut self.group, &mut self.parked, &self.config, &self.input, self.now, self.now_ms);
        loop {
            turn = match turn {
                TickTurn::Done { replies, emptied, downgrade, running } => {
                    self.replies.append(replies);
                    self.settle(emptied);
                    self.running = running;
                    self.downgrade(downgrade);
                    return self.running;
                }
                TickTurn::Persist { batch, previous, removed } => {
                    let appended = self.append(batch);
                    match &mut self.group.kind {
                        GroupKind::Classic(state) => {
                            finish_classic_tick(state, &mut self.parked, previous, &removed, appended, self.now, self.now_ms)
                        }
                        GroupKind::Consumer(_) => unreachable!(),
                    }
                }
                TickTurn::Delta { batch, pending } => {
                    let appended = self.append(batch);
                    finish_consumer_tick(
                        &self.group,
                        &mut self.dir,
                        self.config.migration_policy,
                        &self.input,
                        pending,
                        appended,
                        self.now_ms,
                    )
                }
            };
        }
    }

    fn delete(&mut self) -> Result<(), DeleteGroupError> {
        let batch = plan_delete(&self.group, self.now_ms)?;
        let appended = self.append(batch);
        let done = finish_delete(&mut self.dir, &self.group.group_id, appended);
        if done.is_ok() {
            self.running = false;
        }
        done
    }

    fn validate(&mut self, member_id: &str, epoch: i32, fence: CommitFence) -> Result<(), i16> {
        validate_commit_message(&mut self.group, &s(member_id), &None, epoch, fence, self.now)
    }

    fn classic(&self) -> &ClassicGroup {
        match &self.group.kind {
            GroupKind::Classic(state) => state,
            GroupKind::Consumer(_) => panic!("a consumer group"),
        }
    }

    fn state(&self) -> &GroupState {
        match &self.group.kind {
            GroupKind::Consumer(state) => state,
            GroupKind::Classic(_) => panic!("a classic group"),
        }
    }

    fn view(&self) -> ClassicView {
        build_classic_view(self.classic())
    }

    fn describe(&self) -> DescribeView {
        build_describe(self.state())
    }

    fn records(&self) -> Vec<&GroupRecord> {
        self.log.iter().flat_map(|batch| batch.records.iter().map(|r| &r.record)).collect()
    }

    fn wrote(&self, record: &GroupRecord) -> bool {
        self.records().contains(&record)
    }

    fn last_classic_metadata(&self) -> &ClassicGroupMetadataValue {
        self.records()
            .into_iter()
            .rev()
            .find_map(|r| match r {
                GroupRecord::ClassicMetadata { value } => value.as_ref(),
                _ => None,
            })
            .expect("a classic group record")
    }
}

fn copy(batch: &RecordBatch) -> RecordBatch {
    RecordBatch::of(&batch.group_id, batch.records.iter().map(|r| r.record.dup()).collect(), batch.max_timestamp)
}

fn classic_tombstone() -> GroupRecord {
    GroupRecord::ClassicMetadata { value: None }
}

fn epoch_tombstone() -> GroupRecord {
    GroupRecord::NextGen(NextGenRecord::GroupMetadata { epoch: None })
}

fn target_tombstone() -> GroupRecord {
    GroupRecord::NextGen(NextGenRecord::TargetAssignmentMetadata { assignment_epoch: None })
}

fn subscription_blob(names: &[&str]) -> Vec<u8> {
    let mut out = vec![0, 0];
    out.extend((names.len() as i32).to_be_bytes());
    for name in names {
        out.extend((name.len() as i16).to_be_bytes());
        out.extend(name.as_bytes());
    }
    out.extend((-1i32).to_be_bytes());
    out
}

fn be32(blob: &[u8], at: usize) -> i32 {
    i32::from_be_bytes([blob[at], blob[at + 1], blob[at + 2], blob[at + 3]])
}

/// The partitions of `t` in an assignment.
fn assigned_of_t(blob: &[u8]) -> Vec<i32> {
    let mut out = Vec::new();
    let mut at = 6;
    for _ in 0..be32(blob, 2) {
        let len = i16::from_be_bytes([blob[at], blob[at + 1]]) as usize;
        let name = &blob[at + 2..at + 2 + len];
        at += 2 + len;
        let count = be32(blob, at);
        at += 4;
        for _ in 0..count {
            if name == b"t" {
                out.push(be32(blob, at));
            }
            at += 4;
        }
    }
    out
}

fn sync_request(member_id: &str, generation: i32, assignments: &[(&str, &[u8])]) -> SyncGroupRequest {
    SyncGroupRequest {
        group_id: s("g"),
        generation_id: generation,
        member_id: s(member_id),
        group_instance_id: None,
        protocol_type: None,
        protocol_name: None,
        assignments: assignments
            .iter()
            .map(|(id, blob)| SyncGroupRequestAssignment { member_id: s(id), assignment: blob.to_vec() })
            .collect(),
    }
}

fn leave_request(member_id: &str) -> LeaveGroupRequest {
    LeaveGroupRequest {
        group_id: s("g"),
        member_id: String::new(),
        members: vec![MemberIdentity { member_id: s(member_id), group_instance_id: None }],
    }
}

fn completing_classic_group(member_ids: &[&str]) -> ClassicGroup {
    let mut state = ClassicGroup::new(s("g"));
    state.protocol_type = Some(s("consumer"));
    for id in member_ids {
        let mut member = Member::new(
            s(id),
            s("client"),
            s("host"),
            30_000,
            60_000,
            vec![Protocol { name: s("range"), metadata: b"subscription".to_vec() }],
        );
        member.last_heartbeat = 1_000_000;
        state.add_member(member);
    }
    state.resolve_selected_protocol_metadata(&s("range"));
    assert!(state.complete_rebalance(s("range")));
    state
}

fn stable_classic_group(member_ids: &[&str]) -> ClassicGroup {
    let mut state = completing_classic_group(member_ids);
    state.state = ClassicGroupState::Stable;
    state
}

fn serving_classic(state: ClassicGroup) -> Broker {
    let group = CoordinatorGroup::seeded(s("g"), GroupKind::Classic(state), OrdMap::new());
    Broker::serving(group, ConsumerGroupMigrationPolicy::Bidirectional).without_topics()
}

/// A classic group with one member that subscribes to `t`.
fn seed_classic_member(member_id: &str, instance: Option<&str>, policy: ConsumerGroupMigrationPolicy) -> Broker {
    let mut state = ClassicGroup::new(s("g"));
    state.protocol_type = Some(s("consumer"));
    state.generation_id = 1;
    state.add_member(
        Member::new(
            s(member_id),
            s("client"),
            s("127.0.0.1"),
            30_000,
            60_000,
            vec![Protocol { name: s("range"), metadata: subscription_blob(&["t"]) }],
        )
        .with_instance_id(instance.map(String::from)),
    );
    Broker::serving(CoordinatorGroup::seeded(s("g"), GroupKind::Classic(state), OrdMap::new()), policy)
}

/// The classic member `m-classic`, hosted in a consumer group that it is alone in.
fn seed_and_upgrade() -> Broker {
    let mut broker = seed_classic_member("m-classic", None, ConsumerGroupMigrationPolicy::Upgrade);
    let up = broker.consumer_heartbeat("", 0, Some("t"));
    assert_eq!(up.error_code, codes::NONE);
    let gone = broker.consumer_heartbeat(&up.member_id.unwrap(), -1, None);
    assert_eq!(gone.error_code, codes::NONE);
    broker
}

fn entry(offset: i64) -> OffsetEntry {
    OffsetEntry {
        offset,
        leader_epoch: 1,
        metadata: String::new(),
        commit_timestamp_ms: 0,
        expire_timestamp_ms: None,
        topic_id: None,
    }
}

fn committed(broker: &Broker) -> Option<i64> {
    broker.group.offsets().committed.get(&(s("t"), 0)).map(|e| e.offset)
}

#[test]
fn first_join_emits_one_batch() {
    let mut broker = Broker::consumer().without_topics();
    let got = broker.consumer_heartbeat("", 0, Some("t"));
    assert_eq!(got.error_code, 0);
    assert_eq!(broker.log.len(), 1);
    assert!(broker.log[0].records.len() >= 3);
}

#[test]
fn first_join_adopts_client_member_id() {
    let mut broker = Broker::consumer().without_topics();
    let got = broker.consumer_heartbeat("client-uuid-1", 0, Some("t"));
    assert_eq!(got.error_code, 0);
    assert_eq!(got.member_id.as_deref(), Some("client-uuid-1"));
    assert!(got.member_epoch >= 1);
    assert_eq!(broker.log.len(), 1);
}

#[test]
fn member_limit_rejects_only_new_members() {
    let mut broker = Broker::consumer().without_topics();
    broker.config.max_size = 1;
    let joined = broker.consumer_heartbeat("m1", 0, Some("t"));
    assert_eq!(joined.error_code, codes::NONE);
    let rejected = broker.consumer_heartbeat("m2", 0, Some("t"));
    assert_eq!(rejected.error_code, codes::GROUP_MAX_SIZE_REACHED);
    let existing = broker.consumer_heartbeat("m1", joined.member_epoch, Some("t"));
    assert_eq!(existing.error_code, codes::NONE);
    assert_eq!(existing.member_epoch, joined.member_epoch);
}

#[test]
fn unchanged_heartbeat_emits_no_batch() {
    let mut broker = Broker::consumer().without_topics();
    let first = broker.consumer_heartbeat("", 0, Some("t"));
    let after_join = broker.log.len();
    broker.consumer_heartbeat(&first.member_id.unwrap(), first.member_epoch, Some("t"));
    assert_eq!(broker.log.len(), after_join);
}

#[test]
fn leave_emits_tombstone_batch() {
    let mut broker = Broker::consumer().without_topics();
    let id = broker.consumer_heartbeat("", 0, Some("t")).member_id.unwrap();
    let before = broker.log.len();
    broker.consumer_heartbeat(&id, -1, None);
    assert_eq!(broker.log.len(), before + 1);
    assert!(broker.log[before].records.iter().any(|r| r.record.is_tombstone()));
}

#[test]
fn consumer_heartbeat_upgrades_a_classic_group() {
    let mut broker = seed_classic_member("m-classic", None, ConsumerGroupMigrationPolicy::Bidirectional);
    let got = broker.consumer_heartbeat("", 0, Some("t"));
    assert_eq!(got.error_code, codes::NONE);
    let shown = broker.describe();
    assert_eq!(shown.members.len(), 2);
    assert!(shown.members.iter().any(|m| m.is_classic));
    assert!(shown.members.iter().any(|m| !m.is_classic));
    assert!(broker.wrote(&classic_tombstone()));
}

#[test]
fn failed_upgrade_append_keeps_the_atomic_batch_unpublished() {
    let mut broker = seed_classic_member("m-classic", None, ConsumerGroupMigrationPolicy::Bidirectional);
    broker.fail_next = true;
    let got = broker.consumer_heartbeat("native", 0, Some("t"));
    assert_eq!(got.error_code, codes::COORDINATOR_LOAD_IN_PROGRESS);
    assert!(broker.log.is_empty());
    assert!(!broker.running);
    assert_eq!(broker.group.tag(), GroupKindTag::Classic);
}

#[test]
fn actor_exits_on_append_error() {
    let mut broker = Broker::consumer().without_topics();
    broker.fail_next = true;
    let got = broker.consumer_heartbeat("", 0, Some("t"));
    assert_eq!(got.error_code, codes::COORDINATOR_LOAD_IN_PROGRESS);
    assert!(!broker.running);
    assert!(broker.dir.seeds.is_empty());
}

#[test]
fn classic_leave_last_member_persists_empty_generation() {
    let mut broker = serving_classic(stable_classic_group(&["m1"]));
    let prior = broker.classic().generation_id;
    let got = broker.classic_leave("m1");
    assert_eq!(got.error_code, codes::NONE);
    assert_eq!(got.members[0].error_code, codes::NONE);
    assert_eq!(broker.view().state, ClassicGroupState::Empty);
    assert_eq!(broker.view().generation_id, prior + 1);
    let kept = broker.last_classic_metadata();
    assert_eq!(kept.generation, prior + 1);
    assert!(kept.members.is_empty());
    assert!(kept.leader.is_none());
    assert!(kept.protocol_name.is_none());
}

#[test]
fn classic_leave_with_members_remaining_does_not_commit_empty_generation() {
    let mut broker = serving_classic(stable_classic_group(&["m1", "m2"]));
    let prior = broker.classic().generation_id;
    let got = broker.classic_leave("m1");
    assert_eq!(got.error_code, codes::NONE);
    assert_eq!(got.members[0].error_code, codes::NONE);
    let shown = broker.view();
    assert_eq!(shown.generation_id, prior);
    assert_eq!(shown.members.len(), 1);
    assert_eq!(shown.members[0].member_id, "m2");
    assert!(broker.log.is_empty());
}

#[test]
fn classic_leave_legacy_append_failure_rolls_back_and_reports_error() {
    let mut broker = serving_classic(stable_classic_group(&["m1"]));
    broker.fail_next = true;
    let got = broker.leave(&LeaveGroupRequest { group_id: s("g"), member_id: s("m1"), members: vec![] }, 2);
    assert_eq!(got.error_code, codes::COORDINATOR_LOAD_IN_PROGRESS);
    assert!(got.members.is_empty());
    let shown = broker.view();
    assert_eq!(shown.state, ClassicGroupState::Stable);
    assert_eq!(shown.members.len(), 1);
    assert_eq!(shown.members[0].member_id, "m1");
    assert!(broker.log.is_empty());
}

#[test]
fn classic_delete_append_failure_keeps_group_registered() {
    let mut broker = serving_classic(ClassicGroup::new(s("g")));
    broker.dir.types.insert(s("g"), GroupType::Classic);
    broker.fail_next = true;
    assert_eq!(broker.delete(), Err(DeleteGroupError::Internal));
    assert!(broker.running);
    assert_eq!(broker.dir.group_type(&s("g")), Some(GroupType::Classic));
    assert!(!broker.wrote(&classic_tombstone()));
}

#[test]
fn classic_leave_removes_a_hosted_member_from_an_upgraded_group() {
    let mut broker = seed_classic_member("m-classic", None, ConsumerGroupMigrationPolicy::Bidirectional);
    let joined = broker.consumer_heartbeat("", 0, Some("t"));
    assert_eq!(joined.error_code, codes::NONE);
    let native = joined.member_id.expect("native member id");
    let got = broker.classic_leave("m-classic");
    assert_eq!(got.members.len(), 1);
    assert_eq!(got.members[0].error_code, codes::NONE);
    let shown = broker.describe();
    assert_eq!(shown.members.len(), 1);
    assert_eq!(shown.members[0].member_id, native);
    assert!(!shown.members[0].is_classic);
}

#[test]
fn classic_leave_consumer_log_failure_stops_the_actor() {
    let mut broker = Broker::consumer().without_topics();
    let native = broker.consumer_heartbeat("", 0, None).member_id.expect("native member id");
    broker.fail_next = true;
    let got = broker.classic_leave(&native);
    assert_eq!(got.error_code, codes::COORDINATOR_LOAD_IN_PROGRESS);
    assert!(got.members.is_empty());
    assert!(!broker.running);
}

#[test]
fn delete_tombstones_the_keys_of_an_in_flight_transactional_commit() {
    let keys = |partitions: &[i32]| -> Vec<(String, i32)> { partitions.iter().map(|p| (s("orders"), *p)).collect() };
    let rows: [(&str, &[i32], &[i32], &[i32]); 3] = [
        ("reserved, not marked", &[1], &[], &[1]),
        ("reserved, then released", &[1], &[1], &[]),
        ("two reserved, one released", &[1, 2], &[2], &[1]),
    ];
    for (name, reserve, release, expected) in rows {
        let mut broker = serving_classic(ClassicGroup::new(s("g")));
        broker.dir.types.insert(s("g"), GroupType::Classic);
        broker.group.reserve_txn_offsets(7, &keys(reserve), true);
        if !release.is_empty() {
            broker.group.reserve_txn_offsets(7, &keys(release), false);
        }
        assert_eq!(broker.delete(), Ok(()), "{name}");
        let tombstoned: Vec<i32> = broker
            .records()
            .into_iter()
            .filter_map(|r| match r {
                GroupRecord::OffsetCommit { partition, value: None, .. } => Some(*partition),
                _ => None,
            })
            .collect();
        assert_eq!(tombstoned, expected, "{name}");
        assert!(!broker.running, "{name}");
    }
}

#[test]
fn delete_answers_by_members_for_classic_and_consumer_groups() {
    let mut empty = Broker::consumer();
    empty.dir.types.insert(s("g"), GroupType::NextGen);
    let member = empty.consumer_heartbeat("", 0, Some("t")).member_id.unwrap();
    empty.consumer_heartbeat(&member, -1, None);
    assert_eq!(empty.delete(), Ok(()));
    assert!(!empty.running);
    assert_eq!(empty.dir.group_type(&s("g")), None);
    assert!(!empty.dir.seeds.contains_key(&s("g")));
    assert!(empty.wrote(&epoch_tombstone()) && empty.wrote(&target_tombstone()));
    assert!(!empty.wrote(&classic_tombstone()));

    let mut joined = Broker::consumer();
    joined.dir.types.insert(s("g"), GroupType::NextGen);
    joined.consumer_heartbeat("", 0, Some("t"));
    assert_eq!(joined.delete(), Err(DeleteGroupError::NonEmpty));
    assert!(joined.running);
    assert_eq!(joined.dir.group_type(&s("g")), Some(GroupType::NextGen));
    assert!(joined.dir.seeds.contains_key(&s("g")));
    assert!(!joined.wrote(&epoch_tombstone()));

    let mut classic = serving_classic(ClassicGroup::new(s("g")));
    classic.dir.types.insert(s("g"), GroupType::Classic);
    assert_eq!(classic.delete(), Ok(()));
    assert_eq!(classic.dir.group_type(&s("g")), None);
    assert!(classic.wrote(&classic_tombstone()));
    assert!(!classic.wrote(&epoch_tombstone()));
}

#[test]
fn a_group_is_deleted_by_whoever_holds_its_id() {
    let mut dir = Directory::new();
    assert_eq!(delete_route(&dir, &s("g")), DeleteRoute::Group);
    dir.types.insert(s("g"), GroupType::Share);
    assert_eq!(delete_route(&dir, &s("g")), DeleteRoute::Share);
    dir.types.insert(s("g"), GroupType::Streams);
    assert_eq!(delete_route(&dir, &s("g")), DeleteRoute::Streams);
}

#[test]
fn classic_leader_sync_persists_complete_stable_snapshot() {
    let mut broker = serving_classic(completing_classic_group(&["m1", "m2"]));
    let generation = broker.classic().generation_id;
    let got = broker.sync(&sync_request("m1", generation, &[("m1", b"assignment")])).unwrap();
    assert_eq!(got.error_code, codes::NONE);
    let kept = broker.last_classic_metadata();
    assert_eq!(kept.generation, generation);
    assert_eq!(kept.protocol_name.as_deref(), Some("range"));
    assert_eq!(kept.members.len(), 2);
    assert_eq!(kept.members[0].member_id, "m1");
    assert_eq!(kept.members[0].assignment, b"assignment");
    assert_eq!(kept.members[1].member_id, "m2");
    assert!(kept.members[1].assignment.is_empty());
}

#[test]
fn classic_sync_append_failure_rolls_back_and_can_retry() {
    let mut broker = serving_classic(completing_classic_group(&["m1"]));
    let generation = broker.classic().generation_id;
    let req = sync_request("m1", generation, &[("m1", b"assignment")]);
    broker.fail_next = true;
    let failure = broker.sync(&req).unwrap();
    assert_eq!(failure.error_code, codes::COORDINATOR_LOAD_IN_PROGRESS);
    assert_eq!(failure.protocol_type.as_deref(), Some("consumer"));
    assert_eq!(failure.protocol_name.as_deref(), Some("range"));
    assert_eq!(broker.view().state, ClassicGroupState::CompletingRebalance);
    assert!(broker.view().members[0].assignment.is_none());
    assert!(broker.log.is_empty());
    assert_eq!(broker.sync(&req).unwrap().error_code, codes::NONE);
    assert_eq!(broker.log.len(), 1);
}

#[test]
fn followers_that_wait_are_answered_with_the_leader() {
    let mut broker = serving_classic(completing_classic_group(&["m1", "m2"]));
    let generation = broker.classic().generation_id;
    assert_eq!(broker.sync(&sync_request("m2", generation, &[])), None);
    broker.sync(&sync_request("m1", generation, &[("m1", b"one"), ("m2", b"two")]));
    assert_eq!(broker.replies.syncs.len(), 1);
    assert_eq!(broker.replies.syncs[0].member_id, "m2");
    assert_eq!(broker.replies.syncs[0].result.assignment, b"two");
    assert_eq!(broker.classic_sync("m2", generation).assignment, b"two");
}

#[test]
fn hosted_classic_member_syncs_translated_assignment() {
    let mut broker = seed_and_upgrade();
    assert_eq!(broker.classic_heartbeat("m-classic"), codes::REBALANCE_IN_PROGRESS);
    let join = broker.classic_join("m-classic", "t");
    assert_eq!(join.error_code, codes::NONE);
    assert_eq!(join.leader, "m-classic");
    assert_eq!(join.member_id, "m-classic");
    assert_eq!(join.generation_id, broker.describe().group_epoch);
    let sync = broker.classic_sync("m-classic", join.generation_id);
    assert_eq!(sync.error_code, codes::NONE);
    assert_eq!(sync.protocol_type.as_deref(), Some("consumer"));
    assert_eq!(assigned_of_t(&sync.assignment), vec![0, 1]);
    assert_eq!(broker.classic_heartbeat("m-classic"), codes::NONE);
}

fn assigned(broker: &Broker, id: &str) -> Partitions {
    broker.state().members.get(&s(id)).unwrap().assigned_partitions.dup()
}

#[test]
fn native_member_sync_group_is_rejected_and_changes_no_assignment() {
    let mut broker = seed_and_upgrade();
    let join = broker.classic_join("m-classic", "t");
    assert_eq!(broker.classic_sync("m-classic", join.generation_id).error_code, codes::NONE);
    let native = broker.consumer_heartbeat("", 0, Some("t"));
    assert_eq!(native.error_code, codes::NONE);
    let id = native.member_id.expect("native member id");
    let before = assigned(&broker, &id);
    let classic_before = assigned(&broker, "m-classic");

    let sync = broker.classic_sync(&id, join.generation_id);

    assert_eq!(sync.error_code, codes::UNKNOWN_MEMBER_ID);
    assert!(sync.assignment.is_empty());
    assert_eq!(assigned(&broker, &id), before);
    assert!(!broker.state().members.get(&id).unwrap().is_classic());
    assert_eq!(assigned(&broker, "m-classic"), classic_before);
}

#[test]
fn failover_keeps_a_synced_hosted_classic_member_in_sync() {
    let mut broker = seed_and_upgrade();
    let join = broker.classic_join("m-classic", "t");
    let sync = broker.classic_sync("m-classic", join.generation_id);
    assert_eq!(sync.error_code, codes::NONE);

    let mut state = GroupState::new(s("g"));
    apply_seed(&mut state, broker.dir.seeds.get(&s("g")).expect("a seed"), &broker.input, broker.now);
    let group = CoordinatorGroup::seeded(s("g"), GroupKind::Consumer(state), OrdMap::new());
    let mut restored = Broker::serving(group, ConsumerGroupMigrationPolicy::Upgrade);

    assert_eq!(restored.classic_heartbeat("m-classic"), codes::NONE);
    let again = restored.classic_sync("m-classic", join.generation_id);
    assert_eq!(again.error_code, codes::NONE);
    assert_eq!(again.assignment, sync.assignment);
}

#[test]
fn a_hosted_sync_that_is_not_written_is_undone() {
    let mut broker = seed_and_upgrade();
    let join = broker.classic_join("m-classic", "t");
    let before = assigned(&broker, "m-classic");
    broker.fail_next = true;
    assert_eq!(broker.classic_sync("m-classic", join.generation_id).error_code, codes::COORDINATOR_LOAD_IN_PROGRESS);
    assert_eq!(assigned(&broker, "m-classic"), before);
    assert_eq!(broker.classic_heartbeat("m-classic"), codes::REBALANCE_IN_PROGRESS);
    assert!(broker.running);
}

#[test]
fn new_classic_member_joins_upgraded_group_and_gets_assignment() {
    let mut broker = seed_and_upgrade();
    let first = broker.classic_join("m-classic", "t");
    broker.classic_sync("m-classic", first.generation_id);
    let second = broker.classic_join("m2", "t");
    assert_eq!(second.error_code, codes::NONE);
    assert_eq!(second.leader, "m2");
    let epoch = broker.describe().group_epoch;
    let one = broker.classic_sync("m-classic", epoch);
    let two = broker.classic_sync("m2", epoch);
    assert_eq!(one.error_code, codes::NONE);
    assert_eq!(two.error_code, codes::NONE);
    let mut all = assigned_of_t(&one.assignment);
    assert!(!assigned_of_t(&two.assignment).is_empty());
    all.extend(assigned_of_t(&two.assignment));
    all.sort_unstable();
    assert_eq!(all, vec![0, 1]);
}

#[test]
fn a_hosted_member_that_joins_takes_nothing_from_the_others() {
    let mut broker = seed_and_upgrade();
    let first = broker.classic_join("m-classic", "t");
    broker.classic_sync("m-classic", first.generation_id);
    let held = broker.state().members.get(&s("m-classic")).unwrap().assigned_partitions.dup();
    assert!(!held.is_empty());
    broker.classic_join("m2", "t");
    assert_eq!(broker.state().members.get(&s("m-classic")).unwrap().assigned_partitions, held);
    assert!(broker.state().members.get(&s("m2")).unwrap().assigned_partitions.is_empty());
}

fn static_leader() -> Broker {
    let mut state = stable_classic_group(&["m1"]);
    let mut member = state.members.remove(&s("m1")).unwrap();
    member.group_instance_id = Some(s("instance-1"));
    member.assignment = Some(b"assignment".to_vec());
    state.members.insert(s("m1"), member);
    state.static_members.insert(s("instance-1"), s("m1"));
    serving_classic(state)
}

fn static_rejoin() -> JoinGroupRequest {
    JoinGroupRequest {
        group_id: s("g"),
        session_timeout_ms: 30_000,
        rebalance_timeout_ms: 60_000,
        member_id: String::new(),
        group_instance_id: Some(s("instance-1")),
        protocol_type: s("consumer"),
        protocols: vec![Protocol { name: s("range"), metadata: b"new-subscription".to_vec() }],
    }
}

#[test]
fn a_static_member_that_comes_back_is_written_before_it_is_answered() {
    let mut broker = static_leader();
    let generation = broker.classic().generation_id;
    let mut req = static_rejoin();
    let got = broker.join(&mut req, 4, "new-client", "new-host").unwrap();
    assert_eq!(got.error_code, codes::NONE);
    assert_eq!(got.generation_id, generation);
    let kept = broker.last_classic_metadata();
    assert_eq!(kept.generation, generation);
    assert_eq!(kept.members.len(), 1);
    assert_eq!(kept.members[0].member_id, req.member_id);
    assert_eq!(kept.members[0].assignment, b"assignment");
}

#[test]
fn a_static_member_that_cannot_be_written_stays_as_it_was() {
    let mut broker = static_leader();
    broker.fail_next = true;
    let mut req = static_rejoin();
    let got = broker.join(&mut req, 4, "new-client", "new-host").unwrap();
    assert_eq!(got.error_code, codes::COORDINATOR_LOAD_IN_PROGRESS);
    assert_eq!(got.protocol_type.as_deref(), Some("consumer"));
    assert_eq!(got.protocol_name.as_deref(), Some("range"));
    let shown = broker.view();
    assert_eq!(shown.state, ClassicGroupState::Stable);
    assert_eq!(shown.members.len(), 1);
    assert_eq!(shown.members[0].member_id, "m1");
    assert_eq!(shown.members[0].client_id, "client");
    assert_eq!(shown.members[0].host, "host");
    assert_eq!(shown.members[0].protocol_metadata, b"subscription");
    assert_eq!(shown.members[0].assignment.as_deref(), Some(&b"assignment"[..]));
    assert!(broker.log.is_empty());
}

#[test]
fn classic_offset_validate_heartbeat_arms() {
    let mut broker = serving_classic(ClassicGroup::new(s("g")));
    broker.group.update_committed(&vec![CommittedOffset { key: (s("t"), 0), entry: entry(42) }]);
    assert_eq!(committed(&broker), Some(42));
    assert_eq!(broker.validate("", -1, CommitFence::Offset { api_version: 9 }), Ok(()));
    assert_eq!(broker.classic_heartbeat("ghost"), codes::UNKNOWN_MEMBER_ID);
    broker.group.remove_committed(&vec![(s("t"), 0)]);
    assert!(broker.group.offsets().committed.is_empty());
}

#[test]
fn spawned_consumer_group_downgrade_allows_classic_offset_commit() {
    let mut broker = Broker::consumer();
    let native = broker.consumer_heartbeat("", 0, Some("t")).member_id.expect("native member id");
    assert_eq!(broker.classic_join("m-classic", "t").error_code, codes::NONE);
    assert_eq!(broker.consumer_heartbeat(&native, -1, None).error_code, codes::NONE);
    let shown = broker.view();
    assert!(shown.members.iter().any(|m| m.member_id == "m-classic"));
    assert_eq!(broker.validate("m-classic", shown.generation_id, CommitFence::Offset { api_version: 9 }), Ok(()));
}

#[test]
fn upgraded_group_fences_stale_native_consumer_commit() {
    let mut broker = seed_classic_member("m1", None, ConsumerGroupMigrationPolicy::Bidirectional);
    let up = broker.consumer_heartbeat("", 0, Some("t"));
    assert_eq!(up.error_code, codes::NONE);
    let native = up.member_id.expect("native member id");
    let epoch = up.member_epoch;
    let offset = CommitFence::Offset { api_version: 9 };
    for (fence, at, want) in [
        (offset, epoch - 1, Err(codes::STALE_MEMBER_EPOCH)),
        (offset, epoch + 1, Err(codes::STALE_MEMBER_EPOCH)),
        (offset, epoch, Ok(())),
        (CommitFence::Offset { api_version: 8 }, epoch, Err(codes::UNSUPPORTED_VERSION)),
        (CommitFence::Transactional, epoch - 1, Err(codes::STALE_MEMBER_EPOCH)),
        (CommitFence::Transactional, epoch + 1, Err(codes::FENCED_MEMBER_EPOCH)),
        (CommitFence::Transactional, epoch, Ok(())),
    ] {
        assert_eq!(broker.validate(&native, at, fence), want, "{fence:?} {at}");
    }
}

#[test]
fn classic_seed_hydrates_group_and_blocks_delete_when_nonempty() {
    let mut state = ClassicGroup::new(s("g"));
    state.add_member(Member::new(
        s("m1"),
        s("client"),
        s("127.0.0.1"),
        30_000,
        60_000,
        vec![Protocol { name: s("range"), metadata: vec![] }],
    ));
    let mut offsets = OrdMap::new();
    offsets.insert((s("t"), 0), entry(7));
    let group = CoordinatorGroup::seeded(s("g"), GroupKind::Classic(state), offsets);
    let mut broker = Broker::serving(group, ConsumerGroupMigrationPolicy::Bidirectional);
    assert_eq!(committed(&broker), Some(7));
    assert_eq!(broker.delete(), Err(DeleteGroupError::NonEmpty));
}

#[test]
fn last_consumer_member_leaving_downgrades_to_classic() {
    let mut broker = seed_classic_member("m-classic", None, ConsumerGroupMigrationPolicy::Bidirectional);
    let native = broker.consumer_heartbeat("", 0, Some("t")).member_id.expect("native member id");
    assert_eq!(broker.consumer_heartbeat(&native, -1, None).error_code, codes::NONE);
    let shown = broker.view();
    assert_eq!(shown.members.len(), 1);
    assert_eq!(shown.members[0].member_id, "m-classic");
    assert!(broker.wrote(&epoch_tombstone()));
    assert!(broker.wrote(&target_tombstone()));
    assert_eq!(broker.last_classic_metadata().members.len(), 1);
    assert_eq!(broker.dir.group_type(&s("g")), Some(GroupType::Classic));
}

#[test]
fn upgrade_then_downgrade_round_trip() {
    let mut broker = seed_classic_member("m1", None, ConsumerGroupMigrationPolicy::Bidirectional);
    let up = broker.consumer_heartbeat("", 0, Some("t"));
    assert_eq!(up.error_code, codes::NONE);
    assert_eq!(broker.describe().members.len(), 2);
    let left = broker.consumer_heartbeat(&up.member_id.unwrap(), -1, None);
    assert_eq!(left.error_code, codes::NONE);
    let snapshot = inspect_any(&broker.group, &broker.input);
    let m1 = snapshot.members.iter().find(|m| m.member_id == "m1").expect("m1 present");
    let mut parts = assigned_of_t(&m1.assignment);
    parts.sort_unstable();
    assert_eq!(parts, vec![0, 1]);
}

#[test]
fn classic_leave_of_last_native_member_triggers_downgrade() {
    let mut broker = seed_classic_member("m-classic", None, ConsumerGroupMigrationPolicy::Bidirectional);
    let native = broker.consumer_heartbeat("", 0, Some("t")).member_id.expect("native member id");
    let got = broker.classic_leave(&native);
    assert_eq!(got.members.len(), 1);
    assert_eq!(got.members[0].error_code, codes::NONE);
    let shown = broker.view();
    assert_eq!(shown.members.len(), 1);
    assert_eq!(shown.members[0].member_id, "m-classic");
}

#[test]
fn static_member_identity_survives_both_flips() {
    let mut broker = seed_classic_member("m1", Some("inst-a"), ConsumerGroupMigrationPolicy::Bidirectional);
    let native = broker.consumer_heartbeat("", 0, Some("t")).member_id.expect("native member id");
    assert_eq!(broker.consumer_heartbeat(&native, -1, None).error_code, codes::NONE);
    let shown = broker.view();
    let m1 = shown.members.iter().find(|m| m.member_id == "m1").expect("m1 restored");
    assert_eq!(m1.group_instance_id.as_deref(), Some("inst-a"));
    assert_eq!(broker.classic().static_members.get(&s("inst-a")), Some(&s("m1")));
}

#[test]
fn policy_disabled_keeps_group_classic() {
    let mut broker = seed_classic_member("m1", None, ConsumerGroupMigrationPolicy::Disabled);
    let got = broker.consumer_heartbeat("", 0, Some("t"));
    assert_eq!(got.error_code, codes::GROUP_ID_NOT_FOUND);
    assert!(broker.view().members.iter().any(|m| m.member_id == "m1"));
    assert_eq!(broker.group.tag(), GroupKindTag::Classic);
}

#[test]
fn committed_offsets_survive_a_flip() {
    let mut broker = seed_classic_member("m1", None, ConsumerGroupMigrationPolicy::Bidirectional);
    broker.group.update_committed(&vec![CommittedOffset { key: (s("t"), 0), entry: entry(99) }]);
    let native = broker.consumer_heartbeat("", 0, Some("t")).member_id.expect("native member id");
    assert_eq!(broker.group.tag(), GroupKindTag::Consumer);
    assert_eq!(committed(&broker), Some(99));
    assert_eq!(broker.consumer_heartbeat(&native, -1, None).error_code, codes::NONE);
    assert_eq!(broker.group.tag(), GroupKindTag::Classic);
    assert_eq!(committed(&broker), Some(99));
}

#[test]
fn downgraded_group_is_deletable_once_empty() {
    let mut broker = Broker::consumer();
    let native = broker.consumer_heartbeat("", 0, Some("t")).member_id.expect("native member id");
    assert_eq!(broker.classic_join("m-classic", "t").error_code, codes::NONE);
    assert_eq!(broker.consumer_heartbeat(&native, -1, None).error_code, codes::NONE);
    assert!(broker.view().members.iter().any(|m| m.member_id == "m-classic"));
    assert_eq!(broker.delete(), Err(DeleteGroupError::NonEmpty));
    assert!(!broker.classic_leave("m-classic").members.is_empty());
    assert!(broker.view().members.is_empty());
    assert_eq!(broker.delete(), Ok(()));
}

#[test]
fn a_downgrade_that_is_not_written_stops_the_group() {
    let mut broker = seed_classic_member("m-classic", None, ConsumerGroupMigrationPolicy::Bidirectional);
    let native = broker.consumer_heartbeat("", 0, Some("t")).member_id.expect("native member id");
    let before = broker.log.len();
    let turn = begin_leave(
        &mut broker.group,
        &mut broker.parked,
        &broker.config,
        &broker.input,
        &leave_request(&native),
        3,
        broker.now,
        broker.now_ms,
    );
    let (pending, responses) = match turn {
        LeaveTurn::Delta { pending, responses, .. } => (pending, responses),
        other => panic!("{other:?}"),
    };
    let turn = finish_consumer_leave(
        &broker.group,
        &mut broker.dir,
        broker.config.migration_policy,
        &broker.input,
        pending,
        responses,
        3,
        true,
        broker.now_ms,
    );
    let (plan, responses) = match turn {
        LeaveTurn::Downgrade { plan, responses } => (plan, responses),
        other => panic!("{other:?}"),
    };
    let (reply, running) = finish_leave_downgrade(&mut broker.group, &mut broker.dir, plan, responses, 3, false);
    assert!(!running);
    assert_eq!(reply.error_code, codes::COORDINATOR_LOAD_IN_PROGRESS);
    assert_eq!(broker.group.tag(), GroupKindTag::Consumer);
    assert_eq!(broker.log.len(), before);
}

#[test]
fn classic_last_member_expiration_persists_empty_generation() {
    let mut state = stable_classic_group(&["m1"]);
    let mut member = state.members.remove(&s("m1")).unwrap();
    member.session_timeout = 0;
    state.members.insert(s("m1"), member);
    let prior = state.generation_id;
    let mut broker = serving_classic(state);
    assert!(broker.tick());
    assert_eq!(broker.classic().state, ClassicGroupState::Empty);
    assert_eq!(broker.classic().generation_id, prior + 1);
    let kept = broker.last_classic_metadata();
    assert_eq!(kept.generation, prior + 1);
    assert!(kept.members.is_empty());
}

#[test]
fn an_expiration_that_is_not_written_is_tried_again() {
    let mut broker = serving_classic(stable_classic_group(&["m1"]));
    broker.now += 30_000;
    broker.fail_next = true;
    assert!(broker.tick());
    assert_eq!(broker.classic().state, ClassicGroupState::Stable);
    assert_eq!(broker.classic().members.len(), 1);
    assert!(broker.tick());
    assert!(broker.classic().members.is_empty());
    assert_eq!(broker.log.len(), 1);
}

#[test]
fn single_eviction_advances_epoch_by_one() {
    let mut broker = Broker::consumer().without_topics();
    broker.config.session_timeout = 1;
    let mut state = GroupState::new(s("g"));
    let req = ConsumerGroupHeartbeatRequest {
        group_id: s("g"),
        member_id: String::new(),
        member_epoch: 0,
        instance_id: None,
        rack_id: None,
        rebalance_timeout_ms: 60_000,
        subscribed_topic_names: Some(vec![s("t")]),
        subscribed_topic_regex: None,
        server_assignor: None,
        topic_partitions: None,
    };
    let client = ClientIdentity { id: s("client-a"), host: s("h") };
    state.add_or_update_member(build_member(&s("m1"), &req, &client, broker.now - 50, &OrdSet::new()));
    state.reconcile_if_dirty(&broker.input, &broker.config);
    assert!(!state.dirty);
    let before = state.group_epoch;
    broker.group = CoordinatorGroup::seeded(s("g"), GroupKind::Consumer(state), OrdMap::new());
    assert!(broker.tick());
    assert!(broker.state().members.is_empty());
    assert_eq!(broker.state().group_epoch, before + 1);
}

#[test]
fn actor_tick_does_not_panic_after_in_place_flip() {
    let mut broker = serving_classic(ClassicGroup::new(s("g")));
    broker.group = CoordinatorGroup::new_consumer(s("g"));
    assert!(broker.tick());
    assert!(broker.running);
}

#[test]
fn the_deadline_of_a_round_ends_it() {
    let mut broker = serving_classic(ClassicGroup::new(s("g")));
    let mut first = static_rejoin();
    assert_eq!(broker.join(&mut first, 5, "c", "h"), None);
    let deadline = classic_deadline(&broker.group).expect("a deadline");
    assert_eq!(deadline, broker.now + broker.config.classic_initial_rebalance_delay);
    broker.now = deadline;
    let (now, now_ms) = (broker.now, broker.now_ms);
    let round = match &mut broker.group.kind {
        GroupKind::Classic(state) => pass_deadline(state, &mut broker.parked, now, now_ms),
        GroupKind::Consumer(_) => unreachable!(),
    };
    assert_eq!(round.replies.joins.len(), 1);
    assert_eq!(round.replies.joins[0].result.generation_id, 1);
    assert_eq!(round.replies.joins[0].result.leader, first.member_id);
    assert!(round.emptied.is_none());
    assert_eq!(classic_deadline(&broker.group), None);
}

#[test]
fn describe_reports_an_upgraded_consumer_group() {
    let broker = seed_and_upgrade();
    let snapshot = inspect_any(&broker.group, &broker.input);
    assert_eq!(snapshot, build_consumer_snapshot(broker.state(), &broker.input));
    assert_eq!(snapshot.group_id, "g");
    assert_eq!(snapshot.protocol_type.as_deref(), Some("consumer"));
    assert!(snapshot.members.iter().any(|m| m.member_id == "m-classic" && !m.assignment.is_empty()));
    assert!(snapshot.generation_id >= 1);
    assert_eq!(broker.group.tag(), GroupKindTag::Consumer);
}

#[test]
fn a_member_without_an_id_is_told_one_and_changes_no_members() {
    let mut broker = serving_classic(ClassicGroup::new(s("g")));
    broker.dir.types.insert(s("g"), GroupType::Classic);
    let mut req = JoinGroupRequest { group_instance_id: None, ..static_rejoin() };
    let got = broker.join(&mut req, 4, "client-a", "").unwrap();
    assert_eq!(got.error_code, codes::MEMBER_ID_REQUIRED);
    assert!(got.member_id.starts_with("client-a-"));
    assert!(broker.view().group_id == "g" && broker.view().members.is_empty());
    assert_eq!(inspect_any(&broker.group, &broker.input), broker.view().snapshot());
    assert_eq!(broker.delete(), Ok(()));
    assert!(broker.wrote(&classic_tombstone()));
    assert!(broker.dir.group_type(&s("g")).is_none());
}

#[test]
fn membership_does_not_touch_offsets() {
    let mut broker = serving_classic(stable_classic_group(&["m1", "m2"]));
    broker.group.update_committed(&vec![CommittedOffset { key: (s("t"), 0), entry: entry(5) }]);
    broker.group.add_pending_txn_offsets(7, 1, &vec![(s("t"), 1)]);
    broker.classic_leave("m1");
    broker.now += 60_000;
    broker.tick();
    assert!(broker.classic().members.is_empty());
    assert_eq!(committed(&broker), Some(5));
    assert!(broker.group.offsets().pending_txn.contains(&(s("t"), 1)));
}
