use krabka_coordinator::assignor::{TopicMetadata, UniformAssignor};
use krabka_coordinator::classic_state::{ClassicGroup, GroupState as ClassicGroupState, Member, Protocol};
use krabka_coordinator::codes;
use krabka_coordinator::commit_validation::CommitFence;
use krabka_coordinator::config::NextGenConfig;
use krabka_coordinator::consumer_state::ReconcileInput;
use krabka_coordinator::directory::{Directory, GroupType};
use krabka_coordinator::dispatch::{handle_actor_message, handle_actor_message_with_id, handle_deadline, looks_at_topics, GroupActorMessage, GroupActorStep};
use krabka_coordinator::downgrade::is_downgrade_due;
use krabka_coordinator::group::{CommittedOffset, CoordinatorGroup, GroupKind};
use krabka_coordinator::heartbeat::{ClientIdentity, ConsumerGroupHeartbeatRequest};
use krabka_coordinator::heartbeat_turn::HeartbeatTurn;
use krabka_coordinator::join_turn::JoinTurn;
use krabka_coordinator::leave_turn::{
    finish_streams_delete, plan_share_delete, plan_streams_delete, DeleteGroupError, LeaveTurn,
};
use krabka_coordinator::offset_delete::SubscribedTopics;
use krabka_coordinator::ordmap::{OrdMap, OrdSet};
use krabka_coordinator::pending_records::GroupSeed;
use krabka_coordinator::records::{GroupRecord, OffsetEntry};
use krabka_coordinator::requests::{
    HeartbeatRequest, JoinGroupRequest, LeaveGroupRequest, MemberIdentity, SyncGroupRequest, SyncGroupRequestAssignment,
};
use krabka_coordinator::retention::ReapOutcome;
use krabka_coordinator::share_streams::{ShareGroupSeed, StreamsGroupSeed, StreamsRecord};
use krabka_coordinator::sync_turn::SyncTurn;
use krabka_coordinator::tick_turn::tick_looks_at_topics;
use krabka_coordinator::waiters::Parked;

const NOW: u64 = 1_000_000;
const NOW_MS: i64 = 5_000_000;

fn s(text: &str) -> String {
    text.to_string()
}

struct Served {
    group: CoordinatorGroup,
    parked: Parked,
    config: NextGenConfig<UniformAssignor>,
    input: ReconcileInput,
    now: u64,
}

impl Served {
    fn of(group: CoordinatorGroup) -> Self {
        let mut topic_id_by_name = OrdMap::new();
        let mut partitions_per_topic = OrdMap::new();
        topic_id_by_name.insert(s("t"), 7u128);
        partitions_per_topic.insert(7u128, 2);
        Served {
            group,
            parked: Parked::none(),
            config: NextGenConfig::standard(),
            input: ReconcileInput { topic_id_by_name, topics: TopicMetadata { partitions_per_topic, partition_racks: OrdMap::new() } },
            now: NOW,
        }
    }

    fn classic() -> Self {
        Self::of(CoordinatorGroup::seeded(s("g"), GroupKind::Classic(ClassicGroup::new(s("g"))), OrdMap::new()))
    }

    fn stable(member_id: &str) -> Self {
        let mut state = ClassicGroup::new(s("g"));
        state.protocol_type = Some(s("consumer"));
        let mut member =
            Member::new(s(member_id), s("client"), s("host"), 30_000, 60_000, vec![Protocol { name: s("range"), metadata: vec![] }]);
        member.last_heartbeat = NOW;
        state.add_member(member);
        state.resolve_selected_protocol_metadata(&s("range"));
        assert!(state.complete_rebalance(s("range")));
        state.state = ClassicGroupState::Stable;
        Self::of(CoordinatorGroup::seeded(s("g"), GroupKind::Classic(state), OrdMap::new()))
    }

    fn consumer() -> Self {
        Self::of(CoordinatorGroup::new_consumer(s("g")))
    }

    fn send(&mut self, message: GroupActorMessage) -> GroupActorStep {
        handle_actor_message_with_id(
            &mut self.group,
            &mut self.parked,
            &self.config,
            &self.input,
            message,
            &s("minted"),
            self.now,
            NOW_MS,
        )
    }

    fn state(&self) -> &ClassicGroup {
        match &self.group.kind {
            GroupKind::Classic(state) => state,
            GroupKind::Consumer(_) => panic!("a consumer group"),
        }
    }
}

fn key(partition: i32) -> (String, i32) {
    (s("t"), partition)
}

fn offset(partition: i32, offset: i64) -> CommittedOffset {
    CommittedOffset {
        key: key(partition),
        entry: OffsetEntry {
            offset,
            leader_epoch: -1,
            metadata: String::new(),
            commit_timestamp_ms: 0,
            expire_timestamp_ms: None,
            topic_id: None,
        },
    }
}

fn join(member_id: &str) -> GroupActorMessage {
    GroupActorMessage::ClassicJoin {
        req: JoinGroupRequest {
            group_id: s("g"),
            session_timeout_ms: 30_000,
            rebalance_timeout_ms: 60_000,
            member_id: s(member_id),
            group_instance_id: None,
            protocol_type: s("consumer"),
            protocols: vec![Protocol { name: s("range"), metadata: vec![1] }],
        },
        version: 3,
        client_id: s("client"),
        client_host: s("host"),
    }
}

fn first_heartbeat(member_id: &str) -> GroupActorMessage {
    GroupActorMessage::Heartbeat {
        request: ConsumerGroupHeartbeatRequest {
            group_id: s("g"),
            member_id: s(member_id),
            member_epoch: 0,
            instance_id: None,
            rack_id: None,
            rebalance_timeout_ms: 60_000,
            subscribed_topic_names: Some(vec![s("t")]),
            subscribed_topic_regex: None,
            server_assignor: None,
            topic_partitions: None,
        },
        client: ClientIdentity { id: s("client"), host: s("host") },
        authorized: OrdSet::new(),
    }
}

#[test]
fn each_kind_of_group_describes_itself_only() {
    let mut classic = Served::stable("m1");
    assert_eq!(classic.send(GroupActorMessage::Describe), GroupActorStep::Described(None));
    match classic.send(GroupActorMessage::ClassicInspect) {
        GroupActorStep::ClassicInspected(Some(view)) => assert_eq!(view.members.len(), 1),
        other => panic!("{other:?}"),
    }
    let mut consumer = Served::consumer();
    assert_eq!(consumer.send(GroupActorMessage::ClassicInspect), GroupActorStep::ClassicInspected(None));
    match consumer.send(GroupActorMessage::Describe) {
        GroupActorStep::Described(Some(view)) => assert_eq!(view.members.len(), 0),
        other => panic!("{other:?}"),
    }
    for mut served in [classic, consumer] {
        match served.send(GroupActorMessage::InspectAny) {
            GroupActorStep::Inspected(view) => assert_eq!(view.group_id, "g"),
            other => panic!("{other:?}"),
        }
    }
}

#[test]
fn offsets_are_kept_through_the_messages_on_them() {
    let mut served = Served::classic();
    assert_eq!(served.send(GroupActorMessage::UpdateCommitted { entries: vec![offset(0, 5), offset(1, 6)] }), GroupActorStep::Done);
    assert_eq!(served.send(GroupActorMessage::RemoveCommitted { keys: vec![key(0)] }), GroupActorStep::Done);
    assert_eq!(served.send(GroupActorMessage::AddPendingTxnOffsets { producer_id: 9, written_at: 3, keys: vec![key(1)] }), GroupActorStep::Done);
    match served.send(GroupActorMessage::FetchOffsets) {
        GroupActorStep::Offsets(offsets) => {
            assert_eq!(offsets.committed.len(), 1);
            assert_eq!(offsets.committed.get(&key(1)).map(|e| e.offset), Some(6));
            assert!(offsets.pending_txn.contains(&key(1)));
        }
        other => panic!("{other:?}"),
    }
    assert_eq!(
        served.send(GroupActorMessage::ResolveTxnOffsets { producer_id: 9, resolved_through: 4, committed: vec![offset(1, 7)] }),
        GroupActorStep::Done
    );
    match served.send(GroupActorMessage::FetchOffsets) {
        GroupActorStep::Offsets(offsets) => {
            assert_eq!(offsets.committed.get(&key(1)).map(|e| e.offset), Some(7));
            assert!(offsets.pending_txn.is_empty());
        }
        other => panic!("{other:?}"),
    }
}

#[test]
fn a_reservation_is_kept_until_it_is_given_up() {
    let mut served = Served::classic();
    let held = |served: &Served| served.group.unresolved_txn_keys().contains(&key(0));
    served.send(GroupActorMessage::TxnOffsetReservation { producer_id: 9, keys: vec![key(0)], reserve: true });
    assert!(held(&served));
    served.send(GroupActorMessage::TxnOffsetReservation { producer_id: 9, keys: vec![key(0)], reserve: false });
    assert!(!held(&served));
}

#[test]
fn a_joiner_waits_under_the_id_that_it_is_given_until_the_deadline() {
    let mut served = Served::classic();
    match served.send(join("")) {
        GroupActorStep::Join(JoinTurn::Done { member_id, reply: None, .. }) => assert_eq!(member_id, "client-minted"),
        other => panic!("{other:?}"),
    }
    assert!(served.parked.joiners.contains(&s("client-minted")));
    served.now = NOW + 60_000;
    let round = handle_deadline(&mut served.group, &mut served.parked, NOW + 60_000, NOW_MS).expect("a classic group");
    assert_eq!(round.replies.joins.len(), 1);
    assert_eq!(round.replies.joins[0].member_id, "client-minted");
    assert_eq!(round.replies.joins[0].result.error_code, codes::NONE);
    assert_eq!(round.replies.joins[0].result.generation_id, 1);
    assert!(served.parked.joiners.is_empty());
}

#[test]
fn a_consumer_group_has_no_deadline() {
    let mut served = Served::consumer();
    assert!(handle_deadline(&mut served.group, &mut served.parked, NOW, NOW_MS).is_none());
}

#[test]
fn a_classic_member_is_served_through_its_messages() {
    let mut served = Served::stable("m1");
    let beat = HeartbeatRequest { group_id: s("g"), generation_id: 1, member_id: s("m1"), group_instance_id: None };
    assert_eq!(served.send(GroupActorMessage::ClassicHeartbeat { req: beat }), GroupActorStep::ClassicHeartbeat(codes::NONE));
    let sync = SyncGroupRequest {
        group_id: s("g"),
        generation_id: 1,
        member_id: s("m2"),
        group_instance_id: None,
        protocol_type: None,
        protocol_name: None,
        assignments: vec![SyncGroupRequestAssignment { member_id: s("m1"), assignment: vec![1] }],
    };
    match served.send(GroupActorMessage::ClassicSync { req: sync }) {
        GroupActorStep::Sync(SyncTurn::Done { reply: Some(reply) }) => assert_eq!(reply.error_code, codes::UNKNOWN_MEMBER_ID),
        other => panic!("{other:?}"),
    }
    let fence = CommitFence::Offset { api_version: 8 };
    let commit = |member_id: &str| GroupActorMessage::ValidateCommit {
        member_id: s(member_id),
        group_instance_id: None,
        generation_or_epoch: 1,
        fence,
    };
    assert_eq!(served.send(commit("m1")), GroupActorStep::Validated(Ok(())));
    assert_eq!(served.send(commit("m2")), GroupActorStep::Validated(Err(codes::UNKNOWN_MEMBER_ID)));
    let leave = LeaveGroupRequest {
        group_id: s("g"),
        member_id: String::new(),
        members: vec![MemberIdentity { member_id: s("m1"), group_instance_id: None }],
    };
    match served.send(GroupActorMessage::ClassicLeave { req: leave, version: 3 }) {
        GroupActorStep::Leave(LeaveTurn::Persist { removed, .. }) => assert_eq!(removed, vec![s("m1")]),
        other => panic!("{other:?}"),
    }
    assert_eq!(served.state().generation_id, 2);
}

#[test]
fn a_heartbeat_without_an_id_is_given_one() {
    let mut served = Served::consumer();
    match served.send(first_heartbeat("")) {
        GroupActorStep::Heartbeat(HeartbeatTurn::Persist { reply, .. }) => assert_eq!(reply.member_id, Some(s("minted"))),
        other => panic!("{other:?}"),
    }
    let mut other = Served::consumer();
    let step = handle_actor_message(&mut other.group, &mut other.parked, &other.config, &other.input, first_heartbeat(""), NOW, NOW_MS);
    match step {
        GroupActorStep::Heartbeat(HeartbeatTurn::Persist { reply, .. }) => assert_eq!(reply.member_id.unwrap().len(), 36),
        other => panic!("{other:?}"),
    }
}

#[test]
fn a_group_is_deleted_only_without_members() {
    let mut full = Served::stable("m1");
    assert_eq!(full.send(GroupActorMessage::ClassicDelete), GroupActorStep::Delete(Err(DeleteGroupError::NonEmpty)));
    assert_eq!(full.send(GroupActorMessage::OffsetDeleteGuard), GroupActorStep::Guarded(Ok(SubscribedTopics::All)));
    let mut empty = Served::classic();
    empty.send(GroupActorMessage::UpdateCommitted { entries: vec![offset(0, 5)] });
    match empty.send(GroupActorMessage::ClassicDelete) {
        GroupActorStep::Delete(Ok(batch)) => {
            let records: Vec<&GroupRecord> = batch.records.iter().map(|r| &r.record).collect();
            assert_eq!(
                records,
                vec![
                    &GroupRecord::OffsetCommit { topic: s("t"), partition: 0, value: None },
                    &GroupRecord::ClassicMetadata { value: None },
                ]
            );
        }
        other => panic!("{other:?}"),
    }
}

#[test]
fn what_expired_and_what_lost_its_topic_is_planned_to_go() {
    let mut served = Served::classic();
    served.send(GroupActorMessage::UpdateCommitted { entries: vec![offset(0, 5)] });
    match served.send(GroupActorMessage::Reap { retention_ms: 1_000, grace_ms: 0 }) {
        GroupActorStep::Reap(Some(reap)) => {
            assert_eq!(reap.outcome, ReapOutcome { reaped: vec![key(0)], group_deleted: true });
            assert!(reap.outcome.changed());
        }
        other => panic!("{other:?}"),
    }
    assert_eq!(served.send(GroupActorMessage::Reap { retention_ms: NOW_MS + 1, grace_ms: 0 }), GroupActorStep::Reap(None));
    let gone = |name: &str| GroupActorMessage::DeleteTopicOffsets { topics: vec![(s(name), 7)] };
    match served.send(gone("t")) {
        GroupActorStep::TopicDeletion(Some(plan)) => assert_eq!(plan.keys, vec![key(0)]),
        other => panic!("{other:?}"),
    }
    assert_eq!(served.send(gone("u")), GroupActorStep::TopicDeletion(None));
    assert_eq!(served.group.committed_offsets.len(), 1);
    assert!(!ReapOutcome::nothing().changed());
}

#[test]
fn seeds_reach_the_group_that_they_are_of() {
    let mut seed = GroupSeed::blank();
    seed.group_epoch = 4;
    let mut consumer = Served::consumer();
    assert_eq!(consumer.send(GroupActorMessage::Seed(seed)), GroupActorStep::Done);
    match consumer.send(GroupActorMessage::Describe) {
        GroupActorStep::Described(Some(view)) => assert_eq!(view.group_epoch, 4),
        other => panic!("{other:?}"),
    }
    let mut classic = Served::stable("m1");
    classic.send(GroupActorMessage::Seed(GroupSeed::blank()));
    assert_eq!(classic.state().members.len(), 1);
    classic.send(GroupActorMessage::ClassicSeed(Served::stable("m2").group));
    assert!(classic.state().members.contains_key(&s("m2")));
    assert!(!classic.state().members.contains_key(&s("m1")));
    assert_eq!(classic.send(GroupActorMessage::Shutdown), GroupActorStep::Stopped);
}

#[test]
fn a_streams_group_is_deleted_once_it_has_no_members() {
    assert_eq!(plan_streams_delete(None), Err(DeleteGroupError::NotFound));
    assert_eq!(plan_streams_delete(Some(2)), Err(DeleteGroupError::NonEmpty));
    let records = plan_streams_delete(Some(0)).unwrap();
    assert_eq!(records.len(), 4);
    assert_eq!(records[0], StreamsRecord::GroupMetadata { epoch: None });
    assert!(records.iter().all(|r| r.is_tombstone()));
    let mut dir = Directory::new();
    dir.streams_groups.insert(s("g"));
    dir.streams_seeds.insert(s("g"), StreamsGroupSeed::blank());
    assert_eq!(finish_streams_delete(&mut dir, &s("g"), false), Err(DeleteGroupError::Internal));
    assert!(dir.streams_groups.contains(&s("g")));
    assert_eq!(finish_streams_delete(&mut dir, &s("g"), true), Ok(()));
    assert_eq!(dir, Directory::new());
}

#[test]
fn a_share_group_is_forgotten_unless_another_took_its_id() {
    let mut dir = Directory::new();
    assert_eq!(plan_share_delete(&dir, &s("g")), Err(DeleteGroupError::NotFound));
    dir.share_seeds.insert(s("g"), ShareGroupSeed::blank());
    assert_eq!(plan_share_delete(&dir, &s("g")), Ok(()));
    dir.share_groups.insert(s("h"));
    dir.types.insert(s("h"), GroupType::Share);
    assert_eq!(plan_share_delete(&dir, &s("h")), Ok(()));
    dir.forget_share_group(&s("h"), true);
    assert_eq!(dir.group_type(&s("h")), Some(GroupType::Share));
    dir.forget_share_group(&s("h"), false);
    assert_eq!(dir.group_type(&s("h")), None);
    assert_eq!(plan_share_delete(&dir, &s("h")), Err(DeleteGroupError::NotFound));
    dir.types.insert(s("i"), GroupType::Classic);
    dir.forget_share_group(&s("i"), false);
    assert_eq!(dir.group_type(&s("i")), Some(GroupType::Classic));
}

fn beat(member_id: &str, member_epoch: i32, topic: &str) -> GroupActorMessage {
    match first_heartbeat(member_id) {
        GroupActorMessage::Heartbeat { mut request, client, authorized } => {
            request.member_epoch = member_epoch;
            request.subscribed_topic_names = Some(vec![s(topic)]);
            GroupActorMessage::Heartbeat { request, client, authorized }
        }
        other => other,
    }
}

#[test]
fn a_heartbeat_that_only_goes_on_needs_no_topics() {
    let mut served = Served::consumer();
    assert!(looks_at_topics(&served.group, &first_heartbeat("m1")));
    served.send(first_heartbeat("m1"));
    assert!(!looks_at_topics(&served.group, &beat("m1", 1, "t")));
    assert!(looks_at_topics(&served.group, &beat("m1", 1, "u")));
    assert!(looks_at_topics(&served.group, &beat("m1", 0, "t")));
    assert!(looks_at_topics(&served.group, &beat("m1", -1, "t")));
    assert!(looks_at_topics(&served.group, &beat("m2", 1, "t")));
    let seen = match served.send(beat("m1", 1, "t")) {
        GroupActorStep::Heartbeat(HeartbeatTurn::Answered { reply, .. }) => reply,
        other => panic!("{other:?}"),
    };
    served.input = ReconcileInput::empty();
    match served.send(beat("m1", 1, "t")) {
        GroupActorStep::Heartbeat(HeartbeatTurn::Answered { reply, .. }) => assert_eq!(reply, seen),
        other => panic!("{other:?}"),
    }
}

#[test]
fn only_some_messages_need_the_topics() {
    let classic = Served::stable("m1");
    let consumer = Served::consumer();
    for message in [join("m1"), GroupActorMessage::InspectAny, GroupActorMessage::Seed(GroupSeed::blank())] {
        assert!(!looks_at_topics(&classic.group, &message));
        assert!(looks_at_topics(&consumer.group, &message));
    }
    for message in [GroupActorMessage::Describe, GroupActorMessage::FetchOffsets, GroupActorMessage::ClassicDelete] {
        assert!(!looks_at_topics(&consumer.group, &message));
    }
}

#[test]
fn a_tick_needs_the_topics_once_a_member_is_silent() {
    let mut served = Served::consumer();
    served.send(first_heartbeat("m1"));
    assert!(!tick_looks_at_topics(&served.group, &served.config, NOW + 1));
    assert!(tick_looks_at_topics(&served.group, &served.config, NOW + 100_000));
    assert!(!tick_looks_at_topics(&Served::stable("m1").group, &served.config, NOW + 100_000));
    assert!(!is_downgrade_due(&served.group, served.config.migration_policy));
}
