//! How the coordinator's own topics are registered, and which of their partitions are read back.

use crate::ids::{fresh_topic_id, random_id};
use crate::metadata::{MetadataImage, TopicRecord};
use crate::ordmap::{OrdSet, listing, views};
use crate::partitioner::OFFSETS_TOPIC;
use crate::persistence::list_of;
use vstd::prelude::*;

verus! {

/// Who holds a partition; the first replica leads.
#[derive(Debug, PartialEq, Eq)]
pub struct Placement {
    pub partition: i32,
    pub leader: u64,
    pub replicas: Vec<u64>,
}

#[verifier::ext_equal]
pub struct PlacementView {
    pub partition: i32,
    pub leader: u64,
    pub replicas: Seq<u64>,
}

impl View for Placement {
    type V = PlacementView;

    open spec fn view(&self) -> PlacementView {
        PlacementView { partition: self.partition, leader: self.leader, replicas: self.replicas@ }
    }
}

/// A topic to be registered.
#[derive(Debug, PartialEq, Eq)]
pub struct TopicPlan {
    pub name: String,
    pub topic_id: u128,
    pub partitions: i32,
    pub replication_factor: i16,
    pub placements: Vec<Placement>,
}

#[verifier::ext_equal]
pub struct TopicPlanView {
    pub name: Seq<char>,
    pub topic_id: u128,
    pub partitions: i32,
    pub replication_factor: i16,
    pub placements: Seq<PlacementView>,
}

impl View for TopicPlan {
    type V = TopicPlanView;

    open spec fn view(&self) -> TopicPlanView {
        TopicPlanView {
            name: self.name@,
            topic_id: self.topic_id,
            partitions: self.partitions,
            replication_factor: self.replication_factor,
            placements: views(self.placements@),
        }
    }
}

/// The brokers in the order of their ids; this one alone where none has registered.
pub open spec fn broker_list(brokers: Set<u64>, node_id: u64) -> Seq<u64> {
    let list = listing::<u64>(brokers);
    if list.len() == 0 {
        seq![node_id]
    } else {
        list
    }
}

/// The replicas of partition `p`: `rf` brokers round robin, from the `p`-th on.
pub open spec fn replicas_of(brokers: Seq<u64>, p: int, rf: int) -> Seq<u64> {
    Seq::new(rf as nat, |r: int| brokers[(p + r) % (brokers.len() as int)])
}

/// Where the first `n` partitions go.
pub open spec fn round_robin(brokers: Seq<u64>, n: int, rf: int) -> Seq<PlacementView> {
    Seq::new(
        n as nat,
        |p: int| PlacementView { partition: p as i32, leader: brokers[p % (brokers.len() as int)], replicas: replicas_of(brokers, p, rf) },
    )
}

/// How often a partition is replicated: as configured, but not more often than there are brokers,
/// and at least once.
pub open spec fn effective_replication(configured: i16, brokers: int) -> i16 {
    if configured < 1 {
        1
    } else if configured > brokers {
        brokers as i16
    } else {
        configured
    }
}

fn listed_brokers(brokers: &OrdSet<u64>, node_id: u64) -> (r: Vec<u64>)
    ensures
        r@ == broker_list(brokers@, node_id),
        r@.len() > 0,
{
    let mut list: Vec<u64> = list_of(brokers);
    assert(views(list@) =~= list@);
    if list.len() == 0 {
        list.push(node_id);
        assert(list@ =~= seq![node_id]);
    }
    list
}

/// How often a partition is replicated.
pub fn internal_topic_replication_factor(configured: i16, brokers: usize) -> (r: i16)
    ensures
        r == effective_replication(configured, brokers as int),
{
    if configured < 1 {
        1
    } else if configured as usize > brokers {
        brokers as i16
    } else {
        configured
    }
}

/// Places partitions on brokers round robin.
pub fn round_robin_replicas(brokers: &Vec<u64>, partitions: i32, replication_factor: i16) -> (r: Vec<Placement>)
    requires
        brokers@.len() > 0,
        partitions >= 0,
        replication_factor >= 1,
    ensures
        views(r@) == round_robin(brokers@, partitions as int, replication_factor as int),
{
    let ghost expected = round_robin(brokers@, partitions as int, replication_factor as int);
    let n: usize = brokers.len();
    let mut out: Vec<Placement> = Vec::new();
    let mut p: i32 = 0;
    while p < partitions
        invariant
            0 <= p <= partitions,
            n == brokers@.len(),
            n > 0,
            replication_factor >= 1,
            expected == round_robin(brokers@, partitions as int, replication_factor as int),
            out@.len() == p,
            forall|j: int| 0 <= j < p ==> (#[trigger] out@[j])@ == expected[j],
        decreases partitions - p,
    {
        let ghost wanted = replicas_of(brokers@, p as int, replication_factor as int);
        let mut replicas: Vec<u64> = Vec::new();
        let mut k: i16 = 0;
        while k < replication_factor
            invariant
                0 <= k <= replication_factor,
                0 <= p,
                n == brokers@.len(),
                n > 0,
                wanted == replicas_of(brokers@, p as int, replication_factor as int),
                replicas@.len() == k,
                forall|j: int| 0 <= j < k ==> #[trigger] replicas@[j] == wanted[j],
            decreases replication_factor - k,
        {
            let at: u64 = (p as u64 + k as u64) % (n as u64);
            assert(at as int == (p + k) % (n as int));
            assert(at < n);
            replicas.push(brokers[at as usize]);
            k = k + 1;
        }
        assert(replicas@ =~= wanted);
        let leader: u64 = replicas[0];
        let placement = Placement { partition: p, leader, replicas };
        assert(placement@ =~= expected[p as int]);
        out.push(placement);
        p = p + 1;
    }
    assert(views(out@) =~= expected);
    out
}

/// A topic on the given brokers.
pub open spec fn planned_topic(name: Seq<char>, topic_id: u128, brokers: Seq<u64>, partitions: i32, rf: i16) -> TopicPlanView {
    TopicPlanView { name, topic_id, partitions, replication_factor: rf, placements: round_robin(brokers, partitions as int, rf as int) }
}

/// What is to be done about the offsets topic.
#[derive(Debug, PartialEq, Eq)]
pub enum OffsetsTopicAction {
    /// It is there.
    Present,
    /// This broker is the one to register it.
    Register(TopicPlan),
    /// Another broker is; its registration is to be awaited.
    Await,
}

#[verifier::ext_equal]
pub enum OffsetsTopicActionView {
    Present,
    Register(TopicPlanView),
    Await,
}

impl View for OffsetsTopicAction {
    type V = OffsetsTopicActionView;

    open spec fn view(&self) -> OffsetsTopicActionView {
        match self {
            OffsetsTopicAction::Present => OffsetsTopicActionView::Present,
            OffsetsTopicAction::Register(plan) => OffsetsTopicActionView::Register(plan@),
            OffsetsTopicAction::Await => OffsetsTopicActionView::Await,
        }
    }
}

/// What is to be done about the offsets topic: only the leader of the metadata quorum registers it,
/// so that it is registered once.
pub open spec fn offsets_action(
    image: MetadataImage,
    leader: Option<u64>,
    node_id: u64,
    brokers: Set<u64>,
    partitions: i32,
    replication: i16,
    topic_id: u128,
) -> OffsetsTopicActionView {
    let list = broker_list(brokers, node_id);
    if image.topics@.contains_key(OFFSETS_TOPIC@) {
        OffsetsTopicActionView::Present
    } else if leader == Some(node_id) {
        OffsetsTopicActionView::Register(
            planned_topic(OFFSETS_TOPIC@, topic_id, list, partitions, effective_replication(replication, list.len() as int)),
        )
    } else {
        OffsetsTopicActionView::Await
    }
}

/// What is to be done about the offsets topic; `topic_id` is its id where it is registered now.
pub fn plan_offsets_topic_with_id(
    image: &MetadataImage,
    leader: Option<u64>,
    node_id: u64,
    brokers: &OrdSet<u64>,
    partitions: i32,
    replication: i16,
    topic_id: u128,
) -> (r: OffsetsTopicAction)
    requires
        partitions >= 0,
    ensures
        r@ == offsets_action(*image, leader, node_id, brokers@, partitions, replication, topic_id),
{
    let name: String = OFFSETS_TOPIC.to_owned();
    if image.topics.contains_key(&name) {
        return OffsetsTopicAction::Present;
    }
    let am_leader: bool = match leader {
        Some(id) => id == node_id,
        None => false,
    };
    if !am_leader {
        return OffsetsTopicAction::Await;
    }
    let list = listed_brokers(brokers, node_id);
    let replication_factor: i16 = internal_topic_replication_factor(replication, list.len());
    let placements = round_robin_replicas(&list, partitions, replication_factor);
    OffsetsTopicAction::Register(TopicPlan { name, topic_id, partitions, replication_factor, placements })
}

/// What is to be done about the offsets topic. Where it is registered now it gets a fresh id.
pub fn plan_offsets_topic(image: &MetadataImage, leader: Option<u64>, node_id: u64, brokers: &OrdSet<u64>, partitions: i32, replication: i16) -> (r:
    OffsetsTopicAction)
    requires
        partitions >= 0,
    ensures
        exists|topic_id: u128| #[trigger] random_id(topic_id) && r@ == offsets_action(*image, leader, node_id, brokers@, partitions, replication, topic_id),
{
    let topic_id: u128 = fresh_topic_id();
    plan_offsets_topic_with_id(image, leader, node_id, brokers, partitions, replication, topic_id)
}

/// Why a broker does not start.
#[derive(Clone, Copy, Debug, PartialEq, Eq, Structural)]
pub enum StartRefusal {
    /// There is no log directory that can be written.
    NoLogDir,
    /// The offsets topic was awaited in vain.
    NoOffsetsTopic,
}

/// What is to be done about the offsets topic when the broker starts; `topic_id` is its id where it
/// is registered now. A broker without a log directory that can be written does not get that far.
pub fn plan_start_with_id(
    online_log_dirs: usize,
    image: &MetadataImage,
    leader: Option<u64>,
    node_id: u64,
    brokers: &OrdSet<u64>,
    partitions: i32,
    replication: i16,
    topic_id: u128,
) -> (r: Result<OffsetsTopicAction, StartRefusal>)
    requires
        partitions >= 0,
    ensures
        match r {
            Ok(action) => online_log_dirs > 0 && action@ == offsets_action(*image, leader, node_id, brokers@, partitions, replication, topic_id),
            Err(e) => online_log_dirs == 0 && e == StartRefusal::NoLogDir,
        },
{
    if online_log_dirs == 0 {
        return Err(StartRefusal::NoLogDir);
    }
    Ok(plan_offsets_topic_with_id(image, leader, node_id, brokers, partitions, replication, topic_id))
}

/// What is to be done about the offsets topic when the broker starts. Where it is registered now it
/// gets a fresh id.
pub fn plan_start(
    online_log_dirs: usize,
    image: &MetadataImage,
    leader: Option<u64>,
    node_id: u64,
    brokers: &OrdSet<u64>,
    partitions: i32,
    replication: i16,
) -> (r: Result<OffsetsTopicAction, StartRefusal>)
    requires
        partitions >= 0,
    ensures
        match r {
            Ok(action) => online_log_dirs > 0 && exists|topic_id: u128| #[trigger]
                random_id(topic_id) && action@ == offsets_action(*image, leader, node_id, brokers@, partitions, replication, topic_id),
            Err(e) => online_log_dirs == 0 && e == StartRefusal::NoLogDir,
        },
{
    if online_log_dirs == 0 {
        return Err(StartRefusal::NoLogDir);
    }
    Ok(plan_offsets_topic(image, leader, node_id, brokers, partitions, replication))
}

/// The topics once an action on the offsets topic is done.
pub open spec fn topics_after(topics: Map<Seq<char>, TopicRecord>, action: OffsetsTopicActionView) -> Map<Seq<char>, TopicRecord> {
    match action {
        OffsetsTopicActionView::Register(plan) => with_planned(topics, plan),
        OffsetsTopicActionView::Present | OffsetsTopicActionView::Await => topics,
    }
}

/// The topics once one is registered as planned.
pub open spec fn with_planned(topics: Map<Seq<char>, TopicRecord>, plan: TopicPlanView) -> Map<Seq<char>, TopicRecord> {
    topics.insert(plan.name, TopicRecord { topic_id: plan.topic_id, partitions: plan.partitions })
}

/// A start with the topics that an earlier start left registers nothing, whoever leads by then and
/// whatever is configured: there is one offsets topic, and it keeps the id that it was given first.
/// (A broker that awaits the topic starts once it is there.)
pub proof fn second_start_registers_nothing(
    image: MetadataImage,
    leader: Option<u64>,
    node_id: u64,
    brokers: Set<u64>,
    partitions: i32,
    replication: i16,
    topic_id: u128,
    again: MetadataImage,
    leader_again: Option<u64>,
    node_again: u64,
    brokers_again: Set<u64>,
    partitions_again: i32,
    replication_again: i16,
    id_again: u128,
)
    requires
        ({
            let first = offsets_action(image, leader, node_id, brokers, partitions, replication, topic_id);
            &&& again.topics@ == topics_after(image.topics@, first)
            &&& first is Await ==> again.topics@.contains_key(OFFSETS_TOPIC@)
        }),
    ensures
        ({
            let first = offsets_action(image, leader, node_id, brokers, partitions, replication, topic_id);
            let second = offsets_action(again, leader_again, node_again, brokers_again, partitions_again, replication_again, id_again);
            &&& second is Present
            &&& topics_after(again.topics@, second) == again.topics@
            &&& again.topics@[OFFSETS_TOPIC@].topic_id == if first is Register {
                topic_id
            } else {
                image.topics@[OFFSETS_TOPIC@].topic_id
            }
        }),
{
}

/// Nobody registers the offsets topic but the leader of the metadata quorum, and only where it is not
/// there.
pub proof fn only_the_leader_registers(
    image: MetadataImage,
    leader: Option<u64>,
    node_id: u64,
    brokers: Set<u64>,
    partitions: i32,
    replication: i16,
    topic_id: u128,
)
    ensures
        offsets_action(image, leader, node_id, brokers, partitions, replication, topic_id) is Register <==> leader == Some(node_id)
            && !image.topics@.contains_key(OFFSETS_TOPIC@),
{
}

/// How an await of the offsets topic goes on: it is over once the topic is ready, and in vain where
/// no time is left; else it goes on, which is `false`.
pub fn await_offsets_topic(image: &MetadataImage, expected_partitions: i32, remaining_ms: u64) -> (r: Result<bool, StartRefusal>)
    ensures
        ({
            let ready = image.topics@.contains_key(OFFSETS_TOPIC@) && image.partition_count(OFFSETS_TOPIC@) == expected_partitions;
            match r {
                Ok(over) => over == ready && (ready || remaining_ms > 0),
                Err(e) => !ready && remaining_ms == 0 && e == StartRefusal::NoOffsetsTopic,
            }
        }),
{
    if offsets_topic_ready(image, expected_partitions) {
        Ok(true)
    } else if remaining_ms == 0 {
        Err(StartRefusal::NoOffsetsTopic)
    } else {
        Ok(false)
    }
}

/// Whether the image knows the offsets topic with the partitions it is to have.
pub fn offsets_topic_ready(image: &MetadataImage, expected_partitions: i32) -> (r: bool)
    ensures
        r == (image.topics@.contains_key(OFFSETS_TOPIC@) && image.partition_count(OFFSETS_TOPIC@) == expected_partitions),
{
    let name: String = OFFSETS_TOPIC.to_owned();
    image.topics.contains_key(&name) && image.topic_partition_count(OFFSETS_TOPIC) == expected_partitions
}

/// How a registration went.
#[derive(Clone, Copy, Debug, PartialEq, Eq, Structural)]
pub enum SubmitOutcome {
    Registered,
    /// The topic was there already.
    TopicExists,
    Failed,
}

impl SubmitOutcome {
    /// Whether the topic is there now: also where it was before.
    pub fn is_settled(self) -> (r: bool)
        ensures
            r == (self != SubmitOutcome::Failed),
    {
        match self {
            SubmitOutcome::Registered | SubmitOutcome::TopicExists => true,
            SubmitOutcome::Failed => false,
        }
    }
}

/// The audit topic to be registered, if it is to: it is enabled, this broker leads the metadata
/// quorum, and it is not there. Each broker leads one partition.
pub open spec fn audit_plan(
    enabled: bool,
    image: MetadataImage,
    leader: Option<u64>,
    node_id: u64,
    name: Seq<char>,
    brokers: Set<u64>,
    topic_id: u128,
) -> Option<TopicPlanView> {
    let list = broker_list(brokers, node_id);
    if !enabled || leader != Some(node_id) || image.topics@.contains_key(name) {
        None
    } else {
        Some(
            planned_topic(
                name,
                topic_id,
                list,
                if list.len() <= i32::MAX {
                    list.len() as i32
                } else {
                    1
                },
                1,
            ),
        )
    }
}

/// Where the audit topic was registered, a second start registers nothing, and the topic keeps its
/// id.
pub proof fn second_audit_start_registers_nothing(
    image: MetadataImage,
    leader: Option<u64>,
    node_id: u64,
    name: Seq<char>,
    brokers: Set<u64>,
    topic_id: u128,
    again: MetadataImage,
    leader_again: Option<u64>,
    node_again: u64,
    brokers_again: Set<u64>,
    id_again: u128,
)
    requires
        audit_plan(true, image, leader, node_id, name, brokers, topic_id) is Some,
        again.topics@ == with_planned(image.topics@, audit_plan(true, image, leader, node_id, name, brokers, topic_id)->0),
    ensures
        audit_plan(true, again, leader_again, node_again, name, brokers_again, id_again) is None,
        again.topics@[name].topic_id == topic_id,
{
}

/// What an optional plan stands for.
pub open spec fn opt_plan(o: Option<TopicPlan>) -> Option<TopicPlanView> {
    match o {
        Some(plan) => Some(plan@),
        None => None,
    }
}

/// The audit topic to be registered, if it is to, under the id `topic_id`.
pub fn plan_audit_topic_with_id(
    enabled: bool,
    image: &MetadataImage,
    leader: Option<u64>,
    node_id: u64,
    name: &String,
    brokers: &OrdSet<u64>,
    topic_id: u128,
) -> (r: Option<TopicPlan>)
    ensures
        opt_plan(r) == audit_plan(enabled, *image, leader, node_id, name@, brokers@, topic_id),
{
    let am_leader: bool = match leader {
        Some(id) => id == node_id,
        None => false,
    };
    if !enabled || !am_leader || image.topics.contains_key(name) {
        return None;
    }
    let list = listed_brokers(brokers, node_id);
    let partitions: i32 = if list.len() <= 2_147_483_647 {
        list.len() as i32
    } else {
        1
    };
    let placements = round_robin_replicas(&list, partitions, 1);
    Some(TopicPlan { name: name.clone(), topic_id, partitions, replication_factor: 1, placements })
}

/// The audit topic to be registered, if it is to, under a fresh id.
pub fn plan_audit_topic(enabled: bool, image: &MetadataImage, leader: Option<u64>, node_id: u64, name: &String, brokers: &OrdSet<u64>) -> (r: Option<TopicPlan>)
    ensures
        exists|topic_id: u128| #[trigger] random_id(topic_id) && opt_plan(r) == audit_plan(enabled, *image, leader, node_id, name@, brokers@, topic_id),
{
    let topic_id: u128 = fresh_topic_id();
    plan_audit_topic_with_id(enabled, image, leader, node_id, name, brokers, topic_id)
}

/// A partition that this broker holds; one that it leads is read back.
#[derive(Clone, Copy, Debug, PartialEq, Eq, Structural)]
pub struct LocalPartition {
    pub partition: i32,
    pub replay: bool,
}

/// The partitions that `node_id` holds.
pub open spec fn held_locally(placements: Seq<PlacementView>, node_id: u64) -> Seq<LocalPartition>
    decreases placements.len(),
{
    if placements.len() == 0 {
        seq![]
    } else {
        let before = held_locally(placements.drop_last(), node_id);
        let p = placements.last();
        if p.replicas.contains(node_id) {
            before.push(LocalPartition { partition: p.partition, replay: p.leader == node_id })
        } else {
            before
        }
    }
}

fn holds_node(replicas: &Vec<u64>, node_id: u64) -> (r: bool)
    ensures
        r == replicas@.contains(node_id),
{
    let mut i: usize = 0;
    while i < replicas.len()
        invariant
            0 <= i <= replicas@.len(),
            forall|j: int| 0 <= j < i ==> #[trigger] replicas@[j] != node_id,
        decreases replicas@.len() - i,
    {
        if replicas[i] == node_id {
            assert(replicas@[i as int] == node_id);
            return true;
        }
        i = i + 1;
    }
    false
}

/// The partitions that this broker is to open, and which of them it reads back.
pub fn local_partitions(placements: &Vec<Placement>, node_id: u64) -> (r: Vec<LocalPartition>)
    ensures
        r@ == held_locally(views(placements@), node_id),
{
    let ghost all = views(placements@);
    let mut out: Vec<LocalPartition> = Vec::new();
    let mut i: usize = 0;
    assert(all.take(0) =~= seq![]);
    while i < placements.len()
        invariant
            0 <= i <= placements@.len(),
            all == views(placements@),
            out@ == held_locally(all.take(i as int), node_id),
        decreases placements@.len() - i,
    {
        let ghost next = all.take(i + 1);
        assert(next.drop_last() =~= all.take(i as int));
        assert(next.last() == placements@[i as int]@);
        if holds_node(&placements[i].replicas, node_id) {
            out.push(LocalPartition { partition: placements[i].partition, replay: placements[i].leader == node_id });
        }
        i = i + 1;
    }
    assert(all.take(all.len() as int) =~= all);
    out
}

} // verus!
