//! What one message to a group says about the answer to the next.

use crate::assignor::Assignor;
use crate::codes;
use crate::config::NextGenConfig;
use crate::consumer_laws::keyed;
use crate::consumer_state::ReconcileInputView;
use crate::dispatch::{GroupActorMessage, GroupActorStep, Served, dispatched};
use crate::group::{CommittedOffset, GroupKindView, PartitionKey, PartitionKeyView};
use crate::heartbeat::spoken_id;
use crate::heartbeat_turn::HeartbeatTurnView;
use crate::ordmap::views;
use crate::retention_laws::{commit_replaces_its_partitions, open_writes_last_until_their_marker};
use crate::view_laws::description_shows_what_was_answered;
use vstd::prelude::*;

verus! {

/// Whoever fetches after a commit reads what was committed: for a partition of the commit its last entry,
/// for any other what was there before. Fetching changes nothing.
pub proof fn fetch_reads_what_was_committed<A: Assignor>(
    a: Served,
    b: Served,
    c: Served,
    config: NextGenConfig<A>,
    input: ReconcileInputView,
    entries: Vec<CommittedOffset>,
    first: GroupActorStep,
    second: GroupActorStep,
    minted: Seq<char>,
    now: u64,
    now_ms: i64,
    k: PartitionKeyView,
)
    requires
        dispatched(a, b, config, input, GroupActorMessage::UpdateCommitted { entries }, first, minted, now, now_ms),
        dispatched(b, c, config, input, GroupActorMessage::FetchOffsets, second, minted, now, now_ms),
    ensures
        ({
            let list = views(entries@);
            let read = second->Offsets_0.committed@;
            &&& first is Done && second is Offsets
            &&& c == b && b.parked == a.parked && b.group.kind == a.group.kind
            &&& (forall|i: int| 0 <= i < list.len() ==> (#[trigger] list[i]).0 != k) ==> (read.contains_key(k) <==> a.group.committed_offsets.contains_key(
                k,
            )) && (a.group.committed_offsets.contains_key(k) ==> read[k] == a.group.committed_offsets[k])
            &&& forall|i: int|
                0 <= i < list.len() && (#[trigger] list[i]).0 == k && (forall|j: int| i < j < list.len() ==> (#[trigger] list[j]).0 != k)
                    ==> read.contains_key(k) && read[k] == list[i].1
            &&& second->Offsets_0.pending_txn@ == b.group.pending_keys()
        }),
{
    commit_replaces_its_partitions(a.group.committed_offsets, views(entries@), k);
}

/// Whoever fetches after offsets were removed does not read them, and reads all others as they were.
pub proof fn fetch_misses_what_was_removed<A: Assignor>(
    a: Served,
    b: Served,
    c: Served,
    config: NextGenConfig<A>,
    input: ReconcileInputView,
    keys: Vec<PartitionKey>,
    first: GroupActorStep,
    second: GroupActorStep,
    minted: Seq<char>,
    now: u64,
    now_ms: i64,
    k: PartitionKeyView,
)
    requires
        dispatched(a, b, config, input, GroupActorMessage::RemoveCommitted { keys }, first, minted, now, now_ms),
        dispatched(b, c, config, input, GroupActorMessage::FetchOffsets, second, minted, now, now_ms),
    ensures
        ({
            let read = second->Offsets_0.committed@;
            &&& first is Done && second is Offsets && c == b && b.group.kind == a.group.kind
            &&& read.contains_key(k) <==> a.group.committed_offsets.contains_key(k) && !views(keys@).contains(k)
            &&& read.contains_key(k) ==> read[k] == a.group.committed_offsets[k]
        }),
{
}

/// Whoever fetches while a transaction is open is told which offsets it wrote; once the marker has come that
/// commits it, those that it committed are read, and are no longer open by that producer.
pub proof fn fetch_is_told_of_open_writes<A: Assignor>(
    a: Served,
    b: Served,
    c: Served,
    d: Served,
    e: Served,
    config: NextGenConfig<A>,
    input: ReconcileInputView,
    producer_id: i64,
    written_at: i64,
    keys: Vec<PartitionKey>,
    resolved_through: i64,
    committed: Vec<CommittedOffset>,
    first: GroupActorStep,
    second: GroupActorStep,
    third: GroupActorStep,
    fourth: GroupActorStep,
    minted: Seq<char>,
    now: u64,
    now_ms: i64,
    k: PartitionKeyView,
    i: int,
)
    requires
        dispatched(a, b, config, input, GroupActorMessage::AddPendingTxnOffsets { producer_id, written_at, keys }, first, minted, now, now_ms),
        dispatched(b, c, config, input, GroupActorMessage::FetchOffsets, second, minted, now, now_ms),
        dispatched(
            c,
            d,
            config,
            input,
            GroupActorMessage::ResolveTxnOffsets { producer_id, resolved_through, committed },
            third,
            minted,
            now,
            now_ms,
        ),
        dispatched(d, e, config, input, GroupActorMessage::FetchOffsets, fourth, minted, now, now_ms),
        views(keys@).contains(k),
        written_at < resolved_through,
        !a.group.resolved_txn.contains_key(producer_id) || a.group.resolved_txn[producer_id] <= written_at,
        forall|p: i64| #[trigger] a.group.pending_txn.contains_key(p) && p != producer_id ==> !a.group.pending_txn[p].contains_key(k),
        0 <= i < views(committed@).len(),
        views(committed@)[i].0 == k,
        forall|j: int| i < j < views(committed@).len() ==> (#[trigger] views(committed@)[j]).0 != k,
    ensures
        ({
            &&& second is Offsets && fourth is Offsets
            &&& second->Offsets_0.pending_txn@.contains(k)
            &&& second->Offsets_0.committed@ == a.group.committed_offsets
            &&& !fourth->Offsets_0.pending_txn@.contains(k)
            &&& fourth->Offsets_0.committed@.contains_key(k)
            &&& fourth->Offsets_0.committed@[k] == views(committed@)[i].1
        }),
{
    let list = views(committed@);
    commit_replaces_its_partitions(c.group.committed_offsets, list, k);
    open_writes_last_until_their_marker(
        a.group,
        producer_id,
        written_at,
        views(keys@),
        resolved_through,
        list,
        if producer_id == 0 {
            1
        } else {
            0
        },
        k,
    );
    if fourth->Offsets_0.pending_txn@.contains(k) {
        let p = choose|p: i64| #[trigger] d.group.pending_txn.contains_key(p) && d.group.pending_txn[p].contains_key(k);
        if p != producer_id {
            assert(a.group.pending_txn.contains_key(p));
            assert(a.group.pending_txn[p].contains_key(k));
        }
    }
}

/// Messages that look at a group leave it, and whoever waits in it, as they were.
pub proof fn looking_changes_nothing<A: Assignor>(
    a: Served,
    b: Served,
    config: NextGenConfig<A>,
    input: ReconcileInputView,
    message: GroupActorMessage,
    step: GroupActorStep,
    minted: Seq<char>,
    now: u64,
    now_ms: i64,
)
    requires
        dispatched(a, b, config, input, message, step, minted, now, now_ms),
        message is Describe || message is ClassicInspect || message is InspectAny || message is OffsetDeleteGuard || message is FetchOffsets
            || message is ClassicDelete || message is Reap || message is DeleteTopicOffsets,
    ensures
        b == a,
        message is Describe ==> step is Described && (step->Described_0 is Some <==> a.group.kind is Consumer),
        message is ClassicInspect ==> step is ClassicInspected && (step->ClassicInspected_0 is Some <==> a.group.kind is Classic),
        message is InspectAny ==> step is Inspected,
        message is ClassicDelete ==> step is Delete && (step->Delete_0 is Ok <==> match a.group.kind {
            GroupKindView::Classic(state) => forall|x: Seq<char>| !(#[trigger] state.members.contains_key(x)),
            GroupKindView::Consumer(state) => forall|x: Seq<char>| !(#[trigger] state.members.contains_key(x)),
        }),
{
    crate::retention_laws::population(a.group);
}

/// A description that follows a heartbeat shows the member as the heartbeat was answered.
pub proof fn description_follows_the_heartbeat<A: Assignor>(
    a: Served,
    b: Served,
    c: Served,
    config: NextGenConfig<A>,
    input: ReconcileInputView,
    message: GroupActorMessage,
    first: GroupActorStep,
    second: GroupActorStep,
    minted: Seq<char>,
    now: u64,
    now_ms: i64,
)
    requires
        message is Heartbeat,
        dispatched(a, b, config, input, message, first, minted, now, now_ms),
        dispatched(b, c, config, input, GroupActorMessage::Describe, second, minted, now, now_ms),
        a.group.kind is Consumer,
        keyed(a.group.kind->Consumer_0),
        a.group.kind->Consumer_0.members.dom().finite(),
        message->Heartbeat_request@.member_epoch >= 0,
        first is Heartbeat,
        match first->Heartbeat_0@ {
            HeartbeatTurnView::Answered { reply, .. } => reply.error_code == codes::NONE,
            HeartbeatTurnView::Persist { reply, .. } => reply.error_code == codes::NONE,
            HeartbeatTurnView::Upgrade { .. } => false,
        },
    ensures
        ({
            let id = spoken_id(message->Heartbeat_request@, minted);
            let reply = match first->Heartbeat_0@ {
                HeartbeatTurnView::Answered { reply, .. } => reply,
                HeartbeatTurnView::Persist { reply, .. } => reply,
                HeartbeatTurnView::Upgrade { .. } => arbitrary(),
            };
            let shown = second->Described_0->0@.members;
            &&& second is Described && second->Described_0 is Some
            &&& reply.member_id == Some(id)
            &&& exists|i: int|
                0 <= i < shown.len() && (#[trigger] shown[i]).member_id == id && reply.assignment == Some(shown[i].assigned_partitions) && reply.member_epoch
                    == shown[i].member_epoch
        }),
{
    let request = message->Heartbeat_request;
    let client = message->Heartbeat_client;
    let authorized = message->Heartbeat_authorized;
    description_shows_what_was_answered(a.group.kind->Consumer_0, config, input, request@, minted, client@, now, authorized@);
}

} // verus!
