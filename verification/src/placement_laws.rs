//! Where a group is coordinated, and where the partitions of internal topics are placed.

use crate::internal_topics::{
    LocalPartition, OffsetsTopicActionView, PlacementView, audit_plan, broker_list, effective_replication, held_locally, offsets_action, round_robin,
};
use crate::metadata::MetadataImage;
use crate::ordmap::{finite_listed, listed_at, listing, listing_holds, listing_len};
use crate::partitioner::{OFFSETS_TOPIC, base31, group_partition, java_hash, routing_count, utf16, utf16_units};
use vstd::prelude::*;

verus! {

proof fn units_behind(a: Seq<int>, b: Seq<int>)
    ensures
        b.len() == 1 ==> base31(a + b) == 31 * base31(a) + b[0],
        b.len() == 2 ==> base31(a + b) == 31 * (31 * base31(a) + b[0]) + b[1],
{
    if b.len() == 1 {
        assert((a + b).drop_last() =~= a);
    }
    if b.len() == 2 {
        let c = a.push(b[0]);
        assert((a + b).drop_last() =~= c);
        assert(c.drop_last() =~= a);
        assert((a + b).last() == b[1]);
        assert(base31(c) == 31 * base31(a) + b[0]);
        assert(base31(a + b) == 31 * base31(c) + b[1]);
    }
}

/// The hash of a group id: zero of the empty one; and each character more multiplies by 31 and adds its
/// number, once for each of the two halves of a character beyond U+FFFF; the number is kept in 32 bits,
/// with a sign.
pub proof fn hash_grows_by_character(s: Seq<char>, c: char)
    ensures
        java_hash(Seq::<char>::empty()) == 0,
        -0x8000_0000 <= java_hash(s) < 0x8000_0000,
        (c as u32) < 0x1_0000 ==> (java_hash(s.push(c)) - (31 * java_hash(s) + c as u32)) % 0x1_0000_0000 == 0,
        (c as u32) >= 0x1_0000 ==> ({
            let high = 0xD800 + (c as u32 - 0x1_0000) / 0x400;
            let low = 0xDC00 + (c as u32 - 0x1_0000) % 0x400;
            (java_hash(s.push(c)) - (31 * (31 * java_hash(s) + high) + low)) % 0x1_0000_0000 == 0
        }),
{
    assert(utf16(Seq::<char>::empty()) =~= seq![]);
    assert(s.push(c).drop_last() =~= s);
    let x = base31(utf16(s));
    let y = base31(utf16(s.push(c)));
    units_behind(utf16(s), utf16_units(c));
    let q = (x + 0x8000_0000) / 0x1_0000_0000;
    let r = (y + 0x8000_0000) / 0x1_0000_0000;
    assert(java_hash(s) == x - 0x1_0000_0000 * q);
    assert(java_hash(s.push(c)) == y - 0x1_0000_0000 * r);
    let v = c as u32 as int;
    if v < 0x1_0000 {
        assert(java_hash(s.push(c)) - (31 * java_hash(s) + v) == 0x1_0000_0000 * (31 * q - r));
    } else {
        let high = 0xD800 + (v - 0x1_0000) / 0x400;
        let low = 0xDC00 + (v - 0x1_0000) % 0x400;
        assert(java_hash(s.push(c)) - (31 * (31 * java_hash(s) + high) + low) == 0x1_0000_0000 * (961 * q - r));
    }
}

/// A group belongs to the partition that the size of its hash leaves when divided by their number; the one
/// hash whose size does not fit counts as zero. The number is the topic's, or fifty while it is not known.
pub proof fn group_belongs_to_one_partition(id: Seq<char>, image: MetadataImage, count: int)
    requires
        count > 0,
    ensures
        0 <= group_partition(id, count) < count,
        java_hash(id) >= 0 ==> group_partition(id, count) == java_hash(id) % count,
        java_hash(id) < 0 && java_hash(id) != i32::MIN ==> group_partition(id, count) == (-java_hash(id)) % count,
        java_hash(id) == i32::MIN ==> group_partition(id, count) == 0,
        image.topics@.contains_key(OFFSETS_TOPIC@) && image.topics@[OFFSETS_TOPIC@].partitions > 0 ==> routing_count(image)
            == image.topics@[OFFSETS_TOPIC@].partitions,
        !image.topics@.contains_key(OFFSETS_TOPIC@) ==> routing_count(image) == 50,
        image.leaders@.contains_key(OFFSETS_TOPIC@) && image.leaders@[OFFSETS_TOPIC@].contains_key(count as i32) ==> image.leader_of(
            OFFSETS_TOPIC@,
            count as i32,
        ) == Some(image.leaders@[OFFSETS_TOPIC@][count as i32]),
        !image.leaders@.contains_key(OFFSETS_TOPIC@) || !image.leaders@[OFFSETS_TOPIC@].contains_key(count as i32) ==> image.leader_of(
            OFFSETS_TOPIC@,
            count as i32,
        ) is None,
{
    let h = java_hash(id);
    let positive = if h == i32::MIN {
        0
    } else if h < 0 {
        -h
    } else {
        h
    };
    vstd::arithmetic::div_mod::lemma_mod_bound(positive, count);
    vstd::arithmetic::div_mod::lemma_small_mod(0, count as nat);
}

/// Partitions are placed round the brokers: each once, in order; its leader is its first replica; each
/// replica is on a broker of the list, no two on the same while there are brokers enough; and the next
/// partition begins with the next broker.
pub proof fn partitions_go_round_the_brokers(brokers: Seq<u64>, n: int, rf: int, p: int)
    requires
        brokers.len() > 0,
        brokers.no_duplicates(),
        0 <= p < n <= i32::MAX,
        1 <= rf,
    ensures
        ({
            let placed = round_robin(brokers, n, rf);
            &&& placed.len() == n
            &&& placed[p].partition == p
            &&& placed[p].replicas.len() == rf
            &&& placed[p].leader == placed[p].replicas[0]
            &&& forall|r: int| 0 <= r < rf ==> brokers.contains(#[trigger] placed[p].replicas[r])
            &&& rf <= brokers.len() ==> placed[p].replicas.no_duplicates()
            &&& p == 0 ==> placed[p].leader == brokers[0]
            &&& forall|i: int| 0 <= i < brokers.len() && #[trigger] brokers[i] == placed[p].leader && p + 1 < n ==> placed[p + 1].leader == brokers[if i + 1
                == brokers.len() {
                0
            } else {
                i + 1
            }]
        }),
{
    let placed = round_robin(brokers, n, rf);
    let b = brokers.len() as int;
    assert forall|r: int| 0 <= r < rf implies brokers.contains(#[trigger] placed[p].replicas[r]) by {
        vstd::arithmetic::div_mod::lemma_mod_bound(p + r, b);
        assert(placed[p].replicas[r] == brokers[(p + r) % b]);
    }
    assert(p + 0 == p);
    if rf <= b {
        assert forall|i: int, j: int| 0 <= i < rf && 0 <= j < rf && i != j implies placed[p].replicas[i] != placed[p].replicas[j] by {
            vstd::arithmetic::div_mod::lemma_mod_bound(p + i, b);
            vstd::arithmetic::div_mod::lemma_mod_bound(p + j, b);
            apart_mod(p + i, p + j, b);
        }
    }
    vstd::arithmetic::div_mod::lemma_small_mod(0, b as nat);
    vstd::arithmetic::div_mod::lemma_mod_bound(p, b);
    assert forall|i: int| 0 <= i < b && #[trigger] brokers[i] == placed[p].leader && p + 1 < n implies placed[p + 1].leader == brokers[if i + 1 == b {
        0
    } else {
        i + 1
    }] by {
        assert(i == p % b);
        next_mod(p, b);
    }
}

proof fn apart_mod(x: int, y: int, b: int)
    requires
        b > 0,
        x != y,
        -b < x - y < b,
    ensures
        x % b != y % b,
{
    if x % b == y % b {
        vstd::arithmetic::div_mod::lemma_fundamental_div_mod(x, b);
        vstd::arithmetic::div_mod::lemma_fundamental_div_mod(y, b);
        let k = x / b - y / b;
        assert(x - y == b * k) by (nonlinear_arith)
            requires
                x == b * (x / b) + x % b,
                y == b * (y / b) + y % b,
                x % b == y % b,
                k == x / b - y / b,
        ;
        assert(k == 0) by (nonlinear_arith)
            requires
                -b < b * k < b,
                b > 0,
        ;
        assert(x - y == 0) by (nonlinear_arith)
            requires
                x - y == b * k,
                k == 0,
        ;
    }
}

proof fn next_mod(p: int, b: int)
    requires
        b > 0,
        p >= 0,
    ensures
        (p + 1) % b == if p % b + 1 == b {
            0
        } else {
            p % b + 1
        },
{
    vstd::arithmetic::div_mod::lemma_fundamental_div_mod(p, b);
    vstd::arithmetic::div_mod::lemma_mod_bound(p, b);
    let q = p / b;
    let r = p % b;
    if r + 1 == b {
        assert(p + 1 == (q + 1) * b + 0) by (nonlinear_arith)
            requires
                p == b * q + r,
                r + 1 == b,
        ;
        vstd::arithmetic::div_mod::lemma_fundamental_div_mod_converse(p + 1, b, q + 1, 0);
    } else {
        assert(p + 1 == q * b + (r + 1)) by (nonlinear_arith)
            requires
                p == b * q + r,
        ;
        vstd::arithmetic::div_mod::lemma_fundamental_div_mod_converse(p + 1, b, q, r + 1);
    }
}

/// The offsets topic is registered with the partitions that are asked for, replicated as often as is
/// configured but not beyond the brokers there are, and at least once, on brokers that have registered;
/// on this one where none has.
pub proof fn offsets_topic_is_registered_as_configured(
    image: MetadataImage,
    node_id: u64,
    brokers: Set<u64>,
    partitions: i32,
    replication: i16,
    topic_id: u128,
    p: int,
)
    requires
        brokers.finite(),
        !image.topics@.contains_key(OFFSETS_TOPIC@),
        0 <= p < partitions,
        brokers.len() <= i16::MAX,
    ensures
        ({
            let action = offsets_action(image, Some(node_id), node_id, brokers, partitions, replication, topic_id);
            let plan = action->Register_0;
            let n = if brokers.len() == 0 {
                1
            } else {
                brokers.len() as int
            };
            &&& action is Register
            &&& plan.name == OFFSETS_TOPIC@ && plan.topic_id == topic_id && plan.partitions == partitions
            &&& plan.replication_factor == if replication < 1 {
                1
            } else if replication > n {
                n
            } else {
                replication as int
            }
            &&& plan.placements.len() == partitions
            &&& plan.placements[p].partition == p
            &&& plan.placements[p].replicas.len() == plan.replication_factor
            &&& plan.placements[p].replicas.no_duplicates()
            &&& plan.placements[p].leader == plan.placements[p].replicas[0]
            &&& forall|r: int|
                0 <= r < plan.replication_factor ==> brokers.contains(#[trigger] plan.placements[p].replicas[r]) || (brokers.len() == 0
                    && plan.placements[p].replicas[r] == node_id)
        }),
{
    let list = broker_list(brokers, node_id);
    listing_len::<u64>(brokers);
    listing_holds::<u64>(brokers);
    let rf = effective_replication(replication, list.len() as int);
    assert(list.no_duplicates());
    partitions_go_round_the_brokers(list, partitions as int, rf as int, p);
    let plan = offsets_action(image, Some(node_id), node_id, brokers, partitions, replication, topic_id)->Register_0;
    assert forall|r: int| 0 <= r < rf implies brokers.contains(#[trigger] plan.placements[p].replicas[r]) || (brokers.len() == 0
        && plan.placements[p].replicas[r] == node_id) by {
        let x = plan.placements[p].replicas[r];
        assert(list.contains(x));
        let i = choose|i: int| 0 <= i < list.len() && list[i] == x;
        if brokers.len() > 0 {
            assert(brokers.contains(list[i]));
        }
    }
}

/// The audit topic gives each broker a partition to lead, under its own id order, and is registered once by
/// the leader of the quorum, where it is enabled.
pub proof fn audit_topic_gives_each_broker_a_partition(
    enabled: bool,
    image: MetadataImage,
    leader: Option<u64>,
    node_id: u64,
    name: Seq<char>,
    brokers: Set<u64>,
    topic_id: u128,
    broker: u64,
)
    requires
        brokers.finite(),
        brokers.contains(broker),
        brokers.len() <= i32::MAX,
    ensures
        ({
            let plan = audit_plan(enabled, image, leader, node_id, name, brokers, topic_id);
            &&& plan is Some <==> enabled && leader == Some(node_id) && !image.topics@.contains_key(name)
            &&& plan is Some ==> {
                &&& plan->0.name == name && plan->0.topic_id == topic_id
                &&& plan->0.partitions == brokers.len() && plan->0.placements.len() == brokers.len()
                &&& plan->0.replication_factor == 1
                &&& exists|p: int|
                    0 <= p < plan->0.placements.len() && (#[trigger] plan->0.placements[p]).leader == broker && plan->0.placements[p].replicas == seq![broker]
            }
        }),
{
    let list = broker_list(brokers, node_id);
    listing_len::<u64>(brokers);
    listing_holds::<u64>(brokers);
    let p = listed_at::<u64>(brokers, broker);
    vstd::arithmetic::div_mod::lemma_small_mod(p as nat, list.len());
    let plan = audit_plan(enabled, image, leader, node_id, name, brokers, topic_id);
    if plan is Some {
        let placed = plan->0.placements[p];
        assert(p + 0 == p);
        assert(placed.leader == broker);
        assert(placed.replicas =~= seq![broker]);
    }
}

/// A broker opens the partitions that it has a replica of, and reads back those that it leads.
pub proof fn broker_opens_what_it_holds(placements: Seq<PlacementView>, node_id: u64, partition: i32, replay: bool)
    ensures
        held_locally(placements, node_id).contains(LocalPartition { partition, replay }) <==> exists|i: int|
            0 <= i < placements.len() && (#[trigger] placements[i]).partition == partition && placements[i].replicas.contains(node_id) && replay == (
            placements[i].leader == node_id),
    decreases placements.len(),
{
    if placements.len() > 0 {
        let rest = placements.drop_last();
        let before = held_locally(rest, node_id);
        let all = held_locally(placements, node_id);
        let wanted = LocalPartition { partition, replay };
        let n = placements.len() - 1;
        broker_opens_what_it_holds(rest, node_id, partition, replay);
        assert(placements[n] == placements.last());
        if all.contains(wanted) {
            let k = choose|k: int| 0 <= k < all.len() && all[k] == wanted;
            if k < before.len() {
                assert(before[k] == wanted);
                let i = choose|i: int|
                    0 <= i < rest.len() && (#[trigger] rest[i]).partition == partition && rest[i].replicas.contains(node_id) && replay == (rest[i].leader
                        == node_id);
                assert(placements[i] == rest[i]);
            } else {
                assert(placements[n].partition == partition);
            }
        }
        if exists|i: int|
            0 <= i < placements.len() && (#[trigger] placements[i]).partition == partition && placements[i].replicas.contains(node_id) && replay == (
            placements[i].leader == node_id) {
            let i = choose|i: int|
                0 <= i < placements.len() && (#[trigger] placements[i]).partition == partition && placements[i].replicas.contains(node_id) && replay == (
                placements[i].leader == node_id);
            if i < n {
                assert(rest[i] == placements[i]);
                let k = choose|k: int| 0 <= k < before.len() && before[k] == wanted;
                assert(all[k] == wanted);
            } else {
                assert(all[all.len() - 1] == wanted);
            }
        }
    }
}

} // verus!
