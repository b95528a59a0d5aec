//! Which partition of the offsets topic a group belongs to, and who leads it.

use crate::metadata::MetadataImage;
use vstd::prelude::*;

verus! {

/// The internal topic that holds every group's state.
pub const OFFSETS_TOPIC: &'static str = "__consumer_offsets";

/// How many partitions that topic is created with.
pub const OFFSETS_NUM_PARTITIONS: i32 = 50;

/// Why a group request cannot be served here.
#[derive(Clone, Copy, Debug, PartialEq, Eq, Structural)]
pub enum GroupRoutingError {
    /// The group's partition has no record in the metadata.
    Unavailable,
    /// Another node leads the group's partition.
    NotCoordinator,
}

/// The UTF-16 code units of one character: itself below U+10000, a surrogate pair above.
pub open spec fn utf16_units(c: char) -> Seq<int> {
    let v = c as u32 as int;
    if v < 0x1_0000 {
        seq![v]
    } else {
        seq![0xD800 + (v - 0x1_0000) / 0x400, 0xDC00 + (v - 0x1_0000) % 0x400]
    }
}

/// The UTF-16 code units of a string.
pub open spec fn utf16(s: Seq<char>) -> Seq<int>
    decreases s.len(),
{
    if s.len() == 0 {
        seq![]
    } else {
        utf16(s.drop_last()) + utf16_units(s.last())
    }
}

/// The sum of `31^(n-1-i) * units[i]`.
pub open spec fn base31(units: Seq<int>) -> int
    decreases units.len(),
{
    if units.len() == 0 {
        0
    } else {
        31 * base31(units.drop_last()) + units.last()
    }
}

/// The signed 32-bit number congruent to `x`.
pub open spec fn wrap_i32(x: int) -> int {
    (x + 0x8000_0000) % 0x1_0000_0000 - 0x8000_0000
}

/// Java's `String.hashCode` of a string.
pub open spec fn java_hash(s: Seq<char>) -> int {
    wrap_i32(base31(utf16(s)))
}

/// The `n`-th power of 31.
pub open spec fn power31(n: nat) -> int
    decreases n,
{
    if n == 0 {
        1
    } else {
        31 * power31((n - 1) as nat)
    }
}

proof fn utf16_concat(a: Seq<char>, b: Seq<char>)
    ensures
        utf16(a + b) == utf16(a) + utf16(b),
    decreases b.len(),
{
    if b.len() == 0 {
        assert(a + b =~= a);
        assert(utf16(a) + utf16(b) =~= utf16(a));
    } else {
        assert((a + b).drop_last() =~= a + b.drop_last());
        utf16_concat(a, b.drop_last());
        assert(utf16(a + b) =~= utf16(a) + utf16(b));
    }
}

proof fn base31_concat(u: Seq<int>, v: Seq<int>)
    ensures
        base31(u + v) == base31(u) * power31(v.len()) + base31(v),
    decreases v.len(),
{
    if v.len() == 0 {
        assert(u + v =~= u);
    } else {
        let front = v.drop_last();
        assert((u + v).drop_last() =~= u + front);
        base31_concat(u, front);
        let x = base31(u);
        let p = power31(front.len());
        let y = base31(front);
        assert(31 * (x * p + y) == x * (31 * p) + 31 * y) by (nonlinear_arith);
    }
}

proof fn wrap_adds_rounds(x: int) -> (k: int)
    ensures
        wrap_i32(x) == x + k * 0x1_0000_0000,
{
    let q = (x + 0x8000_0000) / 0x1_0000_0000;
    assert(x + 0x8000_0000 == q * 0x1_0000_0000 + (x + 0x8000_0000) % 0x1_0000_0000);
    -q
}

proof fn wrap_drops_rounds(x: int, k: int)
    ensures
        wrap_i32(x + k * 0x1_0000_0000) == wrap_i32(x),
{
    vstd::arithmetic::div_mod::lemma_mod_multiples_vanish(k, x + 0x8000_0000, 0x1_0000_0000);
    assert(x + k * 0x1_0000_0000 + 0x8000_0000 == 0x1_0000_0000 * k + (x + 0x8000_0000));
}

/// The hash of one string behind another follows from the two hashes: the first is multiplied by 31
/// as often as the second has UTF-16 code units, and the second is added, each step modulo 2^32.
pub proof fn hash_of_concatenation(a: Seq<char>, b: Seq<char>)
    ensures
        java_hash(a + b) == wrap_i32(wrap_i32(java_hash(a) * wrap_i32(power31(utf16(b).len()))) + java_hash(b)),
{
    let m = 0x1_0000_0000int;
    let x = base31(utf16(a));
    let y = base31(utf16(b));
    let p = power31(utf16(b).len());
    utf16_concat(a, b);
    base31_concat(utf16(a), utf16(b));
    let i = wrap_adds_rounds(x);
    let j = wrap_adds_rounds(p);
    let k = wrap_adds_rounds(y);
    let product = wrap_i32(x) * wrap_i32(p);
    let l = wrap_adds_rounds(product);
    let (im, jm) = (i * m, j * m);
    let (xj, ip, ij) = (x * j, i * p, i * jm);
    let rounds = xj + ip + ij + l + k;
    assert((x + im) * (p + jm) == x * p + x * jm + im * p + im * jm) by (nonlinear_arith);
    assert(x * jm == xj * m) by (nonlinear_arith)
        requires
            jm == j * m,
            xj == x * j,
    ;
    assert(im * p == ip * m) by (nonlinear_arith)
        requires
            im == i * m,
            ip == i * p,
    ;
    assert(im * jm == ij * m) by (nonlinear_arith)
        requires
            im == i * m,
            ij == i * jm,
    ;
    assert(wrap_i32(product) + wrap_i32(y) == x * p + y + rounds * m);
    wrap_drops_rounds(x * p + y, rounds);
}

/// The partition a group id maps to, out of `count`: the absolute value of the hash (zero for the
/// one hash that has none) modulo the count.
pub open spec fn group_partition(id: Seq<char>, count: int) -> int {
    let h = java_hash(id);
    let positive = if h == i32::MIN { 0 } else if h < 0 { -h } else { h };
    positive % count
}

/// The partition count that routing goes by: the live one, or the bootstrap default while the
/// topic is not known yet.
pub open spec fn routing_count(image: MetadataImage) -> int {
    if image.partition_count(OFFSETS_TOPIC@) > 0 {
        image.partition_count(OFFSETS_TOPIC@)
    } else {
        OFFSETS_NUM_PARTITIONS as int
    }
}

proof fn base31_push(units: Seq<int>, u: int)
    ensures
        base31(units.push(u)) == 31 * base31(units) + u,
{
    assert(units.push(u).drop_last() =~= units);
}

/// One step of the hash, taken modulo 2^32.
proof fn hash_step(h: int, x: int, u: int)
    requires
        h == x % 0x1_0000_0000,
    ensures
        (h * 31 + u) % 0x1_0000_0000 == (31 * x + u) % 0x1_0000_0000,
{
    assert((h * 31 + u) % 0x1_0000_0000 == (31 * x + u) % 0x1_0000_0000) by (nonlinear_arith)
        requires
            h == x % 0x1_0000_0000,
    ;
}

fn absorb(h: u64, unit: u64, Ghost(units): Ghost<Seq<int>>) -> (r: u64)
    requires
        h == base31(units) % 0x1_0000_0000,
        unit < 0x1_0000,
    ensures
        r == base31(units.push(unit as int)) % 0x1_0000_0000,
{
    proof {
        base31_push(units, unit as int);
        hash_step(h as int, base31(units), unit as int);
    }
    (h * 31 + unit) % 0x1_0000_0000
}

/// Java's `String.hashCode`, over the UTF-16 code units of `value`.
#[verifier::spinoff_prover]
#[verifier::rlimit(30)]
pub fn java_string_hash(value: &str) -> (r: i32)
    ensures
        r == java_hash(value@),
{
    let n: usize = value.unicode_len();
    let mut h: u64 = 0;
    let mut i: usize = 0;
    assert(utf16(value@.take(0)) =~= seq![]);
    while i < n
        invariant
            0 <= i <= n,
            n == value@.len(),
            h < 0x1_0000_0000,
            h == base31(utf16(value@.take(i as int))) % 0x1_0000_0000,
        decreases n - i,
    {
        let c: char = value.get_char(i);
        let v: u64 = c as u64;
        let ghost prefix = value@.take(i as int);
        let ghost units = utf16(prefix);
        assert(value@.take(i + 1).drop_last() =~= prefix);
        assert(value@.take(i + 1).last() == c);
        if v < 0x1_0000 {
            h = absorb(h, v, Ghost(units));
            assert(utf16(value@.take(i + 1)) =~= units.push(v as int));
        } else {
            let high: u64 = 0xD800 + (v - 0x1_0000) / 0x400;
            let low: u64 = 0xDC00 + (v - 0x1_0000) % 0x400;
            h = absorb(h, high, Ghost(units));
            h = absorb(h, low, Ghost(units.push(high as int)));
            assert(utf16(value@.take(i + 1)) =~= units.push(high as int).push(low as int));
        }
        i = i + 1;
    }
    assert(value@.take(n as int) =~= value@);
    if h < 0x8000_0000 {
        h as i32
    } else {
        (h as i64 - 0x1_0000_0000) as i32
    }
}

/// The offsets-topic partition of a group, out of `partition_count`.
pub fn partition_for_group_with_count(group_id: &str, partition_count: i32) -> (p: i32)
    requires
        partition_count > 0,
    ensures
        p == group_partition(group_id@, partition_count as int),
        0 <= p < partition_count,
{
    let hash: i32 = java_string_hash(group_id);
    let positive: i32 = if hash == i32::MIN {
        0
    } else if hash < 0 {
        -hash
    } else {
        hash
    };
    positive % partition_count
}

/// The offsets-topic partition of a group, out of the live count or the default.
pub fn partition_for_group(image: &MetadataImage, group_id: &str) -> (p: i32)
    ensures
        p == group_partition(group_id@, routing_count(*image)),
        0 <= p < routing_count(*image),
{
    let count: i32 = image.topic_partition_count(OFFSETS_TOPIC);
    partition_for_group_with_count(
        group_id,
        if count > 0 {
            count
        } else {
            OFFSETS_NUM_PARTITIONS
        },
    )
}

/// The group's partition, where `node_id` leads it.
pub fn local_partition_for_group(image: &MetadataImage, node_id: u64, group_id: &str) -> (r: Result<i32, GroupRoutingError>)
    ensures
        ({
            let p = group_partition(group_id@, routing_count(*image)) as i32;
            match image.leader_of(OFFSETS_TOPIC@, p) {
                None => r == Err::<i32, GroupRoutingError>(GroupRoutingError::Unavailable),
                Some(leader) => if leader == node_id {
                    r == Ok::<i32, GroupRoutingError>(p)
                } else {
                    r == Err::<i32, GroupRoutingError>(GroupRoutingError::NotCoordinator)
                },
            }
        }),
{
    let partition: i32 = partition_for_group(image, group_id);
    match image.partition_leader(OFFSETS_TOPIC, partition) {
        None => Err(GroupRoutingError::Unavailable),
        Some(leader) => if leader == node_id {
            Ok(partition)
        } else {
            Err(GroupRoutingError::NotCoordinator)
        },
    }
}

/// A group id maps to one partition, inside the count, whoever asks.
pub proof fn routing_in_range(id: Seq<char>, count: int)
    requires
        count > 0,
    ensures
        0 <= group_partition(id, count) < count,
{
}

} // verus!
