//! The blobs of the consumer protocol: the subscription that a classic member sends and the
//! assignment that it is answered. Both begin with a version of two bytes; numbers are big-endian.

use crate::consumer_state::{ReconcileInput, ReconcileInputView};
use crate::ordmap::{listing, views};
use crate::partitions::{Partitions, PartitionsView};
use vstd::prelude::*;
use vstd::relations::{sorted_by, total_ordering};
use vstd::seq_lib::lemma_sorted_unique;
use vstd::utf8::{decode_utf8, encode_utf8, valid_utf8};

verus! {

/// The two low bytes of `n`, high byte first.
pub open spec fn be16(n: int) -> Seq<u8> {
    let m = n % 0x1_0000;
    seq![(m / 0x100) as u8, (m % 0x100) as u8]
}

/// The four low bytes of `n`, high byte first.
pub open spec fn be32(n: int) -> Seq<u8> {
    let m = n % 0x1_0000_0000;
    seq![(m / 0x100_0000) as u8, ((m / 0x1_0000) % 0x100) as u8, ((m / 0x100) % 0x100) as u8, (m % 0x100) as u8]
}

/// The numbers, four bytes each.
pub open spec fn be32s(list: Seq<i32>) -> Seq<u8>
    decreases list.len(),
{
    if list.len() == 0 {
        seq![]
    } else {
        be32s(list.drop_last()) + be32(list.last() as int)
    }
}

/// A text: its length in bytes, then its bytes.
pub open spec fn text_bytes(s: Seq<char>) -> Seq<u8> {
    be16(encode_utf8(s).len() as int) + encode_utf8(s)
}

/// The partitions in increasing order.
pub open spec fn in_order(parts: Seq<i32>) -> Seq<i32> {
    parts.sort_by(|a: i32, b: i32| a <= b)
}

/// Topics with their partitions, each as its name, the number of partitions and the partitions.
pub open spec fn topics_bytes(topics: Seq<(Seq<char>, Seq<i32>)>) -> Seq<u8>
    decreases topics.len(),
{
    if topics.len() == 0 {
        seq![]
    } else {
        let last = topics.last();
        topics_bytes(topics.drop_last()) + text_bytes(last.0) + be32(last.1.len() as int) + be32s(last.1)
    }
}

/// The assignment blob of the topics: version zero, the topics, no user data.
pub open spec fn assignment_bytes(topics: Seq<(Seq<char>, Seq<i32>)>) -> Seq<u8> {
    be16(0) + be32(topics.len() as int) + topics_bytes(topics) + be32(-1)
}

/// Those of the topics `names` that have partitions in `m`, with their partitions in order.
pub open spec fn named_parts(m: PartitionsView, image: ReconcileInputView, names: Seq<Seq<char>>) -> Seq<(Seq<char>, Seq<i32>)>
    decreases names.len(),
{
    if names.len() == 0 {
        seq![]
    } else {
        let before = named_parts(m, image, names.drop_last());
        let id = image.topic_id_by_name[names.last()];
        if m.contains_key(id) {
            before.push((names.last(), in_order(m[id])))
        } else {
            before
        }
    }
}

/// The assignment blob of partitions: the topics that have a name, by name, each with its
/// partitions in order.
pub open spec fn assignment_blob(m: PartitionsView, image: ReconcileInputView) -> Seq<u8> {
    assignment_bytes(named_parts(m, image, listing::<String>(image.topic_id_by_name.dom())))
}

fn put_i16(out: &mut Vec<u8>, n: usize)
    ensures
        final(out)@ == old(out)@ + be16(n as int),
{
    let ghost before = out@;
    let m: usize = n % 0x1_0000;
    out.push((m / 0x100) as u8);
    out.push((m % 0x100) as u8);
    assert(out@ =~= before + be16(n as int));
}

fn put_u32(out: &mut Vec<u8>, m: u32)
    ensures
        final(out)@ == old(out)@ + be32(m as int),
{
    let ghost before = out@;
    out.push((m / 0x100_0000) as u8);
    out.push(((m / 0x1_0000) % 0x100) as u8);
    out.push(((m / 0x100) % 0x100) as u8);
    out.push((m % 0x100) as u8);
    assert(out@ =~= before + be32(m as int));
}

fn put_i32(out: &mut Vec<u8>, n: i32)
    ensures
        final(out)@ == old(out)@ + be32(n as int),
{
    let m: u32 = if n < 0 {
        (n as i64 + 0x1_0000_0000) as u32
    } else {
        n as u32
    };
    assert(m as int % 0x1_0000_0000 == n as int % 0x1_0000_0000);
    put_u32(out, m);
}

fn put_len(out: &mut Vec<u8>, n: usize)
    ensures
        final(out)@ == old(out)@ + be32(n as int),
{
    let m: u32 = (n as u64 % 0x1_0000_0000) as u32;
    assert(m as int % 0x1_0000_0000 == n as int % 0x1_0000_0000);
    put_u32(out, m);
}

fn put_text(out: &mut Vec<u8>, s: &str)
    ensures
        final(out)@ == old(out)@ + text_bytes(s@),
{
    let ghost before = out@;
    let bytes = s.as_bytes();
    put_i16(out, bytes.len());
    let ghost front = out@;
    let mut i: usize = 0;
    assert(out@ =~= front + bytes@.take(0));
    while i < bytes.len()
        invariant
            0 <= i <= bytes@.len(),
            out@ == front + bytes@.take(i as int),
        decreases bytes@.len() - i,
    {
        out.push(bytes[i]);
        assert(bytes@.take(i + 1) =~= bytes@.take(i as int).push(bytes@[i as int]));
        i = i + 1;
    }
    assert(bytes@.take(bytes@.len() as int) =~= bytes@);
    assert(out@ =~= before + text_bytes(s@));
}

proof fn by_size()
    ensures
        total_ordering(|a: i32, b: i32| a <= b),
{
}

/// Copies the partitions in increasing order.
fn ordered_parts(parts: &Vec<i32>) -> (r: Vec<i32>)
    ensures
        r@ == in_order(parts@),
{
    let mut out: Vec<i32> = Vec::new();
    let mut i: usize = 0;
    assert(parts@.take(0) =~= seq![]);
    assert(out@ =~= seq![]);
    while i < parts.len()
        invariant
            0 <= i <= parts@.len(),
            out@.len() == i,
            forall|p: int, q: int| 0 <= p < q < out@.len() ==> out@[p] <= out@[q],
            out@.to_multiset() == parts@.take(i as int).to_multiset(),
        decreases parts@.len() - i,
    {
        let x: i32 = parts[i];
        let mut k: usize = i;
        while k > 0 && out[k - 1] > x
            invariant
                0 <= k <= i,
                out@.len() == i,
                forall|p: int, q: int| 0 <= p < q < out@.len() ==> out@[p] <= out@[q],
                forall|p: int| k <= p < i ==> out@[p] > x,
            decreases k,
        {
            k = k - 1;
        }
        let ghost before = out@;
        out.insert(k, x);
        proof {
            broadcast use vstd::seq_lib::group_to_multiset_ensures;
            assert(out@ =~= before.insert(k as int, x));
            vstd::seq_lib::to_multiset_insert(before, k as int, x);
            assert(parts@.take(i + 1) =~= parts@.take(i as int).push(x));
        }
        i = i + 1;
    }
    proof {
        by_size();
        let leq = |a: i32, b: i32| a <= b;
        parts@.lemma_sort_by_ensures(leq);
        assert(parts@.take(parts@.len() as int) =~= parts@);
        assert(sorted_by(out@, leq));
        lemma_sorted_unique(out@, parts@.sort_by(leq), leq);
    }
    out
}

fn put_parts(out: &mut Vec<u8>, parts: &Vec<i32>)
    ensures
        final(out)@ == old(out)@ + be32s(parts@),
{
    let ghost before = out@;
    let mut i: usize = 0;
    assert(parts@.take(0) =~= seq![]);
    assert(out@ =~= before + be32s(parts@.take(0)));
    while i < parts.len()
        invariant
            0 <= i <= parts@.len(),
            out@ == before + be32s(parts@.take(i as int)),
        decreases parts@.len() - i,
    {
        let ghost next = parts@.take(i + 1);
        assert(next.drop_last() =~= parts@.take(i as int));
        assert(next.last() == parts@[i as int]);
        put_i32(out, parts[i]);
        assert(out@ =~= before + be32s(next));
        i = i + 1;
    }
    assert(parts@.take(parts@.len() as int) =~= parts@);
}

/// The assignment blob that a classic member is answered for `target`.
pub fn target_to_consumer_assignment(target: &Partitions, image: &ReconcileInput) -> (r: Vec<u8>)
    ensures
        r@ == assignment_blob(target@, image@),
{
    let n: usize = image.topic_id_by_name.len();
    let ghost names = image.topic_id_by_name.keys();
    let ghost m = target@;
    let mut body: Vec<u8> = Vec::new();
    let mut count: usize = 0;
    let mut i: usize = 0;
    assert(names.take(0) =~= seq![]);
    assert(body@ =~= topics_bytes(named_parts(m, image@, names.take(0))));
    while i < n
        invariant
            0 <= i <= n,
            count <= i,
            n == names.len(),
            m == target@,
            names == image.topic_id_by_name.keys(),
            count == named_parts(m, image@, names.take(i as int)).len(),
            body@ == topics_bytes(named_parts(m, image@, names.take(i as int))),
        decreases n - i,
    {
        let ghost next = names.take(i + 1);
        let ghost before = named_parts(m, image@, names.take(i as int));
        assert(next.drop_last() =~= names.take(i as int));
        assert(next.last() == names[i as int]);
        let name = image.topic_id_by_name.key_at(i);
        let id = image.topic_id_by_name.value_at(i);
        if let Some(parts) = target.get(id) {
            let sorted = ordered_parts(parts);
            let ghost after = before.push((name@, sorted@));
            assert(named_parts(m, image@, next) == after);
            assert(after.drop_last() =~= before);
            let ghost front = body@;
            put_text(&mut body, name.as_str());
            put_len(&mut body, sorted.len());
            put_parts(&mut body, &sorted);
            assert(body@ =~= topics_bytes(after));
            count = count + 1;
        }
        i = i + 1;
    }
    assert(names.take(n as int) =~= names);
    let ghost list = named_parts(m, image@, names);
    let mut out: Vec<u8> = Vec::new();
    put_i16(&mut out, 0);
    put_len(&mut out, count);
    let ghost front = out@;
    out.append(&mut body);
    put_i32(&mut out, -1);
    assert(out@ =~= assignment_bytes(list));
    out
}

/// The two bytes at `i` as a number.
pub open spec fn i16_at(b: Seq<u8>, i: int) -> int {
    let u = b[i] * 0x100 + b[i + 1];
    if u >= 0x8000 {
        u - 0x1_0000
    } else {
        u
    }
}

/// The four bytes at `i` as a number.
pub open spec fn i32_at(b: Seq<u8>, i: int) -> int {
    let u = b[i] * 0x100_0000 + b[i + 1] * 0x1_0000 + b[i + 2] * 0x100 + b[i + 3];
    if u >= 0x8000_0000 {
        u - 0x1_0000_0000
    } else {
        u
    }
}

/// The first `n` texts from `i` on, and where the last ends; nothing where they do not fit, or
/// where one is not UTF-8.
pub open spec fn texts_at(b: Seq<u8>, i: int, n: nat) -> Option<(Seq<Seq<char>>, int)>
    decreases n,
{
    if n == 0 {
        Some((seq![], i))
    } else {
        match texts_at(b, i, (n - 1) as nat) {
            None => None,
            Some((front, at)) => {
                let len = i16_at(b, at);
                let bytes = b.subrange(at + 2, at + 2 + len);
                if at + 2 > b.len() || len < 0 || at + 2 + len > b.len() || !valid_utf8(bytes) {
                    None
                } else {
                    Some((front.push(decode_utf8(bytes)), at + 2 + len))
                }
            },
        }
    }
}

/// The topics that a subscription blob names: behind the version stands a list of texts and, as a
/// nullable byte string, the user data. What follows belongs to later versions and is not read.
pub open spec fn subscription_topics(b: Seq<u8>) -> Option<Seq<Seq<char>>> {
    if b.len() < 6 || i32_at(b, 2) < 0 {
        None
    } else {
        match texts_at(b, 6, i32_at(b, 2) as nat) {
            None => None,
            Some((names, at)) => if at + 4 > b.len() || (i32_at(b, at) > 0 && at + 4 + i32_at(b, at) > b.len()) {
                None
            } else {
                Some(names)
            },
        }
    }
}

proof fn texts_stay_unread(b: Seq<u8>, i: int, n: nat, more: nat)
    requires
        n <= more,
        texts_at(b, i, n) is None,
    ensures
        texts_at(b, i, more) is None,
    decreases more,
{
    if n < more {
        texts_stay_unread(b, i, n, (more - 1) as nat);
    }
}

/// The text that UTF-8 bytes stand for, by `String::from_utf8`: there is one exactly where the
/// bytes are valid UTF-8.
#[verifier::external_body]
fn text_from_utf8(bytes: Vec<u8>) -> (r: Option<String>)
    ensures
        match r {
            Some(s) => valid_utf8(bytes@) && s@ == decode_utf8(bytes@),
            None => !valid_utf8(bytes@),
        },
{
    String::from_utf8(bytes).ok()
}

fn copy_range(b: &Vec<u8>, from: usize, to: usize) -> (r: Vec<u8>)
    requires
        from <= to <= b@.len(),
    ensures
        r@ == b@.subrange(from as int, to as int),
{
    let mut out: Vec<u8> = Vec::new();
    let mut i: usize = from;
    assert(out@ =~= b@.subrange(from as int, from as int));
    while i < to
        invariant
            from <= i <= to <= b@.len(),
            out@ == b@.subrange(from as int, i as int),
        decreases to - i,
    {
        out.push(b[i]);
        assert(b@.subrange(from as int, i + 1) =~= b@.subrange(from as int, i as int).push(b@[i as int]));
        i = i + 1;
    }
    out
}

fn get_i16(b: &Vec<u8>, i: usize) -> (r: i32)
    requires
        i + 2 <= b@.len(),
    ensures
        r == i16_at(b@, i as int),
        -0x8000 <= r < 0x8000,
{
    let _n: usize = b.len();
    let u: i32 = b[i] as i32 * 0x100 + b[i + 1] as i32;
    if u >= 0x8000 {
        u - 0x1_0000
    } else {
        u
    }
}

fn get_i32(b: &Vec<u8>, i: usize) -> (r: i32)
    requires
        i + 4 <= b@.len(),
    ensures
        r == i32_at(b@, i as int),
{
    let _n: usize = b.len();
    let u: i64 = b[i] as i64 * 0x100_0000 + b[i + 1] as i64 * 0x1_0000 + b[i + 2] as i64 * 0x100 + b[i + 3] as i64;
    if u >= 0x8000_0000 {
        (u - 0x1_0000_0000) as i32
    } else {
        u as i32
    }
}

/// Reads the topics that a subscription blob names.
pub fn decode_subscribed_topics(metadata: &Vec<u8>) -> (r: Option<Vec<String>>)
    ensures
        match r {
            Some(names) => subscription_topics(metadata@) == Some(views(names@)),
            None => subscription_topics(metadata@) is None,
        },
{
    let ghost b = metadata@;
    if metadata.len() < 6 {
        return None;
    }
    let count: i32 = get_i32(metadata, 2);
    if count < 0 {
        return None;
    }
    let mut names: Vec<String> = Vec::new();
    let mut at: usize = 6;
    let mut i: i32 = 0;
    assert(views(names@) =~= seq![]);
    while i < count
        invariant
            0 <= i <= count,
            at <= metadata@.len(),
            b == metadata@,
            b.len() >= 6,
            count == i32_at(b, 2),
            texts_at(b, 6, i as nat) == Some((views(names@), at as int)),
        decreases count - i,
    {
        let ghost n = (i + 1) as nat;
        if metadata.len() - at < 2 {
            proof {
                assert(texts_at(b, 6, n) is None);
                texts_stay_unread(b, 6, n, count as nat);
            }
            return None;
        }
        let len: i32 = get_i16(metadata, at);
        if len < 0 || metadata.len() - at - 2 < len as usize {
            proof {
                assert(texts_at(b, 6, n) is None);
                texts_stay_unread(b, 6, n, count as nat);
            }
            return None;
        }
        let end: usize = at + 2 + len as usize;
        match text_from_utf8(copy_range(metadata, at + 2, end)) {
            Some(s) => {
                let ghost before = names@;
                names.push(s);
                assert(views(names@) =~= views(before).push(s@));
                at = end;
            },
            None => {
                proof {
                    assert(texts_at(b, 6, n) is None);
                    texts_stay_unread(b, 6, n, count as nat);
                }
                return None;
            },
        }
        i = i + 1;
    }
    if metadata.len() - at < 4 {
        return None;
    }
    let user_data: i32 = get_i32(metadata, at);
    if user_data > 0 && metadata.len() - at - 4 < user_data as usize {
        return None;
    }
    Some(names)
}

} // verus!
