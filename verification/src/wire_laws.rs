//! What the bytes of subscriptions and assignments mean.

use crate::consumer_state::ReconcileInputView;
use crate::ordmap::{finite_listed, listed_at, listing, listing_holds};
use crate::partitions::PartitionsView;
use crate::wire::{
    assignment_blob, assignment_bytes, be16, be32, be32s, i16_at, i32_at, in_order, named_parts, subscription_topics, text_bytes, texts_at, topics_bytes,
};
use vstd::prelude::*;
use vstd::utf8::{decode_utf8, encode_utf8, encode_utf8_decode_utf8, encode_utf8_valid_utf8, valid_utf8};

verus! {

/// Numbers go high byte first, a negative one as the number that makes it zero with two to the power of its bits;
/// and they are read so.
pub proof fn numbers_go_high_byte_first(n: int, b: Seq<u8>, i: int)
    ensures
        -0x8000 <= n < 0x8000 ==> be16(n).len() == 2 && (be16(n)[0] * 0x100 + be16(n)[1] - n) % 0x1_0000 == 0,
        -0x8000_0000 <= n < 0x8000_0000 ==> be32(n).len() == 4 && (be32(n)[0] * 0x100_0000 + be32(n)[1] * 0x1_0000 + be32(n)[2] * 0x100 + be32(n)[3] - n)
            % 0x1_0000_0000 == 0,
        -0x8000 <= i16_at(b, i) < 0x8000,
        (i16_at(b, i) - (b[i] * 0x100 + b[i + 1])) % 0x1_0000 == 0,
        -0x8000_0000 <= i32_at(b, i) < 0x8000_0000,
        (i32_at(b, i) - (b[i] * 0x100_0000 + b[i + 1] * 0x1_0000 + b[i + 2] * 0x100 + b[i + 3])) % 0x1_0000_0000 == 0,
{
    let m = n % 0x1_0000;
    assert(m == (m / 0x100) * 0x100 + m % 0x100);
    let w = n % 0x1_0000_0000;
    assert(w == (w / 0x100_0000) * 0x100_0000 + ((w / 0x1_0000) % 0x100) * 0x1_0000 + ((w / 0x100) % 0x100) * 0x100 + w % 0x100);
}

/// A list of texts, one behind the other.
pub open spec fn texts_bytes(names: Seq<Seq<char>>) -> Seq<u8>
    decreases names.len(),
{
    if names.len() == 0 {
        seq![]
    } else {
        texts_bytes(names.drop_last()) + text_bytes(names.last())
    }
}

proof fn small16(b: Seq<u8>, i: int, n: int)
    requires
        0 <= i,
        i + 2 <= b.len(),
        0 <= n < 0x8000,
        b.subrange(i, i + 2) == be16(n),
    ensures
        i16_at(b, i) == n,
{
    let s = b.subrange(i, i + 2);
    assert(s[0] == b[i] && s[1] == b[i + 1]);
    assert(n % 0x1_0000 == n);
    assert(n == (n / 0x100) * 0x100 + n % 0x100);
}

proof fn small32(b: Seq<u8>, i: int, n: int)
    requires
        0 <= i,
        i + 4 <= b.len(),
        -1 <= n < 0x8000_0000,
        b.subrange(i, i + 4) == be32(n),
    ensures
        i32_at(b, i) == n,
{
    let s = b.subrange(i, i + 4);
    assert(s[0] == b[i] && s[1] == b[i + 1] && s[2] == b[i + 2] && s[3] == b[i + 3]);
    let w = n % 0x1_0000_0000;
    assert(w == (w / 0x100_0000) * 0x100_0000 + ((w / 0x1_0000) % 0x100) * 0x1_0000 + ((w / 0x100) % 0x100) * 0x100 + w % 0x100);
}

proof fn texts_read_back(head: Seq<u8>, names: Seq<Seq<char>>, tail: Seq<u8>)
    requires
        forall|i: int| 0 <= i < names.len() ==> encode_utf8(#[trigger] names[i]).len() < 0x8000,
    ensures
        texts_at(head + texts_bytes(names) + tail, head.len() as int, names.len()) == Some((names, (head.len() + texts_bytes(names).len()) as int)),
    decreases names.len(),
{
    let b = head + texts_bytes(names) + tail;
    if names.len() == 0 {
        assert(names =~= seq![]);
    } else {
        let front = names.drop_last();
        let name = names.last();
        let bytes = encode_utf8(name);
        assert(names[names.len() - 1] == name);
        assert forall|i: int| 0 <= i < front.len() implies encode_utf8(#[trigger] front[i]).len() < 0x8000 by {
            assert(front[i] == names[i]);
        }
        let rest = text_bytes(name) + tail;
        assert(head + texts_bytes(front) + rest =~= b);
        texts_read_back(head, front, rest);
        let at = (head.len() + texts_bytes(front).len()) as int;
        assert(b.subrange(at, at + 2) =~= be16(bytes.len() as int));
        small16(b, at, bytes.len() as int);
        assert(b.subrange(at + 2, at + 2 + bytes.len()) =~= bytes);
        encode_utf8_valid_utf8(name);
        encode_utf8_decode_utf8(name);
        assert(front.push(name) =~= names);
    }
}

/// The topics of a subscription are read as they were written: behind the version, their number, and each as its
/// length and its bytes; then the user data, here none. Whatever follows is not read.
pub proof fn subscription_reads_back(version: int, names: Seq<Seq<char>>, later: Seq<u8>)
    requires
        names.len() < 0x8000_0000,
        forall|i: int| 0 <= i < names.len() ==> encode_utf8(#[trigger] names[i]).len() < 0x8000,
    ensures
        subscription_topics(be16(version) + be32(names.len() as int) + texts_bytes(names) + be32(-1) + later) == Some(names),
{
    let head = be16(version) + be32(names.len() as int);
    let tail = be32(-1) + later;
    let b = be16(version) + be32(names.len() as int) + texts_bytes(names) + be32(-1) + later;
    assert(b =~= head + texts_bytes(names) + tail);
    assert(b.subrange(2, 6) =~= be32(names.len() as int));
    small32(b, 2, names.len() as int);
    texts_read_back(head, names, tail);
    let at = (6 + texts_bytes(names).len()) as int;
    assert(b.subrange(at, at + 4) =~= be32(-1));
    small32(b, at, -1);
}

/// The topics of an assignment stand one behind the other; each is its name, how many partitions it has, and those.
pub proof fn assignment_lists_topic_by_topic(a: Seq<(Seq<char>, Seq<i32>)>, b: Seq<(Seq<char>, Seq<i32>)>, name: Seq<char>, parts: Seq<i32>)
    ensures
        topics_bytes(a + b) == topics_bytes(a) + topics_bytes(b),
        topics_bytes(seq![(name, parts)]) == be16(encode_utf8(name).len() as int) + encode_utf8(name) + be32(parts.len() as int) + be32s(parts),
        assignment_bytes(a) == be16(0) + be32(a.len() as int) + topics_bytes(a) + be32(-1),
        be32s(parts).len() == 4 * parts.len(),
        forall|i: int| 0 <= i < parts.len() ==> be32s(parts).subrange(4 * i, 4 * i + 4) == be32(#[trigger] parts[i] as int),
    decreases b.len(),
{
    if b.len() == 0 {
        assert(a + b =~= a);
        assert(topics_bytes(b) =~= seq![]);
        assert(topics_bytes(a + b) =~= topics_bytes(a) + topics_bytes(b));
    } else {
        let front = b.drop_last();
        assert((a + b).drop_last() =~= a + front);
        assert((a + b).last() == b.last());
        assignment_lists_topic_by_topic(a, front, name, parts);
        assert(topics_bytes(a + b) =~= topics_bytes(a) + topics_bytes(b));
    }
    let one = seq![(name, parts)];
    assert(one.drop_last() =~= seq![]);
    assert(topics_bytes(one.drop_last()) =~= seq![]);
    assert(topics_bytes(one) =~= be16(encode_utf8(name).len() as int) + encode_utf8(name) + be32(parts.len() as int) + be32s(parts));
    numbers_stand_in_a_row(parts);
}

proof fn numbers_stand_in_a_row(parts: Seq<i32>)
    ensures
        be32s(parts).len() == 4 * parts.len(),
        forall|i: int| 0 <= i < parts.len() ==> be32s(parts).subrange(4 * i, 4 * i + 4) == be32(#[trigger] parts[i] as int),
    decreases parts.len(),
{
    if parts.len() > 0 {
        let front = parts.drop_last();
        let before = be32s(front);
        let all = be32s(parts);
        numbers_stand_in_a_row(front);
        assert forall|i: int| 0 <= i < parts.len() implies all.subrange(4 * i, 4 * i + 4) == be32(#[trigger] parts[i] as int) by {
            if i < front.len() {
                assert(front[i] == parts[i]);
                assert(all.subrange(4 * i, 4 * i + 4) =~= before.subrange(4 * i, 4 * i + 4));
            } else {
                assert(all.subrange(4 * i, 4 * i + 4) =~= be32(parts.last() as int));
            }
        }
    }
}

/// What an assignment names: of each topic that there is and that has partitions in it, once, just those partitions,
/// in increasing order; and nothing else.
pub proof fn assignment_names_what_is_assigned(m: PartitionsView, image: ReconcileInputView, name: Seq<char>)
    requires
        image.topic_id_by_name.dom().finite(),
    ensures
        ({
            let listed = named_parts(m, image, listing::<String>(image.topic_id_by_name.dom()));
            &&& assignment_blob(m, image) == assignment_bytes(listed)
            &&& (exists|i: int| 0 <= i < listed.len() && (#[trigger] listed[i]).0 == name) <==> image.topic_id_by_name.contains_key(name) && m.contains_key(
                image.topic_id_by_name[name],
            )
            &&& forall|i: int|
                0 <= i < listed.len() && (#[trigger] listed[i]).0 == name ==> {
                    let own = m[image.topic_id_by_name[name]];
                    &&& listed[i].1.to_multiset() == own.to_multiset()
                    &&& forall|a: int, b: int| 0 <= a < b < listed[i].1.len() ==> #[trigger] listed[i].1[a] <= #[trigger] listed[i].1[b]
                }
        }),
{
    let names = listing::<String>(image.topic_id_by_name.dom());
    let listed = named_parts(m, image, names);
    finite_listed::<String>(image.topic_id_by_name.dom());
    named_parts_hold(m, image, names, name);
    if exists|i: int| 0 <= i < listed.len() && (#[trigger] listed[i]).0 == name {
        assert(names.contains(name));
        let k = choose|k: int| 0 <= k < names.len() && names[k] == name;
        assert(image.topic_id_by_name.dom().contains(names[k]));
    }
    if image.topic_id_by_name.contains_key(name) {
        assert(image.topic_id_by_name.dom().contains(name));
        assert(names.contains(name));
        let own = m[image.topic_id_by_name[name]];
        order_is_increasing(own);
    }
}

proof fn order_is_increasing(parts: Seq<i32>)
    ensures
        in_order(parts).to_multiset() == parts.to_multiset(),
        forall|a: int, b: int| 0 <= a < b < in_order(parts).len() ==> #[trigger] in_order(parts)[a] <= #[trigger] in_order(parts)[b],
{
    let leq = |a: i32, b: i32| a <= b;
    let out = parts.sort_by(leq);
    assert(vstd::relations::total_ordering(leq));
    parts.lemma_sort_by_ensures(leq);
    assert(out == in_order(parts));
    assert forall|a: int, b: int| 0 <= a < b < out.len() implies #[trigger] out[a] <= #[trigger] out[b] by {
        assert(leq(out[a], out[b]));
    }
}

proof fn named_parts_hold(m: PartitionsView, image: ReconcileInputView, names: Seq<Seq<char>>, name: Seq<char>)
    ensures
        ({
            let listed = named_parts(m, image, names);
            &&& (exists|i: int| 0 <= i < listed.len() && (#[trigger] listed[i]).0 == name) <==> names.contains(name) && m.contains_key(
                image.topic_id_by_name[name],
            )
            &&& forall|i: int| 0 <= i < listed.len() && (#[trigger] listed[i]).0 == name ==> listed[i].1 == in_order(m[image.topic_id_by_name[name]])
        }),
    decreases names.len(),
{
    if names.len() > 0 {
        let front = names.drop_last();
        let before = named_parts(m, image, front);
        let listed = named_parts(m, image, names);
        named_parts_hold(m, image, front, name);
        assert(names[names.len() - 1] == names.last());
        if names.contains(name) && name != names.last() {
            let i = choose|i: int| 0 <= i < names.len() && names[i] == name;
            assert(front[i] == name);
        }
        if front.contains(name) {
            let i = choose|i: int| 0 <= i < front.len() && front[i] == name;
            assert(names[i] == name);
        }
        if exists|i: int| 0 <= i < before.len() && (#[trigger] before[i]).0 == name {
            let i = choose|i: int| 0 <= i < before.len() && (#[trigger] before[i]).0 == name;
            assert(listed[i] == before[i]);
        }
        if m.contains_key(image.topic_id_by_name[names.last()]) {
            assert(listed[listed.len() - 1].0 == names.last());
        }
        assert forall|i: int| 0 <= i < listed.len() && (#[trigger] listed[i]).0 == name implies listed[i].1 == in_order(m[image.topic_id_by_name[name]]) by {
            if i < before.len() {
                assert(before[i] == listed[i]);
            }
        }
        if exists|i: int| 0 <= i < listed.len() && (#[trigger] listed[i]).0 == name {
            let i = choose|i: int| 0 <= i < listed.len() && (#[trigger] listed[i]).0 == name;
            if i < before.len() {
                assert(before[i] == listed[i]);
            }
        }
    }
}

} // verus!
