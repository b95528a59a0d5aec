//! Maps and sets kept in key order.
//!
//! Every collection of the coordinator that is searched by key is one of these: the entries stand
//! in a vector, strictly increasing by key, so a lookup is a binary search and a walk visits the
//! keys in order. Specifications speak of the view, a [`Map`] or a [`Set`]; where the order of a
//! walk matters they speak of `keys()`.

use vstd::prelude::*;
use vstd::utf8::{encode_utf8, encode_utf8_decode_utf8};

verus! {

/// How two keys stand to each other.
#[derive(Clone, Copy, Debug, PartialEq, Eq, Structural)]
pub enum Order {
    Less,
    Same,
    More,
}

/// A value that can be copied without changing what it stands for.
pub trait Dup: View + Sized {
    fn dup(&self) -> (r: Self)
        ensures
            r@ == self@,
    ;
}

/// A key: its views are totally ordered.
pub trait Key: Dup {
    spec fn lt(a: Self::V, b: Self::V) -> bool;

    proof fn lt_irreflexive(a: Self::V)
        ensures
            !Self::lt(a, a),
    ;

    proof fn lt_transitive(a: Self::V, b: Self::V, c: Self::V)
        requires
            Self::lt(a, b),
            Self::lt(b, c),
        ensures
            Self::lt(a, c),
    ;

    proof fn lt_total(a: Self::V, b: Self::V)
        ensures
            Self::lt(a, b) || a == b || Self::lt(b, a),
    ;

    fn order(&self, other: &Self) -> (o: Order)
        ensures
            o == Order::Less ==> Self::lt(self@, other@),
            o == Order::Same ==> self@ == other@,
            o == Order::More ==> Self::lt(other@, self@),
    ;
}

/// Byte strings in lexicographic order.
pub open spec fn bytes_lt(a: Seq<u8>, b: Seq<u8>) -> bool
    decreases a.len(),
{
    if b.len() == 0 {
        false
    } else if a.len() == 0 {
        true
    } else if a[0] != b[0] {
        a[0] < b[0]
    } else {
        bytes_lt(a.drop_first(), b.drop_first())
    }
}

/// Strings in lexicographic order of their UTF-8 bytes.
pub open spec fn str_lt(a: Seq<char>, b: Seq<char>) -> bool {
    bytes_lt(encode_utf8(a), encode_utf8(b))
}

proof fn bytes_lt_irreflexive(a: Seq<u8>)
    ensures
        !bytes_lt(a, a),
    decreases a.len(),
{
    if a.len() > 0 {
        bytes_lt_irreflexive(a.drop_first());
    }
}

proof fn bytes_lt_transitive(a: Seq<u8>, b: Seq<u8>, c: Seq<u8>)
    requires
        bytes_lt(a, b),
        bytes_lt(b, c),
    ensures
        bytes_lt(a, c),
    decreases a.len(),
{
    if a.len() > 0 && b.len() > 0 && c.len() > 0 && a[0] == b[0] && b[0] == c[0] {
        bytes_lt_transitive(a.drop_first(), b.drop_first(), c.drop_first());
    }
}

proof fn bytes_lt_total(a: Seq<u8>, b: Seq<u8>)
    ensures
        bytes_lt(a, b) || a == b || bytes_lt(b, a),
    decreases a.len(),
{
    if a.len() > 0 && b.len() > 0 && a[0] == b[0] {
        bytes_lt_total(a.drop_first(), b.drop_first());
        if a.drop_first() == b.drop_first() {
            assert(a =~= seq![a[0]] + a.drop_first());
            assert(b =~= seq![b[0]] + b.drop_first());
        }
    } else if a.len() == 0 && b.len() == 0 {
        assert(a =~= b);
    }
}

/// What a common prefix says of the order of two byte strings.
proof fn bytes_lt_prefix(a: Seq<u8>, b: Seq<u8>, n: int)
    requires
        0 <= n <= a.len(),
        n <= b.len(),
        forall|i: int| 0 <= i < n ==> a[i] == b[i],
    ensures
        n < a.len() && n < b.len() && a[n] < b[n] ==> bytes_lt(a, b),
        n == a.len() && n < b.len() ==> bytes_lt(a, b),
    decreases n,
{
    if n > 0 {
        assert forall|i: int| 0 <= i < n - 1 implies a.drop_first()[i] == b.drop_first()[i] by {
            assert(a[i + 1] == b[i + 1]);
        }
        bytes_lt_prefix(a.drop_first(), b.drop_first(), n - 1);
    }
}

proof fn encode_utf8_injective(a: Seq<char>, b: Seq<char>)
    requires
        encode_utf8(a) == encode_utf8(b),
    ensures
        a == b,
{
    encode_utf8_decode_utf8(a);
    encode_utf8_decode_utf8(b);
}

/// Compares two strings by their UTF-8 bytes.
pub fn str_order(a: &str, b: &str) -> (o: Order)
    ensures
        o == Order::Less ==> str_lt(a@, b@),
        o == Order::Same <==> a@ == b@,
        o == Order::More ==> str_lt(b@, a@),
{
    let x = a.as_bytes();
    let y = b.as_bytes();
    let mut i: usize = 0;
    while i < x.len() && i < y.len()
        invariant
            0 <= i <= x@.len(),
            i <= y@.len(),
            x@ == encode_utf8(a@),
            y@ == encode_utf8(b@),
            forall|j: int| 0 <= j < i ==> x@[j] == y@[j],
        decreases x@.len() - i,
    {
        proof {
            bytes_lt_prefix(x@, y@, i as int);
            bytes_lt_prefix(y@, x@, i as int);
        }
        if x[i] < y[i] {
            return Order::Less;
        }
        if y[i] < x[i] {
            return Order::More;
        }
        i = i + 1;
    }
    proof {
        bytes_lt_prefix(x@, y@, i as int);
        bytes_lt_prefix(y@, x@, i as int);
    }
    if i < y.len() {
        Order::Less
    } else if i < x.len() {
        Order::More
    } else {
        proof {
            assert(x@ =~= y@);
            encode_utf8_injective(a@, b@);
        }
        Order::Same
    }
}

/// Whether two strings are equal.
pub fn str_eq(a: &str, b: &str) -> (r: bool)
    ensures
        r == (a@ == b@),
{
    matches!(str_order(a, b), Order::Same)
}

impl Dup for String {
    fn dup(&self) -> (r: Self)
        ensures
            r == *self,
    {
        self.clone()
    }
}

impl Key for String {
    open spec fn lt(a: Seq<char>, b: Seq<char>) -> bool {
        str_lt(a, b)
    }

    proof fn lt_irreflexive(a: Seq<char>) {
        bytes_lt_irreflexive(encode_utf8(a));
    }

    proof fn lt_transitive(a: Seq<char>, b: Seq<char>, c: Seq<char>) {
        bytes_lt_transitive(encode_utf8(a), encode_utf8(b), encode_utf8(c));
    }

    proof fn lt_total(a: Seq<char>, b: Seq<char>) {
        bytes_lt_total(encode_utf8(a), encode_utf8(b));
        if encode_utf8(a) == encode_utf8(b) {
            encode_utf8_injective(a, b);
        }
    }

    fn order(&self, other: &Self) -> (o: Order) {
        str_order(self.as_str(), other.as_str())
    }
}

impl Dup for i32 {
    fn dup(&self) -> (r: Self) {
        *self
    }
}

impl Key for i32 {
    open spec fn lt(a: i32, b: i32) -> bool {
        a < b
    }

    proof fn lt_irreflexive(a: i32) {
    }

    proof fn lt_transitive(a: i32, b: i32, c: i32) {
    }

    proof fn lt_total(a: i32, b: i32) {
    }

    fn order(&self, other: &Self) -> (o: Order) {
        if *self < *other {
            Order::Less
        } else if *self == *other {
            Order::Same
        } else {
            Order::More
        }
    }
}

impl Dup for u64 {
    fn dup(&self) -> (r: Self) {
        *self
    }
}

impl Key for u64 {
    open spec fn lt(a: u64, b: u64) -> bool {
        a < b
    }

    proof fn lt_irreflexive(a: u64) {
    }

    proof fn lt_transitive(a: u64, b: u64, c: u64) {
    }

    proof fn lt_total(a: u64, b: u64) {
    }

    fn order(&self, other: &Self) -> (o: Order) {
        if *self < *other {
            Order::Less
        } else if *other < *self {
            Order::More
        } else {
            Order::Same
        }
    }
}

impl Dup for u128 {
    fn dup(&self) -> (r: Self) {
        *self
    }
}

impl Key for u128 {
    open spec fn lt(a: u128, b: u128) -> bool {
        a < b
    }

    proof fn lt_irreflexive(a: u128) {
    }

    proof fn lt_transitive(a: u128, b: u128, c: u128) {
    }

    proof fn lt_total(a: u128, b: u128) {
    }

    fn order(&self, other: &Self) -> (o: Order) {
        if *self < *other {
            Order::Less
        } else if *self == *other {
            Order::Same
        } else {
            Order::More
        }
    }
}

impl Dup for (u128, i32) {
    fn dup(&self) -> (r: Self) {
        (self.0, self.1)
    }
}

impl Key for (u128, i32) {
    open spec fn lt(a: (u128, i32), b: (u128, i32)) -> bool {
        a.0 < b.0 || (a.0 == b.0 && a.1 < b.1)
    }

    proof fn lt_irreflexive(a: (u128, i32)) {
    }

    proof fn lt_transitive(a: (u128, i32), b: (u128, i32), c: (u128, i32)) {
    }

    proof fn lt_total(a: (u128, i32), b: (u128, i32)) {
    }

    fn order(&self, other: &Self) -> (o: Order) {
        if self.0 < other.0 {
            Order::Less
        } else if other.0 < self.0 {
            Order::More
        } else if self.1 < other.1 {
            Order::Less
        } else if other.1 < self.1 {
            Order::More
        } else {
            Order::Same
        }
    }
}

impl Dup for i64 {
    fn dup(&self) -> (r: Self) {
        *self
    }
}

impl Key for i64 {
    open spec fn lt(a: i64, b: i64) -> bool {
        a < b
    }

    proof fn lt_irreflexive(a: i64) {
    }

    proof fn lt_transitive(a: i64, b: i64, c: i64) {
    }

    proof fn lt_total(a: i64, b: i64) {
    }

    fn order(&self, other: &Self) -> (o: Order) {
        if *self < *other {
            Order::Less
        } else if *other < *self {
            Order::More
        } else {
            Order::Same
        }
    }
}

impl Dup for (String, i32) {
    fn dup(&self) -> (r: Self) {
        (self.0.clone(), self.1)
    }
}

impl Key for (String, i32) {
    open spec fn lt(a: (Seq<char>, i32), b: (Seq<char>, i32)) -> bool {
        str_lt(a.0, b.0) || (a.0 == b.0 && a.1 < b.1)
    }

    proof fn lt_irreflexive(a: (Seq<char>, i32)) {
        <String as Key>::lt_irreflexive(a.0);
    }

    proof fn lt_transitive(a: (Seq<char>, i32), b: (Seq<char>, i32), c: (Seq<char>, i32)) {
        if str_lt(a.0, b.0) && str_lt(b.0, c.0) {
            <String as Key>::lt_transitive(a.0, b.0, c.0);
        }
    }

    proof fn lt_total(a: (Seq<char>, i32), b: (Seq<char>, i32)) {
        <String as Key>::lt_total(a.0, b.0);
    }

    fn order(&self, other: &Self) -> (o: Order) {
        match str_order(self.0.as_str(), other.0.as_str()) {
            Order::Less => Order::Less,
            Order::More => Order::More,
            Order::Same => if self.1 < other.1 {
                Order::Less
            } else if other.1 < self.1 {
                Order::More
            } else {
                Order::Same
            },
        }
    }
}

impl Dup for Vec<i32> {
    fn dup(&self) -> (r: Self) {
        let r = self.clone();
        assert(r@ =~= self@);
        r
    }
}

impl Dup for Vec<u8> {
    fn dup(&self) -> (r: Self) {
        let r = self.clone();
        assert(r@ =~= self@);
        r
    }
}

impl Dup for () {
    fn dup(&self) -> (r: Self) {
    }
}

/// Whether `keys` is strictly increasing.
pub open spec fn increasing<K: Key>(keys: Seq<K::V>) -> bool {
    forall|i: int, j: int| 0 <= i < j < keys.len() ==> K::lt(#[trigger] keys[i], #[trigger] keys[j])
}

/// A map from keys to values, kept in key order.
#[derive(Debug, PartialEq, Eq)]
#[verifier::reject_recursive_types(K)]
#[verifier::reject_recursive_types(V)]
pub struct OrdMap<K: Key, V: View> {
    entries: Vec<(K, V)>,
}

impl<K: Key, V: View> View for OrdMap<K, V> {
    type V = Map<K::V, V::V>;

    closed spec fn view(&self) -> Map<K::V, V::V> {
        bindings(self.entries@)
    }
}

/// The map that `entries` stand for.
spec fn bindings<K: Key, V: View>(entries: Seq<(K, V)>) -> Map<K::V, V::V> {
    Map::new(
        |k: K::V| exists|i: int| 0 <= i < entries.len() && (#[trigger] entries[i]).0@ == k,
        |k: K::V| entries[pos::<K, V>(entries, k)].1@,
    )
}

/// The place of `k` among `entries`.
spec fn pos<K: Key, V: View>(entries: Seq<(K, V)>, k: K::V) -> int {
    choose|i: int| 0 <= i < entries.len() && (#[trigger] entries[i]).0@ == k
}

spec fn ordered<K: Key, V: View>(entries: Seq<(K, V)>) -> bool {
    forall|i: int, j: int| 0 <= i < j < entries.len() ==> K::lt((#[trigger] entries[i]).0@, (#[trigger] entries[j]).0@)
}

proof fn binding_at<K: Key, V: View>(entries: Seq<(K, V)>, i: int)
    requires
        ordered(entries),
        0 <= i < entries.len(),
    ensures
        bindings(entries).contains_key(entries[i].0@),
        bindings(entries)[entries[i].0@] == entries[i].1@,
{
    let p = pos(entries, entries[i].0@);
    assert(0 <= p < entries.len() && entries[p].0@ == entries[i].0@);
    K::lt_irreflexive(entries[i].0@);
    if p < i {
        assert(K::lt(entries[p].0@, entries[i].0@));
    } else if i < p {
        assert(K::lt(entries[i].0@, entries[p].0@));
    }
}

/// Replacing the value at `i` rebinds the key there.
proof fn rebind<K: Key, V: View>(before: Seq<(K, V)>, i: int, e: (K, V))
    requires
        ordered(before),
        0 <= i < before.len(),
        before[i].0@ == e.0@,
    ensures
        ordered(before.update(i, e)),
        bindings(before.update(i, e)) == bindings(before).insert(e.0@, e.1@),
{
    let after = before.update(i, e);
    assert forall|p: int, q: int| 0 <= p < q < after.len() implies K::lt((#[trigger] after[p]).0@, (#[trigger] after[q]).0@) by {
        assert(after[p].0@ == before[p].0@ && after[q].0@ == before[q].0@);
    }
    let m = bindings(before).insert(e.0@, e.1@);
    assert forall|k: K::V| #[trigger] bindings(after).contains_key(k) <==> m.contains_key(k) by {
        if bindings(after).contains_key(k) {
            let j = pos(after, k);
            assert(before[j].0@ == k);
        }
        if m.contains_key(k) && k != e.0@ {
            let j = pos(before, k);
            assert(after[j].0@ == k);
        }
        assert(after[i].0@ == e.0@);
    }
    assert forall|k: K::V| #[trigger] bindings(after).contains_key(k) implies bindings(after)[k] == m[k] by {
        let j = pos(after, k);
        binding_at(after, j);
        if j != i {
            binding_at(before, j);
            K::lt_irreflexive(k);
            assert(after[i].0@ == e.0@);
            assert(K::lt(after[i].0@, after[j].0@) || K::lt(after[j].0@, after[i].0@));
        }
    }
    assert(bindings(after) =~= m);
}

/// A new entry at its place in the order binds its key.
proof fn bind<K: Key, V: View>(before: Seq<(K, V)>, i: int, e: (K, V))
    requires
        ordered(before),
        0 <= i <= before.len(),
        forall|j: int| 0 <= j < i ==> K::lt((#[trigger] before[j]).0@, e.0@),
        forall|j: int| i <= j < before.len() ==> K::lt(e.0@, (#[trigger] before[j]).0@),
    ensures
        ordered(before.insert(i, e)),
        bindings(before.insert(i, e)) == bindings(before).insert(e.0@, e.1@),
        bindings(before.insert(i, e)).remove(e.0@) == bindings(before),
{
    let after = before.insert(i, e);
    let m = bindings(before).insert(e.0@, e.1@);
    assert forall|p: int, q: int| 0 <= p < q < after.len() implies K::lt((#[trigger] after[p]).0@, (#[trigger] after[q]).0@) by {
        if p != i && q != i {
            let p0 = if p < i { p } else { p - 1 };
            let q0 = if q < i { q } else { q - 1 };
            assert(after[p] == before[p0] && after[q] == before[q0]);
        } else if p == i {
            assert(after[q] == before[q - 1]);
        } else {
            assert(after[p] == before[p]);
        }
    }
    assert forall|k: K::V| #[trigger] bindings(after).contains_key(k) <==> m.contains_key(k) by {
        if bindings(after).contains_key(k) {
            let j = pos(after, k);
            if j != i {
                let j0 = if j < i { j } else { j - 1 };
                assert(before[j0] == after[j]);
            }
        }
        if m.contains_key(k) && k != e.0@ {
            let j = pos(before, k);
            let j1 = if j < i { j } else { j + 1 };
            assert(after[j1] == before[j]);
        }
        assert(after[i] == e);
    }
    assert forall|k: K::V| #[trigger] bindings(after).contains_key(k) implies bindings(after)[k] == m[k] by {
        let j = pos(after, k);
        binding_at(after, j);
        if j != i {
            let j0 = if j < i { j } else { j - 1 };
            assert(before[j0] == after[j]);
            binding_at(before, j0);
            K::lt_irreflexive(k);
        }
    }
    assert(bindings(after) =~= m);
    assert(!bindings(before).contains_key(e.0@)) by {
        if bindings(before).contains_key(e.0@) {
            let j = pos(before, e.0@);
            K::lt_irreflexive(e.0@);
            assert(before[j].0@ == e.0@);
        }
    }
    assert(m.remove(e.0@) =~= bindings(before));
}

impl<K: Key, V: View> OrdMap<K, V> {
    #[verifier::type_invariant]
    closed spec fn inv(self) -> bool {
        ordered(self.entries@)
    }

    /// The keys, in order.
    pub closed spec fn keys(self) -> Seq<K::V> {
        Seq::new(self.entries@.len(), |i: int| self.entries@[i].0@)
    }

    /// How the keys in order and the view belong together.
    pub open spec fn listed(self) -> bool {
        &&& increasing::<K>(self.keys())
        &&& forall|i: int| 0 <= i < self.keys().len() ==> self@.contains_key(#[trigger] self.keys()[i])
        &&& forall|k: K::V| #[trigger] self@.contains_key(k) ==> self.keys().contains(k)
    }

    proof fn is_listed(self)
        requires
            self.inv(),
        ensures
            self.listed(),
    {
        assert forall|i: int| 0 <= i < self.keys().len() implies self@.contains_key(#[trigger] self.keys()[i]) by {
            assert(self.entries@[i].0@ == self.keys()[i]);
        }
        assert forall|k: K::V| #[trigger] self@.contains_key(k) implies self.keys().contains(k) by {
            let i = choose|i: int| 0 <= i < self.entries@.len() && self.entries@[i].0@ == k;
            assert(self.keys()[i] == k);
        }
    }

    /// An empty map.
    pub fn new() -> (r: Self)
        ensures
            r@ == Map::<K::V, V::V>::empty(),
            r.keys().len() == 0,
    {
        let r = OrdMap { entries: Vec::new() };
        assert(r@ =~= Map::<K::V, V::V>::empty());
        r
    }

    /// How many entries there are.
    pub fn len(&self) -> (n: usize)
        ensures
            n == self.keys().len(),
            self.listed(),
            self.keys() == listing::<K>(self@.dom()),
    {
        proof {
            use_type_invariant(self);
            self.is_listed();
            assert forall|k: K::V| #[trigger] self@.dom().contains(k) implies self.keys().contains(k) by {
                assert(self@.contains_key(k));
            }
            assert forall|i: int| 0 <= i < self.keys().len() implies self@.dom().contains(#[trigger] self.keys()[i]) by {
                assert(self@.contains_key(self.keys()[i]));
            }
            listing_unique::<K>(self.keys(), self@.dom());
        }
        self.entries.len()
    }

    pub fn is_empty(&self) -> (r: bool)
        ensures
            r == (self@ == Map::<K::V, V::V>::empty()),
            r == (self.keys().len() == 0),
    {
        proof {
            use_type_invariant(self);
            self.is_listed();
            if self.entries@.len() == 0 {
                assert(self@ =~= Map::<K::V, V::V>::empty());
            } else {
                assert(self@.contains_key(self.keys()[0]));
            }
        }
        self.entries.len() == 0
    }

    /// The key at place `i` of the order.
    pub fn key_at(&self, i: usize) -> (k: &K)
        requires
            i < self.keys().len(),
        ensures
            k@ == self.keys()[i as int],
            self@.contains_key(k@),
    {
        proof {
            use_type_invariant(self);
            self.is_listed();
        }
        &self.entries[i].0
    }

    /// The value at place `i` of the order.
    pub fn value_at(&self, i: usize) -> (v: &V)
        requires
            i < self.keys().len(),
        ensures
            v@ == self@[self.keys()[i as int]],
            self@.contains_key(self.keys()[i as int]),
    {
        proof {
            use_type_invariant(self);
            self.is_listed();
            binding_at(self.entries@, i as int);
        }
        &self.entries[i].1
    }

    /// The first place whose key is not below `k`, and whether `k` stands there.
    fn find(&self, k: &K) -> (r: (usize, bool))
        ensures
            r.0 <= self.entries@.len(),
            forall|i: int| 0 <= i < r.0 ==> K::lt((#[trigger] self.entries@[i]).0@, k@),
            r.1 ==> r.0 < self.entries@.len() && self.entries@[r.0 as int].0@ == k@,
            !r.1 ==> forall|i: int| r.0 <= i < self.entries@.len() ==> K::lt(k@, (#[trigger] self.entries@[i]).0@),
            r.1 == self@.contains_key(k@),
            ordered(self.entries@),
    {
        proof {
            use_type_invariant(self);
        }
        let mut lo: usize = 0;
        let mut hi: usize = self.entries.len();
        while lo < hi
            invariant
                lo <= hi <= self.entries@.len(),
                ordered(self.entries@),
                forall|i: int| 0 <= i < lo ==> K::lt((#[trigger] self.entries@[i]).0@, k@),
                forall|i: int| hi <= i < self.entries@.len() ==> K::lt(k@, (#[trigger] self.entries@[i]).0@),
            decreases hi - lo,
        {
            let mid: usize = lo + (hi - lo) / 2;
            match self.entries[mid].0.order(k) {
                Order::Less => {
                    proof {
                        assert forall|i: int| 0 <= i < mid + 1 implies K::lt((#[trigger] self.entries@[i]).0@, k@) by {
                            if i < mid {
                                K::lt_transitive(self.entries@[i].0@, self.entries@[mid as int].0@, k@);
                            }
                        }
                    }
                    lo = mid + 1;
                },
                Order::Same => {
                    return (mid, true);
                },
                Order::More => {
                    proof {
                        assert forall|i: int| mid <= i < self.entries@.len() implies K::lt(k@, (#[trigger] self.entries@[i]).0@) by {
                            if mid < i {
                                K::lt_transitive(k@, self.entries@[mid as int].0@, self.entries@[i].0@);
                            }
                        }
                    }
                    hi = mid;
                },
            }
        }
        proof {
            if self@.contains_key(k@) {
                let i = choose|i: int| 0 <= i < self.entries@.len() && self.entries@[i].0@ == k@;
                K::lt_irreflexive(k@);
                assert(K::lt(self.entries@[i].0@, k@) || K::lt(k@, self.entries@[i].0@));
            }
        }
        (lo, false)
    }

    pub fn contains_key(&self, k: &K) -> (r: bool)
        ensures
            r == self@.contains_key(k@),
    {
        let (_, found) = self.find(k);
        found
    }

    /// The value that belongs to `k`.
    pub fn get(&self, k: &K) -> (r: Option<&V>)
        ensures
            match r {
                Some(v) => self@.contains_key(k@) && v@ == self@[k@],
                None => !self@.contains_key(k@),
            },
    {
        let (i, found) = self.find(k);
        if found {
            proof {
                binding_at(self.entries@, i as int);
            }
            Some(&self.entries[i].1)
        } else {
            None
        }
    }

    /// Binds `k` to `v`, in place of what `k` was bound to.
    pub fn insert(&mut self, k: K, v: V)
        ensures
            final(self)@ == old(self)@.insert(k@, v@),
    {
        let (i, found) = self.find(&k);
        let mut entries: Vec<(K, V)> = Vec::new();
        core::mem::swap(&mut entries, &mut self.entries);
        let ghost before = entries@;
        if found {
            proof {
                rebind(before, i as int, (k, v));
            }
            entries.set(i, (k, v));
        } else {
            proof {
                bind(before, i as int, (k, v));
            }
            entries.insert(i, (k, v));
        }
        self.entries = entries;
    }

    /// Takes out what `k` is bound to.
    pub fn remove(&mut self, k: &K) -> (r: Option<V>)
        ensures
            final(self)@ == old(self)@.remove(k@),
            match r {
                Some(v) => old(self)@.contains_key(k@) && v@ == old(self)@[k@],
                None => !old(self)@.contains_key(k@),
            },
    {
        let (i, found) = self.find(k);
        if !found {
            assert(self@.remove(k@) =~= self@);
            return None;
        }
        let mut entries: Vec<(K, V)> = Vec::new();
        core::mem::swap(&mut entries, &mut self.entries);
        let ghost before = entries@;
        let (_, v) = entries.remove(i);
        proof {
            binding_at(before, i as int);
            let after = before.remove(i as int);
            assert forall|p: int, q: int| 0 <= p < q < after.len() implies K::lt((#[trigger] after[p]).0@, (#[trigger] after[q]).0@) by {
                let p0 = if p < i { p } else { p + 1 };
                let q0 = if q < i { q } else { q + 1 };
                assert(after[p] == before[p0] && after[q] == before[q0]);
            }
            assert forall|j: int| i <= j < after.len() implies K::lt(k@, (#[trigger] after[j]).0@) by {
                assert(after[j] == before[j + 1]);
                assert(before[i as int].0@ == k@);
            }
            assert forall|j: int| 0 <= j < i implies K::lt((#[trigger] after[j]).0@, k@) by {
                assert(after[j] == before[j]);
            }
            assert(after.insert(i as int, before[i as int]) =~= before);
            bind(after, i as int, before[i as int]);
            assert(entries@ =~= after);
        }
        self.entries = entries;
        Some(v)
    }
}

/// The views of the elements of `s`.
pub open spec fn views<T: View>(s: Seq<T>) -> Seq<T::V> {
    Seq::new(s.len(), |i: int| s[i]@)
}

/// Whether `l` lists the members of `s` in order.
pub open spec fn lists<K: Key>(l: Seq<K::V>, s: Set<K::V>) -> bool {
    &&& increasing::<K>(l)
    &&& forall|i: int| 0 <= i < l.len() ==> s.contains(#[trigger] l[i])
    &&& forall|k: K::V| #[trigger] s.contains(k) ==> l.contains(k)
}

/// The members of `s` in order.
pub open spec fn listing<K: Key>(s: Set<K::V>) -> Seq<K::V> {
    choose|l: Seq<K::V>| lists::<K>(l, s)
}

/// A finite set that is not empty has a greatest element.
proof fn greatest<K: Key>(s: Set<K::V>) -> (m: K::V)
    requires
        s.finite(),
        s.len() > 0,
    ensures
        s.contains(m),
        forall|x: K::V| #[trigger] s.contains(x) && x != m ==> K::lt(x, m),
    decreases s.len(),
{
    let a = s.choose();
    let rest = s.remove(a);
    if rest.len() == 0 {
        assert forall|x: K::V| #[trigger] s.contains(x) && x != a implies K::lt(x, a) by {
            assert(rest.contains(x));
        }
        a
    } else {
        let m = greatest::<K>(rest);
        K::lt_total(a, m);
        if K::lt(a, m) {
            assert forall|x: K::V| #[trigger] s.contains(x) && x != m implies K::lt(x, m) by {
                if x != a {
                    assert(rest.contains(x));
                }
            }
            m
        } else {
            assert forall|x: K::V| #[trigger] s.contains(x) && x != a implies K::lt(x, a) by {
                assert(rest.contains(x));
                if x != m {
                    K::lt_transitive(x, m, a);
                }
            }
            a
        }
    }
}

/// The elements of a finite set can be listed in order.
pub proof fn finite_listed<K: Key>(s: Set<K::V>)
    requires
        s.finite(),
    ensures
        lists::<K>(listing::<K>(s), s),
    decreases s.len(),
{
    if s.len() == 0 {
        assert(s =~= Set::empty());
        let l = Seq::<K::V>::empty();
        assert(lists::<K>(l, s));
    } else {
        let m = greatest::<K>(s);
        let rest = s.remove(m);
        finite_listed::<K>(rest);
        let before = listing::<K>(rest);
        let l = before.push(m);
        assert forall|i: int, j: int| 0 <= i < j < l.len() implies K::lt(#[trigger] l[i], #[trigger] l[j]) by {
            if j == before.len() {
                assert(rest.contains(before[i]));
            }
        }
        assert forall|x: K::V| s.contains(x) implies exists|i: int| 0 <= i < l.len() && #[trigger] l[i] == x by {
            if x == m {
                assert(l[before.len() as int] == x);
            } else {
                assert(rest.contains(x));
                let i = choose|i: int| 0 <= i < before.len() && #[trigger] before[i] == x;
                assert(l[i] == x);
            }
        }
        assert(lists::<K>(l, s));
    }
}

/// The listing of a finite set holds each element once, and nothing else.
pub proof fn listing_holds<K: Key>(s: Set<K::V>)
    requires
        s.finite(),
    ensures
        forall|i: int| 0 <= i < listing::<K>(s).len() ==> s.contains(#[trigger] listing::<K>(s)[i]),
        forall|i: int, j: int| 0 <= i < j < listing::<K>(s).len() ==> #[trigger] listing::<K>(s)[i] != #[trigger] listing::<K>(s)[j],
{
    finite_listed::<K>(s);
    assert forall|i: int, j: int| 0 <= i < j < listing::<K>(s).len() implies #[trigger] listing::<K>(s)[i] != #[trigger] listing::<K>(s)[j] by {
        K::lt_irreflexive(listing::<K>(s)[i]);
    }
}

/// The listing of a finite set is as long as the set is large.
pub proof fn listing_len<K: Key>(s: Set<K::V>)
    requires
        s.finite(),
    ensures
        listing::<K>(s).len() == s.len(),
{
    let l = listing::<K>(s);
    finite_listed::<K>(s);
    listing_holds::<K>(s);
    assert(l.no_duplicates());
    l.unique_seq_to_set();
    assert(l.to_set() =~= s) by {
        assert forall|k: K::V| l.to_set().contains(k) <==> #[trigger] s.contains(k) by {
            if l.to_set().contains(k) {
                let i = choose|i: int| 0 <= i < l.len() && l[i] == k;
                assert(s.contains(l[i]));
            }
            if s.contains(k) {
                assert(l.contains(k));
            }
        }
    }
}

/// Where the listing of a finite set holds an element of it.
pub proof fn listed_at<K: Key>(s: Set<K::V>, k: K::V) -> (i: int)
    requires
        s.finite(),
        s.contains(k),
    ensures
        0 <= i < listing::<K>(s).len(),
        listing::<K>(s)[i] == k,
{
    finite_listed::<K>(s);
    assert(listing::<K>(s).contains(k));
    choose|i: int| 0 <= i < listing::<K>(s).len() && listing::<K>(s)[i] == k
}

/// There is one way to list a set in order.
pub proof fn listing_unique<K: Key>(l: Seq<K::V>, s: Set<K::V>)
    requires
        lists::<K>(l, s),
    ensures
        listing::<K>(s) == l,
{
    same_listing::<K>(listing::<K>(s), l, s);
}

proof fn same_listing<K: Key>(a: Seq<K::V>, b: Seq<K::V>, s: Set<K::V>)
    requires
        lists::<K>(a, s),
        lists::<K>(b, s),
    ensures
        a == b,
    decreases a.len(),
{
    if a.len() == 0 {
        if b.len() > 0 {
            assert(s.contains(b[0]));
            assert(a.contains(b[0]));
        }
        assert(a =~= b);
    } else {
        let x = a[a.len() - 1];
        assert(s.contains(x));
        assert(b.contains(x));
        let y = b[b.len() - 1];
        assert(s.contains(y));
        assert(a.contains(y));
        let i = choose|i: int| 0 <= i < b.len() && b[i] == x;
        let j = choose|j: int| 0 <= j < a.len() && a[j] == y;
        if i < b.len() - 1 {
            assert(K::lt(b[i], b[b.len() - 1]));
            if j < a.len() - 1 {
                assert(K::lt(a[j], a[a.len() - 1]));
                K::lt_transitive(x, y, x);
            }
            K::lt_irreflexive(x);
        }
        assert(x == y);
        let t = s.remove(x);
        front_lists::<K>(a, s);
        front_lists::<K>(b, s);
        same_listing::<K>(a.drop_last(), b.drop_last(), t);
        assert(a =~= a.drop_last().push(x));
        assert(b =~= b.drop_last().push(y));
    }
}

proof fn front_lists<K: Key>(a: Seq<K::V>, s: Set<K::V>)
    requires
        lists::<K>(a, s),
        a.len() > 0,
    ensures
        lists::<K>(a.drop_last(), s.remove(a.last())),
{
    let f = a.drop_last();
    let t = s.remove(a.last());
    assert forall|i: int| 0 <= i < f.len() implies t.contains(#[trigger] f[i]) by {
        assert(s.contains(a[i]));
        assert(K::lt(a[i], a[a.len() - 1]));
        K::lt_irreflexive(a[i]);
    }
    assert forall|k: K::V| #[trigger] t.contains(k) implies f.contains(k) by {
        let i = choose|i: int| 0 <= i < a.len() && a[i] == k;
        assert(f[i] == k);
    }
    assert forall|i: int, j: int| 0 <= i < j < f.len() implies K::lt(#[trigger] f[i], #[trigger] f[j]) by {
        assert(K::lt(a[i], a[j]));
    }
}

/// A test on the entries of a map.
pub trait Test<K: Key, V: View> {
    spec fn holds(&self, k: K::V, v: V::V) -> bool;

    fn test(&self, k: &K, v: &V) -> (r: bool)
        ensures
            r == self.holds(k@, v@),
    ;
}

/// A change of the values of a map.
pub trait Change<K: Key, V: View> {
    spec fn changed(&self, k: K::V, v: V::V) -> V::V;

    fn change(&self, k: &K, v: &V) -> (r: V)
        ensures
            r@ == self.changed(k@, v@),
    ;
}

/// What each entry of a map is turned into.
pub trait Turn<K: Key, V: View, W: View> {
    spec fn turned(&self, k: K::V, v: V::V) -> W::V;

    fn turn(&self, k: &K, v: &V) -> (r: W)
        ensures
            r@ == self.turned(k@, v@),
    ;
}

/// Every entry turned into another value.
pub open spec fn each_turned<K: Key, V: View, W: View, T: Turn<K, V, W>>(m: Map<K::V, V::V>, t: T) -> Map<K::V, W::V> {
    Map::new(|k: K::V| m.contains_key(k), |k: K::V| t.turned(k, m[k]))
}

/// The keys whose entries pass the test.
pub open spec fn passing<K: Key, V: View, T: Test<K, V>>(m: Map<K::V, V::V>, t: T) -> Set<K::V> {
    Set::new(|k: K::V| m.contains_key(k) && t.holds(k, m[k]))
}

/// The entries that pass the test.
pub open spec fn kept<K: Key, V: View, T: Test<K, V>>(m: Map<K::V, V::V>, t: T) -> Map<K::V, V::V> {
    Map::new(|k: K::V| m.contains_key(k) && t.holds(k, m[k]), |k: K::V| m[k])
}

/// Every value changed.
pub open spec fn each_changed<K: Key, V: View, C: Change<K, V>>(m: Map<K::V, V::V>, c: C) -> Map<K::V, V::V> {
    Map::new(|k: K::V| m.contains_key(k), |k: K::V| c.changed(k, m[k]))
}

impl<K: Key, V: View> OrdMap<K, V> {
    /// Whether some entry passes the test.
    pub fn any<T: Test<K, V>>(&self, t: &T) -> (r: bool)
        ensures
            r == exists|k: K::V| #[trigger] self@.contains_key(k) && t.holds(k, self@[k]),
    {
        let n: usize = self.len();
        let mut i: usize = 0;
        while i < n
            invariant
                0 <= i <= n,
                n == self.keys().len(),
                self.listed(),
                forall|j: int| 0 <= j < i ==> !t.holds(#[trigger] self.keys()[j], self@[self.keys()[j]]),
            decreases n - i,
        {
            if t.test(self.key_at(i), self.value_at(i)) {
                assert(self@.contains_key(self.keys()[i as int]));
                return true;
            }
            i = i + 1;
        }
        proof {
            assert forall|k: K::V| #[trigger] self@.contains_key(k) implies !t.holds(k, self@[k]) by {
                let j = choose|j: int| 0 <= j < self.keys().len() && self.keys()[j] == k;
                assert(!t.holds(self.keys()[j], self@[self.keys()[j]]));
            }
        }
        false
    }

    /// The keys whose entries pass the test, in order.
    pub fn keys_where<T: Test<K, V>>(&self, t: &T) -> (r: Vec<K>)
        ensures
            views(r@) == listing::<K>(passing::<K, V, T>(self@, *t)),
            lists::<K>(views(r@), passing::<K, V, T>(self@, *t)),
    {
        let n: usize = self.len();
        let mut out: Vec<K> = Vec::new();
        let mut i: usize = 0;
        while i < n
            invariant
                0 <= i <= n,
                n == self.keys().len(),
                self.listed(),
                increasing::<K>(views(out@)),
                forall|j: int| 0 <= j < out@.len() ==> passing::<K, V, T>(self@, *t).contains(#[trigger] views(out@)[j]),
                forall|j: int| 0 <= j < out@.len() && i < n ==> K::lt(#[trigger] views(out@)[j], self.keys()[i as int]),
                forall|j: int| 0 <= j < i && t.holds(#[trigger] self.keys()[j], self@[self.keys()[j]]) ==> views(out@).contains(self.keys()[j]),
            decreases n - i,
        {
            let ghost before = views(out@);
            let ghost k = self.keys()[i as int];
            if t.test(self.key_at(i), self.value_at(i)) {
                out.push(self.key_at(i).dup());
                proof {
                    assert(views(out@) =~= before.push(k));
                    assert(views(out@)[before.len() as int] == k);
                    assert forall|x: K::V| before.contains(x) implies views(out@).contains(x) by {
                        let j = choose|j: int| 0 <= j < before.len() && before[j] == x;
                        assert(views(out@)[j] == x);
                    }
                    assert forall|p: int, q: int| 0 <= p < q < views(out@).len() implies K::lt(#[trigger] views(out@)[p], #[trigger] views(out@)[q]) by {
                        if q == before.len() {
                            assert(K::lt(before[p], k));
                        } else {
                            assert(K::lt(before[p], before[q]));
                        }
                    }
                    assert forall|j: int| 0 <= j < views(out@).len() implies passing::<K, V, T>(self@, *t).contains(#[trigger] views(out@)[j]) by {
                        if j < before.len() {
                            assert(passing::<K, V, T>(self@, *t).contains(before[j]));
                        }
                    }
                }
            }
            proof {
                if i + 1 < n {
                    assert(K::lt(k, self.keys()[i + 1]));
                    assert forall|j: int| 0 <= j < out@.len() implies K::lt(#[trigger] views(out@)[j], self.keys()[i + 1]) by {
                        if j < before.len() {
                            assert(K::lt(before[j], k));
                            K::lt_transitive(before[j], k, self.keys()[i + 1]);
                        }
                    }
                }
            }
            i = i + 1;
        }
        proof {
            let s = passing::<K, V, T>(self@, *t);
            assert forall|k: K::V| #[trigger] s.contains(k) implies views(out@).contains(k) by {
                assert(self@.contains_key(k));
                let j = choose|j: int| 0 <= j < self.keys().len() && self.keys()[j] == k;
                assert(t.holds(self.keys()[j], self@[self.keys()[j]]));
            }
            listing_unique::<K>(views(out@), s);
        }
        out
    }

    /// Keeps the entries that pass the test.
    pub fn retain<T: Test<K, V>>(&mut self, t: &T) where V: Dup
        ensures
            final(self)@ == kept::<K, V, T>(old(self)@, *t),
    {
        let n: usize = self.len();
        let mut out: OrdMap<K, V> = OrdMap::new();
        let mut i: usize = 0;
        while i < n
            invariant
                0 <= i <= n,
                *self == *old(self),
                n == self.keys().len(),
                self.listed(),
                forall|k: K::V|
                    #[trigger] out@.contains_key(k) <==> exists|j: int| 0 <= j < i && #[trigger] self.keys()[j] == k && t.holds(k, self@[k]),
                forall|k: K::V| #[trigger] out@.contains_key(k) ==> out@[k] == self@[k],
            decreases n - i,
        {
            let ghost before = out@;
            let ghost key = self.keys()[i as int];
            if t.test(self.key_at(i), self.value_at(i)) {
                out.insert(self.key_at(i).dup(), self.value_at(i).dup());
            }
            proof {
                assert forall|k: K::V|
                    #[trigger] out@.contains_key(k) <==> exists|j: int| 0 <= j < i + 1 && #[trigger] self.keys()[j] == k && t.holds(k, self@[k]) by {
                    if out@.contains_key(k) {
                        if k == key && t.holds(key, self@[key]) {
                            assert(self.keys()[i as int] == k);
                        } else {
                            assert(before.contains_key(k));
                            let j = choose|j: int| 0 <= j < i && #[trigger] self.keys()[j] == k && t.holds(k, self@[k]);
                            assert(self.keys()[j] == k);
                        }
                    }
                    if exists|j: int| 0 <= j < i + 1 && #[trigger] self.keys()[j] == k && t.holds(k, self@[k]) {
                        let j = choose|j: int| 0 <= j < i + 1 && #[trigger] self.keys()[j] == k && t.holds(k, self@[k]);
                        if j < i {
                            assert(before.contains_key(k));
                        }
                    }
                }
            }
            i = i + 1;
        }
        proof {
            let m = kept::<K, V, T>(self@, *t);
            assert forall|k: K::V| #[trigger] out@.contains_key(k) <==> m.contains_key(k) by {
                if m.contains_key(k) {
                    assert(self@.contains_key(k));
                    let j = choose|j: int| 0 <= j < self.keys().len() && self.keys()[j] == k;
                    assert(self.keys()[j] == k);
                }
            }
            assert(out@ =~= m);
        }
        *self = out;
    }

    /// Changes every value.
    pub fn change_each<C: Change<K, V>>(&mut self, c: &C)
        ensures
            final(self)@ == each_changed::<K, V, C>(old(self)@, *c),
            final(self).keys() == old(self).keys(),
    {
        proof {
            use_type_invariant(&*self);
        }
        let mut out: Vec<(K, V)> = Vec::new();
        let mut i: usize = 0;
        while i < self.entries.len()
            invariant
                0 <= i <= self.entries@.len(),
                *self == *old(self),
                out@.len() == i,
                forall|j: int| 0 <= j < i ==> (#[trigger] out@[j]).0@ == self.entries@[j].0@ && out@[j].1@ == c.changed(self.entries@[j].0@, self.entries@[j].1@),
            decreases self.entries@.len() - i,
        {
            let e = &self.entries[i];
            out.push((e.0.dup(), c.change(&e.0, &e.1)));
            i = i + 1;
        }
        proof {
            let before = self.entries@;
            assert forall|p: int, q: int| 0 <= p < q < out@.len() implies K::lt((#[trigger] out@[p]).0@, (#[trigger] out@[q]).0@) by {
                assert(K::lt(before[p].0@, before[q].0@));
            }
            let m = each_changed::<K, V, C>(bindings(before), *c);
            assert forall|k: K::V| #[trigger] bindings(out@).contains_key(k) <==> m.contains_key(k) by {
                if bindings(out@).contains_key(k) {
                    let j = pos(out@, k);
                    assert(before[j].0@ == k);
                }
                if bindings(before).contains_key(k) {
                    let j = pos(before, k);
                    assert(out@[j].0@ == k);
                }
            }
            assert forall|k: K::V| #[trigger] bindings(out@).contains_key(k) implies bindings(out@)[k] == m[k] by {
                let j = pos(out@, k);
                binding_at(out@, j);
                binding_at(before, j);
            }
            assert(bindings(out@) =~= m);
        }
        self.entries = out;
        assert(self.keys() =~= old(self).keys());
    }
}

impl<K: Key, V: View> OrdMap<K, V> {
    /// Turns every entry into another value.
    pub fn turn_each<W: View, T: Turn<K, V, W>>(&self, t: &T) -> (r: OrdMap<K, W>)
        ensures
            r@ == each_turned::<K, V, W, T>(self@, *t),
    {
        let n: usize = self.len();
        let ghost m = each_turned::<K, V, W, T>(self@, *t);
        let mut out: OrdMap<K, W> = OrdMap::new();
        let mut i: usize = 0;
        while i < n
            invariant
                0 <= i <= n,
                n == self.keys().len(),
                self.listed(),
                m == each_turned::<K, V, W, T>(self@, *t),
                forall|k: K::V| #[trigger] out@.contains_key(k) ==> m.contains_key(k) && out@[k] == m[k],
                forall|j: int| 0 <= j < i ==> out@.contains_key(#[trigger] self.keys()[j]),
            decreases n - i,
        {
            let k = self.key_at(i);
            let v = self.value_at(i);
            assert(self@.contains_key(k@));
            out.insert(k.dup(), t.turn(k, v));
            i = i + 1;
        }
        assert forall|k: K::V| #[trigger] m.contains_key(k) implies out@.contains_key(k) by {
            assert(self@.contains_key(k));
            let j = choose|j: int| 0 <= j < self.keys().len() && self.keys()[j] == k;
            assert(out@.contains_key(self.keys()[j]));
        }
        assert(out@ =~= m);
        out
    }

    /// Binds everything that `other` binds, in place of what was bound before.
    pub fn overlay(&mut self, other: &OrdMap<K, V>) where V: Dup
        ensures
            final(self)@ == old(self)@.union_prefer_right(other@),
    {
        let n: usize = other.len();
        let ghost before = self@;
        let ghost m = before.union_prefer_right(other@);
        let mut i: usize = 0;
        while i < n
            invariant
                0 <= i <= n,
                n == other.keys().len(),
                other.listed(),
                m == before.union_prefer_right(other@),
                forall|k: K::V| #[trigger] self@.contains_key(k) ==> m.contains_key(k),
                forall|k: K::V| #[trigger] self@.contains_key(k) && !other@.contains_key(k) ==> self@[k] == m[k],
                forall|k: K::V| #[trigger] before.contains_key(k) ==> self@.contains_key(k),
                forall|j: int| 0 <= j < i ==> self@.contains_key(#[trigger] other.keys()[j]) && self@[other.keys()[j]] == m[other.keys()[j]],
            decreases n - i,
        {
            let k = other.key_at(i);
            let v = other.value_at(i);
            assert(other@.contains_key(k@));
            let ghost mid = self@;
            self.insert(k.dup(), v.dup());
            assert forall|j: int| 0 <= j < i + 1 implies self@.contains_key(#[trigger] other.keys()[j]) && self@[other.keys()[j]] == m[other.keys()[j]] by {
                if j < i {
                    assert(mid.contains_key(other.keys()[j]));
                }
            }
            i = i + 1;
        }
        assert forall|k: K::V| #[trigger] m.contains_key(k) implies self@.contains_key(k) && self@[k] == m[k] by {
            if other@.contains_key(k) {
                let j = choose|j: int| 0 <= j < other.keys().len() && other.keys()[j] == k;
                assert(self@.contains_key(other.keys()[j]));
            } else {
                assert(before.contains_key(k));
            }
        }
        assert(self@ =~= m);
    }
}

impl<K: Key, V: Dup> Dup for OrdMap<K, V> {
    fn dup(&self) -> (r: Self)
        ensures
            r.keys() == self.keys(),
    {
        proof {
            use_type_invariant(self);
        }
        let mut entries: Vec<(K, V)> = Vec::new();
        let mut i: usize = 0;
        while i < self.entries.len()
            invariant
                0 <= i <= self.entries@.len(),
                entries@.len() == i,
                forall|j: int| 0 <= j < i ==> (#[trigger] entries@[j]).0@ == self.entries@[j].0@ && entries@[j].1@ == self.entries@[j].1@,
            decreases self.entries@.len() - i,
        {
            let e = &self.entries[i];
            entries.push((e.0.dup(), e.1.dup()));
            i = i + 1;
        }
        proof {
            assert forall|p: int, q: int| 0 <= p < q < entries@.len() implies K::lt((#[trigger] entries@[p]).0@, (#[trigger] entries@[q]).0@) by {
                assert(K::lt(self.entries@[p].0@, self.entries@[q].0@));
            }
            assert forall|k: K::V| #[trigger] bindings(entries@).contains_key(k) <==> bindings(self.entries@).contains_key(k) by {
                if bindings(entries@).contains_key(k) {
                    let j = pos(entries@, k);
                    assert(self.entries@[j].0@ == k);
                }
                if bindings(self.entries@).contains_key(k) {
                    let j = pos(self.entries@, k);
                    assert(entries@[j].0@ == k);
                }
            }
            assert forall|k: K::V| #[trigger] bindings(entries@).contains_key(k) implies bindings(entries@)[k] == bindings(self.entries@)[k] by {
                let j = pos(entries@, k);
                binding_at(entries@, j);
                binding_at(self.entries@, j);
            }
            assert(bindings(entries@) =~= bindings(self.entries@));
        }
        let r = OrdMap { entries };
        assert(r.keys() =~= self.keys());
        r
    }
}

/// A set of keys, kept in order.
#[derive(Debug, PartialEq, Eq)]
#[verifier::reject_recursive_types(K)]
pub struct OrdSet<K: Key> {
    map: OrdMap<K, ()>,
}

impl<K: Key> View for OrdSet<K> {
    type V = Set<K::V>;

    closed spec fn view(&self) -> Set<K::V> {
        self.map@.dom()
    }
}

impl<K: Key> OrdSet<K> {
    /// The members, in order.
    pub closed spec fn keys(self) -> Seq<K::V> {
        self.map.keys()
    }

    /// How the members in order and the view belong together.
    pub open spec fn listed(self) -> bool {
        &&& increasing::<K>(self.keys())
        &&& forall|i: int| 0 <= i < self.keys().len() ==> self@.contains(#[trigger] self.keys()[i])
        &&& forall|k: K::V| #[trigger] self@.contains(k) ==> self.keys().contains(k)
    }

    pub fn new() -> (r: Self)
        ensures
            r@ == Set::<K::V>::empty(),
    {
        let r = OrdSet { map: OrdMap::new() };
        assert(r@ =~= Set::<K::V>::empty());
        r
    }

    pub fn len(&self) -> (n: usize)
        ensures
            n == self.keys().len(),
            self.listed(),
            self.keys() == listing::<K>(self@),
    {
        let n = self.map.len();
        assert forall|k: K::V| #[trigger] self@.contains(k) implies self.keys().contains(k) by {
            assert(self.map@.contains_key(k));
        }
        assert forall|i: int| 0 <= i < self.keys().len() implies self@.contains(#[trigger] self.keys()[i]) by {
            assert(self.map@.contains_key(self.map.keys()[i]));
        }
        n
    }

    pub fn is_empty(&self) -> (r: bool)
        ensures
            r == (self@ == Set::<K::V>::empty()),
    {
        let r = self.map.is_empty();
        proof {
            if r {
                assert(self@ =~= Set::<K::V>::empty());
            } else {
                assert(!(self.map@ =~= Map::<K::V, ()>::empty()));
            }
        }
        r
    }

    /// The member at place `i` of the order.
    pub fn at(&self, i: usize) -> (k: &K)
        requires
            i < self.keys().len(),
        ensures
            k@ == self.keys()[i as int],
            self@.contains(k@),
    {
        self.map.key_at(i)
    }

    pub fn contains(&self, k: &K) -> (r: bool)
        ensures
            r == self@.contains(k@),
    {
        self.map.contains_key(k)
    }

    pub fn insert(&mut self, k: K)
        ensures
            final(self)@ == old(self)@.insert(k@),
    {
        let ghost before = self.map@;
        self.map.insert(k, ());
        assert(self.map@.dom() =~= before.dom().insert(k@));
    }

    /// Takes `k` out; whether it was there.
    pub fn remove(&mut self, k: &K) -> (r: bool)
        ensures
            final(self)@ == old(self)@.remove(k@),
            r == old(self)@.contains(k@),
    {
        let ghost before = self.map@;
        let r = self.map.remove(k);
        assert(self.map@.dom() =~= before.dom().remove(k@));
        r.is_some()
    }
}

impl<K: Key> Dup for OrdSet<K> {
    fn dup(&self) -> (r: Self)
        ensures
            r.keys() == self.keys(),
    {
        OrdSet { map: self.map.dup() }
    }
}

} // verus!
