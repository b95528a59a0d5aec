//! Partitions by topic.

use crate::ordmap::{Dup, Key, OrdMap};
use vstd::prelude::*;

verus! {

/// The partitions of each topic.
pub type Partitions = OrdMap<u128, Vec<i32>>;

/// What [`Partitions`] stand for.
pub type PartitionsView = Map<u128, Seq<i32>>;

/// Whether partition `p` of topic `t` is there.
pub open spec fn part_of(m: PartitionsView, t: u128, p: i32) -> bool {
    m.contains_key(t) && m[t].contains(p)
}

/// Those of `s` that pass the test, in their order.
pub open spec fn filtered(s: Seq<i32>, f: spec_fn(i32) -> bool) -> Seq<i32>
    decreases s.len(),
{
    if s.len() == 0 {
        seq![]
    } else if f(s.last()) {
        filtered(s.drop_last(), f).push(s.last())
    } else {
        filtered(s.drop_last(), f)
    }
}

/// The partitions that pass the test; a topic of which none does is left out.
pub open spec fn parts_where(m: PartitionsView, f: spec_fn(u128, i32) -> bool) -> PartitionsView {
    Map::new(|t: u128| m.contains_key(t) && filtered(m[t], |p: i32| f(t, p)).len() > 0, |t: u128| filtered(m[t], |p: i32| f(t, p)))
}

/// The partitions of both, those of `b` behind those of `a`.
pub open spec fn merged(a: PartitionsView, b: PartitionsView) -> PartitionsView {
    Map::new(
        |t: u128| a.contains_key(t) || b.contains_key(t),
        |t: u128|
            if a.contains_key(t) && b.contains_key(t) {
                a[t] + b[t]
            } else if a.contains_key(t) {
                a[t]
            } else {
                b[t]
            },
    )
}

/// What passes is in the list, and in it.
pub proof fn filtered_contains(s: Seq<i32>, f: spec_fn(i32) -> bool, p: i32)
    ensures
        filtered(s, f).contains(p) <==> s.contains(p) && f(p),
    decreases s.len(),
{
    if s.len() > 0 {
        let rest = s.drop_last();
        filtered_contains(rest, f, p);
        let all = filtered(s, f);
        let before = filtered(rest, f);
        if s.contains(p) {
            let i = choose|i: int| 0 <= i < s.len() && s[i] == p;
            if i < rest.len() {
                assert(rest[i] == p);
            }
        }
        if rest.contains(p) {
            let i = choose|i: int| 0 <= i < rest.len() && rest[i] == p;
            assert(s[i] == p);
        }
        assert(s[s.len() - 1] == s.last());
        if f(s.last()) {
            assert(all[before.len() as int] == s.last());
            if before.contains(p) {
                let i = choose|i: int| 0 <= i < before.len() && before[i] == p;
                assert(all[i] == p);
            }
            if all.contains(p) && p != s.last() {
                let i = choose|i: int| 0 <= i < all.len() && all[i] == p;
                assert(before[i] == p);
            }
        }
    }
}

/// Which partitions pass.
pub proof fn parts_where_has(m: PartitionsView, f: spec_fn(u128, i32) -> bool, t: u128, p: i32)
    ensures
        part_of(parts_where(m, f), t, p) <==> part_of(m, t, p) && f(t, p),
{
    if m.contains_key(t) {
        filtered_contains(m[t], |q: i32| f(t, q), p);
    }
}

/// Where every partition of a topic passes, the topic stays as it is.
pub proof fn parts_where_all(m: PartitionsView, f: spec_fn(u128, i32) -> bool, t: u128)
    requires
        m.contains_key(t),
        m[t].len() > 0,
        forall|p: i32| m[t].contains(p) ==> #[trigger] f(t, p),
    ensures
        parts_where(m, f).contains_key(t),
        parts_where(m, f)[t] == m[t],
{
    let g = |p: i32| f(t, p);
    assert forall|p: i32| m[t].contains(p) implies #[trigger] g(p) by {
        assert(f(t, p));
    }
    filtered_all(m[t], g);
}

proof fn filtered_all(s: Seq<i32>, f: spec_fn(i32) -> bool)
    requires
        forall|p: i32| s.contains(p) ==> #[trigger] f(p),
    ensures
        filtered(s, f) == s,
    decreases s.len(),
{
    if s.len() > 0 {
        let rest = s.drop_last();
        assert forall|p: i32| rest.contains(p) implies #[trigger] f(p) by {
            let i = choose|i: int| 0 <= i < rest.len() && rest[i] == p;
            assert(s[i] == p);
        }
        filtered_all(rest, f);
        assert(s[s.len() - 1] == s.last());
        assert(f(s.last()));
        assert(rest.push(s.last()) =~= s);
    }
}

/// Which partitions two lots hold together.
pub proof fn merged_has(a: PartitionsView, b: PartitionsView, t: u128, p: i32)
    ensures
        part_of(merged(a, b), t, p) <==> part_of(a, t, p) || part_of(b, t, p),
{
    if a.contains_key(t) && b.contains_key(t) {
        let s = a[t] + b[t];
        if a[t].contains(p) {
            let i = choose|i: int| 0 <= i < a[t].len() && a[t][i] == p;
            assert(s[i] == p);
        }
        if b[t].contains(p) {
            let i = choose|i: int| 0 <= i < b[t].len() && b[t][i] == p;
            assert(s[a[t].len() + i] == p);
        }
        if s.contains(p) {
            let i = choose|i: int| 0 <= i < s.len() && s[i] == p;
            if i < a[t].len() {
                assert(a[t][i] == p);
            } else {
                assert(b[t][i - a[t].len()] == p);
            }
        }
    }
}

/// A test on partitions.
pub trait PartTest {
    spec fn holds(&self, t: u128, p: i32) -> bool;

    fn test(&self, t: u128, p: i32) -> (r: bool)
        ensures
            r == self.holds(t, p),
    ;
}

/// Whether `p` is in the list.
pub fn holds_partition(list: &Vec<i32>, p: i32) -> (r: bool)
    ensures
        r == list@.contains(p),
{
    let mut i: usize = 0;
    while i < list.len()
        invariant
            0 <= i <= list@.len(),
            forall|j: int| 0 <= j < i ==> list@[j] != p,
        decreases list@.len() - i,
    {
        if list[i] == p {
            assert(list@[i as int] == p);
            return true;
        }
        i = i + 1;
    }
    false
}

/// Whether partition `p` of topic `t` is there.
pub fn has_partition(m: &Partitions, t: u128, p: i32) -> (r: bool)
    ensures
        r == part_of(m@, t, p),
{
    match m.get(&t) {
        Some(list) => holds_partition(list, p),
        None => false,
    }
}

fn filter_list<F: PartTest>(list: &Vec<i32>, t: u128, f: &F) -> (r: Vec<i32>)
    ensures
        r@ == filtered(list@, |p: i32| f.holds(t, p)),
{
    let ghost g = |p: i32| f.holds(t, p);
    let mut out: Vec<i32> = Vec::new();
    let mut i: usize = 0;
    assert(list@.take(0) =~= seq![]);
    while i < list.len()
        invariant
            0 <= i <= list@.len(),
            g == (|p: i32| f.holds(t, p)),
            out@ == filtered(list@.take(i as int), g),
        decreases list@.len() - i,
    {
        assert(list@.take(i + 1).drop_last() =~= list@.take(i as int));
        assert(list@.take(i + 1).last() == list@[i as int]);
        if f.test(t, list[i]) {
            out.push(list[i]);
        }
        i = i + 1;
    }
    assert(list@.take(list@.len() as int) =~= list@);
    out
}

/// Keeps the partitions that pass the test.
pub fn filter_parts<F: PartTest>(m: &Partitions, f: &F) -> (r: Partitions)
    ensures
        r@ == parts_where(m@, |t: u128, p: i32| f.holds(t, p)),
{
    let ghost g = |t: u128, p: i32| f.holds(t, p);
    let n: usize = m.len();
    let ghost keys = m.keys();
    let mut out: Partitions = OrdMap::new();
    let mut i: usize = 0;
    while i < n
        invariant
            0 <= i <= n,
            n == keys.len(),
            keys == m.keys(),
            m.listed(),
            g == (|t: u128, p: i32| f.holds(t, p)),
            forall|t: u128|
                #[trigger] out@.contains_key(t) <==> exists|j: int| 0 <= j < i && #[trigger] keys[j] == t && filtered(m@[t], |p: i32| f.holds(t, p)).len() > 0,
            forall|t: u128| #[trigger] out@.contains_key(t) ==> out@[t] == filtered(m@[t], |p: i32| f.holds(t, p)),
        decreases n - i,
    {
        let t: u128 = *m.key_at(i);
        let kept = filter_list(m.value_at(i), t, f);
        let ghost before = out@;
        if kept.len() > 0 {
            out.insert(t, kept);
        }
        proof {
            assert forall|x: u128|
                #[trigger] out@.contains_key(x) <==> exists|j: int|
                    0 <= j < i + 1 && #[trigger] keys[j] == x && filtered(m@[x], |p: i32| f.holds(x, p)).len() > 0 by {
                if out@.contains_key(x) {
                    if x == t {
                        assert(keys[i as int] == x);
                    } else {
                        assert(before.contains_key(x));
                        let j = choose|j: int| 0 <= j < i && #[trigger] keys[j] == x && filtered(m@[x], |p: i32| f.holds(x, p)).len() > 0;
                        assert(keys[j] == x);
                    }
                }
                if exists|j: int| 0 <= j < i + 1 && #[trigger] keys[j] == x && filtered(m@[x], |p: i32| f.holds(x, p)).len() > 0 {
                    let j = choose|j: int| 0 <= j < i + 1 && #[trigger] keys[j] == x && filtered(m@[x], |p: i32| f.holds(x, p)).len() > 0;
                    if j < i {
                        assert(before.contains_key(x));
                    }
                }
            }
        }
        i = i + 1;
    }
    proof {
        let want = parts_where(m@, g);
        assert forall|t: u128| #[trigger] out@.contains_key(t) <==> want.contains_key(t) by {
            assert((|p: i32| g(t, p)) =~= (|p: i32| f.holds(t, p)));
            if want.contains_key(t) {
                assert(m@.contains_key(t));
                let j = choose|j: int| 0 <= j < keys.len() && keys[j] == t;
                assert(keys[j] == t);
            }
        }
        assert forall|t: u128| #[trigger] out@.contains_key(t) implies out@[t] == want[t] by {
            assert((|p: i32| g(t, p)) =~= (|p: i32| f.holds(t, p)));
        }
        assert(out@ =~= want);
    }
    out
}

/// The partitions of both.
pub fn merge_parts(a: &Partitions, b: &Partitions) -> (r: Partitions)
    ensures
        r@ == merged(a@, b@),
{
    let mut out: Partitions = a.dup();
    let n: usize = b.len();
    let ghost keys = b.keys();
    let mut i: usize = 0;
    while i < n
        invariant
            0 <= i <= n,
            n == keys.len(),
            keys == b.keys(),
            b.listed(),
            forall|t: u128| #[trigger] out@.contains_key(t) <==> a@.contains_key(t) || exists|j: int| 0 <= j < i && #[trigger] keys[j] == t,
            forall|t: u128| a@.contains_key(t) && !(exists|j: int| 0 <= j < i && #[trigger] keys[j] == t) ==> #[trigger] out@[t] == a@[t],
            forall|t: u128| (exists|j: int| 0 <= j < i && #[trigger] keys[j] == t) ==> #[trigger] out@[t] == merged(a@, b@)[t],
        decreases n - i,
    {
        let t: u128 = *b.key_at(i);
        let more = b.value_at(i);
        let ghost before = out@;
        proof {
            if exists|j: int| 0 <= j < i && #[trigger] keys[j] == t {
                let j = choose|j: int| 0 <= j < i && #[trigger] keys[j] == t;
                assert(<u128 as Key>::lt(keys[j], keys[i as int]));
            }
        }
        let mut list: Vec<i32> = match out.remove(&t) {
            Some(l) => l,
            None => Vec::new(),
        };
        let ghost was = list@;
        let mut k: usize = 0;
        assert(more@.take(0) =~= seq![]);
        while k < more.len()
            invariant
                0 <= k <= more@.len(),
                list@ == was + more@.take(k as int),
            decreases more@.len() - k,
        {
            list.push(more[k]);
            assert(more@.take(k + 1) =~= more@.take(k as int).push(more@[k as int]));
            assert(list@ =~= was + more@.take(k + 1));
            k = k + 1;
        }
        assert(more@.take(more@.len() as int) =~= more@);
        assert(list@ =~= merged(a@, b@)[t]);
        out.insert(t, list);
        proof {
            assert forall|x: u128| #[trigger] out@.contains_key(x) <==> a@.contains_key(x) || exists|j: int| 0 <= j < i + 1 && #[trigger] keys[j] == x by {
                if out@.contains_key(x) && x != t {
                    assert(before.contains_key(x));
                    if !a@.contains_key(x) {
                        let j = choose|j: int| 0 <= j < i && #[trigger] keys[j] == x;
                        assert(keys[j] == x);
                    }
                }
                assert(keys[i as int] == t);
                if exists|j: int| 0 <= j < i + 1 && #[trigger] keys[j] == x {
                    let j = choose|j: int| 0 <= j < i + 1 && #[trigger] keys[j] == x;
                    if j < i {
                        assert(before.contains_key(x));
                    }
                }
            }
            assert forall|x: u128| (exists|j: int| 0 <= j < i + 1 && #[trigger] keys[j] == x) implies #[trigger] out@[x] == merged(a@, b@)[x] by {
                if x != t {
                    let j = choose|j: int| 0 <= j < i + 1 && #[trigger] keys[j] == x;
                    assert(j < i);
                    assert(before[x] == merged(a@, b@)[x]);
                }
            }
            assert forall|x: u128| a@.contains_key(x) && !(exists|j: int| 0 <= j < i + 1 && #[trigger] keys[j] == x) implies #[trigger] out@[x] == a@[x] by {
                assert(keys[i as int] == t);
                if exists|j: int| 0 <= j < i && #[trigger] keys[j] == x {
                    let j = choose|j: int| 0 <= j < i && #[trigger] keys[j] == x;
                    assert(keys[j] == x);
                }
                assert(before[x] == a@[x]);
            }
        }
        i = i + 1;
    }
    proof {
        let want = merged(a@, b@);
        assert forall|t: u128| #[trigger] out@.contains_key(t) <==> want.contains_key(t) by {
            if b@.contains_key(t) {
                let j = choose|j: int| 0 <= j < keys.len() && keys[j] == t;
                assert(keys[j] == t);
            }
            if exists|j: int| 0 <= j < n && #[trigger] keys[j] == t {
                let j = choose|j: int| 0 <= j < n && #[trigger] keys[j] == t;
                assert(b@.contains_key(keys[j]));
            }
        }
        assert forall|t: u128| #[trigger] out@.contains_key(t) implies out@[t] == want[t] by {
            if b@.contains_key(t) {
                let j = choose|j: int| 0 <= j < keys.len() && keys[j] == t;
                assert(keys[j] == t);
            } else if exists|j: int| 0 <= j < n && #[trigger] keys[j] == t {
                let j = choose|j: int| 0 <= j < n && #[trigger] keys[j] == t;
                assert(b@.contains_key(keys[j]));
            }
        }
        assert(out@ =~= want);
    }
    out
}

fn within(a: &Partitions, b: &Partitions) -> (r: bool)
    ensures
        r == forall|t: u128| #[trigger] a@.contains_key(t) ==> b@.contains_key(t) && b@[t] == a@[t],
{
    let n: usize = a.len();
    let mut i: usize = 0;
    while i < n
        invariant
            0 <= i <= n,
            n == a.keys().len(),
            a.listed(),
            forall|j: int| 0 <= j < i ==> b@.contains_key(#[trigger] a.keys()[j]) && b@[a.keys()[j]] == a@[a.keys()[j]],
        decreases n - i,
    {
        let t = a.key_at(i);
        match b.get(t) {
            None => {
                assert(a@.contains_key(a.keys()[i as int]));
                return false;
            },
            Some(list) => {
                if !lists_eq(list, a.value_at(i)) {
                    assert(a@.contains_key(a.keys()[i as int]));
                    return false;
                }
            },
        }
        i = i + 1;
    }
    proof {
        assert forall|t: u128| #[trigger] a@.contains_key(t) implies b@.contains_key(t) && b@[t] == a@[t] by {
            let j = choose|j: int| 0 <= j < a.keys().len() && a.keys()[j] == t;
            assert(b@.contains_key(a.keys()[j]));
        }
    }
    true
}

fn lists_eq(a: &Vec<i32>, b: &Vec<i32>) -> (r: bool)
    ensures
        r == (a@ == b@),
{
    if a.len() != b.len() {
        return false;
    }
    let mut i: usize = 0;
    while i < a.len()
        invariant
            0 <= i <= a@.len(),
            a@.len() == b@.len(),
            forall|j: int| 0 <= j < i ==> a@[j] == b@[j],
        decreases a@.len() - i,
    {
        if a[i] != b[i] {
            return false;
        }
        i = i + 1;
    }
    assert(a@ =~= b@);
    true
}

/// Whether both are the same partitions in the same order.
pub fn parts_eq(a: &Partitions, b: &Partitions) -> (r: bool)
    ensures
        r == (a@ == b@),
{
    let one = within(a, b);
    let two = within(b, a);
    proof {
        if one && two {
            assert forall|t: u128| a@.contains_key(t) <==> b@.contains_key(t) by {
                if a@.contains_key(t) {
                    assert(b@.contains_key(t));
                }
                if b@.contains_key(t) {
                    assert(a@.contains_key(t));
                }
            }
            assert(a@ =~= b@);
        }
    }
    one && two
}

} // verus!
