//! The uniform assignor: partitions of each topic go as evenly as possible to the members that
//! subscribe to it, preferring members in a rack that holds a replica.

use crate::ordmap::{Key, OrdMap, OrdSet, Order, str_lt, str_order, views};
use crate::text::opt_str;
use vstd::prelude::*;

verus! {

/// What one member asks for.
#[derive(Clone, Debug, PartialEq, Eq)]
pub struct MemberSubscription {
    pub member_id: String,
    pub rack_id: Option<String>,
    pub subscribed_topic_ids: Vec<u128>,
}

/// What the assignor knows of the topics: their partition counts, and the racks that hold a
/// replica of a partition where that is known.
#[derive(Debug, PartialEq, Eq)]
pub struct TopicMetadata {
    pub partitions_per_topic: OrdMap<u128, i32>,
    pub partition_racks: OrdMap<(u128, i32), OrdSet<String>>,
}

#[verifier::ext_equal]
pub struct MemberSubscriptionView {
    pub member_id: Seq<char>,
    pub rack_id: Option<Seq<char>>,
    pub subscribed_topic_ids: Seq<u128>,
}

impl View for MemberSubscription {
    type V = MemberSubscriptionView;

    open spec fn view(&self) -> MemberSubscriptionView {
        MemberSubscriptionView { member_id: self.member_id@, rack_id: opt_str(self.rack_id), subscribed_topic_ids: self.subscribed_topic_ids@ }
    }
}

#[verifier::ext_equal]
pub struct TopicMetadataView {
    pub partitions_per_topic: Map<u128, i32>,
    pub partition_racks: Map<(u128, i32), Set<Seq<char>>>,
}

impl View for TopicMetadata {
    type V = TopicMetadataView;

    open spec fn view(&self) -> TopicMetadataView {
        TopicMetadataView { partitions_per_topic: self.partitions_per_topic@, partition_racks: self.partition_racks@ }
    }
}

/// For each member, the partitions it is to hold of each topic.
pub type Assignment = OrdMap<String, OrdMap<u128, Vec<i32>>>;

/// Whether the member subscribes to `topic`.
pub open spec fn subscribes(m: MemberSubscriptionView, topic: u128) -> bool {
    m.subscribed_topic_ids.contains(topic)
}

/// `m` put into `s` behind every member whose id is not above its own.
pub open spec fn placed(s: Seq<MemberSubscriptionView>, m: MemberSubscriptionView) -> Seq<MemberSubscriptionView>
    decreases s.len(),
{
    if s.len() == 0 || !str_lt(m.member_id, s.last().member_id) {
        s.push(m)
    } else {
        placed(s.drop_last(), m).push(s.last())
    }
}

/// The subscribers of `topic`, in the order of their ids.
pub open spec fn subscribers(members: Seq<MemberSubscriptionView>, topic: u128) -> Seq<MemberSubscriptionView>
    decreases members.len(),
{
    if members.len() == 0 {
        seq![]
    } else {
        let rest = subscribers(members.drop_last(), topic);
        if subscribes(members.last(), topic) {
            placed(rest, members.last())
        } else {
            rest
        }
    }
}

/// Whether the member sits in a rack that holds a replica of the partition.
pub open spec fn collocated(topics: TopicMetadataView, topic: u128, p: i32, m: MemberSubscriptionView) -> bool {
    &&& topics.partition_racks.contains_key((topic, p))
    &&& m.rack_id is Some
    &&& topics.partition_racks[(topic, p)].contains(m.rack_id->0)
}

/// Whether candidate `i`, each a load and whether its rack matches, may be chosen: where any
/// rack matches, only those may.
pub open spec fn eligible(candidates: Seq<(nat, bool)>, i: int) -> bool {
    &&& 0 <= i < candidates.len()
    &&& candidates[i].1 || forall|j: int| 0 <= j < candidates.len() ==> !(#[trigger] candidates[j]).1
}

/// Whether `c` is the eligible candidate of least load, and of those the first.
pub open spec fn selected(candidates: Seq<(nat, bool)>, c: int) -> bool {
    &&& eligible(candidates, c)
    &&& forall|i: int| #[trigger] eligible(candidates, i) ==> candidates[c].0 <= candidates[i].0
    &&& forall|i: int| #[trigger] eligible(candidates, i) && i < c ==> candidates[c].0 < candidates[i].0
}

/// The candidate that is selected.
pub open spec fn pick(candidates: Seq<(nat, bool)>) -> int {
    choose|c: int| selected(candidates, c)
}

/// How many of the partitions in `owners` candidate `i` owns.
pub open spec fn load(owners: Seq<int>, i: int) -> nat
    decreases owners.len(),
{
    if owners.len() == 0 {
        0
    } else {
        load(owners.drop_last(), i) + if owners.last() == i {
            1nat
        } else {
            0
        }
    }
}

/// The candidates for partition `p`, once the partitions below it have their owners.
pub open spec fn candidates(topics: TopicMetadataView, topic: u128, subs: Seq<MemberSubscriptionView>, owners: Seq<int>, p: i32) -> Seq<(nat, bool)> {
    Seq::new(subs.len(), |i: int| (load(owners, i), collocated(topics, topic, p, subs[i])))
}

/// The owners of the first `n` partitions of `topic`, as places among `subs`: each partition in
/// turn goes to the candidate that `selected` describes.
pub open spec fn owners(topics: TopicMetadataView, topic: u128, subs: Seq<MemberSubscriptionView>, n: nat) -> Seq<int>
    decreases n,
{
    if n == 0 {
        seq![]
    } else {
        let before = owners(topics, topic, subs, (n - 1) as nat);
        before.push(pick(candidates(topics, topic, subs, before, (n - 1) as i32)))
    }
}

/// How many partitions of `topic` there are to give out.
pub open spec fn available(topics: TopicMetadataView, topic: u128) -> nat {
    if topics.partitions_per_topic.contains_key(topic) && topics.partitions_per_topic[topic] > 0 {
        topics.partitions_per_topic[topic] as nat
    } else {
        0
    }
}

/// The partitions among the first `n` that go to the member `id`, in increasing order.
pub open spec fn share(topics: TopicMetadataView, topic: u128, subs: Seq<MemberSubscriptionView>, id: Seq<char>, n: nat) -> Seq<i32>
    decreases n,
{
    if n == 0 || subs.len() == 0 {
        seq![]
    } else {
        let before = share(topics, topic, subs, id, (n - 1) as nat);
        if subs[owners(topics, topic, subs, n)[n - 1]].member_id == id {
            before.push((n - 1) as i32)
        } else {
            before
        }
    }
}

/// The partitions of `topic` that go to the member `id`.
pub open spec fn assigned(members: Seq<MemberSubscriptionView>, topics: TopicMetadataView, id: Seq<char>, topic: u128) -> Seq<i32> {
    share(topics, topic, subscribers(members, topic), id, available(topics, topic))
}

/// The whole assignment: every member listed, with the topics it gets partitions of.
pub open spec fn uniform_assignment(members: Seq<MemberSubscriptionView>, topics: TopicMetadataView) -> Map<Seq<char>, Map<u128, Seq<i32>>> {
    Map::new(
        |id: Seq<char>| listed_member(members, id),
        |id: Seq<char>| Map::new(|t: u128| assigned(members, topics, id, t).len() > 0, |t: u128| assigned(members, topics, id, t)),
    )
}

/// Whether some member is called `id`.
pub open spec fn listed_member(members: Seq<MemberSubscriptionView>, id: Seq<char>) -> bool {
    exists|i: int| 0 <= i < members.len() && (#[trigger] members[i]).member_id == id
}

proof fn selected_unique(cands: Seq<(nat, bool)>, a: int, b: int)
    requires
        selected(cands, a),
        selected(cands, b),
    ensures
        a == b,
{
    assert(eligible(cands, a) && eligible(cands, b));
}

/// Picks the eligible candidate of least load, the first of several; none out of none.
pub fn select_uniform_member(list: &Vec<(usize, bool)>) -> (r: Option<usize>)
    ensures
        r is None <==> list@.len() == 0,
        r is Some ==> selected(Seq::new(list@.len(), |i: int| (list@[i].0 as nat, list@[i].1)), r->0 as int),
{
    let ghost cands = Seq::new(list@.len(), |i: int| (list@[i].0 as nat, list@[i].1));
    if list.len() == 0 {
        return None;
    }
    let mut any: bool = false;
    let mut i: usize = 0;
    while i < list.len()
        invariant
            0 <= i <= list@.len(),
            cands == Seq::new(list@.len(), |i: int| (list@[i].0 as nat, list@[i].1)),
            any ==> exists|j: int| 0 <= j < list@.len() && (#[trigger] cands[j]).1,
            !any ==> forall|j: int| 0 <= j < i ==> !(#[trigger] cands[j]).1,
        decreases list@.len() - i,
    {
        if list[i].1 {
            assert(cands[i as int].1);
            any = true;
        }
        i = i + 1;
    }
    let mut best: Option<usize> = None;
    let mut k: usize = 0;
    while k < list.len()
        invariant
            0 <= k <= list@.len(),
            cands == Seq::new(list@.len(), |i: int| (list@[i].0 as nat, list@[i].1)),
            any ==> exists|j: int| 0 <= j < list@.len() && (#[trigger] cands[j]).1,
            !any ==> forall|j: int| 0 <= j < list@.len() ==> !(#[trigger] cands[j]).1,
            best is None ==> forall|j: int| 0 <= j < k ==> !(#[trigger] eligible(cands, j)),
            best is Some ==> {
                let b = best->0 as int;
                &&& b < k
                &&& eligible(cands, b)
                &&& forall|j: int| 0 <= j < k && #[trigger] eligible(cands, j) ==> cands[b].0 <= cands[j].0
                &&& forall|j: int| 0 <= j < b && #[trigger] eligible(cands, j) ==> cands[b].0 < cands[j].0
            },
        decreases list@.len() - k,
    {
        let may: bool = !any || list[k].1;
        assert(may == eligible(cands, k as int));
        if may {
            match best {
                None => {
                    best = Some(k);
                },
                Some(b) => {
                    if list[k].0 < list[b].0 {
                        best = Some(k);
                    }
                },
            }
        }
        k = k + 1;
    }
    proof {
        if any {
            let j = choose|j: int| 0 <= j < list@.len() && (#[trigger] cands[j]).1;
            assert(eligible(cands, j));
        } else {
            assert(eligible(cands, 0));
        }
    }
    best
}

/// Whether a member subscribes to `topic`.
fn is_subscribed(m: &MemberSubscription, topic: u128) -> (r: bool)
    ensures
        r == subscribes(m@, topic),
{
    let mut i: usize = 0;
    while i < m.subscribed_topic_ids.len()
        invariant
            0 <= i <= m.subscribed_topic_ids@.len(),
            forall|j: int| 0 <= j < i ==> m.subscribed_topic_ids@[j] != topic,
        decreases m.subscribed_topic_ids@.len() - i,
    {
        if m.subscribed_topic_ids[i] == topic {
            assert(m.subscribed_topic_ids@[i as int] == topic);
            return true;
        }
        i = i + 1;
    }
    false
}

/// `placed` in terms of an index: what stands before it is not above, what follows is above.
proof fn placed_at(s: Seq<MemberSubscriptionView>, m: MemberSubscriptionView, i: int)
    requires
        0 <= i <= s.len(),
        forall|j: int| i <= j < s.len() ==> str_lt(m.member_id, (#[trigger] s[j]).member_id),
        i > 0 ==> !str_lt(m.member_id, s[i - 1].member_id),
    ensures
        placed(s, m) == s.insert(i, m),
    decreases s.len(),
{
    if i == s.len() {
        assert(s.insert(i, m) =~= s.push(m));
    } else {
        assert(str_lt(m.member_id, s[s.len() - 1].member_id));
        placed_at(s.drop_last(), m, i);
        assert(s.drop_last().insert(i, m).push(s.last()) =~= s.insert(i, m));
    }
}

/// The subscribers of `topic` in id order, as places in `members`.
fn collect_subscribers(members: &[MemberSubscription], topic: u128) -> (r: Vec<usize>)
    ensures
        r@.len() == subscribers(views(members@), topic).len(),
        forall|i: int| 0 <= i < r@.len() ==> 0 <= #[trigger] r@[i] < members@.len() && members@[r@[i] as int]@ == subscribers(views(members@), topic)[i],
{
    let mut out: Vec<usize> = Vec::new();
    let mut n: usize = 0;
    while n < members.len()
        invariant
            0 <= n <= members@.len(),
            out@.len() == subscribers(views(members@).take(n as int), topic).len(),
            forall|i: int|
                0 <= i < out@.len() ==> 0 <= #[trigger] out@[i] < members@.len() && members@[out@[i] as int]@ == subscribers(
                    views(members@).take(n as int),
                    topic,
                )[i],
        decreases members@.len() - n,
    {
        let ghost before = subscribers(views(members@).take(n as int), topic);
        assert(views(members@).take(n + 1).drop_last() =~= views(members@).take(n as int));
        assert(views(members@).take(n + 1).last() == members@[n as int]@);
        if is_subscribed(&members[n], topic) {
            let ghost list = out@;
            let mut i: usize = out.len();
            while i > 0 && matches!(
                str_order(members[n].member_id.as_str(), members[out[i - 1]].member_id.as_str()),
                Order::Less
            )
                invariant
                    0 <= i <= out@.len(),
                    n < members@.len(),
                    out@ == list,
                    out@.len() == before.len(),
                    forall|j: int| 0 <= j < out@.len() ==> 0 <= #[trigger] out@[j] < members@.len() && members@[out@[j] as int]@ == before[j],
                    forall|j: int| i <= j < before.len() ==> str_lt(members@[n as int].member_id@, (#[trigger] before[j]).member_id),
                decreases i,
            {
                i = i - 1;
            }
            proof {
                if i > 0 {
                    let a = members@[n as int].member_id@;
                    let b = before[i - 1].member_id;
                    assert(members@[out@[i - 1] as int]@ == before[i - 1]);
                    if str_lt(a, b) {
                        if str_lt(b, a) {
                            String::lt_transitive(a, b, a);
                        }
                        String::lt_irreflexive(a);
                    }
                }
                placed_at(before, members@[n as int]@, i as int);
            }
            out.insert(i, n);
        }
        n = n + 1;
    }
    assert(views(members@).take(n as int) =~= views(members@));
    out
}

/// Whether the member sits in a rack that holds a replica of the partition.
fn is_collocated(topics: &TopicMetadata, topic: u128, p: i32, m: &MemberSubscription) -> (r: bool)
    ensures
        r == collocated(topics@, topic, p, m@),
{
    match topics.partition_racks.get(&(topic, p)) {
        None => false,
        Some(racks) => match &m.rack_id {
            None => false,
            Some(rack) => racks.contains(rack),
        },
    }
}

proof fn owners_len(topics: TopicMetadataView, topic: u128, subs: Seq<MemberSubscriptionView>, n: nat)
    ensures
        owners(topics, topic, subs, n).len() == n,
    decreases n,
{
    if n > 0 {
        owners_len(topics, topic, subs, (n - 1) as nat);
    }
}

proof fn load_bound(owners: Seq<int>, i: int)
    ensures
        load(owners, i) <= owners.len(),
    decreases owners.len(),
{
    if owners.len() > 0 {
        load_bound(owners.drop_last(), i);
    }
}

/// What `out` holds of `topic` once the first `n` partitions are given out.
spec fn gave(out: Map<Seq<char>, Map<u128, Seq<i32>>>, was: Map<Seq<char>, Map<u128, Seq<i32>>>, topics: TopicMetadataView, topic: u128, subs: Seq<MemberSubscriptionView>, n: nat) -> bool {
    &&& out.dom() == was.dom()
    &&& forall|id: Seq<char>, t: u128|
        #![trigger out[id].contains_key(t)]
        #![trigger out[id][t]]
        was.contains_key(id) && t != topic ==> out[id].contains_key(t) == was[id].contains_key(t) && out[id][t] == was[id][t]
    &&& forall|id: Seq<char>|
        was.contains_key(id) ==> {
            &&& (#[trigger] out[id]).contains_key(topic) == (share(topics, topic, subs, id, n).len() > 0)
            &&& out[id].contains_key(topic) ==> out[id][topic] == share(topics, topic, subs, id, n)
        }
}

/// Whether no two members share an id.
pub open spec fn distinct_ids(members: Seq<MemberSubscriptionView>) -> bool {
    forall|i: int, j: int| 0 <= i < j < members.len() ==> (#[trigger] members[i]).member_id != (#[trigger] members[j]).member_id
}

/// Whether the ids strictly increase.
spec fn increasing_ids(s: Seq<MemberSubscriptionView>) -> bool {
    forall|i: int, j: int| 0 <= i < j < s.len() ==> str_lt((#[trigger] s[i]).member_id, (#[trigger] s[j]).member_id)
}

/// Among the first `k` candidates, the one of least load that may be chosen, where one may.
proof fn least_of(cands: Seq<(nat, bool)>, k: int) -> (c: int)
    requires
        0 <= k <= cands.len(),
        exists|i: int| 0 <= i < k && eligible(cands, i),
    ensures
        0 <= c < k,
        eligible(cands, c),
        forall|i: int| 0 <= i < k && #[trigger] eligible(cands, i) ==> cands[c].0 <= cands[i].0,
        forall|i: int| 0 <= i < c && #[trigger] eligible(cands, i) ==> cands[c].0 < cands[i].0,
    decreases k,
{
    if exists|i: int| 0 <= i < k - 1 && eligible(cands, i) {
        let c = least_of(cands, k - 1);
        if eligible(cands, k - 1) && cands[k - 1].0 < cands[c].0 {
            k - 1
        } else {
            c
        }
    } else {
        k - 1
    }
}

proof fn pick_is_selected(cands: Seq<(nat, bool)>)
    requires
        cands.len() > 0,
    ensures
        selected(cands, pick(cands)),
{
    if forall|j: int| 0 <= j < cands.len() ==> !(#[trigger] cands[j]).1 {
        assert(eligible(cands, 0));
    } else {
        let j = choose|j: int| 0 <= j < cands.len() && (#[trigger] cands[j]).1;
        assert(eligible(cands, j));
    }
    let c = least_of(cands, cands.len() as int);
    assert(selected(cands, c));
}

proof fn owners_in_range(topics: TopicMetadataView, topic: u128, subs: Seq<MemberSubscriptionView>, n: nat)
    requires
        subs.len() > 0,
    ensures
        owners(topics, topic, subs, n).len() == n,
        forall|p: int| 0 <= p < n ==> 0 <= #[trigger] owners(topics, topic, subs, n)[p] < subs.len(),
        forall|p: int| 0 <= p < n ==> #[trigger] owners(topics, topic, subs, n)[p] == owners(topics, topic, subs, (p + 1) as nat)[p],
    decreases n,
{
    if n > 0 {
        let before = owners(topics, topic, subs, (n - 1) as nat);
        owners_in_range(topics, topic, subs, (n - 1) as nat);
        pick_is_selected(candidates(topics, topic, subs, before, (n - 1) as i32));
        assert forall|p: int| 0 <= p < n implies #[trigger] owners(topics, topic, subs, n)[p] == owners(topics, topic, subs, (p + 1) as nat)[p] by {
            if p < n - 1 {
                assert(before[p] == owners(topics, topic, subs, (p + 1) as nat)[p]);
            }
        }
    }
}

/// Which partitions stand in a share.
proof fn share_contains(topics: TopicMetadataView, topic: u128, subs: Seq<MemberSubscriptionView>, id: Seq<char>, n: nat, p: i32)
    requires
        subs.len() > 0,
        n <= i32::MAX,
    ensures
        share(topics, topic, subs, id, n).contains(p) <==> 0 <= p < n && subs[owners(topics, topic, subs, n)[p as int]].member_id == id,
    decreases n,
{
    if n > 0 {
        share_contains(topics, topic, subs, id, (n - 1) as nat, p);
        owners_in_range(topics, topic, subs, n);
        let before = share(topics, topic, subs, id, (n - 1) as nat);
        let all = share(topics, topic, subs, id, n);
        let own = owners(topics, topic, subs, n);
        let own_before = owners(topics, topic, subs, (n - 1) as nat);
        owners_in_range(topics, topic, subs, (n - 1) as nat);
        assert(0 <= p < n - 1 ==> own[p as int] == own_before[p as int]);
        if before.contains(p) {
            let i = choose|i: int| 0 <= i < before.len() && before[i] == p;
            assert(all[i] == p);
        }
        if subs[own[n - 1]].member_id == id {
            assert(all[before.len() as int] == (n - 1) as i32);
        }
        if all.contains(p) && p != n - 1 {
            let i = choose|i: int| 0 <= i < all.len() && all[i] == p;
            assert(before[i] == p);
        }
    }
}

proof fn placed_members(s: Seq<MemberSubscriptionView>, m: MemberSubscriptionView)
    ensures
        forall|x: MemberSubscriptionView| #[trigger] placed(s, m).contains(x) <==> s.contains(x) || x == m,
        placed(s, m).len() == s.len() + 1,
    decreases s.len(),
{
    let all = placed(s, m);
    if s.len() == 0 || !str_lt(m.member_id, s.last().member_id) {
        assert forall|x: MemberSubscriptionView| #[trigger] all.contains(x) <==> s.contains(x) || x == m by {
            if s.contains(x) {
                let i = choose|i: int| 0 <= i < s.len() && s[i] == x;
                assert(all[i] == x);
            }
            assert(all[s.len() as int] == m);
        }
    } else {
        placed_members(s.drop_last(), m);
        let rest = placed(s.drop_last(), m);
        assert forall|x: MemberSubscriptionView| #[trigger] all.contains(x) <==> s.contains(x) || x == m by {
            if all.contains(x) {
                let i = choose|i: int| 0 <= i < all.len() && all[i] == x;
                if i < rest.len() {
                    assert(rest[i] == x);
                    assert(rest.contains(x));
                    if s.drop_last().contains(x) {
                        let j = choose|j: int| 0 <= j < s.drop_last().len() && s.drop_last()[j] == x;
                        assert(s[j] == x);
                    }
                } else {
                    assert(s[s.len() - 1] == x);
                }
            }
            if s.contains(x) || x == m {
                if x == s.last() {
                    assert(all[rest.len() as int] == x);
                } else {
                    if s.contains(x) {
                        let j = choose|j: int| 0 <= j < s.len() && s[j] == x;
                        assert(s.drop_last()[j] == x);
                    }
                    assert(rest.contains(x));
                    let i = choose|i: int| 0 <= i < rest.len() && rest[i] == x;
                    assert(all[i] == x);
                }
            }
        }
    }
}

proof fn placed_increasing(s: Seq<MemberSubscriptionView>, m: MemberSubscriptionView)
    requires
        increasing_ids(s),
        forall|i: int| 0 <= i < s.len() ==> (#[trigger] s[i]).member_id != m.member_id,
    ensures
        increasing_ids(placed(s, m)),
    decreases s.len(),
{
    let all = placed(s, m);
    if s.len() == 0 {
    } else if !str_lt(m.member_id, s.last().member_id) {
        let l = s.last().member_id;
        assert(s[s.len() - 1].member_id != m.member_id);
        String::lt_total(l, m.member_id);
        assert forall|i: int, j: int| 0 <= i < j < all.len() implies str_lt((#[trigger] all[i]).member_id, (#[trigger] all[j]).member_id) by {
            if j == s.len() && i < s.len() - 1 {
                assert(str_lt(s[i].member_id, s[s.len() - 1].member_id));
                String::lt_transitive(s[i].member_id, l, m.member_id);
            } else if j < s.len() {
                assert(all[i] == s[i] && all[j] == s[j]);
            }
        }
    } else {
        let front = s.drop_last();
        placed_increasing(front, m);
        placed_members(front, m);
        let rest = placed(front, m);
        assert forall|i: int, j: int| 0 <= i < j < all.len() implies str_lt((#[trigger] all[i]).member_id, (#[trigger] all[j]).member_id) by {
            if j < rest.len() {
                assert(all[i] == rest[i] && all[j] == rest[j]);
            } else {
                assert(all[j] == s.last());
                assert(rest.contains(rest[i]));
                if rest[i] != m {
                    let k = choose|k: int| 0 <= k < front.len() && front[k] == rest[i];
                    assert(str_lt(s[k].member_id, s[s.len() - 1].member_id));
                }
            }
        }
    }
}

proof fn subscribers_members(members: Seq<MemberSubscriptionView>, topic: u128)
    ensures
        forall|m: MemberSubscriptionView| #[trigger] subscribers(members, topic).contains(m) <==> members.contains(m) && subscribes(m, topic),
        distinct_ids(members) ==> increasing_ids(subscribers(members, topic)),
    decreases members.len(),
{
    if members.len() > 0 {
        let front = members.drop_last();
        let last = members.last();
        let rest = subscribers(front, topic);
        let all = subscribers(members, topic);
        subscribers_members(front, topic);
        placed_members(rest, last);
        assert forall|m: MemberSubscriptionView| #[trigger] all.contains(m) <==> members.contains(m) && subscribes(m, topic) by {
            if members.contains(m) {
                let i = choose|i: int| 0 <= i < members.len() && members[i] == m;
                if i < front.len() {
                    assert(front[i] == m);
                    assert(front.contains(m));
                }
            }
            if front.contains(m) {
                let i = choose|i: int| 0 <= i < front.len() && front[i] == m;
                assert(members[i] == m);
            }
            assert(members[members.len() - 1] == last);
            assert(rest.contains(m) <==> front.contains(m) && subscribes(m, topic));
        }
        if distinct_ids(members) {
            assert forall|i: int, j: int| 0 <= i < j < front.len() implies (#[trigger] front[i]).member_id != (#[trigger] front[j]).member_id by {
                assert(members[i].member_id != members[j].member_id);
            }
            if subscribes(last, topic) {
                assert forall|i: int| 0 <= i < rest.len() implies (#[trigger] rest[i]).member_id != last.member_id by {
                    assert(rest.contains(rest[i]));
                    let k = choose|k: int| 0 <= k < front.len() && front[k] == rest[i];
                    assert(members[k].member_id != members[members.len() - 1].member_id);
                }
                placed_increasing(rest, last);
            }
        }
    }
}

proof fn increasing_equal(a: Seq<MemberSubscriptionView>, b: Seq<MemberSubscriptionView>)
    requires
        increasing_ids(a),
        increasing_ids(b),
        forall|m: MemberSubscriptionView| #[trigger] a.contains(m) <==> b.contains(m),
    ensures
        a == b,
    decreases a.len(),
{
    if a.len() == 0 {
        if b.len() > 0 {
            assert(b.contains(b[0]));
            assert(a.contains(b[0]));
        }
        assert(a =~= b);
    } else {
        assert(a.contains(a[0]));
        assert(b.contains(a[0]));
        let la = a[a.len() - 1];
        let lb = b[b.len() - 1];
        assert(a.contains(la) && b.contains(lb));
        assert(b.contains(la) && a.contains(lb));
        let i = choose|i: int| 0 <= i < b.len() && b[i] == la;
        let j = choose|j: int| 0 <= j < a.len() && a[j] == lb;
        if i < b.len() - 1 {
            assert(str_lt(b[i].member_id, b[b.len() - 1].member_id));
            if j < a.len() - 1 {
                assert(str_lt(a[j].member_id, a[a.len() - 1].member_id));
                String::lt_transitive(la.member_id, lb.member_id, la.member_id);
            }
            String::lt_irreflexive(la.member_id);
        }
        assert(la == lb);
        assert forall|m: MemberSubscriptionView| #[trigger] a.drop_last().contains(m) <==> b.drop_last().contains(m) by {
            if a.drop_last().contains(m) {
                drop_last_contains(a, b, m);
            }
            if b.drop_last().contains(m) {
                drop_last_contains(b, a, m);
            }
        }
        increasing_equal(a.drop_last(), b.drop_last());
        assert(a =~= a.drop_last().push(la));
        assert(b =~= b.drop_last().push(lb));
    }
}

proof fn drop_last_contains(a: Seq<MemberSubscriptionView>, b: Seq<MemberSubscriptionView>, m: MemberSubscriptionView)
    requires
        increasing_ids(a),
        a.len() > 0,
        b.len() > 0,
        a.last() == b.last(),
        a.drop_last().contains(m),
        a.contains(m) ==> b.contains(m),
    ensures
        b.drop_last().contains(m),
{
    let i = choose|i: int| 0 <= i < a.drop_last().len() && a.drop_last()[i] == m;
    assert(a[i] == m);
    assert(str_lt(a[i].member_id, a[a.len() - 1].member_id));
    String::lt_irreflexive(m.member_id);
    let j = choose|j: int| 0 <= j < b.len() && b[j] == m;
    assert(j < b.len() - 1);
    assert(b.drop_last()[j] == m);
}

/// Every partition of a topic that somebody subscribes to goes to a subscriber.
pub proof fn assignment_is_complete(members: Seq<MemberSubscriptionView>, topics: TopicMetadataView, topic: u128, p: i32)
    requires
        exists|i: int| 0 <= i < members.len() && subscribes(#[trigger] members[i], topic),
        0 <= p < available(topics, topic),
    ensures
        exists|i: int|
            0 <= i < members.len() && subscribes(#[trigger] members[i], topic) && assigned(members, topics, members[i].member_id, topic).contains(p),
{
    let subs = subscribers(members, topic);
    let n = available(topics, topic);
    subscribers_members(members, topic);
    let w = choose|i: int| 0 <= i < members.len() && subscribes(#[trigger] members[i], topic);
    assert(members.contains(members[w]));
    assert(subs.contains(members[w]));
    owners_in_range(topics, topic, subs, n);
    let owner = subs[owners(topics, topic, subs, n)[p as int]];
    assert(subs.contains(owner));
    share_contains(topics, topic, subs, owner.member_id, n, p);
    let i = choose|i: int| 0 <= i < members.len() && members[i] == owner;
    assert(subscribes(members[i], topic));
}

/// No partition goes to two members.
pub proof fn assignment_is_unique(members: Seq<MemberSubscriptionView>, topics: TopicMetadataView, topic: u128, p: i32, a: Seq<char>, b: Seq<char>)
    requires
        assigned(members, topics, a, topic).contains(p),
        assigned(members, topics, b, topic).contains(p),
    ensures
        a == b,
{
    let subs = subscribers(members, topic);
    let n = available(topics, topic);
    assert(subs.len() > 0);
    share_contains(topics, topic, subs, a, n, p);
    share_contains(topics, topic, subs, b, n, p);
}

/// A member only gets partitions that exist, of topics that a member of its id subscribes to.
pub proof fn assignment_is_sound(members: Seq<MemberSubscriptionView>, topics: TopicMetadataView, topic: u128, p: i32, id: Seq<char>)
    requires
        assigned(members, topics, id, topic).contains(p),
    ensures
        0 <= p < available(topics, topic),
        exists|i: int| 0 <= i < members.len() && subscribes(#[trigger] members[i], topic) && members[i].member_id == id,
{
    let subs = subscribers(members, topic);
    let n = available(topics, topic);
    assert(subs.len() > 0);
    share_contains(topics, topic, subs, id, n, p);
    owners_in_range(topics, topic, subs, n);
    subscribers_members(members, topic);
    let owner = subs[owners(topics, topic, subs, n)[p as int]];
    assert(subs.contains(owner));
    let i = choose|i: int| 0 <= i < members.len() && members[i] == owner;
    assert(subscribes(members[i], topic));
}

/// The order in which the members are given does not matter.
pub proof fn assignment_ignores_input_order(a: Seq<MemberSubscriptionView>, b: Seq<MemberSubscriptionView>, topics: TopicMetadataView, id: Seq<char>, topic: u128)
    requires
        distinct_ids(a),
        distinct_ids(b),
        forall|m: MemberSubscriptionView| #[trigger] a.contains(m) <==> b.contains(m),
    ensures
        assigned(a, topics, id, topic) == assigned(b, topics, id, topic),
{
    subscribers_members(a, topic);
    subscribers_members(b, topic);
    assert forall|m: MemberSubscriptionView| #[trigger] subscribers(a, topic).contains(m) <==> subscribers(b, topic).contains(m) by {
        assert(a.contains(m) <==> b.contains(m));
    }
    increasing_equal(subscribers(a, topic), subscribers(b, topic));
}

/// A partition with a replica in a subscriber's rack goes to a subscriber in such a rack.
pub proof fn assignment_prefers_racks(members: Seq<MemberSubscriptionView>, topics: TopicMetadataView, topic: u128, p: i32, id: Seq<char>)
    requires
        distinct_ids(members),
        assigned(members, topics, id, topic).contains(p),
        exists|i: int| 0 <= i < members.len() && subscribes(#[trigger] members[i], topic) && collocated(topics, topic, p, members[i]),
    ensures
        exists|i: int| 0 <= i < members.len() && (#[trigger] members[i]).member_id == id && collocated(topics, topic, p, members[i]),
{
    let subs = subscribers(members, topic);
    let n = available(topics, topic);
    assert(subs.len() > 0);
    share_contains(topics, topic, subs, id, n, p);
    owners_in_range(topics, topic, subs, n);
    subscribers_members(members, topic);
    let before = owners(topics, topic, subs, p as nat);
    let cands = candidates(topics, topic, subs, before, p);
    pick_is_selected(cands);
    let w = choose|i: int| 0 <= i < members.len() && subscribes(#[trigger] members[i], topic) && collocated(topics, topic, p, members[i]);
    assert(members.contains(members[w]));
    assert(subs.contains(members[w]));
    let k = choose|k: int| 0 <= k < subs.len() && subs[k] == members[w];
    assert(cands[k].1);
    let o = owners(topics, topic, subs, n)[p as int];
    assert(o == owners(topics, topic, subs, (p + 1) as nat)[p as int]);
    owners_len(topics, topic, subs, p as nat);
    assert(o == pick(cands));
    assert(subs.contains(subs[o]));
    let i = choose|i: int| 0 <= i < members.len() && members[i] == subs[o];
    assert(members[i].member_id == id);
}

/// Whether no partition of `topic` has a replica in a subscriber's rack.
pub open spec fn rackless(members: Seq<MemberSubscriptionView>, topics: TopicMetadataView, topic: u128) -> bool {
    forall|i: int, p: i32| 0 <= i < members.len() && subscribes(members[i], topic) ==> !#[trigger] collocated(topics, topic, p, members[i])
}

/// Without racks the partitions go round the subscribers in turn.
proof fn round_robin(topics: TopicMetadataView, topic: u128, subs: Seq<MemberSubscriptionView>, n: nat)
    requires
        subs.len() > 0,
        n <= i32::MAX,
        forall|i: int, p: i32| 0 <= i < subs.len() ==> !#[trigger] collocated(topics, topic, p, subs[i]),
    ensures
        forall|p: int| 0 <= p < n ==> #[trigger] owners(topics, topic, subs, n)[p] == p % (subs.len() as int),
        forall|i: int|
            0 <= i < subs.len() ==> #[trigger] load(owners(topics, topic, subs, n), i) == n as int / (subs.len() as int) + if i < n as int % (subs.len() as int) {
                1int
            } else {
                0
            },
    decreases n,
{
    let k = subs.len() as int;
    if n == 0 {
        assert(0int / k == 0 && 0int % k == 0) by (nonlinear_arith)
            requires
                k > 0,
        ;
    } else {
        let m = n - 1;
        round_robin(topics, topic, subs, m as nat);
        owners_in_range(topics, topic, subs, n);
        owners_in_range(topics, topic, subs, m as nat);
        let before = owners(topics, topic, subs, m as nat);
        let all = owners(topics, topic, subs, n);
        let cands = candidates(topics, topic, subs, before, m as i32);
        let c = m % k;
        vstd::arithmetic::div_mod::lemma_fundamental_div_mod(m, k);
        vstd::arithmetic::div_mod::lemma_fundamental_div_mod(n as int, k);
        assert(0 <= c < k);
        assert forall|i: int| 0 <= i < k implies eligible(cands, i) && cands[i].0 == m / k + if i < c {
            1int
        } else {
            0
        } by {
            assert forall|j: int| 0 <= j < cands.len() implies !(#[trigger] cands[j]).1 by {
                assert(!collocated(topics, topic, m as i32, subs[j]));
            }
            assert(load(before, i) == m / k + if i < m % k {
                1int
            } else {
                0
            });
        }
        assert(selected(cands, c));
        pick_is_selected(cands);
        selected_unique(cands, c, pick(cands));
        assert(all == before.push(c));
        assert(all.drop_last() =~= before);
        assert forall|p: int| 0 <= p < n implies #[trigger] all[p] == p % k by {
            if p < m {
                assert(before[p] == p % k);
            }
        }
        if c == k - 1 {
            assert(n as int / k == m / k + 1 && n as int % k == 0) by {
                assert((m / k + 1) * k == k * (m / k) + k) by (nonlinear_arith);
                vstd::arithmetic::div_mod::lemma_fundamental_div_mod_converse(n as int, k, m / k + 1, 0);
            }
        } else {
            assert(n as int / k == m / k && n as int % k == c + 1) by {
                assert((m / k) * k == k * (m / k)) by (nonlinear_arith);
                vstd::arithmetic::div_mod::lemma_fundamental_div_mod_converse(n as int, k, m / k, c + 1);
            }
        }
        assert forall|i: int| 0 <= i < k implies #[trigger] load(all, i) == n as int / k + if i < n as int % k {
            1int
        } else {
            0
        } by {
            assert(load(before, i) == m / k + if i < m % k {
                1int
            } else {
                0
            });
        }
    }
}

/// A subscriber's share is as long as the load it carries.
proof fn share_len(topics: TopicMetadataView, topic: u128, subs: Seq<MemberSubscriptionView>, i: int, n: nat)
    requires
        0 <= i < subs.len(),
        increasing_ids(subs),
    ensures
        share(topics, topic, subs, subs[i].member_id, n).len() == load(owners(topics, topic, subs, n), i),
    decreases n,
{
    if n > 0 {
        share_len(topics, topic, subs, i, (n - 1) as nat);
        owners_in_range(topics, topic, subs, n);
        let all = owners(topics, topic, subs, n);
        assert(all.drop_last() =~= owners(topics, topic, subs, (n - 1) as nat)) by {
            owners_in_range(topics, topic, subs, (n - 1) as nat);
        }
        let o = all[n - 1];
        if o != i {
            String::lt_irreflexive(subs[i].member_id);
            assert(str_lt(subs[i].member_id, subs[o].member_id) || str_lt(subs[o].member_id, subs[i].member_id));
        }
    }
}

/// A share is listed in order, each partition once, and ends before the partition that is given out next.
pub proof fn share_is_increasing(topics: TopicMetadataView, topic: u128, subs: Seq<MemberSubscriptionView>, id: Seq<char>, n: nat)
    requires
        n <= i32::MAX,
    ensures
        forall|i: int| 0 <= i < share(topics, topic, subs, id, n).len() ==> 0 <= #[trigger] share(topics, topic, subs, id, n)[i] < n,
        forall|i: int, j: int|
            0 <= i < j < share(topics, topic, subs, id, n).len() ==> #[trigger] share(topics, topic, subs, id, n)[i] < #[trigger] share(
                topics,
                topic,
                subs,
                id,
                n,
            )[j],
    decreases n,
{
    if n > 0 && subs.len() > 0 {
        let before = share(topics, topic, subs, id, (n - 1) as nat);
        let all = share(topics, topic, subs, id, n);
        share_is_increasing(topics, topic, subs, id, (n - 1) as nat);
        assert forall|i: int| 0 <= i < all.len() implies 0 <= #[trigger] all[i] < n by {
            if i < before.len() {
                assert(all[i] == before[i]);
            }
        }
        assert forall|i: int, j: int| 0 <= i < j < all.len() implies #[trigger] all[i] < #[trigger] all[j] by {
            assert(all[i] == before[i]);
            if j < before.len() {
                assert(all[j] == before[j]);
            }
        }
    }
}

/// A member that is alone gets every partition of a topic that it subscribes to, in order.
pub proof fn lone_subscriber_gets_all(members: Seq<MemberSubscriptionView>, topics: TopicMetadataView, topic: u128)
    requires
        members.len() == 1,
        subscribes(members[0], topic),
    ensures
        assigned(members, topics, members[0].member_id, topic) == Seq::new(available(topics, topic), |p: int| p as i32),
{
    assert(subscribers(members.drop_last(), topic) =~= seq![]);
    assert(subscribers(members, topic) =~= members);
    lone_share(topics, topic, members, available(topics, topic));
}

proof fn lone_share(topics: TopicMetadataView, topic: u128, subs: Seq<MemberSubscriptionView>, n: nat)
    requires
        subs.len() == 1,
    ensures
        share(topics, topic, subs, subs[0].member_id, n) == Seq::new(n, |p: int| p as i32),
    decreases n,
{
    if n > 0 {
        lone_share(topics, topic, subs, (n - 1) as nat);
        owners_in_range(topics, topic, subs, n);
    }
    assert(share(topics, topic, subs, subs[0].member_id, n) =~= Seq::new(n, |p: int| p as i32));
}

/// Without racks, no subscriber gets more than one partition of a topic beyond any other.
pub proof fn assignment_is_balanced(members: Seq<MemberSubscriptionView>, topics: TopicMetadataView, topic: u128, a: int, b: int)
    requires
        distinct_ids(members),
        rackless(members, topics, topic),
        0 <= a < members.len(),
        0 <= b < members.len(),
        subscribes(members[a], topic),
        subscribes(members[b], topic),
    ensures
        assigned(members, topics, members[a].member_id, topic).len() <= assigned(members, topics, members[b].member_id, topic).len() + 1,
{
    let subs = subscribers(members, topic);
    let n = available(topics, topic);
    subscribers_members(members, topic);
    assert(members.contains(members[a]) && members.contains(members[b]));
    assert(subs.contains(members[a]) && subs.contains(members[b]));
    let i = choose|i: int| 0 <= i < subs.len() && subs[i] == members[a];
    let j = choose|j: int| 0 <= j < subs.len() && subs[j] == members[b];
    assert forall|k: int, p: i32| 0 <= k < subs.len() implies !#[trigger] collocated(topics, topic, p, subs[k]) by {
        assert(subs.contains(subs[k]));
        let w = choose|w: int| 0 <= w < members.len() && members[w] == subs[k];
        assert(!collocated(topics, topic, p, members[w]));
    }
    round_robin(topics, topic, subs, n);
    share_len(topics, topic, subs, i, n);
    share_len(topics, topic, subs, j, n);
    assert(load(owners(topics, topic, subs, n), i) <= load(owners(topics, topic, subs, n), j) + 1);
}

/// Without racks, the partitions of a topic go round its subscribers in the order of their ids.
pub proof fn assignment_goes_round(members: Seq<MemberSubscriptionView>, topics: TopicMetadataView, topic: u128, p: i32, id: Seq<char>)
    requires
        distinct_ids(members),
        rackless(members, topics, topic),
        subscribers(members, topic).len() > 0,
        0 <= p < available(topics, topic),
    ensures
        assigned(members, topics, id, topic).contains(p) <==> id == subscribers(members, topic)[p as int % subscribers(members, topic).len() as int].member_id,
{
    let subs = subscribers(members, topic);
    let n = available(topics, topic);
    subscribers_members(members, topic);
    assert forall|k: int, q: i32| 0 <= k < subs.len() implies !#[trigger] collocated(topics, topic, q, subs[k]) by {
        assert(subs.contains(subs[k]));
        let w = choose|w: int| 0 <= w < members.len() && members[w] == subs[k];
        assert(!collocated(topics, topic, q, members[w]));
    }
    round_robin(topics, topic, subs, n);
    share_contains(topics, topic, subs, id, n, p);
}

/// A way of giving out partitions, known by a name.
pub trait Assignor {
    spec fn named(&self) -> Seq<char>;

    spec fn assigns(&self, members: Seq<MemberSubscriptionView>, topics: TopicMetadataView) -> Map<Seq<char>, Map<u128, Seq<i32>>>;

    /// The name that members ask for it by.
    fn name(&self) -> (r: &str)
        ensures
            r@ == self.named(),
    ;

    /// For each member, the partitions it is to hold.
    fn assign(&self, members: &[MemberSubscription], topics: &TopicMetadata) -> (out: Assignment)
        ensures
            out@ == self.assigns(views(members@), topics@),
    ;
}

/// The assignor that members get unless they ask for another.
#[derive(Clone, Copy, Debug)]
pub struct UniformAssignor;

impl Assignor for UniformAssignor {
    open spec fn named(&self) -> Seq<char> {
        "uniform"@
    }

    open spec fn assigns(&self, members: Seq<MemberSubscriptionView>, topics: TopicMetadataView) -> Map<Seq<char>, Map<u128, Seq<i32>>> {
        uniform_assignment(members, topics)
    }

    fn name(&self) -> (r: &str) {
        "uniform"
    }

    /// Gives out every partition of every topic that a member subscribes to: each partition in
    /// turn goes to the subscriber with the fewest so far, of those in a matching rack where there
    /// is one, and to the lowest id among equals.
    fn assign(&self, members: &[MemberSubscription], topics: &TopicMetadata) -> (out: Assignment) {
        let out = Self::assign_all(members, topics);
        proof {
            let m = uniform_assignment(views(members@), topics@);
            assert forall|id: Seq<char>| #[trigger] out@.contains_key(id) implies out@[id] == m[id] by {
                assert(listed_member(views(members@), id));
                assert forall|t: u128| out@[id].contains_key(t) == m[id].contains_key(t) by {
                    assert(out@[id].contains_key(t) == (assigned(views(members@), topics@, id, t).len() > 0));
                }
                assert(out@[id] =~= m[id]);
            }
            assert(out@ =~= m);
        }
        out
    }
}

impl UniformAssignor {
    /// Gives out the partitions of one topic.
    fn assign_topic(out: &mut Assignment, members: &[MemberSubscription], topics: &TopicMetadata, topic: u128, count: i32)
        requires
            topics.partitions_per_topic@.contains_key(topic),
            topics.partitions_per_topic@[topic] == count,
            forall|i: int| 0 <= i < members@.len() ==> old(out)@.contains_key((#[trigger] members@[i]).member_id@),
            forall|id: Seq<char>| old(out)@.contains_key(id) ==> !(#[trigger] old(out)@[id]).contains_key(topic),
        ensures
            gave(final(out)@, old(out)@, topics@, topic, subscribers(views(members@), topic), available(topics@, topic)),
    {
        let subs: Vec<usize> = collect_subscribers(members, topic);
        let ghost sub = subscribers(views(members@), topic);
        let ghost was = out@;
        if subs.len() == 0 {
            return;
        }
        let mut loads: Vec<usize> = Vec::new();
        let mut i: usize = 0;
        while i < subs.len()
            invariant
                0 <= i <= subs@.len(),
                loads@.len() == i,
                forall|j: int| 0 <= j < i ==> loads@[j] == 0,
            decreases subs@.len() - i,
        {
            loads.push(0);
            i = i + 1;
        }
        let mut p: i32 = 0;
        while p < count
            invariant
                0 <= p,
                count >= 0 ==> p <= count,
                count < 0 ==> p == 0,
                sub == subscribers(views(members@), topic),
                sub.len() > 0,
                subs@.len() == sub.len(),
                forall|i: int| 0 <= i < subs@.len() ==> 0 <= #[trigger] subs@[i] < members@.len() && members@[subs@[i] as int]@ == sub[i],
                forall|i: int| 0 <= i < members@.len() ==> was.contains_key((#[trigger] members@[i]).member_id@),
                loads@.len() == sub.len(),
                forall|j: int| 0 <= j < sub.len() ==> #[trigger] loads@[j] == load(owners(topics@, topic, sub, p as nat), j),
                gave(out@, was, topics@, topic, sub, p as nat),
            decreases count - p,
        {
            let ghost before = owners(topics@, topic, sub, p as nat);
            let mut list: Vec<(usize, bool)> = Vec::new();
            let mut k: usize = 0;
            while k < subs.len()
                invariant
                    0 <= k <= subs@.len(),
                    list@.len() == k,
                    subs@.len() == sub.len(),
                    loads@.len() == sub.len(),
                    before == owners(topics@, topic, sub, p as nat),
                    forall|i: int| 0 <= i < subs@.len() ==> 0 <= #[trigger] subs@[i] < members@.len() && members@[subs@[i] as int]@ == sub[i],
                    forall|j: int| 0 <= j < sub.len() ==> #[trigger] loads@[j] == load(before, j),
                    forall|j: int| 0 <= j < k ==> (#[trigger] list@[j]).0 == load(before, j) && list@[j].1 == collocated(topics@, topic, p, sub[j]),
                decreases subs@.len() - k,
            {
                list.push((loads[k], is_collocated(topics, topic, p, &members[subs[k]])));
                k = k + 1;
            }
            let ghost cands = candidates(topics@, topic, sub, before, p);
            assert(Seq::new(list@.len(), |i: int| (list@[i].0 as nat, list@[i].1)) =~= cands);
            match select_uniform_member(&list) {
                None => {},
                Some(chosen) => {
                    proof {
                        assert(selected(cands, chosen as int));
                        selected_unique(cands, chosen as int, pick(cands));
                        owners_len(topics@, topic, sub, p as nat);
                        load_bound(before, chosen as int);
                        assert(owners(topics@, topic, sub, (p + 1) as nat) == before.push(chosen as int));
                        assert(before.push(chosen as int).drop_last() =~= before);
                    }
                    let load_now: usize = loads[chosen];
                    loads.set(chosen, load_now + 1);
                    let id: &String = &members[subs[chosen]].member_id;
                    let ghost held = out@;
                    assert(sub[chosen as int].member_id == id@);
                    assert(was.contains_key(id@));
                    if let Some(mut topics_of) = out.remove(id) {
                        let mut list_of: Vec<i32> = match topics_of.remove(&topic) {
                            Some(l) => l,
                            None => Vec::new(),
                        };
                        list_of.push(p);
                        assert(list_of@ =~= share(topics@, topic, sub, id@, (p + 1) as nat));
                        topics_of.insert(topic, list_of);
                        out.insert(id.clone(), topics_of);
                    }
                    proof {
                        assert(out@.dom() =~= was.dom());
                        assert forall|other: Seq<char>| was.contains_key(other) implies {
                            &&& (#[trigger] out@[other]).contains_key(topic) == (share(topics@, topic, sub, other, (p + 1) as nat).len() > 0)
                            &&& out@[other].contains_key(topic) ==> out@[other][topic] == share(topics@, topic, sub, other, (p + 1) as nat)
                        } by {
                            if other != id@ {
                                assert(out@[other] == held[other]);
                            }
                        }
                        assert(gave(out@, was, topics@, topic, sub, (p + 1) as nat));
                    }
                },
            }
            p = p + 1;
        }
    }

    /// Gives out the partitions of every topic.
    fn assign_all(members: &[MemberSubscription], topics: &TopicMetadata) -> (out: Assignment)
        ensures
            forall|id: Seq<char>| #[trigger] out@.contains_key(id) <==> listed_member(views(members@), id),
            forall|id: Seq<char>, topic: u128|
                listed_member(views(members@), id) ==> {
                    &&& #[trigger] out@[id].contains_key(topic) == (assigned(views(members@), topics@, id, topic).len() > 0)
                    &&& out@[id].contains_key(topic) ==> out@[id][topic] == assigned(views(members@), topics@, id, topic)
                },
    {
        let mut out: Assignment = OrdMap::new();
        let mut i: usize = 0;
        while i < members.len()
            invariant
                0 <= i <= members@.len(),
                forall|id: Seq<char>| #[trigger] out@.contains_key(id) <==> listed_member(views(members@).take(i as int), id),
                forall|id: Seq<char>| out@.contains_key(id) ==> #[trigger] out@[id] == Map::<u128, Seq<i32>>::empty(),
            decreases members@.len() - i,
        {
            let ghost was = out@;
            out.insert(members[i].member_id.clone(), OrdMap::new());
            proof {
                let next = views(members@).take(i + 1);
                assert forall|id: Seq<char>| #[trigger] out@.contains_key(id) <==> listed_member(next, id) by {
                    if was.contains_key(id) {
                        let j = choose|j: int| 0 <= j < i && (#[trigger] views(members@).take(i as int)[j]).member_id == id;
                        assert(next[j].member_id == id);
                    }
                    assert(next[i as int].member_id == members@[i as int].member_id@);
                    if listed_member(next, id) && id != members@[i as int].member_id@ {
                        let j = choose|j: int| 0 <= j < next.len() && (#[trigger] next[j]).member_id == id;
                        assert(views(members@).take(i as int)[j].member_id == id);
                    }
                }
            }
            i = i + 1;
        }
        assert(views(members@).take(i as int) =~= views(members@));
        let n: usize = topics.partitions_per_topic.len();
        let ghost keys = topics.partitions_per_topic.keys();
        let mut k: usize = 0;
        while k < n
            invariant
                0 <= k <= n,
                n == keys.len(),
                keys == topics.partitions_per_topic.keys(),
                topics.partitions_per_topic.listed(),
                forall|id: Seq<char>| #[trigger] out@.contains_key(id) <==> listed_member(views(members@), id),
                forall|id: Seq<char>, topic: u128|
                    listed_member(views(members@), id) && keys.take(k as int).contains(topic) ==> {
                        &&& #[trigger] out@[id].contains_key(topic) == (assigned(views(members@), topics@, id, topic).len() > 0)
                        &&& out@[id].contains_key(topic) ==> out@[id][topic] == assigned(views(members@), topics@, id, topic)
                    },
                forall|id: Seq<char>, topic: u128|
                    listed_member(views(members@), id) && !keys.take(k as int).contains(topic) ==> !#[trigger] out@[id].contains_key(topic),
            decreases n - k,
        {
            let topic: u128 = *topics.partitions_per_topic.key_at(k);
            let count: i32 = *topics.partitions_per_topic.value_at(k);
            let ghost was = out@;
            proof {
                assert forall|j: int| 0 <= j < members@.len() implies out@.contains_key((#[trigger] members@[j]).member_id@) by {
                    assert(views(members@)[j].member_id == members@[j].member_id@);
                }
                assert(!keys.take(k as int).contains(topic)) by {
                    if keys.take(k as int).contains(topic) {
                        let j = choose|j: int| 0 <= j < k && keys.take(k as int)[j] == topic;
                        assert(keys[j] == topic && keys[k as int] == topic);
                        assert(<u128 as Key>::lt(keys[j], keys[k as int]));
                    }
                }
            }
            Self::assign_topic(&mut out, members, topics, topic, count);
            proof {
                let next = keys.take(k + 1);
                assert(next.drop_last() =~= keys.take(k as int));
                assert(next[k as int] == topic);
                assert(out@.dom() == was.dom());
                assert forall|id: Seq<char>| #[trigger] out@.contains_key(id) <==> listed_member(views(members@), id) by {
                    assert(out@.contains_key(id) == was.contains_key(id));
                }
                assert forall|id: Seq<char>, t: u128| listed_member(views(members@), id) && next.contains(t) implies {
                    &&& #[trigger] out@[id].contains_key(t) == (assigned(views(members@), topics@, id, t).len() > 0)
                    &&& out@[id].contains_key(t) ==> out@[id][t] == assigned(views(members@), topics@, id, t)
                } by {
                    assert(was.contains_key(id));
                    if t == topic {
                        assert(out@[id].contains_key(topic) == (share(topics@, topic, subscribers(views(members@), topic), id, available(topics@, topic)).len() > 0));
                    } else {
                        let j = choose|j: int| 0 <= j < next.len() && next[j] == t;
                        assert(keys.take(k as int)[j] == t);
                        assert(out@[id].contains_key(t) == was[id].contains_key(t));
                        assert(out@[id][t] == was[id][t]);
                    }
                }
                assert forall|id: Seq<char>, t: u128| listed_member(views(members@), id) && !next.contains(t) implies !#[trigger] out@[id].contains_key(t) by {
                    assert(was.contains_key(id));
                    assert(t != topic);
                    assert(!keys.take(k as int).contains(t)) by {
                        if keys.take(k as int).contains(t) {
                            let j = choose|j: int| 0 <= j < k && keys.take(k as int)[j] == t;
                            assert(next[j] == t);
                        }
                    }
                    assert(!was[id].contains_key(t));
                }
            }
            k = k + 1;
        }
        proof {
            assert(keys.take(n as int) =~= keys);
            assert forall|id: Seq<char>, topic: u128| listed_member(views(members@), id) implies {
                &&& #[trigger] out@[id].contains_key(topic) == (assigned(views(members@), topics@, id, topic).len() > 0)
                &&& out@[id].contains_key(topic) ==> out@[id][topic] == assigned(views(members@), topics@, id, topic)
            } by {
                if !keys.contains(topic) {
                    assert(!topics.partitions_per_topic@.contains_key(topic));
                }
            }
        }
        out
    }
}

} // verus!
