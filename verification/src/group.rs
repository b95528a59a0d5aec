//! A group under one id: what it speaks, its committed offsets and its open transactions.

use crate::classic_state::{ClassicGroup, ClassicGroupView, MemberView};
use crate::consumer_state::{GroupState, GroupStateView, MemberStateView};
use crate::ordmap::{Change, Dup, OrdMap, OrdSet, Test, views};
use crate::records::{OffsetEntry, OffsetEntryView};
use vstd::prelude::*;

verus! {

/// A topic and a partition of it.
pub type PartitionKey = (String, i32);

/// What a [`PartitionKey`] stands for.
pub type PartitionKeyView = (Seq<char>, i32);

/// Which protocol a group speaks.
#[derive(Clone, Copy, Debug, PartialEq, Eq, Structural)]
pub enum GroupKindTag {
    Classic,
    Consumer,
}

/// The group in the protocol that it speaks.
#[derive(Debug, PartialEq, Eq)]
pub enum GroupKind {
    Classic(ClassicGroup),
    Consumer(GroupState),
}

#[verifier::ext_equal]
pub enum GroupKindView {
    Classic(ClassicGroupView),
    Consumer(GroupStateView),
}

impl View for GroupKind {
    type V = GroupKindView;

    open spec fn view(&self) -> GroupKindView {
        match self {
            GroupKind::Classic(g) => GroupKindView::Classic(g@),
            GroupKind::Consumer(g) => GroupKindView::Consumer(g@),
        }
    }
}

impl Dup for GroupKind {
    fn dup(&self) -> (r: Self) {
        match self {
            GroupKind::Classic(g) => GroupKind::Classic(g.dup()),
            GroupKind::Consumer(g) => GroupKind::Consumer(g.dup()),
        }
    }
}

/// A group under one id.
#[derive(Debug, PartialEq, Eq)]
pub struct CoordinatorGroup {
    pub group_id: String,
    pub kind: GroupKind,
    pub committed_offsets: OrdMap<PartitionKey, OffsetEntry>,
    /// By producer, the offsets that its open transaction wrote, each with the position in the log
    /// where it did.
    pub pending_txn: OrdMap<i64, OrdMap<PartitionKey, i64>>,
    /// By producer, the offsets that its open transaction is about to write.
    pub reserved_txn: OrdMap<i64, OrdSet<PartitionKey>>,
    /// By producer, the position of the last marker that ended a transaction.
    pub resolved_txn: OrdMap<i64, i64>,
    /// Since when the group has had no members, in milliseconds.
    pub empty_since_ms: Option<i64>,
}

#[verifier::ext_equal]
pub struct CoordinatorGroupView {
    pub group_id: Seq<char>,
    pub kind: GroupKindView,
    pub committed_offsets: Map<PartitionKeyView, OffsetEntryView>,
    pub pending_txn: Map<i64, Map<PartitionKeyView, i64>>,
    pub reserved_txn: Map<i64, Set<PartitionKeyView>>,
    pub resolved_txn: Map<i64, i64>,
    pub empty_since_ms: Option<i64>,
}

impl View for CoordinatorGroup {
    type V = CoordinatorGroupView;

    open spec fn view(&self) -> CoordinatorGroupView {
        CoordinatorGroupView {
            group_id: self.group_id@,
            kind: self.kind@,
            committed_offsets: self.committed_offsets@,
            pending_txn: self.pending_txn@,
            reserved_txn: self.reserved_txn@,
            resolved_txn: self.resolved_txn@,
            empty_since_ms: self.empty_since_ms,
        }
    }
}

impl Dup for CoordinatorGroup {
    fn dup(&self) -> (r: Self) {
        CoordinatorGroup {
            group_id: self.group_id.clone(),
            kind: self.kind.dup(),
            committed_offsets: self.committed_offsets.dup(),
            pending_txn: self.pending_txn.dup(),
            reserved_txn: self.reserved_txn.dup(),
            resolved_txn: self.resolved_txn.dup(),
            empty_since_ms: self.empty_since_ms,
        }
    }
}

/// The sum, or the bound that it goes beyond.
pub open spec fn saturated(a: i64, b: i64) -> i64 {
    if a + b > i64::MAX {
        i64::MAX
    } else if a + b < i64::MIN {
        i64::MIN
    } else {
        (a + b) as i64
    }
}

/// The sum, or the bound that it goes beyond.
pub fn saturate(a: i64, b: i64) -> (r: i64)
    ensures
        r == saturated(a, b),
{
    let sum: i128 = a as i128 + b as i128;
    if sum > 9_223_372_036_854_775_807 {
        9_223_372_036_854_775_807
    } else if sum < -9_223_372_036_854_775_808 {
        -9_223_372_036_854_775_808
    } else {
        sum as i64
    }
}

impl OffsetEntryView {
    /// Whether the offset has outlived its retention: the moment that its commit named, else
    /// `retention_ms` after the group emptied, or after the commit where that moment does not count.
    pub open spec fn expired(self, now_ms: i64, empty_since_ms: Option<i64>, retention_ms: i64) -> bool {
        match self.expire_timestamp_ms {
            Some(at) => now_ms >= at,
            None => match empty_since_ms {
                Some(since) => now_ms >= saturated(since, retention_ms),
                None => now_ms >= saturated(self.commit_timestamp_ms, retention_ms),
            },
        }
    }
}

impl OffsetEntry {
    /// Whether the offset has outlived its retention.
    pub fn is_expired(&self, now_ms: i64, empty_since_ms: Option<i64>, retention_ms: i64) -> (r: bool)
        ensures
            r == self@.expired(now_ms, empty_since_ms, retention_ms),
    {
        match self.expire_timestamp_ms {
            Some(at) => now_ms >= at,
            None => match empty_since_ms {
                Some(since) => now_ms >= saturate(since, retention_ms),
                None => now_ms >= saturate(self.commit_timestamp_ms, retention_ms),
            },
        }
    }
}

/// A committed offset and what it is of.
#[derive(Debug, PartialEq, Eq)]
pub struct CommittedOffset {
    pub key: PartitionKey,
    pub entry: OffsetEntry,
}

impl View for CommittedOffset {
    type V = (PartitionKeyView, OffsetEntryView);

    open spec fn view(&self) -> (PartitionKeyView, OffsetEntryView) {
        (self.key@, self.entry@)
    }
}

/// The offsets with those of `entries` committed, one after the other.
pub open spec fn with_committed(
    m: Map<PartitionKeyView, OffsetEntryView>,
    entries: Seq<(PartitionKeyView, OffsetEntryView)>,
) -> Map<PartitionKeyView, OffsetEntryView>
    decreases entries.len(),
{
    if entries.len() == 0 {
        m
    } else {
        with_committed(m, entries.drop_last()).insert(entries.last().0, entries.last().1)
    }
}

/// The map without `keys`.
pub open spec fn without_keys<V>(m: Map<PartitionKeyView, V>, keys: Seq<PartitionKeyView>) -> Map<PartitionKeyView, V> {
    Map::new(|k: PartitionKeyView| m.contains_key(k) && !keys.contains(k), |k: PartitionKeyView| m[k])
}

/// The set with `keys`.
pub open spec fn with_keys(s: Set<PartitionKeyView>, keys: Seq<PartitionKeyView>) -> Set<PartitionKeyView> {
    s.union(keys.to_set())
}

/// The marks with `keys` written at `at`.
pub open spec fn with_marks(m: Map<PartitionKeyView, i64>, keys: Seq<PartitionKeyView>, at: i64) -> Map<PartitionKeyView, i64> {
    m.union_prefer_right(Map::new(|k: PartitionKeyView| keys.contains(k), |k: PartitionKeyView| at))
}

/// The marks of a producer.
pub open spec fn marks_of(m: Map<i64, Map<PartitionKeyView, i64>>, producer: i64) -> Map<PartitionKeyView, i64> {
    if m.contains_key(producer) {
        m[producer]
    } else {
        Map::empty()
    }
}

/// What a producer has reserved.
pub open spec fn reserved_of(m: Map<i64, Set<PartitionKeyView>>, producer: i64) -> Set<PartitionKeyView> {
    if m.contains_key(producer) {
        m[producer]
    } else {
        Set::empty()
    }
}

impl CoordinatorGroupView {
    /// Whether the group has members.
    pub open spec fn has_members(self) -> bool {
        match self.kind {
            GroupKindView::Classic(g) => g.members != Map::<Seq<char>, MemberView>::empty(),
            GroupKindView::Consumer(g) => g.members != Map::<Seq<char>, MemberStateView>::empty(),
        }
    }

    /// The group once its membership was looked at: an empty group remembers since when.
    pub open spec fn observed(self, now_ms: i64) -> CoordinatorGroupView {
        CoordinatorGroupView {
            empty_since_ms: if self.has_members() {
                None
            } else if self.empty_since_ms is Some {
                self.empty_since_ms
            } else {
                Some(now_ms)
            },
            ..self
        }
    }

    /// An open transaction wrote `keys` at position `at`. Where a marker beyond `at` was seen
    /// already, the transaction is over and nothing is pending.
    pub open spec fn marked(self, producer: i64, at: i64, keys: Seq<PartitionKeyView>) -> CoordinatorGroupView {
        let unreserved = CoordinatorGroupView {
            reserved_txn: self.reserved_txn.insert(producer, reserved_of(self.reserved_txn, producer).difference(keys.to_set())),
            ..self
        };
        if self.resolved_txn.contains_key(producer) && at < self.resolved_txn[producer] {
            unreserved
        } else {
            CoordinatorGroupView {
                pending_txn: self.pending_txn.insert(producer, with_marks(marks_of(self.pending_txn, producer), keys, at)),
                ..unreserved
            }
        }
    }

    /// The transaction whose marker stands at `through` is over: `committed` become stable, and
    /// what it had written before is no longer pending.
    pub open spec fn resolved(self, producer: i64, through: i64, committed: Seq<(PartitionKeyView, OffsetEntryView)>) -> CoordinatorGroupView {
        let marks = marks_of(self.pending_txn, producer);
        CoordinatorGroupView {
            committed_offsets: with_committed(self.committed_offsets, committed),
            pending_txn: self.pending_txn.insert(
                producer,
                Map::new(|k: PartitionKeyView| marks.contains_key(k) && marks[k] >= through, |k: PartitionKeyView| marks[k]),
            ),
            resolved_txn: if self.resolved_txn.contains_key(producer) && self.resolved_txn[producer] >= through {
                self.resolved_txn
            } else {
                self.resolved_txn.insert(producer, through)
            },
            ..self
        }
    }

    /// An open transaction is about to write `keys`.
    pub open spec fn reserved(self, producer: i64, keys: Seq<PartitionKeyView>) -> CoordinatorGroupView {
        CoordinatorGroupView {
            reserved_txn: self.reserved_txn.insert(producer, with_keys(reserved_of(self.reserved_txn, producer), keys)),
            ..self
        }
    }

    /// An open transaction did not write `keys` after all.
    pub open spec fn unreserved(self, producer: i64, keys: Seq<PartitionKeyView>) -> CoordinatorGroupView {
        CoordinatorGroupView {
            reserved_txn: self.reserved_txn.insert(producer, reserved_of(self.reserved_txn, producer).difference(keys.to_set())),
            ..self
        }
    }

    /// The offsets that open transactions wrote.
    pub open spec fn pending_keys(self) -> Set<PartitionKeyView> {
        Set::new(|k: PartitionKeyView| exists|p: i64| #[trigger] self.pending_txn.contains_key(p) && self.pending_txn[p].contains_key(k))
    }

    /// The offsets that open transactions wrote or are about to.
    pub open spec fn unresolved_keys(self) -> Set<PartitionKeyView> {
        Set::new(
            |k: PartitionKeyView|
                self.pending_keys().contains(k) || exists|p: i64| #[trigger] self.reserved_txn.contains_key(p) && self.reserved_txn[p].contains(k),
        )
    }

    /// The offsets `keys` are gone, committed or pending.
    pub open spec fn dropped(self, keys: Seq<PartitionKeyView>) -> CoordinatorGroupView {
        CoordinatorGroupView {
            committed_offsets: without_keys(self.committed_offsets, keys),
            pending_txn: Map::new(|p: i64| self.pending_txn.contains_key(p), |p: i64| without_keys(self.pending_txn[p], keys)),
            ..self
        }
    }
}

/// The keys of a list as a set.
fn key_set(keys: &Vec<PartitionKey>) -> (r: OrdSet<PartitionKey>)
    ensures
        r@ == views(keys@).to_set(),
{
    let ghost all = views(keys@);
    let mut out: OrdSet<PartitionKey> = OrdSet::new();
    let mut i: usize = 0;
    while i < keys.len()
        invariant
            0 <= i <= keys@.len(),
            all == views(keys@),
            forall|k: PartitionKeyView| #[trigger] out@.contains(k) ==> all.contains(k),
            forall|j: int| 0 <= j < i ==> out@.contains(#[trigger] all[j]),
        decreases keys@.len() - i,
    {
        assert(all[i as int] == keys@[i as int]@);
        out.insert(keys[i].dup());
        i = i + 1;
    }
    assert forall|k: PartitionKeyView| all.to_set().contains(k) implies out@.contains(k) by {
        let j = choose|j: int| 0 <= j < all.len() && all[j] == k;
        assert(out@.contains(all[j]));
    }
    assert(out@ =~= all.to_set());
    out
}

struct NotAmong<'a> {
    keys: &'a OrdSet<PartitionKey>,
}

impl<'a> Test<PartitionKey, OffsetEntry> for NotAmong<'a> {
    closed spec fn holds(&self, k: PartitionKeyView, v: OffsetEntryView) -> bool {
        !self.keys@.contains(k)
    }

    fn test(&self, k: &PartitionKey, v: &OffsetEntry) -> (r: bool) {
        !self.keys.contains(k)
    }
}

impl<'a> Test<PartitionKey, i64> for NotAmong<'a> {
    closed spec fn holds(&self, k: PartitionKeyView, v: i64) -> bool {
        !self.keys@.contains(k)
    }

    fn test(&self, k: &PartitionKey, v: &i64) -> (r: bool) {
        !self.keys.contains(k)
    }
}

struct WrittenFrom {
    through: i64,
}

impl Test<PartitionKey, i64> for WrittenFrom {
    closed spec fn holds(&self, k: PartitionKeyView, v: i64) -> bool {
        v >= self.through
    }

    fn test(&self, k: &PartitionKey, v: &i64) -> (r: bool) {
        *v >= self.through
    }
}

struct DropMarks<'a> {
    keys: &'a OrdSet<PartitionKey>,
}

impl<'a> Change<i64, OrdMap<PartitionKey, i64>> for DropMarks<'a> {
    closed spec fn changed(&self, k: i64, v: Map<PartitionKeyView, i64>) -> Map<PartitionKeyView, i64> {
        Map::new(|key: PartitionKeyView| v.contains_key(key) && !self.keys@.contains(key), |key: PartitionKeyView| v[key])
    }

    fn change(&self, k: &i64, v: &OrdMap<PartitionKey, i64>) -> (r: OrdMap<PartitionKey, i64>) {
        let mut m = v.dup();
        let t = NotAmong { keys: self.keys };
        m.retain(&t);
        assert(m@ =~= self.changed(k@, v@));
        m
    }
}

/// What an `OffsetFetch` reads of a group.
#[derive(Debug, PartialEq, Eq)]
pub struct GroupOffsets {
    pub committed: OrdMap<PartitionKey, OffsetEntry>,
    /// The offsets that open transactions wrote.
    pub pending_txn: OrdSet<PartitionKey>,
}

impl CoordinatorGroup {
    /// A group of a kind with committed offsets, and no open transactions.
    pub fn seeded(group_id: String, kind: GroupKind, committed_offsets: OrdMap<PartitionKey, OffsetEntry>) -> (r: Self)
        ensures
            r@ == (CoordinatorGroupView {
                group_id: group_id@,
                kind: kind@,
                committed_offsets: committed_offsets@,
                pending_txn: Map::empty(),
                reserved_txn: Map::empty(),
                resolved_txn: Map::empty(),
                empty_since_ms: None,
            }),
    {
        CoordinatorGroup {
            group_id,
            kind,
            committed_offsets,
            pending_txn: OrdMap::new(),
            reserved_txn: OrdMap::new(),
            resolved_txn: OrdMap::new(),
            empty_since_ms: None,
        }
    }

    /// A classic group without members.
    pub fn new_classic(group_id: String) -> (r: Self)
        ensures
            r@.group_id == group_id@,
            r@.kind is Classic,
            !r@.has_members(),
            r@.committed_offsets == Map::<PartitionKeyView, OffsetEntryView>::empty(),
    {
        let state = ClassicGroup::new(group_id.clone());
        CoordinatorGroup::seeded(group_id, GroupKind::Classic(state), OrdMap::new())
    }

    /// A consumer group without members.
    pub fn new_consumer(group_id: String) -> (r: Self)
        ensures
            r@.group_id == group_id@,
            r@.kind is Consumer,
            !r@.has_members(),
            r@.committed_offsets == Map::<PartitionKeyView, OffsetEntryView>::empty(),
    {
        let state = GroupState::new(group_id.clone());
        CoordinatorGroup::seeded(group_id, GroupKind::Consumer(state), OrdMap::new())
    }

    /// Which protocol the group speaks now.
    pub fn tag(&self) -> (r: GroupKindTag)
        ensures
            r == (if self@.kind is Classic {
                GroupKindTag::Classic
            } else {
                GroupKindTag::Consumer
            }),
    {
        match &self.kind {
            GroupKind::Classic(_) => GroupKindTag::Classic,
            GroupKind::Consumer(_) => GroupKindTag::Consumer,
        }
    }

    /// Whether the group has members.
    pub fn has_members(&self) -> (r: bool)
        ensures
            r == self@.has_members(),
    {
        match &self.kind {
            GroupKind::Classic(g) => !g.members.is_empty(),
            GroupKind::Consumer(g) => !g.members.is_empty(),
        }
    }

    /// Looks at the membership: an empty group remembers since when it is.
    pub fn observe_membership(&mut self, now_ms: i64)
        ensures
            final(self)@ == old(self)@.observed(now_ms),
    {
        if self.has_members() {
            self.empty_since_ms = None;
        } else if self.empty_since_ms.is_none() {
            self.empty_since_ms = Some(now_ms);
        }
    }

    /// Commits offsets.
    pub fn update_committed(&mut self, entries: &Vec<CommittedOffset>)
        ensures
            final(self)@ == (CoordinatorGroupView {
                committed_offsets: with_committed(old(self)@.committed_offsets, views(entries@)),
                ..old(self)@
            }),
    {
        let ghost before = self@;
        let ghost all = views(entries@);
        let mut i: usize = 0;
        assert(all.take(0) =~= seq![]);
        while i < entries.len()
            invariant
                0 <= i <= entries@.len(),
                all == views(entries@),
                self@ == (CoordinatorGroupView { committed_offsets: with_committed(before.committed_offsets, all.take(i as int)), ..before }),
            decreases entries@.len() - i,
        {
            let ghost next = all.take(i + 1);
            assert(next.drop_last() =~= all.take(i as int));
            assert(next.last() == entries@[i as int]@);
            self.committed_offsets.insert(entries[i].key.dup(), entries[i].entry.dup());
            i = i + 1;
        }
        assert(all.take(all.len() as int) =~= all);
    }

    /// Takes committed offsets out.
    pub fn remove_committed(&mut self, keys: &Vec<PartitionKey>)
        ensures
            final(self)@ == (CoordinatorGroupView {
                committed_offsets: without_keys(old(self)@.committed_offsets, views(keys@)),
                ..old(self)@
            }),
    {
        let ghost before = self@;
        let set = key_set(keys);
        let t = NotAmong { keys: &set };
        self.committed_offsets.retain(&t);
        assert(self@.committed_offsets =~= without_keys(before.committed_offsets, views(keys@)));
    }

    fn release(&mut self, producer: i64, keys: &Vec<PartitionKey>)
        ensures
            final(self)@ == old(self)@.unreserved(producer, views(keys@)),
    {
        let ghost before = self@;
        let mut left: OrdSet<PartitionKey> = match self.reserved_txn.remove(&producer) {
            Some(set) => set,
            None => OrdSet::new(),
        };
        let ghost all = views(keys@);
        let ghost was = left@;
        let mut i: usize = 0;
        while i < keys.len()
            invariant
                0 <= i <= keys@.len(),
                all == views(keys@),
                forall|k: PartitionKeyView| #[trigger] left@.contains(k) ==> was.contains(k),
                forall|k: PartitionKeyView| was.contains(k) && !all.contains(k) ==> #[trigger] left@.contains(k),
                forall|j: int| 0 <= j < i ==> !left@.contains(#[trigger] all[j]),
            decreases keys@.len() - i,
        {
            assert(all[i as int] == keys@[i as int]@);
            let _ = left.remove(&keys[i]);
            i = i + 1;
        }
        assert(left@ =~= was.difference(all.to_set())) by {
            assert forall|k: PartitionKeyView| left@.contains(k) implies !all.to_set().contains(k) by {
                if all.contains(k) {
                    let j = choose|j: int| 0 <= j < all.len() && all[j] == k;
                    assert(!left@.contains(all[j]));
                }
            }
        }
        self.reserved_txn.insert(producer, left);
        assert(self@.reserved_txn =~= before.unreserved(producer, all).reserved_txn);
    }

    /// Notes what an open transaction is about to write, or that it is not after all.
    pub fn reserve_txn_offsets(&mut self, producer: i64, keys: &Vec<PartitionKey>, reserve: bool)
        ensures
            final(self)@ == if reserve {
                old(self)@.reserved(producer, views(keys@))
            } else {
                old(self)@.unreserved(producer, views(keys@))
            },
    {
        if !reserve {
            self.release(producer, keys);
            return;
        }
        let ghost before = self@;
        let mut set: OrdSet<PartitionKey> = match self.reserved_txn.remove(&producer) {
            Some(set) => set,
            None => OrdSet::new(),
        };
        let ghost was = set@;
        let ghost all = views(keys@);
        let mut i: usize = 0;
        while i < keys.len()
            invariant
                0 <= i <= keys@.len(),
                all == views(keys@),
                forall|k: PartitionKeyView| #[trigger] set@.contains(k) ==> was.contains(k) || all.contains(k),
                forall|k: PartitionKeyView| was.contains(k) ==> #[trigger] set@.contains(k),
                forall|j: int| 0 <= j < i ==> set@.contains(#[trigger] all[j]),
            decreases keys@.len() - i,
        {
            assert(all[i as int] == keys@[i as int]@);
            set.insert(keys[i].dup());
            i = i + 1;
        }
        assert(set@ =~= with_keys(was, all)) by {
            assert forall|k: PartitionKeyView| all.to_set().contains(k) implies set@.contains(k) by {
                let j = choose|j: int| 0 <= j < all.len() && all[j] == k;
                assert(set@.contains(all[j]));
            }
        }
        self.reserved_txn.insert(producer, set);
        assert(self@.reserved_txn =~= before.reserved(producer, all).reserved_txn);
    }

    /// Notes that an open transaction wrote `keys` at position `at`.
    pub fn add_pending_txn_offsets(&mut self, producer: i64, at: i64, keys: &Vec<PartitionKey>)
        ensures
            final(self)@ == old(self)@.marked(producer, at, views(keys@)),
    {
        let ghost before = self@;
        self.release(producer, keys);
        if let Some(through) = self.resolved_txn.get(&producer) {
            if at < *through {
                return;
            }
        }
        let mut marks: OrdMap<PartitionKey, i64> = match self.pending_txn.remove(&producer) {
            Some(m) => m,
            None => OrdMap::new(),
        };
        let ghost was = marks@;
        let ghost all = views(keys@);
        let mut i: usize = 0;
        while i < keys.len()
            invariant
                0 <= i <= keys@.len(),
                all == views(keys@),
                forall|k: PartitionKeyView| #[trigger] marks@.contains_key(k) ==> was.contains_key(k) || all.contains(k),
                forall|k: PartitionKeyView| #[trigger] marks@.contains_key(k) && !all.contains(k) ==> marks@[k] == was[k],
                forall|k: PartitionKeyView| was.contains_key(k) ==> #[trigger] marks@.contains_key(k),
                forall|j: int| 0 <= j < i ==> marks@.contains_key(#[trigger] all[j]) && marks@[all[j]] == at,
            decreases keys@.len() - i,
        {
            assert(all[i as int] == keys@[i as int]@);
            let ghost mid = marks@;
            marks.insert(keys[i].dup(), at);
            assert forall|j: int| 0 <= j < i + 1 implies marks@.contains_key(#[trigger] all[j]) && marks@[all[j]] == at by {
                if j < i {
                    assert(mid.contains_key(all[j]));
                }
            }
            i = i + 1;
        }
        assert(marks@ =~= with_marks(was, all, at)) by {
            assert forall|k: PartitionKeyView| all.contains(k) implies #[trigger] marks@.contains_key(k) && marks@[k] == at by {
                let j = choose|j: int| 0 <= j < all.len() && all[j] == k;
                assert(marks@.contains_key(all[j]));
            }
        }
        self.pending_txn.insert(producer, marks);
        assert(self@ =~= before.marked(producer, at, all));
    }

    /// Ends the transaction whose marker stands at `through`.
    pub fn resolve_txn_offsets(&mut self, producer: i64, through: i64, committed: &Vec<CommittedOffset>)
        ensures
            final(self)@ == old(self)@.resolved(producer, through, views(committed@)),
    {
        let ghost before = self@;
        self.update_committed(committed);
        let mut marks: OrdMap<PartitionKey, i64> = match self.pending_txn.remove(&producer) {
            Some(m) => m,
            None => OrdMap::new(),
        };
        let ghost was = marks@;
        let t = WrittenFrom { through };
        marks.retain(&t);
        assert(marks@ =~= Map::new(|k: PartitionKeyView| was.contains_key(k) && was[k] >= through, |k: PartitionKeyView| was[k]));
        self.pending_txn.insert(producer, marks);
        let later: bool = match self.resolved_txn.get(&producer) {
            Some(last) => *last < through,
            None => true,
        };
        if later {
            self.resolved_txn.insert(producer, through);
        }
        assert(self@ =~= before.resolved(producer, through, views(committed@)));
    }

    /// The offsets that open transactions wrote.
    pub fn pending_txn_keys(&self) -> (r: OrdSet<PartitionKey>)
        ensures
            r@ == self@.pending_keys(),
    {
        let n: usize = self.pending_txn.len();
        let ghost g = self@;
        let mut out: OrdSet<PartitionKey> = OrdSet::new();
        let mut i: usize = 0;
        while i < n
            invariant
                0 <= i <= n,
                n == self.pending_txn.keys().len(),
                self.pending_txn.listed(),
                g == self@,
                forall|k: PartitionKeyView| #[trigger] out@.contains(k) ==> g.pending_keys().contains(k),
                forall|j: int, k: PartitionKeyView|
                    0 <= j < i && #[trigger] g.pending_txn[#[trigger] self.pending_txn.keys()[j]].contains_key(k) ==> out@.contains(k),
            decreases n - i,
        {
            let marks = self.pending_txn.value_at(i);
            let ghost p = self.pending_txn.keys()[i as int];
            assert(g.pending_txn.contains_key(p));
            let m: usize = marks.len();
            let ghost before = out@;
            let mut k: usize = 0;
            while k < m
                invariant
                    0 <= k <= m,
                    m == marks.keys().len(),
                    marks.listed(),
                    g == self@,
                    g.pending_txn.contains_key(p),
                    marks@ == g.pending_txn[p],
                    forall|x: PartitionKeyView| #[trigger] out@.contains(x) ==> g.pending_keys().contains(x),
                    forall|x: PartitionKeyView| before.contains(x) ==> #[trigger] out@.contains(x),
                    forall|j: int| 0 <= j < k ==> out@.contains(#[trigger] marks.keys()[j]),
                decreases m - k,
            {
                let key = marks.key_at(k);
                assert(g.pending_keys().contains(key@));
                out.insert(key.dup());
                k = k + 1;
            }
            assert forall|j: int, x: PartitionKeyView|
                0 <= j < i + 1 && #[trigger] g.pending_txn[#[trigger] self.pending_txn.keys()[j]].contains_key(x) implies out@.contains(x) by {
                if j < i {
                    assert(before.contains(x));
                } else {
                    assert(marks@.contains_key(x));
                    let q = choose|q: int| 0 <= q < marks.keys().len() && marks.keys()[q] == x;
                    assert(out@.contains(marks.keys()[q]));
                }
            }
            i = i + 1;
        }
        assert forall|k: PartitionKeyView| g.pending_keys().contains(k) implies out@.contains(k) by {
            let p = choose|p: i64| #[trigger] g.pending_txn.contains_key(p) && g.pending_txn[p].contains_key(k);
            assert(self.pending_txn@.contains_key(p));
            let j = choose|j: int| 0 <= j < self.pending_txn.keys().len() && self.pending_txn.keys()[j] == p;
            assert(g.pending_txn[self.pending_txn.keys()[j]].contains_key(k));
        }
        assert(out@ =~= g.pending_keys());
        out
    }

    /// The offsets that open transactions wrote or are about to.
    pub fn unresolved_txn_keys(&self) -> (r: OrdSet<PartitionKey>)
        ensures
            r@ == self@.unresolved_keys(),
    {
        let mut out = self.pending_txn_keys();
        let ghost g = self@;
        let n: usize = self.reserved_txn.len();
        let mut i: usize = 0;
        while i < n
            invariant
                0 <= i <= n,
                n == self.reserved_txn.keys().len(),
                self.reserved_txn.listed(),
                g == self@,
                forall|k: PartitionKeyView| #[trigger] out@.contains(k) ==> g.unresolved_keys().contains(k),
                forall|k: PartitionKeyView| g.pending_keys().contains(k) ==> #[trigger] out@.contains(k),
                forall|j: int, k: PartitionKeyView|
                    0 <= j < i && #[trigger] g.reserved_txn[#[trigger] self.reserved_txn.keys()[j]].contains(k) ==> out@.contains(k),
            decreases n - i,
        {
            let set = self.reserved_txn.value_at(i);
            let ghost p = self.reserved_txn.keys()[i as int];
            assert(g.reserved_txn.contains_key(p));
            let m: usize = set.len();
            let ghost before = out@;
            let mut k: usize = 0;
            while k < m
                invariant
                    0 <= k <= m,
                    m == set.keys().len(),
                    set.listed(),
                    g == self@,
                    g.reserved_txn.contains_key(p),
                    set@ == g.reserved_txn[p],
                    forall|x: PartitionKeyView| #[trigger] out@.contains(x) ==> g.unresolved_keys().contains(x),
                    forall|x: PartitionKeyView| before.contains(x) ==> #[trigger] out@.contains(x),
                    forall|j: int| 0 <= j < k ==> out@.contains(#[trigger] set.keys()[j]),
                decreases m - k,
            {
                let key = set.at(k);
                assert(g.unresolved_keys().contains(key@));
                out.insert(key.dup());
                k = k + 1;
            }
            assert forall|j: int, x: PartitionKeyView|
                0 <= j < i + 1 && #[trigger] g.reserved_txn[#[trigger] self.reserved_txn.keys()[j]].contains(x) implies out@.contains(x) by {
                if j < i {
                    assert(before.contains(x));
                } else {
                    let q = choose|q: int| 0 <= q < set.keys().len() && set.keys()[q] == x;
                    assert(out@.contains(set.keys()[q]));
                }
            }
            i = i + 1;
        }
        assert forall|k: PartitionKeyView| g.unresolved_keys().contains(k) implies out@.contains(k) by {
            if !g.pending_keys().contains(k) {
                let p = choose|p: i64| #[trigger] g.reserved_txn.contains_key(p) && g.reserved_txn[p].contains(k);
                assert(self.reserved_txn@.contains_key(p));
                let j = choose|j: int| 0 <= j < self.reserved_txn.keys().len() && self.reserved_txn.keys()[j] == p;
                assert(g.reserved_txn[self.reserved_txn.keys()[j]].contains(k));
            }
        }
        assert(out@ =~= g.unresolved_keys());
        out
    }

    /// What an `OffsetFetch` reads.
    pub fn offsets(&self) -> (r: GroupOffsets)
        ensures
            r.committed@ == self@.committed_offsets,
            r.pending_txn@ == self@.pending_keys(),
    {
        GroupOffsets { committed: self.committed_offsets.dup(), pending_txn: self.pending_txn_keys() }
    }

    /// Lets offsets go, committed or pending.
    pub fn drop_offsets(&mut self, keys: &Vec<PartitionKey>)
        ensures
            final(self)@ == old(self)@.dropped(views(keys@)),
    {
        let ghost before = self@;
        self.remove_committed(keys);
        let set = key_set(keys);
        let c = DropMarks { keys: &set };
        self.pending_txn.change_each(&c);
        assert forall|p: i64| before.pending_txn.contains_key(p) implies self@.pending_txn[p] == without_keys(before.pending_txn[p], views(keys@)) by {
            assert(self@.pending_txn[p] =~= without_keys(before.pending_txn[p], views(keys@)));
        }
        assert(self@.pending_txn =~= before.dropped(views(keys@)).pending_txn);
    }
}

} // verus!
