//! The durable delta of one change of a group.
//!
//! [`PendingRecords`] collects what a change writes, gives it as the one batch that is appended,
//! and brings the same delta to the seeds that groups are restored from.

use crate::ordmap::{Dup, OrdMap, views};
use crate::partitions::{Partitions, PartitionsView};
use crate::records::{
    ClassicGroupMetadataValue, ClassicGroupMetadataView, CurrentAssignmentView, CurrentMemberAssignmentValue, GroupRecord, GroupRecordView,
    MemberMetadataValue, MemberMetadataView, NextGenRecord, NextGenRecordView, RecordBatch, RecordBatchView, dup_opt, opt_view,
};
use vstd::prelude::*;

verus! {

/// What is to be written of a member; without a value, a tombstone.
#[derive(Debug, PartialEq, Eq)]
pub struct Entry<T> {
    pub member_id: String,
    pub value: Option<T>,
}

impl<T: View> View for Entry<T> {
    type V = (Seq<char>, Option<T::V>);

    open spec fn view(&self) -> (Seq<char>, Option<T::V>) {
        (self.member_id@, opt_view(self.value))
    }
}

/// The delta of one change.
#[derive(Debug, PartialEq, Eq)]
pub struct PendingRecords {
    /// The group's epoch.
    pub group_metadata: Option<i32>,
    pub member_metadata: Vec<Entry<MemberMetadataValue>>,
    /// The epoch of the target.
    pub target_metadata: Option<i32>,
    pub target_per_member: Vec<Entry<Partitions>>,
    pub current_per_member: Vec<Entry<CurrentMemberAssignmentValue>>,
    /// Whether the record of the classic group goes: the group became a consumer group.
    pub classic_group_metadata_tombstone: bool,
    /// Whether the record of the consumer group goes: the group became a classic group.
    pub next_gen_group_metadata_tombstone: bool,
    /// Whether the record of the target goes, likewise.
    pub next_gen_target_metadata_tombstone: bool,
    /// The record of the classic group.
    pub classic_group_metadata: Option<ClassicGroupMetadataValue>,
}

#[verifier::ext_equal]
pub struct PendingRecordsView {
    pub group_metadata: Option<i32>,
    pub member_metadata: Seq<(Seq<char>, Option<MemberMetadataView>)>,
    pub target_metadata: Option<i32>,
    pub target_per_member: Seq<(Seq<char>, Option<PartitionsView>)>,
    pub current_per_member: Seq<(Seq<char>, Option<CurrentAssignmentView>)>,
    pub classic_group_metadata_tombstone: bool,
    pub next_gen_group_metadata_tombstone: bool,
    pub next_gen_target_metadata_tombstone: bool,
    pub classic_group_metadata: Option<ClassicGroupMetadataView>,
}

impl View for PendingRecords {
    type V = PendingRecordsView;

    open spec fn view(&self) -> PendingRecordsView {
        PendingRecordsView {
            group_metadata: self.group_metadata,
            member_metadata: views(self.member_metadata@),
            target_metadata: self.target_metadata,
            target_per_member: views(self.target_per_member@),
            current_per_member: views(self.current_per_member@),
            classic_group_metadata_tombstone: self.classic_group_metadata_tombstone,
            next_gen_group_metadata_tombstone: self.next_gen_group_metadata_tombstone,
            next_gen_target_metadata_tombstone: self.next_gen_target_metadata_tombstone,
            classic_group_metadata: opt_view(self.classic_group_metadata),
        }
    }
}

/// The state of a consumer group that its records give.
#[derive(Debug, PartialEq, Eq)]
pub struct GroupSeed {
    pub group_epoch: i32,
    pub target_epoch: i32,
    pub members: OrdMap<String, MemberMetadataValue>,
    pub target_per_member: OrdMap<String, Partitions>,
    pub current_per_member: OrdMap<String, CurrentMemberAssignmentValue>,
}

#[verifier::ext_equal]
pub struct GroupSeedView {
    pub group_epoch: i32,
    pub target_epoch: i32,
    pub members: Map<Seq<char>, MemberMetadataView>,
    pub target_per_member: Map<Seq<char>, PartitionsView>,
    pub current_per_member: Map<Seq<char>, CurrentAssignmentView>,
}

impl View for GroupSeed {
    type V = GroupSeedView;

    open spec fn view(&self) -> GroupSeedView {
        GroupSeedView {
            group_epoch: self.group_epoch,
            target_epoch: self.target_epoch,
            members: self.members@,
            target_per_member: self.target_per_member@,
            current_per_member: self.current_per_member@,
        }
    }
}

impl Dup for GroupSeed {
    fn dup(&self) -> (r: Self) {
        GroupSeed {
            group_epoch: self.group_epoch,
            target_epoch: self.target_epoch,
            members: self.members.dup(),
            target_per_member: self.target_per_member.dup(),
            current_per_member: self.current_per_member.dup(),
        }
    }
}

impl GroupSeedView {
    /// The seed of a group of which no record is known.
    pub open spec fn blank() -> GroupSeedView {
        GroupSeedView {
            group_epoch: 0,
            target_epoch: 0,
            members: Map::empty(),
            target_per_member: Map::empty(),
            current_per_member: Map::empty(),
        }
    }
}

impl GroupSeed {
    /// The seed of a group of which no record is known.
    pub fn blank() -> (r: Self)
        ensures
            r@ == GroupSeedView::blank(),
    {
        GroupSeed { group_epoch: 0, target_epoch: 0, members: OrdMap::new(), target_per_member: OrdMap::new(), current_per_member: OrdMap::new() }
    }
}

/// What a key is bound to once it is written: the value, or nothing after a tombstone.
pub open spec fn bound<V>(m: Map<Seq<char>, V>, id: Seq<char>, value: Option<V>) -> Map<Seq<char>, V> {
    match value {
        Some(v) => m.insert(id, v),
        None => m.remove(id),
    }
}

/// The map once the entries are written, one after the other.
pub open spec fn folded<V>(m: Map<Seq<char>, V>, entries: Seq<(Seq<char>, Option<V>)>) -> Map<Seq<char>, V>
    decreases entries.len(),
{
    if entries.len() == 0 {
        m
    } else {
        bound(folded(m, entries.drop_last()), entries.last().0, entries.last().1)
    }
}

fn fold_into<T: Dup>(m: &mut OrdMap<String, T>, entries: &Vec<Entry<T>>)
    ensures
        final(m)@ == folded(old(m)@, views(entries@)),
{
    let ghost before = m@;
    let ghost all = views(entries@);
    let mut i: usize = 0;
    assert(all.take(0) =~= seq![]);
    while i < entries.len()
        invariant
            0 <= i <= entries@.len(),
            all == views(entries@),
            m@ == folded(before, all.take(i as int)),
        decreases entries@.len() - i,
    {
        let ghost next = all.take(i + 1);
        assert(next.drop_last() =~= all.take(i as int));
        assert(next.last() == entries@[i as int]@);
        match &entries[i].value {
            Some(v) => {
                m.insert(entries[i].member_id.clone(), v.dup());
            },
            None => {
                let _ = m.remove(&entries[i].member_id);
            },
        }
        i = i + 1;
    }
    assert(all.take(all.len() as int) =~= all);
}

/// The records of members.
pub open spec fn member_records(entries: Seq<(Seq<char>, Option<MemberMetadataView>)>) -> Seq<GroupRecordView> {
    Seq::new(
        entries.len(),
        |i: int| GroupRecordView::NextGen(NextGenRecordView::MemberMetadata { member_id: entries[i].0, value: entries[i].1 }),
    )
}

/// The records of targets.
pub open spec fn target_records(entries: Seq<(Seq<char>, Option<PartitionsView>)>) -> Seq<GroupRecordView> {
    Seq::new(
        entries.len(),
        |i: int| GroupRecordView::NextGen(NextGenRecordView::TargetAssignmentMember { member_id: entries[i].0, value: entries[i].1 }),
    )
}

/// The records of what members hold.
pub open spec fn current_records(entries: Seq<(Seq<char>, Option<CurrentAssignmentView>)>) -> Seq<GroupRecordView> {
    Seq::new(
        entries.len(),
        |i: int| GroupRecordView::NextGen(NextGenRecordView::CurrentMemberAssignment { member_id: entries[i].0, value: entries[i].1 }),
    )
}

/// One record or none.
pub open spec fn at_most_one(there: bool, r: GroupRecordView) -> Seq<GroupRecordView> {
    if there {
        seq![r]
    } else {
        seq![]
    }
}

impl PendingRecordsView {
    /// No change.
    pub open spec fn none() -> PendingRecordsView {
        PendingRecordsView {
            group_metadata: None,
            member_metadata: seq![],
            target_metadata: None,
            target_per_member: seq![],
            current_per_member: seq![],
            classic_group_metadata_tombstone: false,
            next_gen_group_metadata_tombstone: false,
            next_gen_target_metadata_tombstone: false,
            classic_group_metadata: None,
        }
    }

    /// Everything that is kept of `id` as a consumer group's member goes too.
    pub open spec fn and_gone(self, id: Seq<char>) -> PendingRecordsView {
        PendingRecordsView {
            member_metadata: self.member_metadata.push((id, None)),
            target_per_member: self.target_per_member.push((id, None)),
            current_per_member: self.current_per_member.push((id, None)),
            ..self
        }
    }

    /// Everything that is kept of each of `ids` goes too.
    pub open spec fn and_all_gone(self, ids: Seq<Seq<char>>) -> PendingRecordsView
        decreases ids.len(),
    {
        if ids.len() == 0 {
            self
        } else {
            self.and_all_gone(ids.drop_last()).and_gone(ids.last())
        }
    }

    /// The records, in the order they are written.
    pub open spec fn written(self) -> Seq<GroupRecordView> {
        at_most_one(self.group_metadata is Some, GroupRecordView::NextGen(NextGenRecordView::GroupMetadata { epoch: self.group_metadata }))
            + member_records(self.member_metadata)
            + at_most_one(
                self.target_metadata is Some,
                GroupRecordView::NextGen(NextGenRecordView::TargetAssignmentMetadata { assignment_epoch: self.target_metadata }),
            )
            + target_records(self.target_per_member)
            + current_records(self.current_per_member)
            + at_most_one(self.classic_group_metadata_tombstone, GroupRecordView::ClassicMetadata { value: None })
            + at_most_one(self.next_gen_group_metadata_tombstone, GroupRecordView::NextGen(NextGenRecordView::GroupMetadata { epoch: None }))
            + at_most_one(
                self.next_gen_target_metadata_tombstone,
                GroupRecordView::NextGen(NextGenRecordView::TargetAssignmentMetadata { assignment_epoch: None }),
            )
            + at_most_one(self.classic_group_metadata is Some, GroupRecordView::ClassicMetadata { value: self.classic_group_metadata })
    }

    /// The seed of the group once the delta is there.
    pub open spec fn applied(self, seed: GroupSeedView) -> GroupSeedView {
        GroupSeedView {
            group_epoch: if self.group_metadata is Some {
                self.group_metadata->0
            } else {
                seed.group_epoch
            },
            target_epoch: if self.next_gen_target_metadata_tombstone {
                0
            } else if self.target_metadata is Some {
                self.target_metadata->0
            } else {
                seed.target_epoch
            },
            members: folded(seed.members, self.member_metadata),
            target_per_member: folded(seed.target_per_member, self.target_per_member),
            current_per_member: folded(seed.current_per_member, self.current_per_member),
        }
    }
}

/// The seed of `group_id` among the seeds, or that of a group of which nothing is known.
pub open spec fn seed_of(seeds: Map<Seq<char>, GroupSeedView>, group_id: Seq<char>) -> GroupSeedView {
    if seeds.contains_key(group_id) {
        seeds[group_id]
    } else {
        GroupSeedView::blank()
    }
}

/// The seeds once the delta of `group_id` is there: a group that became classic has none.
pub open spec fn seeds_after(seeds: Map<Seq<char>, GroupSeedView>, group_id: Seq<char>, delta: PendingRecordsView) -> Map<Seq<char>, GroupSeedView> {
    if delta.next_gen_group_metadata_tombstone {
        seeds.remove(group_id)
    } else {
        seeds.insert(group_id, delta.applied(seed_of(seeds, group_id)))
    }
}

fn push_members(out: &mut Vec<GroupRecord>, entries: &Vec<Entry<MemberMetadataValue>>)
    ensures
        views(final(out)@) == views(old(out)@) + member_records(views(entries@)),
{
    let ghost before = views(out@);
    let ghost all = views(entries@);
    let mut i: usize = 0;
    assert(views(out@) =~= before + member_records(all).take(0));
    while i < entries.len()
        invariant
            0 <= i <= entries@.len(),
            all == views(entries@),
            views(out@) == before + member_records(all).take(i as int),
        decreases entries@.len() - i,
    {
        let ghost so_far = out@;
        let r = GroupRecord::NextGen(NextGenRecord::MemberMetadata { member_id: entries[i].member_id.clone(), value: dup_opt(&entries[i].value) });
        assert(r@ == member_records(all)[i as int]);
        out.push(r);
        assert(views(out@) =~= views(so_far).push(r@));
        assert(member_records(all).take(i + 1) =~= member_records(all).take(i as int).push(member_records(all)[i as int]));
        i = i + 1;
    }
    assert(member_records(all).take(all.len() as int) =~= member_records(all));
}

fn push_targets(out: &mut Vec<GroupRecord>, entries: &Vec<Entry<Partitions>>)
    ensures
        views(final(out)@) == views(old(out)@) + target_records(views(entries@)),
{
    let ghost before = views(out@);
    let ghost all = views(entries@);
    let mut i: usize = 0;
    assert(views(out@) =~= before + target_records(all).take(0));
    while i < entries.len()
        invariant
            0 <= i <= entries@.len(),
            all == views(entries@),
            views(out@) == before + target_records(all).take(i as int),
        decreases entries@.len() - i,
    {
        let ghost so_far = out@;
        let r = GroupRecord::NextGen(
            NextGenRecord::TargetAssignmentMember { member_id: entries[i].member_id.clone(), value: dup_opt(&entries[i].value) },
        );
        assert(r@ == target_records(all)[i as int]);
        out.push(r);
        assert(views(out@) =~= views(so_far).push(r@));
        assert(target_records(all).take(i + 1) =~= target_records(all).take(i as int).push(target_records(all)[i as int]));
        i = i + 1;
    }
    assert(target_records(all).take(all.len() as int) =~= target_records(all));
}

fn push_currents(out: &mut Vec<GroupRecord>, entries: &Vec<Entry<CurrentMemberAssignmentValue>>)
    ensures
        views(final(out)@) == views(old(out)@) + current_records(views(entries@)),
{
    let ghost before = views(out@);
    let ghost all = views(entries@);
    let mut i: usize = 0;
    assert(views(out@) =~= before + current_records(all).take(0));
    while i < entries.len()
        invariant
            0 <= i <= entries@.len(),
            all == views(entries@),
            views(out@) == before + current_records(all).take(i as int),
        decreases entries@.len() - i,
    {
        let ghost so_far = out@;
        let r = GroupRecord::NextGen(
            NextGenRecord::CurrentMemberAssignment { member_id: entries[i].member_id.clone(), value: dup_opt(&entries[i].value) },
        );
        assert(r@ == current_records(all)[i as int]);
        out.push(r);
        assert(views(out@) =~= views(so_far).push(r@));
        assert(current_records(all).take(i + 1) =~= current_records(all).take(i as int).push(current_records(all)[i as int]));
        i = i + 1;
    }
    assert(current_records(all).take(all.len() as int) =~= current_records(all));
}

fn push_if(out: &mut Vec<GroupRecord>, there: bool, r: GroupRecord)
    ensures
        views(final(out)@) == views(old(out)@) + at_most_one(there, r@),
{
    let ghost before = out@;
    if there {
        out.push(r);
        assert(views(out@) =~= views(before) + seq![r@]);
    } else {
        assert(views(out@) =~= views(before) + seq![]);
    }
}

impl PendingRecords {
    /// No change.
    pub fn none() -> (r: Self)
        ensures
            r@ == PendingRecordsView::none(),
    {
        let r = PendingRecords {
            group_metadata: None,
            member_metadata: Vec::new(),
            target_metadata: None,
            target_per_member: Vec::new(),
            current_per_member: Vec::new(),
            classic_group_metadata_tombstone: false,
            next_gen_group_metadata_tombstone: false,
            next_gen_target_metadata_tombstone: false,
            classic_group_metadata: None,
        };
        assert(r@ =~= PendingRecordsView::none());
        r
    }

    /// Whether there is nothing to write.
    pub fn is_empty(&self) -> (r: bool)
        ensures
            r == (self@.written().len() == 0),
            r == (self@ == PendingRecordsView::none()),
    {
        let r: bool = self.group_metadata.is_none() && self.member_metadata.len() == 0 && self.target_metadata.is_none()
            && self.target_per_member.len() == 0 && self.current_per_member.len() == 0 && !self.classic_group_metadata_tombstone
            && !self.next_gen_group_metadata_tombstone && !self.next_gen_target_metadata_tombstone && self.classic_group_metadata.is_none();
        proof {
            if r {
                assert(self@ =~= PendingRecordsView::none());
            } else if self@ == PendingRecordsView::none() {
                assert(self@.member_metadata.len() == 0);
                assert(self@.target_per_member.len() == 0);
                assert(self@.current_per_member.len() == 0);
            }
        }
        r
    }

    /// The delta as one batch.
    pub fn to_batch(&self, group_id: &String, now_ms: i64) -> (r: RecordBatch)
        ensures
            r@ == RecordBatchView::of(group_id@, self@.written(), now_ms),
    {
        let mut out: Vec<GroupRecord> = Vec::new();
        assert(views(out@) =~= seq![]);
        push_if(&mut out, self.group_metadata.is_some(), GroupRecord::NextGen(NextGenRecord::GroupMetadata { epoch: self.group_metadata }));
        push_members(&mut out, &self.member_metadata);
        push_if(
            &mut out,
            self.target_metadata.is_some(),
            GroupRecord::NextGen(NextGenRecord::TargetAssignmentMetadata { assignment_epoch: self.target_metadata }),
        );
        push_targets(&mut out, &self.target_per_member);
        push_currents(&mut out, &self.current_per_member);
        push_if(&mut out, self.classic_group_metadata_tombstone, GroupRecord::ClassicMetadata { value: None });
        push_if(&mut out, self.next_gen_group_metadata_tombstone, GroupRecord::NextGen(NextGenRecord::GroupMetadata { epoch: None }));
        push_if(
            &mut out,
            self.next_gen_target_metadata_tombstone,
            GroupRecord::NextGen(NextGenRecord::TargetAssignmentMetadata { assignment_epoch: None }),
        );
        push_if(
            &mut out,
            self.classic_group_metadata.is_some(),
            GroupRecord::ClassicMetadata { value: dup_opt(&self.classic_group_metadata) },
        );
        assert(views(out@) =~= self@.written());
        RecordBatch::of(group_id, out, now_ms)
    }

    /// Lets everything that is kept of a member go too.
    pub fn push_gone(&mut self, id: &String)
        ensures
            final(self)@ == old(self)@.and_gone(id@),
    {
        let ghost before = self@;
        self.member_metadata.push(Entry { member_id: id.clone(), value: None });
        self.target_per_member.push(Entry { member_id: id.clone(), value: None });
        self.current_per_member.push(Entry { member_id: id.clone(), value: None });
        assert(self@ =~= before.and_gone(id@));
    }

    /// Lets everything that is kept of each of `ids` go too.
    pub fn push_all_gone(&mut self, ids: &Vec<String>)
        ensures
            final(self)@ == old(self)@.and_all_gone(views(ids@)),
    {
        let ghost before = self@;
        let ghost all = views(ids@);
        let mut i: usize = 0;
        assert(all.take(0) =~= seq![]);
        while i < ids.len()
            invariant
                0 <= i <= ids@.len(),
                all == views(ids@),
                self@ == before.and_all_gone(all.take(i as int)),
            decreases ids@.len() - i,
        {
            let ghost next = all.take(i + 1);
            assert(next.drop_last() =~= all.take(i as int));
            assert(next.last() == ids@[i as int]@);
            self.push_gone(&ids[i]);
            i = i + 1;
        }
        assert(all.take(all.len() as int) =~= all);
    }

    /// Brings the delta to the seeds.
    pub fn apply_to_cache(&self, seeds: &mut OrdMap<String, GroupSeed>, group_id: &String)
        ensures
            final(seeds)@ == seeds_after(old(seeds)@, group_id@, self@),
    {
        let ghost before = seeds@;
        let found = seeds.remove(group_id);
        if self.next_gen_group_metadata_tombstone {
            return;
        }
        let mut seed = match found {
            Some(s) => s,
            None => GroupSeed::blank(),
        };
        if let Some(epoch) = self.group_metadata {
            seed.group_epoch = epoch;
        }
        fold_into(&mut seed.members, &self.member_metadata);
        if let Some(epoch) = self.target_metadata {
            seed.target_epoch = epoch;
        }
        if self.next_gen_target_metadata_tombstone {
            seed.target_epoch = 0;
        }
        fold_into(&mut seed.target_per_member, &self.target_per_member);
        fold_into(&mut seed.current_per_member, &self.current_per_member);
        assert(seed@ =~= self@.applied(seed_of(before, group_id@)));
        seeds.insert(group_id.clone(), seed);
        assert(seeds@ =~= seeds_after(before, group_id@, self@));
    }
}

} // verus!
