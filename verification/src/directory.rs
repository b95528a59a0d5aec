//! What the coordinator knows of its groups beyond each group's own state.

use crate::ordmap::{Dup, OrdMap, OrdSet, views};
use crate::pending_records::{GroupSeed, GroupSeedView};
use crate::share_streams::{ShareGroupSeed, ShareGroupSeedView, StreamsGroupSeed, StreamsGroupSeedView};
use vstd::prelude::*;

verus! {

/// The protocol that a group id is bound to.
#[derive(Clone, Copy, Debug, PartialEq, Eq, Structural)]
pub enum GroupType {
    Classic,
    NextGen,
    Share,
    Streams,
}

impl View for GroupType {
    type V = GroupType;

    open spec fn view(&self) -> GroupType {
        *self
    }
}

impl Dup for GroupType {
    fn dup(&self) -> (r: Self) {
        *self
    }
}

/// The group ids by what they are bound to, and the seeds that groups are restored from.
#[derive(Debug, PartialEq, Eq)]
pub struct Directory {
    pub types: OrdMap<String, GroupType>,
    pub seeds: OrdMap<String, GroupSeed>,
    pub share_seeds: OrdMap<String, ShareGroupSeed>,
    pub streams_seeds: OrdMap<String, StreamsGroupSeed>,
    /// The ids that a share group is served under.
    pub share_groups: OrdSet<String>,
    /// The ids that a streams group is served under.
    pub streams_groups: OrdSet<String>,
}

#[verifier::ext_equal]
pub struct DirectoryView {
    pub types: Map<Seq<char>, GroupType>,
    pub seeds: Map<Seq<char>, GroupSeedView>,
    pub share_seeds: Map<Seq<char>, ShareGroupSeedView>,
    pub streams_seeds: Map<Seq<char>, StreamsGroupSeedView>,
    pub share_groups: Set<Seq<char>>,
    pub streams_groups: Set<Seq<char>>,
}

impl View for Directory {
    type V = DirectoryView;

    open spec fn view(&self) -> DirectoryView {
        DirectoryView {
            types: self.types@,
            seeds: self.seeds@,
            share_seeds: self.share_seeds@,
            streams_seeds: self.streams_seeds@,
            share_groups: self.share_groups@,
            streams_groups: self.streams_groups@,
        }
    }
}

impl DirectoryView {
    /// Whether the group under `id` knows its own members: share and streams groups keep them
    /// elsewhere, and would look empty.
    pub open spec fn sweepable(self, id: Seq<char>) -> bool {
        let elsewhere = self.types.contains_key(id) && (self.types[id] == GroupType::Share || self.types[id] == GroupType::Streams);
        !elsewhere && !self.share_groups.contains(id) && !self.streams_groups.contains(id)
    }

    /// The group became classic: its id is bound so, and its seed as a consumer group is gone.
    pub open spec fn with_classic(self, id: Seq<char>) -> DirectoryView {
        DirectoryView { types: self.types.insert(id, GroupType::Classic), seeds: self.seeds.remove(id), ..self }
    }

    /// No streams group is served under `id`, and none can be restored.
    pub open spec fn without_streams(self, id: Seq<char>) -> DirectoryView {
        DirectoryView { streams_groups: self.streams_groups.remove(id), streams_seeds: self.streams_seeds.remove(id), ..self }
    }

    /// No share group is served under `id`, and the id is no longer bound to one.
    pub open spec fn without_share(self, id: Seq<char>) -> DirectoryView {
        DirectoryView {
            share_groups: self.share_groups.remove(id),
            types: if self.types.contains_key(id) && self.types[id] == GroupType::Share {
                self.types.remove(id)
            } else {
                self.types
            },
            ..self
        }
    }

    /// Nothing is known of `id`.
    pub open spec fn without(self, id: Seq<char>) -> DirectoryView {
        DirectoryView { types: self.types.remove(id), seeds: self.seeds.remove(id), ..self }
    }
}

impl Directory {
    /// Nothing is known.
    pub fn new() -> (r: Self)
        ensures
            r@.types == Map::<Seq<char>, GroupType>::empty(),
            r@.seeds == Map::<Seq<char>, GroupSeedView>::empty(),
            r@.share_seeds == Map::<Seq<char>, ShareGroupSeedView>::empty(),
            r@.streams_seeds == Map::<Seq<char>, StreamsGroupSeedView>::empty(),
            r@.share_groups == Set::<Seq<char>>::empty(),
            r@.streams_groups == Set::<Seq<char>>::empty(),
    {
        Directory {
            types: OrdMap::new(),
            seeds: OrdMap::new(),
            share_seeds: OrdMap::new(),
            streams_seeds: OrdMap::new(),
            share_groups: OrdSet::new(),
            streams_groups: OrdSet::new(),
        }
    }

    /// What `id` is bound to.
    pub fn group_type(&self, id: &String) -> (r: Option<GroupType>)
        ensures
            r == (if self@.types.contains_key(id@) {
                Some(self@.types[id@])
            } else {
                None
            }),
    {
        match self.types.get(id) {
            Some(t) => Some(*t),
            None => None,
        }
    }

    /// Whether the group under `id` knows its own members.
    pub fn sweepable(&self, id: &String) -> (r: bool)
        ensures
            r == self@.sweepable(id@),
    {
        let elsewhere: bool = match self.group_type(id) {
            Some(GroupType::Share) | Some(GroupType::Streams) => true,
            Some(GroupType::Classic) | Some(GroupType::NextGen) | None => false,
        };
        !elsewhere && !self.share_groups.contains(id) && !self.streams_groups.contains(id)
    }

    /// The group became classic.
    pub fn mark_classic_after_downgrade(&mut self, id: &String)
        ensures
            final(self)@ == old(self)@.with_classic(id@),
    {
        self.types.insert(id.clone(), GroupType::Classic);
        let _ = self.seeds.remove(id);
    }

    /// Drops what is known of a streams group that is gone.
    pub fn forget_streams_group(&mut self, id: &String)
        ensures
            final(self)@ == old(self)@.without_streams(id@),
    {
        let _ = self.streams_groups.remove(id);
        let _ = self.streams_seeds.remove(id);
    }

    /// Drops what is known of a share group that is gone. Where another took its place under the id
    /// meanwhile, what is known is of that one and stays.
    pub fn forget_share_group(&mut self, id: &String, replaced: bool)
        ensures
            final(self)@ == if replaced {
                old(self)@
            } else {
                old(self)@.without_share(id@)
            },
    {
        if !replaced {
            let _ = self.share_groups.remove(id);
            if matches!(self.group_type(id), Some(GroupType::Share)) {
                let _ = self.types.remove(id);
            }
        }
    }

    /// Drops what is known of a group that is gone. Where another took its place under the id
    /// meanwhile, what is known is of that one and stays.
    pub fn forget_group(&mut self, id: &String, replaced: bool)
        ensures
            final(self)@ == if replaced {
                old(self)@
            } else {
                old(self)@.without(id@)
            },
    {
        if !replaced {
            let _ = self.types.remove(id);
            let _ = self.seeds.remove(id);
        }
    }
}

/// Those of `ids` that a retention pass looks at: owned here, and not a share or streams group.
pub open spec fn swept(dir: DirectoryView, ids: Seq<Seq<char>>, owned: Set<Seq<char>>) -> Seq<Seq<char>>
    decreases ids.len(),
{
    if ids.len() == 0 {
        seq![]
    } else {
        let before = swept(dir, ids.drop_last(), owned);
        if dir.sweepable(ids.last()) && owned.contains(ids.last()) {
            before.push(ids.last())
        } else {
            before
        }
    }
}

/// Those of `ids` that a retention pass looks at.
pub fn sweep_order(dir: &Directory, ids: &Vec<String>, owned: &OrdSet<String>) -> (r: Vec<String>)
    ensures
        views(r@) == swept(dir@, views(ids@), owned@),
{
    let ghost all = views(ids@);
    let mut out: Vec<String> = Vec::new();
    let mut i: usize = 0;
    assert(all.take(0) =~= seq![]);
    assert(views(out@) =~= seq![]);
    while i < ids.len()
        invariant
            0 <= i <= ids@.len(),
            all == views(ids@),
            views(out@) == swept(dir@, all.take(i as int), owned@),
        decreases ids@.len() - i,
    {
        let ghost next = all.take(i + 1);
        assert(next.drop_last() =~= all.take(i as int));
        assert(next.last() == ids@[i as int]@);
        if dir.sweepable(&ids[i]) && owned.contains(&ids[i]) {
            let ghost before = out@;
            out.push(ids[i].clone());
            assert(views(out@) =~= views(before).push(next.last()));
        }
        i = i + 1;
    }
    assert(all.take(all.len() as int) =~= all);
    out
}

} // verus!
