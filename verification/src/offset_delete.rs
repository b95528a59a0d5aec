//! Which offsets of a group `OffsetDelete` must keep: those of the topics that it subscribes to.

use crate::classic_state::{ClassicGroup, ClassicGroupView, GroupState as ClassicGroupState};
use crate::codes;
use crate::consumer_state::{GroupState, GroupStateView};
use crate::group::{CoordinatorGroup, CoordinatorGroupView, GroupKind, GroupKindView};
use crate::ordmap::{Dup, OrdSet, views};
use crate::text::opt_is;
use crate::wire::{decode_subscribed_topics, subscription_topics};
use vstd::prelude::*;

verus! {

/// The topics whose offsets `OffsetDelete` must not remove.
#[derive(Debug, PartialEq, Eq)]
pub enum SubscribedTopics {
    /// Every topic: the group's subscriptions cannot be read.
    All,
    /// Exactly these topics.
    Named(OrdSet<String>),
}

#[verifier::ext_equal]
pub enum SubscribedTopicsView {
    All,
    Named(Set<Seq<char>>),
}

impl View for SubscribedTopics {
    type V = SubscribedTopicsView;

    open spec fn view(&self) -> SubscribedTopicsView {
        match self {
            SubscribedTopics::All => SubscribedTopicsView::All,
            SubscribedTopics::Named(topics) => SubscribedTopicsView::Named(topics@),
        }
    }
}

impl SubscribedTopicsView {
    /// Whether the group subscribes to `topic`.
    pub open spec fn contains(self, topic: Seq<char>) -> bool {
        match self {
            SubscribedTopicsView::All => true,
            SubscribedTopicsView::Named(topics) => topics.contains(topic),
        }
    }
}

impl SubscribedTopics {
    /// Whether the group subscribes to `topic`.
    pub fn contains(&self, topic: &str) -> (r: bool)
        ensures
            r == self@.contains(topic@),
    {
        match self {
            SubscribedTopics::All => true,
            SubscribedTopics::Named(topics) => {
                let name: String = topic.to_owned();
                topics.contains(&name)
            },
        }
    }
}

/// Whether the subscription of every member can be read.
pub open spec fn all_readable(g: ClassicGroupView) -> bool {
    forall|id: Seq<char>| #[trigger] g.members.contains_key(id) ==> subscription_topics(g.members[id].protocol_metadata) is Some
}

/// The topics in the members' metadata.
pub open spec fn members_topics(g: ClassicGroupView) -> Set<Seq<char>> {
    Set::new(
        |t: Seq<char>|
            exists|id: Seq<char>|
                #[trigger] g.members.contains_key(id) && subscription_topics(g.members[id].protocol_metadata)->0.contains(t),
    )
}

/// What a classic group answers: an empty one subscribes to nothing, one with members that is no
/// group of consumers refuses, and one whose subscriptions cannot be read subscribes to all.
pub open spec fn classic_topics(g: ClassicGroupView) -> Result<SubscribedTopicsView, i16> {
    if g.state == ClassicGroupState::Empty || g.members.dom() =~= Set::<Seq<char>>::empty() {
        Ok(SubscribedTopicsView::Named(Set::empty()))
    } else if g.protocol_type != Some("consumer"@) {
        Err(codes::NON_EMPTY_GROUP)
    } else if g.protocol_name is None || !all_readable(g) {
        Ok(SubscribedTopicsView::All)
    } else {
        Ok(SubscribedTopicsView::Named(members_topics(g)))
    }
}

/// The topics that the members of a consumer group subscribe to, by name or by pattern.
pub open spec fn consumer_topics(g: GroupStateView) -> Set<Seq<char>> {
    Set::new(|t: Seq<char>| exists|id: Seq<char>| #[trigger] g.members.contains_key(id) && g.members[id].wants(t))
}

/// What a group answers: the error, or the topics that it subscribes to.
pub open spec fn guarded(g: CoordinatorGroupView) -> Result<SubscribedTopicsView, i16> {
    match g.kind {
        GroupKindView::Classic(state) => classic_topics(state),
        GroupKindView::Consumer(state) => Ok(SubscribedTopicsView::Named(consumer_topics(state))),
    }
}

/// What a result of the guard stands for.
pub open spec fn guard_view(r: Result<SubscribedTopics, i16>) -> Result<SubscribedTopicsView, i16> {
    match r {
        Ok(t) => Ok(t@),
        Err(code) => Err(code),
    }
}

/// The group-level error, or the topics that the group subscribes to.
pub fn offset_delete_guard(group: &CoordinatorGroup) -> (r: Result<SubscribedTopics, i16>)
    ensures
        guard_view(r) == guarded(group@),
{
    match &group.kind {
        GroupKind::Classic(state) => classic_guard(state),
        GroupKind::Consumer(state) => Ok(consumer_subscribed_topics(state)),
    }
}

/// Adds the names of a list to a set.
fn add_names(set: &mut OrdSet<String>, names: &Vec<String>)
    ensures
        final(set)@ == old(set)@.union(views(names@).to_set()),
{
    let ghost was = set@;
    let ghost all = views(names@);
    let mut i: usize = 0;
    while i < names.len()
        invariant
            0 <= i <= names@.len(),
            all == views(names@),
            forall|k: Seq<char>| #[trigger] set@.contains(k) ==> was.contains(k) || all.contains(k),
            forall|k: Seq<char>| was.contains(k) ==> #[trigger] set@.contains(k),
            forall|j: int| 0 <= j < i ==> set@.contains(#[trigger] all[j]),
        decreases names@.len() - i,
    {
        assert(all[i as int] == names@[i as int]@);
        set.insert(names[i].dup());
        i = i + 1;
    }
    assert forall|k: Seq<char>| all.to_set().contains(k) implies set@.contains(k) by {
        let j = choose|j: int| 0 <= j < all.len() && all[j] == k;
        assert(set@.contains(all[j]));
    }
    assert(set@ =~= was.union(all.to_set()));
}

/// What a classic group answers.
pub fn classic_guard(state: &ClassicGroup) -> (r: Result<SubscribedTopics, i16>)
    ensures
        guard_view(r) == classic_topics(state@),
{
    let ghost g = state@;
    let no_members: bool = state.members.is_empty();
    assert(no_members == (g.members.dom() =~= Set::<Seq<char>>::empty())) by {
        if g.members.dom() =~= Set::<Seq<char>>::empty() {
            assert(g.members =~= Map::empty());
        }
    }
    if state.state == ClassicGroupState::Empty || no_members {
        return Ok(SubscribedTopics::Named(OrdSet::new()));
    }
    if !opt_is(&state.protocol_type, "consumer") {
        return Err(codes::NON_EMPTY_GROUP);
    }
    if state.protocol_name.is_none() {
        return Ok(SubscribedTopics::All);
    }
    let mut topics: OrdSet<String> = OrdSet::new();
    let n: usize = state.members.len();
    let ghost ids = state.members.keys();
    let mut i: usize = 0;
    while i < n
        invariant
            0 <= i <= n,
            n == ids.len(),
            ids == state.members.keys(),
            state.members.listed(),
            g == state@,
            forall|j: int| 0 <= j < i ==> subscription_topics(g.members[#[trigger] ids[j]].protocol_metadata) is Some,
            forall|t: Seq<char>| #[trigger] topics@.contains(t) ==> members_topics(g).contains(t),
            forall|j: int, t: Seq<char>|
                0 <= j < i && #[trigger] subscription_topics(g.members[#[trigger] ids[j]].protocol_metadata)->0.contains(t) ==> topics@.contains(t),
            g.state != ClassicGroupState::Empty,
            !(g.members.dom() =~= Set::<Seq<char>>::empty()),
            g.protocol_type == Some("consumer"@),
            g.protocol_name is Some,
        decreases n - i,
    {
        let member = state.members.value_at(i);
        let ghost id = ids[i as int];
        assert(g.members.contains_key(id) && member@ == g.members[id]);
        match decode_subscribed_topics(&member.protocol_metadata) {
            None => {
                assert(!all_readable(g));
                return Ok(SubscribedTopics::All);
            },
            Some(names) => {
                let ghost before = topics@;
                add_names(&mut topics, &names);
                assert forall|t: Seq<char>| #[trigger] topics@.contains(t) implies members_topics(g).contains(t) by {
                    if !before.contains(t) {
                        assert(g.members.contains_key(id) && subscription_topics(g.members[id].protocol_metadata)->0.contains(t));
                    }
                }
            },
        }
        i = i + 1;
    }
    assert(all_readable(g)) by {
        assert forall|id: Seq<char>| #[trigger] g.members.contains_key(id) implies subscription_topics(g.members[id].protocol_metadata) is Some by {
            assert(state.members@.contains_key(id));
            let j = choose|j: int| 0 <= j < ids.len() && ids[j] == id;
            assert(subscription_topics(g.members[ids[j]].protocol_metadata) is Some);
        }
    }
    assert(topics@ =~= members_topics(g)) by {
        assert forall|t: Seq<char>| members_topics(g).contains(t) implies topics@.contains(t) by {
            let id = choose|id: Seq<char>| #[trigger] g.members.contains_key(id) && subscription_topics(g.members[id].protocol_metadata)->0.contains(t);
            assert(state.members@.contains_key(id));
            let j = choose|j: int| 0 <= j < ids.len() && ids[j] == id;
            assert(subscription_topics(g.members[ids[j]].protocol_metadata)->0.contains(t));
        }
    }
    Ok(SubscribedTopics::Named(topics))
}

/// The topics that the members of a consumer group subscribe to.
pub fn consumer_subscribed_topics(state: &GroupState) -> (r: SubscribedTopics)
    ensures
        r@ == SubscribedTopicsView::Named(consumer_topics(state@)),
{
    let ghost g = state@;
    let mut topics: OrdSet<String> = OrdSet::new();
    let n: usize = state.members.len();
    let ghost ids = state.members.keys();
    let mut i: usize = 0;
    while i < n
        invariant
            0 <= i <= n,
            n == ids.len(),
            ids == state.members.keys(),
            state.members.listed(),
            g == state@,
            forall|t: Seq<char>| #[trigger] topics@.contains(t) ==> consumer_topics(g).contains(t),
            forall|j: int, t: Seq<char>| 0 <= j < i && #[trigger] g.members[#[trigger] ids[j]].wants(t) ==> topics@.contains(t),
        decreases n - i,
    {
        let member = state.members.value_at(i);
        let ghost id = ids[i as int];
        assert(g.members.contains_key(id) && member@ == g.members[id]);
        let ghost before = topics@;
        let a: usize = member.subscribed_topic_names.len();
        let mut k: usize = 0;
        while k < a
            invariant
                0 <= k <= a,
                a == member.subscribed_topic_names.keys().len(),
                member.subscribed_topic_names.listed(),
                g.members.contains_key(id) && member@ == g.members[id],
                forall|t: Seq<char>| #[trigger] topics@.contains(t) ==> consumer_topics(g).contains(t),
                forall|t: Seq<char>| before.contains(t) ==> #[trigger] topics@.contains(t),
                forall|j: int| 0 <= j < k ==> topics@.contains(#[trigger] member.subscribed_topic_names.keys()[j]),
            decreases a - k,
        {
            let name = member.subscribed_topic_names.at(k);
            assert(g.members.contains_key(id) && g.members[id].wants(name@));
            topics.insert(name.dup());
            k = k + 1;
        }
        assert forall|t: Seq<char>| member@.subscribed_topic_names.contains(t) implies topics@.contains(t) by {
            let j = choose|j: int| 0 <= j < a && member.subscribed_topic_names.keys()[j] == t;
            assert(topics@.contains(member.subscribed_topic_names.keys()[j]));
        }
        let ghost named = topics@;
        let b: usize = member.regex_authorized_topics.len();
        k = 0;
        while k < b
            invariant
                0 <= k <= b,
                b == member.regex_authorized_topics.keys().len(),
                member.regex_authorized_topics.listed(),
                g.members.contains_key(id) && member@ == g.members[id],
                forall|t: Seq<char>| #[trigger] topics@.contains(t) ==> consumer_topics(g).contains(t),
                forall|t: Seq<char>| named.contains(t) ==> #[trigger] topics@.contains(t),
                forall|j: int|
                    0 <= j < k && member@.resolves(#[trigger] member.regex_authorized_topics.keys()[j]) ==> topics@.contains(
                        member.regex_authorized_topics.keys()[j],
                    ),
            decreases b - k,
        {
            let name = member.regex_authorized_topics.at(k);
            if member.resolves(name) {
                assert(g.members.contains_key(id) && g.members[id].wants(name@));
                topics.insert(name.dup());
            }
            k = k + 1;
        }
        assert forall|t: Seq<char>| member@.wants(t) implies topics@.contains(t) by {
            if member@.subscribed_topic_names.contains(t) {
                assert(named.contains(t));
            } else {
                assert(member@.regex_authorized_topics.contains(t));
                let j = choose|j: int| 0 <= j < b && member.regex_authorized_topics.keys()[j] == t;
                assert(member@.resolves(member.regex_authorized_topics.keys()[j]));
            }
        }
        assert forall|j: int, t: Seq<char>| 0 <= j < i + 1 && #[trigger] g.members[#[trigger] ids[j]].wants(t) implies topics@.contains(t) by {
            if j < i {
                assert(before.contains(t));
                assert(named.contains(t));
            }
        }
        i = i + 1;
    }
    assert(topics@ =~= consumer_topics(g)) by {
        assert forall|t: Seq<char>| consumer_topics(g).contains(t) implies topics@.contains(t) by {
            let id = choose|id: Seq<char>| #[trigger] g.members.contains_key(id) && g.members[id].wants(t);
            assert(state.members@.contains_key(id));
            let j = choose|j: int| 0 <= j < ids.len() && ids[j] == id;
            assert(g.members[ids[j]].wants(t));
        }
    }
    SubscribedTopics::Named(topics)
}

} // verus!
