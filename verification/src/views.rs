//! What the admin requests read of a group.

use crate::classic_state::{ClassicGroup, ClassicGroupView, GroupState as ClassicGroupState, MemberView};
use crate::consumer_state::{GroupState, GroupStateView, MemberStateView, ReconcileInput, ReconcileInputView};
use crate::group::{CoordinatorGroup, CoordinatorGroupView, GroupKind, GroupKindView};
use crate::ordmap::{Dup, OrdMap, listing, views};
use crate::partitions::{Partitions, PartitionsView};
use crate::persistence::list_of;
use crate::text::{dup_opt_bytes, dup_opt_str, opt_bytes, opt_str};
use crate::wire::{assignment_blob, target_to_consumer_assignment};
use vstd::prelude::*;

verus! {

/// A member of a classic group as it is shown.
#[derive(Debug, PartialEq, Eq)]
pub struct ClassicMemberView {
    pub member_id: String,
    pub client_id: String,
    pub host: String,
    pub group_instance_id: Option<String>,
    pub protocol_metadata: Vec<u8>,
    pub assignment: Option<Vec<u8>>,
}

#[verifier::ext_equal]
pub struct ShownClassicMember {
    pub member_id: Seq<char>,
    pub client_id: Seq<char>,
    pub host: Seq<char>,
    pub group_instance_id: Option<Seq<char>>,
    pub protocol_metadata: Seq<u8>,
    pub assignment: Option<Seq<u8>>,
}

impl View for ClassicMemberView {
    type V = ShownClassicMember;

    open spec fn view(&self) -> ShownClassicMember {
        ShownClassicMember {
            member_id: self.member_id@,
            client_id: self.client_id@,
            host: self.host@,
            group_instance_id: opt_str(self.group_instance_id),
            protocol_metadata: self.protocol_metadata@,
            assignment: opt_bytes(self.assignment),
        }
    }
}

/// A classic group as it is shown.
#[derive(Debug, PartialEq, Eq)]
pub struct ClassicView {
    pub group_id: String,
    pub state: ClassicGroupState,
    pub protocol_type: Option<String>,
    pub protocol_name: Option<String>,
    pub generation_id: i32,
    pub members: Vec<ClassicMemberView>,
}

#[verifier::ext_equal]
pub struct ShownClassic {
    pub group_id: Seq<char>,
    pub state: ClassicGroupState,
    pub protocol_type: Option<Seq<char>>,
    pub protocol_name: Option<Seq<char>>,
    pub generation_id: i32,
    pub members: Seq<ShownClassicMember>,
}

impl View for ClassicView {
    type V = ShownClassic;

    open spec fn view(&self) -> ShownClassic {
        ShownClassic {
            group_id: self.group_id@,
            state: self.state,
            protocol_type: opt_str(self.protocol_type),
            protocol_name: opt_str(self.protocol_name),
            generation_id: self.generation_id,
            members: views(self.members@),
        }
    }
}

/// A member as `DescribeGroups` reports it.
#[derive(Debug, PartialEq, Eq)]
pub struct MemberSnapshot {
    pub member_id: String,
    pub client_id: String,
    pub client_host: String,
    pub assignment: Vec<u8>,
    pub protocol_metadata: Vec<u8>,
}

#[verifier::ext_equal]
pub struct MemberSnapshotView {
    pub member_id: Seq<char>,
    pub client_id: Seq<char>,
    pub client_host: Seq<char>,
    pub assignment: Seq<u8>,
    pub protocol_metadata: Seq<u8>,
}

impl View for MemberSnapshot {
    type V = MemberSnapshotView;

    open spec fn view(&self) -> MemberSnapshotView {
        MemberSnapshotView {
            member_id: self.member_id@,
            client_id: self.client_id@,
            client_host: self.client_host@,
            assignment: self.assignment@,
            protocol_metadata: self.protocol_metadata@,
        }
    }
}

/// A group as `ListGroups` and `DescribeGroups` report it.
#[derive(Debug, PartialEq, Eq)]
pub struct GroupSnapshot {
    pub group_id: String,
    pub state: ClassicGroupState,
    pub protocol_type: Option<String>,
    pub protocol_name: Option<String>,
    pub generation_id: i32,
    pub members: Vec<MemberSnapshot>,
}

#[verifier::ext_equal]
pub struct GroupSnapshotView {
    pub group_id: Seq<char>,
    pub state: ClassicGroupState,
    pub protocol_type: Option<Seq<char>>,
    pub protocol_name: Option<Seq<char>>,
    pub generation_id: i32,
    pub members: Seq<MemberSnapshotView>,
}

impl View for GroupSnapshot {
    type V = GroupSnapshotView;

    open spec fn view(&self) -> GroupSnapshotView {
        GroupSnapshotView {
            group_id: self.group_id@,
            state: self.state,
            protocol_type: opt_str(self.protocol_type),
            protocol_name: opt_str(self.protocol_name),
            generation_id: self.generation_id,
            members: views(self.members@),
        }
    }
}

/// A member of a consumer group as `ConsumerGroupDescribe` reports it.
#[derive(Debug, PartialEq, Eq)]
pub struct DescribeMember {
    pub member_id: String,
    pub instance_id: Option<String>,
    pub member_epoch: i32,
    pub client_id: String,
    pub client_host: String,
    pub subscribed_topic_names: Vec<String>,
    pub assigned_partitions: Partitions,
    /// Whether the member speaks the classic protocol.
    pub is_classic: bool,
}

#[verifier::ext_equal]
pub struct ShownMember {
    pub member_id: Seq<char>,
    pub instance_id: Option<Seq<char>>,
    pub member_epoch: i32,
    pub client_id: Seq<char>,
    pub client_host: Seq<char>,
    pub subscribed_topic_names: Seq<Seq<char>>,
    pub assigned_partitions: PartitionsView,
    pub is_classic: bool,
}

impl View for DescribeMember {
    type V = ShownMember;

    open spec fn view(&self) -> ShownMember {
        ShownMember {
            member_id: self.member_id@,
            instance_id: opt_str(self.instance_id),
            member_epoch: self.member_epoch,
            client_id: self.client_id@,
            client_host: self.client_host@,
            subscribed_topic_names: views(self.subscribed_topic_names@),
            assigned_partitions: self.assigned_partitions@,
            is_classic: self.is_classic,
        }
    }
}

/// A consumer group as `ConsumerGroupDescribe` reports it.
#[derive(Debug, PartialEq, Eq)]
pub struct DescribeView {
    pub group_id: String,
    pub group_epoch: i32,
    pub assignment_epoch: i32,
    pub members: Vec<DescribeMember>,
}

#[verifier::ext_equal]
pub struct ShownGroup {
    pub group_id: Seq<char>,
    pub group_epoch: i32,
    pub assignment_epoch: i32,
    pub members: Seq<ShownMember>,
}

impl View for DescribeView {
    type V = ShownGroup;

    open spec fn view(&self) -> ShownGroup {
        ShownGroup {
            group_id: self.group_id@,
            group_epoch: self.group_epoch,
            assignment_epoch: self.assignment_epoch,
            members: views(self.members@),
        }
    }
}

/// A classic member as it is shown.
pub open spec fn shown_classic_member(m: MemberView) -> ShownClassicMember {
    ShownClassicMember {
        member_id: m.id,
        client_id: m.client_id,
        host: m.client_host,
        group_instance_id: m.group_instance_id,
        protocol_metadata: m.protocol_metadata,
        assignment: m.assignment,
    }
}

/// A classic group as it is shown, its members in the order of their ids.
pub open spec fn shown_classic(g: ClassicGroupView) -> ShownClassic {
    let ids = listing::<String>(g.members.dom());
    ShownClassic {
        group_id: g.group_id,
        state: g.state,
        protocol_type: g.protocol_type,
        protocol_name: g.protocol_name,
        generation_id: g.generation_id,
        members: Seq::new(ids.len(), |i: int| shown_classic_member(g.members[ids[i]])),
    }
}

/// A shown classic member as it is reported.
pub open spec fn reported_member(m: ShownClassicMember) -> MemberSnapshotView {
    MemberSnapshotView {
        member_id: m.member_id,
        client_id: m.client_id,
        client_host: m.host,
        assignment: match m.assignment {
            Some(bytes) => bytes,
            None => seq![],
        },
        protocol_metadata: m.protocol_metadata,
    }
}

/// A shown classic group as it is reported.
pub open spec fn reported_classic(v: ShownClassic) -> GroupSnapshotView {
    GroupSnapshotView {
        group_id: v.group_id,
        state: v.state,
        protocol_type: v.protocol_type,
        protocol_name: v.protocol_name,
        generation_id: v.generation_id,
        members: Seq::new(v.members.len(), |i: int| reported_member(v.members[i])),
    }
}

/// A consumer group as the classic requests report it: stable, in the generation of its epoch, each
/// member with its target.
pub open spec fn reported_consumer(g: GroupStateView, image: ReconcileInputView) -> GroupSnapshotView {
    let ids = listing::<String>(g.members.dom());
    GroupSnapshotView {
        group_id: g.group_id,
        state: ClassicGroupState::Stable,
        protocol_type: Some("consumer"@),
        protocol_name: None,
        generation_id: g.group_epoch,
        members: Seq::new(
            ids.len(),
            |i: int|
                MemberSnapshotView {
                    member_id: g.members[ids[i]].member_id,
                    client_id: g.members[ids[i]].client_id,
                    client_host: g.members[ids[i]].client_host,
                    assignment: assignment_blob(g.target_of(g.members[ids[i]].member_id), image),
                    protocol_metadata: seq![],
                },
        ),
    }
}

/// A group as `DescribeGroups` reports it.
pub open spec fn reported_group(g: CoordinatorGroupView, image: ReconcileInputView) -> GroupSnapshotView {
    match g.kind {
        GroupKindView::Classic(state) => reported_classic(shown_classic(state)),
        GroupKindView::Consumer(state) => reported_consumer(state, image),
    }
}

/// A member of a consumer group as it is described.
pub open spec fn described_member(m: MemberStateView) -> ShownMember {
    ShownMember {
        member_id: m.member_id,
        instance_id: m.instance_id,
        member_epoch: m.member_epoch,
        client_id: m.client_id,
        client_host: m.client_host,
        subscribed_topic_names: listing::<String>(m.subscribed_topic_names),
        assigned_partitions: m.assigned_partitions,
        is_classic: m.classic is Some,
    }
}

/// A consumer group as it is described, its members in the order of their ids.
pub open spec fn described(g: GroupStateView) -> ShownGroup {
    let ids = listing::<String>(g.members.dom());
    ShownGroup {
        group_id: g.group_id,
        group_epoch: g.group_epoch,
        assignment_epoch: g.target_epoch,
        members: Seq::new(ids.len(), |i: int| described_member(g.members[ids[i]])),
    }
}

/// A classic group as it is shown.
pub fn build_classic_view(state: &ClassicGroup) -> (r: ClassicView)
    ensures
        r@ == shown_classic(state@),
{
    let ghost g = state@;
    let n: usize = state.members.len();
    let ghost ids = state.members.keys();
    let mut members: Vec<ClassicMemberView> = Vec::new();
    let mut i: usize = 0;
    while i < n
        invariant
            0 <= i <= n,
            n == ids.len(),
            ids == state.members.keys(),
            g == state@,
            members@.len() == i,
            forall|j: int| 0 <= j < i ==> (#[trigger] members@[j])@ == shown_classic_member(g.members[ids[j]]),
        decreases n - i,
    {
        let m = state.members.value_at(i);
        members.push(
            ClassicMemberView {
                member_id: m.id.clone(),
                client_id: m.client_id.clone(),
                host: m.client_host.clone(),
                group_instance_id: dup_opt_str(&m.group_instance_id),
                protocol_metadata: m.protocol_metadata.dup(),
                assignment: dup_opt_bytes(&m.assignment),
            },
        );
        i = i + 1;
    }
    assert(views(members@) =~= shown_classic(g).members);
    ClassicView {
        group_id: state.group_id.clone(),
        state: state.state,
        protocol_type: dup_opt_str(&state.protocol_type),
        protocol_name: dup_opt_str(&state.protocol_name),
        generation_id: state.generation_id,
        members,
    }
}

impl ClassicView {
    /// The group as `ListGroups` and `DescribeGroups` report it.
    pub fn snapshot(&self) -> (r: GroupSnapshot)
        ensures
            r@ == reported_classic(self@),
    {
        let ghost v = self@;
        let mut members: Vec<MemberSnapshot> = Vec::new();
        let mut i: usize = 0;
        while i < self.members.len()
            invariant
                0 <= i <= self.members@.len(),
                v == self@,
                members@.len() == i,
                forall|j: int| 0 <= j < i ==> (#[trigger] members@[j])@ == reported_member(v.members[j]),
            decreases self.members@.len() - i,
        {
            let m = &self.members[i];
            let assignment: Vec<u8> = match &m.assignment {
                Some(bytes) => bytes.dup(),
                None => Vec::new(),
            };
            assert(assignment@ =~= reported_member(m@).assignment);
            members.push(
                MemberSnapshot {
                    member_id: m.member_id.clone(),
                    client_id: m.client_id.clone(),
                    client_host: m.host.clone(),
                    assignment,
                    protocol_metadata: m.protocol_metadata.dup(),
                },
            );
            i = i + 1;
        }
        assert(views(members@) =~= reported_classic(v).members);
        GroupSnapshot {
            group_id: self.group_id.clone(),
            state: self.state,
            protocol_type: dup_opt_str(&self.protocol_type),
            protocol_name: dup_opt_str(&self.protocol_name),
            generation_id: self.generation_id,
            members,
        }
    }
}

fn target_bytes(state: &GroupState, id: &String, image: &ReconcileInput) -> (r: Vec<u8>)
    ensures
        r@ == assignment_blob(state@.target_of(id@), image@),
{
    let none: Partitions = OrdMap::new();
    let target: &Partitions = match state.target.per_member.get(id) {
        Some(t) => t,
        None => &none,
    };
    assert(target@ =~= state@.target_of(id@));
    target_to_consumer_assignment(target, image)
}

/// A consumer group as the classic requests report it.
pub fn build_consumer_snapshot(state: &GroupState, image: &ReconcileInput) -> (r: GroupSnapshot)
    ensures
        r@ == reported_consumer(state@, image@),
{
    let ghost g = state@;
    let ghost expected = reported_consumer(g, image@).members;
    let n: usize = state.members.len();
    let ghost ids = state.members.keys();
    let mut members: Vec<MemberSnapshot> = Vec::new();
    let mut i: usize = 0;
    while i < n
        invariant
            0 <= i <= n,
            n == ids.len(),
            ids == state.members.keys(),
            g == state@,
            ids == listing::<String>(g.members.dom()),
            expected == reported_consumer(g, image@).members,
            members@.len() == i,
            forall|j: int| 0 <= j < i ==> (#[trigger] members@[j])@ == expected[j],
        decreases n - i,
    {
        let m = state.members.value_at(i);
        let nothing: Vec<u8> = Vec::new();
        assert(nothing@ =~= seq![]);
        let shown = MemberSnapshot {
            member_id: m.member_id.clone(),
            client_id: m.client_id.clone(),
            client_host: m.client_host.clone(),
            assignment: target_bytes(state, &m.member_id, image),
            protocol_metadata: nothing,
        };
        assert(shown@ =~= expected[i as int]);
        members.push(shown);
        i = i + 1;
    }
    assert(views(members@) =~= expected);
    GroupSnapshot {
        group_id: state.group_id.clone(),
        state: ClassicGroupState::Stable,
        protocol_type: Some("consumer".to_owned()),
        protocol_name: None,
        generation_id: state.group_epoch,
        members,
    }
}

/// A group as `DescribeGroups` reports it, in whichever protocol it speaks.
pub fn inspect_any(group: &CoordinatorGroup, image: &ReconcileInput) -> (r: GroupSnapshot)
    ensures
        r@ == reported_group(group@, image@),
{
    match &group.kind {
        GroupKind::Classic(state) => build_classic_view(state).snapshot(),
        GroupKind::Consumer(state) => build_consumer_snapshot(state, image),
    }
}

/// A consumer group as `ConsumerGroupDescribe` reports it.
pub fn build_describe(state: &GroupState) -> (r: DescribeView)
    ensures
        r@ == described(state@),
{
    let ghost g = state@;
    let n: usize = state.members.len();
    let ghost ids = state.members.keys();
    let mut members: Vec<DescribeMember> = Vec::new();
    let mut i: usize = 0;
    while i < n
        invariant
            0 <= i <= n,
            n == ids.len(),
            ids == state.members.keys(),
            g == state@,
            members@.len() == i,
            forall|j: int| 0 <= j < i ==> (#[trigger] members@[j])@ == described_member(g.members[ids[j]]),
        decreases n - i,
    {
        let m = state.members.value_at(i);
        members.push(
            DescribeMember {
                member_id: m.member_id.clone(),
                instance_id: dup_opt_str(&m.instance_id),
                member_epoch: m.member_epoch,
                client_id: m.client_id.clone(),
                client_host: m.client_host.clone(),
                subscribed_topic_names: list_of(&m.subscribed_topic_names),
                assigned_partitions: m.assigned_partitions.dup(),
                is_classic: m.is_classic(),
            },
        );
        i = i + 1;
    }
    assert(views(members@) =~= described(g).members);
    DescribeView {
        group_id: state.group_id.clone(),
        group_epoch: state.group_epoch,
        assignment_epoch: state.target.epoch,
        members,
    }
}

} // verus!
