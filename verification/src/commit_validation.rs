//! Which offset commits a group lets through.

use crate::classic_sync::{committer_refreshed, offset_commit_check, refresh_committer_session, txn_commit_error, validate_commit, validate_offset_commit};
use crate::codes;
use crate::consumer_state::{GroupState, GroupStateView};
use crate::group::{CoordinatorGroup, CoordinatorGroupView, GroupKind, GroupKindView};
use crate::text::opt_str;
use vstd::prelude::*;

verus! {

/// The first `OffsetCommit` version that a member of the consumer protocol may use.
pub const FIRST_CONSUMER_PROTOCOL_COMMIT_VERSION: i16 = 9;

/// The request whose rule is to be applied.
#[derive(Clone, Copy, Debug, PartialEq, Eq, Structural)]
pub enum CommitFence {
    /// `OffsetCommit` at this version.
    Offset { api_version: i16 },
    /// `TxnOffsetCommit`.
    Transactional,
}

/// The rule of `OffsetCommit` on a consumer group. A negative epoch commits where there are no
/// members. Else the committer is a member, a member of the consumer protocol uses a version that
/// knows epochs, and the epoch is the member's own.
pub open spec fn consumer_commit_check(g: GroupStateView, id: Seq<char>, member_epoch: i32, api_version: i16) -> Result<(), i16> {
    if member_epoch < 0 && g.members.dom() =~= Set::<Seq<char>>::empty() {
        Ok(())
    } else if !g.members.contains_key(id) {
        Err(codes::UNKNOWN_MEMBER_ID)
    } else if g.members[id].classic is None && api_version < FIRST_CONSUMER_PROTOCOL_COMMIT_VERSION {
        Err(codes::UNSUPPORTED_VERSION)
    } else if member_epoch == g.members[id].member_epoch {
        Ok(())
    } else if g.members[id].classic is Some {
        Err(codes::ILLEGAL_GENERATION)
    } else {
        Err(codes::STALE_MEMBER_EPOCH)
    }
}

/// The rule of `TxnOffsetCommit` on a consumer group: the committer is a member and the epoch is
/// its own.
pub open spec fn consumer_txn_check(g: GroupStateView, id: Seq<char>, member_epoch: i32) -> Result<(), i16> {
    if !g.members.contains_key(id) {
        Err(codes::UNKNOWN_MEMBER_ID)
    } else if member_epoch < g.members[id].member_epoch {
        Err(codes::STALE_MEMBER_EPOCH)
    } else if member_epoch > g.members[id].member_epoch {
        Err(codes::FENCED_MEMBER_EPOCH)
    } else {
        Ok(())
    }
}

/// What a group answers a commit, and the group after it: a classic group that lets an
/// `OffsetCommit` through has heard of the committer.
pub open spec fn commit_checked(
    g: CoordinatorGroupView,
    id: Seq<char>,
    instance: Option<Seq<char>>,
    epoch: i32,
    fence: CommitFence,
    now: u64,
) -> (CoordinatorGroupView, Result<(), i16>) {
    match (fence, g.kind) {
        (CommitFence::Offset { api_version }, GroupKindView::Consumer(state)) => (g, consumer_commit_check(state, id, epoch, api_version)),
        (CommitFence::Offset { .. }, GroupKindView::Classic(state)) => match offset_commit_check(state, id, instance, epoch) {
            Ok(()) => (CoordinatorGroupView { kind: GroupKindView::Classic(committer_refreshed(state, id, now)), ..g }, Ok(())),
            Err(code) => (g, Err(code)),
        },
        (CommitFence::Transactional, GroupKindView::Consumer(state)) => (g, consumer_txn_check(state, id, epoch)),
        (CommitFence::Transactional, GroupKindView::Classic(state)) => (
            g,
            match txn_commit_error(state, id, instance, epoch) {
                Some(code) => Err(code),
                None => Ok(()),
            },
        ),
    }
}

/// The rule of `OffsetCommit` on a consumer group.
pub fn validate_consumer_offset_commit(state: &GroupState, member_id: &String, member_epoch: i32, api_version: i16) -> (r: Result<(), i16>)
    ensures
        r == consumer_commit_check(state@, member_id@, member_epoch, api_version),
{
    let no_members: bool = state.members.is_empty();
    assert(no_members == (state@.members.dom() =~= Set::<Seq<char>>::empty())) by {
        if state@.members.dom() =~= Set::<Seq<char>>::empty() {
            assert(state@.members =~= Map::empty());
        }
    }
    if member_epoch < 0 && no_members {
        return Ok(());
    }
    match state.members.get(member_id) {
        None => Err(codes::UNKNOWN_MEMBER_ID),
        Some(member) => {
            let classic: bool = member.is_classic();
            if !classic && api_version < FIRST_CONSUMER_PROTOCOL_COMMIT_VERSION {
                Err(codes::UNSUPPORTED_VERSION)
            } else if member_epoch == member.member_epoch {
                Ok(())
            } else if classic {
                Err(codes::ILLEGAL_GENERATION)
            } else {
                Err(codes::STALE_MEMBER_EPOCH)
            }
        },
    }
}

impl GroupState {
    /// The rule of `TxnOffsetCommit`.
    pub fn validate_commit_decision(&self, member_id: &String, member_epoch: i32) -> (r: Result<(), i16>)
        ensures
            r == consumer_txn_check(self@, member_id@, member_epoch),
    {
        match self.members.get(member_id) {
            None => Err(codes::UNKNOWN_MEMBER_ID),
            Some(member) => {
                if member_epoch < member.member_epoch {
                    Err(codes::STALE_MEMBER_EPOCH)
                } else if member_epoch > member.member_epoch {
                    Err(codes::FENCED_MEMBER_EPOCH)
                } else {
                    Ok(())
                }
            },
        }
    }
}

/// Whether the group lets a commit through, by the protocol that it speaks now.
pub fn validate_commit_message(
    group: &mut CoordinatorGroup,
    member_id: &String,
    group_instance_id: &Option<String>,
    generation_or_epoch: i32,
    fence: CommitFence,
    now: u64,
) -> (r: Result<(), i16>)
    ensures
        (final(group)@, r) == commit_checked(old(group)@, member_id@, opt_str(*group_instance_id), generation_or_epoch, fence, now),
{
    match fence {
        CommitFence::Offset { api_version } => match &mut group.kind {
            GroupKind::Consumer(state) => validate_consumer_offset_commit(state, member_id, generation_or_epoch, api_version),
            GroupKind::Classic(state) => match validate_offset_commit(state, member_id, group_instance_id, generation_or_epoch) {
                Ok(()) => {
                    refresh_committer_session(state, member_id, now);
                    Ok(())
                },
                Err(code) => Err(code),
            },
        },
        CommitFence::Transactional => match &group.kind {
            GroupKind::Consumer(state) => state.validate_commit_decision(member_id, generation_or_epoch),
            GroupKind::Classic(state) => match validate_commit(state, member_id, group_instance_id, generation_or_epoch) {
                Some(code) => Err(code),
                None => Ok(()),
            },
        },
    }
}

} // verus!
