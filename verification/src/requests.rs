//! What the classic requests ask and what they are answered.

use crate::classic_state::{Protocol, ProtocolView, dup_protocols};
use crate::ordmap::{Dup, views};
use crate::text::{dup_opt_str, opt_str};
use vstd::prelude::*;

verus! {

#[derive(Debug, PartialEq, Eq)]
pub struct JoinGroupRequest {
    pub group_id: String,
    pub session_timeout_ms: i32,
    pub rebalance_timeout_ms: i32,
    pub member_id: String,
    pub group_instance_id: Option<String>,
    pub protocol_type: String,
    pub protocols: Vec<Protocol>,
}

#[verifier::ext_equal]
pub struct JoinGroupRequestView {
    pub group_id: Seq<char>,
    pub session_timeout_ms: i32,
    pub rebalance_timeout_ms: i32,
    pub member_id: Seq<char>,
    pub group_instance_id: Option<Seq<char>>,
    pub protocol_type: Seq<char>,
    pub protocols: Seq<ProtocolView>,
}

impl View for JoinGroupRequest {
    type V = JoinGroupRequestView;

    open spec fn view(&self) -> JoinGroupRequestView {
        JoinGroupRequestView {
            group_id: self.group_id@,
            session_timeout_ms: self.session_timeout_ms,
            rebalance_timeout_ms: self.rebalance_timeout_ms,
            member_id: self.member_id@,
            group_instance_id: opt_str(self.group_instance_id),
            protocol_type: self.protocol_type@,
            protocols: views(self.protocols@),
        }
    }
}

impl Dup for JoinGroupRequest {
    fn dup(&self) -> (r: Self) {
        JoinGroupRequest {
            group_id: self.group_id.clone(),
            session_timeout_ms: self.session_timeout_ms,
            rebalance_timeout_ms: self.rebalance_timeout_ms,
            member_id: self.member_id.clone(),
            group_instance_id: dup_opt_str(&self.group_instance_id),
            protocol_type: self.protocol_type.clone(),
            protocols: dup_protocols(&self.protocols),
        }
    }
}

#[derive(Debug, PartialEq, Eq)]
pub struct SyncGroupRequestAssignment {
    pub member_id: String,
    pub assignment: Vec<u8>,
}

#[derive(Debug, PartialEq, Eq)]
pub struct SyncGroupRequest {
    pub group_id: String,
    pub generation_id: i32,
    pub member_id: String,
    pub group_instance_id: Option<String>,
    pub protocol_type: Option<String>,
    pub protocol_name: Option<String>,
    pub assignments: Vec<SyncGroupRequestAssignment>,
}

#[derive(Debug, PartialEq, Eq)]
pub struct HeartbeatRequest {
    pub group_id: String,
    pub generation_id: i32,
    pub member_id: String,
    pub group_instance_id: Option<String>,
}

/// Who is to leave.
#[derive(Debug, PartialEq, Eq)]
pub struct MemberIdentity {
    pub member_id: String,
    pub group_instance_id: Option<String>,
}

#[derive(Debug, PartialEq, Eq)]
pub struct LeaveGroupRequest {
    pub group_id: String,
    /// The member that leaves, up to version 2.
    pub member_id: String,
    /// The members that leave, from version 3 on.
    pub members: Vec<MemberIdentity>,
}

/// How one request to leave went.
#[derive(Debug, PartialEq, Eq)]
pub struct MemberResponse {
    pub member_id: String,
    pub group_instance_id: Option<String>,
    pub error_code: i16,
}

#[verifier::ext_equal]
pub struct MemberResponseView {
    pub member_id: Seq<char>,
    pub group_instance_id: Option<Seq<char>>,
    pub error_code: i16,
}

impl View for MemberResponse {
    type V = MemberResponseView;

    open spec fn view(&self) -> MemberResponseView {
        MemberResponseView { member_id: self.member_id@, group_instance_id: opt_str(self.group_instance_id), error_code: self.error_code }
    }
}

/// A member as the leader's `JoinGroup` answer lists it.
#[derive(Debug, PartialEq, Eq)]
pub struct JoinResultMember {
    pub member_id: String,
    pub group_instance_id: Option<String>,
    pub metadata: Vec<u8>,
}

#[verifier::ext_equal]
pub struct JoinResultMemberView {
    pub member_id: Seq<char>,
    pub group_instance_id: Option<Seq<char>>,
    pub metadata: Seq<u8>,
}

impl View for JoinResultMember {
    type V = JoinResultMemberView;

    open spec fn view(&self) -> JoinResultMemberView {
        JoinResultMemberView { member_id: self.member_id@, group_instance_id: opt_str(self.group_instance_id), metadata: self.metadata@ }
    }
}

/// The answer to a `JoinGroup`.
#[derive(Debug, PartialEq, Eq)]
pub struct JoinResult {
    pub error_code: i16,
    pub generation_id: i32,
    pub protocol_type: Option<String>,
    pub protocol_name: Option<String>,
    pub leader: String,
    pub skip_assignment: bool,
    pub member_id: String,
    pub members: Vec<JoinResultMember>,
}

#[verifier::ext_equal]
pub struct JoinResultView {
    pub error_code: i16,
    pub generation_id: i32,
    pub protocol_type: Option<Seq<char>>,
    pub protocol_name: Option<Seq<char>>,
    pub leader: Seq<char>,
    pub skip_assignment: bool,
    pub member_id: Seq<char>,
    pub members: Seq<JoinResultMemberView>,
}

impl View for JoinResult {
    type V = JoinResultView;

    open spec fn view(&self) -> JoinResultView {
        JoinResultView {
            error_code: self.error_code,
            generation_id: self.generation_id,
            protocol_type: opt_str(self.protocol_type),
            protocol_name: opt_str(self.protocol_name),
            leader: self.leader@,
            skip_assignment: self.skip_assignment,
            member_id: self.member_id@,
            members: views(self.members@),
        }
    }
}

/// An answer that carries an error code and a member id alone.
pub open spec fn join_error(error_code: i16, member_id: Seq<char>) -> JoinResultView {
    JoinResultView {
        error_code,
        generation_id: 0,
        protocol_type: None,
        protocol_name: None,
        leader: seq![],
        skip_assignment: false,
        member_id,
        members: seq![],
    }
}

impl JoinResult {
    /// An answer that carries an error code and a member id alone.
    pub fn error(error_code: i16, member_id: String) -> (r: Self)
        ensures
            r@ == join_error(error_code, member_id@),
    {
        let r = JoinResult {
            error_code,
            generation_id: 0,
            protocol_type: None,
            protocol_name: None,
            leader: String::new(),
            skip_assignment: false,
            member_id,
            members: Vec::new(),
        };
        assert(views(r.members@) =~= seq![]);
        assert(r.leader@ =~= seq![]);
        r
    }
}

/// The answer to a `SyncGroup`.
#[derive(Debug, PartialEq, Eq)]
pub struct SyncResult {
    pub error_code: i16,
    pub assignment: Vec<u8>,
    pub protocol_type: Option<String>,
    pub protocol_name: Option<String>,
}

#[verifier::ext_equal]
pub struct SyncResultView {
    pub error_code: i16,
    pub assignment: Seq<u8>,
    pub protocol_type: Option<Seq<char>>,
    pub protocol_name: Option<Seq<char>>,
}

impl View for SyncResult {
    type V = SyncResultView;

    open spec fn view(&self) -> SyncResultView {
        SyncResultView {
            error_code: self.error_code,
            assignment: self.assignment@,
            protocol_type: opt_str(self.protocol_type),
            protocol_name: opt_str(self.protocol_name),
        }
    }
}

/// An answer that carries an error code alone.
pub open spec fn sync_error(error_code: i16) -> SyncResultView {
    SyncResultView { error_code, assignment: seq![], protocol_type: None, protocol_name: None }
}

impl SyncResult {
    /// An answer that carries an error code alone.
    pub fn error(error_code: i16) -> (r: Self)
        ensures
            r@ == sync_error(error_code),
    {
        SyncResult { error_code, assignment: Vec::new(), protocol_type: None, protocol_name: None }
    }
}

/// The answer to a `LeaveGroup`.
#[derive(Debug, PartialEq, Eq)]
pub struct LeaveResult {
    pub error_code: i16,
    pub members: Vec<MemberResponse>,
}

#[verifier::ext_equal]
pub struct LeaveResultView {
    pub error_code: i16,
    pub members: Seq<MemberResponseView>,
}

impl View for LeaveResult {
    type V = LeaveResultView;

    open spec fn view(&self) -> LeaveResultView {
        LeaveResultView { error_code: self.error_code, members: views(self.members@) }
    }
}

/// How a `LeaveGroup` is answered: up to version 2 the one member's error is the error of the
/// whole, from version 3 on each member has its own.
pub open spec fn leave_answer(version: i16, members: Seq<MemberResponseView>) -> LeaveResultView {
    LeaveResultView {
        error_code: if version <= 2 && members.len() > 0 {
            members[0].error_code
        } else {
            crate::codes::NONE
        },
        members,
    }
}

/// Shapes the answer to a `LeaveGroup` for its version; a failure answers for all members.
pub fn classic_leave_result(version: i16, result: Result<Vec<MemberResponse>, i16>) -> (r: LeaveResult)
    ensures
        match result {
            Ok(members) => r@ == leave_answer(version, views(members@)),
            Err(code) => r@ == (LeaveResultView { error_code: code, members: seq![] }),
        },
{
    match result {
        Ok(members) => {
            let error_code: i16 = if version <= 2 && members.len() > 0 {
                members[0].error_code
            } else {
                crate::codes::NONE
            };
            LeaveResult { error_code, members }
        },
        Err(error_code) => {
            let r = LeaveResult { error_code, members: Vec::new() };
            assert(views(r.members@) =~= seq![]);
            r
        },
    }
}

/// Who a `LeaveGroup` names: one member up to version 2, a list of identities from version 3 on.
pub open spec fn leave_identities(req: LeaveGroupRequest, version: i16) -> Seq<(Seq<char>, Option<Seq<char>>)> {
    if version >= 3 {
        Seq::new(req.members@.len(), |i: int| (req.members@[i].member_id@, opt_str(req.members@[i].group_instance_id)))
    } else {
        seq![(req.member_id@, None)]
    }
}

} // verus!
