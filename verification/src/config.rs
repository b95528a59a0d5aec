//! What the coordinator is configured with.

use crate::assignor::{Assignor, UniformAssignor};
use crate::ordmap::str_eq;
use vstd::prelude::*;

verus! {

/// Which way a group may change its protocol while it lives.
#[derive(Clone, Copy, Debug, PartialEq, Eq, Structural)]
pub enum ConsumerGroupMigrationPolicy {
    Disabled,
    Upgrade,
    Downgrade,
    Bidirectional,
}

impl ConsumerGroupMigrationPolicy {
    pub open spec fn upgrades(self) -> bool {
        self == ConsumerGroupMigrationPolicy::Upgrade || self == ConsumerGroupMigrationPolicy::Bidirectional
    }

    pub open spec fn downgrades(self) -> bool {
        self == ConsumerGroupMigrationPolicy::Downgrade || self == ConsumerGroupMigrationPolicy::Bidirectional
    }

    /// Whether a classic group may become a consumer group.
    pub fn allows_upgrade(self) -> (r: bool)
        ensures
            r == self.upgrades(),
    {
        self == ConsumerGroupMigrationPolicy::Upgrade || self == ConsumerGroupMigrationPolicy::Bidirectional
    }

    /// Whether a consumer group may become a classic group.
    pub fn allows_downgrade(self) -> (r: bool)
        ensures
            r == self.downgrades(),
    {
        self == ConsumerGroupMigrationPolicy::Downgrade || self == ConsumerGroupMigrationPolicy::Bidirectional
    }
}

/// The configuration of consumer groups. Times are milliseconds.
pub struct NextGenConfig<A: Assignor> {
    /// The assignors that members may ask for; the first serves those that ask for none.
    pub assignors: Vec<A>,
    pub max_size: usize,
    pub heartbeat_interval: u64,
    pub session_timeout: u64,
    pub migration_policy: ConsumerGroupMigrationPolicy,
    pub classic_initial_rebalance_delay: u64,
    pub classic_max_size: usize,
}

/// The place of the first assignor called `name`.
pub open spec fn assignor_called<A: Assignor>(assignors: Seq<A>, name: Seq<char>) -> Option<int>
    decreases assignors.len(),
{
    if assignors.len() == 0 {
        None
    } else {
        match assignor_called(assignors.drop_last(), name) {
            Some(i) => Some(i),
            None => if assignors.last().named() == name {
                Some(assignors.len() - 1)
            } else {
                None
            },
        }
    }
}

impl<A: Assignor> NextGenConfig<A> {
    /// The place of the first assignor called `name`.
    pub fn find_assignor(&self, name: &str) -> (r: Option<usize>)
        ensures
            match r {
                Some(i) => i < self.assignors@.len() && assignor_called(self.assignors@, name@) == Some(i as int),
                None => assignor_called(self.assignors@, name@) is None,
            },
    {
        let mut i: usize = 0;
        assert(self.assignors@.take(0) =~= seq![]);
        while i < self.assignors.len()
            invariant
                0 <= i <= self.assignors@.len(),
                assignor_called(self.assignors@.take(i as int), name@) is None,
            decreases self.assignors@.len() - i,
        {
            assert(self.assignors@.take(i + 1).drop_last() =~= self.assignors@.take(i as int));
            assert(self.assignors@.take(i + 1).last() == self.assignors@[i as int]);
            if str_eq(self.assignors[i].name(), name) {
                proof {
                    called_in_front(self.assignors@, i + 1, name@);
                }
                return Some(i);
            }
            i = i + 1;
        }
        assert(self.assignors@.take(self.assignors@.len() as int) =~= self.assignors@);
        None
    }
}

/// What is called `name` in front stays the first that is.
proof fn called_in_front<A: Assignor>(assignors: Seq<A>, n: int, name: Seq<char>)
    requires
        0 <= n <= assignors.len(),
        assignor_called(assignors.take(n), name) is Some,
    ensures
        assignor_called(assignors, name) == assignor_called(assignors.take(n), name),
    decreases assignors.len(),
{
    if n == assignors.len() {
        assert(assignors.take(n) =~= assignors);
    } else {
        assert(assignors.drop_last().take(n) =~= assignors.take(n));
        called_in_front(assignors.drop_last(), n, name);
    }
}

impl NextGenConfig<UniformAssignor> {
    /// The configuration without settings: the uniform assignor, no limit on the size of a group,
    /// and migration in both directions.
    pub fn standard() -> (r: Self)
        ensures
            r.assignors@ == seq![UniformAssignor],
            r.max_size == usize::MAX,
            r.heartbeat_interval == 5_000,
            r.session_timeout == 45_000,
            r.migration_policy == ConsumerGroupMigrationPolicy::Bidirectional,
            r.classic_initial_rebalance_delay == 3_000,
            r.classic_max_size == usize::MAX,
    {
        let mut assignors: Vec<UniformAssignor> = Vec::new();
        assignors.push(UniformAssignor);
        assert(assignors@ =~= seq![UniformAssignor]);
        NextGenConfig {
            assignors,
            max_size: usize::MAX,
            heartbeat_interval: 5_000,
            session_timeout: 45_000,
            migration_policy: ConsumerGroupMigrationPolicy::Bidirectional,
            classic_initial_rebalance_delay: 3_000,
            classic_max_size: usize::MAX,
        }
    }
}

} // verus!
