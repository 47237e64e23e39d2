//! What removing a member from a group warns about and offers.
use vstd::prelude::*;
use crate::input::text_eq;

verus! {

/// The warnings and the follow-up offer of a removal from a group.
#[derive(Clone, Copy, Debug, PartialEq, Eq, Structural)]
pub struct RemovalPlan {
    /// The group is the built-in server group `all`, which default key
    /// management relies on.
    pub warn_builtin: bool,
    /// The member is the group's last one.
    pub warn_left_empty: bool,
    /// Deleting the then empty group is offered once the member is gone.
    pub offer_group_deletion: bool,
}

/// The name of the built-in server group.
pub open spec fn builtin_server_group() -> Seq<char> {
    "all"@
}

/// The plan for removing a member from the group `group`, of servers when
/// `server_group`, which holds `members` members before the removal.
pub open spec fn removal_plan_of(group: Seq<char>, server_group: bool, members: u64) -> RemovalPlan {
    let builtin = server_group && group == builtin_server_group();
    RemovalPlan {
        warn_builtin: builtin,
        warn_left_empty: members == 1 && !builtin,
        offer_group_deletion: members == 1 && !builtin,
    }
}

/// The warnings and the offer that removing a member from a group brings.
pub fn plan_removal(group: &str, server_group: bool, members: u64) -> (r: RemovalPlan)
    ensures
        r == removal_plan_of(group@, server_group, members),
{
    let builtin = server_group && text_eq(group, "all");
    RemovalPlan {
        warn_builtin: builtin,
        warn_left_empty: members == 1 && !builtin,
        offer_group_deletion: members == 1 && !builtin,
    }
}

} // verus!
