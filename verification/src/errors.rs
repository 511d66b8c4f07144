//! The error taxonomy of the core: not-found, permission, balance, duplicate,
//! rule, overflow and expiry conditions. Every failure is returned
//! synchronously to the caller and aborts only the current call's mutations.

use vstd::prelude::*;

verus! {

/// Every recoverable failure a core operation can report.
#[derive(Clone, Copy, PartialEq, Eq, Structural, Debug)]
pub enum Error {
    /// Transfer amount should be non-zero.
    AmountZero,
    /// Account balance must be at least the requested amount.
    BalanceLow,
    /// The acting account has no permission for the operation.
    NoPermission,
    /// The given asset id is unknown.
    Unknown,
    /// A mint operation would overflow the supply.
    Overflow,
    /// No vault entry exists for the given organization id.
    UnknownOwnerID,
    /// The organization counter is exhausted.
    StorageOverflow,
    /// No organization exists under the given id.
    OrganizationNotFound,
    /// The actor's voting-token balance is too low for the assignment.
    TokenBalanceLow,
    /// The actor is not a member of the organization.
    NotMemberInOrg,
    /// The account is already a member of the organization.
    MemberDuplicate,
    /// No proposal exists under the given id.
    ProposalNotFound,
    /// The proposal's action bytes do not decode to a known command.
    ProposalDecodeFailed,
    /// A proposal with byte-identical content is already staged.
    ProposalDuplicate,
    /// Voting was attempted on a lapsed proposal.
    ProposalExpired,
    /// The proposal's sub-rule is weaker than the organization baseline.
    WrongRuleParam,
}

} // verus!
