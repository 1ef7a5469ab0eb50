//! The vote record of one bridge proposal.

use vstd::prelude::*;

use crate::types::AccountId;
use crate::types::BlockNumber;
use crate::types::ProposalStatus;
use crate::types::ResourceId;

verus! {

/// Vote tally and call data of one proposal, keyed elsewhere by
/// (source chain, deposit nonce).
#[derive(Debug)]
pub struct ProposalVotes {
    /// Relayers who voted affirmatively.
    pub votes_for: Vec<AccountId>,
    /// Relayers who voted negatively.
    pub votes_against: Vec<AccountId>,
    /// Lifecycle state; every state but `Active` is terminal.
    pub status: ProposalStatus,
    /// Block height after which voting can only expire the proposal.
    pub expiry: BlockNumber,
    /// Resource whose registered handler the approved call runs.
    pub resource_id: ResourceId,
    /// Argument handed to the handler on approval.
    pub payload: Vec<u8>,
}

impl ProposalVotes {
    /// A relayer votes at most once per proposal, for or against.
    pub open spec fn wf(self) -> bool {
        &&& self.votes_for@.no_duplicates()
        &&& self.votes_against@.no_duplicates()
        &&& forall|a: AccountId|
            self.votes_for@.contains(a) ==> !(#[trigger] self.votes_against@.contains(a))
    }

    /// Whether `who` already cast a vote, either way.
    pub open spec fn spec_has_voted(self, who: AccountId) -> bool {
        self.votes_for@.contains(who) || self.votes_against@.contains(who)
    }

    /// Whether the proposal still accumulates votes.
    pub open spec fn is_active(self) -> bool {
        self.status is Active
    }
}

} // verus!
