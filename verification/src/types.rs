//! Plain data types of the bridge core: identifiers, errors, origins,
//! notification events and the dispatch capability.

use vstd::prelude::*;

verus! {

/// Identifier of a bridged chain. The local chain's own id is configuration
/// and is never a valid whitelist entry.
pub type ChainId = u8;

/// Per-destination-chain sequence number, strictly increasing by one per
/// outbound transfer. Together with the source chain id it uniquely
/// identifies a bridge proposal.
pub type DepositNonce = u64;

/// Account identity of a caller, admin or relayer.
pub type AccountId = u64;

/// Block height, used for proposal expiry.
pub type BlockNumber = u64;

/// Opaque 32-byte identifier mapped to a handler-method descriptor.
pub type ResourceId = [u8; 32];

/// Amount carried by a fungible transfer announcement. The core never
/// computes on it; it is stamped into the announcement unchanged.
pub type TransferAmount = u128;

/// Typed failures surfaced to the caller. No partial mutation is observable
/// on any failure path.
#[derive(Clone, Copy, Debug, PartialEq, Eq, Structural)]
pub enum Error {
    /// Relayer threshold not set.
    ThresholdNotSet,
    /// Provided chain id is not valid.
    InvalidChainId,
    /// Relayer threshold cannot be 0.
    InvalidThreshold,
    /// Interactions with this chain are not permitted.
    ChainNotWhitelisted,
    /// Chain has already been enabled.
    ChainAlreadyWhitelisted,
    /// Resource id provided is not mapped to anything.
    ResourceDoesNotExist,
    /// Relayer already in set.
    RelayerAlreadyExists,
    /// Provided account id is not a relayer.
    RelayerInvalid,
    /// Protected operation, must be performed by a relayer.
    MustBeRelayer,
    /// Relayer has already submitted some vote for this proposal.
    RelayerAlreadyVoted,
    /// A proposal with these parameters has already been submitted.
    ProposalAlreadyExists,
    /// No proposal with the id was found.
    ProposalDoesNotExist,
    /// Cannot complete the proposal, it needs more votes.
    ProposalNotComplete,
    /// Proposal has already been resolved.
    ProposalAlreadyComplete,
    /// Lifetime of the proposal has been exceeded.
    ProposalExpired,
}

/// Failure of an admin-gated entry point: either the caller is not the
/// admin authority, or the inner operation failed with a typed error.
#[derive(Clone, Copy, Debug, PartialEq, Eq, Structural)]
pub enum DispatchError {
    /// The caller is not the configured admin authority.
    BadOrigin,
    /// The operation itself failed.
    Module(Error),
}

/// The provenance of a call into an admin-gated entry point, as established
/// by the (out-of-scope) authentication layer.
#[derive(Clone, Copy, Debug, PartialEq, Eq, Structural)]
pub enum Origin {
    /// The root authority of the local chain.
    Root,
    /// A signed account.
    Signed(AccountId),
}

/// Lifecycle state of a proposal. All states but `Active` are terminal.
#[derive(Clone, Copy, Debug, PartialEq, Eq, Structural)]
pub enum ProposalStatus {
    /// Still accumulating votes.
    Active,
    /// The affirmative tally reached the threshold; the call was dispatched.
    Approved,
    /// Enough negative votes made approval impossible.
    Rejected,
    /// The expiry block passed before the proposal was resolved.
    Expired,
}

/// Static configuration of the bridge core.
#[derive(Clone, Copy, Debug, PartialEq, Eq, Structural)]
pub struct Config {
    /// The local chain's own identifier; never whitelistable.
    pub chain_id: ChainId,
    /// Number of blocks a fresh proposal stays open for voting.
    pub proposal_lifetime: BlockNumber,
}

/// Notifications emitted for off-chain observers. The event log is the sole
/// observable output of the outbound transfer path.
#[derive(Clone, Debug, PartialEq, Eq)]
pub enum Event {
    /// Vote threshold has changed (new threshold).
    RelayerThresholdChanged(u32),
    /// Chain now available for transfers (chain id).
    ChainWhitelisted(ChainId),
    /// Relayer added to the set.
    RelayerAdded(AccountId),
    /// Relayer removed from the set.
    RelayerRemoved(AccountId),
    /// Announcement of a fungible transfer
    /// (destination, nonce, resource id, amount, recipient).
    FungibleTransfer(ChainId, DepositNonce, ResourceId, TransferAmount, Vec<u8>),
    /// Announcement of a non-fungible transfer
    /// (destination, nonce, resource id, token id, recipient, metadata).
    NonFungibleTransfer(ChainId, DepositNonce, ResourceId, Vec<u8>, Vec<u8>, Vec<u8>),
    /// Announcement of a generic data payload
    /// (destination, nonce, resource id, metadata).
    GenericTransfer(ChainId, DepositNonce, ResourceId, Vec<u8>),
    /// Vote submitted in favour of a proposal.
    VoteFor(ChainId, DepositNonce, AccountId),
    /// Vote submitted against a proposal.
    VoteAgainst(ChainId, DepositNonce, AccountId),
    /// Voting approved a proposal.
    ProposalApproved(ChainId, DepositNonce),
    /// Voting rejected a proposal.
    ProposalRejected(ChainId, DepositNonce),
    /// A proposal passed its expiry block and was closed.
    ProposalExpired(ChainId, DepositNonce),
    /// Execution of the approved call succeeded.
    ProposalSucceeded(ChainId, DepositNonce),
    /// Execution of the approved call failed.
    ProposalFailed(ChainId, DepositNonce),
}

/// Failure reported by the downstream call a proposal dispatches.
#[derive(Clone, Copy, Debug, PartialEq, Eq, Structural)]
pub struct ExecutionError;

/// The opaque capability that runs an approved call. Implemented per
/// integration; nothing is assumed of its behaviour, so the voting engine
/// is verified for every outcome it may report.
pub trait Dispatcher {
    /// Execute the handler registered for `resource_id` on `payload`.
    fn execute(&mut self, resource_id: &ResourceId, payload: &Vec<u8>) -> Result<
        (),
        ExecutionError,
    >;
}

} // verus!
