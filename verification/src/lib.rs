//! Coordination core of a cross-chain bridge.
//!
//! The crate tracks which remote chains may exchange assets, which accounts
//! are authorized relayers, how outbound deposits are sequenced and
//! announced, and how an inbound call is ratified by threshold voting before
//! it is dispatched.

pub mod events;
pub mod kv;
pub mod pallet;
pub mod proposal;
pub mod types;

pub use pallet::Pallet;
pub use proposal::ProposalVotes;

pub use types::AccountId;
pub use types::BlockNumber;
pub use types::ChainId;
pub use types::Config;
pub use types::DepositNonce;
pub use types::DispatchError;
pub use types::Dispatcher;
pub use types::Error;
pub use types::Event;
pub use types::ExecutionError;
pub use types::Origin;
pub use types::ProposalStatus;
pub use types::ResourceId;
pub use types::TransferAmount;
