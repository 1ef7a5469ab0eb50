//! The proposal lifecycle: creation on first vote, tallying, approval with
//! one dispatch, rejection, lazy expiry and the error paths.

use chainbridge::Config;
use chainbridge::Dispatcher;
use chainbridge::Error;
use chainbridge::Event;
use chainbridge::ExecutionError;
use chainbridge::Pallet;
use chainbridge::ProposalStatus;

const LOCAL: u8 = 1;
const SRC: u8 = 5;
const LIFETIME: u64 = 10;
const A: u64 = 10;
const B: u64 = 11;
const C: u64 = 12;

/// Records every dispatched call; fails on request.
struct Recorder {
    calls: Vec<([u8; 32], Vec<u8>)>,
    fail: bool,
}

impl Recorder {
    fn new() -> Recorder {
        Recorder { calls: Vec::new(), fail: false }
    }

    fn failing() -> Recorder {
        Recorder { calls: Vec::new(), fail: true }
    }
}

impl Dispatcher for Recorder {
    fn execute(&mut self, resource_id: &[u8; 32], payload: &Vec<u8>) -> Result<(), ExecutionError> {
        self.calls.push((*resource_id, payload.clone()));
        if self.fail {
            Err(ExecutionError)
        } else {
            Ok(())
        }
    }
}

fn rid(tag: u8) -> [u8; 32] {
    let mut id = [0u8; 32];
    id[0] = tag;
    id
}

/// Threshold 2, three relayers, source chain and one resource registered.
fn voting_bridge() -> Pallet {
    let mut p = Pallet::new(Config { chain_id: LOCAL, proposal_lifetime: LIFETIME }, Some(99), 2);
    p.whitelist(SRC).unwrap();
    p.register_relayer(A).unwrap();
    p.register_relayer(B).unwrap();
    p.register_relayer(C).unwrap();
    p.register_resource(rid(7), b"handler".to_vec()).unwrap();
    p
}

#[test]
fn approval_scenario_dispatches_once_then_rejects_votes() {
    let mut p = voting_bridge();
    let mut d = Recorder::new();
    let payload = vec![0xDE, 0xAD];

    assert_eq!(p.cast_vote(A, SRC, 1, true, rid(7), payload.clone(), 1, &mut d), Ok(()));
    assert_eq!(p.proposal_status(SRC, 1), Some(ProposalStatus::Active));
    let votes = p.proposal_votes(SRC, 1).unwrap();
    assert_eq!(votes.votes_for, vec![A]);
    assert!(votes.votes_against.is_empty());
    assert!(d.calls.is_empty());

    assert_eq!(p.cast_vote(B, SRC, 1, true, rid(7), payload.clone(), 2, &mut d), Ok(()));
    assert_eq!(p.proposal_status(SRC, 1), Some(ProposalStatus::Approved));
    assert_eq!(d.calls, vec![(rid(7), payload.clone())]);
    let n = p.events().len();
    assert_eq!(p.events()[n - 2], Event::ProposalApproved(SRC, 1));
    assert_eq!(p.events()[n - 1], Event::ProposalSucceeded(SRC, 1));

    assert_eq!(
        p.cast_vote(C, SRC, 1, true, rid(7), payload, 3, &mut d),
        Err(Error::ProposalAlreadyComplete)
    );
    assert_eq!(d.calls.len(), 1);
    let approvals = p
        .events()
        .iter()
        .filter(|e| **e == Event::ProposalApproved(SRC, 1))
        .count();
    assert_eq!(approvals, 1);
}

#[test]
fn failed_execution_is_reported_but_approval_stands() {
    let mut p = voting_bridge();
    let mut d = Recorder::failing();
    p.cast_vote(A, SRC, 1, true, rid(7), vec![1], 1, &mut d).unwrap();
    p.cast_vote(B, SRC, 1, true, rid(7), vec![1], 2, &mut d).unwrap();
    assert_eq!(p.proposal_status(SRC, 1), Some(ProposalStatus::Approved));
    assert_eq!(d.calls.len(), 1);
    let n = p.events().len();
    assert_eq!(p.events()[n - 2], Event::ProposalApproved(SRC, 1));
    assert_eq!(p.events()[n - 1], Event::ProposalFailed(SRC, 1));
}

#[test]
fn rejection_scenario_when_threshold_unreachable() {
    let mut p = voting_bridge();
    let mut d = Recorder::new();
    assert_eq!(p.cast_vote(A, SRC, 1, false, rid(7), vec![1], 1, &mut d), Ok(()));
    assert_eq!(p.proposal_status(SRC, 1), Some(ProposalStatus::Active));
    assert_eq!(p.cast_vote(B, SRC, 1, false, rid(7), vec![1], 2, &mut d), Ok(()));
    assert_eq!(p.proposal_status(SRC, 1), Some(ProposalStatus::Rejected));
    assert!(d.calls.is_empty());
    let n = p.events().len();
    assert_eq!(p.events()[n - 1], Event::ProposalRejected(SRC, 1));
    assert_eq!(
        p.cast_vote(C, SRC, 1, true, rid(7), vec![1], 3, &mut d),
        Err(Error::ProposalAlreadyComplete)
    );
}

#[test]
fn proposal_expires_lazily_on_touch() {
    let mut p = voting_bridge();
    let mut d = Recorder::new();
    p.cast_vote(A, SRC, 1, true, rid(7), vec![1], 1, &mut d).unwrap();
    // Untouched past its expiry block, a pure query still reports Active.
    assert_eq!(p.proposal_status(SRC, 1), Some(ProposalStatus::Active));
    // expiry = 1 + LIFETIME = 11; block 12 is past it.
    assert_eq!(
        p.cast_vote(B, SRC, 1, true, rid(7), vec![1], 12, &mut d),
        Err(Error::ProposalExpired)
    );
    assert_eq!(p.proposal_status(SRC, 1), Some(ProposalStatus::Expired));
    assert_eq!(*p.events().last().unwrap(), Event::ProposalExpired(SRC, 1));
    assert!(d.calls.is_empty());
    // Terminal: every further vote is rejected, regardless of pending tally.
    assert_eq!(
        p.cast_vote(C, SRC, 1, true, rid(7), vec![1], 13, &mut d),
        Err(Error::ProposalAlreadyComplete)
    );
}

#[test]
fn vote_on_last_block_of_lifetime_still_counts() {
    let mut p = voting_bridge();
    let mut d = Recorder::new();
    p.cast_vote(A, SRC, 1, true, rid(7), vec![1], 1, &mut d).unwrap();
    // Block 11 equals the expiry, which is not yet past it.
    assert_eq!(p.cast_vote(B, SRC, 1, true, rid(7), vec![1], 11, &mut d), Ok(()));
    assert_eq!(p.proposal_status(SRC, 1), Some(ProposalStatus::Approved));
}

#[test]
fn double_vote_is_rejected_either_way() {
    let mut p = voting_bridge();
    let mut d = Recorder::new();
    p.cast_vote(A, SRC, 1, true, rid(7), vec![1], 1, &mut d).unwrap();
    assert_eq!(
        p.cast_vote(A, SRC, 1, true, rid(7), vec![1], 2, &mut d),
        Err(Error::RelayerAlreadyVoted)
    );
    assert_eq!(
        p.cast_vote(A, SRC, 1, false, rid(7), vec![1], 2, &mut d),
        Err(Error::RelayerAlreadyVoted)
    );
    let votes = p.proposal_votes(SRC, 1).unwrap();
    assert_eq!(votes.votes_for, vec![A]);
    assert!(votes.votes_against.is_empty());
}

#[test]
fn vote_validation_order_and_errors() {
    let mut p = voting_bridge();
    let mut d = Recorder::new();
    // Not a relayer.
    assert_eq!(
        p.cast_vote(77, SRC, 1, true, rid(7), vec![1], 1, &mut d),
        Err(Error::MustBeRelayer)
    );
    // Relayer, but the claimed source chain is not whitelisted.
    assert_eq!(
        p.cast_vote(A, 6, 1, true, rid(7), vec![1], 1, &mut d),
        Err(Error::ChainNotWhitelisted)
    );
    // Fresh key with an unregistered resource.
    assert_eq!(
        p.cast_vote(A, SRC, 1, true, rid(8), vec![1], 1, &mut d),
        Err(Error::ResourceDoesNotExist)
    );
    assert_eq!(p.proposal_status(SRC, 1), None);
    assert!(d.calls.is_empty());
}

#[test]
fn lowered_threshold_applies_at_next_vote() {
    let mut p = Pallet::new(Config { chain_id: LOCAL, proposal_lifetime: LIFETIME }, Some(99), 3);
    p.whitelist(SRC).unwrap();
    p.register_relayer(A).unwrap();
    p.register_relayer(B).unwrap();
    p.register_relayer(C).unwrap();
    p.register_resource(rid(7), vec![1]).unwrap();
    let mut d = Recorder::new();
    p.cast_vote(A, SRC, 1, true, rid(7), vec![1], 1, &mut d).unwrap();
    p.cast_vote(B, SRC, 1, true, rid(7), vec![1], 2, &mut d).unwrap();
    assert_eq!(p.proposal_status(SRC, 1), Some(ProposalStatus::Active));
    // Two affirmative votes are now enough; the tally is re-evaluated against
    // the current threshold at the next vote, even a negative one.
    p.set_relayer_threshold(2).unwrap();
    assert_eq!(p.cast_vote(C, SRC, 1, false, rid(7), vec![1], 3, &mut d), Ok(()));
    assert_eq!(p.proposal_status(SRC, 1), Some(ProposalStatus::Approved));
    assert_eq!(d.calls.len(), 1);
}

#[test]
fn distinct_voters_never_exceed_relayer_count() {
    let mut p = voting_bridge();
    let mut d = Recorder::new();
    p.cast_vote(A, SRC, 2, false, rid(7), vec![1], 1, &mut d).unwrap();
    p.cast_vote(B, SRC, 2, true, rid(7), vec![1], 1, &mut d).unwrap();
    let votes = p.proposal_votes(SRC, 2).unwrap();
    let distinct = votes.votes_for.len() + votes.votes_against.len();
    assert!(distinct <= p.relayer_count() as usize);
    assert!(!votes.votes_for.iter().any(|a| votes.votes_against.contains(a)));
}

#[test]
fn proposals_are_keyed_by_chain_and_nonce() {
    let mut p = voting_bridge();
    p.whitelist(6).unwrap();
    let mut d = Recorder::new();
    p.cast_vote(A, SRC, 1, true, rid(7), vec![1], 1, &mut d).unwrap();
    p.cast_vote(A, SRC, 2, true, rid(7), vec![2], 1, &mut d).unwrap();
    p.cast_vote(A, 6, 1, true, rid(7), vec![3], 1, &mut d).unwrap();
    assert_eq!(p.proposal_status(SRC, 1), Some(ProposalStatus::Active));
    assert_eq!(p.proposal_status(SRC, 2), Some(ProposalStatus::Active));
    assert_eq!(p.proposal_status(6, 1), Some(ProposalStatus::Active));
    assert_eq!(p.proposal_status(6, 2), None);
    assert_eq!(p.proposal_votes(SRC, 2).unwrap().payload, vec![2]);
}

#[test]
fn threshold_one_approves_on_first_vote() {
    let mut p = Pallet::new(Config { chain_id: LOCAL, proposal_lifetime: LIFETIME }, None, 1);
    p.whitelist(SRC).unwrap();
    p.register_relayer(A).unwrap();
    p.register_resource(rid(7), vec![1]).unwrap();
    let mut d = Recorder::new();
    assert_eq!(p.cast_vote(A, SRC, 1, true, rid(7), vec![9], 1, &mut d), Ok(()));
    assert_eq!(p.proposal_status(SRC, 1), Some(ProposalStatus::Approved));
    assert_eq!(d.calls, vec![(rid(7), vec![9])]);
}
