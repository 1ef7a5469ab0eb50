//! The bridge core: chain whitelist and nonce sequencing, resource registry,
//! relayer set, outbound transfer announcements and the threshold-voting
//! proposal lifecycle.
//!
//! Every operation is one serialized transaction against the state: it either
//! fails validation with a typed error and changes nothing, or applies its
//! whole effect and appends its notifications to the event log.

use vstd::prelude::*;

use crate::events::approval_count;
use crate::events::event_nonce;
use crate::events::is_transfer_to;
use crate::events::lemma_approval_count_empty;
use crate::events::lemma_approval_count_push;
use crate::events::lemma_transfer_nonces_empty;
use crate::events::lemma_transfer_nonces_push;
use crate::events::strictly_increasing;
use crate::events::transfer_nonces;
use crate::kv::kv_map;
use crate::kv::kv_unique;
use crate::kv::lemma_kv_map_domain;
use crate::kv::lemma_kv_map_index;
use crate::kv::lemma_kv_map_push;
use crate::kv::lemma_kv_map_remove;
use crate::kv::lemma_kv_map_update;
use crate::kv::lemma_kv_unique_remove;
use crate::kv::lemma_kv_unique_update;
use crate::proposal::ProposalVotes;
use crate::types::AccountId;
use crate::types::BlockNumber;
use crate::types::ChainId;
use crate::types::Config;
use crate::types::DepositNonce;
use crate::types::DispatchError;
use crate::types::Error;
use crate::types::Event;
use crate::types::Dispatcher;
use crate::types::Origin;
use crate::types::ProposalStatus;

verus! {

/// The whole bridge state, mutated only through its verified operations.
pub struct Pallet {
    config: Config,
    admin: Option<AccountId>,
    threshold: u32,
    resource_map: Vec<(crate::types::ResourceId, Vec<u8>)>,
    chain_nonces: Vec<(ChainId, DepositNonce)>,
    relayer_set: Vec<AccountId>,
    relayer_count: u32,
    proposal_map: Vec<((ChainId, DepositNonce), ProposalVotes)>,
    events: Vec<Event>,
}

/// One announced nonce history is sound: strictly increasing, and it never
/// runs ahead of the chain's stored nonce.
pub open spec fn chain_nonce_history_ok(
    ns: Seq<DepositNonce>,
    chains: Map<ChainId, DepositNonce>,
    c: ChainId,
) -> bool {
    &&& strictly_increasing(ns)
    &&& (ns.len() > 0 ==> chains.contains_key(c) && ns.last() <= chains[c])
}

/// Every chain's announced nonce history is sound.
pub open spec fn nonce_events_ok(events: Seq<Event>, chains: Map<ChainId, DepositNonce>) -> bool {
    forall|c: ChainId|
        chain_nonce_history_ok(#[trigger] transfer_nonces(events, c), chains, c)
}

/// Whether the store holds an approved proposal under this key (as 0 or 1,
/// for comparison with an announcement count).
pub open spec fn approved_flag(
    props: Map<(ChainId, DepositNonce), ProposalVotes>,
    c: ChainId,
    n: DepositNonce,
) -> nat {
    if props.contains_key((c, n)) && props[(c, n)].status is Approved {
        1nat
    } else {
        0nat
    }
}

/// Approval is announced exactly once, at the vote that crossed the
/// threshold: the log holds one approval announcement for every approved
/// proposal and none for any other key.
pub open spec fn approvals_ok(
    events: Seq<Event>,
    props: Map<(ChainId, DepositNonce), ProposalVotes>,
) -> bool {
    forall|c: ChainId, n: DepositNonce|
        #[trigger] approval_count(events, c, n) == approved_flag(props, c, n)
}

/// The status one re-evaluated tally dictates: approved the moment the
/// affirmative count reaches the current threshold; rejected the moment
/// reaching it has become impossible; otherwise still active.
pub open spec fn tally_status(vf: int, va: int, threshold: u32, count: u32) -> ProposalStatus {
    if vf >= threshold {
        ProposalStatus::Approved
    } else if va > count - threshold {
        ProposalStatus::Rejected
    } else {
        ProposalStatus::Active
    }
}

/// What one accepted vote does, relating the state before (`o`) and after
/// (`f`): the voter joins the chosen tally of the proposal keyed by
/// (`src_id`, `nonce`), whose tallies before the vote were `vf0`/`va0`; the
/// status is re-evaluated against the current threshold and relayer count;
/// the vote is announced; on resolution the outcome is announced too, and an
/// approved call reports either success or failure without reverting the
/// approval. Nothing else changes.
pub open spec fn vote_applied(
    o: Pallet,
    f: Pallet,
    src_id: ChainId,
    nonce: DepositNonce,
    vf0: Seq<AccountId>,
    va0: Seq<AccountId>,
    expiry: BlockNumber,
    rid: crate::types::ResourceId,
    payload: Seq<u8>,
    who: AccountId,
    affirmative: bool,
) -> bool {
    let key = (src_id, nonce);
    let vf = if affirmative {
        vf0.push(who)
    } else {
        vf0
    };
    let va = if affirmative {
        va0
    } else {
        va0.push(who)
    };
    let st = tally_status(
        vf.len() as int,
        va.len() as int,
        o.spec_threshold(),
        o.spec_relayer_count(),
    );
    let vote_ev = if affirmative {
        Event::VoteFor(src_id, nonce, who)
    } else {
        Event::VoteAgainst(src_id, nonce, who)
    };
    &&& f.proposals_map().contains_key(key)
    &&& f.proposals_map()[key].votes_for@ == vf
    &&& f.proposals_map()[key].votes_against@ == va
    &&& f.proposals_map()[key].status == st
    &&& f.proposals_map()[key].expiry == expiry
    &&& f.proposals_map()[key].resource_id == rid
    &&& f.proposals_map()[key].payload@ == payload
    &&& f.proposals_map().remove(key) == o.proposals_map().remove(key)
    &&& match st {
        ProposalStatus::Approved => f.spec_events() == o.spec_events().push(vote_ev).push(
            Event::ProposalApproved(src_id, nonce),
        ).push(Event::ProposalSucceeded(src_id, nonce)) || f.spec_events() == o.spec_events().push(
            vote_ev,
        ).push(Event::ProposalApproved(src_id, nonce)).push(Event::ProposalFailed(src_id, nonce)),
        ProposalStatus::Rejected => f.spec_events() == o.spec_events().push(vote_ev).push(
            Event::ProposalRejected(src_id, nonce),
        ),
        _ => f.spec_events() == o.spec_events().push(vote_ev),
    }
    &&& f.same_config(o)
    &&& f.same_resources(o)
    &&& f.same_chains(o)
    &&& f.same_relayers(o)
    &&& f.same_threshold(o)
}

impl Pallet {
    /// The static configuration the bridge was built with.
    pub closed spec fn spec_config(self) -> Config {
        self.config
    }

    /// The configured admin account, if any; the root origin is always admin.
    pub closed spec fn spec_admin(self) -> Option<AccountId> {
        self.admin
    }

    /// Minimum number of affirmative votes that approves a proposal.
    pub closed spec fn spec_threshold(self) -> u32 {
        self.threshold
    }

    /// The resource registry: resource id to handler-method descriptor.
    pub closed spec fn resources_map(self) -> Map<crate::types::ResourceId, Vec<u8>> {
        kv_map(self.resource_map@)
    }

    /// The chain whitelist with each chain's current deposit nonce.
    pub closed spec fn chains_map(self) -> Map<ChainId, DepositNonce> {
        kv_map(self.chain_nonces@)
    }

    /// The proposal store, keyed by (source chain, deposit nonce).
    pub closed spec fn proposals_map(self) -> Map<(ChainId, DepositNonce), ProposalVotes> {
        kv_map(self.proposal_map@)
    }

    /// The authorized relayers, in order of registration.
    pub closed spec fn relayers_seq(self) -> Seq<AccountId> {
        self.relayer_set@
    }

    /// Whether `who` is an authorized relayer.
    pub open spec fn spec_is_relayer(self, who: AccountId) -> bool {
        self.relayers_seq().contains(who)
    }

    /// The cached relayer cardinality.
    pub closed spec fn spec_relayer_count(self) -> u32 {
        self.relayer_count
    }

    /// Whether `id` is a whitelisted destination or source chain.
    pub open spec fn spec_whitelisted(self, id: ChainId) -> bool {
        self.chains_map().contains_key(id)
    }

    /// The nonce last stamped for chain `id` (meaningful only when
    /// whitelisted).
    pub open spec fn spec_nonce(self, id: ChainId) -> DepositNonce {
        self.chains_map()[id]
    }

    /// Everything announced so far, oldest first.
    pub closed spec fn spec_events(self) -> Seq<Event> {
        self.events@
    }

    /// Whether `origin` may perform admin-gated operations.
    pub open spec fn is_admin_origin(self, origin: Origin) -> bool {
        match origin {
            Origin::Root => true,
            Origin::Signed(a) => self.spec_admin() == Some(a),
        }
    }

    /// The state invariant: unique store keys, a truthful relayer count, a
    /// threshold that is never zero, well-formed vote records, and an event
    /// log whose announced nonces are sound.
    pub closed spec fn wf(self) -> bool {
        &&& kv_unique(self.resource_map@)
        &&& kv_unique(self.chain_nonces@)
        &&& kv_unique(self.proposal_map@)
        &&& self.relayer_set@.no_duplicates()
        &&& self.relayer_count as int == self.relayer_set@.len()
        &&& self.threshold >= 1
        &&& forall|i: int|
            0 <= i < self.proposal_map@.len() ==> (#[trigger] self.proposal_map@[i]).1.wf()
        &&& nonce_events_ok(self.events@, self.chains_map())
        &&& approvals_ok(self.events@, self.proposals_map())
    }

    /// The configuration, admin authority and threshold are unchanged.
    pub open spec fn same_config(self, o: Pallet) -> bool {
        self.spec_config() == o.spec_config() && self.spec_admin() == o.spec_admin()
    }

    /// The resource registry is unchanged.
    pub open spec fn same_resources(self, o: Pallet) -> bool {
        self.resources_map() == o.resources_map()
    }

    /// The chain whitelist and all nonces are unchanged.
    pub open spec fn same_chains(self, o: Pallet) -> bool {
        self.chains_map() == o.chains_map()
    }

    /// The relayer set and its cached count are unchanged.
    pub open spec fn same_relayers(self, o: Pallet) -> bool {
        self.relayers_seq() == o.relayers_seq() && self.spec_relayer_count()
            == o.spec_relayer_count()
    }

    /// The vote threshold is unchanged.
    pub open spec fn same_threshold(self, o: Pallet) -> bool {
        self.spec_threshold() == o.spec_threshold()
    }

    /// The proposal store is unchanged.
    pub open spec fn same_proposals(self, o: Pallet) -> bool {
        self.proposals_map() == o.proposals_map()
    }

    /// The event log is unchanged.
    pub open spec fn same_events(self, o: Pallet) -> bool {
        self.spec_events() == o.spec_events()
    }

    /// A fresh bridge: nothing whitelisted, nothing registered, no relayers,
    /// no proposals, no announcements.
    pub fn new(config: Config, admin: Option<AccountId>, threshold: u32) -> (r: Pallet)
        requires
            threshold >= 1,
        ensures
            r.wf(),
            r.spec_config() == config,
            r.spec_admin() == admin,
            r.spec_threshold() == threshold,
            r.resources_map() == Map::<crate::types::ResourceId, Vec<u8>>::empty(),
            r.chains_map() == Map::<ChainId, DepositNonce>::empty(),
            r.proposals_map() == Map::<(ChainId, DepositNonce), ProposalVotes>::empty(),
            r.relayers_seq() == Seq::<AccountId>::empty(),
            r.spec_relayer_count() == 0,
            r.spec_events() == Seq::<Event>::empty(),
    {
        let r = Pallet {
            config,
            admin,
            threshold,
            resource_map: Vec::new(),
            chain_nonces: Vec::new(),
            relayer_set: Vec::new(),
            relayer_count: 0,
            proposal_map: Vec::new(),
            events: Vec::new(),
        };
        proof {
            assert forall|c: ChainId|
                chain_nonce_history_ok(
                    #[trigger] transfer_nonces(r.events@, c),
                    r.chains_map(),
                    c,
                ) by {
                assert(r.events@ =~= Seq::<Event>::empty());
                lemma_transfer_nonces_empty(c);
            }
            assert forall|c: ChainId, n: DepositNonce|
                #[trigger] approval_count(r.events@, c, n) == approved_flag(
                    r.proposals_map(),
                    c,
                    n,
                ) by {
                assert(r.events@ =~= Seq::<Event>::empty());
                lemma_approval_count_empty(c, n);
            }
        }
        r
    }

    /// Checks that `origin` is the configured admin authority or root.
    ///
    /// The authentication that produced `origin` is outside this core; the
    /// authorization failure is therefore outside the typed error taxonomy.
    pub fn ensure_admin(&self, origin: &Origin) -> (r: Result<(), DispatchError>)
        ensures
            r == if self.is_admin_origin(*origin) {
                Ok::<(), DispatchError>(())
            } else {
                Err::<(), DispatchError>(DispatchError::BadOrigin)
            },
    {
        match origin {
            Origin::Root => Ok(()),
            Origin::Signed(a) => {
                match self.admin {
                    Some(adm) => {
                        if adm == *a {
                            Ok(())
                        } else {
                            Err(DispatchError::BadOrigin)
                        }
                    },
                    None => Err(DispatchError::BadOrigin),
                }
            },
        }
    }

    /// Current vote threshold.
    pub fn relayer_threshold(&self) -> (r: u32)
        ensures
            r == self.spec_threshold(),
    {
        self.threshold
    }

    /// Current cached relayer cardinality.
    pub fn relayer_count(&self) -> (r: u32)
        ensures
            r == self.spec_relayer_count(),
    {
        self.relayer_count
    }

    /// Membership of `who` in the relayer set.
    pub fn relayers(&self, who: AccountId) -> (r: bool)
        ensures
            r == self.spec_is_relayer(who),
    {
        account_vec_contains(&self.relayer_set, who)
    }

    /// Checks whether `who` is a relayer.
    pub fn is_relayer(&self, who: AccountId) -> (r: bool)
        ensures
            r == self.spec_is_relayer(who),
    {
        self.relayers(who)
    }

    /// Sets a new voting threshold. A threshold of zero is invalid and
    /// leaves the state untouched.
    pub fn set_relayer_threshold(&mut self, threshold: u32) -> (r: Result<(), Error>)
        requires
            old(self).wf(),
        ensures
            final(self).wf(),
            threshold == 0 ==> r == Err::<(), Error>(Error::InvalidThreshold) && *final(self)
                == *old(self),
            threshold > 0 ==> {
                &&& r == Ok::<(), Error>(())
                &&& final(self).spec_threshold() == threshold
                &&& final(self).spec_events() == old(self).spec_events().push(
                    Event::RelayerThresholdChanged(threshold),
                )
                &&& final(self).same_config(*old(self))
                &&& final(self).same_resources(*old(self))
                &&& final(self).same_chains(*old(self))
                &&& final(self).same_relayers(*old(self))
                &&& final(self).same_proposals(*old(self))
            },
    {
        if threshold == 0 {
            return Err(Error::InvalidThreshold);
        }
        self.threshold = threshold;
        let ghost pre = *self;
        self.events.push(Event::RelayerThresholdChanged(threshold));
        proof {
            lemma_nonce_events_ok_push_non_transfer(
                pre.events@,
                pre.chains_map(),
                Event::RelayerThresholdChanged(threshold),
            );
            lemma_approvals_ok_push_other(
                pre.events@,
                pre.proposals_map(),
                Event::RelayerThresholdChanged(threshold),
            );
        }
        Ok(())
    }

    /// Adds a new relayer to the set.
    pub fn register_relayer(&mut self, relayer: AccountId) -> (r: Result<(), Error>)
        requires
            old(self).wf(),
            old(self).relayers_seq().len() < u32::MAX,
        ensures
            final(self).wf(),
            old(self).spec_is_relayer(relayer) ==> r == Err::<(), Error>(
                Error::RelayerAlreadyExists,
            ) && *final(self) == *old(self),
            !old(self).spec_is_relayer(relayer) ==> {
                &&& r == Ok::<(), Error>(())
                &&& final(self).relayers_seq() == old(self).relayers_seq().push(relayer)
                &&& final(self).spec_relayer_count() == old(self).spec_relayer_count() + 1
                &&& final(self).spec_events() == old(self).spec_events().push(
                    Event::RelayerAdded(relayer),
                )
                &&& final(self).same_config(*old(self))
                &&& final(self).same_resources(*old(self))
                &&& final(self).same_chains(*old(self))
                &&& final(self).same_threshold(*old(self))
                &&& final(self).same_proposals(*old(self))
            },
    {
        if self.relayers(relayer) {
            return Err(Error::RelayerAlreadyExists);
        }
        self.relayer_set.push(relayer);
        // The cached count saturates defensively; the invariant shows the
        // ceiling is never hit.
        self.relayer_count = if self.relayer_count < u32::MAX {
            self.relayer_count + 1
        } else {
            u32::MAX
        };
        let ghost pre = *self;
        self.events.push(Event::RelayerAdded(relayer));
        proof {
            assert(pre.relayer_set@.no_duplicates());
            lemma_nonce_events_ok_push_non_transfer(
                pre.events@,
                pre.chains_map(),
                Event::RelayerAdded(relayer),
            );
            lemma_approvals_ok_push_other(
                pre.events@,
                pre.proposals_map(),
                Event::RelayerAdded(relayer),
            );
        }
        Ok(())
    }

    /// Removes an existing relayer from the set.
    pub fn unregister_relayer(&mut self, relayer: AccountId) -> (r: Result<(), Error>)
        requires
            old(self).wf(),
        ensures
            final(self).wf(),
            !old(self).spec_is_relayer(relayer) ==> r == Err::<(), Error>(Error::RelayerInvalid)
                && *final(self) == *old(self),
            old(self).spec_is_relayer(relayer) ==> {
                &&& r == Ok::<(), Error>(())
                &&& final(self).relayers_seq().to_set() == old(self).relayers_seq().to_set().remove(
                    relayer,
                )
                &&& !final(self).spec_is_relayer(relayer)
                &&& final(self).relayers_seq().len() == old(self).relayers_seq().len() - 1
                &&& final(self).spec_relayer_count() == old(self).spec_relayer_count() - 1
                &&& final(self).spec_events() == old(self).spec_events().push(
                    Event::RelayerRemoved(relayer),
                )
                &&& final(self).same_config(*old(self))
                &&& final(self).same_resources(*old(self))
                &&& final(self).same_chains(*old(self))
                &&& final(self).same_threshold(*old(self))
                &&& final(self).same_proposals(*old(self))
            },
    {
        let found = account_vec_find(&self.relayer_set, relayer);
        match found {
            None => Err(Error::RelayerInvalid),
            Some(i) => {
                let ghost before = self.relayer_set@;
                self.relayer_set.remove(i);
                // The cached count saturates defensively; the invariant shows
                // the floor is never hit.
                self.relayer_count = if self.relayer_count > 0 {
                    self.relayer_count - 1
                } else {
                    0
                };
                let ghost pre = *self;
                self.events.push(Event::RelayerRemoved(relayer));
                proof {
                    lemma_remove_keeps_no_duplicates(before, i as int);
                    lemma_remove_of_unique_drops_member(before, i as int);
                    lemma_nonce_events_ok_push_non_transfer(
                        pre.events@,
                        pre.chains_map(),
                        Event::RelayerRemoved(relayer),
                    );
                    lemma_approvals_ok_push_other(
                        pre.events@,
                        pre.proposals_map(),
                        Event::RelayerRemoved(relayer),
                    );
                }
                Ok(())
            },
        }
    }

    /// Admin entry point: set the vote threshold.
    pub fn set_threshold(&mut self, origin: &Origin, threshold: u32) -> (r: Result<
        (),
        DispatchError,
    >)
        requires
            old(self).wf(),
        ensures
            final(self).wf(),
            !old(self).is_admin_origin(*origin) ==> r == Err::<(), DispatchError>(
                DispatchError::BadOrigin,
            ) && *final(self) == *old(self),
            old(self).is_admin_origin(*origin) && threshold == 0 ==> r == Err::<(), DispatchError>(
                DispatchError::Module(Error::InvalidThreshold),
            ) && *final(self) == *old(self),
            old(self).is_admin_origin(*origin) && threshold > 0 ==> {
                &&& r == Ok::<(), DispatchError>(())
                &&& final(self).spec_threshold() == threshold
                &&& final(self).spec_events() == old(self).spec_events().push(
                    Event::RelayerThresholdChanged(threshold),
                )
                &&& final(self).same_config(*old(self))
                &&& final(self).same_resources(*old(self))
                &&& final(self).same_chains(*old(self))
                &&& final(self).same_relayers(*old(self))
                &&& final(self).same_proposals(*old(self))
            },
    {
        match self.ensure_admin(origin) {
            Err(e) => Err(e),
            Ok(()) => {
                match self.set_relayer_threshold(threshold) {
                    Ok(()) => Ok(()),
                    Err(e) => Err(DispatchError::Module(e)),
                }
            },
        }
    }

    /// Admin entry point: add a relayer.
    pub fn add_relayer(&mut self, origin: &Origin, v: AccountId) -> (r: Result<(), DispatchError>)
        requires
            old(self).wf(),
            old(self).relayers_seq().len() < u32::MAX,
        ensures
            final(self).wf(),
            !old(self).is_admin_origin(*origin) ==> r == Err::<(), DispatchError>(
                DispatchError::BadOrigin,
            ) && *final(self) == *old(self),
            old(self).is_admin_origin(*origin) && old(self).spec_is_relayer(v) ==> r == Err::<
                (),
                DispatchError,
            >(DispatchError::Module(Error::RelayerAlreadyExists)) && *final(self) == *old(self),
            old(self).is_admin_origin(*origin) && !old(self).spec_is_relayer(v) ==> {
                &&& r == Ok::<(), DispatchError>(())
                &&& final(self).relayers_seq() == old(self).relayers_seq().push(v)
                &&& final(self).spec_relayer_count() == old(self).spec_relayer_count() + 1
                &&& final(self).spec_events() == old(self).spec_events().push(
                    Event::RelayerAdded(v),
                )
                &&& final(self).same_config(*old(self))
                &&& final(self).same_resources(*old(self))
                &&& final(self).same_chains(*old(self))
                &&& final(self).same_threshold(*old(self))
                &&& final(self).same_proposals(*old(self))
            },
    {
        match self.ensure_admin(origin) {
            Err(e) => Err(e),
            Ok(()) => {
                match self.register_relayer(v) {
                    Ok(()) => Ok(()),
                    Err(e) => Err(DispatchError::Module(e)),
                }
            },
        }
    }

    /// Admin entry point: remove a relayer.
    pub fn remove_relayer(&mut self, origin: &Origin, v: AccountId) -> (r: Result<
        (),
        DispatchError,
    >)
        requires
            old(self).wf(),
        ensures
            final(self).wf(),
            !old(self).is_admin_origin(*origin) ==> r == Err::<(), DispatchError>(
                DispatchError::BadOrigin,
            ) && *final(self) == *old(self),
            old(self).is_admin_origin(*origin) && !old(self).spec_is_relayer(v) ==> r == Err::<
                (),
                DispatchError,
            >(DispatchError::Module(Error::RelayerInvalid)) && *final(self) == *old(self),
            old(self).is_admin_origin(*origin) && old(self).spec_is_relayer(v) ==> {
                &&& r == Ok::<(), DispatchError>(())
                &&& final(self).relayers_seq().to_set() == old(self).relayers_seq().to_set().remove(
                    v,
                )
                &&& !final(self).spec_is_relayer(v)
                &&& final(self).spec_relayer_count() == old(self).spec_relayer_count() - 1
                &&& final(self).spec_events() == old(self).spec_events().push(
                    Event::RelayerRemoved(v),
                )
                &&& final(self).same_config(*old(self))
                &&& final(self).same_resources(*old(self))
                &&& final(self).same_chains(*old(self))
                &&& final(self).same_threshold(*old(self))
                &&& final(self).same_proposals(*old(self))
            },
    {
        match self.ensure_admin(origin) {
            Err(e) => Err(e),
            Ok(()) => {
                match self.unregister_relayer(v) {
                    Ok(()) => Ok(()),
                    Err(e) => Err(DispatchError::Module(e)),
                }
            },
        }
    }
    /// Registers a handler method under a resource id: an idempotent upsert.
    /// Overwriting is deliberate, handlers may legitimately be updated.
    pub fn register_resource(&mut self, id: crate::types::ResourceId, method: Vec<u8>) -> (r:
        Result<(), Error>)
        requires
            old(self).wf(),
        ensures
            final(self).wf(),
            r == Ok::<(), Error>(()),
            final(self).resources_map() == old(self).resources_map().insert(id, method),
            final(self).same_config(*old(self)),
            final(self).same_chains(*old(self)),
            final(self).same_relayers(*old(self)),
            final(self).same_threshold(*old(self)),
            final(self).same_proposals(*old(self)),
            final(self).same_events(*old(self)),
    {
        let found = self.find_resource(&id);
        let ghost pre = self.resource_map@;
        match found {
            Some(i) => {
                self.resource_map[i] = (id, method);
                proof {
                    lemma_kv_unique_update(pre, i as int, id, self.resource_map@[i as int].1);
                    lemma_kv_map_update(pre, i as int, id, self.resource_map@[i as int].1);
                }
            },
            None => {
                self.resource_map.push((id, method));
                proof {
                    lemma_kv_map_push(pre, id, self.resource_map@.last().1);
                    assert forall|p: int, q: int|
                        0 <= p < q < self.resource_map@.len() implies (
                    #[trigger] self.resource_map@[p]).0 != (#[trigger] self.resource_map@[q]).0 by {
                        if q == pre.len() {
                            assert(self.resource_map@[p] == pre[p]);
                        } else {
                            assert(self.resource_map@[p] == pre[p]);
                            assert(self.resource_map@[q] == pre[q]);
                        }
                    }
                }
            },
        }
        Ok(())
    }

    /// Removes a resource id from the registry; uses of the id fail
    /// afterwards. Removing an unknown id is a no-op that still succeeds.
    pub fn unregister_resource(&mut self, id: crate::types::ResourceId) -> (r: Result<(), Error>)
        requires
            old(self).wf(),
        ensures
            final(self).wf(),
            r == Ok::<(), Error>(()),
            final(self).resources_map() == old(self).resources_map().remove(id),
            final(self).same_config(*old(self)),
            final(self).same_chains(*old(self)),
            final(self).same_relayers(*old(self)),
            final(self).same_threshold(*old(self)),
            final(self).same_proposals(*old(self)),
            final(self).same_events(*old(self)),
    {
        let found = self.find_resource(&id);
        let ghost pre = self.resource_map@;
        match found {
            Some(i) => {
                self.resource_map.remove(i);
                proof {
                    lemma_kv_map_remove(pre, i as int);
                    lemma_kv_unique_remove(pre, i as int);
                }
            },
            None => {
                proof {
                    lemma_kv_map_domain(pre, id);
                    assert(kv_map(pre) =~= kv_map(pre).remove(id));
                }
            },
        }
        Ok(())
    }

    /// Looks up the handler method registered for `id`.
    pub fn resources(&self, id: &crate::types::ResourceId) -> (r: Option<&Vec<u8>>)
        requires
            self.wf(),
        ensures
            match r {
                Some(v) => self.resources_map().contains_key(*id) && *v
                    == self.resources_map().index(*id),
                None => !self.resources_map().contains_key(*id),
            },
    {
        let found = self.find_resource(id);
        proof {
            lemma_kv_map_domain(self.resource_map@, *id);
        }
        match found {
            Some(i) => {
                proof {
                    lemma_kv_map_index(self.resource_map@, i as int);
                }
                Some(&self.resource_map[i].1)
            },
            None => None,
        }
    }

    /// Admin entry point: register a resource.
    pub fn set_resource(&mut self, origin: &Origin, id: crate::types::ResourceId, method: Vec<
        u8,
    >) -> (r: Result<(), DispatchError>)
        requires
            old(self).wf(),
        ensures
            final(self).wf(),
            !old(self).is_admin_origin(*origin) ==> r == Err::<(), DispatchError>(
                DispatchError::BadOrigin,
            ) && *final(self) == *old(self),
            old(self).is_admin_origin(*origin) ==> {
                &&& r == Ok::<(), DispatchError>(())
                &&& final(self).resources_map() == old(self).resources_map().insert(id, method)
                &&& final(self).same_config(*old(self))
                &&& final(self).same_chains(*old(self))
                &&& final(self).same_relayers(*old(self))
                &&& final(self).same_threshold(*old(self))
                &&& final(self).same_proposals(*old(self))
                &&& final(self).same_events(*old(self))
            },
    {
        match self.ensure_admin(origin) {
            Err(e) => Err(e),
            Ok(()) => {
                match self.register_resource(id, method) {
                    Ok(()) => Ok(()),
                    Err(e) => Err(DispatchError::Module(e)),
                }
            },
        }
    }

    /// Admin entry point: remove a resource.
    pub fn remove_resource(&mut self, origin: &Origin, id: crate::types::ResourceId) -> (r: Result<
        (),
        DispatchError,
    >)
        requires
            old(self).wf(),
        ensures
            final(self).wf(),
            !old(self).is_admin_origin(*origin) ==> r == Err::<(), DispatchError>(
                DispatchError::BadOrigin,
            ) && *final(self) == *old(self),
            old(self).is_admin_origin(*origin) ==> {
                &&& r == Ok::<(), DispatchError>(())
                &&& final(self).resources_map() == old(self).resources_map().remove(id)
                &&& final(self).same_config(*old(self))
                &&& final(self).same_chains(*old(self))
                &&& final(self).same_relayers(*old(self))
                &&& final(self).same_threshold(*old(self))
                &&& final(self).same_proposals(*old(self))
                &&& final(self).same_events(*old(self))
            },
    {
        match self.ensure_admin(origin) {
            Err(e) => Err(e),
            Ok(()) => {
                match self.unregister_resource(id) {
                    Ok(()) => Ok(()),
                    Err(e) => Err(DispatchError::Module(e)),
                }
            },
        }
    }

    /// Checks whether a chain is a whitelisted destination or source.
    pub fn chain_whitelisted(&self, id: ChainId) -> (r: bool)
        ensures
            r == self.spec_whitelisted(id),
    {
        let found = self.find_chain(id);
        proof {
            lemma_kv_map_domain(self.chain_nonces@, id);
        }
        match found {
            Some(_) => true,
            None => false,
        }
    }

    /// The nonce stored for a whitelisted chain; absence means the chain is
    /// not whitelisted.
    pub fn chains(&self, id: ChainId) -> (r: Option<DepositNonce>)
        requires
            self.wf(),
        ensures
            r == if self.spec_whitelisted(id) {
                Some(self.spec_nonce(id))
            } else {
                None::<DepositNonce>
            },
    {
        let found = self.find_chain(id);
        proof {
            lemma_kv_map_domain(self.chain_nonces@, id);
        }
        match found {
            Some(i) => {
                proof {
                    lemma_kv_map_index(self.chain_nonces@, i as int);
                }
                Some(self.chain_nonces[i].1)
            },
            None => None,
        }
    }

    /// Whitelists a chain for transfers, starting its nonce at zero. The
    /// local chain's own id is never valid; whitelisting twice fails.
    pub fn whitelist(&mut self, id: ChainId) -> (r: Result<(), Error>)
        requires
            old(self).wf(),
        ensures
            final(self).wf(),
            id == old(self).spec_config().chain_id ==> r == Err::<(), Error>(Error::InvalidChainId)
                && *final(self) == *old(self),
            id != old(self).spec_config().chain_id && old(self).spec_whitelisted(id) ==> r
                == Err::<(), Error>(Error::ChainAlreadyWhitelisted) && *final(self) == *old(self),
            id != old(self).spec_config().chain_id && !old(self).spec_whitelisted(id) ==> {
                &&& r == Ok::<(), Error>(())
                &&& final(self).chains_map() == old(self).chains_map().insert(id, 0)
                &&& final(self).spec_events() == old(self).spec_events().push(
                    Event::ChainWhitelisted(id),
                )
                &&& final(self).same_config(*old(self))
                &&& final(self).same_resources(*old(self))
                &&& final(self).same_relayers(*old(self))
                &&& final(self).same_threshold(*old(self))
                &&& final(self).same_proposals(*old(self))
            },
    {
        if id == self.config.chain_id {
            return Err(Error::InvalidChainId);
        }
        if self.chain_whitelisted(id) {
            return Err(Error::ChainAlreadyWhitelisted);
        }
        let ghost o = *self;
        self.chain_nonces.push((id, 0));
        self.events.push(Event::ChainWhitelisted(id));
        proof {
            lemma_kv_map_domain(o.chain_nonces@, id);
            lemma_kv_map_push(o.chain_nonces@, id, 0);
            assert forall|p: int, q: int|
                0 <= p < q < self.chain_nonces@.len() implies (
            #[trigger] self.chain_nonces@[p]).0 != (#[trigger] self.chain_nonces@[q]).0 by {
                if q == o.chain_nonces@.len() {
                    assert(self.chain_nonces@[p] == o.chain_nonces@[p]);
                } else {
                    assert(self.chain_nonces@[p] == o.chain_nonces@[p]);
                    assert(self.chain_nonces@[q] == o.chain_nonces@[q]);
                }
            }
            lemma_nonce_events_ok_insert_chain(o.events@, o.chains_map(), id);
            lemma_nonce_events_ok_push_non_transfer(
                o.events@,
                o.chains_map().insert(id, 0),
                Event::ChainWhitelisted(id),
            );
            lemma_approvals_ok_push_other(
                o.events@,
                o.proposals_map(),
                Event::ChainWhitelisted(id),
            );
        }
        Ok(())
    }

    /// Admin entry point: whitelist a chain.
    pub fn whitelist_chain(&mut self, origin: &Origin, id: ChainId) -> (r: Result<
        (),
        DispatchError,
    >)
        requires
            old(self).wf(),
        ensures
            final(self).wf(),
            !old(self).is_admin_origin(*origin) ==> r == Err::<(), DispatchError>(
                DispatchError::BadOrigin,
            ) && *final(self) == *old(self),
            old(self).is_admin_origin(*origin) && id == old(self).spec_config().chain_id ==> r
                == Err::<(), DispatchError>(DispatchError::Module(Error::InvalidChainId))
                && *final(self) == *old(self),
            old(self).is_admin_origin(*origin) && id != old(self).spec_config().chain_id
                && old(self).spec_whitelisted(id) ==> r == Err::<(), DispatchError>(
                DispatchError::Module(Error::ChainAlreadyWhitelisted),
            ) && *final(self) == *old(self),
            old(self).is_admin_origin(*origin) && id != old(self).spec_config().chain_id
                && !old(self).spec_whitelisted(id) ==> {
                &&& r == Ok::<(), DispatchError>(())
                &&& final(self).chains_map() == old(self).chains_map().insert(id, 0)
                &&& final(self).spec_events() == old(self).spec_events().push(
                    Event::ChainWhitelisted(id),
                )
                &&& final(self).same_config(*old(self))
                &&& final(self).same_resources(*old(self))
                &&& final(self).same_relayers(*old(self))
                &&& final(self).same_threshold(*old(self))
                &&& final(self).same_proposals(*old(self))
            },
    {
        match self.ensure_admin(origin) {
            Err(e) => Err(e),
            Ok(()) => {
                match self.whitelist(id) {
                    Ok(()) => Ok(()),
                    Err(e) => Err(DispatchError::Module(e)),
                }
            },
        }
    }

    /// Advances the deposit nonce of a whitelisted chain by exactly one and
    /// returns the new value.
    fn bump_nonce(&mut self, id: ChainId) -> (nonce: DepositNonce)
        requires
            old(self).wf(),
            old(self).spec_whitelisted(id),
            old(self).spec_nonce(id) < u64::MAX,
        ensures
            final(self).wf(),
            nonce == old(self).spec_nonce(id) + 1,
            final(self).chains_map() == old(self).chains_map().insert(id, nonce),
            final(self).same_config(*old(self)),
            final(self).same_resources(*old(self)),
            final(self).same_relayers(*old(self)),
            final(self).same_threshold(*old(self)),
            final(self).same_proposals(*old(self)),
            final(self).same_events(*old(self)),
    {
        let found = self.find_chain(id);
        proof {
            lemma_kv_map_domain(self.chain_nonces@, id);
        }
        match found {
            Some(i) => {
                let ghost pre = self.chain_nonces@;
                proof {
                    lemma_kv_map_index(pre, i as int);
                }
                let n = self.chain_nonces[i].1;
                self.chain_nonces[i] = (id, n + 1);
                proof {
                    lemma_kv_unique_update(pre, i as int, id, (n + 1) as u64);
                    lemma_kv_map_update(pre, i as int, id, (n + 1) as u64);
                    lemma_nonce_events_ok_bump(
                        self.events@,
                        kv_map(pre),
                        id,
                        (n + 1) as DepositNonce,
                    );
                }
                n + 1
            },
            None => {
                // Unreachable: the chain is whitelisted, so the scan finds it.
                proof {
                    assert(false);
                }
                0
            },
        }
    }

    /// Advances and returns the next deposit nonce for a whitelisted
    /// destination, atomically with its persistence: no two calls can
    /// observe or assign the same value.
    pub fn next_nonce(&mut self, id: ChainId) -> (r: Result<DepositNonce, Error>)
        requires
            old(self).wf(),
            old(self).spec_whitelisted(id) ==> old(self).spec_nonce(id) < u64::MAX,
        ensures
            final(self).wf(),
            !old(self).spec_whitelisted(id) ==> r == Err::<DepositNonce, Error>(
                Error::ChainNotWhitelisted,
            ) && *final(self) == *old(self),
            old(self).spec_whitelisted(id) ==> {
                let n = (old(self).spec_nonce(id) + 1) as u64;
                &&& r == Ok::<DepositNonce, Error>(n)
                &&& final(self).chains_map() == old(self).chains_map().insert(id, n)
                &&& final(self).same_config(*old(self))
                &&& final(self).same_resources(*old(self))
                &&& final(self).same_relayers(*old(self))
                &&& final(self).same_threshold(*old(self))
                &&& final(self).same_proposals(*old(self))
                &&& final(self).same_events(*old(self))
            },
    {
        if !self.chain_whitelisted(id) {
            return Err(Error::ChainNotWhitelisted);
        }
        Ok(self.bump_nonce(id))
    }

    /// Announces a fungible transfer out of the chain: validates the
    /// destination, stamps the next nonce and emits the announcement.
    pub fn transfer_fungible(
        &mut self,
        dest_id: ChainId,
        resource_id: crate::types::ResourceId,
        to: Vec<u8>,
        amount: crate::types::TransferAmount,
    ) -> (r: Result<(), Error>)
        requires
            old(self).wf(),
            old(self).spec_whitelisted(dest_id) ==> old(self).spec_nonce(dest_id) < u64::MAX,
        ensures
            final(self).wf(),
            !old(self).spec_whitelisted(dest_id) ==> r == Err::<(), Error>(
                Error::ChainNotWhitelisted,
            ) && *final(self) == *old(self),
            old(self).spec_whitelisted(dest_id) ==> {
                let n = (old(self).spec_nonce(dest_id) + 1) as u64;
                &&& r == Ok::<(), Error>(())
                &&& final(self).chains_map() == old(self).chains_map().insert(dest_id, n)
                &&& final(self).spec_events() == old(self).spec_events().push(
                    Event::FungibleTransfer(dest_id, n, resource_id, amount, to),
                )
                &&& final(self).same_config(*old(self))
                &&& final(self).same_resources(*old(self))
                &&& final(self).same_relayers(*old(self))
                &&& final(self).same_threshold(*old(self))
                &&& final(self).same_proposals(*old(self))
            },
    {
        if !self.chain_whitelisted(dest_id) {
            return Err(Error::ChainNotWhitelisted);
        }
        let ghost o = *self;
        let nonce = self.bump_nonce(dest_id);
        self.events.push(Event::FungibleTransfer(dest_id, nonce, resource_id, amount, to));
        proof {
            lemma_nonce_events_ok_transfer(
                o.events@,
                o.chains_map(),
                self.events@.last(),
                dest_id,
                nonce,
            );
            lemma_approvals_ok_push_other(o.events@, o.proposals_map(), self.events@.last());
        }
        Ok(())
    }


    /// Announces a non-fungible transfer out of the chain.
    pub fn transfer_nonfungible(
        &mut self,
        dest_id: ChainId,
        resource_id: crate::types::ResourceId,
        token_id: Vec<u8>,
        to: Vec<u8>,
        metadata: Vec<u8>,
    ) -> (r: Result<(), Error>)
        requires
            old(self).wf(),
            old(self).spec_whitelisted(dest_id) ==> old(self).spec_nonce(dest_id) < u64::MAX,
        ensures
            final(self).wf(),
            !old(self).spec_whitelisted(dest_id) ==> r == Err::<(), Error>(
                Error::ChainNotWhitelisted,
            ) && *final(self) == *old(self),
            old(self).spec_whitelisted(dest_id) ==> {
                let n = (old(self).spec_nonce(dest_id) + 1) as u64;
                &&& r == Ok::<(), Error>(())
                &&& final(self).chains_map() == old(self).chains_map().insert(dest_id, n)
                &&& final(self).spec_events() == old(self).spec_events().push(
                    Event::NonFungibleTransfer(dest_id, n, resource_id, token_id, to, metadata),
                )
                &&& final(self).same_config(*old(self))
                &&& final(self).same_resources(*old(self))
                &&& final(self).same_relayers(*old(self))
                &&& final(self).same_threshold(*old(self))
                &&& final(self).same_proposals(*old(self))
            },
    {
        if !self.chain_whitelisted(dest_id) {
            return Err(Error::ChainNotWhitelisted);
        }
        let ghost o = *self;
        let nonce = self.bump_nonce(dest_id);
        self.events.push(
            Event::NonFungibleTransfer(dest_id, nonce, resource_id, token_id, to, metadata),
        );
        proof {
            lemma_nonce_events_ok_transfer(
                o.events@,
                o.chains_map(),
                self.events@.last(),
                dest_id,
                nonce,
            );
            lemma_approvals_ok_push_other(o.events@, o.proposals_map(), self.events@.last());
        }
        Ok(())
    }

    /// Announces a generic data payload out of the chain.
    pub fn transfer_generic(
        &mut self,
        dest_id: ChainId,
        resource_id: crate::types::ResourceId,
        metadata: Vec<u8>,
    ) -> (r: Result<(), Error>)
        requires
            old(self).wf(),
            old(self).spec_whitelisted(dest_id) ==> old(self).spec_nonce(dest_id) < u64::MAX,
        ensures
            final(self).wf(),
            !old(self).spec_whitelisted(dest_id) ==> r == Err::<(), Error>(
                Error::ChainNotWhitelisted,
            ) && *final(self) == *old(self),
            old(self).spec_whitelisted(dest_id) ==> {
                let n = (old(self).spec_nonce(dest_id) + 1) as u64;
                &&& r == Ok::<(), Error>(())
                &&& final(self).chains_map() == old(self).chains_map().insert(dest_id, n)
                &&& final(self).spec_events() == old(self).spec_events().push(
                    Event::GenericTransfer(dest_id, n, resource_id, metadata),
                )
                &&& final(self).same_config(*old(self))
                &&& final(self).same_resources(*old(self))
                &&& final(self).same_relayers(*old(self))
                &&& final(self).same_threshold(*old(self))
                &&& final(self).same_proposals(*old(self))
            },
    {
        if !self.chain_whitelisted(dest_id) {
            return Err(Error::ChainNotWhitelisted);
        }
        let ghost o = *self;
        let nonce = self.bump_nonce(dest_id);
        self.events.push(Event::GenericTransfer(dest_id, nonce, resource_id, metadata));
        proof {
            lemma_nonce_events_ok_transfer(
                o.events@,
                o.chains_map(),
                self.events@.last(),
                dest_id,
                nonce,
            );
            lemma_approvals_ok_push_other(o.events@, o.proposals_map(), self.events@.last());
        }
        Ok(())
    }

    /// One relayer's vote on the proposal identified by (`src_id`, `nonce`).
    ///
    /// The first vote on an unseen key creates the proposal, provided the
    /// resource id is registered; its expiry is stamped from `now` and the
    /// configured lifetime. Expiry is enforced lazily: a proposal touched
    /// after its expiry block transitions to `Expired` and rejects the vote.
    /// An accepted vote re-evaluates the tally; the vote that reaches the
    /// threshold approves the proposal and dispatches its call at once, and
    /// the vote that makes approval impossible rejects it.
    pub fn cast_vote<D: Dispatcher>(
        &mut self,
        who: AccountId,
        src_id: ChainId,
        nonce: DepositNonce,
        affirmative: bool,
        resource_id: crate::types::ResourceId,
        payload: Vec<u8>,
        now: BlockNumber,
        dispatcher: &mut D,
    ) -> (r: Result<(), Error>)
        requires
            old(self).wf(),
            !old(self).proposals_map().contains_key((src_id, nonce)) ==> now + old(
                self,
            ).spec_config().proposal_lifetime <= u64::MAX,
        ensures
            final(self).wf(),
            ({
                let o = *old(self);
                let f = *final(self);
                let key = (src_id, nonce);
                if !o.spec_is_relayer(who) {
                    r == Err::<(), Error>(Error::MustBeRelayer) && f == o
                } else if !o.spec_whitelisted(src_id) {
                    r == Err::<(), Error>(Error::ChainNotWhitelisted) && f == o
                } else if !o.proposals_map().contains_key(key) {
                    if !o.resources_map().contains_key(resource_id) {
                        r == Err::<(), Error>(Error::ResourceDoesNotExist) && f == o
                    } else {
                        r == Ok::<(), Error>(()) && vote_applied(
                            o,
                            f,
                            src_id,
                            nonce,
                            Seq::empty(),
                            Seq::empty(),
                            (now + o.spec_config().proposal_lifetime) as u64,
                            resource_id,
                            payload@,
                            who,
                            affirmative,
                        )
                    }
                } else {
                    let prop = o.proposals_map()[key];
                    if !(prop.status is Active) {
                        r == Err::<(), Error>(Error::ProposalAlreadyComplete) && f == o
                    } else if now > prop.expiry {
                        &&& r == Err::<(), Error>(Error::ProposalExpired)
                        &&& f.proposals_map().contains_key(key)
                        &&& f.proposals_map()[key].status is Expired
                        &&& f.proposals_map()[key].votes_for@ == prop.votes_for@
                        &&& f.proposals_map()[key].votes_against@ == prop.votes_against@
                        &&& f.proposals_map()[key].expiry == prop.expiry
                        &&& f.proposals_map()[key].resource_id == prop.resource_id
                        &&& f.proposals_map()[key].payload@ == prop.payload@
                        &&& f.proposals_map().remove(key) == o.proposals_map().remove(key)
                        &&& f.spec_events() == o.spec_events().push(
                            Event::ProposalExpired(src_id, nonce),
                        )
                        &&& f.same_config(o)
                        &&& f.same_resources(o)
                        &&& f.same_chains(o)
                        &&& f.same_relayers(o)
                        &&& f.same_threshold(o)
                    } else if prop.spec_has_voted(who) {
                        r == Err::<(), Error>(Error::RelayerAlreadyVoted) && f == o
                    } else {
                        r == Ok::<(), Error>(()) && vote_applied(
                            o,
                            f,
                            src_id,
                            nonce,
                            prop.votes_for@,
                            prop.votes_against@,
                            prop.expiry,
                            prop.resource_id,
                            prop.payload@,
                            who,
                            affirmative,
                        )
                    }
                }
            }),
    {
        if !self.is_relayer(who) {
            return Err(Error::MustBeRelayer);
        }
        if !self.chain_whitelisted(src_id) {
            return Err(Error::ChainNotWhitelisted);
        }
        let found = self.find_proposal(src_id, nonce);
        proof {
            lemma_kv_map_domain(self.proposal_map@, (src_id, nonce));
        }
        match found {
            None => {
                let has_resource = self.find_resource(&resource_id);
                proof {
                    lemma_kv_map_domain(self.resource_map@, resource_id);
                }
                match has_resource {
                    None => Err(Error::ResourceDoesNotExist),
                    Some(_) => {
                        let expiry = now + self.config.proposal_lifetime;
                        let prop = ProposalVotes {
                            votes_for: Vec::new(),
                            votes_against: Vec::new(),
                            status: ProposalStatus::Active,
                            expiry,
                            resource_id,
                            payload,
                        };
                        self.vote_on(src_id, nonce, prop, who, affirmative, dispatcher)
                    },
                }
            },
            Some(i) => {
                proof {
                    lemma_kv_map_index(self.proposal_map@, i as int);
                }
                let active = match self.proposal_map[i].1.status {
                    ProposalStatus::Active => true,
                    _ => false,
                };
                if !active {
                    return Err(Error::ProposalAlreadyComplete);
                }
                let expiry = self.proposal_map[i].1.expiry;
                if now > expiry {
                    let ghost o = *self;
                    let mut entry = self.proposal_map.remove(i);
                    entry.1.status = ProposalStatus::Expired;
                    self.proposal_map.push(entry);
                    self.events.push(Event::ProposalExpired(src_id, nonce));
                    proof {
                        let ghost key = (src_id, nonce);
                        lemma_kv_unique_remove(o.proposal_map@, i as int);
                        lemma_kv_map_remove(o.proposal_map@, i as int);
                        let mid = o.proposal_map@.remove(i as int);
                        lemma_kv_map_push(mid, key, self.proposal_map@.last().1);
                        lemma_kv_map_domain(mid, key);
                        assert forall|p: int, q: int|
                            0 <= p < q < self.proposal_map@.len() implies (
                        #[trigger] self.proposal_map@[p]).0 != (
                        #[trigger] self.proposal_map@[q]).0 by {
                            if q < mid.len() {
                                assert(self.proposal_map@[p] == mid[p]);
                                assert(self.proposal_map@[q] == mid[q]);
                            } else {
                                assert(self.proposal_map@[p] == mid[p]);
                                if mid[p].0 == key {
                                    lemma_kv_map_index(mid, p);
                                    assert(kv_map(mid).contains_key(key));
                                    assert(kv_map(mid) == kv_map(o.proposal_map@).remove(key));
                                    assert(false);
                                }
                            }
                        }
                        assert(kv_map(self.proposal_map@) == kv_map(mid).insert(
                            key,
                            self.proposal_map@.last().1,
                        ));
                        assert(kv_map(self.proposal_map@).remove(key) =~= kv_map(mid));
                        assert forall|j: int|
                            0 <= j < self.proposal_map@.len() implies (
                        #[trigger] self.proposal_map@[j]).1.wf() by {
                            if j < mid.len() {
                                assert(self.proposal_map@[j] == mid[j]);
                                let j0: int = if j < i as int {
                                    j
                                } else {
                                    j + 1
                                };
                                assert(mid[j] == o.proposal_map@[j0]);
                            }
                        }
                        lemma_nonce_events_ok_push_non_transfer(
                            o.events@,
                            o.chains_map(),
                            Event::ProposalExpired(src_id, nonce),
                        );
                        lemma_approvals_ok_insert_nonapproved(
                            o.events@,
                            o.proposals_map(),
                            src_id,
                            nonce,
                            self.proposal_map@.last().1,
                        );
                        assert(kv_map(self.proposal_map@) == o.proposals_map().insert(
                            key,
                            self.proposal_map@.last().1,
                        )) by {
                            assert(kv_map(mid).insert(key, self.proposal_map@.last().1)
                                =~= o.proposals_map().insert(key, self.proposal_map@.last().1));
                        }
                        lemma_approvals_ok_push_other(
                            o.events@,
                            kv_map(self.proposal_map@),
                            Event::ProposalExpired(src_id, nonce),
                        );
                    }
                    return Err(Error::ProposalExpired);
                }
                let voted_for = account_vec_contains(&self.proposal_map[i].1.votes_for, who);
                let voted_against = account_vec_contains(
                    &self.proposal_map[i].1.votes_against,
                    who,
                );
                if voted_for || voted_against {
                    return Err(Error::RelayerAlreadyVoted);
                }
                let ghost o = *self;
                let entry = self.proposal_map.remove(i);
                proof {
                    lemma_kv_unique_remove(o.proposal_map@, i as int);
                    lemma_kv_map_remove(o.proposal_map@, i as int);
                    lemma_kv_map_domain(o.proposal_map@.remove(i as int), (src_id, nonce));
                    assert forall|j: int|
                        0 <= j < self.proposal_map@.len() implies (
                    #[trigger] self.proposal_map@[j]).1.wf() by {
                        let j0: int = if j < i as int {
                            j
                        } else {
                            j + 1
                        };
                        assert(self.proposal_map@[j] == o.proposal_map@[j0]);
                    }
                    lemma_approvals_ok_remove_nonapproved(
                        o.events@,
                        o.proposals_map(),
                        src_id,
                        nonce,
                    );
                    assert(!kv_map(self.proposal_map@).contains_key((src_id, nonce))) by {
                        if kv_map(self.proposal_map@).contains_key((src_id, nonce)) {
                            let j = choose|j: int|
                                0 <= j < self.proposal_map@.len() && (
                                #[trigger] self.proposal_map@[j]).0 == (src_id, nonce);
                            let j0: int = if j < i as int {
                                j
                            } else {
                                j + 1
                            };
                            assert(o.proposal_map@[j0].0 == (src_id, nonce));
                            assert(o.proposal_map@[i as int].0 == (src_id, nonce));
                        }
                    }
                }
                let ghost o2 = *self;
                let res = self.vote_on(src_id, nonce, entry.1, who, affirmative, dispatcher);
                proof {
                    let key = (src_id, nonce);
                    assert(o2.proposals_map() == o.proposals_map().remove(key));
                    assert(o2.proposals_map().remove(key) =~= o.proposals_map().remove(key));
                }
                res
            },
        }
    }

    /// Introspection: the status of the proposal for (`src_id`, `nonce`);
    /// absence means no vote has been cast yet. The query is pure: an
    /// expired but untouched proposal still reports its stored status.
    pub fn proposal_status(&self, src_id: ChainId, nonce: DepositNonce) -> (r: Option<
        ProposalStatus,
    >)
        requires
            self.wf(),
        ensures
            r == if self.proposals_map().contains_key((src_id, nonce)) {
                Some(self.proposals_map()[(src_id, nonce)].status)
            } else {
                None::<ProposalStatus>
            },
    {
        let found = self.find_proposal(src_id, nonce);
        proof {
            lemma_kv_map_domain(self.proposal_map@, (src_id, nonce));
        }
        match found {
            Some(i) => {
                proof {
                    lemma_kv_map_index(self.proposal_map@, i as int);
                }
                Some(self.proposal_map[i].1.status)
            },
            None => None,
        }
    }

    /// Introspection: the full vote record for (`src_id`, `nonce`).
    pub fn proposal_votes(&self, src_id: ChainId, nonce: DepositNonce) -> (r: Option<
        &ProposalVotes,
    >)
        requires
            self.wf(),
        ensures
            match r {
                Some(p) => self.proposals_map().contains_key((src_id, nonce)) && *p
                    == self.proposals_map().index((src_id, nonce)),
                None => !self.proposals_map().contains_key((src_id, nonce)),
            },
    {
        let found = self.find_proposal(src_id, nonce);
        proof {
            lemma_kv_map_domain(self.proposal_map@, (src_id, nonce));
        }
        match found {
            Some(i) => {
                proof {
                    lemma_kv_map_index(self.proposal_map@, i as int);
                }
                Some(&self.proposal_map[i].1)
            },
            None => None,
        }
    }

    /// Read access to the announcement log.
    pub fn events(&self) -> (r: &Vec<Event>)
        ensures
            r@ == self.spec_events(),
    {
        &self.events
    }

    /// Records one vote on a proposal that is not in the store, re-evaluates
    /// the tally and stores the result, dispatching the call on approval.
    fn vote_on<D: Dispatcher>(
        &mut self,
        src_id: ChainId,
        nonce: DepositNonce,
        prop: ProposalVotes,
        who: AccountId,
        affirmative: bool,
        dispatcher: &mut D,
    ) -> (r: Result<(), Error>)
        requires
            old(self).wf(),
            !old(self).proposals_map().contains_key((src_id, nonce)),
            prop.wf(),
            prop.is_active(),
            !prop.spec_has_voted(who),
        ensures
            final(self).wf(),
            r == Ok::<(), Error>(()),
            vote_applied(
                *old(self),
                *final(self),
                src_id,
                nonce,
                prop.votes_for@,
                prop.votes_against@,
                prop.expiry,
                prop.resource_id,
                prop.payload@,
                who,
                affirmative,
            ),
    {
        let ghost o = *self;
        let ghost prop0 = prop;
        let mut prop = prop;
        if affirmative {
            prop.votes_for.push(who);
            self.events.push(Event::VoteFor(src_id, nonce, who));
        } else {
            prop.votes_against.push(who);
            self.events.push(Event::VoteAgainst(src_id, nonce, who));
        }
        let ghost e1 = self.events@.last();
        proof {
            lemma_nonce_events_ok_push_non_transfer(o.events@, o.chains_map(), e1);
        }
        let approved = prop.votes_for.len() >= (self.threshold as usize);
        let rejected = !approved && (prop.votes_against.len() as u128) + (self.threshold as u128)
            > (self.relayer_count as u128);
        if approved {
            prop.status = ProposalStatus::Approved;
            let ghost pre2 = self.events@;
            self.events.push(Event::ProposalApproved(src_id, nonce));
            proof {
                lemma_nonce_events_ok_push_non_transfer(
                    pre2,
                    o.chains_map(),
                    Event::ProposalApproved(src_id, nonce),
                );
            }
            let outcome = dispatcher.execute(&prop.resource_id, &prop.payload);
            let ghost pre3 = self.events@;
            match outcome {
                Ok(()) => self.events.push(Event::ProposalSucceeded(src_id, nonce)),
                Err(_) => self.events.push(Event::ProposalFailed(src_id, nonce)),
            }
            proof {
                lemma_nonce_events_ok_push_non_transfer(pre3, o.chains_map(), self.events@.last());
            }
        } else if rejected {
            prop.status = ProposalStatus::Rejected;
            let ghost pre2 = self.events@;
            self.events.push(Event::ProposalRejected(src_id, nonce));
            proof {
                lemma_nonce_events_ok_push_non_transfer(
                    pre2,
                    o.chains_map(),
                    Event::ProposalRejected(src_id, nonce),
                );
            }
        }
        let ghost pre_push = self.proposal_map@;
        self.proposal_map.push(((src_id, nonce), prop));
        proof {
            let key = (src_id, nonce);
            lemma_kv_map_domain(pre_push, key);
            lemma_kv_map_push(pre_push, key, self.proposal_map@.last().1);
            assert forall|p: int, q: int|
                0 <= p < q < self.proposal_map@.len() implies (
            #[trigger] self.proposal_map@[p]).0 != (#[trigger] self.proposal_map@[q]).0 by {
                if q == pre_push.len() {
                    assert(self.proposal_map@[p] == pre_push[p]);
                } else {
                    assert(self.proposal_map@[p] == pre_push[p]);
                    assert(self.proposal_map@[q] == pre_push[q]);
                }
            }
            let pv = self.proposal_map@.last().1;
            if affirmative {
                lemma_push_no_duplicates(prop0.votes_for@, who);
                assert(pv.votes_for@ == prop0.votes_for@.push(who));
                assert(pv.votes_against@ == prop0.votes_against@);
                assert forall|x: AccountId| pv.votes_for@.contains(x) implies !(
                #[trigger] pv.votes_against@.contains(x)) by {
                    if x != who {
                        assert(prop0.votes_for@.contains(x));
                    }
                }
            } else {
                lemma_push_no_duplicates(prop0.votes_against@, who);
                assert(pv.votes_for@ == prop0.votes_for@);
                assert(pv.votes_against@ == prop0.votes_against@.push(who));
                assert forall|x: AccountId| pv.votes_for@.contains(x) implies !(
                #[trigger] pv.votes_against@.contains(x)) by {
                    if pv.votes_against@.contains(x) {
                        if x == who {
                            assert(prop0.spec_has_voted(who));
                        } else {
                            assert(prop0.votes_against@.contains(x));
                        }
                    }
                }
            }
            assert(pv.wf());
            assert forall|j: int|
                0 <= j < self.proposal_map@.len() implies (
            #[trigger] self.proposal_map@[j]).1.wf() by {
                if j < pre_push.len() {
                    assert(self.proposal_map@[j] == pre_push[j]);
                }
            }
            assert(kv_map(self.proposal_map@).remove(key) =~= kv_map(pre_push).remove(key));
            assert(kv_map(pre_push).remove(key) =~= kv_map(pre_push));
            lemma_approvals_ok_push_other(o.events@, o.proposals_map(), e1);
            if approved {
                let e3 = self.events@.last();
                assert(self.events@ == o.events@.push(e1).push(
                    Event::ProposalApproved(src_id, nonce),
                ).push(e3));
                lemma_approvals_ok_approve(
                    o.events@.push(e1),
                    o.proposals_map(),
                    src_id,
                    nonce,
                    pv,
                );
                lemma_approvals_ok_push_other(
                    o.events@.push(e1).push(Event::ProposalApproved(src_id, nonce)),
                    o.proposals_map().insert(key, pv),
                    e3,
                );
            } else if rejected {
                lemma_approvals_ok_push_other(
                    o.events@.push(e1),
                    o.proposals_map(),
                    Event::ProposalRejected(src_id, nonce),
                );
                lemma_approvals_ok_insert_nonapproved(
                    self.events@,
                    o.proposals_map(),
                    src_id,
                    nonce,
                    pv,
                );
            } else {
                lemma_approvals_ok_insert_nonapproved(
                    self.events@,
                    o.proposals_map(),
                    src_id,
                    nonce,
                    pv,
                );
            }
            assert(kv_map(self.proposal_map@) == o.proposals_map().insert(key, pv));
        }
        Ok(())
    }

    /// Linear scan of the proposal store for (`src_id`, `nonce`).
    fn find_proposal(&self, src_id: ChainId, nonce: DepositNonce) -> (r: Option<usize>)
        ensures
            match r {
                Some(i) => i < self.proposal_map@.len() && self.proposal_map@[i as int].0 == (
                    src_id,
                    nonce,
                ),
                None => forall|j: int|
                    0 <= j < self.proposal_map@.len() ==> (#[trigger] self.proposal_map@[j]).0 != (
                        src_id,
                        nonce,
                    ),
            },
    {
        let mut i: usize = 0;
        while i < self.proposal_map.len()
            invariant
                i <= self.proposal_map@.len(),
                forall|j: int|
                    0 <= j < i ==> (#[trigger] self.proposal_map@[j]).0 != (src_id, nonce),
            decreases self.proposal_map@.len() - i,
        {
            if self.proposal_map[i].0.0 == src_id && self.proposal_map[i].0.1 == nonce {
                return Some(i);
            }
            i += 1;
        }
        None
    }

    /// Linear scan of the resource registry for `id`.
    fn find_resource(&self, id: &crate::types::ResourceId) -> (r: Option<usize>)
        ensures
            match r {
                Some(i) => i < self.resource_map@.len() && self.resource_map@[i as int].0 == *id,
                None => forall|j: int|
                    0 <= j < self.resource_map@.len() ==> (#[trigger] self.resource_map@[j]).0
                        != *id,
            },
    {
        let mut i: usize = 0;
        while i < self.resource_map.len()
            invariant
                i <= self.resource_map@.len(),
                forall|j: int| 0 <= j < i ==> (#[trigger] self.resource_map@[j]).0 != *id,
            decreases self.resource_map@.len() - i,
        {
            if resource_id_eq(&self.resource_map[i].0, id) {
                return Some(i);
            }
            i += 1;
        }
        None
    }

    /// Linear scan of the chain whitelist for `id`.
    fn find_chain(&self, id: ChainId) -> (r: Option<usize>)
        ensures
            match r {
                Some(i) => i < self.chain_nonces@.len() && self.chain_nonces@[i as int].0 == id,
                None => forall|j: int|
                    0 <= j < self.chain_nonces@.len() ==> (#[trigger] self.chain_nonces@[j]).0
                        != id,
            },
    {
        let mut i: usize = 0;
        while i < self.chain_nonces.len()
            invariant
                i <= self.chain_nonces@.len(),
                forall|j: int| 0 <= j < i ==> (#[trigger] self.chain_nonces@[j]).0 != id,
            decreases self.chain_nonces@.len() - i,
        {
            if self.chain_nonces[i].0 == id {
                return Some(i);
            }
            i += 1;
        }
        None
    }
}

/// Law: once a chain is whitelisted, the nonces stamped on its outbound
/// transfer announcements form a strictly increasing sequence — no repeats,
/// no decreases — across any number of calls.
pub proof fn lemma_transfer_nonces_strictly_increase(s: Pallet, c: ChainId)
    requires
        s.wf(),
    ensures
        strictly_increasing(transfer_nonces(s.spec_events(), c)),
{
    assert(chain_nonce_history_ok(transfer_nonces(s.spec_events(), c), s.chains_map(), c));
}

/// Every stored vote record is well-formed: no relayer appears twice in one
/// tally, and none appears in both.
pub proof fn lemma_proposal_wf(s: Pallet, src_id: ChainId, nonce: DepositNonce)
    requires
        s.wf(),
        s.proposals_map().contains_key((src_id, nonce)),
    ensures
        s.proposals_map()[(src_id, nonce)].wf(),
{
    lemma_kv_map_domain(s.proposal_map@, (src_id, nonce));
    let i = choose|i: int|
        0 <= i < s.proposal_map@.len() && (#[trigger] s.proposal_map@[i]).0 == (src_id, nonce);
    lemma_kv_map_index(s.proposal_map@, i);
}

/// Law: the two tallies of a proposal are disjoint, and as long as every
/// voter is still a relayer, the distinct voters across both tallies never
/// exceed the relayer count. (Removing a relayer who has already voted can
/// push the count below the tally; the subset hypothesis states exactly
/// that no voter has been removed.)
pub proof fn lemma_distinct_voters_bounded(s: Pallet, src_id: ChainId, nonce: DepositNonce)
    requires
        s.wf(),
        s.proposals_map().contains_key((src_id, nonce)),
        forall|a: AccountId|
            s.proposals_map()[(src_id, nonce)].votes_for@.contains(a)
                ==> #[trigger] s.spec_is_relayer(a),
        forall|a: AccountId|
            s.proposals_map()[(src_id, nonce)].votes_against@.contains(a)
                ==> #[trigger] s.spec_is_relayer(a),
    ensures
        ({
            let p = s.proposals_map()[(src_id, nonce)];
            &&& p.votes_for@.to_set().disjoint(p.votes_against@.to_set())
            &&& p.votes_for@.len() + p.votes_against@.len() <= s.spec_relayer_count()
        }),
{
    broadcast use vstd::seq_lib::seq_to_set_is_finite;
    broadcast use vstd::set::group_set_axioms;

    lemma_proposal_wf(s, src_id, nonce);
    let p = s.proposals_map()[(src_id, nonce)];
    let vf = p.votes_for@;
    let va = p.votes_against@;
    let rs = s.relayers_seq();
    vf.unique_seq_to_set();
    va.unique_seq_to_set();
    rs.unique_seq_to_set();
    assert(vf.to_set().disjoint(va.to_set())) by {
        assert forall|x: AccountId| vf.to_set().contains(x) implies !va.to_set().contains(
            x,
        ) by {
            assert(vf.contains(x));
        }
    }
    vstd::set_lib::lemma_set_disjoint_lens(vf.to_set(), va.to_set());
    assert forall|x: AccountId| (vf.to_set() + va.to_set()).contains(x) implies rs.to_set()
        .contains(x) by {
        if vf.to_set().contains(x) {
            assert(vf.contains(x));
        } else {
            assert(va.contains(x));
        }
        assert(s.spec_is_relayer(x));
        assert(rs.contains(x));
    }
    assert((vf.to_set() + va.to_set()).subset_of(rs.to_set()));
    vstd::set_lib::lemma_len_subset(vf.to_set() + va.to_set(), rs.to_set());
}

/// Law: the approval of a proposal is announced — and its call therefore
/// dispatched — exactly once, by the vote that first reached the threshold:
/// the log carries one approval announcement for an approved proposal and
/// none for a key in any other state.
pub proof fn lemma_approval_announced_exactly_once(s: Pallet, src_id: ChainId, nonce: DepositNonce)
    requires
        s.wf(),
    ensures
        approval_count(s.spec_events(), src_id, nonce) == (
        if s.proposals_map().contains_key((src_id, nonce)) && s.proposals_map()[
            (src_id, nonce)
        ].status is Approved {
            1nat
        } else {
            0nat
        }),
{
    assert(approval_count(s.spec_events(), src_id, nonce) == approved_flag(
        s.proposals_map(),
        src_id,
        nonce,
    ));
}

/// Byte-wise equality of two resource ids.
fn resource_id_eq(a: &crate::types::ResourceId, b: &crate::types::ResourceId) -> (r: bool)
    ensures
        r == (*a == *b),
{
    let mut i: usize = 0;
    while i < 32
        invariant
            i <= 32,
            forall|j: int| 0 <= j < i ==> a@[j] == b@[j],
        decreases 32 - i,
    {
        if a[i] != b[i] {
            proof {
                assert(a@[i as int] != b@[i as int]);
            }
            return false;
        }
        i += 1;
    }
    proof {
        broadcast use vstd::array::group_array_axioms;

        assert(*a =~= *b);
    }
    true
}

/// Linear membership scan over an account vector.
fn account_vec_contains(v: &Vec<AccountId>, who: AccountId) -> (r: bool)
    ensures
        r == v@.contains(who),
{
    let mut i: usize = 0;
    while i < v.len()
        invariant
            i <= v@.len(),
            forall|j: int| 0 <= j < i ==> v@[j] != who,
        decreases v@.len() - i,
    {
        if v[i] == who {
            return true;
        }
        i += 1;
    }
    false
}

/// Linear index scan over an account vector.
fn account_vec_find(v: &Vec<AccountId>, who: AccountId) -> (r: Option<usize>)
    ensures
        match r {
            Some(i) => i < v@.len() && v@[i as int] == who,
            None => !v@.contains(who),
        },
{
    let mut i: usize = 0;
    while i < v.len()
        invariant
            i <= v@.len(),
            forall|j: int| 0 <= j < i ==> v@[j] != who,
        decreases v@.len() - i,
    {
        if v[i] == who {
            return Some(i);
        }
        i += 1;
    }
    None
}

/// Removing one entry of a duplicate-free sequence keeps it duplicate-free.
proof fn lemma_remove_keeps_no_duplicates(s: Seq<AccountId>, i: int)
    requires
        s.no_duplicates(),
        0 <= i < s.len(),
    ensures
        s.remove(i).no_duplicates(),
{
    let t = s.remove(i);
    assert forall|p: int, q: int| 0 <= p < q < t.len() implies t[p] != t[q] by {
        let p0: int = if p < i {
            p
        } else {
            p + 1
        };
        let q0: int = if q < i {
            q
        } else {
            q + 1
        };
        assert(t[p] == s[p0]);
        assert(t[q] == s[q0]);
    }
}

/// Removing the only entry equal to `s[i]` from a duplicate-free sequence
/// turns its membership set into the set without that member.
proof fn lemma_remove_of_unique_drops_member(s: Seq<AccountId>, i: int)
    requires
        s.no_duplicates(),
        0 <= i < s.len(),
    ensures
        s.remove(i).to_set() == s.to_set().remove(s[i]),
        !s.remove(i).contains(s[i]),
        forall|a: AccountId| a != s[i] ==> s.remove(i).contains(a) == s.contains(a),
{
    let t = s.remove(i);
    assert forall|p: int| 0 <= p < t.len() implies t[p] != s[i] by {
        let p0: int = if p < i {
            p
        } else {
            p + 1
        };
        assert(t[p] == s[p0]);
    }
    assert forall|a: AccountId| a != s[i] implies t.contains(a) == s.contains(a) by {
        if s.contains(a) {
            let j = choose|j: int| 0 <= j < s.len() && s[j] == a;
            if j < i {
                assert(t[j] == a);
            } else {
                assert(j > i);
                assert(t[j - 1] == a);
            }
        }
        if t.contains(a) {
            let j = choose|j: int| 0 <= j < t.len() && t[j] == a;
            if j < i {
                assert(s[j] == a);
            } else {
                assert(s[j + 1] == a);
            }
        }
    }
    assert(t.to_set() =~= s.to_set().remove(s[i]));
}

/// Appending a fresh member keeps a sequence duplicate-free, and membership
/// afterwards is membership before or being the new member.
proof fn lemma_push_no_duplicates(s: Seq<AccountId>, a: AccountId)
    requires
        s.no_duplicates(),
        !s.contains(a),
    ensures
        s.push(a).no_duplicates(),
        forall|x: AccountId| s.push(a).contains(x) <==> (x == a || s.contains(x)),
{
    let t = s.push(a);
    assert forall|p: int, q: int| 0 <= p < q < t.len() implies t[p] != t[q] by {
        if q == s.len() {
            assert(t[p] == s[p]);
            if s[p] == a {
                assert(s.contains(a));
            }
        } else {
            assert(t[p] == s[p] && t[q] == s[q]);
        }
    }
    assert forall|x: AccountId| t.contains(x) implies (x == a || s.contains(x)) by {
        let j = choose|j: int| 0 <= j < t.len() && t[j] == x;
        if j < s.len() {
            assert(s[j] == x);
        }
    }
    assert forall|x: AccountId| x == a || s.contains(x) implies t.contains(x) by {
        if x == a {
            assert(t[s.len() as int] == a);
        } else {
            let j = choose|j: int| 0 <= j < s.len() && s[j] == x;
            assert(t[j] == x);
        }
    }
}

/// Whitelisting a fresh chain cannot disturb any announced history: the new
/// chain has none, the others keep their stored nonces.
proof fn lemma_nonce_events_ok_insert_chain(
    events: Seq<Event>,
    chains: Map<ChainId, DepositNonce>,
    id: ChainId,
)
    requires
        nonce_events_ok(events, chains),
        !chains.contains_key(id),
    ensures
        nonce_events_ok(events, chains.insert(id, 0)),
{
    assert forall|c: ChainId|
        chain_nonce_history_ok(
            #[trigger] transfer_nonces(events, c),
            chains.insert(id, 0),
            c,
        ) by {
        assert(chain_nonce_history_ok(transfer_nonces(events, c), chains, c));
    }
}

/// Raising a chain's stored nonce only loosens the bound on its history.
proof fn lemma_nonce_events_ok_bump(
    events: Seq<Event>,
    chains: Map<ChainId, DepositNonce>,
    id: ChainId,
    n2: DepositNonce,
)
    requires
        nonce_events_ok(events, chains),
        chains.contains_key(id),
        chains[id] <= n2,
    ensures
        nonce_events_ok(events, chains.insert(id, n2)),
{
    assert forall|c: ChainId|
        chain_nonce_history_ok(
            #[trigger] transfer_nonces(events, c),
            chains.insert(id, n2),
            c,
        ) by {
        assert(chain_nonce_history_ok(transfer_nonces(events, c), chains, c));
    }
}

/// Announcing a transfer with the freshly bumped nonce keeps every chain's
/// history sound: the new nonce strictly exceeds everything announced before.
proof fn lemma_nonce_events_ok_transfer(
    events: Seq<Event>,
    chains: Map<ChainId, DepositNonce>,
    e: Event,
    c: ChainId,
    n: DepositNonce,
)
    requires
        nonce_events_ok(events, chains),
        chains.contains_key(c),
        chains[c] < n,
        forall|d: ChainId| #[trigger] is_transfer_to(e, d) <==> d == c,
        event_nonce(e) == n,
    ensures
        nonce_events_ok(events.push(e), chains.insert(c, n)),
{
    assert forall|d: ChainId|
        chain_nonce_history_ok(
            #[trigger] transfer_nonces(events.push(e), d),
            chains.insert(c, n),
            d,
        ) by {
        lemma_transfer_nonces_push(events, e, d);
        assert(chain_nonce_history_ok(transfer_nonces(events, d), chains, d));
        if d == c {
            let ns0 = transfer_nonces(events, c);
            let ns1 = transfer_nonces(events.push(e), c);
            assert(ns1 == ns0.push(n));
            assert forall|i: int, j: int| 0 <= i < j < ns1.len() implies ns1[i] < ns1[j] by {
                if j < ns0.len() {
                    assert(ns1[i] == ns0[i] && ns1[j] == ns0[j]);
                } else {
                    assert(ns1[j] == n);
                    if ns0.len() > 0 {
                        assert(ns1[i] == ns0[i]);
                        if i < ns0.len() - 1 {
                            assert(ns0[i] < ns0[ns0.len() - 1]);
                        }
                        assert(ns0[ns0.len() - 1] <= chains[c]);
                    }
                }
            }
        }
    }
}


/// Appending an event that announces no approval leaves every approval
/// count as it was.
proof fn lemma_approvals_ok_push_other(
    events: Seq<Event>,
    props: Map<(ChainId, DepositNonce), ProposalVotes>,
    e: Event,
)
    requires
        approvals_ok(events, props),
        forall|c: ChainId, n: DepositNonce| e != Event::ProposalApproved(c, n),
    ensures
        approvals_ok(events.push(e), props),
{
    assert forall|c: ChainId, n: DepositNonce|
        #[trigger] approval_count(events.push(e), c, n) == approved_flag(props, c, n) by {
        lemma_approval_count_push(events, e, c, n);
        assert(approval_count(events, c, n) == approved_flag(props, c, n));
    }
}

/// Storing a proposal that is not approved under a key with no announced
/// approval preserves the once-only accounting.
proof fn lemma_approvals_ok_insert_nonapproved(
    events: Seq<Event>,
    props: Map<(ChainId, DepositNonce), ProposalVotes>,
    c: ChainId,
    n: DepositNonce,
    p: ProposalVotes,
)
    requires
        approvals_ok(events, props),
        approved_flag(props, c, n) == 0,
        !(p.status is Approved),
    ensures
        approvals_ok(events, props.insert((c, n), p)),
{
    assert forall|c2: ChainId, n2: DepositNonce|
        #[trigger] approval_count(events, c2, n2) == approved_flag(
            props.insert((c, n), p),
            c2,
            n2,
        ) by {
        assert(approval_count(events, c2, n2) == approved_flag(props, c2, n2));
        if c2 == c && n2 == n {
        } else {
            assert(approved_flag(props.insert((c, n), p), c2, n2) == approved_flag(
                props,
                c2,
                n2,
            ));
        }
    }
}

/// Dropping a proposal that is not approved preserves the accounting.
proof fn lemma_approvals_ok_remove_nonapproved(
    events: Seq<Event>,
    props: Map<(ChainId, DepositNonce), ProposalVotes>,
    c: ChainId,
    n: DepositNonce,
)
    requires
        approvals_ok(events, props),
        approved_flag(props, c, n) == 0,
    ensures
        approvals_ok(events, props.remove((c, n))),
{
    assert forall|c2: ChainId, n2: DepositNonce|
        #[trigger] approval_count(events, c2, n2) == approved_flag(
            props.remove((c, n)),
            c2,
            n2,
        ) by {
        assert(approval_count(events, c2, n2) == approved_flag(props, c2, n2));
        if c2 == c && n2 == n {
        } else {
            assert(approved_flag(props.remove((c, n)), c2, n2) == approved_flag(props, c2, n2));
        }
    }
}

/// Announcing the approval of a key with no prior announcement, while the
/// approved record is stored under that key, re-establishes the accounting.
proof fn lemma_approvals_ok_approve(
    events: Seq<Event>,
    props: Map<(ChainId, DepositNonce), ProposalVotes>,
    c: ChainId,
    n: DepositNonce,
    p: ProposalVotes,
)
    requires
        approvals_ok(events, props),
        approved_flag(props, c, n) == 0,
        p.status is Approved,
    ensures
        approvals_ok(events.push(Event::ProposalApproved(c, n)), props.insert((c, n), p)),
{
    let e = Event::ProposalApproved(c, n);
    assert forall|c2: ChainId, n2: DepositNonce|
        #[trigger] approval_count(events.push(e), c2, n2) == approved_flag(
            props.insert((c, n), p),
            c2,
            n2,
        ) by {
        lemma_approval_count_push(events, e, c2, n2);
        assert(approval_count(events, c2, n2) == approved_flag(props, c2, n2));
        if c2 == c && n2 == n {
        } else {
            assert(e != Event::ProposalApproved(c2, n2));
            assert(approved_flag(props.insert((c, n), p), c2, n2) == approved_flag(
                props,
                c2,
                n2,
            ));
        }
    }
}

/// Appending an event that is no transfer announcement leaves every chain's
/// announced nonce history as it was.
proof fn lemma_nonce_events_ok_push_non_transfer(
    events: Seq<Event>,
    chains: Map<ChainId, DepositNonce>,
    e: Event,
)
    requires
        nonce_events_ok(events, chains),
        forall|c: ChainId| !is_transfer_to(e, c),
    ensures
        nonce_events_ok(events.push(e), chains),
{
    assert forall|c: ChainId|
        chain_nonce_history_ok(
            #[trigger] transfer_nonces(events.push(e), c),
            chains,
            c,
        ) by {
        lemma_transfer_nonces_push(events, e, c);
        assert(chain_nonce_history_ok(transfer_nonces(events, c), chains, c));
    }
}

} // verus!
