//! Behaviour of the registry, relayer set and outbound transfer path.

use chainbridge::Config;
use chainbridge::DispatchError;
use chainbridge::Error;
use chainbridge::Event;
use chainbridge::Origin;
use chainbridge::Pallet;

const LOCAL: u8 = 1;
const LIFETIME: u64 = 10;

fn fresh() -> Pallet {
    Pallet::new(Config { chain_id: LOCAL, proposal_lifetime: LIFETIME }, Some(99), 1)
}

fn rid(tag: u8) -> [u8; 32] {
    let mut id = [0u8; 32];
    id[0] = tag;
    id
}

#[test]
fn new_bridge_starts_empty() {
    let p = fresh();
    assert_eq!(p.relayer_threshold(), 1);
    assert_eq!(p.relayer_count(), 0);
    assert!(!p.chain_whitelisted(2));
    assert!(!p.is_relayer(7));
    assert!(p.events().is_empty());
}

#[test]
fn whitelist_rejects_local_chain_id() {
    let mut p = fresh();
    assert_eq!(p.whitelist(LOCAL), Err(Error::InvalidChainId));
    assert!(!p.chain_whitelisted(LOCAL));
    assert!(p.events().is_empty());
}

#[test]
fn whitelist_twice_fails_second_time() {
    let mut p = fresh();
    assert_eq!(p.whitelist(2), Ok(()));
    assert!(p.chain_whitelisted(2));
    assert_eq!(p.chains(2), Some(0));
    assert_eq!(p.whitelist(2), Err(Error::ChainAlreadyWhitelisted));
    assert_eq!(p.events().len(), 1);
    assert_eq!(p.events()[0], Event::ChainWhitelisted(2));
}

#[test]
fn nonces_strictly_increase_per_chain() {
    let mut p = fresh();
    p.whitelist(2).unwrap();
    p.whitelist(3).unwrap();
    p.transfer_generic(2, rid(1), vec![1]).unwrap();
    p.transfer_fungible(2, rid(1), vec![2], 500u128).unwrap();
    p.transfer_nonfungible(2, rid(1), vec![9], vec![3], vec![4]).unwrap();
    p.transfer_generic(3, rid(1), vec![5]).unwrap();
    let mut nonces_2 = Vec::new();
    let mut nonces_3 = Vec::new();
    for e in p.events() {
        match e {
            Event::FungibleTransfer(c, n, _, _, _) if *c == 2 => nonces_2.push(*n),
            Event::NonFungibleTransfer(c, n, _, _, _, _) if *c == 2 => nonces_2.push(*n),
            Event::GenericTransfer(c, n, _, _) if *c == 2 => nonces_2.push(*n),
            Event::GenericTransfer(c, n, _, _) if *c == 3 => nonces_3.push(*n),
            _ => {}
        }
    }
    assert_eq!(nonces_2, vec![1, 2, 3]);
    assert_eq!(nonces_3, vec![1]);
    assert_eq!(p.chains(2), Some(3));
    assert_eq!(p.chains(3), Some(1));
}

#[test]
fn transfer_to_unknown_chain_fails() {
    let mut p = fresh();
    assert_eq!(p.transfer_fungible(7, rid(1), vec![1], 5u128), Err(Error::ChainNotWhitelisted));
    assert_eq!(p.transfer_nonfungible(7, rid(1), vec![], vec![], vec![]), Err(Error::ChainNotWhitelisted));
    assert_eq!(p.transfer_generic(7, rid(1), vec![]), Err(Error::ChainNotWhitelisted));
    assert!(p.events().is_empty());
}

#[test]
fn fungible_transfer_event_carries_payload() {
    let mut p = fresh();
    p.whitelist(2).unwrap();
    p.transfer_fungible(2, rid(4), vec![0xAA, 0xBB], 1_000_000u128).unwrap();
    assert_eq!(
        p.events()[1],
        Event::FungibleTransfer(2, 1, rid(4), 1_000_000u128, vec![0xAA, 0xBB])
    );
}

#[test]
fn set_threshold_zero_fails_and_keeps_prior_value() {
    let mut p = fresh();
    assert_eq!(p.set_relayer_threshold(3), Ok(()));
    assert_eq!(p.relayer_threshold(), 3);
    assert_eq!(p.set_relayer_threshold(0), Err(Error::InvalidThreshold));
    assert_eq!(p.relayer_threshold(), 3);
    assert_eq!(p.events(), &vec![Event::RelayerThresholdChanged(3)]);
}

#[test]
fn register_relayer_twice_fails() {
    let mut p = fresh();
    assert_eq!(p.register_relayer(10), Ok(()));
    assert_eq!(p.relayer_count(), 1);
    assert!(p.is_relayer(10));
    assert_eq!(p.register_relayer(10), Err(Error::RelayerAlreadyExists));
    assert_eq!(p.relayer_count(), 1);
}

#[test]
fn unregister_unknown_relayer_fails_count_unchanged() {
    let mut p = fresh();
    p.register_relayer(10).unwrap();
    assert_eq!(p.unregister_relayer(11), Err(Error::RelayerInvalid));
    assert_eq!(p.relayer_count(), 1);
    assert_eq!(p.unregister_relayer(10), Ok(()));
    assert_eq!(p.relayer_count(), 0);
    assert!(!p.is_relayer(10));
}

#[test]
fn register_resource_is_an_upsert() {
    let mut p = fresh();
    assert_eq!(p.register_resource(rid(1), vec![1, 2]), Ok(()));
    assert_eq!(p.resources(&rid(1)), Some(&vec![1, 2]));
    assert_eq!(p.register_resource(rid(1), vec![3]), Ok(()));
    assert_eq!(p.resources(&rid(1)), Some(&vec![3]));
    assert_eq!(p.unregister_resource(rid(1)), Ok(()));
    assert_eq!(p.resources(&rid(1)), None);
    assert_eq!(p.unregister_resource(rid(1)), Ok(()));
}

#[test]
fn admin_gated_calls_reject_other_origins() {
    let mut p = fresh();
    let outsider = Origin::Signed(7);
    let admin = Origin::Signed(99);
    assert_eq!(p.set_threshold(&outsider, 2), Err(DispatchError::BadOrigin));
    assert_eq!(p.relayer_threshold(), 1);
    assert_eq!(p.whitelist_chain(&outsider, 2), Err(DispatchError::BadOrigin));
    assert_eq!(p.add_relayer(&outsider, 10), Err(DispatchError::BadOrigin));
    assert_eq!(p.remove_relayer(&outsider, 10), Err(DispatchError::BadOrigin));
    assert_eq!(p.set_resource(&outsider, rid(1), vec![1]), Err(DispatchError::BadOrigin));
    assert_eq!(p.remove_resource(&outsider, rid(1)), Err(DispatchError::BadOrigin));
    assert!(p.events().is_empty());

    assert_eq!(p.set_threshold(&admin, 2), Ok(()));
    assert_eq!(p.relayer_threshold(), 2);
    assert_eq!(p.whitelist_chain(&Origin::Root, 2), Ok(()));
    assert!(p.chain_whitelisted(2));
    assert_eq!(p.add_relayer(&admin, 10), Ok(()));
    assert!(p.is_relayer(10));
    assert_eq!(p.set_resource(&admin, rid(1), vec![1]), Ok(()));
    assert_eq!(p.remove_resource(&admin, rid(1)), Ok(()));
    assert_eq!(p.remove_relayer(&Origin::Root, 10), Ok(()));
    assert!(!p.is_relayer(10));
}

#[test]
fn admin_errors_are_wrapped_module_errors() {
    let mut p = fresh();
    let admin = Origin::Signed(99);
    assert_eq!(
        p.set_threshold(&admin, 0),
        Err(DispatchError::Module(Error::InvalidThreshold))
    );
    assert_eq!(
        p.whitelist_chain(&admin, LOCAL),
        Err(DispatchError::Module(Error::InvalidChainId))
    );
    assert_eq!(
        p.remove_relayer(&admin, 5),
        Err(DispatchError::Module(Error::RelayerInvalid))
    );
}

#[test]
fn ensure_admin_accepts_root_and_admin_account() {
    let p = fresh();
    assert_eq!(p.ensure_admin(&Origin::Root), Ok(()));
    assert_eq!(p.ensure_admin(&Origin::Signed(99)), Ok(()));
    assert_eq!(p.ensure_admin(&Origin::Signed(7)), Err(DispatchError::BadOrigin));
    let q = Pallet::new(Config { chain_id: LOCAL, proposal_lifetime: LIFETIME }, None, 1);
    assert_eq!(q.ensure_admin(&Origin::Root), Ok(()));
    assert_eq!(q.ensure_admin(&Origin::Signed(99)), Err(DispatchError::BadOrigin));
}

#[test]
fn next_nonce_counts_up_and_validates_chain() {
    let mut p = fresh();
    assert_eq!(p.next_nonce(2), Err(Error::ChainNotWhitelisted));
    p.whitelist(2).unwrap();
    assert_eq!(p.next_nonce(2), Ok(1));
    assert_eq!(p.next_nonce(2), Ok(2));
    assert_eq!(p.next_nonce(2), Ok(3));
    assert_eq!(p.chains(2), Some(3));
}
