use dotnft::account::AccountId;
use dotnft::dotnft::{DotNft, Error};

fn acc(byte: u8) -> AccountId {
    [byte; 32]
}

#[test]
fn transfer_there_and_back_restores_owners_and_balances() {
    let creator = acc(0x1);
    let a = acc(0x2);
    let b = acc(0x3);
    let mut dotnft = DotNft::new(creator, creator);
    assert_eq!(dotnft.mint(creator, 2), Ok(()));
    assert_eq!(dotnft.transfer(creator, 0, a), Ok(()));
    assert_eq!(dotnft.approve(a, 0, creator), Ok(()));
    let before = (dotnft.owner(0), dotnft.owner(1), dotnft.balance(a), dotnft.balance(b), dotnft.balance(creator));
    assert_eq!(dotnft.transfer(a, 0, b), Ok(()));
    assert_eq!(dotnft.transfer(b, 0, a), Ok(()));
    let after = (dotnft.owner(0), dotnft.owner(1), dotnft.balance(a), dotnft.balance(b), dotnft.balance(creator));
    assert_eq!(before, after);
    assert_eq!(dotnft.get_approved(0), None);
}

#[test]
fn revoked_operator_loses_access() {
    let owner = acc(0x1);
    let operator = acc(0x2);
    let receiver = acc(0x3);
    let mut dotnft = DotNft::new(owner, owner);
    assert_eq!(dotnft.mint(owner, 2), Ok(()));
    dotnft.set_operator(owner, operator, true);
    assert_eq!(dotnft.transfer(operator, 0, receiver), Ok(()));
    assert_eq!(dotnft.owner(0), Some(receiver));
    dotnft.set_operator(owner, operator, false);
    let events = dotnft.recorded_events().len();
    assert_eq!(dotnft.transfer(operator, 1, receiver), Err(Error::NotAuthorized));
    assert_eq!(dotnft.owner(1), Some(owner));
    assert_eq!(dotnft.recorded_events().len(), events);
}

#[test]
fn minting_in_two_steps_equals_minting_at_once() {
    let creator = acc(0x1);
    let mut split = DotNft::new(creator, creator);
    let mut whole = DotNft::new(creator, creator);
    assert_eq!(split.mint(creator, 2), Ok(()));
    assert_eq!(split.mint(creator, 3), Ok(()));
    assert_eq!(whole.mint(creator, 5), Ok(()));
    assert_eq!(split.minted(), whole.minted());
    assert_eq!(split.balance(creator), whole.balance(creator));
    for t in 0..6u128 {
        assert_eq!(split.owner(t), whole.owner(t));
    }
    assert_eq!(split.recorded_events(), whole.recorded_events());
    // minting nothing changes nothing
    assert_eq!(whole.mint(creator, 0), Ok(()));
    assert_eq!(whole.minted(), 5);
    assert_eq!(whole.recorded_events().len(), 5);
}

#[test]
fn setting_an_operator_twice_is_setting_it_once() {
    let owner = acc(0x1);
    let operator = acc(0x2);
    let mut dotnft = DotNft::new(owner, owner);
    dotnft.set_operator(owner, operator, true);
    dotnft.set_operator(owner, operator, true);
    assert!(dotnft.is_operator(owner, operator));
    dotnft.set_operator(owner, operator, false);
    assert!(!dotnft.is_operator(owner, operator));
    assert!(!dotnft.is_operator(operator, owner));
    assert_eq!(dotnft.recorded_events().len(), 3);
}

#[test]
fn listing_then_unlisting_restores_offers() {
    let owner = acc(0x1);
    let mut dotnft = DotNft::new(owner, owner);
    assert_eq!(dotnft.mint(owner, 2), Ok(()));
    assert_eq!(dotnft.list_offer(owner, 1, 7), Ok(()));
    let before = dotnft.offers();
    assert_eq!(dotnft.list_offer(owner, 0, 100), Ok(()));
    assert_eq!(dotnft.unlist_offer(owner, 0), Ok(()));
    assert_eq!(dotnft.offers(), before);
}

#[test]
fn burned_token_stays_burned_and_minted_never_decreases() {
    let creator = acc(0x1);
    let other = acc(0x2);
    let mut dotnft = DotNft::new(creator, creator);
    assert_eq!(dotnft.mint(creator, 2), Ok(()));
    assert_eq!(dotnft.burn(creator, 0), Ok(()));
    assert_eq!(dotnft.minted(), 2);
    assert_eq!(dotnft.mint(creator, 3), Ok(()));
    assert_eq!(dotnft.burn(other, 0), Ok(()));
    assert_eq!(dotnft.approve(creator, 0, other), Err(Error::NotAuthorized));
    assert_eq!(dotnft.owner(0), None);
    assert_eq!(dotnft.transfer(creator, 0, other), Err(Error::InexistentToken));
    assert_eq!(dotnft.minted(), 5);
}
