use dotnft::account::{null_account, AccountId};
use dotnft::dotnft::DotNft;

fn acc(byte: u8) -> AccountId {
    [byte; 32]
}

#[test]
fn requests_within_limits_do_not_panic() {
    let creator = acc(0x1);
    let other = acc(0x2);
    let mut dotnft = DotNft::new(creator, creator);
    assert!(!dotnft.mint_panics(creator, 3));
    assert_eq!(dotnft.mint(creator, 3), Ok(()));
    assert!(!dotnft.transfer_panics(creator, 0, other));
    assert!(!dotnft.burn_panics(creator, 1));
    assert!(!dotnft.approve_panics(creator, 2));
    assert!(!dotnft.set_operator_panics(creator, other, true));
    assert!(!dotnft.list_offer_panics(creator, 2));
    assert_eq!(dotnft.list_offer(creator, 2, 50), Ok(()));
    assert!(!dotnft.take_offer_panics(other, 50, 2));
    // refused requests never reach the storage maps
    assert!(!dotnft.mint_panics(other, u128::MAX));
    assert!(!dotnft.transfer_panics(other, 0, other));
}

#[test]
fn minting_past_the_token_counter_panics() {
    let creator = acc(0x1);
    let mut dotnft = DotNft::new(creator, creator);
    assert_eq!(dotnft.mint(creator, 2), Ok(()));
    assert!(dotnft.mint_panics(creator, u128::MAX - 1));
    assert!(!dotnft.mint_panics(creator, 5));
}

#[test]
fn buying_a_listed_token_that_was_burned_is_refused() {
    let creator = acc(0x1);
    let buyer = acc(0x3);
    let mut dotnft = DotNft::new(creator, creator);
    assert_eq!(dotnft.mint(creator, 1), Ok(()));
    assert_eq!(dotnft.list_offer(creator, 0, 10), Ok(()));
    assert_eq!(dotnft.burn(creator, 0), Ok(()));
    assert_eq!(dotnft.owner(0), None);
    assert_eq!(dotnft.offers(), vec![]);
    assert!(!dotnft.take_offer_panics(buyer, 10, 0));
    assert_eq!(dotnft.take_offer(buyer, 10, 0), Err(dotnft::dotnft::Error::NotSelling));
}
