use dotnft::account::{from_opt, into_opt, AccountId};
use dotnft::balances::{
    checked_mul_by_q, payout_status, percent_payout, OfferPayouts, Payout, TransferPercentStatus,
};
use dotnft::dotnft::{DotNft, Error, Event, Transfer, TokenId};

fn acc(byte: u8) -> AccountId {
    [byte; 32]
}

/// The account that calls the registry in these tests.
fn alice() -> AccountId {
    acc(0x1)
}

fn assert_event_count(dotnft: &DotNft, n: usize) -> Vec<Event> {
    let events = dotnft.recorded_events().clone();
    assert_eq!(events.len(), n);
    events
}

fn assert_transfer_event(
    event: &Event,
    expected_from: Option<AccountId>,
    expected_to: Option<AccountId>,
    expected_token: TokenId,
) {
    if let Event::Transfer(Transfer { from, to, token }) = event {
        assert_eq!(*from, expected_from, "Bad Transfer.from");
        assert_eq!(*to, expected_to, "Bad Transfer.to");
        assert_eq!(*token, expected_token, "Bad Transfer.token");
    } else {
        panic!("Bad event type, expected Transfer");
    }
}

#[test]
fn deployment() {
    let creator = acc(0x1);
    let dotnft = DotNft::new(creator, creator);
    assert_eq!(dotnft.minted(), 0);
    assert_eq!(dotnft.balance(creator), 0);
    assert_eq!(dotnft.creator(), creator);
}

#[test]
fn minting() {
    let creator = acc(0x1);
    let mut dotnft = DotNft::new(creator, creator);
    // mint one
    assert_eq!(dotnft.mint(alice(), 1), Ok(()));
    assert_eq!(dotnft.minted(), 1);
    assert_eq!(dotnft.owner(0), Some(creator));
    assert_eq!(dotnft.balance(creator), 1);

    // mint many
    assert_eq!(dotnft.mint(alice(), 4), Ok(()));
    assert_eq!(dotnft.minted(), 5);
    assert_eq!(dotnft.owner(4), Some(creator));
    assert_eq!(dotnft.balance(creator), 5);

    // check that events are correct
    let events = assert_event_count(&dotnft, 5);
    for (i, event) in events.iter().enumerate() {
        assert_transfer_event(event, None, Some(creator), i as u128);
    }
}

#[test]
fn minting_restrictions() {
    let creator = acc(0x2);
    let mut dotnft = DotNft::new(creator, creator);

    assert_eq!(dotnft.mint(alice(), 1), Err(Error::DisallowedMint));
    let _ = assert_event_count(&dotnft, 0);
}

#[test]
fn transfers() {
    let creator = acc(0x1);
    let acc1 = acc(0x2);
    let acc2 = acc(0x3);
    let mut dotnft = DotNft::new(creator, creator);
    let _ = dotnft.mint(alice(), 1);

    // I can transfer
    assert_eq!(dotnft.transfer(alice(), 0, acc1), Ok(()));
    assert_eq!(dotnft.owner(0), Some(acc1));
    assert_eq!(dotnft.balance(creator), 0);
    assert_eq!(dotnft.balance(acc1), 1);

    // I cannot double spend
    assert_eq!(dotnft.transfer(alice(), 0, acc2), Err(Error::NotAuthorized));
    assert_eq!(dotnft.owner(0), Some(acc1));
    assert_eq!(dotnft.balance(creator), 0);
    assert_eq!(dotnft.balance(acc1), 1);
    assert_eq!(dotnft.balance(acc2), 0);

    let events = assert_event_count(&dotnft, 2);
    assert_transfer_event(&events[0], None, Some(creator), 0);
    assert_transfer_event(&events[1], Some(creator), Some(acc1), 0);
}

#[test]
fn burning() {
    let creator = acc(0x1);
    let acc1 = acc(0x2);
    let mut dotnft = DotNft::new(creator, creator);
    let _ = dotnft.mint(alice(), 2);

    // burning tokens that I own
    assert_eq!(dotnft.burn(alice(), 0), Ok(()));
    assert_eq!(dotnft.balance(creator), 1);

    // disallowed to burn tokens that I do not own
    let _ = dotnft.transfer(alice(), 1, acc1);
    assert_eq!(dotnft.burn(alice(), 1), Err(Error::NotAuthorized));
    assert_eq!(dotnft.balance(acc1), 1);

    let events = assert_event_count(&dotnft, 4);
    assert_transfer_event(&events[0], None, Some(creator), 0);
    assert_transfer_event(&events[1], None, Some(creator), 1);
    assert_transfer_event(&events[2], Some(creator), None, 0);
    assert_transfer_event(&events[3], Some(creator), Some(acc1), 1);
}

#[test]
fn approvals() {
    let creator = acc(0x1);
    let acc1 = acc(0x2);
    let acc2 = acc(0x3);
    let acc3 = acc(0x4);
    let mut dotnft = DotNft::new(creator, creator);
    let _ = dotnft.mint(alice(), 1);

    // can set and change approvals
    assert_eq!(dotnft.approve(alice(), 0, acc1), Ok(()));
    assert_eq!(dotnft.get_approved(0), Some(acc1));
    assert_eq!(dotnft.approve(alice(), 0, acc2), Ok(()));
    assert_eq!(dotnft.get_approved(0), Some(acc2));

    // when transferring a token, approval is reset
    let _ = dotnft.transfer(alice(), 0, acc3);
    assert_eq!(dotnft.owner(0), Some(acc3));
    assert!(dotnft.get_approved(0).is_none());

    let events = assert_event_count(&dotnft, 4);
    assert_transfer_event(&events[0], None, Some(creator), 0);
    assert_transfer_event(&events[3], Some(creator), Some(acc3), 0);
}

#[test]
fn operators() {
    let creator = acc(0x1);
    let acc1 = acc(0x2);
    let acc2 = acc(0x3);
    let mut dotnft = DotNft::new(creator, creator);

    dotnft.set_operator(alice(), acc1, true);
    assert!(dotnft.is_operator(creator, acc1));
    dotnft.set_operator(alice(), acc2, true);
    assert!(dotnft.is_operator(creator, acc2));
    dotnft.set_operator(alice(), acc1, false);
    assert!(!dotnft.is_operator(creator, acc1));
    dotnft.set_operator(alice(), acc2, false);
    assert!(!dotnft.is_operator(creator, acc2));

    let _events = assert_event_count(&dotnft, 4);
}

#[test]
fn offerings() {
    let creator = acc(0x1);
    let acc1 = acc(0x2);
    let mut dotnft = DotNft::new(creator, creator);
    let _ = dotnft.mint(alice(), 1);

    // listing and unlisting
    assert_eq!(dotnft.list_offer(alice(), 0, 100), Ok(()));
    assert_eq!(dotnft.offers(), vec![(0, 100)]);
    assert_eq!(dotnft.unlist_offer(alice(), 0), Ok(()));
    assert_eq!(dotnft.offers(), vec![]);

    // can only list my own tokens
    let _ = dotnft.transfer(alice(), 0, acc1);
    assert_eq!(dotnft.list_offer(alice(), 0, 100), Err(Error::NotAuthorized));

    let _ = assert_event_count(&dotnft, 4);
}
