use dotnft::account::{accounts_equal, from_opt, into_opt, is_null_account, null_account, AccountId};
use dotnft::balances::{
    checked_mul_by_q, payout_status, percent_payout, OfferPayouts, Payout, TransferPercentStatus,
};
use dotnft::dotnft::{
    Approval, DotNft, Error, Event, ListToken, MutResult, OfferTaken, OperatorStatusChange, Transfer,
    UnlistToken,
};

fn acc(byte: u8) -> AccountId {
    [byte; 32]
}

fn minted_registry(creator: AccountId, provider: AccountId, amount: u128) -> DotNft {
    let mut dotnft = DotNft::new(creator, provider);
    assert_eq!(dotnft.mint(creator, amount), Ok(()));
    dotnft
}

#[test]
fn checked_mul_by_q_divides_first_where_it_can() {
    assert_eq!(checked_mul_by_q(1000, 2, 100), Some(20));
    assert_eq!(checked_mul_by_q(150, 96, 100), Some(144));
    assert_eq!(checked_mul_by_q(7, 3, 2), Some(10));
    // a is divisible: no overflow although a * b would overflow
    assert_eq!(checked_mul_by_q(u128::MAX - 15, 2, 4), Some((u128::MAX - 15) / 2));
    // b is divisible: no overflow although a * b would overflow
    assert_eq!(checked_mul_by_q(u128::MAX, 100, 100), Some(u128::MAX));
    // neither divisible and the product overflows
    assert_eq!(checked_mul_by_q(u128::MAX, 3, 100), None);
    // the quotient itself overflows
    assert_eq!(checked_mul_by_q(u128::MAX, 2, 1), None);
}

#[test]
fn percent_payouts_and_statuses() {
    let to = acc(0x7);
    assert_eq!(percent_payout(1000, 96, to), Payout { to, amount: Some(960) });
    assert_eq!(percent_payout(u128::MAX, 3, to), Payout { to, amount: None });
    let paid = Payout { to, amount: Some(5) };
    let overflowed = Payout { to, amount: None };
    assert_eq!(payout_status(&paid, true), TransferPercentStatus::Transferred);
    assert_eq!(payout_status(&paid, false), TransferPercentStatus::TransferFailed);
    assert_eq!(payout_status(&overflowed, true), TransferPercentStatus::MathOverflow);
    let ok: MutResult = TransferPercentStatus::Transferred.into();
    let failed: MutResult = TransferPercentStatus::TransferFailed.into();
    let overflow: MutResult = TransferPercentStatus::MathOverflow.into();
    assert_eq!(ok, Ok(()));
    assert_eq!(failed, Err(Error::InsufficientTransaction));
    assert_eq!(overflow, Err(Error::MathOverflow));
}

#[test]
fn account_options() {
    let a = acc(0x3);
    assert!(is_null_account(&null_account()));
    assert!(!is_null_account(&a));
    assert!(accounts_equal(&a, &acc(0x3)));
    let mut b = acc(0x3);
    b[31] = 0x4;
    assert!(!accounts_equal(&a, &b));
    assert_eq!(into_opt(null_account()), None);
    assert_eq!(into_opt(a), Some(a));
    assert_eq!(from_opt(None), null_account());
    assert_eq!(from_opt(Some(a)), a);
    assert_eq!(from_opt(into_opt(a)), a);
}

#[test]
fn sale_pays_fees_and_moves_the_token() {
    let creator = acc(0x1);
    let provider = acc(0x9);
    let seller = acc(0x2);
    let buyer = acc(0x3);
    let mut dotnft = minted_registry(creator, provider, 1);
    assert_eq!(dotnft.transfer(creator, 0, seller), Ok(()));
    assert_eq!(dotnft.list_offer(seller, 0, 1000), Ok(()));

    // paying too little is refused and changes nothing
    assert_eq!(dotnft.take_offer(buyer, 999, 0), Err(Error::InsufficientTransaction));
    assert_eq!(dotnft.owner(0), Some(seller));

    let payouts = dotnft.take_offer(buyer, 1500, 0).unwrap();
    assert_eq!(
        payouts,
        OfferPayouts {
            provider: Payout { to: provider, amount: Some(30) },
            creator: Payout { to: creator, amount: Some(30) },
            seller: Payout { to: seller, amount: Some(1440) },
        }
    );
    assert_eq!(dotnft.owner(0), Some(buyer));
    assert_eq!(dotnft.balance(seller), 0);
    assert_eq!(dotnft.balance(buyer), 1);
    assert_eq!(dotnft.get_approved(0), None);
    // a sold token is no longer on offer
    assert_eq!(dotnft.offers(), vec![]);
    assert_eq!(dotnft.take_offer(acc(0x4), 1500, 0), Err(Error::NotSelling));
    assert_eq!(dotnft.owner(0), Some(buyer));

    let events = dotnft.recorded_events();
    assert_eq!(events.len(), 5);
    assert_eq!(events[2], Event::ListToken(ListToken { owner: seller, token: 0, amount: 1000 }));
    assert_eq!(events[3], Event::Transfer(Transfer { token: 0, from: Some(seller), to: Some(buyer) }));
    assert_eq!(events[4], Event::OfferTaken(OfferTaken { seller, buyer, token: 0, price: 1500 }));
}

#[test]
fn sale_of_unlisted_token_is_refused() {
    let creator = acc(0x1);
    let mut dotnft = minted_registry(creator, creator, 1);
    assert_eq!(dotnft.take_offer(acc(0x3), 10, 0), Err(Error::NotSelling));
    assert_eq!(dotnft.recorded_events().len(), 1);
}

#[test]
fn sale_to_the_null_account_is_refused_but_records_its_approval() {
    let creator = acc(0x1);
    let mut dotnft = minted_registry(creator, creator, 1);
    assert_eq!(dotnft.list_offer(creator, 0, 10), Ok(()));
    assert_eq!(dotnft.take_offer(null_account(), 10, 0), Err(Error::NotAuthorized));
    assert_eq!(dotnft.owner(0), Some(creator));
    assert_eq!(dotnft.get_approved(0), None);
    assert_eq!(dotnft.recorded_events().len(), 2);
}

#[test]
fn transfer_errors() {
    let creator = acc(0x1);
    let mut dotnft = minted_registry(creator, creator, 1);
    assert_eq!(dotnft.transfer(creator, 0, null_account()), Err(Error::DisallowedTransfer));
    assert_eq!(dotnft.transfer(null_account(), 0, creator), Err(Error::DisallowedTransfer));
    assert_eq!(dotnft.transfer(creator, 1, acc(0x2)), Err(Error::InexistentToken));
    assert_eq!(dotnft.owner(0), Some(creator));
    assert_eq!(dotnft.recorded_events().len(), 1);
}

#[test]
fn approved_account_and_operator_may_transfer() {
    let creator = acc(0x1);
    let approved = acc(0x2);
    let operator = acc(0x3);
    let receiver = acc(0x4);
    let mut dotnft = minted_registry(creator, creator, 2);

    assert_eq!(dotnft.approve(creator, 0, approved), Ok(()));
    assert_eq!(dotnft.transfer(approved, 0, receiver), Ok(()));
    assert_eq!(dotnft.owner(0), Some(receiver));
    // the approval was used up
    assert_eq!(dotnft.transfer(approved, 0, creator), Err(Error::NotAuthorized));

    dotnft.set_operator(creator, operator, true);
    assert_eq!(dotnft.transfer(operator, 1, receiver), Ok(()));
    assert_eq!(dotnft.balance(receiver), 2);
    assert_eq!(dotnft.balance(creator), 0);

    // an operator of the former owner has no rights over the moved token
    assert_eq!(dotnft.transfer(operator, 1, creator), Err(Error::NotAuthorized));

    let events = dotnft.recorded_events();
    assert_eq!(events[2], Event::Approval(Approval { token: 0, owner: creator, approved: Some(approved) }));
    assert_eq!(
        events[4],
        Event::OperatorStatusChange(OperatorStatusChange { owner: creator, operator, status: true })
    );
}

#[test]
fn approving_needs_authority_and_null_approval_clears() {
    let creator = acc(0x1);
    let stranger = acc(0x5);
    let mut dotnft = minted_registry(creator, creator, 1);
    assert_eq!(dotnft.approve(stranger, 0, stranger), Err(Error::NotAuthorized));
    assert_eq!(dotnft.approve(null_account(), 0, stranger), Err(Error::NotAuthorized));
    assert_eq!(dotnft.approve(creator, 0, stranger), Ok(()));
    assert_eq!(dotnft.approve(creator, 0, null_account()), Ok(()));
    assert_eq!(dotnft.get_approved(0), None);
    assert_eq!(
        dotnft.recorded_events()[2],
        Event::Approval(Approval { token: 0, owner: creator, approved: None })
    );
}

#[test]
fn unlisting_errors() {
    let creator = acc(0x1);
    let mut dotnft = minted_registry(creator, creator, 1);
    assert_eq!(dotnft.unlist_offer(creator, 0), Err(Error::NotSelling));
    assert_eq!(dotnft.unlist_offer(acc(0x2), 0), Err(Error::NotAuthorized));
    assert_eq!(dotnft.list_offer(creator, 0, 5), Ok(()));
    assert_eq!(dotnft.unlist_offer(creator, 0), Ok(()));
    assert_eq!(
        dotnft.recorded_events()[2],
        Event::UnlistToken(UnlistToken { owner: creator, token: 0 })
    );
}

#[test]
fn balances_count_owned_tokens() {
    let creator = acc(0x1);
    let a = acc(0x2);
    let b = acc(0x3);
    let mut dotnft = minted_registry(creator, creator, 5);
    assert_eq!(dotnft.transfer(creator, 0, a), Ok(()));
    assert_eq!(dotnft.transfer(creator, 1, a), Ok(()));
    assert_eq!(dotnft.transfer(creator, 2, b), Ok(()));
    assert_eq!(dotnft.transfer(a, 1, b), Ok(()));
    assert_eq!(dotnft.burn(creator, 3), Ok(()));
    for account in [creator, a, b] {
        let owned = (0..5u128).filter(|t| dotnft.owner(*t) == Some(account)).count() as u128;
        assert_eq!(dotnft.balance(account), owned);
    }
    assert_eq!(dotnft.balance(creator), 1);
    assert_eq!(dotnft.balance(a), 1);
    assert_eq!(dotnft.balance(b), 2);
}

#[test]
fn ownerless_tokens_move_without_authority() {
    let creator = acc(0x1);
    let stranger = acc(0x5);
    let mut dotnft = minted_registry(creator, creator, 1);
    // burning a token that was never minted needs no authority
    assert_eq!(dotnft.burn(stranger, 7), Ok(()));
    assert_eq!(dotnft.owner(7), None);
    // nor does burning a burned one
    assert_eq!(dotnft.burn(creator, 0), Ok(()));
    assert_eq!(dotnft.burn(stranger, 0), Ok(()));
    assert_eq!(dotnft.owner(0), None);
    assert_eq!(dotnft.balance(creator), 0);
    // minting still hands out the next ids
    assert_eq!(dotnft.mint(creator, 8), Ok(()));
    assert_eq!(dotnft.minted(), 9);
    assert_eq!(dotnft.owner(7), Some(creator));
    assert_eq!(dotnft.balance(creator), 8);
}

#[test]
fn listing_by_operator_and_offers_of_several_tokens() {
    let creator = acc(0x1);
    let operator = acc(0x6);
    let mut dotnft = minted_registry(creator, creator, 3);
    dotnft.set_operator(creator, operator, true);
    assert_eq!(dotnft.list_offer(operator, 2, 30), Ok(()));
    assert_eq!(dotnft.list_offer(creator, 0, 10), Ok(()));
    let mut offers = dotnft.offers();
    offers.sort();
    assert_eq!(offers, vec![(0, 10), (2, 30)]);
    // relisting changes the price
    assert_eq!(dotnft.list_offer(creator, 2, 35), Ok(()));
    let mut offers = dotnft.offers();
    offers.sort();
    assert_eq!(offers, vec![(0, 10), (2, 35)]);
}

#[test]
fn moving_a_token_withdraws_its_offer() {
    let creator = acc(0x1);
    let other = acc(0x2);
    let mut dotnft = minted_registry(creator, creator, 3);
    assert_eq!(dotnft.list_offer(creator, 0, 10), Ok(()));
    assert_eq!(dotnft.list_offer(creator, 1, 20), Ok(()));
    assert_eq!(dotnft.list_offer(creator, 2, 30), Ok(()));
    assert_eq!(dotnft.transfer(creator, 0, other), Ok(()));
    assert_eq!(dotnft.burn(creator, 1), Ok(()));
    assert_eq!(dotnft.offers(), vec![(2, 30)]);
    assert_eq!(dotnft.take_offer(acc(0x3), 10, 0), Err(Error::NotSelling));
    assert_eq!(dotnft.owner(0), Some(other));
}

#[test]
fn taking_events_hands_them_out_once() {
    let creator = acc(0x1);
    let mut dotnft = minted_registry(creator, creator, 2);
    let first = dotnft.take_events();
    assert_eq!(first.len(), 2);
    assert_eq!(first[1], Event::Transfer(Transfer { token: 1, from: None, to: Some(creator) }));
    assert!(dotnft.recorded_events().is_empty());
    assert_eq!(dotnft.burn(creator, 0), Ok(()));
    let second = dotnft.take_events();
    assert_eq!(second, vec![Event::Transfer(Transfer { token: 0, from: Some(creator), to: None })]);
    assert!(dotnft.take_events().is_empty());
    assert_eq!(dotnft.balance(creator), 1);
}
