//! The token registry: ownership, balances, approvals, operators and offers.
#![allow(unused_imports)]
use vstd::prelude::*;
use crate::account::{
    AccountId, accounts_equal, from_opt, into_opt, is_null_account, null_account, spec_from_opt,
    spec_into_opt, spec_null_account,
};
use crate::balances::{
    CREATOR_PERCENT, OfferPayouts, PROVIDER_PERCENT, SELLER_PERCENT, percent_payout, spec_checked_mul_by_q,
    spec_offer_payouts,
};
use crate::model::{
    NftState, Request, credited, debited, lemma_allowed_has_owner, lemma_bounded_insert, lemma_bounded_remove,
    lemma_contains_len, lemma_credited_keys, lemma_debited_keys, lemma_inv_ignores_minted,
    lemma_inv_monotone, lemma_inv_same_tokens, lemma_transferred_inv, tokens_of,
};
use crate::storage::{
    AccountCountMap, OperatorKey, OperatorMap, TokenAccountMap, TokenPriceMap, has_room_for, map_get,
};
pub use crate::events::{
    Approval, Balance, Error, Event, ListToken, MutResult, OfferTaken, OperatorStatusChange, TokenId,
    Transfer, UnlistToken,
};

verus! {

/// The registry.
pub struct DotNft {
    /// Writer/provider of the contract, paid a fee on each sale
    provider: AccountId,
    /// Instantiator of the contract and minter of tokens
    creator: AccountId,
    /// Number of minted tokens
    minted: TokenId,
    /// Tokens to owners
    owners: TokenAccountMap,
    /// Accounts to number of held tokens
    balances: AccountCountMap,
    /// Tokens to approved accounts
    approvals: TokenAccountMap,
    /// Operator rights, by (owner, operator)
    operators: OperatorMap,
    /// Tokens currently on offer, with their asking price
    offers: TokenPriceMap,
    /// Events emitted so far, oldest first
    events: Vec<Event>,
}

impl View for DotNft {
    type V = NftState;

    closed spec fn view(&self) -> NftState {
        NftState {
            provider: self.provider,
            creator: self.creator,
            minted: self.minted,
            owners: self.owners@,
            balances: self.balances@,
            approvals: self.approvals@,
            operators: self.operators@,
            offers: self.offers@,
            events: self.events@,
        }
    }
}

impl DotNft {
    /// The registry's invariant.
    pub open spec fn wf(&self) -> bool {
        self@.wf()
    }

    /// A registry with no tokens, minted by `creator`, whose fees partly go to `provider`.
    pub fn new(creator: AccountId, provider: AccountId) -> (r: Self)
        ensures
            r.wf(),
            r@.provider == provider,
            r@.creator == creator,
            r@.minted == 0,
            r@.owners == Map::<TokenId, AccountId>::empty(),
            r@.balances == Map::<AccountId, TokenId>::empty(),
            r@.approvals == Map::<TokenId, AccountId>::empty(),
            r@.operators == Map::<OperatorKey, bool>::empty(),
            r@.offers == Map::<TokenId, Balance>::empty(),
            r@.events == Seq::<Event>::empty(),
    {
        let minted: TokenId = 0;
        let owners = TokenAccountMap::new();
        let balances = AccountCountMap::new();
        let approvals = TokenAccountMap::new();
        let operators = OperatorMap::new();
        let offers = TokenPriceMap::new();
        let r = DotNft {
            provider,
            creator,
            minted,
            owners,
            balances,
            approvals,
            operators,
            offers,
            events: Vec::new(),
        };
        proof {
            assert(r@.owners =~= Map::empty());
            assert(r@.balances =~= Map::empty());
            assert(r@.approvals =~= Map::empty());
            assert(r@.operators =~= Map::empty());
            assert(r@.offers =~= Map::empty());
            assert forall|a: AccountId| a != spec_null_account() implies #[trigger] r@.balance(a)
                == tokens_of(r@.owners, a).len() by {
                assert(tokens_of(r@.owners, a) =~= Set::empty());
            }
            assert(tokens_of(r@.owners, spec_null_account()) =~= Set::empty());
        }
        r
    }

    /// Number of minted tokens.
    pub fn minted(&self) -> (r: TokenId)
        ensures
            r == self@.minted,
    {
        self.minted
    }

    /// The creator of the contract, the one account that mints tokens.
    pub fn creator(&self) -> (r: AccountId)
        ensures
            r == self@.creator,
    {
        self.creator
    }

    /// Number of tokens held by `owner`.
    pub fn balance(&self, owner: AccountId) -> (r: TokenId)
        ensures
            r == self@.balance(owner),
    {
        self.get_balance(&owner)
    }

    fn get_balance(&self, owner: &AccountId) -> (r: TokenId)
        ensures
            r == self@.balance(*owner),
    {
        match self.balances.get(owner) {
            Some(v) => v,
            None => 0,
        }
    }

    /// The owner of a token, if it has one.
    pub fn owner(&self, token: TokenId) -> (r: Option<AccountId>)
        ensures
            r == self@.owner(token),
    {
        self.get_owner(&token)
    }

    fn get_owner(&self, token: &TokenId) -> (r: Option<AccountId>)
        ensures
            r == self@.owner(*token),
    {
        match self.owners.get(*token) {
            Some(acc) => into_opt(acc),
            None => None,
        }
    }

    /// The account approved to transfer a token, if any.
    pub fn get_approved(&self, token: TokenId) -> (r: Option<AccountId>)
        ensures
            r == self@.approved(token),
    {
        match self.approvals.get(token) {
            Some(approved) => into_opt(approved),
            None => None,
        }
    }

    /// Whether `operator` may transfer every token of `owner`.
    pub fn is_operator(&self, owner: AccountId, operator: AccountId) -> (r: bool)
        ensures
            r == self@.is_operator(owner, operator),
    {
        self.get_is_operator(&owner, &operator)
    }

    fn get_is_operator(&self, owner: &AccountId, operator: &AccountId) -> (r: bool)
        ensures
            r == self@.is_operator(*owner, *operator),
    {
        match self.operators.get(&(*owner, *operator)) {
            Some(status) => status,
            None => false,
        }
    }

    /// Events emitted so far, oldest first.
    pub fn recorded_events(&self) -> (r: &Vec<Event>)
        ensures
            r@ == self@.events,
    {
        &self.events
    }

    /// Moves `token` to `to` (`None` destroys it) unless it has an owner and `caller`
    /// lacks authority over it; a token without an owner moves freely.
    fn unsafe_transfer(&mut self, token: TokenId, caller: AccountId, to: Option<AccountId>, Ghost(bound): Ghost<int>) -> (r: MutResult)
        requires
            old(self)@.inv(bound),
            old(self)@.move_result(token, caller) is Ok ==> old(self)@.transfer_fits(token, to),
        ensures
            r == old(self)@.move_result(token, caller),
            r is Err ==> final(self)@ == old(self)@,
            r is Ok ==> final(self)@ == old(self)@.transferred(token, to),
            final(self)@.inv(
                if r is Ok && spec_from_opt(to) != spec_null_account() && token >= bound {
                    token + 1
                } else {
                    bound
                },
            ),
    {
        let owner = match self.get_owner(&token) {
            Some(acc) => acc,
            None => null_account(),
        };
        // only allowed if the token is being minted or authority is granted
        if !is_null_account(&owner) && !self.is_allowed(&token, &caller) {
            return Err(Error::NotAuthorized);
        }
        let ghost s = self@;
        proof {
            lemma_transferred_inv(s, token, to, bound);
        }
        let dest = from_opt(to);
        // change balances
        match self.balances.get(&owner) {
            Some(v) => {
                self.balances.insert(owner, v - 1);
            },
            None => {},
        }
        match self.balances.get(&owner) {
            Some(v) => {
                if v == 0 {
                    self.balances.take(&owner);
                }
            },
            None => {},
        }
        proof {
            assert(self.balances@ =~= debited(s.balances, owner));
        }
        match self.balances.get(&dest) {
            Some(v) => {
                self.balances.insert(dest, v + 1);
            },
            None => {
                self.balances.insert(dest, 1);
            },
        }
        // change owner
        self.owners.insert(token, dest);
        // remove approvals
        self.approvals.take(token);
        // withdraw the offer made on the former owner's authority
        self.offers.take(token);
        // record the event
        let from = into_opt(owner);
        self.events.push(Event::Transfer(Transfer { token, from, to }));
        proof {
            assert(self@ =~= s.transferred(token, to));
        }
        Ok(())
    }

    /// Transfers `token` to `to` on `caller`'s authority.
    pub fn transfer(&mut self, caller: AccountId, token: TokenId, to: AccountId) -> (r: MutResult)
        requires
            old(self).wf(),
            old(self)@.transfer_result(caller, token, to) is Ok ==> old(self)@.transfer_fits(token, Some(to)),
        ensures
            final(self).wf(),
            final(self)@ == old(self)@.step(Request::Transfer { caller, token, to }),
            r == old(self)@.transfer_result(caller, token, to),
            r is Err ==> final(self)@ == old(self)@,
            r is Ok ==> final(self)@ == old(self)@.transferred(token, Some(to)),
            to != spec_null_account() && old(self)@.owner(token) is Some ==> (r is Ok <==> old(self)@.holds_authority(
                token,
                caller,
            )),
            r is Ok ==> final(self)@.owners.contains_key(token) && final(self)@.owners[token] == to,
    {
        if is_null_account(&to) || is_null_account(&caller) {
            return Err(Error::DisallowedTransfer);
        }
        match self.get_owner(&token) {
            Some(_) => self.unsafe_transfer(token, caller, Some(to), Ghost(self@.minted as int)),
            None => Err(Error::InexistentToken),
        }
    }

    /// Mints `amount` new tokens to the creator; only the creator may do so.
    pub fn mint(&mut self, caller: AccountId, amount: TokenId) -> (r: MutResult)
        requires
            old(self).wf(),
            caller == old(self)@.creator ==> old(self)@.mint_fits(amount),
        ensures
            final(self).wf(),
            final(self)@ == old(self)@.step(Request::Mint { caller, amount }),
            caller != old(self)@.creator ==> r == MutResult::Err(Error::DisallowedMint) && final(self)@ == old(self)@,
            caller == old(self)@.creator ==> r == MutResult::Ok(()) && final(self)@ == old(self)@.after_mint(amount),
    {
        if !accounts_equal(&caller, &self.creator) {
            return Err(Error::DisallowedMint);
        }
        let ghost s = self@;
        let start = self.minted;
        let end = self.minted + amount;
        let mut token = start;
        while token < end
            invariant
                start <= token <= end,
                end == start + amount,
                start == s.minted,
                caller == s.creator,
                s.mint_fits(amount),
                self@.minted == start,
                self@.creator == s.creator,
                self@ == s.minted_through(start, (token - start) as nat),
                self@.inv(token as int),
            decreases end - token,
        {
            let ghost i: nat = (token - start) as nat;
            proof {
                assert(s.minted_through(s.minted, i).transfer_fits((s.minted + i) as TokenId, Some(s.creator)));
            }
            let creator = self.creator;
            self.unsafe_transfer(token, caller, Some(creator), Ghost(token as int)).unwrap();
            proof {
                lemma_inv_monotone(self@, if creator != spec_null_account() { token + 1 } else { token as int }, token + 1);
                assert(self@ == s.minted_through(start, (i + 1) as nat));
            }
            token = token + 1;
        }
        let ghost before = self@;
        self.minted = end;
        proof {
            assert(self@ =~= s.after_mint(amount));
            assert(self@ =~= NftState { minted: end, ..before });
            lemma_inv_ignores_minted(before, end, end as int);
        }
        Ok(())
    }

    /// Destroys `token` on `caller`'s authority; a token without an owner needs none.
    pub fn burn(&mut self, caller: AccountId, token: TokenId) -> (r: MutResult)
        requires
            old(self).wf(),
            old(self)@.move_result(token, caller) is Ok ==> old(self)@.transfer_fits(token, None),
        ensures
            final(self).wf(),
            final(self)@ == old(self)@.step(Request::Burn { caller, token }),
            r == old(self)@.move_result(token, caller),
            r is Err ==> final(self)@ == old(self)@,
            r is Ok ==> final(self)@ == old(self)@.transferred(token, None),
            r is Ok <==> (old(self)@.owner(token) is None || old(self)@.holds_authority(token, caller)),
            r is Ok ==> final(self)@.owner(token) is None,
    {
        self.unsafe_transfer(token, caller, None, Ghost(self@.minted as int))
    }

    /// Approves `approved` to transfer `token` (the null account removes the approval).
    pub fn approve(&mut self, caller: AccountId, token: TokenId, approved: AccountId) -> (r: MutResult)
        requires
            old(self).wf(),
            old(self)@.approve_result(caller, token) is Ok ==> has_room_for(old(self)@.approvals, token),
        ensures
            final(self).wf(),
            final(self)@ == old(self)@.step(Request::Approve { caller, token, approved }),
            r == old(self)@.approve_result(caller, token),
            r is Err ==> final(self)@ == old(self)@,
            r is Ok ==> final(self)@ == old(self)@.approval_set(token, approved),
            r is Ok <==> old(self)@.holds_authority(token, caller),
            r is Ok ==> final(self)@.approvals.contains_key(token) && final(self)@.approvals[token] == approved,
    {
        if !self.is_allowed(&token, &caller) || is_null_account(&caller) {
            return Err(Error::NotAuthorized);
        }
        let ghost s = self@;
        proof {
            lemma_allowed_has_owner(s, s.minted as int, token, caller);
        }
        self.approvals.insert(token, approved);
        let approved_opt = into_opt(approved);
        let owner = self.get_owner(&token).unwrap();
        self.events.push(Event::Approval(Approval { token, owner, approved: approved_opt }));
        proof {
            assert(self@ =~= s.approval_set(token, approved));
            lemma_bounded_insert(s.approvals, token, approved);
            lemma_inv_same_tokens(s, self@, s.minted as int);
        }
        Ok(())
    }

    /// Grants (`status`) or revokes operator rights of `operator` over all tokens of `caller`.
    pub fn set_operator(&mut self, caller: AccountId, operator: AccountId, status: bool)
        requires
            old(self).wf(),
            status ==> has_room_for(old(self)@.operators, (caller, operator)),
        ensures
            final(self).wf(),
            final(self)@ == old(self)@.step(Request::SetOperator { caller, operator, status }),
            final(self)@ == old(self)@.operator_set(caller, operator, status),
    {
        let ghost s = self@;
        let owner = caller;
        if status {
            self.operators.insert((owner, operator), status);
        } else {
            self.operators.take(&(owner, operator));
        }
        self.events.push(Event::OperatorStatusChange(OperatorStatusChange { owner, operator, status }));
        proof {
            assert(self@ =~= s.operator_set(caller, operator, status));
            if status {
                lemma_bounded_insert(s.operators, (caller, operator), status);
            } else {
                lemma_bounded_remove(s.operators, (caller, operator));
            }
            lemma_inv_same_tokens(s, self@, s.minted as int);
        }
    }

    /// Offers `token` for sale at `amount`.
    pub fn list_offer(&mut self, caller: AccountId, token: TokenId, amount: Balance) -> (r: MutResult)
        requires
            old(self).wf(),
            old(self)@.list_result(caller, token) is Ok ==> has_room_for(old(self)@.offers, token),
        ensures
            final(self).wf(),
            final(self)@ == old(self)@.step(Request::ListOffer { caller, token, price: amount }),
            r == old(self)@.list_result(caller, token),
            r is Err ==> final(self)@ == old(self)@,
            r is Ok ==> final(self)@ == old(self)@.listed(token, amount),
            r is Ok <==> old(self)@.holds_authority(token, caller),
            r is Ok ==> final(self)@.offers.contains_key(token) && final(self)@.offers[token] == amount,
    {
        if !self.is_allowed(&token, &caller) {
            return Err(Error::NotAuthorized);
        }
        let ghost s = self@;
        proof {
            lemma_allowed_has_owner(s, s.minted as int, token, caller);
        }
        self.offers.insert(token, amount);
        let owner = self.get_owner(&token).unwrap();
        self.events.push(Event::ListToken(ListToken { token, owner, amount }));
        proof {
            assert(self@ =~= s.listed(token, amount));
            lemma_bounded_insert(s.offers, token, amount);
            lemma_inv_same_tokens(s, self@, s.minted as int);
        }
        Ok(())
    }

    /// Withdraws the offer of `token`.
    pub fn unlist_offer(&mut self, caller: AccountId, token: TokenId) -> (r: MutResult)
        requires
            old(self).wf(),
        ensures
            final(self).wf(),
            final(self)@ == old(self)@.step(Request::UnlistOffer { caller, token }),
            r == old(self)@.unlist_result(caller, token),
            r is Err ==> final(self)@ == old(self)@,
            r is Ok ==> final(self)@ == old(self)@.unlisted(token),
            r is Ok <==> old(self)@.holds_authority(token, caller) && old(self)@.offers.contains_key(token),
            !old(self)@.holds_authority(token, caller) ==> r == MutResult::Err(Error::NotAuthorized),
            r is Ok ==> !final(self)@.offers.contains_key(token),
    {
        if !self.is_allowed(&token, &caller) {
            return Err(Error::NotAuthorized);
        }
        let ghost s = self@;
        proof {
            lemma_allowed_has_owner(s, s.minted as int, token, caller);
        }
        if let None = self.offers.take(token) {
            proof {
                assert(self@ =~= s);
            }
            return Err(Error::NotSelling);
        }
        let owner = self.get_owner(&token).unwrap();
        self.events.push(Event::UnlistToken(UnlistToken { token, owner }));
        proof {
            assert(self@ =~= s.unlisted(token));
            lemma_bounded_remove(s.offers, token);
            lemma_inv_same_tokens(s, self@, s.minted as int);
        }
        Ok(())
    }

    /// Buys `token` for `offered`, paid by `buyer`. On success, returns the shares of
    /// the price owed to the provider, the creator and the seller.
    pub fn take_offer(&mut self, buyer: AccountId, offered: Balance, token: TokenId) -> (r: Result<OfferPayouts, Error>)
        requires
            old(self).wf(),
            old(self)@.take_offer_fits(buyer, offered, token),
        ensures
            final(self).wf(),
            final(self)@ == old(self)@.step(Request::TakeOffer { buyer, offered, token }),
            r == old(self)@.take_offer_result(buyer, offered, token),
            !old(self)@.sale_proceeds(token, offered) ==> final(self)@ == old(self)@,
            old(self)@.sale_proceeds(token, offered) && buyer == spec_null_account()
                ==> final(self)@ == old(self)@.approved_for_sale(token, buyer),
            old(self)@.sale_proceeds(token, offered) && buyer != spec_null_account()
                ==> final(self)@ == old(self)@.sold(token, buyer, offered),
            !old(self)@.offers.contains_key(token) ==> r == Err::<OfferPayouts, Error>(Error::NotSelling),
            old(self)@.offers.contains_key(token) && offered < old(self)@.offers[token]
                ==> r == Err::<OfferPayouts, Error>(Error::InsufficientTransaction),
            old(self)@.offers.contains_key(token) && offered >= old(self)@.offers[token] && buyer
                != spec_null_account() ==> {
                &&& r is Ok
                &&& final(self)@.owners.contains_key(token)
                &&& final(self)@.owners[token] == buyer
                &&& !final(self)@.offers.contains_key(token)
                &&& r->Ok_0.seller.to == old(self)@.owners[token]
                &&& r->Ok_0.provider.to == old(self)@.provider
                &&& r->Ok_0.creator.to == old(self)@.creator
                &&& r->Ok_0.provider.amount == spec_checked_mul_by_q(offered, 2, 100)
                &&& r->Ok_0.creator.amount == spec_checked_mul_by_q(offered, 2, 100)
                &&& r->Ok_0.seller.amount == spec_checked_mul_by_q(offered, 96, 100)
            },
    {
        match self.offers.get(token) {
            None => Err(Error::NotSelling),
            Some(o) => {
                if offered < o {
                    Err(Error::InsufficientTransaction)
                } else {
                    self.unsafe_take_offer(token, buyer, offered)
                }
            },
        }
    }

    fn unsafe_take_offer(&mut self, token: TokenId, buyer: AccountId, price: Balance) -> (r: Result<OfferPayouts, Error>)
        requires
            old(self).wf(),
            old(self)@.offers.contains_key(token),
            has_room_for(old(self)@.approvals, token),
            buyer != spec_null_account() ==> old(self)@.approved_for_sale(token, buyer).transfer_fits(token, Some(buyer)),
        ensures
            final(self).wf(),
            buyer == spec_null_account() ==> r == Err::<OfferPayouts, Error>(Error::NotAuthorized)
                && final(self)@ == old(self)@.approved_for_sale(token, buyer),
            buyer != spec_null_account() ==> r == Ok::<OfferPayouts, Error>(
                spec_offer_payouts(price, old(self)@.provider, old(self)@.creator, old(self)@.stored_owner(token)),
            ) && final(self)@ == old(self)@.sold(token, buyer, price),
    {
        let ghost s = self@;
        let seller = self.get_owner(&token).unwrap();
        // transfer ownership (the buyer needs approval)
        self.approvals.insert(token, buyer);
        proof {
            assert(self@ =~= s.approved_for_sale(token, buyer));
            lemma_bounded_insert(s.approvals, token, buyer);
            lemma_inv_same_tokens(s, self@, s.minted as int);
        }
        let moved = self.unsafe_transfer(token, buyer, Some(buyer), Ghost(s.minted as int));
        if let Err(e) = moved {
            return Err(e);
        }
        // deduce fees and compute the transfers
        let provider = percent_payout(price, PROVIDER_PERCENT, self.provider);
        let creator = percent_payout(price, CREATOR_PERCENT, self.creator);
        let seller_share = percent_payout(price, SELLER_PERCENT, seller);
        // record the event
        self.events.push(Event::OfferTaken(OfferTaken { seller, token, buyer, price }));
        let ghost before = s.approved_for_sale(token, buyer).transferred(token, Some(buyer));
        proof {
            assert(self@ =~= s.sold(token, buyer, price));
            lemma_inv_same_tokens(before, self@, s.minted as int);
        }
        Ok(OfferPayouts { provider, creator, seller: seller_share })
    }

    /// All tokens currently on offer, each with its asking price.
    pub fn offers(&self) -> (r: ink_prelude::vec::Vec<(TokenId, Balance)>)
        ensures
            r@.len() == self@.offers.len(),
            forall|i: int| #![trigger r@[i]] 0 <= i < r@.len() ==> map_get(self@.offers, r@[i].0) == Some(r@[i].1),
            forall|i: int, j: int| #![trigger r@[i], r@[j]] 0 <= i < j < r@.len() ==> r@[i].0 != r@[j].0,
            forall|t: TokenId|
                #![trigger self@.offers.contains_key(t)]
                self@.offers.contains_key(t) ==> exists|i: int| 0 <= i < r@.len() && r@[i].0 == t,
    {
        self.offers.entries()
    }

    /// Whether moving `token` to `to` finds room for its keys in the storage maps.
    fn transfer_has_room(&self, token: TokenId, to: Option<AccountId>) -> (r: bool)
        requires
            self.wf(),
        ensures
            r == self@.transfer_fits(token, to),
    {
        let ghost s = self@;
        let stored = self.owners.get(token);
        let owners_room = match stored {
            Some(_) => true,
            None => self.owners.len() < u32::MAX,
        };
        let owner = match stored {
            Some(acc) => acc,
            None => null_account(),
        };
        let dest = from_opt(to);
        let owner_removed = match self.balances.get(&owner) {
            Some(v) => v == 1,
            None => false,
        };
        let dest_kept = match self.balances.get(&dest) {
            Some(_) => !(owner_removed && accounts_equal(&dest, &owner)),
            None => false,
        };
        proof {
            lemma_debited_keys(s.balances, owner);
            if owner_removed {
                lemma_contains_len(s.balances.dom(), owner);
            }
        }
        let len_after = if owner_removed {
            self.balances.len() - 1
        } else {
            self.balances.len()
        };
        owners_room && (dest_kept || len_after < u32::MAX)
    }

    /// Whether approving an account for `token` finds room in the approvals map.
    fn approval_has_room(&self, token: TokenId) -> (r: bool)
        ensures
            r == has_room_for(self@.approvals, token),
    {
        match self.approvals.get(token) {
            Some(_) => true,
            None => self.approvals.len() < u32::MAX,
        }
    }

    /// Whether granting `operator` rights over `owner`'s tokens finds room in the operators map.
    fn operator_has_room(&self, owner: AccountId, operator: AccountId) -> (r: bool)
        ensures
            r == has_room_for(self@.operators, (owner, operator)),
    {
        match self.operators.get(&(owner, operator)) {
            Some(_) => true,
            None => self.operators.len() < u32::MAX,
        }
    }

    /// Whether offering `token` finds room in the offers map.
    fn offer_has_room(&self, token: TokenId) -> (r: bool)
        ensures
            r == has_room_for(self@.offers, token),
    {
        match self.offers.get(token) {
            Some(_) => true,
            None => self.offers.len() < u32::MAX,
        }
    }

    /// Whether minting `amount` tokens neither overflows the token counter nor the
    /// storage maps, found by following the counts through each minting step.
    fn mint_has_room(&self, amount: TokenId) -> (r: bool)
        requires
            self.wf(),
        ensures
            r == self@.mint_fits(amount),
    {
        let ghost s = self@;
        if amount > u128::MAX - self.minted {
            return false;
        }
        let start = self.minted;
        let creator = self.creator;
        let null = null_account();
        let creator_is_null = is_null_account(&creator);
        let mut owners_len: u64 = self.owners.len() as u64;
        let mut balances_len: u64 = self.balances.len() as u64;
        let mut null_balance: u128 = self.get_balance(&null);
        let mut creator_present = match self.balances.get(&creator) {
            Some(_) => true,
            None => false,
        };
        let mut i: u128 = 0;
        proof {
            lemma_inv_monotone(s, s.minted as int, s.minted as int);
        }
        while i < amount
            invariant
                s == self@,
                s.wf(),
                start == s.minted,
                creator == s.creator,
                null == spec_null_account(),
                creator_is_null == (creator == null),
                start + amount <= u128::MAX,
                i <= amount,
                ({
                    let cur = s.minted_through(start, i as nat);
                    &&& cur.inv(start + i)
                    &&& owners_len == cur.owners.len()
                    &&& balances_len == cur.balances.len()
                    &&& null_balance == cur.balance(null)
                    &&& creator_present == cur.balances.contains_key(creator)
                    &&& forall|t: TokenId| t >= start + i ==> (#[trigger] cur.owners.contains_key(t) <==> s.owners.contains_key(t))
                }),
                forall|j: nat|
                    j < i ==> #[trigger] s.minted_through(s.minted, j).transfer_fits(
                        (s.minted + j) as TokenId,
                        Some(s.creator),
                    ),
            decreases amount - i,
        {
            let ghost cur = s.minted_through(start, i as nat);
            let token = start + i;
            proof {
                assert(cur.stored_owner(token) == null);
                lemma_debited_keys(cur.balances, null);
                if null_balance == 1 {
                    lemma_contains_len(cur.balances.dom(), null);
                }
            }
            let token_known = match self.owners.get(token) {
                Some(_) => true,
                None => false,
            };
            let owners_room = token_known || owners_len < u32::MAX as u64;
            let null_removed = null_balance == 1;
            let creator_kept = creator_present && !(creator_is_null && null_removed);
            let balances_after_debit = if null_removed { balances_len - 1 } else { balances_len };
            let balances_room = creator_kept || balances_after_debit < u32::MAX as u64;
            if !(owners_room && balances_room) {
                proof {
                    assert(!cur.transfer_fits(token, Some(creator)));
                    assert(!s.minted_through(s.minted, i as nat).transfer_fits((s.minted + i) as TokenId, Some(s.creator)));
                }
                return false;
            }
            proof {
                assert(cur.transfer_fits(token, Some(creator)));
                lemma_transferred_inv(cur, token, Some(creator), start + i);
                lemma_inv_monotone(
                    cur.transferred(token, Some(creator)),
                    if creator != null { start + i + 1 } else { start + i },
                    start + i + 1,
                );
                lemma_credited_keys(debited(cur.balances, null), creator);
                if !token_known {
                    assert(cur.owners.insert(token, creator).dom() =~= cur.owners.dom().insert(token));
                } else {
                    assert(cur.owners.insert(token, creator).dom() =~= cur.owners.dom());
                }
                assert(s.minted_through(start, (i + 1) as nat) == cur.transferred(token, Some(creator)));
            }
            if !token_known {
                owners_len = owners_len + 1;
            }
            balances_len = if creator_kept { balances_after_debit } else { balances_after_debit + 1 };
            null_balance = if creator_is_null {
                if null_balance >= 1 { null_balance } else { 1 }
            } else {
                if null_balance >= 1 { null_balance - 1 } else { 0 }
            };
            creator_present = true;
            i = i + 1;
        }
        true
    }

    /// Whether `transfer(caller, token, to)` would overflow a storage map's key counter.
    pub fn transfer_panics(&self, caller: AccountId, token: TokenId, to: AccountId) -> (r: bool)
        requires
            self.wf(),
        ensures
            r == !(self@.transfer_result(caller, token, to) is Ok ==> self@.transfer_fits(token, Some(to))),
    {
        if is_null_account(&to) || is_null_account(&caller) {
            return false;
        }
        match self.get_owner(&token) {
            Some(_) => self.is_allowed(&token, &caller) && !self.transfer_has_room(token, Some(to)),
            None => false,
        }
    }

    /// Whether `burn(caller, token)` would overflow a storage map's key counter.
    pub fn burn_panics(&self, caller: AccountId, token: TokenId) -> (r: bool)
        requires
            self.wf(),
        ensures
            r == !(self@.move_result(token, caller) is Ok ==> self@.transfer_fits(token, None)),
    {
        let refused = match self.get_owner(&token) {
            Some(_) => !self.is_allowed(&token, &caller),
            None => false,
        };
        !refused && !self.transfer_has_room(token, None)
    }

    /// Whether `mint(caller, amount)` would overflow the token counter or a storage map's key counter.
    pub fn mint_panics(&self, caller: AccountId, amount: TokenId) -> (r: bool)
        requires
            self.wf(),
        ensures
            r == !(caller == self@.creator ==> self@.mint_fits(amount)),
    {
        accounts_equal(&caller, &self.creator) && !self.mint_has_room(amount)
    }

    /// Whether `approve(caller, token, _)` would overflow the approvals map's key counter.
    pub fn approve_panics(&self, caller: AccountId, token: TokenId) -> (r: bool)
        ensures
            r == !(self@.approve_result(caller, token) is Ok ==> has_room_for(self@.approvals, token)),
    {
        self.is_allowed(&token, &caller) && !is_null_account(&caller) && !self.approval_has_room(token)
    }

    /// Whether `set_operator(caller, operator, status)` would overflow the operators map's key counter.
    pub fn set_operator_panics(&self, caller: AccountId, operator: AccountId, status: bool) -> (r: bool)
        ensures
            r == !(status ==> has_room_for(self@.operators, (caller, operator))),
    {
        status && !self.operator_has_room(caller, operator)
    }

    /// Whether `list_offer(caller, token, _)` would overflow the offers map's key counter.
    pub fn list_offer_panics(&self, caller: AccountId, token: TokenId) -> (r: bool)
        ensures
            r == !(self@.list_result(caller, token) is Ok ==> has_room_for(self@.offers, token)),
    {
        self.is_allowed(&token, &caller) && !self.offer_has_room(token)
    }

    /// Whether `take_offer(buyer, offered, token)` would overflow a storage map's key counter.
    pub fn take_offer_panics(&self, buyer: AccountId, offered: Balance, token: TokenId) -> (r: bool)
        requires
            self.wf(),
        ensures
            r == !self@.take_offer_fits(buyer, offered, token),
    {
        let proceeds = match self.offers.get(token) {
            Some(o) => offered >= o,
            None => false,
        };
        if !proceeds {
            return false;
        }
        !self.approval_has_room(token) || (!is_null_account(&buyer) && !self.transfer_has_room(token, Some(buyer)))
    }

    /// Hands out the events recorded so far, oldest first, and clears the record.
    pub fn take_events(&mut self) -> (r: Vec<Event>)
        requires
            old(self).wf(),
        ensures
            final(self).wf(),
            r@ == old(self)@.events,
            final(self)@ == (NftState { events: Seq::empty(), ..old(self)@ }),
    {
        let ghost s = self@;
        let mut taken: Vec<Event> = Vec::new();
        core::mem::swap(&mut taken, &mut self.events);
        proof {
            assert(self@ =~= NftState { events: Seq::empty(), ..s });
            lemma_inv_same_tokens(s, self@, s.minted as int);
        }
        taken
    }

    fn is_owner(&self, token: &TokenId, account: &AccountId) -> (r: bool)
        ensures
            r == (*account == self@.stored_owner(*token)),
    {
        let stored = match self.owners.get(*token) {
            Some(acc) => acc,
            None => null_account(),
        };
        accounts_equal(account, &stored)
    }

    fn is_approved(&self, token: &TokenId, account: &AccountId) -> (r: bool)
        ensures
            r == (*account == self@.stored_approval(*token)),
    {
        let stored = match self.approvals.get(*token) {
            Some(acc) => acc,
            None => null_account(),
        };
        accounts_equal(account, &stored)
    }

    fn is_token_operator(&self, token: &TokenId, account: &AccountId) -> (r: bool)
        ensures
            r == self@.is_token_operator(*token, *account),
    {
        match self.get_owner(token) {
            Some(owner) => self.get_is_operator(&owner, account),
            None => false,
        }
    }

    fn is_allowed(&self, token: &TokenId, account: &AccountId) -> (r: bool)
        ensures
            r == self@.is_allowed(*token, *account),
    {
        !is_null_account(account) && (self.is_owner(token, account) || self.is_approved(token, account)
            || self.is_token_operator(token, account))
    }
}

} // verus!
