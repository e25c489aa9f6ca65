//! The registry as mathematical maps: its invariant, the effect of each
//! operation, and the lemmas that show every operation keeps the invariant.
use vstd::prelude::*;
use crate::account::{AccountId, spec_from_opt, spec_into_opt, spec_null_account};
use crate::balances::{OfferPayouts, spec_offer_payouts};
use crate::events::{
    Approval, Balance, Error, Event, ListToken, MutResult, OfferTaken, OperatorStatusChange, TokenId,
    Transfer, UnlistToken,
};
use crate::storage::{OperatorKey, has_room_for};

verus! {

/// The registry, as mathematical maps.
#[verifier::ext_equal]
pub struct NftState {
    pub provider: AccountId,
    pub creator: AccountId,
    pub minted: TokenId,
    pub owners: Map<TokenId, AccountId>,
    pub balances: Map<AccountId, TokenId>,
    pub approvals: Map<TokenId, AccountId>,
    pub operators: Map<OperatorKey, bool>,
    pub offers: Map<TokenId, Balance>,
    pub events: Seq<Event>,
}


/// A request that changes the registry, with the account that makes it.
pub enum Request {
    Transfer { caller: AccountId, token: TokenId, to: AccountId },
    Mint { caller: AccountId, amount: TokenId },
    Burn { caller: AccountId, token: TokenId },
    Approve { caller: AccountId, token: TokenId, approved: AccountId },
    SetOperator { caller: AccountId, operator: AccountId, status: bool },
    ListOffer { caller: AccountId, token: TokenId, price: Balance },
    UnlistOffer { caller: AccountId, token: TokenId },
    TakeOffer { buyer: AccountId, offered: Balance, token: TokenId },
}

/// The tokens that `owners` assigns to `a`.
pub open spec fn tokens_of(owners: Map<TokenId, AccountId>, a: AccountId) -> Set<TokenId> {
    owners.dom().filter(|t: TokenId| owners[t] == a)
}

/// A map that has at most `u32::MAX` keys, as a storage hash map does.
pub open spec fn bounded_map<K, V>(m: Map<K, V>) -> bool {
    m.dom().finite() && m.len() <= u32::MAX
}

/// `balances` after taking one token from `a`: a count that drops to zero is removed.
pub open spec fn debited(balances: Map<AccountId, TokenId>, a: AccountId) -> Map<AccountId, TokenId> {
    if balances.contains_key(a) {
        if balances[a] == 1 {
            balances.remove(a)
        } else {
            balances.insert(a, (balances[a] - 1) as TokenId)
        }
    } else {
        balances
    }
}

/// `balances` after giving one token to `a`.
pub open spec fn credited(balances: Map<AccountId, TokenId>, a: AccountId) -> Map<AccountId, TokenId> {
    if balances.contains_key(a) {
        balances.insert(a, (balances[a] + 1) as TokenId)
    } else {
        balances.insert(a, 1)
    }
}

impl NftState {
    /// The account stored as the token's owner, the null account where none is stored.
    pub open spec fn stored_owner(self, token: TokenId) -> AccountId {
        if self.owners.contains_key(token) {
            self.owners[token]
        } else {
            spec_null_account()
        }
    }

    /// The account stored as approved for the token, the null account where none is stored.
    pub open spec fn stored_approval(self, token: TokenId) -> AccountId {
        if self.approvals.contains_key(token) {
            self.approvals[token]
        } else {
            spec_null_account()
        }
    }

    /// The owner of a token; a token that was never minted, or was burned, has none.
    pub open spec fn owner(self, token: TokenId) -> Option<AccountId> {
        spec_into_opt(self.stored_owner(token))
    }

    /// The tokens whose owner is `a`.
    pub open spec fn owned_by(self, a: AccountId) -> Set<TokenId> {
        Set::new(|t: TokenId| self.owner(t) == Some(a))
    }

    /// The number of tokens recorded for an account.
    pub open spec fn balance(self, a: AccountId) -> TokenId {
        if self.balances.contains_key(a) {
            self.balances[a]
        } else {
            0
        }
    }

    /// The account approved to transfer a token, if any.
    pub open spec fn approved(self, token: TokenId) -> Option<AccountId> {
        if self.approvals.contains_key(token) {
            spec_into_opt(self.approvals[token])
        } else {
            None
        }
    }

    /// Whether `operator` may transfer every token of `owner`.
    pub open spec fn is_operator(self, owner: AccountId, operator: AccountId) -> bool {
        self.operators.contains_key((owner, operator)) && self.operators[(owner, operator)]
    }

    /// Whether `account` operates for the owner of `token`.
    pub open spec fn is_token_operator(self, token: TokenId, account: AccountId) -> bool {
        match self.owner(token) {
            Some(owner) => self.is_operator(owner, account),
            None => false,
        }
    }

    /// Authority over `token`, read straight off the maps: `account` is a real account and
    /// is the token's owner, or the account approved for it, or an operator of its real owner.
    pub open spec fn holds_authority(self, token: TokenId, account: AccountId) -> bool {
        &&& account != spec_null_account()
        &&& {
            ||| self.owners.contains_key(token) && self.owners[token] == account
            ||| self.approvals.contains_key(token) && self.approvals[token] == account
            ||| {
                &&& self.owners.contains_key(token)
                &&& self.owners[token] != spec_null_account()
                &&& self.operators.contains_key((self.owners[token], account))
                &&& self.operators[(self.owners[token], account)]
            }
        }
    }

    /// Whether `account` may transfer `token`: a non-null account that owns it,
    /// is approved for it, or operates for its owner.
    pub open spec fn is_allowed(self, token: TokenId, account: AccountId) -> bool {
        &&& account != spec_null_account()
        &&& {
            ||| self.stored_owner(token) == account
            ||| self.stored_approval(token) == account
            ||| self.is_token_operator(token, account)
        }
    }

    /// Whether a transfer of `token` requested by `caller` is refused: a token
    /// with an owner moves only on that owner's authority.
    pub open spec fn transfer_refused(self, token: TokenId, caller: AccountId) -> bool {
        self.stored_owner(token) != spec_null_account() && !self.is_allowed(token, caller)
    }

    /// The registry after `token` moves from its stored owner to `to` (`None` burns it):
    /// its approval and its offer, both made on the former owner's authority, go with it.
    pub open spec fn transferred(self, token: TokenId, to: Option<AccountId>) -> NftState {
        let from = self.stored_owner(token);
        let dest = spec_from_opt(to);
        NftState {
            balances: credited(debited(self.balances, from), dest),
            owners: self.owners.insert(token, dest),
            approvals: self.approvals.remove(token),
            offers: self.offers.remove(token),
            events: self.events.push(Event::Transfer(Transfer { token, from: spec_into_opt(from), to })),
            ..self
        }
    }

    /// The storage maps can take the keys that moving `token` to `to` adds.
    pub open spec fn transfer_fits(self, token: TokenId, to: Option<AccountId>) -> bool {
        &&& has_room_for(self.owners, token)
        &&& has_room_for(debited(self.balances, self.stored_owner(token)), spec_from_opt(to))
    }

    /// The registry's invariant, where no token at or above `bound` has an owner.
    pub open spec fn inv(self, bound: int) -> bool {
        &&& bounded_map(self.owners)
        &&& bounded_map(self.balances)
        &&& bounded_map(self.approvals)
        &&& bounded_map(self.operators)
        &&& bounded_map(self.offers)
        &&& forall|a: AccountId| #[trigger] self.balances.contains_key(a) ==> self.balances[a] >= 1
        &&& forall|a: AccountId|
            a != spec_null_account() ==> #[trigger] self.balance(a) == tokens_of(self.owners, a).len()
        &&& self.balance(spec_null_account()) <= tokens_of(self.owners, spec_null_account()).len() + 1
        &&& forall|t: TokenId|
            #[trigger] self.approvals.contains_key(t) && self.approvals[t] != spec_null_account()
                ==> self.stored_owner(t) != spec_null_account()
        &&& forall|t: TokenId|
            #[trigger] self.owners.contains_key(t) && t >= bound ==> self.owners[t] == spec_null_account()
        &&& forall|t: TokenId| #[trigger] self.offers.contains_key(t) ==> self.stored_owner(t) != spec_null_account()
    }

    /// What a transfer of `token` to `to` requested by `caller` answers.
    pub open spec fn transfer_result(self, caller: AccountId, token: TokenId, to: AccountId) -> MutResult {
        if to == spec_null_account() || caller == spec_null_account() {
            Err(Error::DisallowedTransfer)
        } else if self.owner(token) is None {
            Err(Error::InexistentToken)
        } else if !self.is_allowed(token, caller) {
            Err(Error::NotAuthorized)
        } else {
            Ok(())
        }
    }

    /// What moving `token` on `caller`'s request answers.
    pub open spec fn move_result(self, token: TokenId, caller: AccountId) -> MutResult {
        if self.transfer_refused(token, caller) {
            Err(Error::NotAuthorized)
        } else {
            Ok(())
        }
    }

    /// The registry after the `n` tokens from `first` on are minted to the creator, one by one.
    pub open spec fn minted_through(self, first: TokenId, n: nat) -> NftState
        decreases n,
    {
        if n == 0 {
            self
        } else {
            self.minted_through(first, (n - 1) as nat).transferred(
                (first + n - 1) as TokenId,
                Some(self.creator),
            )
        }
    }

    /// Minting `amount` tokens neither overflows the token counter nor the storage maps.
    pub open spec fn mint_fits(self, amount: u128) -> bool {
        &&& self.minted + amount <= u128::MAX
        &&& forall|i: nat|
            i < amount ==> #[trigger] self.minted_through(self.minted, i).transfer_fits(
                (self.minted + i) as TokenId,
                Some(self.creator),
            )
    }

    /// The registry after minting `amount` tokens.
    pub open spec fn after_mint(self, amount: u128) -> NftState {
        NftState { minted: (self.minted + amount) as TokenId, ..self.minted_through(self.minted, amount as nat) }
    }

    /// What an approval of `token` requested by `caller` answers.
    pub open spec fn approve_result(self, caller: AccountId, token: TokenId) -> MutResult {
        if !self.is_allowed(token, caller) || caller == spec_null_account() {
            Err(Error::NotAuthorized)
        } else {
            Ok(())
        }
    }

    /// The registry after `approved` is made the approved account of `token`.
    pub open spec fn approval_set(self, token: TokenId, approved: AccountId) -> NftState {
        NftState {
            approvals: self.approvals.insert(token, approved),
            events: self.events.push(
                Event::Approval(Approval { token, owner: self.stored_owner(token), approved: spec_into_opt(approved) }),
            ),
            ..self
        }
    }

    /// The registry after `owner` grants (`status`) or revokes operator rights of `operator`.
    pub open spec fn operator_set(self, owner: AccountId, operator: AccountId, status: bool) -> NftState {
        NftState {
            operators: if status {
                self.operators.insert((owner, operator), status)
            } else {
                self.operators.remove((owner, operator))
            },
            events: self.events.push(Event::OperatorStatusChange(OperatorStatusChange { owner, operator, status })),
            ..self
        }
    }

    /// What listing `token` on `caller`'s request answers: it needs authority over the token.
    pub open spec fn list_result(self, caller: AccountId, token: TokenId) -> MutResult {
        if !self.is_allowed(token, caller) {
            Err(Error::NotAuthorized)
        } else {
            Ok(())
        }
    }

    /// What unlisting `token` on `caller`'s request answers.
    pub open spec fn unlist_result(self, caller: AccountId, token: TokenId) -> MutResult {
        if !self.is_allowed(token, caller) {
            Err(Error::NotAuthorized)
        } else if !self.offers.contains_key(token) {
            Err(Error::NotSelling)
        } else {
            Ok(())
        }
    }

    /// The registry after `token` is offered for `amount`.
    pub open spec fn listed(self, token: TokenId, amount: Balance) -> NftState {
        NftState {
            offers: self.offers.insert(token, amount),
            events: self.events.push(Event::ListToken(ListToken { owner: self.stored_owner(token), token, amount })),
            ..self
        }
    }

    /// The registry after the offer of `token` is withdrawn.
    pub open spec fn unlisted(self, token: TokenId) -> NftState {
        NftState {
            offers: self.offers.remove(token),
            events: self.events.push(Event::UnlistToken(UnlistToken { owner: self.stored_owner(token), token })),
            ..self
        }
    }

    /// A purchase of `token` paying `offered` gets past the offer checks.
    pub open spec fn sale_proceeds(self, token: TokenId, offered: Balance) -> bool {
        self.offers.contains_key(token) && offered >= self.offers[token]
    }

    /// What a purchase of `token` by `buyer` paying `offered` answers.
    pub open spec fn take_offer_result(self, buyer: AccountId, offered: Balance, token: TokenId) -> Result<OfferPayouts, Error> {
        if !self.offers.contains_key(token) {
            Err(Error::NotSelling)
        } else if offered < self.offers[token] {
            Err(Error::InsufficientTransaction)
        } else if buyer == spec_null_account() {
            Err(Error::NotAuthorized)
        } else {
            Ok(spec_offer_payouts(offered, self.provider, self.creator, self.stored_owner(token)))
        }
    }

    /// The registry after `buyer` is approved for `token` so the sale can move it.
    pub open spec fn approved_for_sale(self, token: TokenId, buyer: AccountId) -> NftState {
        NftState { approvals: self.approvals.insert(token, buyer), ..self }
    }

    /// The registry after `buyer` buys `token` for `price`.
    pub open spec fn sold(self, token: TokenId, buyer: AccountId, price: Balance) -> NftState {
        let moved = self.approved_for_sale(token, buyer).transferred(token, Some(buyer));
        NftState {
            events: moved.events.push(
                Event::OfferTaken(OfferTaken { seller: self.stored_owner(token), buyer, token, price }),
            ),
            ..moved
        }
    }

    /// A purchase that gets past the offer checks does not overflow the storage maps.
    pub open spec fn take_offer_fits(self, buyer: AccountId, offered: Balance, token: TokenId) -> bool {
        self.sale_proceeds(token, offered) ==> {
            &&& has_room_for(self.approvals, token)
            &&& buyer != spec_null_account() ==> self.approved_for_sale(token, buyer).transfer_fits(token, Some(buyer))
        }
    }

    /// The registry after serving `req`; a refused request leaves it as it was.
    pub open spec fn step(self, req: Request) -> NftState {
        match req {
            Request::Transfer { caller, token, to } => if self.transfer_result(caller, token, to) is Ok {
                self.transferred(token, Some(to))
            } else {
                self
            },
            Request::Mint { caller, amount } => if caller == self.creator {
                self.after_mint(amount)
            } else {
                self
            },
            Request::Burn { caller, token } => if self.move_result(token, caller) is Ok {
                self.transferred(token, None)
            } else {
                self
            },
            Request::Approve { caller, token, approved } => if self.approve_result(caller, token) is Ok {
                self.approval_set(token, approved)
            } else {
                self
            },
            Request::SetOperator { caller, operator, status } => self.operator_set(caller, operator, status),
            Request::ListOffer { caller, token, price: amount } => if self.list_result(caller, token) is Ok {
                self.listed(token, amount)
            } else {
                self
            },
            Request::UnlistOffer { caller, token } => if self.unlist_result(caller, token) is Ok {
                self.unlisted(token)
            } else {
                self
            },
            Request::TakeOffer { buyer, offered, token } => if !self.sale_proceeds(token, offered) {
                self
            } else if buyer == spec_null_account() {
                self.approved_for_sale(token, buyer)
            } else {
                self.sold(token, buyer, offered)
            },
        }
    }

    /// Serving `req` overflows neither the token counter nor a storage map's key counter
    /// (the preconditions of the operations).
    pub open spec fn admits(self, req: Request) -> bool {
        match req {
            Request::Transfer { caller, token, to } => self.transfer_result(caller, token, to) is Ok
                ==> self.transfer_fits(token, Some(to)),
            Request::Mint { caller, amount } => caller == self.creator ==> self.mint_fits(amount),
            Request::Burn { caller, token } => self.move_result(token, caller) is Ok ==> self.transfer_fits(token, None),
            Request::Approve { caller, token, approved } => self.approve_result(caller, token) is Ok
                ==> has_room_for(self.approvals, token),
            Request::SetOperator { caller, operator, status } => status ==> has_room_for(
                self.operators,
                (caller, operator),
            ),
            Request::ListOffer { caller, token, .. } => self.list_result(caller, token) is Ok
                ==> has_room_for(self.offers, token),
            Request::UnlistOffer { caller, token } => true,
            Request::TakeOffer { buyer, offered, token } => self.take_offer_fits(buyer, offered, token),
        }
    }

    /// The registry after serving `reqs` in order.
    pub open spec fn run(self, reqs: Seq<Request>) -> NftState
        decreases reqs.len(),
    {
        if reqs.len() == 0 {
            self
        } else {
            self.step(reqs[0]).run(reqs.drop_first())
        }
    }

    /// Every request of `reqs` is admitted in the state it meets.
    pub open spec fn admits_run(self, reqs: Seq<Request>) -> bool
        decreases reqs.len(),
    {
        reqs.len() == 0 || (self.admits(reqs[0]) && self.step(reqs[0]).admits_run(reqs.drop_first()))
    }

    /// The invariant of a registry that has minted `self.minted` tokens.
    pub open spec fn wf(self) -> bool {
        self.inv(self.minted as int)
    }
}


/// Moving `t` to `d` moves `t` into the tokens of `d` and out of everyone else's.
pub proof fn lemma_tokens_of_insert(owners: Map<TokenId, AccountId>, t: TokenId, d: AccountId, a: AccountId)
    requires
        owners.dom().finite(),
    ensures
        tokens_of(owners.insert(t, d), a) == (if a == d {
            tokens_of(owners, a).insert(t)
        } else {
            tokens_of(owners, a).remove(t)
        }),
        tokens_of(owners, a).finite(),
        tokens_of(owners, a).len() <= owners.len(),
        tokens_of(owners, a).contains(t) <==> (owners.contains_key(t) && owners[t] == a),
{
    let f = |x: TokenId| owners[x] == a;
    owners.dom().lemma_len_filter(f);
    assert(tokens_of(owners, a) =~= owners.dom().filter(f));
    let lhs = tokens_of(owners.insert(t, d), a);
    if a == d {
        assert(lhs =~= tokens_of(owners, a).insert(t));
    } else {
        assert(lhs =~= tokens_of(owners, a).remove(t));
    }
}

/// A finite set that holds `x` is not empty.
pub proof fn lemma_contains_len<A>(s: Set<A>, x: A)
    requires
        s.finite(),
        s.contains(x),
    ensures
        s.len() >= 1,
{
    assert(s.remove(x).len() + 1 == s.len());
}

/// Moving a token keeps the invariant; a token moved to a real account at or
/// above the bound raises the bound past it.
pub proof fn lemma_transferred_inv(s: NftState, token: TokenId, to: Option<AccountId>, bound: int)
    requires
        s.inv(bound),
        s.transfer_fits(token, to),
    ensures
        s.transferred(token, to).inv(
            if spec_from_opt(to) != spec_null_account() && token >= bound {
                token + 1
            } else {
                bound
            },
        ),
        ({
            let b1 = debited(s.balances, s.stored_owner(token));
            let dest = spec_from_opt(to);
            b1.contains_key(dest) ==> b1[dest] < u128::MAX
        }),
{
    let from = s.stored_owner(token);
    let dest = spec_from_opt(to);
    let null = spec_null_account();
    let b1 = debited(s.balances, from);
    let s2 = s.transferred(token, to);
    let new_bound = if dest != null && token >= bound { token + 1 } else { bound };
    // lengths and finiteness
    assert(b1.dom().finite() && b1.len() <= s.balances.len()) by {
        if s.balances.contains_key(from) {
            if s.balances[from] == 1 {
                assert(s.balances.remove(from).dom() =~= s.balances.dom().remove(from));
            } else {
                assert(s.balances.insert(from, (s.balances[from] - 1) as TokenId).dom() =~= s.balances.dom());
            }
        }
    }
    assert(bounded_map(s2.balances)) by {
        if b1.contains_key(dest) {
            assert(s2.balances.dom() =~= b1.dom());
        } else {
            assert(s2.balances.dom() =~= b1.dom().insert(dest));
        }
    }
    assert(bounded_map(s2.owners)) by {
        if s.owners.contains_key(token) {
            assert(s2.owners.dom() =~= s.owners.dom());
        } else {
            assert(s2.owners.dom() =~= s.owners.dom().insert(token));
        }
    }
    assert(bounded_map(s2.approvals)) by {
        assert(s2.approvals.dom() =~= s.approvals.dom().remove(token));
    }
    assert(bounded_map(s2.offers)) by {
        assert(s2.offers.dom() =~= s.offers.dom().remove(token));
    }
    assert forall|t: TokenId| #[trigger] s2.offers.contains_key(t) implies s2.stored_owner(t) != null by {
        assert(t != token);
        assert(s.offers.contains_key(t));
    }
    // the credited balance stays below the maximum
    lemma_tokens_of_insert(s.owners, token, dest, dest);
    assert(s.balance(dest) <= u32::MAX + 1) by {
        assert(s.balance(dest) <= tokens_of(s.owners, dest).len() + 1);
    }
    assert(b1.contains_key(dest) ==> b1[dest] <= s.balance(dest));
    // balances are positive
    assert forall|a: AccountId| #[trigger] s2.balances.contains_key(a) implies s2.balances[a] >= 1 by {
        if a != dest {
            assert(b1.contains_key(a));
            if a == from {
                assert(s.balances[a] >= 2);
            }
        }
    }
    // balances count tokens
    assert forall|a: AccountId| a != null implies #[trigger] s2.balance(a) == tokens_of(s2.owners, a).len() by {
        lemma_tokens_of_insert(s.owners, token, dest, a);
        assert(s.balance(a) == tokens_of(s.owners, a).len());
        if a == from {
            lemma_contains_len(tokens_of(s.owners, a), token);
        }
    }
    assert(s2.balance(null) <= tokens_of(s2.owners, null).len() + 1) by {
        lemma_tokens_of_insert(s.owners, token, dest, null);
        if from == null && s.owners.contains_key(token) {
            lemma_contains_len(tokens_of(s.owners, null), token);
        }
    }
    // approvals of real accounts belong to owned tokens
    assert forall|t: TokenId|
        #[trigger] s2.approvals.contains_key(t) && s2.approvals[t] != null implies s2.stored_owner(t) != null by {
        assert(t != token);
        assert(s.approvals.contains_key(t));
    }
    // no owned token at or above the bound
    assert forall|t: TokenId| #[trigger] s2.owners.contains_key(t) && t >= new_bound implies s2.owners[t] == null by {
        if t != token {
            assert(s.owners.contains_key(t));
        }
    }
}

/// A bounded map stays bounded when a key with room is set.
pub(crate) proof fn lemma_bounded_insert<K, V>(m: Map<K, V>, k: K, v: V)
    requires
        bounded_map(m),
        has_room_for(m, k),
    ensures
        bounded_map(m.insert(k, v)),
{
    if m.contains_key(k) {
        assert(m.insert(k, v).dom() =~= m.dom());
    } else {
        assert(m.insert(k, v).dom() =~= m.dom().insert(k));
    }
}

/// A bounded map stays bounded when a key is removed.
pub(crate) proof fn lemma_bounded_remove<K, V>(m: Map<K, V>, k: K)
    requires
        bounded_map(m),
    ensures
        bounded_map(m.remove(k)),
{
    assert(m.remove(k).dom() =~= m.dom().remove(k));
}

/// A change that leaves owners and balances alone keeps the invariant when the other
/// maps stay bounded and approvals of real accounts and offers stay on owned tokens.
pub(crate) proof fn lemma_inv_same_tokens(s: NftState, s2: NftState, bound: int)
    requires
        s.inv(bound),
        s2.owners == s.owners,
        s2.balances == s.balances,
        bounded_map(s2.approvals),
        bounded_map(s2.operators),
        bounded_map(s2.offers),
        forall|t: TokenId|
            #[trigger] s2.approvals.contains_key(t) && s2.approvals[t] != spec_null_account()
                ==> s2.stored_owner(t) != spec_null_account(),
        forall|t: TokenId| #[trigger] s2.offers.contains_key(t) ==> s2.stored_owner(t) != spec_null_account(),
    ensures
        s2.inv(bound),
{
    assert forall|a: AccountId| a != spec_null_account() implies #[trigger] s2.balance(a) == tokens_of(s2.owners, a).len() by {
        assert(s.balance(a) == tokens_of(s.owners, a).len());
    }
}

/// An account allowed to move a token is allowed by a real owner.
pub(crate) proof fn lemma_allowed_has_owner(s: NftState, bound: int, token: TokenId, account: AccountId)
    requires
        s.inv(bound),
        s.is_allowed(token, account),
    ensures
        s.stored_owner(token) != spec_null_account(),
        s.owner(token) == Some(s.stored_owner(token)),
{
    if s.stored_approval(token) == account {
        assert(s.approvals.contains_key(token));
    }
}

/// How taking one token from `a` changes the keys of `balances`.
pub proof fn lemma_debited_keys(balances: Map<AccountId, TokenId>, a: AccountId)
    requires
        balances.dom().finite(),
    ensures
        debited(balances, a).dom().finite(),
        debited(balances, a).len() == balances.len() - (if balances.contains_key(a) && balances[a] == 1 {
            1int
        } else {
            0int
        }),
        forall|x: AccountId| #[trigger] debited(balances, a).contains_key(x)
            <==> (balances.contains_key(x) && !(x == a && balances[a] == 1)),
{
    if balances.contains_key(a) {
        if balances[a] == 1 {
            assert(balances.remove(a).dom() =~= balances.dom().remove(a));
        } else {
            assert(balances.insert(a, (balances[a] - 1) as TokenId).dom() =~= balances.dom());
        }
    }
}

/// How giving one token to `a` changes the keys of `balances`.
pub proof fn lemma_credited_keys(balances: Map<AccountId, TokenId>, a: AccountId)
    requires
        balances.dom().finite(),
    ensures
        credited(balances, a).dom().finite(),
        credited(balances, a).len() == balances.len() + (if balances.contains_key(a) { 0int } else { 1int }),
        credited(balances, a).contains_key(a),
{
    if balances.contains_key(a) {
        assert(credited(balances, a).dom() =~= balances.dom());
    } else {
        assert(credited(balances, a).dom() =~= balances.dom().insert(a));
    }
}

/// The invariant does not read the token counter.
pub proof fn lemma_inv_ignores_minted(s: NftState, minted: TokenId, bound: int)
    requires
        s.inv(bound),
    ensures
        (NftState { minted, ..s }).inv(bound),
{
    let s2 = NftState { minted, ..s };
    assert forall|a: AccountId| a != spec_null_account() implies #[trigger] s2.balance(a) == tokens_of(s2.owners, a).len() by {
        assert(s.balance(a) == tokens_of(s.owners, a).len());
    }
    assert forall|t: TokenId|
        #[trigger] s2.approvals.contains_key(t) && s2.approvals[t] != spec_null_account()
            implies s2.stored_owner(t) != spec_null_account() by {
        assert(s.approvals.contains_key(t));
    }
}

/// The invariant for a bound also holds for every larger bound.
pub proof fn lemma_inv_monotone(s: NftState, b1: int, b2: int)
    requires
        s.inv(b1),
        b1 <= b2,
    ensures
        s.inv(b2),
{
}

} // verus!
