//! Properties of the registry that span its operations.
use vstd::prelude::*;
use crate::account::{AccountId, spec_from_opt, spec_into_opt, spec_null_account};
use crate::balances::{OfferPayouts, spec_checked_mul_by_q};
use crate::events::{Error, Event, ListToken, OperatorStatusChange, TokenId, Transfer, UnlistToken};
use crate::model::{
    NftState, Request, lemma_allowed_has_owner, lemma_bounded_insert, lemma_bounded_remove,
    lemma_inv_same_tokens, lemma_contains_len, lemma_inv_ignores_minted, lemma_inv_monotone, lemma_tokens_of_insert,
    lemma_transferred_inv, tokens_of,
};

verus! {

/// Every real account holds exactly as many tokens as its balance says.
pub proof fn law_balance_counts_owned_tokens(s: NftState, a: AccountId)
    requires
        s.wf(),
        a != spec_null_account(),
    ensures
        s.owned_by(a).finite(),
        s.balance(a) == s.owned_by(a).len(),
{
    assert(s.owned_by(a) =~= tokens_of(s.owners, a));
    lemma_tokens_of_insert(s.owners, 0, a, a);
}

/// Only tokens below the number minted so far have an owner.
pub proof fn law_owned_tokens_were_minted(s: NftState, token: TokenId)
    requires
        s.wf(),
        s.owner(token) is Some,
    ensures
        token < s.minted,
{
    assert(s.owners.contains_key(token));
}

/// Moving a token gives it its new owner (none when burned), clears its approval,
/// withdraws its offer, and leaves every other token's owner, approval and offer as they were.
pub proof fn law_move_sets_owner_and_clears_approval(s: NftState, token: TokenId, to: Option<AccountId>, other: TokenId)
    requires
        other != token,
    ensures
        s.transferred(token, to).owner(token) == spec_into_opt(spec_from_opt(to)),
        s.transferred(token, to).approved(token) is None,
        s.transferred(token, to).owner(other) == s.owner(other),
        s.transferred(token, to).approved(other) == s.approved(other),
        !s.transferred(token, to).offers.contains_key(token),
        s.transferred(token, to).offers.contains_key(other) == s.offers.contains_key(other),
{
}

/// A transfer between two different real accounts takes one token from the seller's
/// balance, adds one to the receiver's, and leaves every other real account's balance alone.
pub proof fn law_transfer_moves_one_token(s: NftState, token: TokenId, from: AccountId, to: AccountId, other: AccountId)
    requires
        s.wf(),
        s.owner(token) == Some(from),
        to != spec_null_account(),
        to != from,
        other != from,
        other != to,
    ensures
        s.transferred(token, Some(to)).balance(from) == s.balance(from) - 1,
        s.transferred(token, Some(to)).balance(to) == s.balance(to) + 1,
        s.transferred(token, Some(to)).balance(other) == s.balance(other),
{
    lemma_tokens_of_insert(s.owners, token, to, from);
    lemma_tokens_of_insert(s.owners, token, to, to);
    lemma_contains_len(tokens_of(s.owners, from), token);
    assert(s.balance(from) == tokens_of(s.owners, from).len());
    assert(s.balance(to) == tokens_of(s.owners, to).len());
}

/// Granting or revoking operator rights is read back by `is_operator`, for that pair only.
pub proof fn law_operator_read_after_write(
    s: NftState,
    owner: AccountId,
    operator: AccountId,
    status: bool,
    other_owner: AccountId,
    other_operator: AccountId,
)
    requires
        (other_owner, other_operator) != (owner, operator),
    ensures
        s.operator_set(owner, operator, status).is_operator(owner, operator) == status,
        s.operator_set(owner, operator, status).is_operator(other_owner, other_operator)
            == s.is_operator(other_owner, other_operator),
{
}

/// An approval is read back by `get_approved`; approving the null account removes it.
pub proof fn law_approval_read_after_write(s: NftState, token: TokenId, approved: AccountId)
    ensures
        s.approval_set(token, approved).approved(token) == spec_into_opt(approved),
{
}

/// A listed token is on offer at the listed price; an unlisted one is not on offer.
pub proof fn law_listing(s: NftState, token: TokenId, amount: u128)
    ensures
        s.listed(token, amount).offers.contains_key(token),
        s.listed(token, amount).offers[token] == amount,
        !s.unlisted(token).offers.contains_key(token),
{
}

/// A sale to a real buyer makes the buyer the owner, clears the token's approval,
/// and withdraws the token's offer, leaving every other offer as it was.
pub proof fn law_sale_moves_token(s: NftState, token: TokenId, buyer: AccountId, price: u128)
    requires
        buyer != spec_null_account(),
    ensures
        s.sold(token, buyer, price).owner(token) == Some(buyer),
        s.sold(token, buyer, price).approved(token) is None,
        s.sold(token, buyer, price).offers == s.offers.remove(token),
{
}

/// Minting step by step: after `n` steps the invariant holds up to the new bound, no
/// token outside the minted range changed owner, and, for a real creator, the creator
/// holds `n` more tokens, the new ones.
proof fn lemma_minted_through(s: NftState, amount: u128, n: nat)
    requires
        s.wf(),
        s.mint_fits(amount),
        n <= amount,
    ensures
        s.minted_through(s.minted, n).inv(s.minted + n),
        s.creator != spec_null_account() ==> s.minted_through(s.minted, n).balance(s.creator) == s.balance(
            s.creator,
        ) + n,
        forall|t: TokenId|
            s.creator != spec_null_account() && s.minted <= t < s.minted + n
                ==> #[trigger] s.minted_through(s.minted, n).owner(t) == Some(s.creator),
        forall|t: TokenId|
            !(s.minted <= t < s.minted + n) ==> #[trigger] s.minted_through(s.minted, n).owner(t) == s.owner(t),
    decreases n,
{
    if n > 0 {
        let m = (n - 1) as nat;
        lemma_minted_through(s, amount, m);
        let prev = s.minted_through(s.minted, m);
        let token = (s.minted + m) as TokenId;
        assert(prev.transfer_fits(token, Some(s.creator)));
        lemma_transferred_inv(prev, token, Some(s.creator), s.minted + m);
        let next = s.minted_through(s.minted, n);
        assert(next == prev.transferred(token, Some(s.creator)));
        lemma_inv_monotone(
            next,
            if s.creator != spec_null_account() { s.minted + m + 1 } else { s.minted + m },
            s.minted + n,
        );
        assert(prev.stored_owner(token) == spec_null_account());
        if s.creator != spec_null_account() {
            lemma_tokens_of_insert(prev.owners, token, s.creator, s.creator);
            assert(prev.balance(s.creator) == tokens_of(prev.owners, s.creator).len());
            assert(next.balance(s.creator) == prev.balance(s.creator) + 1);
        }
        assert forall|t: TokenId|
            s.creator != spec_null_account() && s.minted <= t < s.minted + n implies #[trigger] next.owner(t)
                == Some(s.creator) by {
            if t != token {
                assert(prev.owner(t) == Some(s.creator));
            }
        }
        assert forall|t: TokenId| !(s.minted <= t < s.minted + n) implies #[trigger] next.owner(t) == s.owner(t) by {
            assert(prev.owner(t) == s.owner(t));
        }
    } else {
        lemma_inv_monotone(s, s.minted as int, s.minted as int);
    }
}

/// Minting `amount` tokens makes the next `amount` token ids the creator's, adds
/// `amount` to the creator's balance, raises the count of minted tokens by `amount`,
/// and leaves every other token with its owner.
pub proof fn law_mint(s: NftState, amount: u128, t: TokenId)
    requires
        s.wf(),
        s.mint_fits(amount),
        s.creator != spec_null_account(),
    ensures
        s.after_mint(amount).wf(),
        s.after_mint(amount).minted == s.minted + amount,
        s.after_mint(amount).balance(s.creator) == s.balance(s.creator) + amount,
        s.minted <= t < s.minted + amount ==> s.after_mint(amount).owner(t) == Some(s.creator),
        !(s.minted <= t < s.minted + amount) ==> s.after_mint(amount).owner(t) == s.owner(t),
{
    lemma_minted_through(s, amount, amount as nat);
    let m = s.minted_through(s.minted, amount as nat);
    lemma_inv_ignores_minted(m, (s.minted + amount) as TokenId, s.minted + amount);
    assert(s.after_mint(amount) == (NftState { minted: (s.minted + amount) as TokenId, ..m }));
    assert(m.owner(t) == s.after_mint(amount).owner(t));
}


/// The creator, the provider and the token counter are untouched by the minting steps.
proof fn lemma_minted_through_keeps_fields(s: NftState, first: TokenId, n: nat)
    ensures
        s.minted_through(first, n).creator == s.creator,
        s.minted_through(first, n).provider == s.provider,
        s.minted_through(first, n).minted == s.minted,
    decreases n,
{
    if n > 0 {
        lemma_minted_through_keeps_fields(s, first, (n - 1) as nat);
    }
}

/// The minting steps never touch a token below the first one minted.
proof fn lemma_minted_through_below(s: NftState, first: TokenId, n: nat, t: TokenId)
    requires
        first + n <= u128::MAX + 1,
        t < first,
    ensures
        s.minted_through(first, n).owners.contains_key(t) == s.owners.contains_key(t),
        s.minted_through(first, n).stored_owner(t) == s.stored_owner(t),
    decreases n,
{
    if n > 0 {
        lemma_minted_through_below(s, first, (n - 1) as nat, t);
    }
}

/// Serving an admitted request keeps the invariant.
pub proof fn law_step_keeps_wf(s: NftState, req: Request)
    requires
        s.wf(),
        s.admits(req),
    ensures
        s.step(req).wf(),
{
    let null = spec_null_account();
    let b = s.minted as int;
    match req {
        Request::Transfer { caller, token, to } => {
            if s.transfer_result(caller, token, to) is Ok {
                assert(s.owners.contains_key(token));
                lemma_transferred_inv(s, token, Some(to), b);
            }
        },
        Request::Mint { caller, amount } => {
            if caller == s.creator {
                lemma_minted_through(s, amount, amount as nat);
                let m = s.minted_through(s.minted, amount as nat);
                lemma_inv_ignores_minted(m, (s.minted + amount) as TokenId, s.minted + amount);
                assert(s.after_mint(amount) == (NftState { minted: (s.minted + amount) as TokenId, ..m }));
            }
        },
        Request::Burn { caller, token } => {
            if s.move_result(token, caller) is Ok {
                lemma_transferred_inv(s, token, None, b);
            }
        },
        Request::Approve { caller, token, approved } => {
            if s.approve_result(caller, token) is Ok {
                lemma_allowed_has_owner(s, b, token, caller);
                lemma_bounded_insert(s.approvals, token, approved);
                lemma_inv_same_tokens(s, s.approval_set(token, approved), b);
            }
        },
        Request::SetOperator { caller, operator, status } => {
            if status {
                lemma_bounded_insert(s.operators, (caller, operator), status);
            } else {
                lemma_bounded_remove(s.operators, (caller, operator));
            }
            lemma_inv_same_tokens(s, s.operator_set(caller, operator, status), b);
        },
        Request::ListOffer { caller, token, price: amount } => {
            if s.list_result(caller, token) is Ok {
                lemma_bounded_insert(s.offers, token, amount);
                lemma_inv_same_tokens(s, s.listed(token, amount), b);
            }
        },
        Request::UnlistOffer { caller, token } => {
            if s.unlist_result(caller, token) is Ok {
                lemma_bounded_remove(s.offers, token);
                lemma_inv_same_tokens(s, s.unlisted(token), b);
            }
        },
        Request::TakeOffer { buyer, offered, token } => {
            if s.sale_proceeds(token, offered) {
                let a = s.approved_for_sale(token, buyer);
                lemma_bounded_insert(s.approvals, token, buyer);
                lemma_inv_same_tokens(s, a, b);
                if buyer != null {
                    assert(s.owners.contains_key(token));
                    lemma_transferred_inv(a, token, Some(buyer), b);
                    let moved = a.transferred(token, Some(buyer));
                    lemma_inv_same_tokens(moved, s.sold(token, buyer, offered), b);
                }
            }
        },
    }
}

/// Serving a run of admitted requests keeps the invariant.
pub proof fn law_run_keeps_wf(s: NftState, reqs: Seq<Request>)
    requires
        s.wf(),
        s.admits_run(reqs),
    ensures
        s.run(reqs).wf(),
    decreases reqs.len(),
{
    if reqs.len() > 0 {
        law_step_keeps_wf(s, reqs[0]);
        law_run_keeps_wf(s.step(reqs[0]), reqs.drop_first());
    }
}

/// Only a mint by the creator changes the count of minted tokens, and it adds exactly
/// the amount minted; every other request leaves the count as it was.
pub proof fn law_minted_changes_only_by_mint(s: NftState, req: Request)
    requires
        s.admits(req),
    ensures
        s.step(req).minted >= s.minted,
        req is Mint && req->Mint_caller == s.creator ==> s.step(req).minted == s.minted + req->Mint_amount,
        !(req is Mint && req->Mint_caller == s.creator) ==> s.step(req).minted == s.minted,
{
    match req {
        Request::Mint { caller, amount } => {
            lemma_minted_through_keeps_fields(s, s.minted, amount as nat);
        },
        _ => {},
    }
}

/// The count of minted tokens never decreases over a run of admitted requests.
pub proof fn law_run_minted_never_decreases(s: NftState, reqs: Seq<Request>)
    requires
        s.admits_run(reqs),
    ensures
        s.run(reqs).minted >= s.minted,
    decreases reqs.len(),
{
    if reqs.len() > 0 {
        law_minted_changes_only_by_mint(s, reqs[0]);
        law_run_minted_never_decreases(s.step(reqs[0]), reqs.drop_first());
    }
}

/// A minted token without owner (a burned one) gets no owner from any admitted request.
pub proof fn law_burned_token_stays_burned(s: NftState, req: Request, t: TokenId)
    requires
        s.wf(),
        s.admits(req),
        t < s.minted,
        s.owner(t) is None,
    ensures
        s.step(req).owner(t) is None,
        t < s.step(req).minted,
{
    law_minted_changes_only_by_mint(s, req);
    assert(s.stored_owner(t) == spec_null_account());
    match req {
        Request::Mint { caller, amount } => {
            if caller == s.creator {
                lemma_minted_through_below(s, s.minted, amount as nat, t);
            }
        },
        _ => {},
    }
}

/// Over any run of admitted requests a burned token stays without owner, so every later
/// transfer of it between real accounts is refused as inexistent.
pub proof fn law_run_burned_token_stays_burned(
    s: NftState,
    reqs: Seq<Request>,
    t: TokenId,
    caller: AccountId,
    to: AccountId,
)
    requires
        s.wf(),
        s.admits_run(reqs),
        t < s.minted,
        s.owner(t) is None,
    ensures
        s.run(reqs).owner(t) is None,
        caller != spec_null_account() && to != spec_null_account() ==> s.run(reqs).transfer_result(caller, t, to)
            == Err::<(), Error>(Error::InexistentToken),
    decreases reqs.len(),
{
    if reqs.len() > 0 {
        law_burned_token_stays_burned(s, reqs[0], t);
        law_step_keeps_wf(s, reqs[0]);
        law_run_burned_token_stays_burned(s.step(reqs[0]), reqs.drop_first(), t, caller, to);
    }
}


/// Moving a token from `a` to `b` and back succeeds both ways and gives back the owners
/// and balances, with the token's approval removed and both transfers recorded.
pub proof fn law_transfer_round_trip(s: NftState, token: TokenId, a: AccountId, b: AccountId)
    requires
        s.wf(),
        s.owner(token) == Some(a),
        b != spec_null_account(),
    ensures
        s.transfer_result(a, token, b) == Ok::<(), Error>(()),
        s.step(Request::Transfer { caller: a, token, to: b }).transfer_result(b, token, a) == Ok::<(), Error>(()),
        ({
            let back = s.step(Request::Transfer { caller: a, token, to: b }).step(
                Request::Transfer { caller: b, token, to: a },
            );
            &&& back.owners == s.owners
            &&& back.balances == s.balances
            &&& back.approvals == s.approvals.remove(token)
            &&& back.operators == s.operators
            &&& back.offers == s.offers.remove(token)
            &&& back.minted == s.minted
            &&& back.creator == s.creator
            &&& back.provider == s.provider
            &&& back.events == s.events.push(
                Event::Transfer(Transfer { token, from: Some(a), to: Some(b) }),
            ).push(Event::Transfer(Transfer { token, from: Some(b), to: Some(a) }))
        }),
{
    let null = spec_null_account();
    let s1 = s.transferred(token, Some(b));
    let s2 = s1.transferred(token, Some(a));
    assert(s.stored_owner(token) == a);
    lemma_tokens_of_insert(s.owners, token, b, a);
    lemma_tokens_of_insert(s.owners, token, b, b);
    lemma_contains_len(tokens_of(s.owners, a), token);
    assert(s.balance(a) == tokens_of(s.owners, a).len());
    assert(s.balance(b) == tokens_of(s.owners, b).len());
    assert(s.balances.contains_key(a));
    assert(s1.stored_owner(token) == b);
    assert(s2.owners =~= s.owners);
    assert(s2.balances =~= s.balances);
    assert(s2.approvals =~= s.approvals.remove(token));
    assert(s2.offers =~= s.offers.remove(token));
}

/// An operator of a token's owner may move it; once the owner revokes the operator, it
/// may not (unless it owns or is approved for the token), and the refusal changes nothing.
pub proof fn law_operator_access(s: NftState, t: TokenId, o: AccountId, op: AccountId, x: AccountId)
    requires
        s.wf(),
        s.owner(t) == Some(o),
        op != spec_null_account(),
        x != spec_null_account(),
    ensures
        ({
            let granted = s.step(Request::SetOperator { caller: o, operator: op, status: true });
            &&& granted.transfer_result(op, t, x) == Ok::<(), Error>(())
            &&& granted.step(Request::Transfer { caller: op, token: t, to: x }).owner(t) == Some(x)
        }),
        ({
            let revoked = s.step(Request::SetOperator { caller: o, operator: op, status: false });
            op != o && s.approved(t) != Some(op) ==> {
                &&& revoked.transfer_result(op, t, x) == Err::<(), Error>(Error::NotAuthorized)
                &&& revoked.step(Request::Transfer { caller: op, token: t, to: x }) == revoked
            }
        }),
{
    assert(s.stored_owner(t) == o);
}

/// Setting an operator status twice is the same as setting it once, but for the second
/// event; granting and then revoking gives back every operator answer when the pair was
/// no operator before, and the very operators map when the pair had no entry.
pub proof fn law_set_operator_idempotent(
    s: NftState,
    caller: AccountId,
    operator: AccountId,
    status: bool,
    owner: AccountId,
    other: AccountId,
)
    ensures
        ({
            let once = s.step(Request::SetOperator { caller, operator, status });
            let twice = once.step(Request::SetOperator { caller, operator, status });
            &&& twice.operators == once.operators
            &&& twice.owners == once.owners
            &&& twice.balances == once.balances
            &&& twice.approvals == once.approvals
            &&& twice.offers == once.offers
            &&& twice.minted == once.minted
            &&& twice.events == once.events.push(
                Event::OperatorStatusChange(OperatorStatusChange { owner: caller, operator, status }),
            )
        }),
        ({
            let undone = s.step(Request::SetOperator { caller, operator, status: true }).step(
                Request::SetOperator { caller, operator, status: false },
            );
            &&& !s.is_operator(caller, operator) ==> undone.is_operator(owner, other) == s.is_operator(owner, other)
            &&& !s.operators.contains_key((caller, operator)) ==> undone.operators == s.operators
            &&& undone.owners == s.owners
            &&& undone.approvals == s.approvals
            &&& undone.offers == s.offers
        }),
{
    let once = s.step(Request::SetOperator { caller, operator, status });
    let twice = once.step(Request::SetOperator { caller, operator, status });
    assert(twice.operators =~= once.operators);
    let undone = s.step(Request::SetOperator { caller, operator, status: true }).step(
        Request::SetOperator { caller, operator, status: false },
    );
    if !s.operators.contains_key((caller, operator)) {
        assert(undone.operators =~= s.operators);
    }
}

/// Listing a token that is not on offer and then unlisting it both succeed and give back
/// the offers, with both events recorded.
pub proof fn law_listing_round_trip(s: NftState, caller: AccountId, token: TokenId, price: u128)
    requires
        s.list_result(caller, token) is Ok,
        !s.offers.contains_key(token),
    ensures
        s.step(Request::ListOffer { caller, token, price }).unlist_result(caller, token) is Ok,
        ({
            let back = s.step(Request::ListOffer { caller, token, price }).step(
                Request::UnlistOffer { caller, token },
            );
            &&& back.offers == s.offers
            &&& back.owners == s.owners
            &&& back.balances == s.balances
            &&& back.approvals == s.approvals
            &&& back.operators == s.operators
            &&& back.minted == s.minted
            &&& back.events == s.events.push(
                Event::ListToken(ListToken { owner: s.stored_owner(token), token, amount: price }),
            ).push(Event::UnlistToken(UnlistToken { owner: s.stored_owner(token), token }))
        }),
{
    let back = s.listed(token, price).unlisted(token);
    assert(back.offers =~= s.offers);
}

/// The minting steps ignore the token counter of the state they start from.
proof fn lemma_minted_through_ignores_minted(s: NftState, x: TokenId, first: TokenId, n: nat)
    ensures
        (NftState { minted: x, ..s }).minted_through(first, n) == (NftState {
            minted: x,
            ..s.minted_through(first, n)
        }),
    decreases n,
{
    if n > 0 {
        lemma_minted_through_ignores_minted(s, x, first, (n - 1) as nat);
        let token = (first + n - 1) as TokenId;
        let prev = s.minted_through(first, (n - 1) as nat);
        assert((NftState { minted: x, ..prev }).transferred(token, Some(s.creator)) =~= (NftState {
            minted: x,
            ..prev.transferred(token, Some(s.creator))
        }));
    }
}

/// Minting `n + m` tokens from `first` is minting `n` and then `m` more from `first + n`.
proof fn lemma_minted_through_split(s: NftState, first: TokenId, n: nat, m: nat)
    requires
        first + n + m <= u128::MAX + 1,
    ensures
        s.minted_through(first, n + m) == s.minted_through(first, n).minted_through((first + n) as TokenId, m),
    decreases m,
{
    lemma_minted_through_keeps_fields(s, first, n);
    if m > 0 {
        lemma_minted_through_split(s, first, n, (m - 1) as nat);
        assert((n + m - 1) as nat == n + (m - 1) as nat);
    }
}

/// Minting `a` and then `b` tokens is minting `a + b` tokens, events included; minting
/// none changes nothing.
pub proof fn law_mint_additive(s: NftState, caller: AccountId, a: u128, b: u128)
    requires
        caller == s.creator,
        s.minted + a + b <= u128::MAX,
    ensures
        s.step(Request::Mint { caller, amount: a }).step(Request::Mint { caller, amount: b }) == s.step(
            Request::Mint { caller, amount: (a + b) as u128 },
        ),
        s.step(Request::Mint { caller, amount: 0 }) == s,
{
    let m0 = s.minted;
    let ma = s.minted_through(m0, a as nat);
    lemma_minted_through_keeps_fields(s, m0, a as nat);
    let s1 = s.after_mint(a);
    assert(s1 == (NftState { minted: (m0 + a) as TokenId, ..ma }));
    lemma_minted_through_ignores_minted(ma, (m0 + a) as TokenId, (m0 + a) as TokenId, b as nat);
    lemma_minted_through_split(s, m0, a as nat, b as nat);
    assert((a + b) as u128 as nat == a as nat + b as nat);
    assert(s1.after_mint(b) =~= s.after_mint((a + b) as u128));
    assert(s.after_mint(0) =~= s);
}


/// Buying a listed token succeeds exactly when the payment reaches the asking price:
/// a real buyer paying at least the price gets the token, which leaves the market, and the
/// seller's share goes to the former owner; paying less is refused as insufficient and a
/// token not on offer is refused as not selling, both without any change.
pub proof fn law_take_offer_payment(s: NftState, buyer: AccountId, offered: u128, token: TokenId)
    requires
        s.wf(),
    ensures
        !s.offers.contains_key(token) ==> s.take_offer_result(buyer, offered, token) == Err::<OfferPayouts, Error>(
            Error::NotSelling,
        ) && s.step(Request::TakeOffer { buyer, offered, token }) == s,
        s.offers.contains_key(token) && offered < s.offers[token] ==> s.take_offer_result(buyer, offered, token)
            == Err::<OfferPayouts, Error>(Error::InsufficientTransaction) && s.step(
            Request::TakeOffer { buyer, offered, token },
        ) == s,
        s.offers.contains_key(token) && offered >= s.offers[token] && buyer != spec_null_account() ==> {
            let after = s.step(Request::TakeOffer { buyer, offered, token });
            let r = s.take_offer_result(buyer, offered, token);
            &&& r is Ok
            &&& r->Ok_0.seller.to == s.owners[token]
            &&& r->Ok_0.provider.to == s.provider
            &&& r->Ok_0.creator.to == s.creator
            &&& r->Ok_0.provider.amount == spec_checked_mul_by_q(offered, 2, 100)
            &&& r->Ok_0.creator.amount == spec_checked_mul_by_q(offered, 2, 100)
            &&& r->Ok_0.seller.amount == spec_checked_mul_by_q(offered, 96, 100)
            &&& after.owners.contains_key(token)
            &&& after.owners[token] == buyer
            &&& !after.offers.contains_key(token)
        },
{
    if s.offers.contains_key(token) {
        assert(s.stored_owner(token) != spec_null_account());
    }
}

/// The authority that the checks of transfer, approve, list and unlist test is exactly
/// owning the token, being approved for it, or operating for its real owner.
pub proof fn law_allowed_is_authority(s: NftState, token: TokenId, account: AccountId)
    ensures
        s.is_allowed(token, account) == s.holds_authority(token, account),
{
}

/// A transfer between real accounts of a token that has an owner succeeds exactly when
/// the caller owns it, is approved for it, or operates for its owner, and then gives the
/// token to the receiver; otherwise it changes nothing.
pub proof fn law_transfer_authority(s: NftState, caller: AccountId, token: TokenId, to: AccountId)
    requires
        s.owners.contains_key(token),
        s.owners[token] != spec_null_account(),
        to != spec_null_account(),
    ensures
        (s.transfer_result(caller, token, to) is Ok) == s.holds_authority(token, caller),
        s.holds_authority(token, caller) ==> {
            let after = s.step(Request::Transfer { caller, token, to });
            after.owners.contains_key(token) && after.owners[token] == to
        },
        !s.holds_authority(token, caller) ==> s.step(Request::Transfer { caller, token, to }) == s,
{
}

/// Approving succeeds exactly when the caller owns the token, is approved for it, or
/// operates for its owner, and then records the new approved account; otherwise it is
/// refused as unauthorized and changes nothing. In particular an operator of the owner
/// may approve, and the approved account may hand the approval on.
pub proof fn law_approve_authority(s: NftState, caller: AccountId, token: TokenId, approved: AccountId)
    ensures
        (s.approve_result(caller, token) is Ok) == s.holds_authority(token, caller),
        s.holds_authority(token, caller) ==> {
            let after = s.step(Request::Approve { caller, token, approved });
            &&& after.approvals.contains_key(token)
            &&& after.approvals[token] == approved
            &&& after.approved(token) == spec_into_opt(approved)
        },
        !s.holds_authority(token, caller) ==> s.approve_result(caller, token) == Err::<(), Error>(
            Error::NotAuthorized,
        ) && s.step(Request::Approve { caller, token, approved }) == s,
        s.owner(token) matches Some(o) && s.is_operator(o, caller) && caller != spec_null_account()
            ==> s.approve_result(caller, token) is Ok,
        s.approved(token) == Some(caller) ==> s.approve_result(caller, token) is Ok,
{
}

/// Listing succeeds exactly when the caller owns the token, is approved for it, or
/// operates for its owner, and then offers the token at the given price; otherwise it is
/// refused as unauthorized and changes nothing. In particular the approved account may list.
pub proof fn law_list_authority(s: NftState, caller: AccountId, token: TokenId, price: u128)
    ensures
        (s.list_result(caller, token) is Ok) == s.holds_authority(token, caller),
        s.holds_authority(token, caller) ==> {
            let after = s.step(Request::ListOffer { caller, token, price });
            after.offers.contains_key(token) && after.offers[token] == price
        },
        !s.holds_authority(token, caller) ==> s.list_result(caller, token) == Err::<(), Error>(
            Error::NotAuthorized,
        ) && s.step(Request::ListOffer { caller, token, price }) == s,
        s.approved(token) == Some(caller) ==> s.list_result(caller, token) is Ok,
{
}

/// Unlisting a token on offer succeeds exactly when the caller owns the token, is approved
/// for it, or operates for its owner, and then withdraws the offer; without that authority
/// it is refused as unauthorized, and with it but no offer as not selling, both without
/// change. In particular the approved account may withdraw the offer.
pub proof fn law_unlist_authority(s: NftState, caller: AccountId, token: TokenId)
    ensures
        (s.unlist_result(caller, token) is Ok) == (s.holds_authority(token, caller) && s.offers.contains_key(
            token,
        )),
        s.holds_authority(token, caller) && s.offers.contains_key(token) ==> !s.step(
            Request::UnlistOffer { caller, token },
        ).offers.contains_key(token),
        !s.holds_authority(token, caller) ==> s.unlist_result(caller, token) == Err::<(), Error>(
            Error::NotAuthorized,
        ) && s.step(Request::UnlistOffer { caller, token }) == s,
        s.holds_authority(token, caller) && !s.offers.contains_key(token) ==> s.unlist_result(caller, token)
            == Err::<(), Error>(Error::NotSelling) && s.step(Request::UnlistOffer { caller, token }) == s,
        s.approved(token) == Some(caller) && s.offers.contains_key(token) ==> s.unlist_result(caller, token) is Ok,
{
}


/// Burning needs authority only over a token that has an owner: it succeeds exactly when
/// the token has none, or the caller owns it, is approved for it, or operates for its
/// owner, and the token then has no owner; otherwise it changes nothing.
pub proof fn law_burn_authority(s: NftState, caller: AccountId, token: TokenId)
    ensures
        (s.move_result(token, caller) is Ok) == (s.owner(token) is None || s.holds_authority(token, caller)),
        s.move_result(token, caller) is Ok ==> s.step(Request::Burn { caller, token }).owner(token) is None,
        s.move_result(token, caller) is Err ==> s.step(Request::Burn { caller, token }) == s,
{
}

} // verus!
