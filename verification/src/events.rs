//! Identifiers, errors and events of the token registry.
use vstd::prelude::*;
use crate::account::AccountId;

verus! {

/// Identifier of a token; tokens are numbered from zero in minting order.
pub type TokenId = u128;

/// An amount of the chain's currency.
pub type Balance = u128;

/// Why a request was refused.
#[derive(Debug, Clone, Copy, PartialEq, Eq, Structural)]
pub enum Error {
    DisallowedTransfer,
    DisallowedMint,
    InexistentToken,
    NotAuthorized,
    NotSelling,
    InsufficientTransaction,
    MathOverflow,
}

/// The result of a request that changes the registry.
pub type MutResult = Result<(), Error>;

/// Transfer of a token; `from: None` signals minting, `to: None` destruction.
#[derive(Debug, Clone, Copy, PartialEq, Eq)]
pub struct Transfer {
    pub token: TokenId,
    pub from: Option<AccountId>,
    pub to: Option<AccountId>,
}

/// Granting approval to transfer a token on its owner's behalf; `approved: None` removes it.
#[derive(Debug, Clone, Copy, PartialEq, Eq)]
pub struct Approval {
    pub token: TokenId,
    pub owner: AccountId,
    pub approved: Option<AccountId>,
}

/// Granting or revoking operator rights.
#[derive(Debug, Clone, Copy, PartialEq, Eq)]
pub struct OperatorStatusChange {
    pub owner: AccountId,
    pub operator: AccountId,
    pub status: bool,
}

/// A token listed for sale.
#[derive(Debug, Clone, Copy, PartialEq, Eq)]
pub struct ListToken {
    pub owner: AccountId,
    pub token: TokenId,
    pub amount: Balance,
}

/// A token no longer for sale.
#[derive(Debug, Clone, Copy, PartialEq, Eq)]
pub struct UnlistToken {
    pub owner: AccountId,
    pub token: TokenId,
}

/// A sale through the offer market.
#[derive(Debug, Clone, Copy, PartialEq, Eq)]
pub struct OfferTaken {
    pub seller: AccountId,
    pub buyer: AccountId,
    pub token: TokenId,
    pub price: Balance,
}

/// Every event the registry emits.
#[derive(Debug, Clone, Copy, PartialEq, Eq)]
pub enum Event {
    Transfer(Transfer),
    Approval(Approval),
    OperatorStatusChange(OperatorStatusChange),
    ListToken(ListToken),
    UnlistToken(UnlistToken),
    OfferTaken(OfferTaken),
}

} // verus!
