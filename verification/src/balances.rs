//! Balance arithmetic for market fees.
use vstd::prelude::*;
use crate::account::AccountId;
use crate::events::Error;

verus! {

/// What `checked_mul_by_q(a, b, c)` computes: `a * b / c`, multiplying in the
/// order that avoids overflow when `c` divides `a` or `b`, and `None` when the
/// product that is formed does not fit in 128 bits.
pub open spec fn spec_checked_mul_by_q(a: u128, b: u128, c: u128) -> Option<u128> {
    if a % c == 0 {
        if (a / c) * b <= u128::MAX {
            Some(((a / c) * b) as u128)
        } else {
            None
        }
    } else if b % c == 0 {
        if a * (b / c) <= u128::MAX {
            Some((a * (b / c)) as u128)
        } else {
            None
        }
    } else {
        if a * b <= u128::MAX {
            Some(((a * b) / (c as int)) as u128)
        } else {
            None
        }
    }
}

proof fn lemma_exact_quotient(a: int, b: int, c: int)
    by (nonlinear_arith)
    requires
        c > 0,
        a >= 0,
        b >= 0,
        a % c == 0,
    ensures
        (a / c) * b == (a * b) / c,
{
    let q = a / c;
    assert(a == q * c);
    assert(a * b == (q * b) * c);
}

/// Whatever `checked_mul_by_q` returns is the exact floor of `a * b / c`, and it returns
/// that whenever `a * b` fits in 128 bits.
pub proof fn lemma_checked_mul_by_q_exact(a: u128, b: u128, c: u128)
    requires
        c != 0,
    ensures
        spec_checked_mul_by_q(a, b, c) matches Some(x) ==> x == (a * b) / (c as int),
        a * b <= u128::MAX ==> spec_checked_mul_by_q(a, b, c) == Some(((a * b) / (c as int)) as u128),
{
    if a % c == 0 {
        lemma_exact_quotient(a as int, b as int, c as int);
        assert((a / c) * b <= a * b) by (nonlinear_arith)
            requires
                c > 0,
        ;
    } else if b % c == 0 {
        lemma_exact_quotient(b as int, a as int, c as int);
        assert(a * (b / c) == (b / c) * a) by (nonlinear_arith);
        assert(b * a == a * b) by (nonlinear_arith);
        assert(a * (b / c) <= a * b) by (nonlinear_arith)
            requires
                c > 0,
        ;
    }
}

/// Computes `a * b / c` without overflowing where `c` divides `a` or `b`.
pub fn checked_mul_by_q(a: u128, b: u128, c: u128) -> (r: Option<u128>)
    requires
        c != 0,
    ensures
        r == spec_checked_mul_by_q(a, b, c),
        r matches Some(x) ==> x == (a * b) / (c as int),
        a * b <= u128::MAX ==> r == Some(((a * b) / (c as int)) as u128),
{
    proof {
        lemma_checked_mul_by_q_exact(a, b, c);
    }
    if a % c == 0 {
        (a / c).checked_mul(b)
    } else if b % c == 0 {
        a.checked_mul(b / c)
    } else {
        match a.checked_mul(b) {
            Some(x) => Some(x / c),
            None => None,
        }
    }
}


/// An amount owed to an account out of a sale; `amount: None` when computing the
/// share overflowed, in which case nothing is paid.
#[derive(Debug, Clone, Copy, PartialEq, Eq)]
pub struct Payout {
    pub to: AccountId,
    pub amount: Option<u128>,
}

/// The shares of a sale: the provider's fee, the creator's fee, and the rest for the seller.
#[derive(Debug, Clone, Copy, PartialEq, Eq)]
pub struct OfferPayouts {
    pub provider: Payout,
    pub creator: Payout,
    pub seller: Payout,
}

/// Percent of the sale price going to the provider of the contract.
pub const PROVIDER_PERCENT: u128 = 2;

/// Percent of the sale price going to the creator of the token.
pub const CREATOR_PERCENT: u128 = 2;

/// Percent of the sale price going to the seller.
pub const SELLER_PERCENT: u128 = 96;

/// `percent` percent of `total`, owed to `to`.
pub open spec fn spec_percent_payout(total: u128, percent: u128, to: AccountId) -> Payout {
    Payout { to, amount: spec_checked_mul_by_q(total, percent, 100) }
}

/// Computes the share of `total` that `percent` percent makes, owed to `to`.
pub fn percent_payout(total: u128, percent: u128, to: AccountId) -> (r: Payout)
    ensures
        r == spec_percent_payout(total, percent, to),
{
    Payout { to, amount: checked_mul_by_q(total, percent, 100) }
}

/// How paying out a share went.
#[derive(Debug, Clone, Copy, PartialEq, Eq, Structural)]
pub enum TransferPercentStatus {
    MathOverflow,
    TransferFailed,
    Transferred,
}

/// The status of a payout: `MathOverflow` where no amount could be computed,
/// otherwise whether the transfer of the amount went through.
pub open spec fn spec_payout_status(payout: Payout, transferred: bool) -> TransferPercentStatus {
    match payout.amount {
        None => TransferPercentStatus::MathOverflow,
        Some(_) => if transferred {
            TransferPercentStatus::Transferred
        } else {
            TransferPercentStatus::TransferFailed
        },
    }
}

/// Classifies a payout given whether the chain accepted its transfer.
pub fn payout_status(payout: &Payout, transferred: bool) -> (r: TransferPercentStatus)
    ensures
        r == spec_payout_status(*payout, transferred),
{
    match payout.amount {
        None => TransferPercentStatus::MathOverflow,
        Some(_) => if transferred {
            TransferPercentStatus::Transferred
        } else {
            TransferPercentStatus::TransferFailed
        },
    }
}

/// The request result that a payout status stands for.
pub open spec fn spec_status_result(status: TransferPercentStatus) -> Result<(), Error> {
    match status {
        TransferPercentStatus::MathOverflow => Err(Error::MathOverflow),
        TransferPercentStatus::TransferFailed => Err(Error::InsufficientTransaction),
        TransferPercentStatus::Transferred => Ok(()),
    }
}

impl From<TransferPercentStatus> for Result<(), Error> {
    fn from(status: TransferPercentStatus) -> (r: Self) {
        match status {
            TransferPercentStatus::MathOverflow => Err(Error::MathOverflow),
            TransferPercentStatus::TransferFailed => Err(Error::InsufficientTransaction),
            TransferPercentStatus::Transferred => Ok(()),
        }
    }
}

impl vstd::std_specs::convert::FromSpecImpl<TransferPercentStatus> for Result<(), Error> {
    open spec fn obeys_from_spec() -> bool {
        true
    }

    open spec fn from_spec(status: TransferPercentStatus) -> Self {
        spec_status_result(status)
    }
}

/// The three shares of a sale at `price`: 2% to the provider, 2% to the creator
/// and 96% to the seller.
pub open spec fn spec_offer_payouts(price: u128, provider: AccountId, creator: AccountId, seller: AccountId) -> OfferPayouts {
    OfferPayouts {
        provider: spec_percent_payout(price, PROVIDER_PERCENT, provider),
        creator: spec_percent_payout(price, CREATOR_PERCENT, creator),
        seller: spec_percent_payout(price, SELLER_PERCENT, seller),
    }
}

/// The shares of a sale never add up to more than the price paid.
pub proof fn lemma_payouts_within_price(price: u128, provider: AccountId, creator: AccountId, seller: AccountId)
    ensures
        ({
            let p = spec_offer_payouts(price, provider, creator, seller);
            (p.provider.amount is Some && p.creator.amount is Some && p.seller.amount is Some)
                ==> p.provider.amount->0 + p.creator.amount->0 + p.seller.amount->0 <= price
        }),
{
    let p = spec_offer_payouts(price, provider, creator, seller);
    lemma_checked_mul_by_q_exact(price, PROVIDER_PERCENT, 100);
    lemma_checked_mul_by_q_exact(price, SELLER_PERCENT, 100);
    let pr = price as int;
    let q1 = (pr * 2) / 100;
    let q3 = (pr * 96) / 100;
    assert(100 * q1 <= pr * 2) by (nonlinear_arith)
        requires
            pr >= 0,
            q1 == (pr * 2) / 100,
    ;
    assert(100 * q3 <= pr * 96) by (nonlinear_arith)
        requires
            pr >= 0,
            q3 == (pr * 96) / 100,
    ;
    assert(q1 + q1 + q3 <= pr);
    if p.provider.amount is Some && p.creator.amount is Some && p.seller.amount is Some {
        assert(p.provider.amount->0 == q1);
        assert(p.creator.amount->0 == q1);
        assert(p.seller.amount->0 == q3);
    }
}

} // verus!
