//! Accounts as plain 32-byte identifiers, with the all-zero account standing for "nobody".
use vstd::prelude::*;

verus! {

broadcast use vstd::array::group_array_axioms;

/// A 32-byte account identifier.
pub type AccountId = [u8; 32];

/// The all-zero account, used to mean "no account".
pub open spec fn spec_null_account() -> AccountId {
    vstd::array::spec_array_fill_for_copy_type::<u8, 32>(0u8)
}

/// Two accounts are the same exactly when all their bytes agree.
pub proof fn lemma_accounts_eq_bytes(a: AccountId, b: AccountId)
    ensures
        (a == b) <==> (forall|i: int| 0 <= i < 32 ==> a[i] == b[i]),
{
    if forall|i: int| 0 <= i < 32 ==> a[i] == b[i] {
        assert(a =~= b);
    }
}

/// An account is the null account exactly when all its bytes are zero.
pub proof fn lemma_null_account_bytes(a: AccountId)
    ensures
        (a == spec_null_account()) <==> (forall|i: int| 0 <= i < 32 ==> a[i] == 0u8),
{
    lemma_accounts_eq_bytes(a, spec_null_account());
    assert forall|i: int| 0 <= i < 32 implies spec_null_account()[i] == 0u8 by {
        assert(spec_null_account()@[i] == 0u8);
    }
}

/// The null account.
#[verifier::when_used_as_spec(spec_null_account)]
pub fn null_account() -> (r: AccountId)
    ensures
        r == spec_null_account(),
{
    [0u8; 32]
}

/// Byte-wise equality of two accounts.
pub fn accounts_equal(a: &AccountId, b: &AccountId) -> (r: bool)
    ensures
        r == (*a == *b),
{
    let mut i: usize = 0;
    while i < 32
        invariant
            i <= 32,
            forall|j: int| 0 <= j < i ==> a[j] == b[j],
        decreases 32 - i,
    {
        if a[i] != b[i] {
            proof {
                lemma_accounts_eq_bytes(*a, *b);
            }
            return false;
        }
        i = i + 1;
    }
    proof {
        lemma_accounts_eq_bytes(*a, *b);
    }
    true
}

/// Whether an account is the null account.
pub fn is_null_account(a: &AccountId) -> (r: bool)
    ensures
        r == (*a == spec_null_account()),
{
    let zero = null_account();
    accounts_equal(a, &zero)
}

/// Turns an optional account into an account, `None` becoming the null account.
pub fn from_opt(opt: Option<AccountId>) -> (r: AccountId)
    ensures
        r == spec_from_opt(opt),
{
    match opt {
        Some(acc) => acc,
        None => null_account(),
    }
}

/// Turns an account into an optional account, the null account becoming `None`.
pub fn into_opt(acc: AccountId) -> (r: Option<AccountId>)
    ensures
        r == spec_into_opt(acc),
{
    if is_null_account(&acc) {
        None
    } else {
        Some(acc)
    }
}

/// `None` is the null account, `Some(a)` is `a`.
pub open spec fn spec_from_opt(opt: Option<AccountId>) -> AccountId {
    match opt {
        Some(acc) => acc,
        None => spec_null_account(),
    }
}

/// The null account is `None`, any other account `a` is `Some(a)`.
pub open spec fn spec_into_opt(acc: AccountId) -> Option<AccountId> {
    if acc == spec_null_account() {
        None
    } else {
        Some(acc)
    }
}

/// Reading an account back from its optional form gives it unchanged.
pub proof fn lemma_from_into_opt(acc: AccountId)
    ensures
        spec_from_opt(spec_into_opt(acc)) == acc,
{
}

/// An optional account that is not `Some` of the null account survives the round trip.
pub proof fn lemma_into_from_opt(opt: Option<AccountId>)
    requires
        opt != Some(spec_null_account()),
    ensures
        spec_into_opt(spec_from_opt(opt)) == opt,
{
}

} // verus!
