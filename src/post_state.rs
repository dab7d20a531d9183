//! The post-state verifier: compares expected accounts against the state an
//! execution stage holds, field by field, without changing it.
use vstd::prelude::*;
use crate::state_store::{Account, lookup};
use crate::execution::ExecutionStage;

verus! {

/// An account attribute that can diverge; `Presence` is the account's
/// existence, with 1 for present and 0 for absent.
#[derive(Clone, Copy, Debug, PartialEq, Eq, Structural)]
pub enum Field {
    Presence,
    Balance,
    Nonce,
    CodeHash,
}

/// One diverging attribute of one account.
#[derive(Clone, Copy, Debug, PartialEq, Eq, Structural)]
pub struct StateMismatch {
    pub address: u64,
    pub field: Field,
    pub expected: u64,
    pub actual: u64,
}

/// The diverging attributes of one account, in field order.
pub open spec fn account_mismatches(address: u64, expected: Option<Account>, actual: Option<Account>) -> Seq<
    StateMismatch,
> {
    match (expected, actual) {
        (None, None) => seq![],
        (Some(_), None) => seq![StateMismatch { address, field: Field::Presence, expected: 1, actual: 0 }],
        (None, Some(_)) => seq![StateMismatch { address, field: Field::Presence, expected: 0, actual: 1 }],
        (Some(e), Some(a)) => {
            let b = if e.balance != a.balance {
                seq![StateMismatch { address, field: Field::Balance, expected: e.balance, actual: a.balance }]
            } else {
                seq![]
            };
            let n = if e.nonce != a.nonce {
                seq![StateMismatch { address, field: Field::Nonce, expected: e.nonce, actual: a.nonce }]
            } else {
                seq![]
            };
            let c = if e.code_hash != a.code_hash {
                seq![StateMismatch { address, field: Field::CodeHash, expected: e.code_hash, actual: a.code_hash }]
            } else {
                seq![]
            };
            b + n + c
        },
    }
}

/// Every diverging attribute of the expected accounts in `state`, in the
/// order of `expected`; `None` expects the account to be absent.
pub open spec fn all_mismatches(state: Map<u64, Account>, expected: Seq<(u64, Option<Account>)>) -> Seq<
    StateMismatch,
>
    decreases expected.len(),
{
    if expected.len() == 0 {
        seq![]
    } else {
        let (k, e) = expected.last();
        all_mismatches(state, expected.drop_last()) + account_mismatches(k, e, lookup(state, k))
    }
}

/// The diverging attributes of one account.
pub fn compare_account(address: u64, expected: Option<Account>, actual: Option<Account>) -> (r: Vec<
    StateMismatch,
>)
    ensures
        r@ == account_mismatches(address, expected, actual),
{
    let mut r: Vec<StateMismatch> = Vec::new();
    match (expected, actual) {
        (None, None) => {},
        (Some(_), None) => r.push(StateMismatch { address, field: Field::Presence, expected: 1, actual: 0 }),
        (None, Some(_)) => r.push(StateMismatch { address, field: Field::Presence, expected: 0, actual: 1 }),
        (Some(e), Some(a)) => {
            if e.balance != a.balance {
                r.push(StateMismatch { address, field: Field::Balance, expected: e.balance, actual: a.balance });
            }
            if e.nonce != a.nonce {
                r.push(StateMismatch { address, field: Field::Nonce, expected: e.nonce, actual: a.nonce });
            }
            if e.code_hash != a.code_hash {
                r.push(
                    StateMismatch { address, field: Field::CodeHash, expected: e.code_hash, actual: a.code_hash },
                );
            }
        },
    }
    assert(r@ =~= account_mismatches(address, expected, actual));
    r
}

/// Every diverging attribute of the expected accounts against the stage's
/// state; empty when the state matches.
pub fn verify_accounts(stage: &ExecutionStage, expected: &Vec<(u64, Option<Account>)>) -> (r: Vec<StateMismatch>)
    ensures
        r@ == all_mismatches(stage.state(), expected@),
{
    let mut r: Vec<StateMismatch> = Vec::new();
    let mut i: usize = 0;
    while i < expected.len()
        invariant
            i <= expected@.len(),
            r@ == all_mismatches(stage.state(), expected@.take(i as int)),
        decreases expected.len() - i,
    {
        assert(expected@.take(i + 1).drop_last() =~= expected@.take(i as int));
        let (k, e) = expected[i];
        let actual = stage.account(k);
        let m = compare_account(k, e, actual);
        let mut j: usize = 0;
        let ghost r0 = r@;
        while j < m.len()
            invariant
                j <= m@.len(),
                r@ == r0 + m@.take(j as int),
            decreases m.len() - j,
        {
            r.push(m[j]);
            j = j + 1;
            assert(r@ =~= r0 + m@.take(j as int));
        }
        assert(m@.take(j as int) =~= m@);
        i = i + 1;
    }
    assert(expected@.take(i as int) =~= expected@);
    r
}

} // verus!
