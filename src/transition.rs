//! Blocks and the state-transition function: a block is a header and an
//! ordered list of transfers between accounts.
use vstd::prelude::*;
use crate::state_store::{Account, StateStore, lookup};

verus! {

/// A block header.
#[derive(Clone, Copy, Debug, PartialEq, Eq, Structural)]
pub struct Header {
    pub height: u64,
    pub parent_hash: u64,
    pub hash: u64,
    pub state_root: u64,
    pub logs_bloom: u64,
}

/// A transfer of `amount` from account `from` to account `to`.
#[derive(Clone, Copy, Debug, PartialEq, Eq, Structural)]
pub struct Transfer {
    pub from: u64,
    pub to: u64,
    pub amount: u64,
}

/// A header and the ordered transactions of its body.
#[derive(Clone, Debug)]
pub struct Block {
    pub header: Header,
    pub body: Vec<Transfer>,
}

/// The account a key holds, or a fresh empty one.
pub open spec fn account_or_empty(m: Map<u64, Account>, k: u64) -> Account {
    if m.contains_key(k) {
        m[k]
    } else {
        Account { balance: 0, nonce: 0, code_hash: 0 }
    }
}

/// The state after one transfer, or `None` where it is invalid: the sender
/// does not exist, cannot pay, or its nonce or the receiver's balance would
/// overflow. The sender pays and its nonce grows first; then the receiver
/// (created if absent) is credited.
pub open spec fn transfer_result(m: Map<u64, Account>, t: Transfer) -> Option<Map<u64, Account>> {
    if !m.contains_key(t.from) {
        None
    } else {
        let s = m[t.from];
        if s.balance < t.amount || s.nonce == u64::MAX {
            None
        } else {
            let m1 = m.insert(
                t.from,
                Account { balance: (s.balance - t.amount) as u64, nonce: (s.nonce + 1) as u64, ..s },
            );
            let r = account_or_empty(m1, t.to);
            if r.balance + t.amount > u64::MAX {
                None
            } else {
                Some(m1.insert(t.to, Account { balance: (r.balance + t.amount) as u64, ..r }))
            }
        }
    }
}

/// The state after the transfers `ts` in order, or `None` if one is invalid.
pub open spec fn transfers_result(m: Map<u64, Account>, ts: Seq<Transfer>) -> Option<Map<u64, Account>>
    decreases ts.len(),
{
    if ts.len() == 0 {
        Some(m)
    } else {
        match transfers_result(m, ts.drop_last()) {
            Some(m2) => transfer_result(m2, ts.last()),
            None => None,
        }
    }
}

/// The state after applying `blocks` in order to `genesis`, or `None` if a
/// block fails.
pub open spec fn replay(genesis: Map<u64, Account>, blocks: Seq<Block>) -> Option<Map<u64, Account>>
    decreases blocks.len(),
{
    if blocks.len() == 0 {
        Some(genesis)
    } else {
        match replay(genesis, blocks.drop_last()) {
            Some(m) => transfers_result(m, blocks.last().body@),
            None => None,
        }
    }
}

/// Applies one transfer to the open transaction of `store`. On `false` the
/// transfer is invalid and nothing was written.
pub fn apply_transfer(store: &mut StateStore, t: Transfer) -> (ok: bool)
    requires
        old(store).wf(),
    ensures
        final(store).wf(),
        ok == transfer_result(old(store).live(), t).is_some(),
        ok ==> final(store).live() == transfer_result(old(store).live(), t).unwrap(),
        !ok ==> final(store).live() == old(store).live(),
        final(store).committed() == old(store).committed(),
{
    let sender = match store.get(t.from) {
        Some(a) => a,
        None => return false,
    };
    if sender.balance < t.amount || sender.nonce == u64::MAX {
        return false;
    }
    let after_sender = Account {
        balance: sender.balance - t.amount,
        nonce: sender.nonce + 1,
        ..sender
    };
    let receiver = if t.to == t.from {
        after_sender
    } else {
        match store.get(t.to) {
            Some(a) => a,
            None => Account { balance: 0, nonce: 0, code_hash: 0 },
        }
    };
    if receiver.balance > u64::MAX - t.amount {
        return false;
    }
    store.put(t.from, after_sender);
    store.put(t.to, Account { balance: receiver.balance + t.amount, ..receiver });
    true
}

/// Applies the transfers of a block body, in order, to the open transaction
/// of `store`. On `false` a transfer was invalid and the live map is left
/// partly written: the caller aborts the transaction.
pub fn apply_transfers(store: &mut StateStore, body: &Vec<Transfer>) -> (ok: bool)
    requires
        old(store).wf(),
    ensures
        final(store).wf(),
        ok == transfers_result(old(store).live(), body@).is_some(),
        ok ==> final(store).live() == transfers_result(old(store).live(), body@).unwrap(),
        final(store).committed() == old(store).committed(),
{
    let mut i: usize = 0;
    while i < body.len()
        invariant
            i <= body@.len(),
            transfers_result(old(store).live(), body@.take(i as int)) == Some(store.live()),
            store.committed() == old(store).committed(),
            store.wf(),
        decreases body.len() - i,
    {
        assert(body@.take(i + 1).drop_last() =~= body@.take(i as int));
        let ok = apply_transfer(store, body[i]);
        if !ok {
            proof { lemma_transfers_prefix_fails(old(store).live(), body@, i + 1); }
            return false;
        }
        i = i + 1;
    }
    assert(body@.take(i as int) =~= body@);
    true
}

/// Once a prefix of the transfers fails, the whole list fails.
pub proof fn lemma_transfers_prefix_fails(m: Map<u64, Account>, ts: Seq<Transfer>, n: int)
    requires
        0 <= n <= ts.len(),
        transfers_result(m, ts.take(n)).is_none(),
    ensures
        transfers_result(m, ts).is_none(),
    decreases ts.len() - n,
{
    if n < ts.len() {
        assert(ts.take(n + 1).drop_last() =~= ts.take(n));
        lemma_transfers_prefix_fails(m, ts, n + 1);
    } else {
        assert(ts.take(n) =~= ts);
    }
}

} // verus!
