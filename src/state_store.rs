//! Transactional key/value storage for account state.
//!
//! Every write made inside the open transaction is journaled with the value
//! the key held before it, so the transaction can be aborted, and a committed
//! journal is exactly the undo log of the changes it made.
use vstd::prelude::*;
use vstd::hash_map::HashMapWithView;
use vstd::arithmetic::div_mod::lemma_add_mod_noop;
use vstd::set::fold::{is_fun_commutative, lemma_fold_empty, lemma_fold_insert};

verus! {

broadcast use vstd::std_specs::hash::group_hash_axioms;

/// The attributes of one account.
#[derive(Clone, Copy, Debug, PartialEq, Eq, Structural)]
pub struct Account {
    pub balance: u64,
    pub nonce: u64,
    pub code_hash: u64,
}

/// A write to one key: `Some` stores a value, `None` removes the key.
pub type Write = (u64, Option<Account>);

/// What key `k` holds in `m`, as an optional value.
pub open spec fn lookup(m: Map<u64, Account>, k: u64) -> Option<Account> {
    if m.contains_key(k) {
        Some(m[k])
    } else {
        None
    }
}

/// `m` after the write `w`.
pub open spec fn assign(m: Map<u64, Account>, w: Write) -> Map<u64, Account> {
    match w.1 {
        Some(a) => m.insert(w.0, a),
        None => m.remove(w.0),
    }
}

/// `m` after the writes of `undo`, applied from the last one to the first.
pub open spec fn rewind(m: Map<u64, Account>, undo: Seq<Write>) -> Map<u64, Account>
    decreases undo.len(),
{
    if undo.len() == 0 {
        m
    } else {
        rewind(assign(m, undo.last()), undo.drop_last())
    }
}

/// Writing back the value a key held before a write undoes that write.
pub proof fn lemma_assign_then_restore(m: Map<u64, Account>, k: u64, v: Option<Account>)
    ensures
        assign(assign(m, (k, v)), (k, lookup(m, k))) == m,
{
    assert(assign(assign(m, (k, v)), (k, lookup(m, k))) =~= m);
}

/// The modulus the per-field weights are reduced by.
pub const WEIGHT_MOD: u64 = 2305843009213693951;

/// The modulus of a state commitment.
pub const COMMIT_MOD: u128 = 18446744073709551616;

/// What one account adds to a state commitment: each field, reduced, times
/// a weight drawn from the account's key, so that moving a value between
/// accounts or between fields changes the sum.
pub open spec fn commit_leaf(k: u64, a: Account) -> int {
    let w = (k % WEIGHT_MOD) as int + 1;
    w * ((a.balance % WEIGHT_MOD) as int + 1) + (w + 1) * ((a.nonce % WEIGHT_MOD) as int + 1) + (w + 2) * ((
    a.code_hash % WEIGHT_MOD) as int + 1)
}

/// Adds the leaf of key `k` of `m` to an accumulator.
pub open spec fn commit_step(m: Map<u64, Account>) -> spec_fn(int, u64) -> int {
    |acc: int, k: u64| acc + commit_leaf(k, m[k])
}

/// The commitment to a state: the sum of the leaves of all its accounts,
/// modulo 2^64. It depends on the map alone, not on any order of keys.
pub open spec fn state_commitment(m: Map<u64, Account>) -> u64 {
    (m.dom().fold(0int, commit_step(m)) % (COMMIT_MOD as int)) as u64
}

/// Adding leaves is order-independent.
proof fn lemma_commit_step_commutative(m: Map<u64, Account>)
    ensures
        is_fun_commutative(commit_step(m)),
{
    let f = commit_step(m);
    assert forall|a1: u64, a2: u64, b: int| #[trigger] f(f(b, a2), a1) == f(f(b, a1), a2) by {};
}

/// The leaf of `k` and `a`, computed.
fn leaf_of(k: u64, a: Account) -> (r: u128)
    ensures
        r as int == commit_leaf(k, a),
{
    let w: u128 = (k % WEIGHT_MOD) as u128 + 1;
    let b: u128 = (a.balance % WEIGHT_MOD) as u128 + 1;
    let n: u128 = (a.nonce % WEIGHT_MOD) as u128 + 1;
    let c: u128 = (a.code_hash % WEIGHT_MOD) as u128 + 1;
    assert(w * b <= 0x1000_0000_0000_0000_0000_0000_0000_0000) by (nonlinear_arith)
        requires
            w <= 0x2000_0000_0000_0000,
            b <= 0x2000_0000_0000_0000,
    ;
    assert((w + 1) * n <= 0x1000_0000_0000_0000_0000_0000_0000_0000) by (nonlinear_arith)
        requires
            w <= 0x2000_0000_0000_0000,
            n <= 0x2000_0000_0000_0000,
    ;
    assert((w + 2) * c <= 0x1000_0000_0000_0000_0000_0000_0000_0000) by (nonlinear_arith)
        requires
            w <= 0x2000_0000_0000_0000,
            c <= 0x2000_0000_0000_0000,
    ;
    w * b + (w + 1) * n + (w + 2) * c
}

/// `x` stands among the first `i` entries of `ks`.
pub open spec fn listed_before(ks: Seq<u64>, i: int, x: u64) -> bool {
    exists|t: int| 0 <= t < i && #[trigger] ks[t] == x
}

/// Pushing onto a key list keeps every key it held and adds the new one.
proof fn lemma_push_contains(keys: Seq<u64>, k: u64)
    ensures
        keys.push(k).contains(k),
        forall|x: u64| keys.contains(x) ==> #[trigger] keys.push(k).contains(x),
{
    assert(keys.push(k)[keys.len() as int] == k);
    assert forall|x: u64| keys.contains(x) implies #[trigger] keys.push(k).contains(x) by {
        let i = choose|i: int| 0 <= i < keys.len() && keys[i] == x;
        assert(keys.push(k)[i] == x);
    };
}

/// The state store: the live map and the journal of the open transaction.
pub struct StateStore {
    data: HashMapWithView<u64, Account>,
    journal: Vec<Write>,
    keys: Vec<u64>,
}

impl StateStore {
    /// The map as the open transaction sees it.
    pub closed spec fn live(&self) -> Map<u64, Account> {
        self.data@
    }

    /// The undo journal of the open transaction, oldest write first.
    pub closed spec fn pending(&self) -> Seq<Write> {
        self.journal@
    }

    /// Every key ever written, possibly more than once: a superset of the
    /// live keys, so that the state can be walked.
    pub closed spec fn keys(&self) -> Seq<u64> {
        self.keys@
    }

    /// Every live key is listed in `keys`.
    pub open spec fn wf(&self) -> bool {
        forall|k: u64| #[trigger] self.live().contains_key(k) ==> self.keys().contains(k)
    }

    /// The map as of the last commit: what every other reader sees.
    pub open spec fn committed(&self) -> Map<u64, Account> {
        rewind(self.live(), self.pending())
    }

    /// An empty store with no open writes.
    pub fn new() -> (r: StateStore)
        ensures
            r.wf(),
            r.live() == Map::<u64, Account>::empty(),
            r.pending().len() == 0,
    {
        StateStore { data: HashMapWithView::new(), journal: Vec::new(), keys: Vec::new() }
    }

    /// The value of `key`, as the open transaction sees it.
    pub fn get(&self, key: u64) -> (r: Option<Account>)
        ensures
            r == lookup(self.live(), key),
    {
        match self.data.get(&key) {
            Some(a) => Some(*a),
            None => None,
        }
    }

    /// The value of `key` as of the last commit: what a reader sees while
    /// the open transaction's writes are not yet visible.
    pub fn get_committed(&self, key: u64) -> (r: Option<Account>)
        ensures
            r == lookup(self.committed(), key),
    {
        let mut v = self.get(key);
        let ghost mut cur = self.live();
        let mut i: usize = self.journal.len();
        assert(self.pending().take(i as int) =~= self.pending());
        while i > 0
            invariant
                i <= self.pending().len(),
                v == lookup(cur, key),
                rewind(cur, self.pending().take(i as int)) == self.committed(),
            decreases i,
        {
            let w = self.journal[i - 1];
            assert(self.pending().take(i as int).drop_last() =~= self.pending().take(i - 1));
            if w.0 == key {
                v = w.1;
            }
            proof {
                cur = assign(cur, w);
            }
            i = i - 1;
        }
        v
    }

    /// Stores `value` under `key` inside the open transaction.
    pub fn put(&mut self, key: u64, value: Account)
        requires
            old(self).wf(),
        ensures
            final(self).wf(),
            final(self).live() == old(self).live().insert(key, value),
            final(self).pending() == old(self).pending().push((key, lookup(old(self).live(), key))),
            final(self).committed() == old(self).committed(),
    {
        let before = self.get(key);
        self.data.insert(key, value);
        self.journal.push((key, before));
        proof {
            lemma_push_contains(self.keys@, key);
        }
        self.keys.push(key);
        proof {
            lemma_assign_then_restore(old(self).live(), key, Some(value));
            assert(self.pending().drop_last() =~= old(self).pending());
        }
    }

    /// Removes `key` inside the open transaction.
    pub fn delete(&mut self, key: u64)
        requires
            old(self).wf(),
        ensures
            final(self).wf(),
            final(self).live() == old(self).live().remove(key),
            final(self).pending() == old(self).pending().push((key, lookup(old(self).live(), key))),
            final(self).committed() == old(self).committed(),
    {
        let before = self.get(key);
        let _ = self.data.remove(&key);
        self.journal.push((key, before));
        proof {
            assert(self.live() =~= old(self).live().remove(key));
            lemma_assign_then_restore(old(self).live(), key, None);
            assert(self.pending().drop_last() =~= old(self).pending());
        }
    }

    /// Applies one write inside the open transaction.
    pub fn apply(&mut self, w: Write)
        requires
            old(self).wf(),
        ensures
            final(self).wf(),
            final(self).live() == assign(old(self).live(), w),
            final(self).pending() == old(self).pending().push((w.0, lookup(old(self).live(), w.0))),
            final(self).committed() == old(self).committed(),
    {
        match w.1 {
            Some(a) => self.put(w.0, a),
            None => self.delete(w.0),
        }
    }

    /// Makes the open transaction's writes visible to every reader, and
    /// hands back its journal: the undo log of those writes.
    pub fn commit(&mut self) -> (undo: Vec<Write>)
        requires
            old(self).wf(),
        ensures
            final(self).wf(),
            final(self).live() == old(self).live(),
            final(self).pending().len() == 0,
            final(self).committed() == old(self).live(),
            undo@ == old(self).pending(),
            rewind(old(self).live(), undo@) == old(self).committed(),
    {
        let mut undo = Vec::new();
        std::mem::swap(&mut undo, &mut self.journal);
        assert(self.keys@ == old(self).keys@);
        assert(forall|k: u64| #[trigger] self.live().contains_key(k) ==> old(self).live().contains_key(k));
        undo
    }

    /// Discards the open transaction's writes.
    pub fn abort(&mut self)
        requires
            old(self).wf(),
        ensures
            final(self).wf(),
            final(self).live() == old(self).committed(),
            final(self).pending().len() == 0,
    {
        while self.journal.len() > 0
            invariant
                self.wf(),
                self.committed() == old(self).committed(),
            decreases self.journal.len(),
        {
            let w = self.journal.pop().unwrap();
            match w.1 {
                Some(a) => {
                    proof {
                        lemma_push_contains(self.keys@, w.0);
                    }
                    self.data.insert(w.0, a);
                    self.keys.push(w.0);
                },
                None => {
                    let _ = self.data.remove(&w.0);
                },
            }
            assert(self.live() == assign(rewind(self.live(), seq![]), w));
        }
    }

    /// The commitment to the live map, computed by walking the key list
    /// and counting each live key once.
    pub fn commitment(&self) -> (r: u64)
        requires
            self.wf(),
        ensures
            r == state_commitment(self.live()),
    {
        let ghost m = self.live();
        let ghost f = commit_step(m);
        proof {
            lemma_commit_step_commutative(m);
            lemma_fold_empty(0int, f);
        }
        let mut acc: u128 = 0;
        let mut seen: Ghost<Set<u64>> = Ghost(Set::empty());
        let mut i: usize = 0;
        while i < self.keys.len()
            invariant
                i <= self.keys@.len(),
                m == self.live(),
                f == commit_step(m),
                is_fun_commutative(f),
                seen@.finite(),
                forall|x: u64| #[trigger] seen@.contains(x) <==> (m.contains_key(x) && listed_before(self.keys@, i as int, x)),
                acc < COMMIT_MOD,
                acc as int == seen@.fold(0int, f) % (COMMIT_MOD as int),
            decreases self.keys.len() - i,
        {
            let k = self.keys[i];
            let mut earlier = false;
            let mut j: usize = 0;
            while j < i
                invariant
                    j <= i < self.keys@.len(),
                    k == self.keys@[i as int],
                    earlier <==> listed_before(self.keys@, j as int, k),
                decreases i - j,
            {
                if self.keys[j] == k {
                    earlier = true;
                }
                j = j + 1;
            }
            assert forall|x: u64| listed_before(self.keys@, i + 1, x) <==> (listed_before(self.keys@, i as int, x)
                || x == k) by {
                if x == k {
                    assert(self.keys@[i as int] == k);
                }
            };
            if !earlier {
                match self.data.get(&k) {
                    Some(a) => {
                        let l = leaf_of(k, *a);
                        proof {
                            assert(!seen@.contains(k));
                            lemma_fold_insert(seen@, 0int, f, k);
                            lemma_add_mod_noop(seen@.fold(0int, f), commit_leaf(k, m[k]), COMMIT_MOD as int);
                            seen@ = seen@.insert(k);
                        }
                        acc = (acc + l % COMMIT_MOD) % COMMIT_MOD;
                    },
                    None => {},
                }
            }
            i = i + 1;
        }
        assert forall|x: u64| #[trigger] m.contains_key(x) implies listed_before(self.keys@, i as int, x) by {
            assert(self.keys@.contains(x));
        };
        assert(seen@ =~= m.dom());
        acc as u64
    }

    /// Applies the undo log `undo` inside the open transaction, last write
    /// first: the live map becomes `rewind(live, undo)`.
    pub fn apply_undo(&mut self, undo: &Vec<Write>)
        requires
            old(self).wf(),
        ensures
            final(self).wf(),
            final(self).live() == rewind(old(self).live(), undo@),
            final(self).committed() == old(self).committed(),
    {
        let mut i: usize = undo.len();
        assert(undo@.take(i as int) =~= undo@);
        while i > 0
            invariant
                i <= undo@.len(),
                rewind(self.live(), undo@.take(i as int)) == rewind(old(self).live(), undo@),
                self.committed() == old(self).committed(),
                self.wf(),
            decreases i,
        {
            assert(undo@.take(i as int).drop_last() =~= undo@.take(i - 1));
            let w = undo[i - 1];
            self.apply(w);
            i = i - 1;
        }
        assert(undo@.take(0) =~= Seq::<Write>::empty());
    }
}

} // verus!
