//! The execution stage: replays blocks through the state-transition function
//! into the state store, keeping one undo log per applied height so that any
//! suffix of the applied chain can be unwound exactly.
use vstd::prelude::*;
use crate::state_store::{Account, StateStore, Write, lookup, rewind, state_commitment};
use crate::transition::{Block, replay, apply_transfers, lemma_transfers_prefix_fails};

verus! {

/// Why a stage could not make progress.
#[derive(Clone, Copy, Debug, PartialEq, Eq, Structural)]
pub enum StageError {
    /// The block at `height` does not extend the applied chain.
    ChainDiscontinuity { height: u64 },
    /// The block at `height` holds an invalid transaction.
    ExecutionFailed { height: u64 },
    /// The block source has no block at `height`.
    MissingBlock { height: u64 },
}

/// What one call of `execute` achieved.
#[derive(Clone, Copy, Debug, PartialEq, Eq, Structural)]
pub struct Progress {
    pub new_checkpoint: u64,
    pub done: bool,
}

/// The last height that one call of `execute` reaches from checkpoint `cp`
/// towards `target`, with at most `batch` blocks.
pub open spec fn batch_end(cp: nat, target: nat, batch: nat) -> nat {
    if target <= cp {
        cp
    } else if target - cp <= batch {
        target
    } else {
        cp + batch
    }
}

/// The blocks of `source` at heights `cp + 1 ..= end`.
pub open spec fn segment(source: Seq<Block>, cp: nat, end: nat) -> Seq<Block> {
    if end <= cp {
        Seq::empty()
    } else {
        source.subrange(cp as int, end as int)
    }
}

/// The blocks up to height `end` are all in `source`, or none is needed.
pub open spec fn available(source: Seq<Block>, cp: nat, end: nat) -> bool {
    end <= cp || end <= source.len()
}

/// `seg` extends a chain whose tip is `tip` at height `cp`: heights follow
/// one by one and each block names its predecessor's hash as parent.
#[verifier::opaque]
pub open spec fn links(tip: u64, cp: nat, seg: Seq<Block>) -> bool {
    forall|i: int|
        0 <= i < seg.len() ==> (#[trigger] seg[i]).header.height == cp + i + 1
            && seg[i].header.parent_hash == (if i == 0 { tip } else { seg[i - 1].header.hash })
}

/// The hash of the tip of a chain of `applied` blocks above a genesis with
/// hash `genesis_hash`.
pub open spec fn tip_of(genesis_hash: u64, applied: Seq<Block>) -> u64 {
    if applied.len() == 0 {
        genesis_hash
    } else {
        applied.last().header.hash
    }
}

/// The map of a list of genesis accounts; a later entry for a key wins.
pub open spec fn genesis_map(accounts: Seq<(u64, Account)>) -> Map<u64, Account>
    decreases accounts.len(),
{
    if accounts.len() == 0 {
        Map::empty()
    } else {
        genesis_map(accounts.drop_last()).insert(accounts.last().0, accounts.last().1)
    }
}

/// Once a prefix of a chain fails to replay, the whole chain fails.
pub proof fn lemma_replay_prefix_fails(g: Map<u64, Account>, blocks: Seq<Block>, n: int)
    requires
        0 <= n <= blocks.len(),
        replay(g, blocks.take(n)).is_none(),
    ensures
        replay(g, blocks).is_none(),
    decreases blocks.len() - n,
{
    if n < blocks.len() {
        assert(blocks.take(n + 1).drop_last() =~= blocks.take(n));
        lemma_replay_prefix_fails(g, blocks, n + 1);
    } else {
        assert(blocks.take(n) =~= blocks);
    }
}

/// Unwinding to a lower height leaves what a fresh replay of the shorter
/// chain gives: for `h2 <= h`, the first `h2` blocks of the first `h`
/// blocks are the first `h2` blocks, and if the longer chain replays, so
/// does the shorter.
pub proof fn lemma_unwind_matches_fresh_replay(g: Map<u64, Account>, blocks: Seq<Block>, h: nat, h2: nat)
    requires
        h2 <= h <= blocks.len(),
        replay(g, blocks.take(h as int)).is_some(),
    ensures
        blocks.take(h as int).take(h2 as int) == blocks.take(h2 as int),
        replay(g, blocks.take(h2 as int)).is_some(),
{
    assert(blocks.take(h as int).take(h2 as int) =~= blocks.take(h2 as int));
    if replay(g, blocks.take(h2 as int)).is_none() {
        lemma_replay_prefix_fails(g, blocks.take(h as int), h2 as int);
    }
}

/// Executing a range again once the checkpoint has reached its target adds
/// nothing: the chain that the second call applies is the one already there,
/// so replaying after a restart gives the state of a single run.
pub proof fn lemma_execute_again_adds_nothing(applied: Seq<Block>, source: Seq<Block>, target: nat, batch: nat)
    requires
        target <= applied.len(),
    ensures
        batch_end(applied.len(), target, batch) == applied.len(),
        applied + segment(source, applied.len(), batch_end(applied.len(), target, batch)) == applied,
{
    assert(applied + Seq::<Block>::empty() =~= applied);
}

/// The tip of a chain extended by the first `k` blocks of `seg`, and one
/// step of that extension.
proof fn lemma_tip_step(gh: u64, ap0: Seq<Block>, seg: Seq<Block>, k: int)
    requires
        0 <= k < seg.len(),
    ensures
        tip_of(gh, ap0 + seg.take(k)) == (if k == 0 { tip_of(gh, ap0) } else { seg[k - 1].header.hash }),
        (ap0 + seg.take(k)).push(seg[k]) == ap0 + seg.take(k + 1),
        seg.take(k + 1)[k] == seg[k],
{
    assert((ap0 + seg.take(k)).push(seg[k]) =~= ap0 + seg.take(k + 1));
    if k == 0 {
        assert(ap0 + seg.take(k) =~= ap0);
    } else {
        assert((ap0 + seg.take(k)).last() == seg[k - 1]);
    }
}

/// A block at position `k` of a segment that does not follow its
/// predecessor unlinks every longer prefix.
proof fn lemma_links_break(tip: u64, cp: nat, seg: Seq<Block>, k: int)
    requires
        0 <= k < seg.len(),
        !(seg[k].header.height == cp + k + 1
            && seg[k].header.parent_hash == (if k == 0 { tip } else { seg[k - 1].header.hash })),
    ensures
        !links(tip, cp, seg.take(k + 1)),
{
    reveal(links);
    let t = seg.take(k + 1);
    assert(t[k] == seg[k]);
    if k > 0 {
        assert(t[k - 1] == seg[k - 1]);
    }
}

/// One more linked block keeps a segment linked.
proof fn lemma_links_extend(tip: u64, cp: nat, seg: Seq<Block>, k: int)
    requires
        0 <= k < seg.len(),
        links(tip, cp, seg.take(k)),
        seg[k].header.height == cp + k + 1,
        seg[k].header.parent_hash == (if k == 0 { tip } else { seg[k - 1].header.hash }),
    ensures
        links(tip, cp, seg.take(k + 1)),
{
    reveal(links);
    let t = seg.take(k + 1);
    assert forall|i: int| 0 <= i < t.len() implies
        (#[trigger] t[i]).header.height == cp + i + 1
        && t[i].header.parent_hash == (if i == 0 { tip } else { t[i - 1].header.hash }) by {
        if i < k {
            assert(t[i] == seg.take(k)[i]);
            if i > 0 {
                assert(t[i - 1] == seg.take(k)[i - 1]);
            }
        }
    };
}

/// A block of a segment that is unlinked, or fails to replay, makes the
/// whole segment fail.
proof fn lemma_batch_failure(g: Map<u64, Account>, ap: Seq<Block>, tip: u64, cp: nat, seg: Seq<Block>, k: int)
    requires
        0 <= k < seg.len(),
    ensures
        !links(tip, cp, seg.take(k + 1)) ==> !links(tip, cp, seg),
        replay(g, ap + seg.take(k + 1)).is_none() ==> replay(g, ap + seg).is_none(),
        links(tip, cp, seg.take(k + 1)) ==> links(tip, cp, seg.take(k)),
{
    reveal(links);
    let t = seg.take(k + 1);
    if !links(tip, cp, t) {
        let i = choose|i: int| 0 <= i < t.len() && !((#[trigger] t[i]).header.height == cp + i + 1
            && t[i].header.parent_hash == (if i == 0 { tip } else { t[i - 1].header.hash }));
        assert(t[i] == seg[i]);
        if i > 0 {
            assert(t[i - 1] == seg[i - 1]);
        }
    }
    if replay(g, ap + t).is_none() {
        assert((ap + seg).take(ap.len() + k + 1) =~= ap + t);
        lemma_replay_prefix_fails(g, ap + seg, ap.len() + k + 1);
    }
    if links(tip, cp, t) {
        let u = seg.take(k);
        assert forall|i: int| 0 <= i < u.len() implies
            (#[trigger] u[i]).header.height == cp + i + 1
            && u[i].header.parent_hash == (if i == 0 { tip } else { u[i - 1].header.hash }) by {
            assert(u[i] == t[i]);
            if i > 0 {
                assert(u[i - 1] == t[i - 1]);
            }
        };
    }
}

/// The execution stage: the state store, the checkpoint, the hash of each
/// applied height and the undo log of each applied block.
pub struct ExecutionStage {
    state: StateStore,
    checkpoint: u64,
    hashes: Vec<u64>,
    undo_logs: Vec<Vec<Write>>,
    genesis: Ghost<Map<u64, Account>>,
    genesis_hash: Ghost<u64>,
    applied: Ghost<Seq<Block>>,
}

impl ExecutionStage {
    /// The state before any block.
    pub closed spec fn genesis(&self) -> Map<u64, Account> {
        self.genesis@
    }

    /// The hash of the genesis block.
    pub closed spec fn genesis_hash(&self) -> u64 {
        self.genesis_hash@
    }

    /// The blocks applied so far, the one at height `h` at index `h - 1`.
    pub closed spec fn applied(&self) -> Seq<Block> {
        self.applied@
    }

    /// The last applied height.
    pub closed spec fn height(&self) -> nat {
        self.checkpoint as nat
    }

    /// The committed state.
    pub closed spec fn state(&self) -> Map<u64, Account> {
        self.state.live()
    }

    #[verifier::opaque]
    pub closed spec fn wf(&self) -> bool {
        let cp = self.checkpoint as int;
        let g = self.genesis@;
        let ap = self.applied@;
        &&& self.state.pending().len() == 0
        &&& self.state.wf()
        &&& self.hashes@.len() == cp + 1
        &&& self.undo_logs@.len() == cp
        &&& ap.len() == cp
        &&& self.hashes@[0] == self.genesis_hash@
        &&& replay(g, ap) == Some(self.state.live())
        &&& forall|i: int|
            0 <= i < cp ==> rewind(replay(g, ap.take(i + 1)).unwrap(), (#[trigger] self.undo_logs@[i])@)
                == replay(g, ap.take(i)).unwrap()
        &&& forall|i: int|
            0 <= i < cp ==> {
                &&& (#[trigger] ap[i]).header.height == i + 1
                &&& ap[i].header.parent_hash == self.hashes@[i]
                &&& self.hashes@[i + 1] == ap[i].header.hash
            }
    }

    /// What a well-formed stage guarantees to its users: one applied block
    /// per height, and the state is the replay of the applied chain.
    pub proof fn lemma_wf(&self)
        requires
            self.wf(),
        ensures
            self.applied().len() == self.height(),
            replay(self.genesis(), self.applied()) == Some(self.state()),
    {
        reveal(ExecutionStage::wf);
    }

    /// A stage at height 0 whose state holds the genesis accounts.
    pub fn new(accounts: &Vec<(u64, Account)>, genesis_hash: u64) -> (r: ExecutionStage)
        ensures
            r.wf(),
            r.genesis() == genesis_map(accounts@),
            r.genesis_hash() == genesis_hash,
            r.height() == 0,
            r.applied().len() == 0,
            r.state() == genesis_map(accounts@),
    {
        proof {
            reveal(ExecutionStage::wf);
        }
        let mut state = StateStore::new();
        let mut i: usize = 0;
        while i < accounts.len()
            invariant
                i <= accounts@.len(),
                state.live() == genesis_map(accounts@.take(i as int)),
                state.wf(),
            decreases accounts.len() - i,
        {
            assert(accounts@.take(i + 1).drop_last() =~= accounts@.take(i as int));
            let (k, a) = accounts[i];
            state.put(k, a);
            i = i + 1;
        }
        assert(accounts@.take(i as int) =~= accounts@);
        let _ = state.commit();
        let mut hashes = Vec::new();
        hashes.push(genesis_hash);
        ExecutionStage {
            state,
            checkpoint: 0,
            hashes,
            undo_logs: Vec::new(),
            genesis: Ghost(genesis_map(accounts@)),
            genesis_hash: Ghost(genesis_hash),
            applied: Ghost(Seq::empty()),
        }
    }

    /// The last applied height.
    pub fn checkpoint(&self) -> (r: u64)
        requires
            self.wf(),
        ensures
            r == self.height(),
    {
        self.checkpoint
    }

    /// The hash of the block at the last applied height.
    pub fn tip_hash(&self) -> (r: u64)
        requires
            self.wf(),
        ensures
            r == tip_of(self.genesis_hash(), self.applied()),
    {
        proof {
            reveal(ExecutionStage::wf);
        }
        proof {
            if self.checkpoint > 0 {
                let k = self.checkpoint - 1;
                assert(self.applied@[k].header.height == k + 1);
                assert(self.hashes@[k + 1] == self.applied@[k].header.hash);
            }
        }
        self.hashes[self.hashes.len() - 1]
    }

    /// The commitment to the committed state.
    pub fn commitment(&self) -> (r: u64)
        requires
            self.wf(),
        ensures
            r == state_commitment(self.state()),
    {
        proof {
            reveal(ExecutionStage::wf);
        }
        self.state.commitment()
    }

    /// The committed account under `address`.
    pub fn account(&self, address: u64) -> (r: Option<Account>)
        ensures
            r == lookup(self.state(), address),
    {
        self.state.get(address)
    }

    /// Applies one block on top of the checkpoint, committing it with its
    /// undo log. On an error nothing changes.
    fn execute_one(&mut self, block: &Block) -> (r: Result<(), StageError>)
        requires
            old(self).wf(),
            old(self).height() < u64::MAX,
        ensures
            final(self).wf(),
            final(self).genesis() == old(self).genesis(),
            final(self).genesis_hash() == old(self).genesis_hash(),
            ({
                let linked = block.header.height == old(self).height() + 1
                    && block.header.parent_hash == tip_of(old(self).genesis_hash(), old(self).applied());
                let runs = replay(old(self).genesis(), old(self).applied().push(*block)).is_some();
                match r {
                    Ok(()) => linked && runs && final(self).applied() == old(self).applied().push(*block)
                        && final(self).height() == old(self).height() + 1,
                    Err(StageError::ChainDiscontinuity { height }) => !linked
                        && height == old(self).height() + 1,
                    Err(StageError::ExecutionFailed { height }) => linked && !runs
                        && height == old(self).height() + 1,
                    Err(StageError::MissingBlock { .. }) => false,
                }
            }),
            r.is_err() ==> final(self).applied() == old(self).applied()
                && final(self).height() == old(self).height()
                && final(self).state() == old(self).state(),
    {
        proof {
            reveal(ExecutionStage::wf);
        }
        let tip = self.tip_hash();
        let next = self.checkpoint + 1;
        if block.header.height != next || block.header.parent_hash != tip {
            return Err(StageError::ChainDiscontinuity { height: next });
        }
        let ghost g = self.genesis@;
        let ghost ap = self.applied@;
        proof {
            assert(ap.push(*block).drop_last() =~= ap);
        }
        if !apply_transfers(&mut self.state, &block.body) {
            self.state.abort();
            return Err(StageError::ExecutionFailed { height: next });
        }
        let undo = self.state.commit();
        self.undo_logs.push(undo);
        self.hashes.push(block.header.hash);
        self.checkpoint = next;
        proof {
            let cp = next as int;
            self.applied@ = ap.push(*block);
            let nap = self.applied@;
            assert(nap.take(cp) =~= nap);
            assert(nap.take(cp - 1) =~= ap);
            assert(ap.take(cp - 1) =~= ap);
            assert forall|i: int| 0 <= i <= cp - 1 implies #[trigger] nap.take(i) == ap.take(i) by {
                assert(nap.take(i) =~= ap.take(i));
            };
            assert forall|i: int| 0 <= i < cp implies
                rewind(replay(g, nap.take(i + 1)).unwrap(), (#[trigger] self.undo_logs@[i])@)
                    == replay(g, nap.take(i)).unwrap() by {
                if i < cp - 1 {
                    assert(nap.take(i) == ap.take(i));
                    assert(nap.take(i + 1) == ap.take(i + 1));
                }
            };
            assert forall|i: int| 0 <= i < cp implies {
                &&& (#[trigger] nap[i]).header.height == i + 1
                &&& nap[i].header.parent_hash == self.hashes@[i]
                &&& self.hashes@[i + 1] == nap[i].header.hash
            } by {
                if i < cp - 1 {
                    assert(nap[i] == ap[i]);
                } else if i > 0 {
                    assert(ap[i - 1].header.height == i);
                }
            };
        }
        Ok(())
    }

    /// Executes the blocks of `source` (the block at height `h` at index
    /// `h - 1`) from the checkpoint towards `target`, at most `batch` of
    /// them. The whole batch is applied, or, on an error, none of it.
    #[verifier::rlimit(100)]
    #[verifier::spinoff_prover]
    pub fn execute(&mut self, source: &Vec<Block>, target: u64, batch: u64) -> (r: Result<Progress, StageError>)
        requires
            old(self).wf(),
        ensures
            final(self).wf(),
            final(self).genesis() == old(self).genesis(),
            final(self).genesis_hash() == old(self).genesis_hash(),
            final(self).applied().len() == final(self).height(),
            final(self).state() == replay(final(self).genesis(), final(self).applied()).unwrap(),
            ({
                let cp = old(self).height();
                let end = batch_end(cp, target as nat, batch as nat);
                let seg = segment(source@, cp, end);
                let tip = tip_of(old(self).genesis_hash(), old(self).applied());
                let ok = available(source@, cp, end) && links(tip, cp, seg)
                    && replay(old(self).genesis(), old(self).applied() + seg).is_some();
                &&& r.is_ok() == ok
                &&& match r {
                    Ok(p) => p == Progress { new_checkpoint: end as u64, done: end >= target }
                        && final(self).applied() == old(self).applied() + seg
                        && final(self).height() == end,
                    Err(StageError::MissingBlock { height }) => !available(source@, cp, end)
                        && height == (if cp >= source@.len() { cp } else { source@.len() }) + 1,
                    Err(StageError::ChainDiscontinuity { height }) => available(source@, cp, end)
                        && cp < height <= end
                        && links(tip, cp, seg.take(height - cp - 1))
                        && !links(tip, cp, seg.take(height - cp)),
                    Err(StageError::ExecutionFailed { height }) => available(source@, cp, end)
                        && cp < height <= end
                        && links(tip, cp, seg.take(height - cp))
                        && replay(old(self).genesis(), old(self).applied() + seg.take(height - cp)).is_none(),
                }
                &&& r.is_err() ==> final(self).applied() == old(self).applied()
                    && final(self).height() == cp
                    && final(self).state() == old(self).state()
            }),
    {
        assert(self.applied().len() == self.height()) by {
            self.lemma_wf();
        };
        let start = self.checkpoint;
        let end = if target <= start {
            start
        } else if target - start <= batch {
            target
        } else {
            start + batch
        };
        assert(end == batch_end(start as nat, target as nat, batch as nat));
        let n: usize = source.len();
        let len = n as u64;
        if end > start && end > len {
            let missing = if start >= len { start } else { len };
            proof {
                self.lemma_wf();
            }
            return Err(StageError::MissingBlock { height: missing + 1 });
        }
        let ghost g = self.genesis@;
        let ghost ap0 = self.applied@;
        let ghost tip0 = tip_of(self.genesis_hash@, ap0);
        let ghost seg = segment(source@, start as nat, end as nat);
        assert(ap0 + seg.take(0) =~= ap0);
        assert(replay(g, ap0) == Some(self.state())) by {
            self.lemma_wf();
        };
        assert(links(tip0, start as nat, seg.take(0))) by {
            reveal(links);
        };
        while self.checkpoint < end
            invariant
                self.wf(),
                self.genesis@ == g,
                self.genesis_hash() == old(self).genesis_hash(),
                old(self).wf(),
                ap0 == old(self).applied(),
                ap0.len() == start,
                replay(g, ap0) == Some(old(self).state()),
                g == old(self).genesis(),
                start == old(self).height(),
                start <= self.checkpoint <= end,
                end == batch_end(start as nat, target as nat, batch as nat),
                start < end ==> end <= source@.len(),
                n == source@.len(),
                seg == segment(source@, start as nat, end as nat),
                seg.len() == end - start,
                tip0 == tip_of(old(self).genesis_hash(), ap0),
                self.applied() == ap0 + seg.take(self.checkpoint - start),
                links(tip0, start as nat, seg.take(self.checkpoint - start)),
            decreases end - self.checkpoint,
        {
            let ghost k = self.checkpoint - start;
            let ghost ap = self.applied@;
            let idx: usize = self.checkpoint as usize;
            assert(idx as int == start + k);
            assert(seg[k] == source@[start + k]);
            let block = &source[idx];
            assert(*block == seg[k]);
            let res = self.execute_one(block);
            proof {
                lemma_tip_step(old(self).genesis_hash(), ap0, seg, k);
            }
            match res {
                Ok(()) => {
                    proof {
                        lemma_links_extend(tip0, start as nat, seg, k);
                    }
                },
                Err(e) => {
                    proof {
                        lemma_batch_failure(g, ap0, tip0, start as nat, seg, k);
                        if let StageError::ChainDiscontinuity { .. } = e {
                            lemma_links_break(tip0, start as nat, seg, k);
                        }
                        if let StageError::ExecutionFailed { .. } = e {
                            lemma_links_extend(tip0, start as nat, seg, k);
                        }
                    }
                    let ghost mid = self.applied();
                    self.unwind(start);
                    assert(mid.take(start as int) =~= ap0);
                    return Err(e);
                },
            }
        }
        assert(seg.take(end - start) =~= seg);
        proof {
            self.lemma_wf();
        }
        Ok(Progress { new_checkpoint: end, done: end >= target })
    }

    /// Undoes the blocks above `target`, newest first. Where `target` is at
    /// or above the checkpoint nothing changes.
    pub fn unwind(&mut self, target: u64)
        requires
            old(self).wf(),
        ensures
            final(self).wf(),
            final(self).genesis() == old(self).genesis(),
            final(self).genesis_hash() == old(self).genesis_hash(),
            target >= old(self).height() ==> final(self).applied() == old(self).applied()
                && final(self).height() == old(self).height(),
            target < old(self).height() ==> final(self).height() == target
                && final(self).applied() == old(self).applied().take(target as int),
            final(self).applied().len() == final(self).height(),
            final(self).state() == replay(final(self).genesis(), final(self).applied()).unwrap(),
    {
        proof {
            self.lemma_wf();
        }
        while self.checkpoint > target
            invariant
                old(self).wf(),
                old(self).applied().len() == old(self).height(),
                self.wf(),
                self.genesis() == old(self).genesis(),
                self.genesis_hash() == old(self).genesis_hash(),
                self.height() >= target || self.height() == old(self).height(),
                self.height() <= old(self).height(),
                self.applied() == old(self).applied().take(self.height() as int),
            decreases self.checkpoint,
        {
            let ghost before = self.applied();
            let ghost h = self.height();
            self.unwind_one();
            assert(before.drop_last() =~= old(self).applied().take(h - 1));
        }
        proof {
            self.lemma_wf();
            if target >= old(self).height() {
                assert(old(self).applied().take(old(self).height() as int) =~= old(self).applied());
            }
        }
    }

    /// Undoes the block at the checkpoint.
    #[verifier::rlimit(40)]
    fn unwind_one(&mut self)
        requires
            old(self).wf(),
            old(self).height() > 0,
        ensures
            final(self).wf(),
            final(self).genesis() == old(self).genesis(),
            final(self).genesis_hash() == old(self).genesis_hash(),
            final(self).height() == old(self).height() - 1,
            final(self).applied() == old(self).applied().drop_last(),
    {
        proof {
            reveal(ExecutionStage::wf);
        }
        let ghost cp = self.checkpoint as int;
        let ghost g = self.genesis@;
        let ghost ap = self.applied@;
        let ghost old_logs = self.undo_logs@;
        let undo = self.undo_logs.pop().unwrap();
        assert(undo == old_logs[cp - 1]);
        self.state.apply_undo(&undo);
        let _ = self.state.commit();
        let _ = self.hashes.pop();
        self.checkpoint = self.checkpoint - 1;
        proof {
            self.applied@ = ap.drop_last();
            assert(ap.take(cp) =~= ap);
            assert(ap.take(cp - 1) =~= ap.drop_last());
            if replay(g, ap.take(cp - 1)).is_none() {
                lemma_replay_prefix_fails(g, ap, cp - 1);
            }
            assert(self.state.live() == replay(g, ap.take(cp - 1)).unwrap());
            assert(replay(g, self.applied@) == Some(self.state.live()));
            assert(self.hashes@[0] == self.genesis_hash@);
            assert forall|i: int| 0 <= i <= cp - 1 implies
                #[trigger] self.applied@.take(i) == ap.take(i) by {
                assert(self.applied@.take(i) =~= ap.take(i));
            };
            assert forall|i: int| 0 <= i < cp - 1 implies
                rewind(replay(g, self.applied@.take(i + 1)).unwrap(), (#[trigger] self.undo_logs@[i])@)
                    == replay(g, self.applied@.take(i)).unwrap() by {
                assert(self.undo_logs@[i] == old_logs[i]);
                assert(self.applied@.take(i) == ap.take(i));
                assert(self.applied@.take(i + 1) == ap.take(i + 1));
            };
            assert forall|i: int| 0 <= i < cp - 1 implies {
                &&& (#[trigger] self.applied@[i]).header.height == i + 1
                &&& self.applied@[i].header.parent_hash == self.hashes@[i]
                &&& self.hashes@[i + 1] == self.applied@[i].header.hash
            } by {
                assert(self.applied@[i] == ap[i]);
            };
            assert(self.state.pending().len() == 0);
            assert(self.hashes@.len() == cp);
            assert(self.undo_logs@.len() == cp - 1);
            assert(self.applied@.len() == cp - 1);
            assert(self.wf());
        }
    }
}

} // verus!
