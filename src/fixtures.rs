//! The blockchain-fixture harness: each test case stores its blocks' headers
//! and bodies in a fresh record store, builds a fresh execution stage from
//! its genesis accounts, executes its blocks as one batch, and checks the
//! resulting state against the expected accounts or state root.
use vstd::prelude::*;
use vstd::string::StringExecFns;
use crate::state_store::{Account, state_commitment};
use crate::transition::{Block, replay};
use crate::execution::{ExecutionStage, genesis_map, links};
use crate::post_state::{StateMismatch, all_mismatches, verify_accounts};
use crate::record_store::{RecordKind, RecordStore, StoreError};

verus! {

/// The fork rules a fixture is written for.
#[derive(Clone, Copy, Debug, PartialEq, Eq, Structural)]
pub enum ForkSpec {
    Frontier,
    Homestead,
    Byzantium,
    ByzantiumToConstantinopleAt5,
    Constantinople,
    ConstantinopleFix,
    Istanbul,
    Berlin,
    London,
    Merge,
    MergeEOF,
    MergeMeterInitCode,
    MergePush0,
    Shanghai,
    Cancun,
    Prague,
    Unknown,
}

/// Forks whose fixtures are not run.
pub open spec fn excluded_spec(f: ForkSpec) -> bool {
    matches!(f, ForkSpec::ByzantiumToConstantinopleAt5 | ForkSpec::Constantinople | ForkSpec::ConstantinopleFix
        | ForkSpec::MergeEOF | ForkSpec::MergeMeterInitCode | ForkSpec::MergePush0 | ForkSpec::Unknown)
}

/// Whether fixtures of fork `f` are left out of a run.
pub fn is_excluded(f: ForkSpec) -> (r: bool)
    ensures
        r == excluded_spec(f),
{
    match f {
        ForkSpec::ByzantiumToConstantinopleAt5 | ForkSpec::Constantinople | ForkSpec::ConstantinopleFix
        | ForkSpec::MergeEOF | ForkSpec::MergeMeterInitCode | ForkSpec::MergePush0 | ForkSpec::Unknown => true,
        _ => false,
    }
}

/// One fixture: genesis, blocks (each possibly marked as expected to
/// fail), and the expected outcome.
#[derive(Clone, Debug)]
pub struct BlockchainTest {
    pub network: ForkSpec,
    pub pre: Vec<(u64, Account)>,
    pub genesis_hash: u64,
    pub blocks: Vec<Block>,
    pub expect_exception: Vec<bool>,
    pub post_state: Option<Vec<(u64, Option<Account>)>>,
    pub post_state_hash: Option<u64>,
}

/// Why a fixture failed.
#[derive(Clone, Debug)]
pub enum CaseError {
    /// The whole file is marked to be skipped.
    Skipped,
    /// A block could not be stored: its height is not the next one.
    Store(StoreError),
    /// The fixture gives neither expected accounts nor a state root, or both.
    MissingPostState,
    /// Expected accounts diverge from the state.
    StateMismatch { mismatches: Vec<StateMismatch> },
    /// The commitment to the final state differs from the expected one.
    StateRootMismatch { expected: u64, actual: u64 },
}

/// Whether the fixture's blocks form a chain that executes.
pub open spec fn chain_runs(t: BlockchainTest) -> bool {
    links(t.genesis_hash, 0, t.blocks@) && replay(genesis_map(t.pre@), t.blocks@).is_some()
}

/// The state after the fixture's blocks: all of them, or, where the chain
/// does not execute, none.
pub open spec fn final_state(t: BlockchainTest) -> Map<u64, Account> {
    if chain_runs(t) {
        replay(genesis_map(t.pre@), t.blocks@).unwrap()
    } else {
        genesis_map(t.pre@)
    }
}

/// The commitment to the state the fixture's blocks leave.
pub open spec fn final_root(t: BlockchainTest) -> u64 {
    state_commitment(final_state(t))
}

/// Every block stands at the height after its predecessor, from 1 on.
pub open spec fn heights_in_order(blocks: Seq<Block>) -> bool {
    forall|i: int| 0 <= i < blocks.len() ==> #[trigger] blocks[i].header.height == i + 1
}

/// The block at position `i` is the first one out of order.
pub open spec fn first_gap(blocks: Seq<Block>, i: int) -> bool {
    &&& 0 <= i < blocks.len()
    &&& blocks[i].header.height != i + 1
    &&& forall|j: int| 0 <= j < i ==> #[trigger] blocks[j].header.height == j + 1
}

/// `e` is the error that running fixture `t` reports.
pub open spec fn explains(t: BlockchainTest, e: CaseError) -> bool {
    match e {
        CaseError::Store(se) => exists|i: int|
            #[trigger] first_gap(t.blocks@, i) && se == (StoreError::OutOfOrderWrite {
                height: t.blocks@[i].header.height,
            }),
        CaseError::StateMismatch { mismatches } => heights_in_order(t.blocks@) && t.post_state_hash is None
            && match t.post_state {
            Some(s) => mismatches@ == all_mismatches(final_state(t), s@),
            None => false,
        },
        CaseError::StateRootMismatch { expected, actual } => heights_in_order(t.blocks@) && t.post_state is None
            && t.post_state_hash == Some(expected) && actual == final_root(t),
        CaseError::MissingPostState => heights_in_order(t.blocks@) && t.post_state.is_some()
            == t.post_state_hash.is_some(),
        CaseError::Skipped => false,
    }
}

/// Whether the fixture passes.
pub open spec fn case_ok(t: BlockchainTest) -> bool {
    heights_in_order(t.blocks@) && match (t.post_state, t.post_state_hash) {
        (Some(s), None) => all_mismatches(final_state(t), s@).len() == 0,
        (None, Some(h)) => final_root(t) == h,
        _ => false,
    }
}

/// Whether some block of the fixture is expected to fail.
pub open spec fn should_fail(t: BlockchainTest) -> bool {
    exists|i: int| 0 <= i < t.expect_exception@.len() && t.expect_exception@[i]
}

/// Whether some block is expected to fail.
pub fn expects_failure(t: &BlockchainTest) -> (r: bool)
    ensures
        r == should_fail(*t),
{
    let mut i: usize = 0;
    while i < t.expect_exception.len()
        invariant
            i <= t.expect_exception@.len(),
            forall|j: int| 0 <= j < i ==> !t.expect_exception@[j],
        decreases t.expect_exception.len() - i,
    {
        if t.expect_exception[i] {
            return true;
        }
        i = i + 1;
    }
    false
}

/// Runs one fixture on a fresh stage and checks its expected outcome.
pub fn run_case(t: &BlockchainTest) -> (r: Result<(), CaseError>)
    ensures
        r.is_ok() == case_ok(*t),
        !heights_in_order(t.blocks@) <==> (r matches Err(CaseError::Store(_))),
        heights_in_order(t.blocks@) && (t.post_state.is_some() == t.post_state_hash.is_some())
            ==> (r matches Err(CaseError::MissingPostState)),
        r.is_err() ==> explains(*t, r->Err_0),
{
    let mut records = RecordStore::new();
    let _ = records.append(RecordKind::Headers, 0, t.genesis_hash);
    let _ = records.append(RecordKind::Bodies, 0, 0);
    let _ = records.append(RecordKind::Receipts, 0, 0);
    let mut i: usize = 0;
    while i < t.blocks.len()
        invariant
            i <= t.blocks@.len(),
            records.wf(),
            records.records(RecordKind::Headers).len() == i + 1,
            records.records(RecordKind::Bodies).len() == i + 1,
            forall|j: int| 0 <= j < i ==> #[trigger] t.blocks@[j].header.height == j + 1,
        decreases t.blocks.len() - i,
    {
        let b = &t.blocks[i];
        match records.append(RecordKind::Headers, b.header.height, b.header.hash) {
            Err(e) => {
                assert(first_gap(t.blocks@, i as int));
                return Err(CaseError::Store(e));
            },
            Ok(()) => {},
        }
        let _ = records.append(RecordKind::Bodies, b.header.height, b.body.len() as u64);
        i = i + 1;
    }
    assert(heights_in_order(t.blocks@));
    let mut stage = ExecutionStage::new(&t.pre, t.genesis_hash);
    let n = t.blocks.len() as u64;
    let _ = stage.execute(&t.blocks, n, n);
    proof {
        assert(t.blocks@.subrange(0, t.blocks@.len() as int) =~= t.blocks@);
        assert(Seq::<Block>::empty() + t.blocks@ =~= t.blocks@);
        if t.blocks@.len() == 0 {
            assert(links(t.genesis_hash, 0, t.blocks@)) by {
                reveal(links);
            };
        }
        stage.lemma_wf();
    }
    match (&t.post_state, &t.post_state_hash) {
        (Some(state), None) => {
            let mismatches = verify_accounts(&stage, state);
            if mismatches.len() == 0 {
                Ok(())
            } else {
                Err(CaseError::StateMismatch { mismatches })
            }
        },
        (None, Some(expected)) => {
            let actual = stage.commitment();
            if actual == *expected {
                Ok(())
            } else {
                Err(CaseError::StateRootMismatch { expected: *expected, actual })
            }
        },
        _ => Err(CaseError::MissingPostState),
    }
}

/// Whether a fixture counts as passed in a run: it is of an excluded fork,
/// it passes, or it fails where a block is expected to fail.
pub open spec fn counts_as_passed(t: BlockchainTest) -> bool {
    excluded_spec(t.network) || case_ok(t) || should_fail(t)
}

/// The fixture at position `i` is the first that does not count as passed.
pub open spec fn first_failing(tests: Seq<BlockchainTest>, i: int) -> bool {
    &&& 0 <= i < tests.len()
    &&& !counts_as_passed(tests[i])
    &&& forall|j: int| 0 <= j < i ==> counts_as_passed(#[trigger] tests[j])
}

/// The fixtures of one file.
#[derive(Clone, Debug)]
pub struct BlockchainTestCase {
    pub tests: Vec<BlockchainTest>,
    pub skip: bool,
}

impl BlockchainTestCase {
    /// Runs every fixture of the file in order, stopping at the first one
    /// that does not count as passed.
    pub fn run(&self) -> (r: Result<(), CaseError>)
        ensures
            self.skip ==> r matches Err(CaseError::Skipped),
            !self.skip ==> (r.is_ok() <==> forall|i: int|
                0 <= i < self.tests@.len() ==> counts_as_passed(#[trigger] self.tests@[i])),
            !self.skip && r.is_err() ==> exists|i: int|
                #[trigger] first_failing(self.tests@, i) && explains(self.tests@[i], r->Err_0),
    {
        if self.skip {
            return Err(CaseError::Skipped);
        }
        let mut i: usize = 0;
        while i < self.tests.len()
            invariant
                !self.skip,
                i <= self.tests@.len(),
                forall|j: int| 0 <= j < i ==> counts_as_passed(#[trigger] self.tests@[j]),
            decreases self.tests.len() - i,
        {
            let t = &self.tests[i];
            if !is_excluded(t.network) {
                let result = run_case(t);
                if result.is_err() && !expects_failure(t) {
                    assert(first_failing(self.tests@, i as int));
                    return result;
                }
            }
            i = i + 1;
        }
        Ok(())
    }
}

/// A handler for one subset of the blockchain fixtures.
#[derive(Clone, Debug)]
pub struct BlockchainTests {
    pub suite: String,
}

impl BlockchainTests {
    /// A handler for the subset `suite`.
    pub fn new(suite: String) -> (r: BlockchainTests)
        ensures
            r.suite == suite,
    {
        BlockchainTests { suite }
    }

    /// The suite's name: `BlockchainTests/` and the subset.
    pub fn suite_name(&self) -> (r: String)
        ensures
            r@ == "BlockchainTests/"@ + self.suite@,
    {
        <String as StringExecFns>::from_str("BlockchainTests/").concat(self.suite.as_str())
    }
}

} // verus!
