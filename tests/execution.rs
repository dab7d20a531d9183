use stagedsync::execution::{ExecutionStage, Progress, StageError};
use stagedsync::post_state::{compare_account, verify_accounts, Field, StateMismatch};
use stagedsync::state_store::{Account, StateStore};
use stagedsync::transition::{Block, Header, Transfer};

const ALICE: u64 = 1;
const BOB: u64 = 2;

fn acct(balance: u64, nonce: u64) -> Account {
    Account { balance, nonce, code_hash: 0 }
}

fn block(height: u64, parent_hash: u64, hash: u64, body: Vec<Transfer>) -> Block {
    Block { header: Header { height, parent_hash, hash, state_root: hash * 10, logs_bloom: 0 }, body }
}

fn genesis() -> ExecutionStage {
    ExecutionStage::new(&vec![(ALICE, acct(100, 0))], 100)
}

fn chain() -> Vec<Block> {
    vec![
        block(1, 100, 101, vec![Transfer { from: ALICE, to: BOB, amount: 30 }]),
        block(2, 101, 102, vec![Transfer { from: BOB, to: ALICE, amount: 10 }]),
        block(3, 102, 103, vec![Transfer { from: ALICE, to: BOB, amount: 5 }]),
    ]
}

#[test]
fn transfer_then_verify_then_unwind_restores_genesis() {
    let mut stage = genesis();
    let source = vec![block(1, 100, 101, vec![Transfer { from: ALICE, to: BOB, amount: 30 }])];
    let p = stage.execute(&source, 1, 10).unwrap();
    assert_eq!(p, Progress { new_checkpoint: 1, done: true });
    let expected = vec![(ALICE, Some(acct(70, 1))), (BOB, Some(acct(30, 0)))];
    assert!(verify_accounts(&stage, &expected).is_empty());
    stage.unwind(0);
    assert_eq!(stage.checkpoint(), 0);
    assert_eq!(stage.account(ALICE), Some(acct(100, 0)));
    assert_eq!(stage.account(BOB), None);
    assert_eq!(stage.tip_hash(), 100);
}

#[test]
fn wrong_parent_is_chain_discontinuity_and_keeps_checkpoint() {
    let mut stage = genesis();
    let source = vec![block(1, 999, 101, vec![Transfer { from: ALICE, to: BOB, amount: 30 }])];
    assert_eq!(stage.execute(&source, 1, 10), Err(StageError::ChainDiscontinuity { height: 1 }));
    assert_eq!(stage.checkpoint(), 0);
    assert_eq!(stage.account(ALICE), Some(acct(100, 0)));
}

#[test]
fn wrong_parent_mid_batch_discards_whole_batch() {
    let mut stage = genesis();
    let mut source = chain();
    source[2].header.parent_hash = 7;
    assert_eq!(stage.execute(&source, 3, 10), Err(StageError::ChainDiscontinuity { height: 3 }));
    assert_eq!(stage.checkpoint(), 0);
    assert_eq!(stage.account(ALICE), Some(acct(100, 0)));
    assert_eq!(stage.account(BOB), None);
}

#[test]
fn overspend_is_execution_failed() {
    let mut stage = genesis();
    let source = vec![
        block(1, 100, 101, vec![Transfer { from: ALICE, to: BOB, amount: 30 }]),
        block(2, 101, 102, vec![Transfer { from: BOB, to: ALICE, amount: 31 }]),
    ];
    assert_eq!(stage.execute(&source, 2, 10), Err(StageError::ExecutionFailed { height: 2 }));
    assert_eq!(stage.checkpoint(), 0);
    assert_eq!(stage.account(BOB), None);
}

#[test]
fn missing_block_is_reported() {
    let mut stage = genesis();
    let source = chain();
    assert_eq!(stage.execute(&source, 5, 10), Err(StageError::MissingBlock { height: 4 }));
    assert_eq!(stage.checkpoint(), 0);
}

#[test]
fn executing_a_range_twice_equals_once() {
    let source = chain();
    let mut once = genesis();
    once.execute(&source, 3, 10).unwrap();
    let mut twice = genesis();
    twice.execute(&source, 3, 10).unwrap();
    let again = twice.execute(&source, 3, 10).unwrap();
    assert_eq!(again, Progress { new_checkpoint: 3, done: true });
    for k in [ALICE, BOB] {
        assert_eq!(once.account(k), twice.account(k));
    }
    assert_eq!(twice.account(ALICE), Some(acct(75, 2)));
    assert_eq!(twice.account(BOB), Some(acct(25, 1)));
}

#[test]
fn unwind_matches_a_fresh_shorter_run() {
    let source = chain();
    for h2 in 0..=3u64 {
        let mut long = genesis();
        long.execute(&source, 3, 10).unwrap();
        long.unwind(h2);
        let mut short = genesis();
        short.execute(&source, h2, 10).unwrap();
        assert_eq!(long.checkpoint(), h2);
        assert_eq!(long.tip_hash(), short.tip_hash());
        assert_eq!(long.commitment(), short.commitment());
        for k in [ALICE, BOB] {
            assert_eq!(long.account(k), short.account(k));
        }
    }
}

#[test]
fn batch_limit_yields_before_target() {
    let mut stage = genesis();
    let source = chain();
    assert_eq!(stage.execute(&source, 3, 2), Ok(Progress { new_checkpoint: 2, done: false }));
    assert_eq!(stage.execute(&source, 3, 2), Ok(Progress { new_checkpoint: 3, done: true }));
    assert_eq!(stage.tip_hash(), 103);
}

#[test]
fn unwind_above_checkpoint_changes_nothing() {
    let mut stage = genesis();
    stage.execute(&chain(), 2, 10).unwrap();
    stage.unwind(5);
    assert_eq!(stage.checkpoint(), 2);
    assert_eq!(stage.account(BOB), Some(acct(20, 1)));
}

#[test]
fn self_transfer_bumps_nonce_only() {
    let mut stage = genesis();
    let source = vec![block(1, 100, 101, vec![Transfer { from: ALICE, to: ALICE, amount: 40 }])];
    stage.execute(&source, 1, 1).unwrap();
    assert_eq!(stage.account(ALICE), Some(acct(100, 1)));
}

#[test]
fn verifier_reports_every_diverging_field() {
    let mut stage = genesis();
    stage.execute(&chain(), 1, 10).unwrap();
    let expected = vec![
        (ALICE, Some(Account { balance: 71, nonce: 0, code_hash: 0 })),
        (BOB, None),
        (3, Some(acct(1, 0))),
    ];
    let m = verify_accounts(&stage, &expected);
    assert_eq!(
        m,
        vec![
            StateMismatch { address: ALICE, field: Field::Balance, expected: 71, actual: 70 },
            StateMismatch { address: ALICE, field: Field::Nonce, expected: 0, actual: 1 },
            StateMismatch { address: BOB, field: Field::Presence, expected: 0, actual: 1 },
            StateMismatch { address: 3, field: Field::Presence, expected: 1, actual: 0 },
        ]
    );
    let c = compare_account(9, Some(Account { balance: 1, nonce: 1, code_hash: 5 }), Some(acct(1, 1)));
    assert_eq!(c, vec![StateMismatch { address: 9, field: Field::CodeHash, expected: 5, actual: 0 }]);
}

#[test]
fn state_store_abort_and_undo() {
    let mut s = StateStore::new();
    s.put(ALICE, acct(5, 0));
    let undo = s.commit();
    assert_eq!(undo, vec![(ALICE, None)]);
    s.put(ALICE, acct(9, 1));
    s.put(ALICE, acct(8, 2));
    s.delete(BOB);
    s.put(BOB, acct(4, 0));
    assert_eq!(s.get(ALICE), Some(acct(8, 2)));
    assert_eq!(s.get_committed(ALICE), Some(acct(5, 0)));
    assert_eq!(s.get_committed(BOB), None);
    s.abort();
    assert_eq!(s.get(ALICE), Some(acct(5, 0)));
    s.put(BOB, acct(3, 0));
    let undo = s.commit();
    s.apply_undo(&undo);
    let _ = s.commit();
    assert_eq!(s.get(BOB), None);
    assert_eq!(s.get(ALICE), Some(acct(5, 0)));
}
