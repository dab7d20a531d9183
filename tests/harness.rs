use stagedsync::cli::{Commands, LevelFilter, LogSink, Logs, TimingLayer, Verbosity};
use stagedsync::fixtures::{run_case, BlockchainTest, BlockchainTestCase, BlockchainTests, CaseError, ForkSpec};
use stagedsync::paths::{file_name_of, path_contains, should_skip};
use stagedsync::record_store::StoreError;
use stagedsync::state_store::Account;
use stagedsync::transition::{Block, Header, Transfer};

fn fixture(network: ForkSpec, amount: u64, expect_failure: bool) -> BlockchainTest {
    BlockchainTest {
        network,
        pre: vec![(1, Account { balance: 100, nonce: 0, code_hash: 0 })],
        genesis_hash: 5,
        blocks: vec![Block {
            header: Header { height: 1, parent_hash: 5, hash: 6, state_root: 77, logs_bloom: 0 },
            body: vec![Transfer { from: 1, to: 2, amount }],
        }],
        expect_exception: vec![expect_failure],
        post_state: Some(vec![
            (1, Some(Account { balance: 70, nonce: 1, code_hash: 0 })),
            (2, Some(Account { balance: 30, nonce: 0, code_hash: 0 })),
        ]),
        post_state_hash: None,
    }
}

#[test]
fn fixture_with_expected_accounts_passes() {
    assert!(run_case(&fixture(ForkSpec::Cancun, 30, false)).is_ok());
    match run_case(&fixture(ForkSpec::Cancun, 31, false)) {
        Err(CaseError::StateMismatch { mismatches }) => assert_eq!(mismatches.len(), 2),
        other => panic!("unexpected {:?}", other),
    }
}

#[test]
fn fixture_with_state_root() {
    let mut t = fixture(ForkSpec::London, 30, false);
    t.post_state = None;
    // Alice (key 1): 2 * 71 + 3 * 2 + 4 * 1; Bob (key 2): 3 * 31 + 4 * 1 + 5 * 1.
    t.post_state_hash = Some(254);
    assert!(run_case(&t).is_ok());
    t.post_state_hash = Some(77);
    assert!(matches!(run_case(&t), Err(CaseError::StateRootMismatch { expected: 77, actual: 254 })));
    // A header that claims the expected root does not help a wrong state.
    let mut wrong = fixture(ForkSpec::London, 31, false);
    wrong.post_state = None;
    wrong.post_state_hash = Some(254);
    wrong.blocks[0].header.state_root = 254;
    assert!(matches!(run_case(&wrong), Err(CaseError::StateRootMismatch { expected: 254, actual: 255 })));
    // A broken chain leaves the genesis state: 2 * 101 + 3 * 1 + 4 * 1.
    let mut broken = fixture(ForkSpec::London, 30, false);
    broken.post_state = None;
    broken.post_state_hash = Some(209);
    broken.blocks[0].header.parent_hash = 99;
    assert!(run_case(&broken).is_ok());
    t.post_state_hash = Some(254);
    t.post_state = Some(vec![]);
    assert!(matches!(run_case(&t), Err(CaseError::MissingPostState)));
}

#[test]
fn file_run_honours_skip_and_expected_failures() {
    let skipped = BlockchainTestCase { tests: vec![], skip: true };
    assert!(matches!(skipped.run(), Err(CaseError::Skipped)));
    let file = BlockchainTestCase {
        tests: vec![
            fixture(ForkSpec::Cancun, 30, false),
            fixture(ForkSpec::Cancun, 500, true),
            fixture(ForkSpec::Constantinople, 500, false),
        ],
        skip: false,
    };
    assert!(file.run().is_ok());
    let failing = BlockchainTestCase { tests: vec![fixture(ForkSpec::Cancun, 500, false)], skip: false };
    assert!(failing.run().is_err());
}

#[test]
fn suite_name_is_prefixed() {
    let s = BlockchainTests::new("ValidBlocks".to_string());
    assert_eq!(s.suite_name(), "BlockchainTests/ValidBlocks");
    assert_eq!(s.suite, "ValidBlocks");
}

#[test]
fn skip_by_file_name_or_directory() {
    assert!(should_skip("tests/BlockchainTests/ValueOverflow.json"));
    assert!(should_skip("InitCollisionParis.json"));
    assert!(should_skip("a/loopMul.json/"));
    assert!(should_skip("x/EIPTests/stEOF/foo.json"));
    assert!(!should_skip("x/EIPTests/stExample/foo.json"));
    assert!(!should_skip("x/ValueOverflow.json/extra.json"));
    assert!(!should_skip("tests/ValueOverflow.jsonx"));
    assert!(should_skip("x/ValueOverflow.json/."));
    assert!(should_skip("x/./ValueOverflow.json//./"));
}

#[test]
fn file_name_follows_path_components() {
    let name = |p: &str| file_name_of(&p.chars().collect()).map(|v| v.into_iter().collect::<String>());
    assert_eq!(name("a/b.json"), Some("b.json".to_string()));
    assert_eq!(name("a/b.json/."), Some("b.json".to_string()));
    assert_eq!(name("a/b/"), Some("b".to_string()));
    assert_eq!(name("a/.."), None);
    assert_eq!(name("/"), None);
    assert_eq!(name("."), None);
    assert_eq!(name(""), None);
    assert_eq!(name("..x"), Some("..x".to_string()));
}

#[test]
fn fixture_with_height_gap_is_out_of_order() {
    let mut t = fixture(ForkSpec::Cancun, 30, false);
    t.pre = vec![];
    t.post_state = Some(vec![]);
    t.blocks[0].header.height = 2;
    assert!(matches!(run_case(&t), Err(CaseError::Store(StoreError::OutOfOrderWrite { height: 2 }))));
}

#[test]
fn file_run_reports_first_failing_fixture() {
    let mut gap = fixture(ForkSpec::Cancun, 30, false);
    gap.blocks[0].header.height = 3;
    let file = BlockchainTestCase {
        tests: vec![fixture(ForkSpec::Cancun, 30, false), fixture(ForkSpec::Cancun, 31, false), gap],
        skip: false,
    };
    assert!(matches!(file.run(), Err(CaseError::StateMismatch { .. })));
}

#[test]
fn path_contains_joins_with_separator() {
    assert!(path_contains("a/b/c", &["b", "c"]));
    assert!(!path_contains("a/bc", &["b", "c"]));
    assert!(path_contains("abc", &[]));
}

#[test]
fn verbosity_levels() {
    let v = |verbosity: u8, quiet: bool| Verbosity { verbosity, quiet }.directive();
    assert_eq!(v(1, false), LevelFilter::Error);
    assert_eq!(v(2, false), LevelFilter::Warn);
    assert_eq!(v(3, false), LevelFilter::Info);
    assert_eq!(v(4, false), LevelFilter::Debug);
    assert_eq!(v(9, false), LevelFilter::Trace);
    assert_eq!(v(3, true), LevelFilter::Off);
}

#[test]
fn log_sink_choice() {
    let l = |persistent: bool, journald: bool| {
        Logs { persistent, log_directory: "logs".to_string(), journald, filter: "error".to_string() }.sink()
    };
    assert_eq!(l(true, true), LogSink::Journald);
    assert_eq!(l(true, false), LogSink::File);
    assert_eq!(l(false, false), LogSink::Stdout);
}

#[test]
fn command_names() {
    assert_eq!(Commands::TestVectors.name(), "test-vectors");
    assert_eq!(Commands::P2P.name(), "p2p");
    assert_eq!(TimingLayer::new(4u8).inner, 4);
}
