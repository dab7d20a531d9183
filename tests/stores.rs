use stagedsync::sync::{execute_with_records, unwind_with_records};
use stagedsync::pipeline::{on_error, ErrorAction, Pipeline, PipelineError, StageId};
use stagedsync::execution::{ExecutionStage, StageError};
use stagedsync::record_store::{RecordKind, RecordStore, StoreError};
use stagedsync::state_store::Account;
use stagedsync::transition::{Block, Header, Transfer};

#[test]
fn gap_is_out_of_order_write() {
    let mut r = RecordStore::new();
    assert_eq!(r.append(RecordKind::Headers, 0, 10), Ok(()));
    assert_eq!(r.append(RecordKind::Headers, 2, 12), Err(StoreError::OutOfOrderWrite { height: 2 }));
    assert_eq!(r.read(RecordKind::Headers, 2), None);
    assert_eq!(r.read(RecordKind::Headers, 1), None);
    assert_eq!(r.next_height(RecordKind::Headers), 1);
    assert_eq!(r.append(RecordKind::Headers, 0, 11), Err(StoreError::OutOfOrderWrite { height: 0 }));
    assert_eq!(r.read(RecordKind::Headers, 0), Some(10));
}

#[test]
fn receipt_needs_header_and_body() {
    let mut r = RecordStore::new();
    assert_eq!(r.append(RecordKind::Receipts, 0, 1), Err(StoreError::MissingBlockRecords { height: 0 }));
    r.append(RecordKind::Headers, 0, 10).unwrap();
    assert_eq!(r.append(RecordKind::Receipts, 0, 1), Err(StoreError::MissingBlockRecords { height: 0 }));
    r.append(RecordKind::Bodies, 0, 20).unwrap();
    assert_eq!(r.append(RecordKind::Receipts, 0, 1), Ok(()));
    assert_eq!(r.read(RecordKind::Receipts, 0), Some(1));
}

#[test]
fn truncating_headers_drops_receipts() {
    let mut r = RecordStore::new();
    for h in 0..3u64 {
        r.append(RecordKind::Headers, h, 10 + h).unwrap();
        r.append(RecordKind::Bodies, h, 20 + h).unwrap();
        r.append(RecordKind::Receipts, h, 30 + h).unwrap();
    }
    r.truncate_from(RecordKind::Headers, 1);
    assert_eq!(r.next_height(RecordKind::Headers), 1);
    assert_eq!(r.next_height(RecordKind::Receipts), 1);
    assert_eq!(r.next_height(RecordKind::Bodies), 3);
    assert_eq!(r.read_range(RecordKind::Bodies, 1, 9), vec![21, 22]);
    assert_eq!(r.read_range(RecordKind::Receipts, 0, 9), vec![30]);
}

#[test]
fn crash_drops_uncommitted_appends() {
    let mut r = RecordStore::new();
    r.append(RecordKind::Headers, 0, 10).unwrap();
    r.append(RecordKind::Bodies, 0, 20).unwrap();
    r.commit();
    r.append(RecordKind::Headers, 1, 11).unwrap();
    r.append(RecordKind::Bodies, 1, 21).unwrap();
    r.append(RecordKind::Receipts, 0, 30).unwrap();
    r.recover();
    assert_eq!(r.read(RecordKind::Headers, 0), Some(10));
    assert_eq!(r.read(RecordKind::Headers, 1), None);
    assert_eq!(r.read(RecordKind::Receipts, 0), None);
    assert_eq!(r.read_range(RecordKind::Bodies, 0, 5), vec![20]);
}

#[test]
fn stage_cannot_pass_its_upstream() {
    let mut p = Pipeline::new(vec![StageId::Headers, StageId::Bodies, StageId::Execution]);
    assert_eq!(p.record(1, 1), Err(PipelineError::OutOfRange { checkpoint: 1 }));
    assert_eq!(p.record(0, 5), Ok(()));
    assert_eq!(p.record(1, 3), Ok(()));
    assert_eq!(p.input_bound(2, 10), 3);
    assert_eq!(p.input_bound(0, 10), 10);
    assert_eq!(p.record(2, 4), Err(PipelineError::OutOfRange { checkpoint: 4 }));
    assert_eq!(p.record(1, 2), Err(PipelineError::OutOfRange { checkpoint: 2 }));
    assert_eq!(p.record(7, 2), Err(PipelineError::NoSuchStage));
    p.unwind(2);
    assert_eq!(p.checkpoint(0), Some(2));
    assert_eq!(p.checkpoint(1), Some(2));
    assert_eq!(p.checkpoint(2), Some(0));
    assert_eq!(p.checkpoint(3), None);
}

fn block(height: u64, parent_hash: u64, hash: u64, amount: u64) -> Block {
    Block {
        header: Header { height, parent_hash, hash, state_root: 0, logs_bloom: 0 },
        body: vec![Transfer { from: 1, to: 2, amount }],
    }
}

#[test]
fn pipeline_runs_execution_up_to_upstream() {
    let mut p = Pipeline::new(vec![StageId::Bodies, StageId::Execution]);
    let mut stage = ExecutionStage::new(&vec![(1, Account { balance: 50, nonce: 0, code_hash: 0 })], 0);
    let source = vec![block(1, 0, 11, 1), block(2, 11, 12, 1), block(3, 12, 13, 1)];
    p.record(0, 2).unwrap();
    assert_eq!(p.run_execution(1, &mut stage, &source, 3, 1), Ok(2));
    assert_eq!(p.checkpoint(1), Some(2));
    assert_eq!(stage.checkpoint(), 2);
    p.record(0, 3).unwrap();
    let bad = vec![block(1, 0, 11, 1), block(2, 11, 12, 1), block(3, 99, 13, 1)];
    assert_eq!(
        p.run_execution(1, &mut stage, &bad, 3, 1),
        Err(PipelineError::Stage(StageError::ChainDiscontinuity { height: 3 }))
    );
    assert_eq!(p.checkpoint(1), Some(2));
}

#[test]
fn execution_appends_and_unwind_truncates_records() {
    let mut stage = ExecutionStage::new(&vec![(1, Account { balance: 50, nonce: 0, code_hash: 0 })], 0);
    let mut records = RecordStore::new();
    records.append(RecordKind::Headers, 0, 0).unwrap();
    records.append(RecordKind::Bodies, 0, 0).unwrap();
    records.append(RecordKind::Receipts, 0, 0).unwrap();
    let source = vec![block(1, 0, 11, 1), block(2, 11, 12, 1), block(3, 12, 13, 1)];
    let p = execute_with_records(&mut stage, &mut records, &source, 3, 10).unwrap();
    assert_eq!(p.new_checkpoint, 3);
    assert_eq!(records.read_range(RecordKind::Headers, 0, 10), vec![0, 11, 12, 13]);
    assert_eq!(records.read_range(RecordKind::Receipts, 1, 10), vec![1, 1, 1]);
    records.recover();
    assert_eq!(records.next_height(RecordKind::Receipts), 4);
    unwind_with_records(&mut stage, &mut records, 1);
    assert_eq!(stage.checkpoint(), 1);
    assert_eq!(records.read_range(RecordKind::Headers, 0, 10), vec![0, 11]);
    assert_eq!(records.read(RecordKind::Receipts, 2), None);
    let bad = vec![block(1, 0, 11, 1), block(2, 5, 12, 1)];
    assert_eq!(
        execute_with_records(&mut stage, &mut records, &bad, 2, 10),
        Err(StageError::ChainDiscontinuity { height: 2 })
    );
    assert_eq!(records.next_height(RecordKind::Bodies), 2);
}

#[test]
fn pipeline_unwind_lowers_stage_data_with_checkpoints() {
    let mut p = Pipeline::new(vec![StageId::Bodies, StageId::Execution]);
    let mut stage = ExecutionStage::new(&vec![(1, Account { balance: 50, nonce: 0, code_hash: 0 })], 0);
    let before = stage.commitment();
    let mut records = RecordStore::new();
    records.append(RecordKind::Headers, 0, 0).unwrap();
    records.append(RecordKind::Bodies, 0, 0).unwrap();
    records.append(RecordKind::Receipts, 0, 0).unwrap();
    let source = vec![block(1, 0, 11, 1), block(2, 11, 12, 1)];
    p.record(0, 2).unwrap();
    execute_with_records(&mut stage, &mut records, &source, 2, 10).unwrap();
    p.record(1, 2).unwrap();
    assert_ne!(stage.commitment(), before);
    p.unwind_all(1, &mut stage, &mut records, 0);
    assert_eq!(p.checkpoint(0), Some(0));
    assert_eq!(p.checkpoint(1), Some(0));
    assert_eq!(stage.checkpoint(), 0);
    assert_eq!(stage.commitment(), before);
    assert_eq!(records.next_height(RecordKind::Headers), 1);
}

#[test]
fn only_transient_errors_are_retried_and_boundedly() {
    assert_eq!(on_error(PipelineError::Transient, 0, 3), ErrorAction::Retry);
    assert_eq!(on_error(PipelineError::Transient, 2, 3), ErrorAction::Retry);
    assert_eq!(on_error(PipelineError::Transient, 3, 3), ErrorAction::Halt);
    let chain = PipelineError::Stage(StageError::ChainDiscontinuity { height: 1 });
    assert_eq!(on_error(chain, 0, 3), ErrorAction::Halt);
    let failed = PipelineError::Stage(StageError::ExecutionFailed { height: 1 });
    assert_eq!(on_error(failed, 0, 3), ErrorAction::Halt);
}
