//! The execution stage together with the record store: every executed block
//! leaves its header, body and receipt records at its height, sealed in one
//! commit with the batch, and an unwind truncates them again.
use vstd::prelude::*;
use crate::execution::{ExecutionStage, StageError, Progress, batch_end, segment, available, links, tip_of};
use crate::record_store::{RecordKind, RecordStore, cut};
use crate::transition::{Block, replay};

verus! {

/// The header record of a block: its hash.
pub open spec fn header_record(b: Block) -> u64 {
    b.header.hash
}

/// The body record of a block: its number of transactions.
pub open spec fn body_record(b: Block) -> u64 {
    b.body@.len() as u64
}

/// The header and body records of `blocks`, in order.
pub open spec fn header_records(blocks: Seq<Block>) -> Seq<u64> {
    blocks.map_values(|b: Block| header_record(b))
}

pub open spec fn body_records(blocks: Seq<Block>) -> Seq<u64> {
    blocks.map_values(|b: Block| body_record(b))
}

/// The store holds one record of each kind per height up to the stage's
/// checkpoint, height 0 being genesis.
pub open spec fn aligned(stage: &ExecutionStage, records: &RecordStore) -> bool {
    &&& records.wf()
    &&& records.records(RecordKind::Headers).len() == stage.height() + 1
    &&& records.records(RecordKind::Bodies).len() == stage.height() + 1
    &&& records.records(RecordKind::Receipts).len() == stage.height() + 1
}

/// Appends the three records of `b` at `height`.
fn append_block(records: &mut RecordStore, height: u64, b: &Block) -> (r: Result<(), crate::record_store::StoreError>)
    requires
        old(records).wf(),
        old(records).records(RecordKind::Headers).len() == height,
        old(records).records(RecordKind::Bodies).len() == height,
        old(records).records(RecordKind::Receipts).len() == height,
    ensures
        r is Ok,
        final(records).wf(),
        final(records).records(RecordKind::Headers) == old(records).records(RecordKind::Headers).push(
            header_record(*b),
        ),
        final(records).records(RecordKind::Bodies) == old(records).records(RecordKind::Bodies).push(
            body_record(*b),
        ),
        final(records).records(RecordKind::Receipts) == old(records).records(RecordKind::Receipts).push(
            body_record(*b),
        ),
{
    let count = b.body.len() as u64;
    let r1 = records.append(RecordKind::Headers, height, b.header.hash);
    let r2 = records.append(RecordKind::Bodies, height, count);
    let r3 = records.append(RecordKind::Receipts, height, count);
    assert(r1 is Ok && r2 is Ok && r3 is Ok);
    Ok(())
}

/// Executes like `ExecutionStage::execute` and, on success, appends the
/// records of every executed block and seals them with one commit. On an
/// error neither the stage nor the records change.
pub fn execute_with_records(
    stage: &mut ExecutionStage,
    records: &mut RecordStore,
    source: &Vec<Block>,
    target: u64,
    batch: u64,
) -> (r: Result<Progress, StageError>)
    requires
        old(stage).wf(),
        aligned(old(stage), old(records)),
    ensures
        final(stage).wf(),
        aligned(final(stage), final(records)),
        ({
            let cp = old(stage).height();
            let end = batch_end(cp, target as nat, batch as nat);
            let seg = segment(source@, cp, end);
            let tip = tip_of(old(stage).genesis_hash(), old(stage).applied());
            let ok = available(source@, cp, end) && links(tip, cp, seg)
                && replay(old(stage).genesis(), old(stage).applied() + seg).is_some();
            &&& r.is_ok() == ok
            &&& match r {
                Ok(p) => p == (Progress { new_checkpoint: end as u64, done: end >= target }),
                Err(StageError::MissingBlock { height }) => !available(source@, cp, end)
                    && height == (if cp >= source@.len() { cp } else { source@.len() }) + 1,
                Err(StageError::ChainDiscontinuity { height }) => available(source@, cp, end)
                    && cp < height <= end
                    && links(tip, cp, seg.take(height - cp - 1))
                    && !links(tip, cp, seg.take(height - cp)),
                Err(StageError::ExecutionFailed { height }) => available(source@, cp, end)
                    && cp < height <= end
                    && links(tip, cp, seg.take(height - cp))
                    && replay(old(stage).genesis(), old(stage).applied() + seg.take(height - cp)).is_none(),
            }
            &&& match r {
                Ok(_) => final(stage).applied() == old(stage).applied() + seg
                    && final(records).records(RecordKind::Headers) == old(records).records(RecordKind::Headers)
                        + header_records(seg)
                    && final(records).records(RecordKind::Bodies) == old(records).records(RecordKind::Bodies)
                        + body_records(seg)
                    && forall|k: RecordKind| #[trigger] final(records).sealed(k) == final(records).records(k),
                Err(_) => final(stage).applied() == old(stage).applied() && *final(records) == *old(records),
            }
        }),
{
    let start = stage.checkpoint();
    let r = stage.execute(source, target, batch);
    let p = match r {
        Ok(p) => p,
        Err(e) => return Err(e),
    };
    let ghost seg = segment(source@, start as nat, batch_end(start as nat, target as nat, batch as nat));
    let ghost h0 = records.records(RecordKind::Headers);
    let ghost b0 = records.records(RecordKind::Bodies);
    let n: usize = source.len();
    let mut h = start;
    while h < p.new_checkpoint
        invariant
            n == source@.len(),
            start <= h <= p.new_checkpoint,
            p.new_checkpoint == start + seg.len(),
            stage.height() == p.new_checkpoint,
            seg.len() > 0 ==> p.new_checkpoint <= source@.len(),
            seg.len() > 0 ==> seg == source@.subrange(start as int, p.new_checkpoint as int),
            records.wf(),
            records.records(RecordKind::Headers).len() == h + 1,
            records.records(RecordKind::Bodies).len() == h + 1,
            records.records(RecordKind::Receipts).len() == h + 1,
            records.records(RecordKind::Headers) == h0 + header_records(seg.take(h - start)),
            records.records(RecordKind::Bodies) == b0 + body_records(seg.take(h - start)),
        decreases p.new_checkpoint - h,
    {
        let ghost k = h - start;
        assert(source@[h as int] == seg[k]);
        let _ = append_block(records, h + 1, &source[h as usize]);
        h = h + 1;
        assert(header_records(seg.take(k + 1)) =~= header_records(seg.take(k)).push(header_record(seg[k])));
        assert(body_records(seg.take(k + 1)) =~= body_records(seg.take(k)).push(body_record(seg[k])));
        assert(h0 + header_records(seg.take(k + 1)) =~= (h0 + header_records(seg.take(k))).push(
            header_record(seg[k]),
        ));
        assert(b0 + body_records(seg.take(k + 1)) =~= (b0 + body_records(seg.take(k))).push(body_record(seg[k])));
    }
    assert(seg.take(seg.len() as int) =~= seg);
    records.commit();
    Ok(p)
}

/// Unwinds the stage to `target` and truncates the records above it.
pub fn unwind_with_records(stage: &mut ExecutionStage, records: &mut RecordStore, target: u64)
    requires
        old(stage).wf(),
        aligned(old(stage), old(records)),
    ensures
        final(stage).wf(),
        aligned(final(stage), final(records)),
        target < old(stage).height() ==> final(stage).height() == target
            && final(stage).applied() == old(stage).applied().take(target as int),
        target >= old(stage).height() ==> final(stage).height() == old(stage).height()
            && final(stage).applied() == old(stage).applied(),
        forall|k: RecordKind| #[trigger] final(records).sealed(k) == final(records).records(k),
        forall|k: RecordKind|
            #[trigger] final(records).records(k) == cut(old(records).records(k), final(stage).height() + 1),
{
    let n = records.next_height(RecordKind::Headers);
    stage.unwind(target);
    let keep = stage.checkpoint();
    assert((keep as int) < (n as int));
    records.truncate_from(RecordKind::Headers, keep + 1);
    records.truncate_from(RecordKind::Bodies, keep + 1);
    records.commit();
    assert forall|k: RecordKind| #[trigger] records.records(k) == cut(old(records).records(k), (keep + 1) as nat) by {
        match k {
            RecordKind::Headers => {},
            RecordKind::Bodies => {},
            RecordKind::Receipts => {},
        }
    };
}

} // verus!
