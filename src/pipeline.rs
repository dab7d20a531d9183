//! The pipeline executor: an ordered list of stages and their checkpoints.
//! A stage only ever processes heights that every stage before it has
//! already reached, and an unwind lowers every stage together.
use vstd::prelude::*;
use crate::execution::{ExecutionStage, StageError, Progress, batch_end, segment, available, links, tip_of};
use crate::transition::{Block, replay};
use crate::record_store::RecordStore;
use crate::sync::{aligned, unwind_with_records};

verus! {

/// The stages a pipeline can hold.
#[derive(Clone, Copy, Debug, PartialEq, Eq, Structural)]
pub enum StageId {
    Headers,
    Bodies,
    Execution,
}

/// Why the pipeline refused a step.
#[derive(Clone, Copy, Debug, PartialEq, Eq, Structural)]
pub enum PipelineError {
    /// No stage at that position.
    NoSuchStage,
    /// The reported checkpoint lies below the stage's own or beyond what
    /// the stages before it have reached.
    OutOfRange { checkpoint: u64 },
    /// The stage failed.
    Stage(StageError),
    /// A store operation failed for a passing reason (I/O, lock contention).
    Transient,
}

/// What the executor does after a stage error.
#[derive(Clone, Copy, Debug, PartialEq, Eq, Structural)]
pub enum ErrorAction {
    /// Run the stage again.
    Retry,
    /// Stop the whole run.
    Halt,
}

/// Transient errors are retried while `attempts` (failed tries so far) is
/// below `max_retries`; every other error halts at once.
pub open spec fn action_for(e: PipelineError, attempts: u32, max_retries: u32) -> ErrorAction {
    if e == PipelineError::Transient && attempts < max_retries {
        ErrorAction::Retry
    } else {
        ErrorAction::Halt
    }
}

/// Decides whether to retry a stage after error `e`.
pub fn on_error(e: PipelineError, attempts: u32, max_retries: u32) -> (r: ErrorAction)
    ensures
        r == action_for(e, attempts, max_retries),
{
    match e {
        PipelineError::Transient => {
            if attempts < max_retries {
                ErrorAction::Retry
            } else {
                ErrorAction::Halt
            }
        },
        _ => ErrorAction::Halt,
    }
}

/// No stage is ahead of the one before it.
pub open spec fn ordered(cps: Seq<u64>) -> bool {
    forall|i: int| 0 < i < cps.len() ==> #[trigger] cps[i] <= cps[i - 1]
}

/// The furthest height stage `i` may reach towards `target`: the target,
/// bounded by the checkpoint of the stage before it.
pub open spec fn bound(cps: Seq<u64>, i: int, target: u64) -> u64 {
    if i > 0 && cps[i - 1] < target {
        cps[i - 1]
    } else {
        target
    }
}

/// One more call of `execute` on `stage` towards `limit`, with at most
/// `batch` blocks, fails: its blocks are not all in `source`, do not link,
/// or do not replay.
pub open spec fn batch_fails(stage: ExecutionStage, source: Seq<Block>, limit: nat, batch: nat) -> bool {
    let cp = stage.height();
    let end = batch_end(cp, limit, batch);
    let seg = segment(source, cp, end);
    !(available(source, cp, end) && links(tip_of(stage.genesis_hash(), stage.applied()), cp, seg) && replay(
        stage.genesis(),
        stage.applied() + seg,
    ).is_some())
}

/// In an ordered list, every stage is at or below every stage before it.
pub proof fn lemma_below_every_upstream(cps: Seq<u64>, j: int, i: int)
    requires
        ordered(cps),
        0 <= j <= i < cps.len(),
    ensures
        cps[i] <= cps[j],
    decreases i - j,
{
    if j < i {
        lemma_below_every_upstream(cps, j, i - 1);
    }
}

/// The stages in order and the checkpoint of each.
pub struct Pipeline {
    stages: Vec<StageId>,
    checkpoints: Vec<u64>,
}

impl Pipeline {
    pub closed spec fn stages(&self) -> Seq<StageId> {
        self.stages@
    }

    pub closed spec fn checkpoints(&self) -> Seq<u64> {
        self.checkpoints@
    }

    pub open spec fn wf(&self) -> bool {
        &&& self.stages().len() == self.checkpoints().len()
        &&& ordered(self.checkpoints())
    }

    /// A pipeline of `stages`, every checkpoint at height 0.
    pub fn new(stages: Vec<StageId>) -> (r: Pipeline)
        ensures
            r.wf(),
            r.stages() == stages@,
            r.checkpoints() == Seq::new(stages@.len(), |i: int| 0u64),
    {
        let mut checkpoints: Vec<u64> = Vec::new();
        let mut i: usize = 0;
        while i < stages.len()
            invariant
                i <= stages@.len(),
                checkpoints@ == Seq::new(i as nat, |j: int| 0u64),
            decreases stages.len() - i,
        {
            checkpoints.push(0);
            i = i + 1;
            assert(checkpoints@ =~= Seq::new(i as nat, |j: int| 0u64));
        }
        Pipeline { stages, checkpoints }
    }

    /// The checkpoint of stage `i`.
    pub fn checkpoint(&self, i: usize) -> (r: Option<u64>)
        ensures
            r == (if i < self.checkpoints().len() { Some(self.checkpoints()[i as int]) } else { None }),
    {
        if i < self.checkpoints.len() {
            Some(self.checkpoints[i])
        } else {
            None
        }
    }

    /// The furthest height stage `i` may reach towards `target`.
    pub fn input_bound(&self, i: usize, target: u64) -> (r: u64)
        requires
            i < self.checkpoints().len(),
        ensures
            r == bound(self.checkpoints(), i as int, target),
    {
        if i > 0 && self.checkpoints[i - 1] < target {
            self.checkpoints[i - 1]
        } else {
            target
        }
    }

    /// Records that stage `i` has reached `checkpoint`. Refused unless it
    /// lies between the stage's own checkpoint and that of the stage
    /// before it.
    pub fn record(&mut self, i: usize, checkpoint: u64) -> (r: Result<(), PipelineError>)
        requires
            old(self).wf(),
        ensures
            final(self).wf(),
            final(self).stages() == old(self).stages(),
            i >= old(self).checkpoints().len() ==> r == Err::<(), PipelineError>(PipelineError::NoSuchStage)
                && final(self).checkpoints() == old(self).checkpoints(),
            i < old(self).checkpoints().len() ==> {
                let ok = old(self).checkpoints()[i as int] <= checkpoint
                    && (i == 0 || checkpoint <= old(self).checkpoints()[i - 1]);
                &&& ok ==> r is Ok && final(self).checkpoints() == old(self).checkpoints().update(i as int, checkpoint)
                &&& !ok ==> r == Err::<(), PipelineError>(PipelineError::OutOfRange { checkpoint })
                    && final(self).checkpoints() == old(self).checkpoints()
            },
    {
        if i >= self.checkpoints.len() {
            return Err(PipelineError::NoSuchStage);
        }
        if checkpoint < self.checkpoints[i] || (i > 0 && checkpoint > self.checkpoints[i - 1]) {
            return Err(PipelineError::OutOfRange { checkpoint });
        }
        self.checkpoints.set(i, checkpoint);
        Ok(())
    }

    /// Lowers every stage to at most `target`, the last stage first.
    pub fn unwind(&mut self, target: u64)
        requires
            old(self).wf(),
        ensures
            final(self).wf(),
            final(self).stages() == old(self).stages(),
            final(self).checkpoints().len() == old(self).checkpoints().len(),
            forall|i: int|
                0 <= i < old(self).checkpoints().len() ==> #[trigger] final(self).checkpoints()[i] == (if old(
                    self,
                ).checkpoints()[i] <= target {
                    old(self).checkpoints()[i]
                } else {
                    target
                }),
    {
        let mut i: usize = self.checkpoints.len();
        while i > 0
            invariant
                i <= self.checkpoints@.len(),
                self.checkpoints@.len() == old(self).checkpoints@.len(),
                self.stages@ == old(self).stages@,
                ordered(old(self).checkpoints@),
                forall|j: int| 0 <= j < i ==> #[trigger] self.checkpoints@[j] == old(self).checkpoints@[j],
                forall|j: int|
                    i <= j < self.checkpoints@.len() ==> #[trigger] self.checkpoints@[j] == (if old(
                        self,
                    ).checkpoints@[j] <= target {
                        old(self).checkpoints@[j]
                    } else {
                        target
                    }),
            decreases i,
        {
            i = i - 1;
            if self.checkpoints[i] > target {
                self.checkpoints.set(i, target);
            }
        }
        assert forall|j: int| 0 < j < self.checkpoints@.len() implies #[trigger] self.checkpoints@[j]
            <= self.checkpoints@[j - 1] by {
            assert(old(self).checkpoints@[j] <= old(self).checkpoints@[j - 1]);
        };
    }

    /// Lowers every stage to at most `target` and unwinds the execution
    /// stage at position `i`, with its records, to the same height.
    pub fn unwind_all(&mut self, i: usize, stage: &mut ExecutionStage, records: &mut RecordStore, target: u64)
        requires
            old(self).wf(),
            old(stage).wf(),
            aligned(old(stage), old(records)),
            i < old(self).checkpoints().len(),
            old(self).checkpoints()[i as int] == old(stage).height(),
        ensures
            final(self).wf(),
            final(stage).wf(),
            aligned(final(stage), final(records)),
            final(self).stages() == old(self).stages(),
            final(self).checkpoints().len() == old(self).checkpoints().len(),
            forall|j: int|
                0 <= j < old(self).checkpoints().len() ==> #[trigger] final(self).checkpoints()[j] <= target
                    || final(self).checkpoints()[j] == old(self).checkpoints()[j],
            final(self).checkpoints()[i as int] == final(stage).height(),
            target < old(stage).height() ==> final(stage).applied() == old(stage).applied().take(target as int),
    {
        self.unwind(target);
        unwind_with_records(stage, records, target);
        proof {
            stage.lemma_wf();
        }
    }

    /// Runs the execution stage at position `i` towards `target`, batch by
    /// batch, within what the stage before it has reached, and records its
    /// checkpoint. An error halts the run and leaves the checkpoint at the
    /// last completed batch.
    pub fn run_execution(
        &mut self,
        i: usize,
        stage: &mut ExecutionStage,
        source: &Vec<Block>,
        target: u64,
        batch: u64,
    ) -> (r: Result<u64, PipelineError>)
        requires
            old(self).wf(),
            old(stage).wf(),
            i < old(self).checkpoints().len(),
            old(self).checkpoints()[i as int] == old(stage).height(),
            batch > 0,
        ensures
            final(self).wf(),
            final(stage).wf(),
            final(self).stages() == old(self).stages(),
            final(self).checkpoints()[i as int] == final(stage).height(),
            final(stage).genesis() == old(stage).genesis(),
            final(stage).height() >= old(stage).height(),
            final(stage).applied().take(old(stage).height() as int) == old(stage).applied(),
            final(stage).state() == replay(final(stage).genesis(), final(stage).applied()).unwrap(),
            r is Ok ==> r == Ok::<u64, PipelineError>(final(stage).height() as u64)
                && final(stage).height() >= bound(old(self).checkpoints(), i as int, target),
            r matches Err(e) ==> e matches PipelineError::Stage(_),
            r.is_err() ==> batch_fails(
                *final(stage),
                source@,
                bound(old(self).checkpoints(), i as int, target) as nat,
                batch as nat,
            ),
            final(stage).height() <= bound(old(self).checkpoints(), i as int, target)
                || final(stage).height() == old(stage).height(),
    {
        let limit = self.input_bound(i, target);
        let ghost ap0 = stage.applied();
        proof {
            stage.lemma_wf();
            assert(ap0.take(ap0.len() as int) =~= ap0);
        }
        let mut result: Result<u64, PipelineError> = Ok(stage.checkpoint());
        loop
            invariant_except_break
                result is Ok,
            invariant
                self.wf(),
                stage.wf(),
                old(self).wf(),
                self.stages() == old(self).stages(),
                self.checkpoints() == old(self).checkpoints().update(i as int, self.checkpoints()[i as int]),
                i < self.checkpoints().len(),
                self.checkpoints()[i as int] == stage.height(),
                stage.genesis() == old(stage).genesis(),
                stage.height() >= old(stage).height(),
                stage.applied().take(old(stage).height() as int) == ap0,
                ap0 == old(stage).applied(),
                stage.applied().len() == stage.height(),
                stage.state() == replay(stage.genesis(), stage.applied()).unwrap(),
                limit == bound(old(self).checkpoints(), i as int, target),
                batch > 0,
                i > 0 ==> limit <= self.checkpoints()[i - 1],
                stage.height() <= limit || stage.height() == old(stage).height(),
                result matches Err(e) ==> e matches PipelineError::Stage(_),
                result is Ok ==> result == Ok::<u64, PipelineError>(stage.height() as u64),
            ensures
                result is Ok ==> stage.height() >= limit,
                result.is_err() ==> batch_fails(*stage, source@, limit as nat, batch as nat),
            decreases limit - stage.height(),
        {
            let cp = stage.checkpoint();
            if cp >= limit {
                break;
            }
            let ghost before = stage.applied();
            match stage.execute(source, limit, batch) {
                Ok(p) => {
                    proof {
                        let seg = segment(source@, cp as nat, batch_end(cp as nat, limit as nat, batch as nat));
                        assert((before + seg).take(old(stage).height() as int) =~= before.take(
                            old(stage).height() as int));
                        assert(batch_end(cp as nat, limit as nat, batch as nat) > cp);
                        assert(stage.height() > cp);
                    }
                    let _ = self.record(i, p.new_checkpoint);
                    result = Ok(p.new_checkpoint);
                },
                Err(e) => {
                    result = Err(PipelineError::Stage(e));
                    break;
                },
            }
        }
        result
    }
}

} // verus!
