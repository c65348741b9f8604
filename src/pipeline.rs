//! A resumable pipeline of stages.
//!
//! The pipeline holds an ordered list of stage plans and a live cursor
//! `(stage, offset)`. Each invocation handles one continuation message: if
//! the message names the live cursor, one batch of the stage is planned and
//! the cursor moves past it; the result says whether the same stage goes on,
//! the next stage begins at offset zero, or the computation is finished. A
//! message that names anything but the live cursor is stale and changes
//! nothing.
use vstd::prelude::*;
use crate::cursor::{
    Batch, Cursor, EngineError, plan_end, tiles, covers_exactly, lemma_tiles_push,
    lemma_tiles_cover, lemma_tiles_bounds,
};

verus! {

/// The kinds of stage of a layered convolutional computation.
#[derive(Clone, Copy, Debug, PartialEq, Eq, Structural)]
pub enum StageKind {
    AllocateIm2Col,
    Im2Col,
    Convolve,
    AddBiasAndRelu,
    Normalize,
    Reshape,
    MaxPool,
    Flatten,
    DenseApply,
}

/// One stage: what it does, for which layer, how many units of work it has
/// and how many of them one invocation may process.
#[derive(Clone, Copy, Debug, PartialEq, Eq, Structural)]
pub struct StagePlan {
    pub kind: StageKind,
    pub layer: u8,
    pub total: u32,
    pub batch_limit: u32,
}

/// A self-addressed continuation: resume at `offset` of stage `stage`.
#[derive(Clone, Copy, Debug, PartialEq, Eq, Structural)]
pub struct StepMsg {
    pub stage: u32,
    pub offset: u32,
}

/// What follows a processed batch.
#[derive(Clone, Copy, Debug, PartialEq, Eq, Structural)]
pub enum Continuation {
    /// More work remains in the same stage.
    SameStage(StepMsg),
    /// The stage is complete; the next one starts at offset zero.
    NextStage(StepMsg),
    /// The last stage is complete; nothing is to be sent.
    Terminal,
}

/// The outcome of one continuation message.
#[derive(Clone, Copy, Debug, PartialEq, Eq, Structural)]
pub enum StepOutcome {
    /// The message did not name the live cursor: nothing was done.
    Stale,
    /// `batch` of the stage `plan` is to be computed, then `next` sent.
    Ran { plan: StagePlan, batch: Batch, next: Continuation },
}

/// The abstract state of a pipeline. `done[s]` lists the batches that stage
/// `s` has processed, in order.
pub struct PipelineView {
    pub stages: Seq<StagePlan>,
    pub stage: int,
    pub offset: int,
    pub done: Seq<Seq<Batch>>,
}

impl PipelineView {
    pub open spec fn wf(self) -> bool {
        &&& 0 < self.stages.len() < u32::MAX
        &&& forall|s: int| 0 <= s < self.stages.len() ==> #[trigger] self.stages[s].batch_limit > 0
        &&& 0 <= self.stage <= self.stages.len()
        &&& 0 <= self.offset
        &&& self.stage < self.stages.len() ==> self.offset <= self.stages[self.stage].total
        &&& self.stage == self.stages.len() ==> self.offset == 0
        &&& self.done.len() == self.stages.len()
        &&& forall|s: int|
            0 <= s < self.stage && s < self.stages.len() ==> tiles(
                #[trigger] self.done[s],
                0,
                self.stages[s].total as int,
            )
        &&& self.stage < self.stages.len() ==> tiles(self.done[self.stage], 0, self.offset)
        &&& forall|s: int| self.stage < s < self.stages.len() ==> (#[trigger] self.done[s]).len() == 0
        &&& forall|s: int, k: int|
            0 <= s < self.stages.len() && 0 <= k < self.done[s].len() ==> {
                let b = #[trigger] self.done[s][k];
                &&& b.start == k * self.stages[s].batch_limit
                &&& b.end <= b.start + self.stages[s].batch_limit
            }
        &&& self.stage < self.stages.len() ==> self.offset == self.done[self.stage].len()
            * self.stages[self.stage].batch_limit
    }

    pub open spec fn is_finished(self) -> bool {
        self.stage == self.stages.len()
    }

    /// `self` has not gone past `other`: the cursor, ordered by stage and
    /// then by offset, never moves back.
    pub open spec fn not_after(self, other: PipelineView) -> bool {
        ||| self.stage < other.stage
        ||| (self.stage == other.stage && self.offset <= other.offset)
    }
}

/// A fresh pipeline over `stages`, at offset zero of the first stage.
pub open spec fn initial(stages: Seq<StagePlan>) -> PipelineView {
    PipelineView { stages, stage: 0, offset: 0, done: Seq::new(stages.len(), |s: int| Seq::<Batch>::empty()) }
}

/// Why a list of stage plans cannot form a pipeline, if it cannot.
pub open spec fn stages_error(stages: Seq<StagePlan>) -> Option<EngineError> {
    if stages.len() == 0 {
        Some(EngineError::NoStages)
    } else if stages.len() >= u32::MAX {
        Some(EngineError::TooManyStages)
    } else if exists|s: int| 0 <= s < stages.len() && #[trigger] stages[s].batch_limit == 0 {
        Some(EngineError::ZeroBatchLimit)
    } else {
        None
    }
}

/// The effect of the message `(stage, offset)` on `v`: the new state and
/// what the invocation returns.
pub open spec fn step_model(v: PipelineView, stage: int, offset: int) -> (
    PipelineView,
    Result<StepOutcome, EngineError>,
) {
    if !(0 <= stage < v.stages.len()) {
        (v, Err(EngineError::UnknownStage))
    } else if offset > v.stages[stage].total {
        (v, Err(EngineError::OffsetPastTotal))
    } else if stage != v.stage || offset != v.offset {
        (v, Ok(StepOutcome::Stale))
    } else {
        let p = v.stages[stage];
        let end = plan_end(offset, p.total as int, p.batch_limit as int);
        let b = Batch { start: offset as u32, end: end as u32 };
        let done = if end > offset {
            v.done.update(stage, v.done[stage].push(b))
        } else {
            v.done
        };
        if end < p.total {
            (
                PipelineView { stages: v.stages, stage, offset: end, done },
                Ok(
                    StepOutcome::Ran {
                        plan: p,
                        batch: b,
                        next: Continuation::SameStage(StepMsg { stage: stage as u32, offset: end as u32 }),
                    },
                ),
            )
        } else if stage + 1 < v.stages.len() {
            (
                PipelineView { stages: v.stages, stage: stage + 1, offset: 0, done },
                Ok(
                    StepOutcome::Ran {
                        plan: p,
                        batch: b,
                        next: Continuation::NextStage(StepMsg { stage: (stage + 1) as u32, offset: 0 }),
                    },
                ),
            )
        } else {
            (
                PipelineView { stages: v.stages, stage: stage + 1, offset: 0, done },
                Ok(StepOutcome::Ran { plan: p, batch: b, next: Continuation::Terminal }),
            )
        }
    }
}

/// The state after handling `msgs` in order, starting from `v`.
pub open spec fn run(v: PipelineView, msgs: Seq<StepMsg>) -> PipelineView
    decreases msgs.len(),
{
    if msgs.len() == 0 {
        v
    } else {
        step_model(run(v, msgs.drop_last()), msgs.last().stage as int, msgs.last().offset as int).0
    }
}

/// One message keeps the state well formed and never moves the cursor back;
/// within a stage the offset never decreases.
pub proof fn lemma_step_monotone(v: PipelineView, stage: int, offset: int)
    requires
        v.wf(),
    ensures
        step_model(v, stage, offset).0.wf(),
        v.not_after(step_model(v, stage, offset).0),
        step_model(v, stage, offset).0.stages == v.stages,
{
    let w = step_model(v, stage, offset).0;
    if 0 <= stage < v.stages.len() && offset <= v.stages[stage].total && stage == v.stage
        && offset == v.offset {
        let p = v.stages[stage];
        let end = plan_end(offset, p.total as int, p.batch_limit as int);
        let b = Batch { start: offset as u32, end: end as u32 };
        assert(p.batch_limit > 0);
        if end > offset {
            lemma_tiles_push(v.done[stage], 0, offset, b);
        }
        assert(tiles(w.done[stage], 0, end));
        assert forall|s: int| 0 <= s < w.stage && s < w.stages.len() implies tiles(
            #[trigger] w.done[s],
            0,
            w.stages[s].total as int,
        ) by {
            if s != stage {
                assert(w.done[s] == v.done[s]);
            }
        }
        if w.stage < w.stages.len() && w.stage != stage {
            assert(w.done[w.stage] == v.done[w.stage]);
            assert(v.done[w.stage].len() == 0);
        }
        assert forall|s: int| w.stage < s < w.stages.len() implies (#[trigger] w.done[s]).len() == 0 by {
            assert(w.done[s] == v.done[s]);
        }
        assert forall|s: int, k: int| 0 <= s < w.stages.len() && 0 <= k < w.done[s].len() implies {
            let x = #[trigger] w.done[s][k];
            &&& x.start == k * w.stages[s].batch_limit
            &&& x.end <= x.start + w.stages[s].batch_limit
        } by {
            if s == stage && end > offset && k == v.done[stage].len() {
                assert(w.done[s][k] == b);
            } else {
                assert(w.done[s][k] == v.done[s][k]);
            }
        }
        if w.stage == stage && end > offset {
            assert(w.done[stage].len() == v.done[stage].len() + 1);
            assert(end == offset + p.batch_limit);
            assert(end == w.done[stage].len() * p.batch_limit) by (nonlinear_arith)
                requires
                    end == offset + p.batch_limit,
                    offset == v.done[stage].len() * p.batch_limit,
                    w.done[stage].len() == v.done[stage].len() + 1,
            ;
        }
    }
}

/// A stage that is complete took exactly `ceil(total / batch_limit)`
/// batches: `n` batches with `(n - 1) * limit < total <= n * limit`, and
/// none for an empty stage. Each batch but the last is a full one.
pub proof fn lemma_stage_step_count(v: PipelineView, s: int)
    requires
        v.wf(),
        0 <= s < v.stage,
        s < v.stages.len(),
    ensures
        ({
            let n = v.done[s].len() as int;
            let total = v.stages[s].total as int;
            let limit = v.stages[s].batch_limit as int;
            &&& total == 0 ==> n == 0
            &&& total > 0 ==> (n - 1) * limit < total <= n * limit
            &&& forall|k: int| 0 <= k < n - 1 ==> (#[trigger] v.done[s][k]).end - v.done[s][k].start == limit
        }),
{
    let bs = v.done[s];
    let n = bs.len() as int;
    let total = v.stages[s].total as int;
    let limit = v.stages[s].batch_limit as int;
    lemma_tiles_bounds(bs, 0, total);
    if n > 0 {
        let last = bs[n - 1];
        assert(bs.last() == last);
        assert(last.end == total);
        assert(last.start == (n - 1) * limit);
        assert(total <= n * limit) by (nonlinear_arith)
            requires
                total <= last.start + limit,
                last.start == (n - 1) * limit,
        ;
    }
    assert forall|k: int| 0 <= k < n - 1 implies (#[trigger] bs[k]).end - bs[k].start == limit by {
        let x = bs[k];
        let y = bs[k + 1];
        assert(x.end <= y.start);
        assert(y.start == (k + 1) * limit);
        assert(x.start == k * limit);
        assert((k + 1) * limit == k * limit + limit) by (nonlinear_arith);
        lemma_tiles_adjacent(bs, 0, total, k);
    }
}

/// In a tiling, each batch ends where the next one starts.
proof fn lemma_tiles_adjacent(bs: Seq<Batch>, lo: int, hi: int, k: int)
    requires
        tiles(bs, lo, hi),
        0 <= k < bs.len() - 1,
    ensures
        bs[k].end == bs[k + 1].start,
    decreases bs.len(),
{
    let rest = bs.drop_last();
    if k + 1 == bs.len() - 1 {
        assert(rest.last() == bs[k]);
        assert(bs.last() == bs[k + 1]);
        assert(tiles(rest, lo, bs.last().start as int));
        assert(rest.last().end == bs.last().start);
    } else {
        assert(rest[k] == bs[k] && rest[k + 1] == bs[k + 1]);
        lemma_tiles_adjacent(rest, lo, bs.last().start as int, k);
    }
}

/// Over any sequence of messages the state stays well formed and the cursor
/// never moves back.
pub proof fn lemma_run_monotone(v: PipelineView, msgs: Seq<StepMsg>)
    requires
        v.wf(),
    ensures
        run(v, msgs).wf(),
        v.not_after(run(v, msgs)),
        run(v, msgs).stages == v.stages,
    decreases msgs.len(),
{
    if msgs.len() > 0 {
        let u = run(v, msgs.drop_last());
        lemma_run_monotone(v, msgs.drop_last());
        lemma_step_monotone(u, msgs.last().stage as int, msgs.last().offset as int);
    }
}

/// A message that lies behind the live cursor changes nothing and emits no
/// continuation.
pub proof fn lemma_replay_is_noop(v: PipelineView, stage: int, offset: int)
    requires
        v.wf(),
        stage < v.stage || (stage == v.stage && offset < v.offset),
    ensures
        step_model(v, stage, offset).0 == v,
        !(step_model(v, stage, offset).1 is Ok && step_model(v, stage, offset).1->Ok_0 is Ran),
{
}

/// The batches processed so far cover, without gap or overlap, every stage
/// that is complete in full and the current stage up to its offset. In
/// particular, once the computation is finished, each stage's batches cover
/// exactly `[0, total)`.
pub proof fn lemma_coverage(v: PipelineView)
    requires
        v.wf(),
    ensures
        forall|s: int|
            0 <= s < v.stage && s < v.stages.len() ==> covers_exactly(
                #[trigger] v.done[s],
                0,
                v.stages[s].total as int,
            ),
        v.stage < v.stages.len() ==> covers_exactly(v.done[v.stage], 0, v.offset),
        v.is_finished() ==> forall|s: int|
            0 <= s < v.stages.len() ==> covers_exactly(#[trigger] v.done[s], 0, v.stages[s].total as int),
{
    assert forall|s: int| 0 <= s < v.stage && s < v.stages.len() implies covers_exactly(
        #[trigger] v.done[s],
        0,
        v.stages[s].total as int,
    ) by {
        lemma_tiles_cover(v.done[s], 0, v.stages[s].total as int);
    }
    if v.stage < v.stages.len() {
        lemma_tiles_cover(v.done[v.stage], 0, v.offset);
    }
}

/// A resumable pipeline: its stage plans and the live cursor.
pub struct Pipeline {
    stages: Vec<StagePlan>,
    stage: usize,
    cursor: Cursor,
    done: Ghost<Seq<Seq<Batch>>>,
}

impl View for Pipeline {
    type V = PipelineView;

    closed spec fn view(&self) -> PipelineView {
        PipelineView {
            stages: self.stages@,
            stage: self.stage as int,
            offset: self.cursor.offset as int,
            done: self.done@,
        }
    }
}

impl Pipeline {
    pub closed spec fn wf(&self) -> bool {
        &&& self@.wf()
        &&& self.stage < self.stages.len() ==> self.cursor.total == self.stages@[self.stage as int].total
        &&& self.stage == self.stages.len() ==> self.cursor.total == 0
    }

    /// A well-formed pipeline has a well-formed view, so the laws stated
    /// over views apply to it.
    pub proof fn lemma_wf_view(&self)
        requires
            self.wf(),
        ensures
            self@.wf(),
    {
    }

    /// A pipeline at offset zero of its first stage. The list must have at
    /// least one stage, fewer than `u32::MAX`, and no zero batch limit.
    pub fn new(stages: Vec<StagePlan>) -> (r: Result<Pipeline, EngineError>)
        ensures
            stages_error(stages@) is None <==> r is Ok,
            r matches Ok(p) ==> p.wf() && p@ == initial(stages@),
            r matches Err(e) ==> stages_error(stages@) == Some(e),
    {
        if stages.len() == 0 {
            return Err(EngineError::NoStages);
        }
        if stages.len() >= 0xffff_ffff {
            return Err(EngineError::TooManyStages);
        }
        let mut i: usize = 0;
        while i < stages.len()
            invariant
                i <= stages.len(),
                0 < stages.len() < u32::MAX,
                forall|s: int| 0 <= s < i ==> #[trigger] stages@[s].batch_limit > 0,
            decreases stages.len() - i,
        {
            if stages[i].batch_limit == 0 {
                assert(stages@[i as int].batch_limit == 0);
                return Err(EngineError::ZeroBatchLimit);
            }
            i = i + 1;
        }
        let total = stages[0].total;
        let ghost done = Seq::new(stages.len() as nat, |s: int| Seq::<Batch>::empty());
        let p = Pipeline { stages, stage: 0, cursor: Cursor::new(total), done: Ghost(done) };
        assert(tiles(done[0], 0, 0));
        Ok(p)
    }

    /// Starts a computation: builds the pipeline and processes the first
    /// batch of its first stage.
    pub fn start(stages: Vec<StagePlan>) -> (r: Result<(Pipeline, StepOutcome), EngineError>)
        ensures
            stages_error(stages@) is None <==> r is Ok,
            r matches Ok((p, out)) ==> p.wf() && (p@, Ok::<StepOutcome, EngineError>(out))
                == step_model(initial(stages@), 0, 0),
            r matches Err(e) ==> stages_error(stages@) == Some(e),
    {
        let mut p = match Pipeline::new(stages) {
            Ok(p) => p,
            Err(e) => {
                return Err(e);
            },
        };
        match p.step(0, 0) {
            Ok(out) => Ok((p, out)),
            Err(e) => Err(e),
        }
    }

    /// Handles the continuation message `(stage, offset)`. A message that
    /// does not name the live cursor is stale and changes nothing; one that
    /// names no stage, or an offset past the stage's total, is refused.
    pub fn step(&mut self, stage: u32, offset: u32) -> (r: Result<StepOutcome, EngineError>)
        requires
            old(self).wf(),
        ensures
            final(self).wf(),
            (final(self)@, r) == step_model(old(self)@, stage as int, offset as int),
    {
        if stage as usize >= self.stages.len() {
            return Err(EngineError::UnknownStage);
        }
        let p = self.stages[stage as usize];
        if offset > p.total {
            return Err(EngineError::OffsetPastTotal);
        }
        if stage as usize != self.stage || offset != self.cursor.offset {
            return Ok(StepOutcome::Stale);
        }
        let batch = self.cursor.plan(p.batch_limit);
        proof {
            let v = self@;
            lemma_step_monotone(v, stage as int, offset as int);
            if batch.end > batch.start {
                self.done@ = self.done@.update(stage as int, self.done@[stage as int].push(batch));
            }
        }
        let complete = self.cursor.advance(batch);
        if !complete {
            return Ok(StepOutcome::Ran {
                plan: p,
                batch,
                next: Continuation::SameStage(StepMsg { stage, offset: batch.end }),
            });
        }
        self.stage = self.stage + 1;
        if self.stage < self.stages.len() {
            self.cursor = Cursor::new(self.stages[self.stage].total);
            Ok(StepOutcome::Ran {
                plan: p,
                batch,
                next: Continuation::NextStage(StepMsg { stage: stage + 1, offset: 0 }),
            })
        } else {
            self.cursor = Cursor::new(0);
            Ok(StepOutcome::Ran { plan: p, batch, next: Continuation::Terminal })
        }
    }

    /// The live cursor: the current stage's index and its progress.
    pub fn position(&self) -> (r: (u32, Cursor))
        requires
            self.wf(),
        ensures
            r.0 == self@.stage,
            r.1.offset == self@.offset,
            r.1.total == if self@.is_finished() { 0 } else { self@.stages[self@.stage].total as int },
    {
        (self.stage as u32, self.cursor)
    }

    /// Whether the last stage is complete.
    pub fn is_finished(&self) -> (r: bool)
        requires
            self.wf(),
        ensures
            r == self@.is_finished(),
    {
        self.stage == self.stages.len()
    }

    /// The stage plans.
    pub fn stages(&self) -> (r: &Vec<StagePlan>)
        ensures
            r@ == self@.stages,
    {
        &self.stages
    }
}

} // verus!
