//! Progress cursor of one stage and the batch planner.
//!
//! A stage of `total` units of work is processed in contiguous batches
//! `[start, end)`. The cursor records how far the stage has gone; it only
//! moves forward, and only by the batch that has just been processed.
use vstd::prelude::*;

verus! {

/// Errors of the stage machinery: every one of them is invalid input.
#[derive(Clone, Copy, Debug, PartialEq, Eq, Structural)]
pub enum EngineError {
    /// A cursor or a message whose offset lies past the stage's total.
    OffsetPastTotal,
    /// A message naming a stage that the pipeline does not have.
    UnknownStage,
    /// A stage with work to do and a batch-size limit of zero.
    ZeroBatchLimit,
    /// A pipeline without any stage.
    NoStages,
    /// More stages than a message can address.
    TooManyStages,
}

/// A contiguous range `[start, end)` of a stage's work.
#[derive(Clone, Copy, Debug, PartialEq, Eq, Structural)]
pub struct Batch {
    pub start: u32,
    pub end: u32,
}

impl Batch {
    pub open spec fn len_spec(&self) -> int {
        self.end - self.start
    }

    pub open spec fn contains(&self, i: int) -> bool {
        self.start <= i < self.end
    }

    /// Number of units in the batch (zero for an empty or reversed range).
    pub fn len(&self) -> (r: u32)
        ensures
            r == if self.start <= self.end { self.len_spec() } else { 0 },
    {
        if self.start <= self.end {
            self.end - self.start
        } else {
            0
        }
    }

    pub fn is_empty(&self) -> (r: bool)
        ensures
            r == (self.end <= self.start),
    {
        self.end <= self.start
    }
}

/// End of the batch that starts at `offset`: `min(offset + limit, total)`.
pub open spec fn plan_end(offset: int, total: int, limit: int) -> int {
    if offset + limit < total {
        offset + limit
    } else {
        total
    }
}

/// `bs` splits `[lo, hi)` into non-empty batches that follow one another.
pub open spec fn tiles(bs: Seq<Batch>, lo: int, hi: int) -> bool
    decreases bs.len(),
{
    if bs.len() == 0 {
        lo == hi
    } else {
        let b = bs.last();
        &&& b.start < b.end
        &&& b.end == hi
        &&& tiles(bs.drop_last(), lo, b.start as int)
    }
}

/// Some batch of `bs` holds index `i`.
pub open spec fn in_some(bs: Seq<Batch>, i: int) -> bool {
    exists|j: int| 0 <= j < bs.len() && #[trigger] bs[j].contains(i)
}

/// Every index of `[lo, hi)` lies in exactly one batch of `bs`, and no batch
/// holds an index outside it.
pub open spec fn covers_exactly(bs: Seq<Batch>, lo: int, hi: int) -> bool {
    &&& forall|i: int| #[trigger] in_some(bs, i) <==> lo <= i < hi
    &&& forall|j: int, k: int, i: int|
        0 <= j < bs.len() && 0 <= k < bs.len() && #[trigger] bs[j].contains(i) && #[trigger] bs[k].contains(i)
            ==> j == k
}

/// Appending the batch that starts where a tiling ends extends the tiling.
pub proof fn lemma_tiles_push(bs: Seq<Batch>, lo: int, hi: int, b: Batch)
    requires
        tiles(bs, lo, hi),
        b.start == hi,
        b.start < b.end,
    ensures
        tiles(bs.push(b), lo, b.end as int),
{
    assert(bs.push(b).drop_last() =~= bs);
}

/// The batches of a tiling lie inside it, in increasing order.
pub proof fn lemma_tiles_bounds(bs: Seq<Batch>, lo: int, hi: int)
    requires
        tiles(bs, lo, hi),
    ensures
        lo <= hi,
        forall|j: int| 0 <= j < bs.len() ==> lo <= #[trigger] bs[j].start < bs[j].end <= hi,
        forall|j: int, k: int| 0 <= j < k < bs.len() ==> #[trigger] bs[j].end <= #[trigger] bs[k].start,
    decreases bs.len(),
{
    if bs.len() > 0 {
        let b = bs.last();
        let rest = bs.drop_last();
        lemma_tiles_bounds(rest, lo, b.start as int);
        assert forall|j: int| 0 <= j < bs.len() implies lo <= #[trigger] bs[j].start < bs[j].end <= hi by {
            if j < rest.len() {
                assert(bs[j] == rest[j]);
            }
        }
        assert forall|j: int, k: int| 0 <= j < k < bs.len() implies #[trigger] bs[j].end
            <= #[trigger] bs[k].start by {
            assert(bs[j] == rest[j]);
            if k < rest.len() {
                assert(bs[k] == rest[k]);
            }
        }
    }
}

/// A tiling of `[lo, hi)` covers it exactly: no gap and no overlap.
pub proof fn lemma_tiles_cover(bs: Seq<Batch>, lo: int, hi: int)
    requires
        tiles(bs, lo, hi),
    ensures
        covers_exactly(bs, lo, hi),
    decreases bs.len(),
{
    lemma_tiles_bounds(bs, lo, hi);
    if bs.len() > 0 {
        let b = bs.last();
        let rest = bs.drop_last();
        let n = rest.len() as int;
        lemma_tiles_cover(rest, lo, b.start as int);
        assert forall|i: int| #[trigger] in_some(bs, i) <==> lo <= i < hi by {
            if lo <= i < hi {
                if i < b.start {
                    assert(in_some(rest, i));
                    let j = choose|j: int| 0 <= j < rest.len() && #[trigger] rest[j].contains(i);
                    assert(bs[j] == rest[j]);
                } else {
                    assert(bs[n].contains(i));
                }
            }
            if in_some(bs, i) {
                let j = choose|j: int| 0 <= j < bs.len() && #[trigger] bs[j].contains(i);
                assert(lo <= bs[j].start < bs[j].end <= hi);
            }
        }
        assert forall|j: int, k: int, i: int|
            0 <= j < bs.len() && 0 <= k < bs.len() && #[trigger] bs[j].contains(i) && #[trigger] bs[k].contains(i)
            implies j == k by {
            if j < n && k < n {
                assert(bs[j] == rest[j]);
                assert(bs[k] == rest[k]);
                assert(rest[j].contains(i) && rest[k].contains(i));
            } else if j < n {
                assert(bs[j].end <= bs[k].start);
            } else if k < n {
                assert(bs[k].end <= bs[j].start);
            }
        }
    }
}

/// Where a stage stands: `offset` units of `total` are done.
#[derive(Clone, Copy, Debug, PartialEq, Eq, Structural)]
pub struct Cursor {
    pub offset: u32,
    pub total: u32,
}

impl Cursor {
    pub open spec fn wf(&self) -> bool {
        self.offset <= self.total
    }

    /// A cursor at the start of a stage of `total` units.
    pub fn new(total: u32) -> (c: Cursor)
        ensures
            c == (Cursor { offset: 0, total }),
            c.wf(),
    {
        Cursor { offset: 0, total }
    }

    /// A cursor resumed at `offset`; an offset past the total is refused.
    pub fn resume(offset: u32, total: u32) -> (r: Result<Cursor, EngineError>)
        ensures
            offset <= total ==> r == Ok::<Cursor, EngineError>(Cursor { offset, total }),
            offset > total ==> r == Err::<Cursor, EngineError>(EngineError::OffsetPastTotal),
    {
        if offset <= total {
            Ok(Cursor { offset, total })
        } else {
            Err(EngineError::OffsetPastTotal)
        }
    }

    /// The next batch: `[offset, min(offset + limit, total))`. It is empty
    /// when the stage is already complete.
    pub fn plan(&self, limit: u32) -> (b: Batch)
        requires
            self.wf(),
        ensures
            b.start == self.offset,
            b.end == plan_end(self.offset as int, self.total as int, limit as int),
            b.start <= b.end <= self.total,
            b.len_spec() <= limit,
    {
        let end = if limit < self.total - self.offset {
            self.offset + limit
        } else {
            self.total
        };
        Batch { start: self.offset, end }
    }

    /// Moves the cursor past the batch just processed; returns whether the
    /// stage is complete.
    pub fn advance(&mut self, batch: Batch) -> (complete: bool)
        requires
            old(self).wf(),
            batch.start == old(self).offset,
            batch.start <= batch.end <= old(self).total,
        ensures
            *final(self) == (Cursor { offset: batch.end, total: old(self).total }),
            complete == (batch.end == old(self).total),
    {
        self.offset = batch.end;
        self.offset == self.total
    }

    pub fn is_complete(&self) -> (r: bool)
        ensures
            r == (self.offset >= self.total),
    {
        self.offset >= self.total
    }
}

} // verus!
