//! The dispatcher of a worker pool and the result table it fills.
//!
//! Points are generated into a table indexed from zero. The dispatcher sends
//! the unsent points, batch by batch, to the registered workers, taking the
//! workers in turn as a ring; workers report the escape-time count of each
//! point back, in any order, and the table marks each reported point done.
use vstd::prelude::*;
use crate::cursor::{Batch, plan_end, tiles, covers_exactly, lemma_tiles_push, lemma_tiles_cover};
use crate::grid::{FixedPoint, GridDesc, GridError, point_at, points_error, generate_points};

verus! {

/// The identity of a worker actor.
pub type ActorId = [u8; 32];

/// A point as sent to a worker: its global index and its coordinates.
#[derive(Clone, Copy, Debug, PartialEq, Eq, Structural)]
pub struct Point {
    pub index: u32,
    pub c_re: FixedPoint,
    pub c_im: FixedPoint,
}

/// One row of the result table: the point, its escape-time count, and
/// whether a worker has reported it.
#[derive(Clone, Copy, Debug, PartialEq, Eq, Structural)]
pub struct PointResult {
    pub c_re: FixedPoint,
    pub c_im: FixedPoint,
    pub iter: u32,
    pub checked: bool,
}

/// One batch handed to one worker.
#[derive(Clone, Copy, Debug)]
pub struct Assignment {
    pub worker: ActorId,
    pub batch: Batch,
}

/// What one dispatch round did: the batches it assigned, in order, the
/// iteration bound that goes with them to the workers, and whether the
/// dispatcher should schedule another round.
#[derive(Debug)]
pub struct CheckRound {
    pub assignments: Vec<Assignment>,
    pub max_iter: u32,
    pub reschedule: bool,
}

/// What one generation call did: how many points it added, and which
/// follow-up messages the manager should send itself.
#[derive(Clone, Copy, Debug, PartialEq, Eq, Structural)]
pub struct GenerationStep {
    pub generated: u32,
    pub continue_generation: bool,
    pub start_checking: bool,
}

/// Errors of the manager.
#[derive(Clone, Copy, Debug, PartialEq, Eq, Structural)]
pub enum ManagerError {
    /// Workers can only be registered before any batch is dispatched.
    RosterLocked,
    /// A batch size of zero was asked for.
    ZeroBatchSize,
    /// A report for an index that has not been generated.
    UnknownIndex,
    /// A report that contradicts an earlier report for the same index.
    ConflictingResult,
    /// The grid cannot be generated.
    Grid(GridError),
}

/// The abstract state of the manager. `batches[w]` counts the batches that
/// have gone to the worker in slot `w` since the last restart; `rounds` is
/// the number of full turns of the ring; `sent_log` lists every batch
/// dispatched since the last restart, in order.
pub struct ManagerView {
    pub checkers: Seq<ActorId>,
    pub results: Seq<PointResult>,
    pub points_sent: int,
    pub next_checker: int,
    pub rounds: nat,
    pub batches: Seq<nat>,
    pub sent_log: Seq<Batch>,
}

impl ManagerView {
    pub open spec fn wf(self) -> bool {
        &&& self.results.len() <= u32::MAX
        &&& 0 <= self.points_sent <= self.results.len()
        &&& self.batches.len() == self.checkers.len()
        &&& self.checkers.len() > 0 ==> 0 <= self.next_checker < self.checkers.len()
        &&& self.checkers.len() == 0 ==> self.next_checker == 0 && self.points_sent == 0
        &&& forall|w: int|
            0 <= w < self.batches.len() ==> #[trigger] self.batches[w] == self.rounds + if w
                < self.next_checker {
                1nat
            } else {
                0nat
            }
        &&& self.points_sent == 0 ==> self.rounds == 0 && self.next_checker == 0
        &&& tiles(self.sent_log, 0, self.points_sent)
    }
}

/// The slot that the `k`-th assignment of a round goes to, when the round
/// starts at slot `first` of a ring of `n` workers and `k < n`.
pub open spec fn ring_slot(first: int, k: int, n: int) -> int {
    if first + k < n {
        first + k
    } else {
        first + k - n
    }
}

/// Some assignment `j < k` of a round that starts at slot `first` went to
/// slot `w`.
#[verifier::opaque]
pub open spec fn ring_hit(first: int, k: int, n: int, w: int) -> bool {
    exists|j: int| 0 <= j < k && ring_slot(first, j, n) == w
}

/// `asg` is the sequence of batches that a round assigns from the state `o`
/// with batch size `bs`: contiguous from the first unsent point, each as
/// long as the batch size and the points left allow, to the workers of the
/// ring in turn.
#[verifier::opaque]
pub open spec fn round_assigned(o: ManagerView, bs: u32, asg: Seq<Assignment>) -> bool {
    forall|k: int|
        0 <= k < asg.len() ==> {
            let b = (#[trigger] asg[k]).batch;
            &&& b.start == if k == 0 {
                o.points_sent
            } else {
                asg[k - 1].batch.end as int
            }
            &&& b.end == plan_end(b.start as int, o.results.len() as int, bs as int)
            &&& b.start < b.end
            &&& asg[k].worker == o.checkers[ring_slot(o.next_checker, k, o.checkers.len() as int)]
        }
}

/// `round` is what one dispatch round from `o` to `f` returns: the batches
/// that follow the last sent point, one per worker of the ring, until all
/// have one or the points run out, and the per-worker counts that go with
/// them.
pub open spec fn round_done(
    o: ManagerView,
    f: ManagerView,
    max_iter: u32,
    batch_size: u32,
    continue_checking: bool,
    round: CheckRound,
) -> bool {
    let asg = round.assignments@;
    let n = o.checkers.len() as int;
    &&& f.checkers == o.checkers
    &&& f.results == o.results
    &&& asg.len() <= n
    &&& (asg.len() == n || f.points_sent == o.results.len())
    &&& (n > 0 && o.points_sent < o.results.len() ==> asg.len() > 0)
    &&& f.points_sent == if asg.len() == 0 {
        o.points_sent
    } else {
        asg.last().batch.end as int
    }
    &&& round_assigned(o, batch_size, asg)
    &&& forall|w: int|
        0 <= w < n ==> #[trigger] f.batches[w] == o.batches[w] + if ring_hit(o.next_checker, asg.len() as int, n, w) {
            1nat
        } else {
            0nat
        }
    &&& f.sent_log == o.sent_log + Seq::new(asg.len(), |k: int| asg[k].batch)
    &&& round.max_iter == max_iter
    &&& round.reschedule == (continue_checking && n > 0 && f.points_sent < f.results.len())
}

/// A batch can be assigned: there is a worker, an unsent point, and a
/// batch size above zero.
pub open spec fn can_send(v: ManagerView, batch_size: u32) -> bool {
    v.checkers.len() > 0 && v.points_sent < v.results.len() && batch_size > 0
}

/// What a dispatch message leads to.
#[derive(Debug)]
pub enum DispatchOutcome {
    /// The message was scheduled at another dispatch offset: nothing done.
    Stale,
    /// A round was dispatched; a further message, if any, carries `sent`.
    Round { round: CheckRound, sent: u32 },
}

proof fn lemma_ring_hit_step(first: int, k: int, n: int, w: int)
    requires
        0 <= first < n,
        0 <= k < n,
    ensures
        ring_hit(first, k + 1, n, w) == (ring_hit(first, k, n, w) || w == ring_slot(first, k, n)),
        ring_slot(first, k, n) == w ==> !ring_hit(first, k, n, w),
{
    reveal(ring_hit);
    if ring_hit(first, k + 1, n, w) && w != ring_slot(first, k, n) {
        let j = choose|j: int| 0 <= j < k + 1 && ring_slot(first, j, n) == w;
        assert(ring_hit(first, k, n, w));
    }
    if ring_slot(first, k, n) == w && ring_hit(first, k, n, w) {
        let j = choose|j: int| 0 <= j < k && ring_slot(first, j, n) == w;
    }
    if w == ring_slot(first, k, n) {
        assert(0 <= k < k + 1 && ring_slot(first, k, n) == w);
    }
}

proof fn lemma_round_assigned_push(o: ManagerView, bs: u32, asg: Seq<Assignment>, a: Assignment)
    requires
        round_assigned(o, bs, asg),
        a.batch.start == if asg.len() == 0 {
            o.points_sent
        } else {
            asg.last().batch.end as int
        },
        a.batch.end == plan_end(a.batch.start as int, o.results.len() as int, bs as int),
        a.batch.start < a.batch.end,
        a.worker == o.checkers[ring_slot(o.next_checker, asg.len() as int, o.checkers.len() as int)],
    ensures
        round_assigned(o, bs, asg.push(a)),
{
    reveal(round_assigned);
    let s = asg.push(a);
    assert forall|k: int| 0 <= k < s.len() implies {
        let b = (#[trigger] s[k]).batch;
        &&& b.start == if k == 0 {
            o.points_sent
        } else {
            s[k - 1].batch.end as int
        }
        &&& b.end == plan_end(b.start as int, o.results.len() as int, bs as int)
        &&& b.start < b.end
        &&& s[k].worker == o.checkers[ring_slot(o.next_checker, k, o.checkers.len() as int)]
    } by {
        if k < asg.len() {
            assert(s[k] == asg[k]);
            if k > 0 {
                assert(s[k - 1] == asg[k - 1]);
            }
        } else if k > 0 {
            assert(s[k - 1] == asg[k - 1]);
        }
    }
}

/// The result of reporting `iter` for `index`: an index that is not in the
/// table, or a count that differs from one reported before, is refused.
pub open spec fn report_model(results: Seq<PointResult>, index: int, iter: u32) -> Result<
    Seq<PointResult>,
    ManagerError,
> {
    if !(0 <= index < results.len()) {
        Err(ManagerError::UnknownIndex)
    } else if results[index].checked && results[index].iter != iter {
        Err(ManagerError::ConflictingResult)
    } else {
        Ok(
            results.update(
                index,
                PointResult { c_re: results[index].c_re, c_im: results[index].c_im, iter, checked: true },
            ),
        )
    }
}

/// Applies the reports in order, skipping each refused one: the table
/// after every accepted report, and the error of the first refused one, if
/// any.
pub open spec fn apply_reports(results: Seq<PointResult>, reports: Seq<(u32, u32)>) -> (
    Seq<PointResult>,
    Option<ManagerError>,
)
    decreases reports.len(),
{
    if reports.len() == 0 {
        (results, None)
    } else {
        let (r, e) = apply_reports(results, reports.drop_last());
        match report_model(r, reports.last().0 as int, reports.last().1) {
            Ok(r2) => (r2, e),
            Err(err) => (r, if e is Some { e } else { Some(err) }),
        }
    }
}

/// The `(index, count)` pairs of a report message, paired up as far as the
/// shorter list goes.
pub open spec fn zip_reports(indexes: Seq<u32>, iters: Seq<u32>) -> Seq<(u32, u32)> {
    let n = if indexes.len() <= iters.len() {
        indexes.len()
    } else {
        iters.len()
    };
    Seq::new(n, |k: int| (indexes[k], iters[k]))
}

/// The range of the table that a query for `[start, end)` returns.
pub open spec fn query_bounds(len: int, start: int, end: int) -> (int, int) {
    let e = if end < len {
        end
    } else {
        len
    };
    if start < e {
        (start, e)
    } else {
        (e, e)
    }
}

/// Some report names index `i`.
pub open spec fn is_reported(reports: Seq<(u32, u32)>, i: int) -> bool {
    exists|k: int| 0 <= k < reports.len() && #[trigger] reports[k].0 == i
}

/// Reports applied one message after another have the effect of the
/// concatenated reports applied at once.
pub proof fn lemma_apply_reports_concat(
    results: Seq<PointResult>,
    a: Seq<(u32, u32)>,
    b: Seq<(u32, u32)>,
)
    ensures
        apply_reports(results, a + b).0 == apply_reports(apply_reports(results, a).0, b).0,
        apply_reports(results, a + b).1 == if apply_reports(results, a).1 is Some {
            apply_reports(results, a).1
        } else {
            apply_reports(apply_reports(results, a).0, b).1
        },
    decreases b.len(),
{
    if b.len() == 0 {
        assert(a + b =~= a);
    } else {
        assert((a + b).drop_last() =~= a + b.drop_last());
        assert((a + b).last() == b.last());
        lemma_apply_reports_concat(results, a, b.drop_last());
    }
}

/// Accepted reports keep the table's length and coordinates, never unmark a
/// point, and leave each reported point marked with the count reported for
/// it.
pub proof fn lemma_apply_reports_effect(results: Seq<PointResult>, reports: Seq<(u32, u32)>)
    requires
        apply_reports(results, reports).1 is None,
    ensures
        apply_reports(results, reports).0.len() == results.len(),
        forall|i: int|
            0 <= i < results.len() ==> {
                let r = #[trigger] apply_reports(results, reports).0[i];
                &&& r.c_re == results[i].c_re
                &&& r.c_im == results[i].c_im
                &&& results[i].checked ==> r.checked && r.iter == results[i].iter
            },
        forall|k: int|
            0 <= k < reports.len() ==> {
                let r = apply_reports(results, reports).0[(#[trigger] reports[k]).0 as int];
                &&& 0 <= reports[k].0 < results.len()
                &&& r.checked
                &&& r.iter == reports[k].1
            },
    decreases reports.len(),
{
    if reports.len() > 0 {
        let prev = reports.drop_last();
        lemma_apply_reports_effect(results, prev);
        let r = apply_reports(results, prev).0;
        let last = reports.last();
        assert forall|k: int| 0 <= k < reports.len() implies {
            let x = apply_reports(results, reports).0[(#[trigger] reports[k]).0 as int];
            &&& 0 <= reports[k].0 < results.len()
            &&& x.checked
            &&& x.iter == reports[k].1
        } by {
            if k < prev.len() {
                assert(reports[k] == prev[k]);
            }
        }
    }
}

/// Once the reports cover every point of the table and none is refused,
/// every point is marked done and holds the count that its reports gave.
/// A query of the whole table then returns exactly these rows.
pub proof fn lemma_aggregation_complete(results: Seq<PointResult>, reports: Seq<(u32, u32)>)
    requires
        apply_reports(results, reports).1 is None,
        forall|i: int| 0 <= i < results.len() ==> #[trigger] is_reported(reports, i),
    ensures
        forall|i: int| 0 <= i < results.len() ==> (#[trigger] apply_reports(results, reports).0[i]).checked,
        forall|k: int|
            0 <= k < reports.len() ==> apply_reports(results, reports).0[(#[trigger] reports[k]).0 as int].iter
                == reports[k].1,
{
    lemma_apply_reports_effect(results, reports);
    assert forall|i: int| 0 <= i < results.len() implies (#[trigger] apply_reports(
        results,
        reports,
    ).0[i]).checked by {
        assert(is_reported(reports, i));
        let k = choose|k: int| 0 <= k < reports.len() && #[trigger] reports[k].0 == i;
        assert(apply_reports(results, reports).0[reports[k].0 as int].checked);
    }
}

/// Dispatch is fair: any two workers have received numbers of batches that
/// differ by at most one.
pub proof fn lemma_dispatch_fair(v: ManagerView)
    requires
        v.wf(),
    ensures
        forall|i: int, j: int|
            0 <= i < v.batches.len() && 0 <= j < v.batches.len() ==> #[trigger] v.batches[i]
                <= #[trigger] v.batches[j] + 1,
{
}

/// Dispatch sends every point once: the batches dispatched since the last
/// restart cover `[0, points_sent)` without gap or overlap, so once every
/// point is sent they cover the whole table exactly.
pub proof fn lemma_dispatch_coverage(v: ManagerView)
    requires
        v.wf(),
    ensures
        covers_exactly(v.sent_log, 0, v.points_sent),
        v.points_sent == v.results.len() ==> covers_exactly(v.sent_log, 0, v.results.len() as int),
{
    lemma_tiles_cover(v.sent_log, 0, v.points_sent);
}

/// The manager actor's state: the worker roster, the result table and the
/// dispatch progress.
pub struct ManagerService {
    checkers: Vec<ActorId>,
    point_results: Vec<PointResult>,
    points_sent: u32,
    next_checker: usize,
    rounds: Ghost<nat>,
    batches: Ghost<Seq<nat>>,
    sent_log: Ghost<Seq<Batch>>,
}

impl View for ManagerService {
    type V = ManagerView;

    closed spec fn view(&self) -> ManagerView {
        ManagerView {
            checkers: self.checkers@,
            results: self.point_results@,
            points_sent: self.points_sent as int,
            next_checker: self.next_checker as int,
            rounds: self.rounds@,
            batches: self.batches@,
            sent_log: self.sent_log@,
        }
    }
}

impl ManagerService {
    /// An empty manager: no workers, no points.
    pub fn new() -> (r: ManagerService)
        ensures
            r@.wf(),
            r@.checkers.len() == 0,
            r@.results.len() == 0,
            r@.points_sent == 0,
    {
        ManagerService {
            checkers: Vec::new(),
            point_results: Vec::new(),
            points_sent: 0,
            next_checker: 0,
            rounds: Ghost(0),
            batches: Ghost(Seq::empty()),
            sent_log: Ghost(Seq::empty()),
        }
    }

    /// Appends workers to the roster. The roster is fixed once a batch has
    /// been dispatched: until the next restart, further workers are refused.
    pub fn add_checkers(&mut self, checkers: Vec<ActorId>) -> (r: Result<(), ManagerError>)
        requires
            old(self)@.wf(),
        ensures
            final(self)@.wf(),
            old(self)@.points_sent == 0 <==> r is Ok,
            r is Ok ==> final(self)@ == (ManagerView {
                checkers: old(self)@.checkers + checkers@,
                batches: old(self)@.batches + Seq::new(checkers@.len(), |i: int| 0nat),
                ..old(self)@
            }),
            r is Err ==> r == Err::<(), ManagerError>(ManagerError::RosterLocked) && final(self)@
                == old(self)@,
    {
        if self.points_sent > 0 {
            return Err(ManagerError::RosterLocked);
        }
        let mut more = checkers;
        proof {
            self.batches@ = self.batches@ + Seq::new(more@.len(), |i: int| 0nat);
        }
        self.checkers.append(&mut more);
        Ok(())
    }

    /// Forgets every point and all dispatch progress; the roster stays.
    pub fn restart(&mut self)
        requires
            old(self)@.wf(),
        ensures
            final(self)@.wf(),
            final(self)@ == (ManagerView {
                checkers: old(self)@.checkers,
                results: Seq::empty(),
                points_sent: 0,
                next_checker: 0,
                rounds: 0,
                batches: Seq::new(old(self)@.checkers.len(), |i: int| 0nat),
                sent_log: Seq::empty(),
            }),
    {
        self.point_results = Vec::new();
        self.points_sent = 0;
        self.next_checker = 0;
        proof {
            self.rounds@ = 0;
            self.batches@ = Seq::new(self.checkers@.len(), |i: int| 0nat);
            self.sent_log@ = Seq::empty();
        }
    }

    /// Generates the next points of the grid into the table: as many as
    /// `points_per_call` allows, up to `width * height` in all. Each new row
    /// starts unreported. Says whether the manager should send itself
    /// another generation call (`continue_generation` set and points left)
    /// and whether it should start dispatching (`check_points_after_generation`
    /// set and the grid complete). A complete grid is left as it is.
    pub fn generate_and_store_points(
        &mut self,
        grid: GridDesc,
        points_per_call: u32,
        continue_generation: bool,
        check_points_after_generation: bool,
    ) -> (r: Result<GenerationStep, ManagerError>)
        requires
            old(self)@.wf(),
        ensures
            final(self)@.wf(),
            ({
                let o = old(self)@;
                let f = final(self)@;
                let n = o.results.len() as int;
                let total = grid.total();
                let count = if points_per_call < total - n {
                    points_per_call as int
                } else {
                    total - n
                };
                if total > u32::MAX {
                    r == Err::<GenerationStep, ManagerError>(ManagerError::Grid(GridError::TooManyPoints))
                        && f == o
                } else if n >= total {
                    r == Ok::<GenerationStep, ManagerError>(
                        GenerationStep { generated: 0, continue_generation: false, start_checking: false },
                    ) && f == o
                } else if points_error(grid, n, count) is Some {
                    r == Err::<GenerationStep, ManagerError>(
                        ManagerError::Grid(points_error(grid, n, count)->Some_0),
                    ) && f == o
                } else {
                    &&& r == Ok::<GenerationStep, ManagerError>(
                        GenerationStep {
                            generated: count as u32,
                            continue_generation: continue_generation && n + count < total,
                            start_checking: check_points_after_generation && n + count >= total,
                        },
                    )
                    &&& f == (ManagerView { results: f.results, ..o })
                    &&& f.results.len() == n + count
                    &&& f.results.subrange(0, n) == o.results
                    &&& forall|k: int|
                        0 <= k < count ==> #[trigger] f.results[n + k] == (PointResult {
                            c_re: point_at(grid, n + k)->Some_0.0,
                            c_im: point_at(grid, n + k)->Some_0.1,
                            iter: 0,
                            checked: false,
                        })
                }
            }),
    {
        let w = grid.width;
        let h = grid.height;
        proof {
            assert(0 <= (w as int) * (h as int) <= 0xffff_ffff * 0xffff_ffff) by (nonlinear_arith)
                requires
                    w <= 0xffff_ffff,
                    h <= 0xffff_ffff,
            ;
        }
        let total64 = w as u64 * h as u64;
        if total64 > 0xffff_ffff {
            return Err(ManagerError::Grid(GridError::TooManyPoints));
        }
        let total = total64 as u32;
        let n = self.point_results.len() as u32;
        if n >= total {
            return Ok(GenerationStep { generated: 0, continue_generation: false, start_checking: false });
        }
        let count = if points_per_call < total - n {
            points_per_call
        } else {
            total - n
        };
        let points = match generate_points(grid, n, count) {
            Ok(p) => p,
            Err(e) => {
                return Err(ManagerError::Grid(e));
            },
        };
        let ghost o = self@;
        let mut k: usize = 0;
        while k < points.len()
            invariant
                k <= points.len(),
                points@.len() == count,
                n + count <= total <= u32::MAX,
                n == o.results.len(),
                o.wf(),
                self@ == (ManagerView { results: self@.results, ..o }),
                self@.results.len() == n + k,
                self@.results.subrange(0, n as int) == o.results,
                forall|j: int|
                    0 <= j < k ==> #[trigger] self@.results[n + j] == (PointResult {
                        c_re: points@[j].0,
                        c_im: points@[j].1,
                        iter: 0,
                        checked: false,
                    }),
            decreases points.len() - k,
        {
            let (c_re, c_im) = points[k];
            self.point_results.push(PointResult { c_re, c_im, iter: 0, checked: false });
            proof {
                assert(self@.results.subrange(0, n as int) =~= o.results);
                assert forall|j: int| 0 <= j < k + 1 implies #[trigger] self@.results[n + j] == (PointResult {
                    c_re: points@[j].0,
                    c_im: points@[j].1,
                    iter: 0,
                    checked: false,
                }) by {}
            }
            k = k + 1;
        }
        Ok(GenerationStep {
            generated: count,
            continue_generation: continue_generation && n + count < total,
            start_checking: check_points_after_generation && n + count >= total,
        })
    }

    /// Assigns the next unsent batch, `[sent, min(sent + batch_size, total))`,
    /// to the next worker of the ring. Without a worker, without an unsent
    /// point, or with a batch size of zero, the batch would be empty: nothing
    /// is assigned and nothing changes.
    pub fn send_next_batch(&mut self, batch_size: u32) -> (r: Option<Assignment>)
        requires
            old(self)@.wf(),
        ensures
            final(self)@.wf(),
            !can_send(old(self)@, batch_size) ==> r is None && final(self)@ == old(self)@,
            can_send(old(self)@, batch_size) ==> (r matches Some(a) && {
                let o = old(self)@;
                let f = final(self)@;
                &&& a.worker == o.checkers[o.next_checker]
                &&& a.batch.start == o.points_sent
                &&& a.batch.end == plan_end(o.points_sent, o.results.len() as int, batch_size as int)
                &&& a.batch.start < a.batch.end
                &&& f.points_sent == a.batch.end
                &&& f.next_checker == ring_slot(o.next_checker, 1, o.checkers.len() as int)
                &&& f.batches == o.batches.update(o.next_checker, o.batches[o.next_checker] + 1)
                &&& f.sent_log == o.sent_log.push(a.batch)
                &&& f.checkers == o.checkers
                &&& f.results == o.results
            }),
    {
        if self.checkers.len() == 0 || (self.points_sent as usize) >= self.point_results.len()
            || batch_size == 0 {
            return None;
        }
        let len = self.point_results.len() as u32;
        let start = self.points_sent;
        let end = if batch_size < len - start {
            start + batch_size
        } else {
            len
        };
        let worker = self.checkers[self.next_checker];
        let slot = self.next_checker;
        let batch = Batch { start, end };
        proof {
            self.batches@ = self.batches@.update(slot as int, self.batches@[slot as int] + 1);
            lemma_tiles_push(self.sent_log@, 0, start as int, batch);
            self.sent_log@ = self.sent_log@.push(batch);
        }
        self.points_sent = end;
        if self.next_checker < self.checkers.len() - 1 {
            self.next_checker = self.next_checker + 1;
        } else {
            self.next_checker = 0;
            proof {
                self.rounds@ = self.rounds@ + 1;
            }
        }
        Some(Assignment { worker, batch })
    }

    /// One dispatch round: the next unsent batches, one per worker, in ring
    /// order, until every worker has one or no point is left unsent. Asks
    /// for another round while points remain unsent, `continue_checking` is
    /// set and there is a worker. Without workers, or with nothing unsent,
    /// the round is a no-op: nothing is assigned and no round follows.
    /// `max_iter` is handed back with the batches, for the workers. The
    /// description of the assignments, `round_assigned`, is opaque: reveal
    /// it to reason about single batches.
    pub fn check_points_set(&mut self, max_iter: u32, batch_size: u32, continue_checking: bool) -> (r:
        Result<CheckRound, ManagerError>)
        requires
            old(self)@.wf(),
        ensures
            final(self)@.wf(),
            batch_size == 0 <==> r is Err,
            r is Err ==> r == Err::<CheckRound, ManagerError>(ManagerError::ZeroBatchSize)
                && final(self)@ == old(self)@,
            r matches Ok(round) ==> round_done(old(self)@, final(self)@, max_iter, batch_size, continue_checking, round),
    {
        if batch_size == 0 {
            return Err(ManagerError::ZeroBatchSize);
        }
        let ghost o = self@;
        let ghost n = o.checkers.len() as int;
        let mut assignments: Vec<Assignment> = Vec::new();
        let count = self.checkers.len();
        let mut k: usize = 0;
        proof {
            assert(round_assigned(o, batch_size, assignments@)) by {
                reveal(round_assigned);
            }
            assert forall|w: int| !ring_hit(o.next_checker, 0, n, w) by {
                reveal(ring_hit);
            }
        }
        while k < count && (self.points_sent as usize) < self.point_results.len()
            invariant
                self@.wf(),
                o.wf(),
                n == o.checkers.len(),
                count == n,
                k <= count,
                assignments@.len() == k,
                self@.checkers == o.checkers,
                self@.results == o.results,
                batch_size > 0,
                n > 0 ==> self@.next_checker == ring_slot(o.next_checker, k as int, n),
                self@.points_sent == if k == 0 {
                    o.points_sent
                } else {
                    assignments@.last().batch.end as int
                },
                round_assigned(o, batch_size, assignments@),
                self@.sent_log == o.sent_log + Seq::new(k as nat, |j: int| assignments@[j].batch),
                forall|w: int|
                    0 <= w < n ==> #[trigger] self@.batches[w] == o.batches[w] + if ring_hit(
                        o.next_checker,
                        k as int,
                        n,
                        w,
                    ) {
                        1nat
                    } else {
                        0nat
                    },
            decreases count - k,
        {
            let ghost prev = assignments@;
            let a = match self.send_next_batch(batch_size) {
                Some(a) => a,
                None => {
                    return Ok(CheckRound { assignments, max_iter, reschedule: false });
                },
            };
            assignments.push(a);
            proof {
                assert forall|w: int| 0 <= w < n implies #[trigger] self@.batches[w] == o.batches[w]
                    + if ring_hit(o.next_checker, k + 1, n, w) {
                    1nat
                } else {
                    0nat
                } by {
                    lemma_ring_hit_step(o.next_checker, k as int, n, w);
                }
                assert(assignments@.drop_last() =~= prev);
                lemma_round_assigned_push(o, batch_size, prev, a);
                assert(self@.sent_log =~= o.sent_log + Seq::new((k + 1) as nat, |j: int| assignments@[j].batch));
            }
            k = k + 1;
        }
        let reschedule = continue_checking && count > 0 && (self.points_sent as usize)
            < self.point_results.len();
        Ok(CheckRound { assignments, max_iter, reschedule })
    }

    /// A dispatch message scheduled when `sent` points had been dispatched.
    /// If points were dispatched since, the message is stale and changes
    /// nothing; otherwise it runs one round as `check_points_set` does and
    /// returns the offset that a further message should carry.
    pub fn dispatch_round(&mut self, sent: u32, max_iter: u32, batch_size: u32, continue_checking: bool) -> (r:
        Result<DispatchOutcome, ManagerError>)
        requires
            old(self)@.wf(),
        ensures
            final(self)@.wf(),
            sent != old(self)@.points_sent ==> (r matches Ok(DispatchOutcome::Stale) && final(self)@
                == old(self)@),
            sent == old(self)@.points_sent && batch_size == 0 ==> (r matches Err(
                ManagerError::ZeroBatchSize,
            ) && final(self)@ == old(self)@),
            sent == old(self)@.points_sent && batch_size > 0 ==> (r matches Ok(
                DispatchOutcome::Round { round, sent: next },
            ) && round_done(old(self)@, final(self)@, max_iter, batch_size, continue_checking, round) && next
                == final(self)@.points_sent),
    {
        if sent != self.points_sent {
            return Ok(DispatchOutcome::Stale);
        }
        match self.check_points_set(max_iter, batch_size, continue_checking) {
            Ok(round) => Ok(DispatchOutcome::Round { round, sent: self.points_sent }),
            Err(e) => Err(e),
        }
    }

    /// Records the counts that a worker reported: `results[k]` for the point
    /// `indexes[k]`, as far as both lists go. Reports are applied in order.
    /// One for an unknown index, or one that contradicts an earlier report,
    /// is skipped and leaves its row as it was; the others are all applied,
    /// and the first refused one is returned as the error.
    pub fn result_calculated(&mut self, indexes: Vec<u32>, results: Vec<u32>) -> (r: Result<
        (),
        ManagerError,
    >)
        requires
            old(self)@.wf(),
        ensures
            final(self)@.wf(),
            final(self)@.results == apply_reports(old(self)@.results, zip_reports(indexes@, results@)).0,
            r == match apply_reports(old(self)@.results, zip_reports(indexes@, results@)).1 {
                None => Ok::<(), ManagerError>(()),
                Some(e) => Err(e),
            },
            final(self)@ == (ManagerView { results: final(self)@.results, ..old(self)@ }),
    {
        let ghost pairs = zip_reports(indexes@, results@);
        let n = if indexes.len() <= results.len() {
            indexes.len()
        } else {
            results.len()
        };
        let mut k: usize = 0;
        let mut first_error: Option<ManagerError> = None;
        while k < n
            invariant
                self@.wf(),
                n == pairs.len(),
                n <= indexes.len(),
                n <= results.len(),
                pairs == zip_reports(indexes@, results@),
                k <= n,
                apply_reports(old(self)@.results, pairs.take(k as int)) == (self@.results, first_error),
                self@ == (ManagerView { results: self@.results, ..old(self)@ }),
            decreases n - k,
        {
            let index = indexes[k];
            let iter = results[k];
            proof {
                assert(pairs.take(k + 1).drop_last() =~= pairs.take(k as int));
                assert(pairs.take(k + 1).last() == (index, iter));
            }
            if index as usize >= self.point_results.len() {
                if first_error.is_none() {
                    first_error = Some(ManagerError::UnknownIndex);
                }
            } else {
                let row = self.point_results[index as usize];
                if row.checked && row.iter != iter {
                    if first_error.is_none() {
                        first_error = Some(ManagerError::ConflictingResult);
                    }
                } else {
                    self.point_results.set(
                        index as usize,
                        PointResult { c_re: row.c_re, c_im: row.c_im, iter, checked: true },
                    );
                }
            }
            k = k + 1;
        }
        proof {
            assert(pairs.take(n as int) =~= pairs);
        }
        match first_error {
            None => Ok(()),
            Some(e) => Err(e),
        }
    }

    /// The rows `[start, min(end, len))` of the result table, in index
    /// order; empty when the range holds no generated point.
    pub fn get_results(&self, start_index: u32, end_index: u32) -> (r: Vec<PointResult>)
        requires
            self@.wf(),
        ensures
            r@ == self@.results.subrange(
                query_bounds(self@.results.len() as int, start_index as int, end_index as int).0,
                query_bounds(self@.results.len() as int, start_index as int, end_index as int).1,
            ),
    {
        let len = self.point_results.len();
        let e: usize = if (end_index as usize) < len {
            end_index as usize
        } else {
            len
        };
        let s: usize = if (start_index as usize) < e {
            start_index as usize
        } else {
            e
        };
        let mut out: Vec<PointResult> = Vec::new();
        let mut i: usize = s;
        while i < e
            invariant
                s <= i <= e,
                e <= self.point_results.len(),
                out@ == self.point_results@.subrange(s as int, i as int),
            decreases e - i,
        {
            out.push(self.point_results[i]);
            proof {
                assert(out@ =~= self.point_results@.subrange(s as int, i + 1));
            }
            i = i + 1;
        }
        out
    }

    /// The points of `batch` as they are sent to a worker.
    pub fn batch_points(&self, batch: Batch) -> (r: Vec<Point>)
        requires
            self@.wf(),
            batch.start <= batch.end <= self@.results.len(),
        ensures
            r@.len() == batch.end - batch.start,
            forall|k: int|
                0 <= k < r@.len() ==> #[trigger] r@[k] == (Point {
                    index: (batch.start + k) as u32,
                    c_re: self@.results[batch.start + k].c_re,
                    c_im: self@.results[batch.start + k].c_im,
                }),
    {
        let mut out: Vec<Point> = Vec::new();
        let mut i: u32 = batch.start;
        while i < batch.end
            invariant
                batch.start <= i <= batch.end,
                batch.end <= self.point_results@.len(),
                out@.len() == i - batch.start,
                forall|k: int|
                    0 <= k < out@.len() ==> #[trigger] out@[k] == (Point {
                        index: (batch.start + k) as u32,
                        c_re: self.point_results@[batch.start + k].c_re,
                        c_im: self.point_results@[batch.start + k].c_im,
                    }),
            decreases batch.end - i,
        {
            let row = self.point_results[i as usize];
            out.push(Point { index: i, c_re: row.c_re, c_im: row.c_im });
            i = i + 1;
        }
        out
    }

    /// Number of points generated so far.
    pub fn get_points_len(&self) -> (r: u32)
        requires
            self@.wf(),
        ensures
            r == self@.results.len(),
    {
        self.point_results.len() as u32
    }

    /// The worker roster.
    pub fn get_checkers(&self) -> (r: Vec<ActorId>)
        ensures
            r@ == self@.checkers,
    {
        let mut out: Vec<ActorId> = Vec::new();
        let mut i: usize = 0;
        while i < self.checkers.len()
            invariant
                i <= self.checkers.len(),
                out@ == self.checkers@.subrange(0, i as int),
            decreases self.checkers.len() - i,
        {
            out.push(self.checkers[i]);
            proof {
                assert(out@ =~= self.checkers@.subrange(0, i + 1));
            }
            i = i + 1;
        }
        proof {
            assert(out@ =~= self.checkers@);
        }
        out
    }

    /// Number of points already dispatched to workers.
    pub fn points_sent(&self) -> (r: u32)
        ensures
            r == self@.points_sent,
    {
        self.points_sent
    }
}

} // verus!
