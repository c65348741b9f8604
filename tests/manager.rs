use batch_engine::cursor::Batch;
use batch_engine::grid::{generate_points, Dec, FixedPoint, GridDesc, GridError};
use batch_engine::manager::{ActorId, DispatchOutcome, GenerationStep, ManagerError, ManagerService, Point};
use rust_decimal::Decimal;

fn worker(n: u8) -> ActorId {
    [n; 32]
}

fn fp(num: i64, scale: u32) -> FixedPoint {
    FixedPoint { num, scale }
}

fn value(f: FixedPoint) -> Decimal {
    Decimal::new(f.num, f.scale)
}

/// A `width x height` grid over [-2.0, 1.0] x [-1.5, 1.5].
fn grid(width: u32, height: u32) -> GridDesc {
    GridDesc { width, height, x_min: fp(-20, 1), x_max: fp(10, 1), y_min: fp(-15, 1), y_max: fp(15, 1) }
}

fn manager_with_points(width: u32, height: u32, workers: u8) -> ManagerService {
    let mut m = ManagerService::new();
    m.add_checkers((1..=workers).map(worker).collect()).unwrap();
    let step = m.generate_and_store_points(grid(width, height), width * height, false, true).unwrap();
    assert_eq!(step.generated, width * height);
    m
}

#[test]
fn single_worker_scenario() {
    let mut m = manager_with_points(10, 10, 1);
    let mut batches = Vec::new();
    loop {
        let round = m.check_points_set(1000, 20, true).unwrap();
        assert_eq!(round.assignments.len(), 1);
        assert_eq!(round.assignments[0].worker, worker(1));
        batches.push(round.assignments[0].batch);
        if !round.reschedule {
            break;
        }
    }
    assert_eq!(
        batches,
        vec![
            Batch { start: 0, end: 20 },
            Batch { start: 20, end: 40 },
            Batch { start: 40, end: 60 },
            Batch { start: 60, end: 80 },
            Batch { start: 80, end: 100 },
        ]
    );
    assert_eq!(m.points_sent(), 100);
    let partial = m.get_results(0, 100);
    assert!(partial.iter().all(|r| !r.checked));
    for b in batches.iter() {
        let indexes: Vec<u32> = (b.start..b.end).collect();
        let counts: Vec<u32> = (b.start..b.end).map(|i| i % 7).collect();
        m.result_calculated(indexes, counts).unwrap();
    }
    let results = m.get_results(0, 100);
    assert_eq!(results.len(), 100);
    for (i, r) in results.iter().enumerate() {
        assert!(r.checked);
        assert_eq!(r.iter, i as u32 % 7);
    }
}

#[test]
fn dispatch_is_fair_across_rounds() {
    let mut m = manager_with_points(10, 10, 3);
    let mut per_worker = [0u32; 3];
    let mut rounds = 0;
    loop {
        let round = m.check_points_set(1000, 7, true).unwrap();
        rounds += 1;
        for a in round.assignments.iter() {
            per_worker[(a.worker[0] - 1) as usize] += 1;
            assert!(a.batch.end - a.batch.start <= 7);
        }
        if !round.reschedule {
            break;
        }
    }
    // 100 points in batches of 7 make 15 batches: five rounds of three
    assert_eq!(rounds, 5);
    assert_eq!(m.points_sent(), 100);
    assert_eq!(per_worker, [5, 5, 5]);
}

#[test]
fn dispatch_continues_the_ring() {
    let mut m = manager_with_points(4, 4, 3);
    // 16 points in batches of 5: 5, 5, 5, 1
    let first = m.check_points_set(1000, 5, false).unwrap();
    let starts: Vec<u32> = first.assignments.iter().map(|a| a.batch.start).collect();
    assert_eq!(starts, vec![0, 5, 10]);
    assert!(!first.reschedule);
    let second = m.check_points_set(1000, 5, true).unwrap();
    assert_eq!(second.assignments.len(), 1);
    assert_eq!(second.assignments[0].worker, worker(1));
    assert_eq!(second.assignments[0].batch, Batch { start: 15, end: 16 });
    assert!(!second.reschedule);
    // nothing left: a further round is a no-op
    let third = m.check_points_set(1000, 5, true).unwrap();
    assert!(third.assignments.is_empty());
    assert_eq!(m.points_sent(), 16);
}

#[test]
fn unequal_batches_stay_fair() {
    let mut m = manager_with_points(10, 10, 4);
    let mut per_worker = [0u32; 4];
    loop {
        let round = m.check_points_set(1, 30, true).unwrap();
        for a in round.assignments.iter() {
            per_worker[(a.worker[0] - 1) as usize] += 1;
        }
        if !round.reschedule {
            break;
        }
    }
    // 100 points in batches of 30: 30, 30, 30, 10
    assert_eq!(per_worker, [1, 1, 1, 1]);
    assert_eq!(m.points_sent(), 100);
}

#[test]
fn dispatch_without_workers_or_points_is_a_no_op() {
    let mut m = ManagerService::new();
    let round = m.check_points_set(10, 5, true).unwrap();
    assert!(round.assignments.is_empty());
    assert!(!round.reschedule);
    let mut m = ManagerService::new();
    m.add_checkers(vec![worker(1)]).unwrap();
    let round = m.check_points_set(10, 5, true).unwrap();
    assert!(round.assignments.is_empty());
    assert_eq!(m.points_sent(), 0);
}

#[test]
fn zero_batch_size_is_refused() {
    let mut m = manager_with_points(2, 2, 1);
    assert!(matches!(m.check_points_set(10, 0, true), Err(ManagerError::ZeroBatchSize)));
    assert_eq!(m.points_sent(), 0);
}

#[test]
fn roster_is_locked_after_dispatch() {
    let mut m = manager_with_points(2, 2, 1);
    m.check_points_set(10, 1, false).unwrap();
    assert_eq!(m.add_checkers(vec![worker(9)]), Err(ManagerError::RosterLocked));
    assert_eq!(m.get_checkers(), vec![worker(1)]);
    m.restart();
    assert_eq!(m.get_points_len(), 0);
    assert_eq!(m.points_sent(), 0);
    assert_eq!(m.add_checkers(vec![worker(9)]), Ok(()));
    assert_eq!(m.get_checkers(), vec![worker(1), worker(9)]);
}

#[test]
fn conflicting_report_is_refused() {
    let mut m = manager_with_points(2, 2, 1);
    m.result_calculated(vec![0, 1], vec![5, 6]).unwrap();
    // the same value again is accepted
    assert_eq!(m.result_calculated(vec![1], vec![6]), Ok(()));
    // a different one is not; the reports around it still count
    assert_eq!(
        m.result_calculated(vec![2, 0, 3], vec![8, 9, 10]),
        Err(ManagerError::ConflictingResult)
    );
    let rows = m.get_results(0, 4);
    assert_eq!(rows[0].iter, 5);
    assert!(rows[2].checked);
    assert_eq!(rows[2].iter, 8);
    assert!(rows[3].checked);
    assert_eq!(rows[3].iter, 10);
}

#[test]
fn report_for_unknown_index_is_refused() {
    let mut m = manager_with_points(2, 2, 1);
    assert_eq!(m.result_calculated(vec![4], vec![1]), Err(ManagerError::UnknownIndex));
    assert!(m.get_results(0, 4).iter().all(|r| !r.checked));
    // the first refused report is the one returned; the valid ones apply
    assert_eq!(
        m.result_calculated(vec![9, 1, 2], vec![1, 2, 3]),
        Err(ManagerError::UnknownIndex)
    );
    let rows = m.get_results(0, 4);
    assert!(!rows[0].checked);
    assert_eq!((rows[1].checked, rows[1].iter), (true, 2));
    assert_eq!((rows[2].checked, rows[2].iter), (true, 3));
}

#[test]
fn reports_pair_up_to_the_shorter_list() {
    let mut m = manager_with_points(2, 2, 1);
    m.result_calculated(vec![0, 1, 2], vec![3]).unwrap();
    let rows = m.get_results(0, 4);
    assert!(rows[0].checked);
    assert!(!rows[1].checked);
}

#[test]
fn query_clips_to_the_table() {
    let m = manager_with_points(3, 3, 1);
    assert_eq!(m.get_results(5, 100).len(), 4);
    assert!(m.get_results(9, 20).is_empty());
    assert!(m.get_results(6, 2).is_empty());
    let rows = m.get_results(2, 3);
    assert_eq!(rows.len(), 1);
}

#[test]
fn generation_in_chunks() {
    let mut m = ManagerService::new();
    let g = grid(10, 10);
    let s1 = m.generate_and_store_points(g, 40, true, true).unwrap();
    assert_eq!(s1, GenerationStep { generated: 40, continue_generation: true, start_checking: false });
    let s2 = m.generate_and_store_points(g, 40, true, true).unwrap();
    assert_eq!(s2.generated, 40);
    let s3 = m.generate_and_store_points(g, 40, true, true).unwrap();
    assert_eq!(s3, GenerationStep { generated: 20, continue_generation: false, start_checking: true });
    let s4 = m.generate_and_store_points(g, 40, true, true).unwrap();
    assert_eq!(s4, GenerationStep { generated: 0, continue_generation: false, start_checking: false });
    assert_eq!(m.get_points_len(), 100);
}

#[test]
fn generated_coordinates() {
    let m = manager_with_points(10, 10, 1);
    let rows = m.get_results(0, 100);
    // step 0.3 along both axes; index 15 is (15 / height, 15 % height) = (1, 5)
    assert_eq!(value(rows[15].c_re), Decimal::new(-17, 1));
    assert_eq!(value(rows[15].c_im), Decimal::new(0, 0));
    assert_eq!(value(rows[0].c_re), Decimal::new(-20, 1));
    assert_eq!(value(rows[99].c_re), Decimal::new(7, 1));
    assert_eq!(value(rows[99].c_im), Decimal::new(12, 1));
    let pts = m.batch_points(Batch { start: 14, end: 16 });
    assert_eq!(pts.len(), 2);
    assert_eq!(pts[1], Point { index: 15, c_re: rows[15].c_re, c_im: rows[15].c_im });
}

#[test]
fn generate_points_directly() {
    let pts = generate_points(grid(600, 600), 0, 3).unwrap();
    // step 3.0 / 600 = 0.005 on the second axis
    assert_eq!(value(pts[0].1), Decimal::new(-15, 1));
    assert_eq!(value(pts[2].1), Decimal::new(-1490, 3));
    assert_eq!(value(pts[2].0), Decimal::new(-2, 0));
}

#[test]
fn grid_errors() {
    let mut bad = grid(10, 10);
    bad.x_max = fp(1, 29);
    assert_eq!(generate_points(bad, 0, 1), Err(GridError::ScaleTooLarge));
    assert_eq!(generate_points(grid(0, 10), 0, 1), Err(GridError::EmptyGrid));
    assert_eq!(generate_points(grid(3, 10), 0, 0), Ok(vec![]));
    // a step of 1/3 has too many digits for a 64-bit mantissa
    let mut m = ManagerService::new();
    assert_eq!(
        m.generate_and_store_points(grid(9, 9), 5, false, false),
        Err(ManagerError::Grid(GridError::Overflow))
    );
    assert_eq!(m.get_points_len(), 0);
    assert_eq!(
        m.generate_and_store_points(grid(70000, 70000), 5, false, false),
        Err(ManagerError::Grid(GridError::TooManyPoints))
    );
    let none = m.generate_and_store_points(grid(0, 5), 5, true, true).unwrap();
    assert_eq!(none.generated, 0);
}

#[test]
fn fixed_point_conversions() {
    assert_eq!(FixedPoint::from_decimal(Dec { mantissa: -17, scale: 1 }), Some(fp(-17, 1)));
    assert_eq!(FixedPoint::from_decimal(Dec { mantissa: 1i128 << 70, scale: 3 }), None);
    assert_eq!(fp(5, 2).to_decimal(), Some(Dec { mantissa: 5, scale: 2 }));
    assert_eq!(fp(5, 29).to_decimal(), None);
}

#[test]
fn stale_dispatch_message_is_ignored() {
    let mut m = manager_with_points(10, 10, 1);
    let next = match m.dispatch_round(0, 100, 20, true).unwrap() {
        DispatchOutcome::Round { round, sent } => {
            assert_eq!(round.assignments[0].batch, Batch { start: 0, end: 20 });
            assert!(round.reschedule);
            sent
        }
        DispatchOutcome::Stale => panic!("live message reported stale"),
    };
    assert_eq!(next, 20);
    // the first message delivered a second time
    assert!(matches!(m.dispatch_round(0, 100, 20, true), Ok(DispatchOutcome::Stale)));
    assert_eq!(m.points_sent(), 20);
    match m.dispatch_round(next, 100, 20, true).unwrap() {
        DispatchOutcome::Round { round, sent } => {
            assert_eq!(round.assignments[0].batch, Batch { start: 20, end: 40 });
            assert_eq!(sent, 40);
        }
        DispatchOutcome::Stale => panic!("live message reported stale"),
    }
}

#[test]
fn dispatch_with_points_but_no_workers_is_a_no_op() {
    let mut m = ManagerService::new();
    m.generate_and_store_points(grid(4, 4), 16, false, true).unwrap();
    let round = m.check_points_set(10, 5, true).unwrap();
    assert!(round.assignments.is_empty());
    assert!(!round.reschedule);
    assert_eq!(m.points_sent(), 0);
    match m.dispatch_round(0, 10, 5, true).unwrap() {
        DispatchOutcome::Round { round, sent } => {
            assert!(round.assignments.is_empty());
            assert!(!round.reschedule);
            assert_eq!(sent, 0);
        }
        DispatchOutcome::Stale => panic!("live message reported stale"),
    }
}

#[test]
fn empty_batch_is_not_sent() {
    let mut none = ManagerService::new();
    none.generate_and_store_points(grid(2, 2), 4, false, false).unwrap();
    assert!(none.send_next_batch(3).is_none());
    let mut m = manager_with_points(2, 2, 1);
    assert!(m.send_next_batch(0).is_none());
    assert_eq!(m.points_sent(), 0);
    let a = m.send_next_batch(3).unwrap();
    assert_eq!(a.batch, Batch { start: 0, end: 3 });
    let b = m.send_next_batch(3).unwrap();
    assert_eq!(b.batch, Batch { start: 3, end: 4 });
    assert!(m.send_next_batch(3).is_none());
    assert_eq!(m.points_sent(), 4);
}

#[test]
fn every_point_is_dispatched_once() {
    let mut m = manager_with_points(10, 6, 4);
    let mut seen = vec![0u32; 60];
    loop {
        let round = m.check_points_set(10, 4, true).unwrap();
        for a in round.assignments.iter() {
            for i in a.batch.start..a.batch.end {
                seen[i as usize] += 1;
            }
        }
        if !round.reschedule {
            break;
        }
    }
    assert!(seen.iter().all(|&n| n == 1));
}

#[test]
fn non_square_grid_stays_inside_its_bounds() {
    // 4 x 2 over [-2.0, 1.0] x [-1.5, 1.5]: steps 0.75 and 1.5
    let pts = generate_points(grid(4, 2), 0, 8).unwrap();
    assert_eq!(value(pts[1].0), Decimal::new(-2, 0));
    assert_eq!(value(pts[1].1), Decimal::new(0, 0));
    assert_eq!(value(pts[2].0), Decimal::new(-125, 2));
    assert_eq!(value(pts[2].1), Decimal::new(-15, 1));
    assert_eq!(value(pts[7].0), Decimal::new(25, 2));
    assert_eq!(value(pts[7].1), Decimal::new(0, 0));
    for (re, im) in pts.iter() {
        assert!(value(*re) >= Decimal::new(-2, 0) && value(*re) <= Decimal::new(1, 0));
        assert!(value(*im) >= Decimal::new(-15, 1) && value(*im) <= Decimal::new(15, 1));
    }
}
