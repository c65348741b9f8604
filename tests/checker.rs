use batch_engine::checker::{check_mandelbrot, check_mandelbrot_points, CheckError};
use batch_engine::grid::{Dec, FixedPoint, GridDesc};
use batch_engine::manager::{ManagerService, Point};

fn dec(mantissa: i128, scale: u32) -> Dec {
    Dec { mantissa, scale }
}

fn fp(num: i64, scale: u32) -> FixedPoint {
    FixedPoint { num, scale }
}

#[test]
fn origin_never_escapes() {
    assert_eq!(check_mandelbrot(dec(0, 0), dec(0, 0), 1000), Some(1000));
}

#[test]
fn escape_counts_on_the_real_axis() {
    // c = 1: 1, 2, 5 -> |z|^2 exceeds 4 at step 2
    assert_eq!(check_mandelbrot(dec(10, 1), dec(0, 0), 50), Some(2));
    // c = 2: 4 is not above 4, then 6
    assert_eq!(check_mandelbrot(dec(2, 0), dec(0, 0), 50), Some(1));
    // c = 3 escapes at once
    assert_eq!(check_mandelbrot(dec(3, 0), dec(0, 0), 50), Some(0));
    // c = -2 stays on the boundary forever
    assert_eq!(check_mandelbrot(dec(-2, 0), dec(0, 0), 30), Some(30));
}

#[test]
fn escape_count_off_the_axis() {
    // c = i: i, -1 + i, -i, -1 + i, ... stays bounded
    assert_eq!(check_mandelbrot(dec(0, 0), dec(1, 0), 40), Some(40));
    // c = 1 + i: |c|^2 = 2, z1 = 1 + 3i with |z1|^2 = 10
    assert_eq!(check_mandelbrot(dec(1, 0), dec(1, 0), 40), Some(1));
}

#[test]
fn zero_iterations_report_zero() {
    assert_eq!(check_mandelbrot(dec(3, 0), dec(0, 0), 0), Some(0));
}

#[test]
fn batch_report_keeps_order() {
    let points = vec![
        Point { index: 7, c_re: fp(3, 0), c_im: fp(0, 0) },
        Point { index: 3, c_re: fp(10, 1), c_im: fp(0, 0) },
        Point { index: 9, c_re: fp(0, 0), c_im: fp(0, 0) },
    ];
    let (indexes, counts) = check_mandelbrot_points(&points, 20).unwrap();
    assert_eq!(indexes, vec![7, 3, 9]);
    assert_eq!(counts, vec![0, 2, 20]);
}

#[test]
fn batch_with_bad_scale_fails() {
    let points = vec![
        Point { index: 0, c_re: fp(0, 0), c_im: fp(0, 0) },
        Point { index: 1, c_re: fp(1, 29), c_im: fp(0, 0) },
    ];
    assert_eq!(check_mandelbrot_points(&points, 5), Err(CheckError::ScaleTooLarge));
}

#[test]
fn dispatch_check_and_report_end_to_end() {
    let grid = GridDesc {
        width: 6,
        height: 6,
        x_min: fp(-20, 1),
        x_max: fp(10, 1),
        y_min: fp(-15, 1),
        y_max: fp(15, 1),
    };
    let mut m = ManagerService::new();
    m.add_checkers(vec![[1u8; 32], [2u8; 32]]).unwrap();
    m.generate_and_store_points(grid, 36, false, true).unwrap();
    let mut reports = Vec::new();
    loop {
        let round = m.check_points_set(25, 5, true).unwrap();
        for a in round.assignments.iter() {
            let points = m.batch_points(a.batch);
            reports.push(check_mandelbrot_points(&points, round.max_iter).unwrap());
        }
        if !round.reschedule {
            break;
        }
    }
    // workers answer in reverse order
    for (indexes, counts) in reports.into_iter().rev() {
        m.result_calculated(indexes, counts).unwrap();
    }
    let rows = m.get_results(0, 36);
    assert!(rows.iter().all(|r| r.checked));
    // (-2.0, -1.5) escapes at once; (-0.5, 0.0) is in the set
    assert_eq!(rows[0].iter, 0);
    let inside = rows
        .iter()
        .position(|r| r.c_re == fp(-5, 1) && r.c_im.num == 0)
        .unwrap();
    assert_eq!(rows[inside].iter, 25);
}
