//! The worker side of the Mandelbrot computation: the escape-time count of
//! each point of a batch, returned as the report that goes back to the
//! manager.
//!
//! The orbit `z(0) = c`, `z(k + 1) = z(k)^2 + c` is computed with
//! `rust_decimal`'s checked arithmetic; the count is the first `k` below
//! `max_iter` at which `|z(k)|^2 > 4`, or `max_iter` if there is none.
use vstd::prelude::*;
use vstd::arithmetic::power::pow;
use crate::grid::{
    Dec, FixedPoint, MAX_SCALE, decimal_sum, decimal_difference, decimal_product, dec_add, dec_sub,
    dec_mul,
};
use crate::manager::Point;

verus! {

/// `a > b` for decimals given as `(mantissa, scale)`.
pub open spec fn value_greater(a: (int, int), b: (int, int)) -> bool {
    a.0 * pow(10, b.1 as nat) > b.0 * pow(10, a.1 as nat)
}

/// Relies on the ordering of `rust_decimal::Decimal` (`PartialOrd`), which
/// compares the numbers' values.
#[verifier::external_body]
fn dec_gt(a: Dec, b: Dec) -> (r: bool)
    requires
        a.wf(),
        b.wf(),
    ensures
        r == value_greater(a.pair(), b.pair()),
{
    let x = rust_decimal::Decimal::from_i128_with_scale(a.mantissa, a.scale);
    let y = rust_decimal::Decimal::from_i128_with_scale(b.mantissa, b.scale);
    x > y
}

/// `|z|^2`, as `re * re + im * im`.
pub open spec fn modulus_sq(z: ((int, int), (int, int))) -> Option<(int, int)> {
    match (decimal_product(z.0, z.0), decimal_product(z.1, z.1)) {
        (Some(a), Some(b)) => decimal_sum(a, b),
        _ => None,
    }
}

/// `z^2 + c`: the real part `re * re - im * im + c_re`, the imaginary part
/// `2 * re * im + c_im`.
pub open spec fn next_z(z: ((int, int), (int, int)), c: ((int, int), (int, int))) -> Option<
    ((int, int), (int, int)),
> {
    match (decimal_product(z.0, z.0), decimal_product(z.1, z.1), decimal_product((2, 0), z.0)) {
        (Some(a), Some(b), Some(t)) => match (decimal_difference(a, b), decimal_product(t, z.1)) {
            (Some(d), Some(p)) => match (decimal_sum(d, c.0), decimal_sum(p, c.1)) {
                (Some(re), Some(im)) => Some((re, im)),
                _ => None,
            },
            _ => None,
        },
        _ => None,
    }
}

/// The escape count of the orbit of `c` from step `i`, where `z` is the
/// orbit's value at step `i`; `None` if an operation overflows first.
pub open spec fn escape_run(
    c: ((int, int), (int, int)),
    z: ((int, int), (int, int)),
    i: nat,
    max_iter: nat,
) -> Option<nat>
    decreases max_iter - i,
{
    if i >= max_iter {
        Some(max_iter)
    } else {
        match modulus_sq(z) {
            None => None,
            Some(m) => if value_greater(m, (4, 0)) {
                Some(i)
            } else {
                match next_z(z, c) {
                    None => None,
                    Some(z2) => escape_run(c, z2, i + 1, max_iter),
                }
            },
        }
    }
}

/// The escape count of the point `(c_re, c_im)`.
pub open spec fn escape_count(c_re: (int, int), c_im: (int, int), max_iter: nat) -> Option<nat> {
    escape_run((c_re, c_im), (c_re, c_im), 0, max_iter)
}

/// Why a point's count cannot be computed.
#[derive(Clone, Copy, Debug, PartialEq, Eq, Structural)]
pub enum CheckError {
    /// A coordinate has a scale above 28.
    ScaleTooLarge,
    /// An operation of the orbit overflowed.
    Overflow,
}

/// Why the count of `p` cannot be computed, if it cannot.
pub open spec fn point_error(p: Point, max_iter: nat) -> Option<CheckError> {
    if p.c_re.scale > MAX_SCALE || p.c_im.scale > MAX_SCALE {
        Some(CheckError::ScaleTooLarge)
    } else if escape_count(p.c_re.pair(), p.c_im.pair(), max_iter) is None {
        Some(CheckError::Overflow)
    } else {
        None
    }
}

/// The escape count of `(c_re, c_im)`: the first step below `max_iter` at
/// which `|z|^2 > 4`, else `max_iter`; `None` if an operation overflows.
pub fn check_mandelbrot(c_re: Dec, c_im: Dec, max_iter: u32) -> (r: Option<u32>)
    requires
        c_re.wf(),
        c_im.wf(),
    ensures
        match r {
            Some(n) => escape_count(c_re.pair(), c_im.pair(), max_iter as nat) == Some(n as nat),
            None => escape_count(c_re.pair(), c_im.pair(), max_iter as nat) is None,
        },
{
    let ghost c = (c_re.pair(), c_im.pair());
    let threshold = Dec::from_u32(4);
    let two = Dec::from_u32(2);
    let mut z_re = c_re;
    let mut z_im = c_im;
    let mut i: u32 = 0;
    while i < max_iter
        invariant
            i <= max_iter,
            z_re.wf(),
            z_im.wf(),
            threshold == (Dec { mantissa: 4, scale: 0 }),
            two == (Dec { mantissa: 2, scale: 0 }),
            c == (c_re.pair(), c_im.pair()),
            c_re.wf(),
            c_im.wf(),
            escape_run(c, c, 0, max_iter as nat) == escape_run(c, (z_re.pair(), z_im.pair()), i as nat, max_iter as nat),
        decreases max_iter - i,
    {
        let ghost z = (z_re.pair(), z_im.pair());
        let re2 = match dec_mul(z_re, z_re) {
            Some(d) => d,
            None => {
                return None;
            },
        };
        let im2 = match dec_mul(z_im, z_im) {
            Some(d) => d,
            None => {
                return None;
            },
        };
        let modulus = match dec_add(re2, im2) {
            Some(d) => d,
            None => {
                return None;
            },
        };
        if dec_gt(modulus, threshold) {
            return Some(i);
        }
        let t = match dec_mul(two, z_re) {
            Some(d) => d,
            None => {
                return None;
            },
        };
        let diff = match dec_sub(re2, im2) {
            Some(d) => d,
            None => {
                return None;
            },
        };
        let prod = match dec_mul(t, z_im) {
            Some(d) => d,
            None => {
                return None;
            },
        };
        let new_re = match dec_add(diff, c_re) {
            Some(d) => d,
            None => {
                return None;
            },
        };
        let new_im = match dec_add(prod, c_im) {
            Some(d) => d,
            None => {
                return None;
            },
        };
        assert(next_z(z, c) == Some((new_re.pair(), new_im.pair())));
        z_re = new_re;
        z_im = new_im;
        i = i + 1;
    }
    Some(max_iter)
}

/// The report for a batch: the index of each point and its escape count,
/// in the order of the batch. The first point whose count cannot be
/// computed makes the whole batch fail with its error.
pub fn check_mandelbrot_points(points: &Vec<Point>, max_iter: u32) -> (r: Result<(Vec<u32>, Vec<u32>), CheckError>)
    ensures
        (forall|k: int| 0 <= k < points@.len() ==> #[trigger] point_error(points@[k], max_iter as nat) is None)
            <==> r is Ok,
        r matches Ok((indexes, counts)) ==> {
            &&& indexes@.len() == points@.len()
            &&& counts@.len() == points@.len()
            &&& forall|k: int|
                0 <= k < points@.len() ==> {
                    &&& #[trigger] indexes@[k] == points@[k].index
                    &&& escape_count(points@[k].c_re.pair(), points@[k].c_im.pair(), max_iter as nat)
                        == Some(counts@[k] as nat)
                }
        },
        r matches Err(e) ==> exists|k: int|
            0 <= k < points@.len() && (forall|j: int| 0 <= j < k ==> #[trigger] point_error(points@[j], max_iter as nat) is None)
                && #[trigger] point_error(points@[k], max_iter as nat) == Some(e),
{
    let mut indexes: Vec<u32> = Vec::new();
    let mut counts: Vec<u32> = Vec::new();
    let mut k: usize = 0;
    while k < points.len()
        invariant
            k <= points@.len(),
            indexes@.len() == k,
            counts@.len() == k,
            forall|j: int| 0 <= j < k ==> #[trigger] point_error(points@[j], max_iter as nat) is None,
            forall|j: int|
                0 <= j < k ==> {
                    &&& #[trigger] indexes@[j] == points@[j].index
                    &&& escape_count(points@[j].c_re.pair(), points@[j].c_im.pair(), max_iter as nat)
                        == Some(counts@[j] as nat)
                },
        decreases points@.len() - k,
    {
        let p = points[k];
        let (c_re, c_im) = match (p.c_re.to_decimal(), p.c_im.to_decimal()) {
            (Some(a), Some(b)) => (a, b),
            _ => {
                assert(point_error(points@[k as int], max_iter as nat) == Some(CheckError::ScaleTooLarge));
                return Err(CheckError::ScaleTooLarge);
            },
        };
        match check_mandelbrot(c_re, c_im, max_iter) {
            Some(n) => {
                indexes.push(p.index);
                counts.push(n);
            },
            None => {
                assert(point_error(points@[k as int], max_iter as nat) == Some(CheckError::Overflow));
                return Err(CheckError::Overflow);
            },
        }
        k = k + 1;
    }
    Ok((indexes, counts))
}

} // verus!
