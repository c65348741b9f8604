//! The point grid of a Mandelbrot computation.
//!
//! Coordinates are fixed-point numbers `num * 10^-scale`. The grid's points
//! are computed with `rust_decimal`'s checked arithmetic: every operation
//! that overflows turns into an error instead of a panic.
use vstd::prelude::*;

verus! {

/// Largest magnitude of a decimal's 96-bit mantissa.
pub const MAX_MANTISSA: i128 = 0xFFFF_FFFF_FFFF_FFFF_FFFF_FFFF;

/// Largest scale of a decimal.
pub const MAX_SCALE: u32 = 28;

/// A fixed-point number `num * 10^-scale`, as carried in messages.
#[derive(Clone, Copy, Debug, PartialEq, Eq, Structural)]
pub struct FixedPoint {
    pub num: i64,
    pub scale: u32,
}

/// A decimal number `mantissa * 10^-scale` with the limits of
/// `rust_decimal::Decimal`: a 96-bit mantissa and a scale of at most 28.
#[derive(Clone, Copy, Debug, PartialEq, Eq, Structural)]
pub struct Dec {
    pub mantissa: i128,
    pub scale: u32,
}

impl Dec {
    pub open spec fn wf(self) -> bool {
        &&& -MAX_MANTISSA <= self.mantissa <= MAX_MANTISSA
        &&& self.scale <= MAX_SCALE
    }

    /// The number as a pair `(mantissa, scale)`.
    pub open spec fn pair(self) -> (int, int) {
        (self.mantissa as int, self.scale as int)
    }

    /// The integer `n`, at scale zero.
    pub fn from_u32(n: u32) -> (d: Dec)
        ensures
            d == (Dec { mantissa: n as i128, scale: 0 }),
            d.wf(),
    {
        Dec { mantissa: n as i128, scale: 0 }
    }
}

/// The sum that `rust_decimal` computes for two decimals, if it does not
/// overflow.
pub uninterp spec fn decimal_sum(a: (int, int), b: (int, int)) -> Option<(int, int)>;

/// The difference that `rust_decimal` computes for two decimals, if it does
/// not overflow.
pub uninterp spec fn decimal_difference(a: (int, int), b: (int, int)) -> Option<(int, int)>;

/// The product that `rust_decimal` computes for two decimals, if it does not
/// overflow.
pub uninterp spec fn decimal_product(a: (int, int), b: (int, int)) -> Option<(int, int)>;

/// The quotient that `rust_decimal` computes for two decimals, if the
/// divisor is not zero and it does not overflow.
pub uninterp spec fn decimal_quotient(a: (int, int), b: (int, int)) -> Option<(int, int)>;

/// `r` is the decimal that `named` describes, and `None` when it is `None`.
pub open spec fn is_result(r: Option<Dec>, named: Option<(int, int)>) -> bool {
    match r {
        Some(d) => d.wf() && named == Some(d.pair()),
        None => named is None,
    }
}

/// Relies on `rust_decimal::Decimal::checked_add`: the sum, or `None` on
/// overflow; a result is a valid decimal.
#[verifier::external_body]
pub(crate) fn dec_add(a: Dec, b: Dec) -> (r: Option<Dec>)
    requires
        a.wf(),
        b.wf(),
    ensures
        is_result(r, decimal_sum(a.pair(), b.pair())),
{
    let x = rust_decimal::Decimal::from_i128_with_scale(a.mantissa, a.scale);
    let y = rust_decimal::Decimal::from_i128_with_scale(b.mantissa, b.scale);
    match x.checked_add(y) {
        Some(d) => Some(Dec { mantissa: d.mantissa(), scale: d.scale() }),
        None => None,
    }
}

/// Relies on `rust_decimal::Decimal::checked_sub`: the difference, or
/// `None` on overflow; a result is a valid decimal.
#[verifier::external_body]
pub(crate) fn dec_sub(a: Dec, b: Dec) -> (r: Option<Dec>)
    requires
        a.wf(),
        b.wf(),
    ensures
        is_result(r, decimal_difference(a.pair(), b.pair())),
{
    let x = rust_decimal::Decimal::from_i128_with_scale(a.mantissa, a.scale);
    let y = rust_decimal::Decimal::from_i128_with_scale(b.mantissa, b.scale);
    match x.checked_sub(y) {
        Some(d) => Some(Dec { mantissa: d.mantissa(), scale: d.scale() }),
        None => None,
    }
}

/// Relies on `rust_decimal::Decimal::checked_mul`: the product, or `None`
/// on overflow; a result is a valid decimal.
#[verifier::external_body]
pub(crate) fn dec_mul(a: Dec, b: Dec) -> (r: Option<Dec>)
    requires
        a.wf(),
        b.wf(),
    ensures
        is_result(r, decimal_product(a.pair(), b.pair())),
{
    let x = rust_decimal::Decimal::from_i128_with_scale(a.mantissa, a.scale);
    let y = rust_decimal::Decimal::from_i128_with_scale(b.mantissa, b.scale);
    match x.checked_mul(y) {
        Some(d) => Some(Dec { mantissa: d.mantissa(), scale: d.scale() }),
        None => None,
    }
}

/// Relies on `rust_decimal::Decimal::checked_div`: the quotient, or `None`
/// for a zero divisor or on overflow; a result is a valid decimal.
#[verifier::external_body]
fn dec_div(a: Dec, b: Dec) -> (r: Option<Dec>)
    requires
        a.wf(),
        b.wf(),
    ensures
        is_result(r, decimal_quotient(a.pair(), b.pair())),
{
    let x = rust_decimal::Decimal::from_i128_with_scale(a.mantissa, a.scale);
    let y = rust_decimal::Decimal::from_i128_with_scale(b.mantissa, b.scale);
    match x.checked_div(y) {
        Some(d) => Some(Dec { mantissa: d.mantissa(), scale: d.scale() }),
        None => None,
    }
}

impl FixedPoint {
    pub open spec fn pair(self) -> (int, int) {
        (self.num as int, self.scale as int)
    }

    /// The fixed-point number with the decimal's mantissa and scale, if the
    /// mantissa fits in 64 bits.
    pub open spec fn of_pair(p: (int, int)) -> Option<FixedPoint> {
        if i64::MIN <= p.0 <= i64::MAX && 0 <= p.1 <= u32::MAX {
            Some(FixedPoint { num: p.0 as i64, scale: p.1 as u32 })
        } else {
            None
        }
    }

    /// The same number as a decimal; a scale above 28 has none.
    pub fn to_decimal(&self) -> (r: Option<Dec>)
        ensures
            self.scale <= MAX_SCALE ==> r == Some(Dec { mantissa: self.num as i128, scale: self.scale }),
            self.scale > MAX_SCALE ==> r is None,
            r matches Some(d) ==> d.wf(),
    {
        if self.scale <= MAX_SCALE {
            Some(Dec { mantissa: self.num as i128, scale: self.scale })
        } else {
            None
        }
    }

    /// The decimal's mantissa and scale, if the mantissa fits in 64 bits.
    pub fn from_decimal(decimal: Dec) -> (r: Option<FixedPoint>)
        ensures
            r == FixedPoint::of_pair(decimal.pair()),
    {
        if decimal.mantissa >= i64::MIN as i128 && decimal.mantissa <= i64::MAX as i128 {
            Some(FixedPoint { num: decimal.mantissa as i64, scale: decimal.scale })
        } else {
            None
        }
    }
}

/// A grid of `width * height` points over `[x_min, x_max] x [y_min, y_max]`.
#[derive(Clone, Copy, Debug, PartialEq, Eq, Structural)]
pub struct GridDesc {
    pub width: u32,
    pub height: u32,
    pub x_min: FixedPoint,
    pub x_max: FixedPoint,
    pub y_min: FixedPoint,
    pub y_max: FixedPoint,
}

/// Why a grid's points cannot be computed.
#[derive(Clone, Copy, Debug, PartialEq, Eq, Structural)]
pub enum GridError {
    /// A bound has a scale above 28.
    ScaleTooLarge,
    /// The grid has more than `u32::MAX` points.
    TooManyPoints,
    /// A grid of zero width or zero height has no step.
    EmptyGrid,
    /// A step or a coordinate overflowed, or does not fit in 64 bits.
    Overflow,
}

impl GridDesc {
    /// Every bound has a scale of at most 28.
    pub open spec fn scales_ok(self) -> bool {
        &&& self.x_min.scale <= MAX_SCALE
        &&& self.x_max.scale <= MAX_SCALE
        &&& self.y_min.scale <= MAX_SCALE
        &&& self.y_max.scale <= MAX_SCALE
    }

    pub open spec fn total(self) -> int {
        self.width * self.height
    }
}

/// The distance between neighbouring points: `(hi - lo) / n`.
pub open spec fn step_of(lo: FixedPoint, hi: FixedPoint, n: u32) -> Option<(int, int)> {
    match decimal_difference(hi.pair(), lo.pair()) {
        Some(d) => decimal_quotient(d, (n as int, 0)),
        None => None,
    }
}

/// The coordinate `lo + k * step`.
pub open spec fn coordinate(lo: FixedPoint, step: (int, int), k: int) -> Option<FixedPoint> {
    match decimal_product((k, 0), step) {
        Some(p) => match decimal_sum(lo.pair(), p) {
            Some(s) => FixedPoint::of_pair(s),
            None => None,
        },
        None => None,
    }
}

/// The point of index `i`: step `i / height` along the first axis and step
/// `i % height` along the second, so that the points of one column come one
/// after another and index `width * height - 1` is the last corner.
pub open spec fn point_at(g: GridDesc, i: int) -> Option<(FixedPoint, FixedPoint)> {
    match (step_of(g.x_min, g.x_max, g.width), step_of(g.y_min, g.y_max, g.height)) {
        (Some(sx), Some(sy)) => match (
            coordinate(g.x_min, sx, i / (g.height as int)),
            coordinate(g.y_min, sy, i % (g.height as int)),
        ) {
            (Some(re), Some(im)) => Some((re, im)),
            _ => None,
        },
        _ => None,
    }
}

/// Why the points `start .. start + count` of `g` cannot be computed, if
/// they cannot.
pub open spec fn points_error(g: GridDesc, start: int, count: int) -> Option<GridError> {
    if !g.scales_ok() {
        Some(GridError::ScaleTooLarge)
    } else if count == 0 {
        None
    } else if g.width == 0 || g.height == 0 {
        Some(GridError::EmptyGrid)
    } else if exists|k: int| 0 <= k < count && #[trigger] point_at(g, start + k) is None {
        Some(GridError::Overflow)
    } else {
        None
    }
}

/// The step `(hi - lo) / n`, computed.
fn grid_step(lo: FixedPoint, hi: FixedPoint, n: u32) -> (r: Option<Dec>)
    requires
        lo.scale <= MAX_SCALE,
        hi.scale <= MAX_SCALE,
    ensures
        is_result(r, step_of(lo, hi, n)),
{
    let l = Dec { mantissa: lo.num as i128, scale: lo.scale };
    let h = Dec { mantissa: hi.num as i128, scale: hi.scale };
    match dec_sub(h, l) {
        Some(d) => dec_div(d, Dec::from_u32(n)),
        None => None,
    }
}

/// The coordinate `lo + k * step`, computed.
fn grid_coordinate(lo: FixedPoint, step: Dec, k: u32) -> (r: Option<FixedPoint>)
    requires
        lo.scale <= MAX_SCALE,
        step.wf(),
    ensures
        r == coordinate(lo, step.pair(), k as int),
{
    let l = Dec { mantissa: lo.num as i128, scale: lo.scale };
    match dec_mul(Dec::from_u32(k), step) {
        Some(p) => match dec_add(l, p) {
            Some(s) => FixedPoint::from_decimal(s),
            None => None,
        },
        None => None,
    }
}

/// Computes the points `start .. start + count` of the grid, in order.
/// A bound with a scale above 28 is refused before anything else; a point
/// that cannot be computed makes the whole call fail.
pub fn generate_points(g: GridDesc, start: u32, count: u32) -> (r: Result<Vec<(FixedPoint, FixedPoint)>, GridError>)
    requires
        start + count <= u32::MAX,
    ensures
        points_error(g, start as int, count as int) is None <==> r is Ok,
        r matches Err(e) ==> points_error(g, start as int, count as int) == Some(e),
        r matches Ok(v) ==> v@.len() == count && forall|k: int|
            0 <= k < count ==> point_at(g, start + k) == Some(#[trigger] v@[k]),
{
    if g.x_min.scale > MAX_SCALE || g.x_max.scale > MAX_SCALE || g.y_min.scale > MAX_SCALE
        || g.y_max.scale > MAX_SCALE {
        return Err(GridError::ScaleTooLarge);
    }
    let mut out: Vec<(FixedPoint, FixedPoint)> = Vec::new();
    if count == 0 {
        return Ok(out);
    }
    if g.width == 0 || g.height == 0 {
        return Err(GridError::EmptyGrid);
    }
    let sx = match grid_step(g.x_min, g.x_max, g.width) {
        Some(s) => s,
        None => {
            assert(point_at(g, start + 0) is None);
            return Err(GridError::Overflow);
        },
    };
    let sy = match grid_step(g.y_min, g.y_max, g.height) {
        Some(s) => s,
        None => {
            assert(point_at(g, start + 0) is None);
            return Err(GridError::Overflow);
        },
    };
    let mut k: u32 = 0;
    while k < count
        invariant
            k <= count,
            start + count <= u32::MAX,
            g.scales_ok(),
            count > 0,
            step_of(g.x_min, g.x_max, g.width) == Some(sx.pair()),
            step_of(g.y_min, g.y_max, g.height) == Some(sy.pair()),
            sx.wf(),
            sy.wf(),
            g.width > 0,
            g.height > 0,
            out@.len() == k,
            forall|j: int| 0 <= j < k ==> point_at(g, start + j) == Some(#[trigger] out@[j]),
        decreases count - k,
    {
        let i = start + k;
        let x = i / g.height;
        let y = i % g.height;
        let re = grid_coordinate(g.x_min, sx, x);
        let im = grid_coordinate(g.y_min, sy, y);
        match (re, im) {
            (Some(a), Some(b)) => {
                out.push((a, b));
                assert(point_at(g, start + k) == Some(out@[k as int]));
            },
            _ => {
                assert(point_at(g, start + k) is None);
                return Err(GridError::Overflow);
            },
        }
        k = k + 1;
    }
    assert forall|j: int| 0 <= j < count implies #[trigger] point_at(g, start + j) is Some by {
        assert(point_at(g, start + j) == Some(out@[j]));
    }
    Ok(out)
}

} // verus!
