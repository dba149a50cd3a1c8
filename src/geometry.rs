use vstd::prelude::*;
use vstd::arithmetic::mul::lemma_mul_upper_bound;

verus! {

/// One whole, in parts per million.
pub const PPM: u64 = 1_000_000;

/// A non-negative ratio in parts per million: `ppm == 1_000_000` is one whole.
#[derive(Debug, Clone, Copy, PartialEq, Eq, Structural)]
pub struct Fraction {
    pub ppm: u32,
}

/// A point in the touchpad's absolute device coordinates.
#[derive(Debug, Clone, Copy, PartialEq, Eq, Structural)]
pub struct Position {
    pub x: u16,
    pub y: u16,
}

/// A pair of lengths along the two axes, in device units (touchpad size, ellipse semi-axes).
#[derive(Debug, Clone, Copy, PartialEq, Eq, Structural)]
pub struct MoveThresholdUnits {
    pub x: u16,
    pub y: u16,
}

/// The direction of a move step; "no direction yet" is `Option::None` where it is needed.
#[derive(Debug, Clone, Copy, PartialEq, Eq, Structural)]
pub enum Direction {
    Up,
    Down,
    Left,
    Right,
}

/// A touchpad border.
#[derive(Debug, Clone, Copy, PartialEq, Eq, Structural)]
pub enum Edge {
    Top,
    Bottom,
    Left,
    Right,
}

/// Absolute difference of two integers.
pub open spec fn abs_diff(a: int, b: int) -> int {
    if a >= b { a - b } else { b - a }
}

/// `length * f`, truncated, saturating at the largest device coordinate.
pub open spec fn scaled_units(length: int, f: Fraction) -> int {
    let v = length * f.ppm / PPM as int;
    if v > u16::MAX { u16::MAX as int } else { v }
}

/// The border a position lies at, when within `threshold` of the touchpad size from it;
/// the left and right borders are tried first, then top and bottom.
pub open spec fn edge_of(pos: Position, size: MoveThresholdUnits, threshold: Fraction) -> Option<Edge> {
    let tx = scaled_units(size.x as int, threshold);
    let ty = scaled_units(size.y as int, threshold);
    if pos.x <= tx {
        Some(Edge::Left)
    } else if pos.x >= size.x - tx {
        Some(Edge::Right)
    } else if pos.y <= ty {
        Some(Edge::Top)
    } else if pos.y >= size.y - ty {
        Some(Edge::Bottom)
    } else {
        None
    }
}

/// The ellipse scale in parts per million: shrunk by `sensitivity` at an edge.
pub open spec fn ellipse_scale(at_edge: bool, sensitivity: Fraction) -> int {
    if at_edge { PPM - sensitivity.ppm } else { PPM as int }
}

/// Whether the offset `(dx, dy)` lies strictly outside the ellipse with semi-axes
/// `(tx * s, ty * s)`, `s` in parts per million: `(dx/(tx*s))^2 + (dy/(ty*s))^2 > 1`,
/// multiplied out so that it also reads on zero semi-axes.
pub open spec fn outside_ellipse(dx: int, dy: int, tx: int, ty: int, s: int) -> bool {
    (dx * dx * (ty * ty) + dy * dy * (tx * tx)) * (PPM * PPM) > tx * tx * (ty * ty) * (s * s)
}

/// The direction of the offset `(dx, dy)` after scaling by the semi-axes `(tx, ty)`:
/// horizontal when `|dx/tx| > |dy/ty|`, else vertical; a negative `dy` is up.
pub open spec fn side_of(dx: int, dy: int, tx: int, ty: int) -> Direction {
    if abs_diff(dx, 0) * ty > abs_diff(dy, 0) * tx {
        if dx >= 0 { Direction::Right } else { Direction::Left }
    } else if dy < 0 {
        Direction::Up
    } else {
        Direction::Down
    }
}

impl Position {
    /// Component-wise absolute difference of two positions.
    pub fn distance(&self, other: &Position) -> (r: Position)
        ensures
            r.x == abs_diff(self.x as int, other.x as int),
            r.y == abs_diff(self.y as int, other.y as int),
    {
        let x: u16 = if self.x >= other.x { self.x - other.x } else { other.x - self.x };
        let y: u16 = if self.y >= other.y { self.y - other.y } else { other.y - self.y };
        Position { x, y }
    }
}

fn scale_units(length: u16, f: Fraction) -> (r: u16)
    ensures
        r == scaled_units(length as int, f),
{
    proof {
        lemma_mul_upper_bound(length as int, u16::MAX as int, f.ppm as int, u32::MAX as int);
    }
    let v: u64 = (length as u64) * (f.ppm as u64) / PPM;
    if v > u16::MAX as u64 { u16::MAX } else { v as u16 }
}

/// The semi-axes of the move-threshold ellipse: the touchpad size times `threshold`.
pub fn calculate_move_threshold_units(touchpad_size: &MoveThresholdUnits, threshold: Fraction) -> (r: MoveThresholdUnits)
    ensures
        r.x == scaled_units(touchpad_size.x as int, threshold),
        r.y == scaled_units(touchpad_size.y as int, threshold),
{
    MoveThresholdUnits { x: scale_units(touchpad_size.x, threshold), y: scale_units(touchpad_size.y, threshold) }
}

/// The touchpad border that `pos` lies at, if any.
pub fn edge_at(pos: &Position, touchpad_size: &MoveThresholdUnits, threshold: Fraction) -> (r: Option<Edge>)
    ensures
        r == edge_of(*pos, *touchpad_size, threshold),
{
    let tx = scale_units(touchpad_size.x, threshold);
    let ty = scale_units(touchpad_size.y, threshold);
    if pos.x <= tx {
        Some(Edge::Left)
    } else if pos.x as u32 + tx as u32 >= touchpad_size.x as u32 {
        Some(Edge::Right)
    } else if pos.y <= ty {
        Some(Edge::Top)
    } else if pos.y as u32 + ty as u32 >= touchpad_size.y as u32 {
        Some(Edge::Bottom)
    } else {
        None
    }
}

fn square(v: u16) -> (r: u64)
    ensures
        r == v * v,
        r <= u32::MAX,
{
    proof {
        lemma_mul_upper_bound(v as int, u16::MAX as int, v as int, u16::MAX as int);
    }
    (v as u64) * (v as u64)
}

/// Whether `point` lies strictly outside the ellipse around `center` with semi-axes `units`,
/// scaled down by `1 - sensitivity` when `at_edge`.
pub fn outside_of_ellipse(point: &Position, center: &Position, units: &MoveThresholdUnits, at_edge: bool, sensitivity: Fraction) -> (r: bool)
    requires
        sensitivity.ppm <= PPM,
    ensures
        r == outside_ellipse(
            point.x - center.x,
            point.y - center.y,
            units.x as int,
            units.y as int,
            ellipse_scale(at_edge, sensitivity),
        ),
{
    let d = point.distance(center);
    let dx2 = square(d.x);
    let dy2 = square(d.y);
    let tx2 = square(units.x);
    let ty2 = square(units.y);
    let s: u64 = if at_edge { PPM - sensitivity.ppm as u64 } else { PPM };
    let ghost dx = point.x - center.x;
    let ghost dy = point.y - center.y;
    proof {
        assert(dx * dx == dx2) by (nonlinear_arith)
            requires d.x == abs_diff(dx, 0), dx2 == d.x * d.x;
        assert(dy * dy == dy2) by (nonlinear_arith)
            requires d.y == abs_diff(dy, 0), dy2 == d.y * d.y;
        lemma_mul_upper_bound(dx2 as int, u32::MAX as int, ty2 as int, u32::MAX as int);
        lemma_mul_upper_bound(dy2 as int, u32::MAX as int, tx2 as int, u32::MAX as int);
        lemma_mul_upper_bound(tx2 as int, u32::MAX as int, ty2 as int, u32::MAX as int);
        lemma_mul_upper_bound(s as int, PPM as int, s as int, PPM as int);
    }
    let lhs_sum: u128 = (dx2 as u128) * (ty2 as u128) + (dy2 as u128) * (tx2 as u128);
    let axes: u128 = (tx2 as u128) * (ty2 as u128);
    let s2: u128 = (s as u128) * (s as u128);
    proof {
        lemma_mul_upper_bound(lhs_sum as int, 0x2_0000_0000_0000_0000, (PPM * PPM) as int, (PPM * PPM) as int);
        lemma_mul_upper_bound(axes as int, 0x1_0000_0000_0000_0000, s2 as int, (PPM * PPM) as int);
    }
    lhs_sum * ((PPM * PPM) as u128) > axes * s2
}

/// The direction in which `point` lies from `center`, with offsets scaled by `units`.
pub fn side_in_ellipse(point: &Position, center: &Position, units: &MoveThresholdUnits) -> (r: Direction)
    ensures
        r == side_of(point.x - center.x, point.y - center.y, units.x as int, units.y as int),
{
    let d = point.distance(center);
    proof {
        lemma_mul_upper_bound(d.x as int, u16::MAX as int, units.y as int, u16::MAX as int);
        lemma_mul_upper_bound(d.y as int, u16::MAX as int, units.x as int, u16::MAX as int);
    }
    if (d.x as u64) * (units.y as u64) > (d.y as u64) * (units.x as u64) {
        if point.x >= center.x { Direction::Right } else { Direction::Left }
    } else if point.y < center.y {
        Direction::Up
    } else {
        Direction::Down
    }
}

} // verus!
