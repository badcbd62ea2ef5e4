//! Grid positions, distance metrics and presentational components.

use vstd::prelude::*;

verus! {

/// Width of the console, in cells.
pub const CONSOLE_WIDTH: u32 = 80;

/// Height of the console, in cells.
pub const CONSOLE_HEIGHT: u32 = 45;

/// The ways of measuring how far apart two positions are.
#[derive(Debug, Clone, Copy, PartialEq, Eq, Structural)]
pub enum DistanceMetric {
    /// `|dx| + |dy|`: box-like neighbourhoods.
    Manhattan,
    /// The straight-line distance, `sqrt(dx² + dy²)`.
    Euclidean,
    /// `dx² + dy²`: ordered like the Euclidean distance, without the root.
    EuclideanSquared,
}

/// World coordinates of a grid cell.
#[derive(Debug, Clone, Copy, PartialEq, Eq, Hash, Structural)]
pub struct Position {
    pub x: isize,
    pub y: isize,
}

/// `|v|`.
pub open spec fn abs(v: int) -> int {
    if v < 0 { -v } else { v }
}

/// `-1`, `0` or `1`, following the sign of `v`.
pub open spec fn sign(v: int) -> int {
    if v > 0 { 1 } else if v < 0 { -1 } else { 0 }
}

/// The Manhattan distance between two positions.
pub open spec fn manhattan(a: Position, b: Position) -> int {
    abs(a.x - b.x) + abs(a.y - b.y)
}

/// The squared Euclidean distance between two positions.
pub open spec fn dist_sq(a: Position, b: Position) -> int {
    (a.x - b.x) * (a.x - b.x) + (a.y - b.y) * (a.y - b.y)
}

/// The dot product of two positions read as vectors.
pub open spec fn dot(a: Position, b: Position) -> int {
    a.x * b.x + a.y * b.y
}

/// The x coordinate of one grid step from `a` towards `b`: along the axis on
/// which `b` is farther away, or diagonally where both axes are equally far.
pub open spec fn step_x(a: Position, b: Position) -> int {
    let dx = b.x - a.x;
    let dy = b.y - a.y;
    if abs(dy) > abs(dx) { a.x as int } else { a.x + sign(dx) }
}

/// The y coordinate of one grid step from `a` towards `b`.
pub open spec fn step_y(a: Position, b: Position) -> int {
    let dx = b.x - a.x;
    let dy = b.y - a.y;
    if abs(dx) > abs(dy) { a.y as int } else { a.y + sign(dy) }
}

/// Whether `p` lies in the inclusive ranges `xs` and `ys`.
pub open spec fn within(p: Position, xs: (u32, u32), ys: (u32, u32)) -> bool {
    xs.0 <= p.x <= xs.1 && ys.0 <= p.y <= ys.1
}

/// Whether `p` lies inside the console, off its one-cell border.
pub open spec fn within_console(p: Position) -> bool {
    within(p, (1, (CONSOLE_WIDTH - 2) as u32), (1, (CONSOLE_HEIGHT - 2) as u32))
}

/// `|a - b|` for machine integers, computed without overflow.
pub(crate) fn abs_diff(a: isize, b: isize) -> (r: u128)
    ensures
        r == abs(a - b),
{
    let d: i128 = a as i128 - b as i128;
    if d < 0 {
        (-d) as u128
    } else {
        d as u128
    }
}

impl Position {
    pub fn new(x: isize, y: isize) -> (r: Position)
        ensures
            r.x == x,
            r.y == y,
    {
        Position { x, y }
    }

    /// One step of 8-directional movement towards `other`: along the dominant
    /// axis, or diagonally when both axes are equally far. A position steps
    /// to itself.
    pub fn go_towards(&self, other: &Position) -> (r: Position)
        ensures
            r.x == step_x(*self, *other),
            r.y == step_y(*self, *other),
    {
        let adx = abs_diff(other.x, self.x);
        let ady = abs_diff(other.y, self.y);
        let sx: isize = if other.x > self.x {
            1
        } else if other.x < self.x {
            -1
        } else {
            0
        };
        let sy: isize = if other.y > self.y {
            1
        } else if other.y < self.y {
            -1
        } else {
            0
        };
        if adx > ady {
            Position { x: self.x + sx, y: self.y }
        } else if ady > adx {
            Position { x: self.x, y: self.y + sy }
        } else {
            Position { x: self.x + sx, y: self.y + sy }
        }
    }

    /// Inclusive bounds.
    pub fn is_within_bounds(&self, xs: (u32, u32), ys: (u32, u32)) -> (r: bool)
        ensures
            r == within(*self, xs, ys),
    {
        let (x, y) = (self.x as i128, self.y as i128);
        x >= xs.0 as i128 && x <= xs.1 as i128 && y >= ys.0 as i128 && y <= ys.1 as i128
    }

    /// Whether the position is on the playing field: inside the console and
    /// off its one-cell border.
    pub fn is_within_console_bounds(&self) -> (r: bool)
        ensures
            r == within_console(*self),
    {
        self.is_within_bounds((1, CONSOLE_WIDTH - 2), (1, CONSOLE_HEIGHT - 2))
    }

    /// The position offset by `(dx, dy)`.
    pub fn new_from_dx_dy(&self, dx: isize, dy: isize) -> (r: Position)
        requires
            isize::MIN <= self.x + dx <= isize::MAX,
            isize::MIN <= self.y + dy <= isize::MAX,
        ensures
            r.x == self.x + dx,
            r.y == self.y + dy,
    {
        Position::new(self.x + dx, self.y + dy)
    }

    /// The dot product of the two positions read as vectors.
    pub fn dot_product(&self, other: &Position) -> (r: isize)
        requires
            isize::MIN <= self.x * other.x <= isize::MAX,
            isize::MIN <= self.y * other.y <= isize::MAX,
            isize::MIN <= dot(*self, *other) <= isize::MAX,
        ensures
            r == dot(*self, *other),
    {
        self.x * other.x + self.y * other.y
    }

    /// Manhattan distance.
    pub fn fast_distance(&self, other: &Position) -> (r: u128)
        ensures
            r == manhattan(*self, *other),
    {
        abs_diff(self.x, other.x) + abs_diff(self.y, other.y)
    }

    /// Whether the squared Euclidean distance to `other` is at most `limit`,
    /// decided without overflow for every pair of positions.
    pub fn distance_squared_at_most(&self, other: &Position, limit: u128) -> (r: bool)
        ensures
            r == (dist_sq(*self, *other) <= limit),
    {
        let dx = abs_diff(self.x, other.x);
        let dy = abs_diff(self.y, other.y);
        let big: u128 = 0x1_0000_0000_0000_0000;
        proof {
            assert(dx * dx == (self.x - other.x) * (self.x - other.x)) by (nonlinear_arith)
                requires
                    dx == abs(self.x - other.x),
            ;
            assert(dy * dy == (self.y - other.y) * (self.y - other.y)) by (nonlinear_arith)
                requires
                    dy == abs(self.y - other.y),
            ;
            assert(0 <= dx * dx && 0 <= dy * dy) by (nonlinear_arith);
            assert(dx >= big ==> dx * dx >= big * big) by (nonlinear_arith);
            assert(dy >= big ==> dy * dy >= big * big) by (nonlinear_arith);
            assert(dx < big ==> dx * dx < big * big) by (nonlinear_arith);
            assert(dy < big ==> dy * dy < big * big) by (nonlinear_arith);
        }
        if dx >= big || dy >= big {
            false
        } else {
            let sx = dx * dx;
            let sy = dy * dy;
            sx <= limit && sy <= limit - sx
        }
    }

    /// Euclidean distance squared.
    pub fn distance_squared(&self, other: &Position) -> (r: u128)
        requires
            dist_sq(*self, *other) <= u128::MAX,
        ensures
            r == dist_sq(*self, *other),
    {
        let dx = abs_diff(self.x, other.x);
        let dy = abs_diff(self.y, other.y);
        proof {
            assert(dx * dx == (self.x - other.x) * (self.x - other.x)) by (nonlinear_arith)
                requires
                    dx == abs(self.x - other.x),
            ;
            assert(dy * dy == (self.y - other.y) * (self.y - other.y)) by (nonlinear_arith)
                requires
                    dy == abs(self.y - other.y),
            ;
            assert(0 <= dx * dx && 0 <= dy * dy) by (nonlinear_arith);
        }
        dx * dx + dy * dy
    }
}

/// Every metric puts a position at distance zero from itself, and the
/// Manhattan distance is zero only between equal positions, as is the squared
/// Euclidean distance (hence the Euclidean distance too).
pub proof fn lemma_distance_zero(a: Position, b: Position)
    ensures
        manhattan(a, a) == 0,
        dist_sq(a, a) == 0,
        manhattan(a, b) == 0 <==> a == b,
        dist_sq(a, b) == 0 <==> a == b,
{
    let (dx, dy) = (a.x - b.x, a.y - b.y);
    assert(dx * dx >= 0 && dy * dy >= 0) by (nonlinear_arith);
    assert(dx * dx == 0 ==> dx == 0) by (nonlinear_arith);
    assert(dy * dy == 0 ==> dy == 0) by (nonlinear_arith);
}

/// Every metric is symmetric.
pub proof fn lemma_distance_symmetric(a: Position, b: Position)
    ensures
        manhattan(a, b) == manhattan(b, a),
        dist_sq(a, b) == dist_sq(b, a),
{
    assert((a.x - b.x) * (a.x - b.x) == (b.x - a.x) * (b.x - a.x)) by (nonlinear_arith);
    assert((a.y - b.y) * (a.y - b.y) == (b.y - a.y) * (b.y - a.y)) by (nonlinear_arith);
}

/// The Manhattan distance obeys the triangle inequality.
pub proof fn lemma_manhattan_triangle(a: Position, b: Position, c: Position)
    ensures
        manhattan(a, c) <= manhattan(a, b) + manhattan(b, c),
{
}

/// The Euclidean distance obeys the triangle inequality, stated over squares:
/// `sqrt(C) <= sqrt(A) + sqrt(B)` holds exactly when `C - A - B <= 0` or
/// `(C - A - B)² <= 4AB`, where `A`, `B`, `C` are the squared distances a–b,
/// b–c and a–c.
pub proof fn lemma_euclidean_triangle(a: Position, b: Position, c: Position)
    ensures
        ({
            let k = dist_sq(a, c) - dist_sq(a, b) - dist_sq(b, c);
            k <= 0 || k * k <= 4 * dist_sq(a, b) * dist_sq(b, c)
        }),
{
    let (ux, uy, vx, vy) = (b.x - a.x, b.y - a.y, c.x - b.x, c.y - b.y);
    assert(dist_sq(a, c) - dist_sq(a, b) - dist_sq(b, c) == 2 * (ux * vx + uy * vy))
        by (nonlinear_arith)
        requires
            ux == b.x - a.x,
            uy == b.y - a.y,
            vx == c.x - b.x,
            vy == c.y - b.y,
    ;
    assert(dist_sq(a, b) == ux * ux + uy * uy) by (nonlinear_arith)
        requires
            ux == b.x - a.x,
            uy == b.y - a.y,
    ;
    assert(dist_sq(b, c) == vx * vx + vy * vy) by (nonlinear_arith)
        requires
            vx == c.x - b.x,
            vy == c.y - b.y,
    ;
    lemma_cauchy_schwarz(ux, uy, vx, vy);
    let (p, q) = (ux * vx + uy * vy, dist_sq(a, b) * dist_sq(b, c));
    assert((2 * p) * (2 * p) == 4 * (p * p)) by (nonlinear_arith);
    assert(4 * dist_sq(a, b) * dist_sq(b, c) == 4 * q) by (nonlinear_arith)
        requires
            q == dist_sq(a, b) * dist_sq(b, c),
    ;
}

/// `(u·v)² <= |u|²|v|²` for integer vectors `u = (ux, uy)`, `v = (vx, vy)`.
proof fn lemma_cauchy_schwarz(ux: int, uy: int, vx: int, vy: int)
    ensures
        (ux * vx + uy * vy) * (ux * vx + uy * vy) <= (ux * ux + uy * uy) * (vx * vx + vy * vy),
{
    let (a, b, c, d) = (ux * vx, uy * vy, ux * vy, uy * vx);
    assert((ux * ux + uy * uy) * (vx * vx + vy * vy) == (ux * ux) * (vx * vx) + (ux * ux) * (vy
        * vy) + (uy * uy) * (vx * vx) + (uy * uy) * (vy * vy)) by (nonlinear_arith);
    assert((ux * ux) * (vx * vx) == a * a) by (nonlinear_arith)
        requires
            a == ux * vx,
    ;
    assert((uy * uy) * (vy * vy) == b * b) by (nonlinear_arith)
        requires
            b == uy * vy,
    ;
    assert((ux * ux) * (vy * vy) == c * c) by (nonlinear_arith)
        requires
            c == ux * vy,
    ;
    assert((uy * uy) * (vx * vx) == d * d) by (nonlinear_arith)
        requires
            d == uy * vx,
    ;
    assert(a * b == c * d) by (nonlinear_arith)
        requires
            a == ux * vx,
            b == uy * vy,
            c == ux * vy,
            d == uy * vx,
    ;
    assert((a + b) * (a + b) <= a * a + b * b + c * c + d * d) by (nonlinear_arith)
        requires
            a * b == c * d,
    {
        assert((c - d) * (c - d) >= 0) by (nonlinear_arith);
        assert((c - d) * (c - d) == c * c - 2 * (c * d) + d * d) by (nonlinear_arith);
        assert((a + b) * (a + b) == a * a + 2 * (a * b) + b * b) by (nonlinear_arith);
    }
}

/// The squared Euclidean distance obeys the triangle inequality exactly when
/// the legs a→b and b→c do not point the same way, that is when the dot
/// product of `b - a` and `c - b` is not positive. Where it is positive,
/// `dist_sq(a, c)` exceeds the sum by twice that product.
pub proof fn lemma_distance_squared_triangle(a: Position, b: Position, c: Position)
    requires
        (b.x - a.x) * (c.x - b.x) + (b.y - a.y) * (c.y - b.y) <= 0,
    ensures
        dist_sq(a, c) <= dist_sq(a, b) + dist_sq(b, c),
{
    assert(dist_sq(a, c) == dist_sq(a, b) + dist_sq(b, c) + 2 * ((b.x - a.x) * (c.x - b.x) + (b.y
        - a.y) * (c.y - b.y))) by (nonlinear_arith);
}

/// A step towards a different position brings it strictly closer, in the
/// squared Euclidean and in the Manhattan distance.
pub proof fn lemma_step_gets_closer(a: Position, b: Position)
    requires
        a != b,
    ensures
        ({
            let (nx, ny) = (step_x(a, b), step_y(a, b));
            &&& (nx - b.x) * (nx - b.x) + (ny - b.y) * (ny - b.y) < dist_sq(a, b)
            &&& abs(nx - b.x) + abs(ny - b.y) < manhattan(a, b)
        }),
{
    let (nx, ny) = (step_x(a, b), step_y(a, b));
    lemma_square_closer(a.x - b.x, nx - b.x);
    lemma_square_closer(a.y - b.y, ny - b.y);
}

/// Moving `d` one unit towards zero (or leaving it) never grows its square,
/// and moving it strictly shrinks it.
proof fn lemma_square_closer(d: int, e: int)
    requires
        e == d || (d > 0 && e == d - 1) || (d < 0 && e == d + 1),
    ensures
        e * e <= d * d,
        e != d ==> e * e < d * d,
{
    assert(e * e <= d * d && (e != d ==> e * e < d * d)) by (nonlinear_arith)
        requires
            e == d || (d > 0 && e == d - 1) || (d < 0 && e == d + 1),
    ;
}

/// Marker for entities that move.
#[derive(Debug, Clone, Copy, PartialEq, Eq, Structural)]
pub struct Motion;

/// How an entity is drawn: a glyph and an RGBA colour.
#[derive(Debug, Clone, Copy)]
pub struct Renderable {
    pub glyph: char,
    pub color: (u8, u8, u8, u8),
}

} // verus!
