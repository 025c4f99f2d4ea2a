//! Initial placement of particles on a square-ish grid centred on the origin.
//!
//! A row holds `floor(sqrt(count))` particles (at least one); the rows needed
//! for all of them are stacked downward. Neighbouring centres are
//! `2 * radius + PADDING` apart, so no two particles touch, and the grid's
//! bounding frame is centred on the origin on both axes.
use vstd::prelude::*;
use vstd::arithmetic::div_mod::lemma_fundamental_div_mod;
use vstd::arithmetic::div_mod::{lemma_div_plus_one, lemma_small_mod};
use crate::fixed::{fits_i64, PADDING, SCALE};
use crate::model::{Color, Particle, PhysicsError, Vec2};

verus! {

/// The integer square root, rounded down.
pub open spec fn floor_sqrt(n: nat) -> nat
    decreases n,
{
    if n == 0 {
        0
    } else {
        let r = floor_sqrt((n - 1) as nat);
        if (r + 1) * (r + 1) <= n {
            r + 1
        } else {
            r
        }
    }
}

/// Particles in one row of the grid.
pub open spec fn row_len(count: nat) -> nat {
    if floor_sqrt(count) == 0 {
        1
    } else {
        floor_sqrt(count)
    }
}

/// Rows of the grid.
pub open spec fn row_count(count: nat) -> nat {
    (count + row_len(count) - 1) as nat / row_len(count)
}

/// Half the distance between neighbouring centres.
pub open spec fn half_spacing(radius: u32) -> int {
    radius * SCALE + PADDING / 2
}

/// Horizontal coordinate of the `i`-th particle.
pub open spec fn slot_x(count: nat, radius: u32, i: nat) -> int {
    (2 * (i % row_len(count)) + 1 - row_len(count)) * half_spacing(radius)
}

/// Vertical coordinate of the `i`-th particle.
pub open spec fn slot_y(count: nat, radius: u32, i: nat) -> int {
    (2 * (i / row_len(count)) + 1 - row_count(count)) * half_spacing(radius)
}

pub open spec fn generated_color() -> Color {
    Color { r: 0, g: 0, b: 255 }
}

/// Whether `ps` is the layout of `count` particles of the given radius.
pub open spec fn generated(count: nat, radius: u32, ps: Seq<Particle>) -> bool {
    &&& ps.len() == count
    &&& forall|i: int|
        0 <= i < ps.len() ==> {
            &&& (#[trigger] ps[i]).position.x == slot_x(count, radius, i as nat)
            &&& ps[i].position.y == slot_y(count, radius, i as nat)
            &&& ps[i].velocity == (Vec2 { x: 0, y: 0 })
            &&& ps[i].radius == radius
            &&& ps[i].color == generated_color()
        }
}

pub proof fn lemma_floor_sqrt_bounds(n: nat)
    ensures
        floor_sqrt(n) * floor_sqrt(n) <= n < (floor_sqrt(n) + 1) * (floor_sqrt(n) + 1),
    decreases n,
{
    if n > 0 {
        lemma_floor_sqrt_bounds((n - 1) as nat);
        let r = floor_sqrt((n - 1) as nat);
        let s = floor_sqrt(n);
        assert(r * r <= n - 1 < (r + 1) * (r + 1));
        if (r + 1) * (r + 1) <= n {
            assert(s == r + 1);
            assert((r + 1) * (r + 1) < (r + 2) * (r + 2)) by (nonlinear_arith);
            assert(s * s <= n < (s + 1) * (s + 1));
        } else {
            assert(s == r);
            assert(s * s <= n < (s + 1) * (s + 1));
        }
    } else {
        assert(floor_sqrt(n) == 0);
        assert(floor_sqrt(n) * floor_sqrt(n) == 0) by (nonlinear_arith)
            requires
                floor_sqrt(n) == 0,
        ;
        assert((floor_sqrt(n) + 1) * (floor_sqrt(n) + 1) == 1) by (nonlinear_arith)
            requires
                floor_sqrt(n) == 0,
        ;
    }
}

pub proof fn lemma_sqrt_unique(n: nat, a: nat, b: nat)
    requires
        a * a <= n < (a + 1) * (a + 1),
        b * b <= n < (b + 1) * (b + 1),
    ensures
        a == b,
{
    if a < b {
        assert((a + 1) * (a + 1) <= b * b) by (nonlinear_arith)
            requires
                a + 1 <= b,
        ;
    } else if b < a {
        assert((b + 1) * (b + 1) <= a * a) by (nonlinear_arith)
            requires
                b + 1 <= a,
        ;
    }
}

/// The integer square root of `n`, rounded down.
fn isqrt(n: u32) -> (r: u64)
    ensures
        r == floor_sqrt(n as nat),
        r <= 65535,
{
    let mut k: u64 = 0;
    while k < 65535 && k * k + 2 * k + 1 <= n as u64
        invariant
            k * k <= n,
            k <= 65535,
        decreases 65535 - k,
    {
        assert((k + 1) * (k + 1) == k * k + 2 * k + 1) by (nonlinear_arith);
        k = k + 1;
    }
    assert((k + 1) * (k + 1) == k * k + 2 * k + 1) by (nonlinear_arith);
    assert(n < (k + 1) * (k + 1)) by (nonlinear_arith)
        requires
            k == 65535 || n < (k + 1) * (k + 1),
            n <= u32::MAX,
    ;
    proof {
        lemma_floor_sqrt_bounds(n as nat);
        lemma_sqrt_unique(n as nat, k as nat, floor_sqrt(n as nat));
    }
    k
}

/// The grid is small enough for every coordinate to stay well inside `i64`.
proof fn lemma_grid_bounds(count: nat, i: nat)
    requires
        i < count,
    ensures
        1 <= row_len(count),
        row_len(count) == floor_sqrt(count),
        count <= u32::MAX ==> row_len(count) <= 65535,
        row_count(count) <= row_len(count) + 2,
        i % row_len(count) < row_len(count),
        i / row_len(count) < row_count(count),
{
    lemma_floor_sqrt_bounds(count);
    let s = floor_sqrt(count);
    let p = row_len(count);
    if count <= u32::MAX {
        assert(s <= 65535) by (nonlinear_arith)
            requires
                s * s <= count <= u32::MAX,
        ;
    }
    assert(s >= 1) by (nonlinear_arith)
        requires
            count < (s + 1) * (s + 1),
            i < count,
    ;
    assert(p == s);
    let x = (count + p - 1) as nat;
    let rows = x / p;
    lemma_fundamental_div_mod(x as int, p as int);
    lemma_fundamental_div_mod(i as int, p as int);
    assert(x < p * (p + 3)) by (nonlinear_arith)
        requires
            count < (p + 1) * (p + 1),
            p >= 1,
            x == count + p - 1,
    ;
    assert(rows < p + 3) by (nonlinear_arith)
        requires
            p * rows <= x < p * (p + 3),
            p >= 1,
    ;
    assert(i / p < rows) by (nonlinear_arith)
        requires
            p * (i / p) <= i < count,
            x < p * rows + p,
            x == count + p - 1,
            p >= 1,
    ;
}

/// Whether every coordinate of the layout can be stored in an `i64`.
pub open spec fn layout_fits(count: nat, radius: u32) -> bool {
    forall|i: nat|
        i < count ==> fits_i64(#[trigger] slot_x(count, radius, i)) && fits_i64(
            slot_y(count, radius, i),
        )
}

/// The first row reaches `(row_len - 1)` half spacings right of the origin
/// and the last row `(row_count - 1)` half spacings below it; when either
/// distance is too large for an `i64`, so is some coordinate of the layout.
proof fn lemma_extent_reached(count: nat, radius: u32)
    requires
        count >= 1,
        (row_len(count) - 1) * half_spacing(radius) > i64::MAX || (row_count(count) - 1)
            * half_spacing(radius) > i64::MAX,
    ensures
        !layout_fits(count, radius),
{
    lemma_grid_bounds(count, 0);
    lemma_floor_sqrt_bounds(count);
    let p = row_len(count);
    let hs = half_spacing(radius);
    assert(p <= count) by (nonlinear_arith)
        requires
            p >= 1,
            p * p <= count,
    ;
    if (p - 1) * hs > i64::MAX {
        let i = (p - 1) as nat;
        lemma_small_mod(i, p);
        assert(slot_x(count, radius, i) == (p - 1) * hs);
        assert(!(fits_i64(slot_x(count, radius, i)) && fits_i64(slot_y(count, radius, i))));
    } else {
        let i = (count - 1) as nat;
        lemma_div_plus_one(i as int, p as int);
        assert((p + i) as nat / p == row_count(count));
        assert(i / p == row_count(count) - 1);
        assert(slot_y(count, radius, i) == (row_count(count) - 1) * hs);
        assert(!(fits_i64(slot_x(count, radius, i)) && fits_i64(slot_y(count, radius, i))));
    }
}

/// Lays `count` particles of the given radius out on a grid, at rest and in
/// the generator's colour.
///
/// A count of zero gives an empty set. A radius of zero is refused with
/// `InvalidParameter`; a grid with a coordinate too far out for an `i64`
/// is refused with `OutOfRange`.
pub fn generate(count: u32, radius: u32) -> (r: Result<Vec<Particle>, PhysicsError>)
    ensures
        radius == 0 ==> r == Err::<Vec<Particle>, PhysicsError>(PhysicsError::InvalidParameter),
        radius > 0 && !layout_fits(count as nat, radius) ==> r == Err::<Vec<Particle>, PhysicsError>(
            PhysicsError::OutOfRange,
        ),
        radius > 0 && layout_fits(count as nat, radius) ==> r is Ok,
        r matches Ok(v) ==> generated(count as nat, radius, v@),
{
    if radius == 0 {
        return Err(PhysicsError::InvalidParameter);
    }
    let root = isqrt(count);
    let per_row: u64 = if root == 0 {
        1
    } else {
        root
    };
    let rows: u64 = (count as u64 + per_row - 1) / per_row;
    let hs: i64 = (radius as i64) * SCALE + PADDING / 2;
    proof {
        if count > 0 {
            lemma_grid_bounds(count as nat, 0);
        }
        assert(0 <= (per_row - 1) * hs <= 0x1_0000_0000_0000_0000_0000i128 && -hs <= (rows - 1) * hs
            <= 0x1_0000_0000_0000_0000_0000i128) by (nonlinear_arith)
            requires
                1 <= per_row <= 65535,
                rows <= per_row + 2,
                0 < hs <= 0x10_0000_0000_0000i128,
        ;
    }
    let extent_x: i128 = (per_row as i128 - 1) * (hs as i128);
    let extent_y: i128 = (rows as i128 - 1) * (hs as i128);
    if extent_x > i64::MAX as i128 || extent_y > i64::MAX as i128 {
        proof {
            lemma_extent_reached(count as nat, radius);
        }
        return Err(PhysicsError::OutOfRange);
    }
    let mut v: Vec<Particle> = Vec::new();
    let mut i: u32 = 0;
    while i < count
        invariant
            i <= count,
            0 < radius,
            per_row == row_len(count as nat),
            rows == row_count(count as nat),
            hs == half_spacing(radius),
            hs > 0,
            (per_row - 1) * hs <= i64::MAX,
            (rows - 1) * hs <= i64::MAX,
            v@.len() == i,
            forall|k: int|
                0 <= k < i ==> {
                    &&& (#[trigger] v@[k]).position.x == slot_x(count as nat, radius, k as nat)
                    &&& v@[k].position.y == slot_y(count as nat, radius, k as nat)
                    &&& v@[k].velocity == (Vec2 { x: 0, y: 0 })
                    &&& v@[k].radius == radius
                    &&& v@[k].color == generated_color()
                },
        decreases count - i,
    {
        proof {
            lemma_grid_bounds(count as nat, i as nat);
        }
        let col = (i as u64) % per_row;
        let row = (i as u64) / per_row;
        let a = 2 * (col as i64) + 1 - (per_row as i64);
        let b = 2 * (row as i64) + 1 - (rows as i64);
        assert(-((per_row - 1) * hs) <= a * hs <= (per_row - 1) * hs) by (nonlinear_arith)
            requires
                1 - per_row <= a <= per_row - 1,
                hs > 0,
        ;
        assert(-((rows - 1) * hs) <= b * hs <= (rows - 1) * hs) by (nonlinear_arith)
            requires
                1 - rows <= b <= rows - 1,
                hs > 0,
        ;
        v.push(
            Particle {
                position: Vec2 { x: a * hs, y: b * hs },
                velocity: Vec2 { x: 0, y: 0 },
                radius: radius,
                color: Color { r: 0, g: 0, b: 255 },
            },
        );
        i = i + 1;
    }
    assert(layout_fits(count as nat, radius)) by {
        assert forall|k: nat| k < count implies fits_i64(#[trigger] slot_x(count as nat, radius, k))
            && fits_i64(slot_y(count as nat, radius, k)) by {
            assert(v@[k as int].position.x == slot_x(count as nat, radius, k));
        }
    }
    Ok(v)
}

/// Squared distance between two points, in squared fixed-point units.
pub open spec fn distance_squared(a: Vec2, b: Vec2) -> int {
    (a.x - b.x) * (a.x - b.x) + (a.y - b.y) * (a.y - b.y)
}

/// The layout is a function of `count` and `radius`: two layouts of the same
/// parameters are the same sequence, so `generate` gives the same particles on
/// every call.
pub proof fn lemma_generate_deterministic(count: nat, radius: u32, a: Seq<Particle>, b: Seq<Particle>)
    requires
        generated(count, radius, a),
        generated(count, radius, b),
    ensures
        a == b,
{
    assert forall|i: int| 0 <= i < a.len() implies a[i] == b[i] by {
        assert(a[i].position == b[i].position);
    }
    assert(a =~= b);
}

/// No two particles of a layout overlap: their centres are at least two radii
/// apart.
pub proof fn lemma_generate_no_overlap(count: nat, radius: u32, ps: Seq<Particle>, i: int, j: int)
    requires
        generated(count, radius, ps),
        0 <= i < ps.len(),
        0 <= j < ps.len(),
        i != j,
    ensures
        distance_squared(ps[i].position, ps[j].position) >= (2 * radius * SCALE) * (2 * radius
            * SCALE),
{
    lemma_grid_bounds(count, i as nat);
    let p = row_len(count);
    let hs = half_spacing(radius);
    let ci = i % (p as int);
    let cj = j % (p as int);
    let ri = i / (p as int);
    let rj = j / (p as int);
    lemma_fundamental_div_mod(i, p as int);
    lemma_fundamental_div_mod(j, p as int);
    let dx = ps[i].position.x - ps[j].position.x;
    let dy = ps[i].position.y - ps[j].position.y;
    assert(dx == 2 * (ci - cj) * hs) by (nonlinear_arith)
        requires
            dx == (2 * ci + 1 - p) * hs - (2 * cj + 1 - p) * hs,
    ;
    assert(dy == 2 * (ri - rj) * hs) by (nonlinear_arith)
        requires
            dy == (2 * ri + 1 - row_count(count)) * hs - (2 * rj + 1 - row_count(count)) * hs,
    ;
    let m = 2 * radius * SCALE;
    assert(hs >= radius * SCALE >= 0);
    assert(dx * dx >= 0 && dy * dy >= 0) by (nonlinear_arith);
    if ci != cj {
        assert(dx * dx >= m * m) by (nonlinear_arith)
            requires
                dx == 2 * (ci - cj) * hs,
                ci != cj,
                hs >= radius * SCALE >= 0,
                m == 2 * radius * SCALE,
        ;
    } else {
        assert(ri != rj);
        assert(dy * dy >= m * m) by (nonlinear_arith)
            requires
                dy == 2 * (ri - rj) * hs,
                ri != rj,
                hs >= radius * SCALE >= 0,
                m == 2 * radius * SCALE,
        ;
    }
}

} // verus!
