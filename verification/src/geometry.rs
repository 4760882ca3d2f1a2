//! The geometry store: per-color lists of triangle vertices with nearest-point
//! queries, point-in-triangle collision, and in-place affine transforms.
//!
//! Coordinates are whole workspace units held in `i64`, kept within
//! `COORD_LIMIT` so that squared distances and the half-plane sign test never
//! overflow; the front end converts the substrate's pixel positions to units.

use vstd::prelude::*;
use vstd::math::abs;
use crate::color::{Color, color_of_hex, valid_hex_color, str2col};

verus! {

/// How many workspace units one pixel spans: coordinates are hundredths of
/// a pixel, so the file format's two fractional digits are exact.
pub const UNITS_PER_PIXEL: i64 = 100;

/// Largest magnitude a coordinate may take.
pub const COORD_LIMIT: i64 = 1_000_000_000;

#[derive(PartialEq, Eq, Structural, Clone, Copy, Debug)]
pub struct Point {
    pub x: i64,
    pub y: i64,
}

pub open spec fn in_bounds(p: Point) -> bool {
    -COORD_LIMIT <= p.x <= COORD_LIMIT && -COORD_LIMIT <= p.y <= COORD_LIMIT
}

/// Mathematical content of a geometry store: the color list and, index for
/// index, each color's vertex list.
#[verifier::ext_equal]
pub struct StoreV {
    pub colors: Seq<Color>,
    pub triangles: Seq<Seq<Point>>,
}

impl StoreV {
    pub open spec fn wf(self) -> bool {
        &&& self.colors.len() == self.triangles.len()
        &&& forall|i: int, j: int|
            0 <= i < j < self.colors.len() ==> self.colors[i] != self.colors[j]
        &&& forall|i: int|
            0 <= i < self.triangles.len() ==> (#[trigger] self.triangles[i]).len() % 3 == 0
        &&& forall|i: int, j: int|
            0 <= i < self.triangles.len() && 0 <= j < self.triangles[i].len()
                ==> in_bounds(#[trigger] self.triangles[i][j])
    }
}

/// Ordered set of colors, paired index for index with the vertex lists of the
/// triangles drawn in that color; every vertex list holds complete triangles,
/// three consecutive points each.
#[derive(PartialEq, Debug)]
pub struct ColoredTriangles {
    /// Colors that can be used to draw triangles; no color occurs twice.
    pub colors: Vec<Color>,
    /// Vertices of triangles, one list for each color.
    pub triangles: Vec<Vec<Point>>,
}

impl View for ColoredTriangles {
    type V = StoreV;

    open spec fn view(&self) -> StoreV {
        StoreV {
            colors: self.colors@,
            triangles: self.triangles@.map_values(|t: Vec<Point>| t@),
        }
    }
}

pub open spec fn contains_color(colors: Seq<Color>, c: Color) -> bool {
    exists|i: int| 0 <= i < colors.len() && colors[i] == c
}

/// What adding a color does: appends it with an empty vertex list when it is
/// absent, and leaves the store untouched when it is already present.
pub open spec fn spec_add_color(s: StoreV, c: Color) -> StoreV {
    if contains_color(s.colors, c) {
        s
    } else {
        StoreV { colors: s.colors.push(c), triangles: s.triangles.push(Seq::empty()) }
    }
}

/// Adding the same color twice is the same as adding it once.
pub proof fn lemma_add_color_idempotent(s: StoreV, c: Color)
    ensures
        spec_add_color(spec_add_color(s, c), c) == spec_add_color(s, c),
        spec_add_color(spec_add_color(s, c), c).colors.len() == spec_add_color(s, c).colors.len(),
        spec_add_color(spec_add_color(s, c), c).triangles.len() == spec_add_color(
            s,
            c,
        ).triangles.len(),
{
    let once = spec_add_color(s, c);
    if contains_color(s.colors, c) {
        assert(once == s);
    } else {
        assert(once.colors[s.colors.len() as int] == c);
        assert(contains_color(once.colors, c));
    }
}

/// `v` forced into the coordinate range, losing nothing when it is already
/// inside.
pub open spec fn clamp_coord(v: int) -> int {
    if v < -COORD_LIMIT {
        -COORD_LIMIT as int
    } else if v > COORD_LIMIT {
        COORD_LIMIT as int
    } else {
        v
    }
}

/// `v` multiplied by `n / d` with the quotient rounded toward zero, then
/// forced into the coordinate range.
pub open spec fn scale_coord(v: int, n: int, d: int) -> int {
    let mag = ((abs(v) * abs(n)) as int) / d;
    clamp_coord(if (v < 0) != (n < 0) { -mag } else { mag })
}

pub open spec fn scale_point(p: Point, xn: int, xd: int, yn: int, yd: int) -> Point {
    Point { x: scale_coord(p.x as int, xn, xd) as i64, y: scale_coord(p.y as int, yn, yd) as i64 }
}

/// `v` shifted by `d`, then forced into the coordinate range.
pub open spec fn translate_coord(v: int, d: int) -> int {
    clamp_coord(v + d)
}

pub open spec fn translate_point(p: Point, dx: int, dy: int) -> Point {
    Point { x: translate_coord(p.x as int, dx) as i64, y: translate_coord(p.y as int, dy) as i64 }
}

/// `b` is `a` with every point scaled by `xn / xd` and `yn / yd`; colors
/// and list lengths are kept.
pub open spec fn scaled_rel(a: StoreV, b: StoreV, xn: int, xd: int, yn: int, yd: int) -> bool {
    &&& b.colors == a.colors
    &&& b.triangles.len() == a.triangles.len()
    &&& forall|c: int|
        0 <= c < a.triangles.len() ==> (#[trigger] b.triangles[c]).len() == a.triangles[c].len()
    &&& forall|c: int, j: int|
        0 <= c < a.triangles.len() && 0 <= j < a.triangles[c].len()
            ==> #[trigger] b.triangles[c][j] == scale_point(a.triangles[c][j], xn, xd, yn, yd)
}

/// The store with every point scaled by `xn / xd` and `yn / yd`.
pub open spec fn scale_store(v: StoreV, xn: int, xd: int, yn: int, yd: int) -> StoreV {
    StoreV {
        colors: v.colors,
        triangles: v.triangles.map_values(
            |row: Seq<Point>| row.map_values(|p: Point| scale_point(p, xn, xd, yn, yd)),
        ),
    }
}

/// A scaled store is exactly the pointwise-scaled store.
pub proof fn lemma_scaled_rel_store(a: StoreV, b: StoreV, xn: int, xd: int, yn: int, yd: int)
    requires
        scaled_rel(a, b, xn, xd, yn, yd),
    ensures
        b == scale_store(a, xn, xd, yn, yd),
{
    let sc = scale_store(a, xn, xd, yn, yd);
    assert forall|c: int| 0 <= c < a.triangles.len() implies b.triangles[c] =~= sc.triangles[c] by {}
    assert(b.triangles =~= sc.triangles);
    assert(b =~= sc);
}

/// `b` is `a` with every point shifted by `(dx, dy)`; colors and list
/// lengths are kept.
pub open spec fn translated_rel(a: StoreV, b: StoreV, dx: int, dy: int) -> bool {
    &&& b.colors == a.colors
    &&& b.triangles.len() == a.triangles.len()
    &&& forall|c: int|
        0 <= c < a.triangles.len() ==> (#[trigger] b.triangles[c]).len() == a.triangles[c].len()
    &&& forall|c: int, j: int|
        0 <= c < a.triangles.len() && 0 <= j < a.triangles[c].len()
            ==> #[trigger] b.triangles[c][j] == translate_point(a.triangles[c][j], dx, dy)
}

proof fn lemma_mul_bound(a: int, b: int, m: int)
    by (nonlinear_arith)
    requires
        0 <= m,
        -m <= a <= m,
        -m <= b <= m,
    ensures
        -(m * m) <= a * b <= m * m,
{
}

proof fn lemma_nonneg_div_le(a: int, d: int)
    by (nonlinear_arith)
    requires
        0 <= a,
        0 < d,
    ensures
        0 <= a / d <= a,
{
}

pub(crate) fn clamp_exec(v: i64) -> (r: i64)
    ensures
        r == clamp_coord(v as int),
{
    if v < -COORD_LIMIT {
        -COORD_LIMIT
    } else if v > COORD_LIMIT {
        COORD_LIMIT
    } else {
        v
    }
}

fn scale_coord_exec(v: i64, n: i64, d: i64) -> (r: i64)
    requires
        -COORD_LIMIT <= v <= COORD_LIMIT,
        -COORD_LIMIT <= n <= COORD_LIMIT,
        0 < d,
    ensures
        r == scale_coord(v as int, n as int, d as int),
        -COORD_LIMIT <= r <= COORD_LIMIT,
{
    let av = if v < 0 { -v } else { v };
    let an = if n < 0 { -n } else { n };
    proof {
        lemma_mul_bound(av as int, an as int, COORD_LIMIT as int);
        lemma_nonneg_div_le(av as int * an as int, d as int);
    }
    let q = (av * an) / d;
    let m = clamp_exec(q);
    if (v < 0) != (n < 0) {
        -m
    } else {
        m
    }
}

fn translate_coord_exec(v: i64, d: i64) -> (r: i64)
    requires
        -COORD_LIMIT <= v <= COORD_LIMIT,
        -COORD_LIMIT <= d <= COORD_LIMIT,
    ensures
        r == translate_coord(v as int, d as int),
        -COORD_LIMIT <= r <= COORD_LIMIT,
{
    clamp_exec(v + d)
}

pub open spec fn sqdist(a: Point, b: Point) -> int {
    (a.x - b.x) * (a.x - b.x) + (a.y - b.y) * (a.y - b.y)
}

/// How many points the store holds over all colors.
pub open spec fn total_points(tri: Seq<Seq<Point>>) -> int
    decreases tri.len(),
{
    if tri.len() == 0 {
        0
    } else {
        total_points(tri.drop_last()) + tri.last().len()
    }
}

/// The rank of point `(c, i)` in encounter order: all points of earlier
/// colors, then the earlier points of its own color.
pub open spec fn flat_pos(tri: Seq<Seq<Point>>, c: int, i: int) -> int {
    total_points(tri.take(c)) + i
}

/// The query result entry for point `(c, i)` of the store.
pub open spec fn entry_at(s: StoreV, p: Point, c: int, i: int) -> (usize, usize, i64) {
    (c as usize, i as usize, sqdist(s.triangles[c][i], p) as i64)
}

pub open spec fn entry_valid(s: StoreV, p: Point, e: (usize, usize, i64)) -> bool {
    &&& (e.0 as int) < s.triangles.len()
    &&& (e.1 as int) < s.triangles[e.0 as int].len()
    &&& e.2 == sqdist(s.triangles[e.0 as int][e.1 as int], p)
}

/// The order of the nearest-point query: ascending squared distance, ties
/// broken by encounter order.
pub open spec fn entry_lt(s: StoreV, a: (usize, usize, i64), b: (usize, usize, i64)) -> bool {
    ||| a.2 < b.2
    ||| (a.2 == b.2 && flat_pos(s.triangles, a.0 as int, a.1 as int) < flat_pos(
        s.triangles,
        b.0 as int,
        b.1 as int,
    ))
}

proof fn lemma_total_points_nonneg(tri: Seq<Seq<Point>>)
    ensures
        0 <= total_points(tri),
    decreases tri.len(),
{
    if tri.len() > 0 {
        lemma_total_points_nonneg(tri.drop_last());
    }
}

proof fn lemma_total_points_take_step(tri: Seq<Seq<Point>>, c: int)
    requires
        0 <= c < tri.len(),
    ensures
        total_points(tri.take(c + 1)) == total_points(tri.take(c)) + tri[c].len(),
{
    assert(tri.take(c + 1).drop_last() =~= tri.take(c));
    assert(tri.take(c + 1).last() == tri[c]);
}

proof fn lemma_total_points_take_mono(tri: Seq<Seq<Point>>, a: int, b: int)
    requires
        0 <= a <= b <= tri.len(),
    ensures
        total_points(tri.take(a)) <= total_points(tri.take(b)),
    decreases b - a,
{
    if a < b {
        lemma_total_points_take_step(tri, b - 1);
        lemma_total_points_take_mono(tri, a, b - 1);
    }
}

/// The squared distance of two in-range points is nonnegative and fits the
/// result type of the nearest-point query.
pub proof fn lemma_sqdist_fits(a: Point, b: Point)
    requires
        in_bounds(a),
        in_bounds(b),
    ensures
        0 <= sqdist(a, b) <= 8_000_000_000_000_000_000,
{
    let dx = a.x - b.x;
    let dy = a.y - b.y;
    assert(0 <= dx * dx <= 4_000_000_000_000_000_000 && 0 <= dy * dy
        <= 4_000_000_000_000_000_000) by (nonlinear_arith)
        requires
            -2_000_000_000 <= dx <= 2_000_000_000,
            -2_000_000_000 <= dy <= 2_000_000_000,
    ;
}

/// A store with no points at all has only empty vertex lists.
pub proof fn lemma_total_points_zero(tri: Seq<Seq<Point>>, c: int)
    requires
        total_points(tri) == 0,
        0 <= c < tri.len(),
    ensures
        tri[c].len() == 0,
{
    lemma_total_points_take_step(tri, c);
    lemma_total_points_take_mono(tri, c + 1, tri.len() as int);
    lemma_total_points_nonneg(tri.take(c));
    assert(tri.take(tri.len() as int) =~= tri);
}

fn sqdist_exec(a: Point, b: Point) -> (r: i64)
    requires
        in_bounds(a),
        in_bounds(b),
    ensures
        r == sqdist(a, b),
{
    let dx = a.x - b.x;
    let dy = a.y - b.y;
    proof {
        lemma_mul_bound(dx as int, dx as int, 2 * (COORD_LIMIT as int));
        lemma_mul_bound(dy as int, dy as int, 2 * (COORD_LIMIT as int));
        assert(2 * (COORD_LIMIT as int) * (2 * (COORD_LIMIT as int)) == 4_000_000_000_000_000_000);
    }
    dx * dx + dy * dy
}

/// One internal record per stored point while answering a nearest-point
/// query: color index, point index, squared distance, encounter rank.
type Quad = (usize, usize, i64, usize);

spec fn quad_ok(s: StoreV, p: Point, q: Quad) -> bool {
    &&& (q.0 as int) < s.triangles.len()
    &&& (q.1 as int) < s.triangles[q.0 as int].len()
    &&& q.2 == sqdist(s.triangles[q.0 as int][q.1 as int], p)
    &&& q.3 == flat_pos(s.triangles, q.0 as int, q.1 as int)
}

spec fn quad_at(s: StoreV, p: Point, c: int, i: int) -> Quad {
    (c as usize, i as usize, sqdist(s.triangles[c][i], p) as i64, flat_pos(
        s.triangles,
        c,
        i,
    ) as usize)
}

spec fn quad_lt(a: Quad, b: Quad) -> bool {
    a.2 < b.2 || (a.2 == b.2 && a.3 < b.3)
}

spec fn quad_strip(q: Quad) -> (usize, usize, i64) {
    (q.0, q.1, q.2)
}

/// While answering a query, point `(c2, i2)` is accounted for: either
/// already among the results, or still among the candidate records.
spec fn covered(
    s: StoreV,
    p: Point,
    res: Seq<(usize, usize, i64)>,
    rest: Seq<Quad>,
    c2: int,
    i2: int,
) -> bool {
    ||| (exists|j: int| 0 <= j < res.len() && res[j] == entry_at(s, p, c2, i2))
    ||| (exists|k: int| 0 <= k < rest.len() && rest[k] == quad_at(s, p, c2, i2))
}

/// The half-plane sign of `p1` against the directed edge `p3 -> p2`.
pub open spec fn sign_of(p1: Point, p2: Point, p3: Point) -> int {
    (p1.x - p3.x) * (p2.y - p3.y) - (p2.x - p3.x) * (p1.y - p3.y)
}

/// Whether the triangle `a b c` contains `p`: the three half-plane signs do
/// not strictly disagree, so a point on an edge counts as inside.
pub open spec fn tri_contains(a: Point, b: Point, c: Point, p: Point) -> bool {
    let d1 = sign_of(p, a, b);
    let d2 = sign_of(p, b, c);
    let d3 = sign_of(p, c, a);
    let has_neg = d1 < 0 || d2 < 0 || d3 < 0;
    let has_pos = d1 > 0 || d2 > 0 || d3 > 0;
    !(has_neg && has_pos)
}

/// A triangle contains its centroid: when `m` is the exact centroid of
/// `a b c` — the only centroid the unit grid can hold — the three
/// half-plane signs at `m` are each a third of the same doubled signed
/// area, so they never strictly disagree; this holds even for a degenerate
/// triangle.
pub proof fn lemma_centroid_contained(a: Point, b: Point, c: Point, m: Point)
    requires
        3 * m.x == a.x + b.x + c.x,
        3 * m.y == a.y + b.y + c.y,
    ensures
        tri_contains(a, b, c, m),
{
    assert(3 * ((m.x - b.x) * (a.y - b.y) - (a.x - b.x) * (m.y - b.y)) == (c.x - b.x) * (a.y - b.y)
        - (a.x - b.x) * (c.y - b.y)) by (nonlinear_arith)
        requires
            3 * m.x == a.x + b.x + c.x,
            3 * m.y == a.y + b.y + c.y,
    ;
    assert(3 * ((m.x - c.x) * (b.y - c.y) - (b.x - c.x) * (m.y - c.y)) == (a.x - c.x) * (b.y - c.y)
        - (b.x - c.x) * (a.y - c.y)) by (nonlinear_arith)
        requires
            3 * m.x == a.x + b.x + c.x,
            3 * m.y == a.y + b.y + c.y,
    ;
    assert(3 * ((m.x - a.x) * (c.y - a.y) - (c.x - a.x) * (m.y - a.y)) == (b.x - a.x) * (c.y - a.y)
        - (c.x - a.x) * (b.y - a.y)) by (nonlinear_arith)
        requires
            3 * m.x == a.x + b.x + c.x,
            3 * m.y == a.y + b.y + c.y,
    ;
    assert((c.x - b.x) * (a.y - b.y) - (a.x - b.x) * (c.y - b.y) == (a.x - c.x) * (b.y - c.y) - (b.x
        - c.x) * (a.y - c.y) && (a.x - c.x) * (b.y - c.y) - (b.x - c.x) * (a.y - c.y) == (b.x - a.x)
        * (c.y - a.y) - (c.x - a.x) * (b.y - a.y)) by (nonlinear_arith);
    assert(sign_of(m, a, b) == sign_of(m, b, c) && sign_of(m, b, c) == sign_of(m, c, a));
}

/// Whether triangle `t` of color index `c` contains `p`.
pub open spec fn store_tri_contains(s: StoreV, c: int, t: int, p: Point) -> bool {
    tri_contains(s.triangles[c][3 * t], s.triangles[c][3 * t + 1], s.triangles[c][3 * t + 2], p)
}

/// Whether `(c2, t2)` comes strictly before `(c, t)` in the scan order:
/// colors in stored order, then triangles in stored order.
pub open spec fn tri_index_lt(c2: int, t2: int, c: int, t: int) -> bool {
    c2 < c || (c2 == c && t2 < t)
}

fn sign_exec(p1: Point, p2: Point, p3: Point) -> (r: i64)
    requires
        in_bounds(p1),
        in_bounds(p2),
        in_bounds(p3),
    ensures
        r == sign_of(p1, p2, p3),
{
    let ax = p1.x - p3.x;
    let ay = p1.y - p3.y;
    let bx = p2.x - p3.x;
    let by = p2.y - p3.y;
    proof {
        lemma_mul_bound(ax as int, by as int, 2 * (COORD_LIMIT as int));
        lemma_mul_bound(bx as int, ay as int, 2 * (COORD_LIMIT as int));
        assert(2 * (COORD_LIMIT as int) * (2 * (COORD_LIMIT as int)) == 4_000_000_000_000_000_000);
    }
    ax * by - bx * ay
}

impl ColoredTriangles {
    /// An empty store: no colors, no triangles.
    pub fn new() -> (r: ColoredTriangles)
        ensures
            r@.colors.len() == 0,
            r@.triangles.len() == 0,
            r@.wf(),
    {
        let r = ColoredTriangles { colors: Vec::new(), triangles: Vec::new() };
        proof {
            assert(r@.triangles =~= Seq::<Seq<Point>>::empty());
        }
        r
    }

    /// Appends the color written by the hex notation `c`, with an empty
    /// vertex list, unless the exact same color value is already present.
    pub fn add_color(&mut self, c: &str)
        requires
            old(self)@.wf(),
            valid_hex_color(c@),
        ensures
            final(self)@ == spec_add_color(old(self)@, color_of_hex(c@)),
            final(self)@.wf(),
    {
        let color = str2col(c);
        let mut i: usize = 0;
        while i < self.colors.len()
            invariant
                self == old(self),
                old(self)@.wf(),
                color == color_of_hex(c@),
                0 <= i <= self.colors.len(),
                forall|j: int| 0 <= j < i ==> self.colors@[j] != color,
            decreases self.colors.len() - i,
        {
            if self.colors[i] == color {
                proof {
                    assert(contains_color(self@.colors, color));
                }
                return ;
            }
            i += 1;
        }
        proof {
            assert(!contains_color(self@.colors, color));
        }
        self.colors.push(color);
        self.triangles.push(Vec::new());
        proof {
            assert(self@ =~= spec_add_color(old(self)@, color));
        }
    }

    /// Removes the three vertices of the `i`-th triangle of color index `c`.
    pub fn remove_triangle(&mut self, c: usize, i: usize)
        requires
            old(self)@.wf(),
            c < old(self)@.triangles.len(),
            3 * (i + 1) <= old(self)@.triangles[c as int].len(),
        ensures
            final(self)@.colors == old(self)@.colors,
            final(self)@.triangles.len() == old(self)@.triangles.len(),
            final(self)@.triangles[c as int] == old(self)@.triangles[c as int].take(3 * i as int)
                + old(self)@.triangles[c as int].skip(3 * i as int + 3),
            forall|k: int|
                0 <= k < old(self)@.triangles.len() && k != c
                    ==> final(self)@.triangles[k] == old(self)@.triangles[k],
            final(self)@.wf(),
    {
        let ghost orig = self@.triangles[c as int];
        let mut row = self.triangles.remove(c);
        let n = row.len();
        assert(3 * (i + 1) <= n);
        row.remove(3 * i);
        row.remove(3 * i);
        row.remove(3 * i);
        proof {
            assert(row@ =~= orig.take(3 * i as int) + orig.skip(3 * i as int + 3));
        }
        self.triangles.insert(c, row);
        proof {
            assert(self.triangles@ =~= old(self).triangles@.update(c as int, row));
            assert(self@.triangles =~= old(self)@.triangles.update(c as int, row@));
            assert(final(self)@.triangles[c as int].len() % 3 == 0) by {
                assert(orig.len() % 3 == 0);
                assert(row@.len() == orig.len() - 3);
            }
        }
    }

    /// Multiplies every point by `xn / xd` horizontally and `yn / yd`
    /// vertically, rounding toward zero and clamping to the coordinate range.
    pub fn scale(&mut self, xn: i64, xd: i64, yn: i64, yd: i64)
        requires
            old(self)@.wf(),
            -COORD_LIMIT <= xn <= COORD_LIMIT,
            -COORD_LIMIT <= yn <= COORD_LIMIT,
            0 < xd,
            0 < yd,
        ensures
            scaled_rel(old(self)@, final(self)@, xn as int, xd as int, yn as int, yd as int),
            final(self)@.wf(),
    {
        let mut out: Vec<Vec<Point>> = Vec::new();
        let mut c: usize = 0;
        while c < self.triangles.len()
            invariant
                self == old(self),
                old(self)@.wf(),
                -COORD_LIMIT <= xn <= COORD_LIMIT,
                -COORD_LIMIT <= yn <= COORD_LIMIT,
                0 < xd,
                0 < yd,
                0 <= c <= self.triangles.len(),
                out@.len() == c,
                forall|k: int|
                    0 <= k < c ==> (#[trigger] out@[k])@.len() == self@.triangles[k].len(),
                forall|k: int, j: int|
                    0 <= k < c && 0 <= j < self@.triangles[k].len()
                        ==> (#[trigger] out@[k]@[j]) == scale_point(
                            self@.triangles[k][j],
                            xn as int,
                            xd as int,
                            yn as int,
                            yd as int,
                        ),
            decreases self.triangles.len() - c,
        {
            let row = &self.triangles[c];
            let mut new_row: Vec<Point> = Vec::new();
            let mut j: usize = 0;
            while j < row.len()
                invariant
                    self == old(self),
                    old(self)@.wf(),
                    -COORD_LIMIT <= xn <= COORD_LIMIT,
                    -COORD_LIMIT <= yn <= COORD_LIMIT,
                    0 < xd,
                    0 < yd,
                    0 <= c < self.triangles.len(),
                    row == &self.triangles[c as int],
                    0 <= j <= row.len(),
                    new_row@.len() == j,
                    forall|q: int|
                        0 <= q < j ==> new_row@[q] == scale_point(
                            self@.triangles[c as int][q],
                            xn as int,
                            xd as int,
                            yn as int,
                            yd as int,
                        ),
                decreases row.len() - j,
            {
                let p = row[j];
                assert(p == self@.triangles[c as int][j as int]);
                let np = Point {
                    x: scale_coord_exec(p.x, xn, xd),
                    y: scale_coord_exec(p.y, yn, yd),
                };
                new_row.push(np);
                j += 1;
            }
            out.push(new_row);
            c += 1;
        }
        self.triangles = out;
        proof {
            assert(final(self)@.triangles.len() == old(self)@.triangles.len());
        }
    }

    /// Shifts every point by `(dx, dy)`, clamping to the coordinate range.
    pub fn translate(&mut self, dx: i64, dy: i64)
        requires
            old(self)@.wf(),
            -COORD_LIMIT <= dx <= COORD_LIMIT,
            -COORD_LIMIT <= dy <= COORD_LIMIT,
        ensures
            translated_rel(old(self)@, final(self)@, dx as int, dy as int),
            final(self)@.wf(),
    {
        let mut out: Vec<Vec<Point>> = Vec::new();
        let mut c: usize = 0;
        while c < self.triangles.len()
            invariant
                self == old(self),
                old(self)@.wf(),
                -COORD_LIMIT <= dx <= COORD_LIMIT,
                -COORD_LIMIT <= dy <= COORD_LIMIT,
                0 <= c <= self.triangles.len(),
                out@.len() == c,
                forall|k: int|
                    0 <= k < c ==> (#[trigger] out@[k])@.len() == self@.triangles[k].len(),
                forall|k: int, j: int|
                    0 <= k < c && 0 <= j < self@.triangles[k].len()
                        ==> (#[trigger] out@[k]@[j]) == translate_point(
                            self@.triangles[k][j],
                            dx as int,
                            dy as int,
                        ),
            decreases self.triangles.len() - c,
        {
            let row = &self.triangles[c];
            let mut new_row: Vec<Point> = Vec::new();
            let mut j: usize = 0;
            while j < row.len()
                invariant
                    self == old(self),
                    old(self)@.wf(),
                    -COORD_LIMIT <= dx <= COORD_LIMIT,
                    -COORD_LIMIT <= dy <= COORD_LIMIT,
                    0 <= c < self.triangles.len(),
                    row == &self.triangles[c as int],
                    0 <= j <= row.len(),
                    new_row@.len() == j,
                    forall|q: int|
                        0 <= q < j ==> new_row@[q] == translate_point(
                            self@.triangles[c as int][q],
                            dx as int,
                            dy as int,
                        ),
                decreases row.len() - j,
            {
                let p = row[j];
                assert(p == self@.triangles[c as int][j as int]);
                let np = Point {
                    x: translate_coord_exec(p.x, dx),
                    y: translate_coord_exec(p.y, dy),
                };
                new_row.push(np);
                j += 1;
            }
            out.push(new_row);
            c += 1;
        }
        self.triangles = out;
        proof {
            assert(final(self)@.triangles.len() == old(self)@.triangles.len());
        }
    }

    /// The `n` closest stored points to `point`, each as
    /// `(color index, point index, squared distance)`, sorted by ascending
    /// squared distance with ties broken by encounter order; all points when
    /// fewer than `n` exist.
    pub fn nearest(&self, n: usize, point: Point) -> (r: Vec<(usize, usize, i64)>)
        requires
            self@.wf(),
            in_bounds(point),
        ensures
            r@.len() == (if (n as int) <= total_points(self@.triangles) {
                n as int
            } else {
                total_points(self@.triangles)
            }),
            forall|j: int| 0 <= j < r@.len() ==> entry_valid(self@, point, #[trigger] r@[j]),
            forall|j: int, k: int| 0 <= j < k < r@.len() ==> entry_lt(self@, r@[j], r@[k]),
            forall|c: int, i: int|
                0 <= c < self@.triangles.len() && 0 <= i < self@.triangles[c].len() ==> (exists|
                    j: int,
                |
                    0 <= j < r@.len() && r@[j] == #[trigger] entry_at(self@, point, c, i)) || (
                forall|j: int|
                    0 <= j < r@.len() ==> entry_lt(self@, r@[j], entry_at(self@, point, c, i))),
    {
        let ghost s = self@;
        let ghost tri = self@.triangles;
        let mut ents: Vec<Quad> = Vec::new();
        let mut c: usize = 0;
        proof {
            assert(tri.take(0) =~= Seq::<Seq<Point>>::empty());
        }
        while c < self.triangles.len()
            invariant
                self@ == s,
                s.wf(),
                in_bounds(point),
                tri == s.triangles,
                self.triangles.len() == tri.len(),
                0 <= c <= tri.len(),
                ents@.len() == total_points(tri.take(c as int)),
                forall|k: int|
                    0 <= k < ents@.len() ==> quad_ok(s, point, #[trigger] ents@[k]) && ents@[k].3
                        == k,
                forall|c2: int, i2: int|
                    #![trigger flat_pos(tri, c2, i2)]
                    0 <= c2 < c && 0 <= i2 < tri[c2].len() ==> (0 <= flat_pos(tri, c2, i2)) && (
                    flat_pos(tri, c2, i2) < ents@.len()) && (ents@[flat_pos(tri, c2, i2)]
                        == quad_at(s, point, c2, i2)),
            decreases tri.len() - c,
        {
            let row = &self.triangles[c];
            let mut i: usize = 0;
            while i < row.len()
                invariant
                    self@ == s,
                    s.wf(),
                    in_bounds(point),
                    tri == s.triangles,
                    self.triangles.len() == tri.len(),
                    0 <= c < tri.len(),
                    row == &self.triangles[c as int],
                    0 <= i <= row.len(),
                    ents@.len() == flat_pos(tri, c as int, i as int),
                    forall|k: int|
                        0 <= k < ents@.len() ==> quad_ok(s, point, #[trigger] ents@[k]) && ents@[k].3
                            == k,
                    forall|c2: int, i2: int|
                        #![trigger flat_pos(tri, c2, i2)]
                        (0 <= c2 < c && 0 <= i2 < tri[c2].len()) || (c2 == c && 0 <= i2 < i) ==> (0
                            <= flat_pos(tri, c2, i2)) && (flat_pos(tri, c2, i2) < ents@.len()) && (
                        ents@[flat_pos(tri, c2, i2)] == quad_at(s, point, c2, i2)),
                decreases row.len() - i,
            {
                assert(s.triangles[c as int] == row@);
                let p0 = row[i];
                assert(in_bounds(p0));
                let d = sqdist_exec(p0, point);
                let pos = ents.len();
                ents.push((c, i, d, pos));
                proof {
                    assert(ents@[pos as int] == (c, i, d, pos));
                    assert(flat_pos(tri, c as int, i as int) == pos as int);
                    assert(quad_at(s, point, c as int, i as int) == (c, i, d, pos));
                    assert(flat_pos(tri, c as int, i as int + 1) == pos as int + 1);
                }
                i += 1;
            }
            proof {
                lemma_total_points_take_step(tri, c as int);
            }
            c += 1;
        }
        proof {
            assert(tri.take(tri.len() as int) =~= tri);
            lemma_total_points_nonneg(tri);
        }
        let total = ents.len();
        let mut rest = ents;
        let mut res: Vec<(usize, usize, i64)> = Vec::new();
        proof {
            assert forall|c2: int, i2: int|
                0 <= c2 < tri.len() && 0 <= i2 < tri[c2].len() implies #[trigger] covered(
                s,
                point,
                res@,
                rest@,
                c2,
                i2,
            ) by {
                let f = flat_pos(tri, c2, i2);
                assert(0 <= f < rest@.len() && rest@[f] == quad_at(s, point, c2, i2));
            }
        }
        while res.len() < n && rest.len() > 0
            invariant
                s.wf(),
                in_bounds(point),
                tri == s.triangles,
                total as int == total_points(tri),
                res@.len() + rest@.len() == total as int,
                res@.len() <= n,
                forall|k: int| 0 <= k < rest@.len() ==> quad_ok(s, point, #[trigger] rest@[k]),
                forall|j: int, k: int| 0 <= j < k < rest@.len() ==> rest@[j].3 != rest@[k].3,
                forall|j: int| 0 <= j < res@.len() ==> entry_valid(s, point, #[trigger] res@[j]),
                forall|j: int, k: int| 0 <= j < k < res@.len() ==> entry_lt(s, res@[j], res@[k]),
                forall|j: int, k: int|
                    0 <= j < res@.len() && 0 <= k < rest@.len() ==> entry_lt(
                        s,
                        res@[j],
                        quad_strip(rest@[k]),
                    ),
                forall|c2: int, i2: int|
                    0 <= c2 < tri.len() && 0 <= i2 < tri[c2].len() ==> #[trigger] covered(
                        s,
                        point,
                        res@,
                        rest@,
                        c2,
                        i2,
                    ),
            decreases rest@.len(),
        {
            let mut best: usize = 0;
            let mut u: usize = 1;
            while u < rest.len()
                invariant
                    1 <= u <= rest@.len(),
                    (best as int) < u,
                    forall|w: int| 0 <= w < u ==> !quad_lt(rest@[w], rest@[best as int]),
                decreases rest@.len() - u,
            {
                let a = rest[u];
                let b = rest[best];
                if a.2 < b.2 || (a.2 == b.2 && a.3 < b.3) {
                    best = u;
                }
                u += 1;
            }
            proof {
                assert forall|w: int| 0 <= w < rest@.len() && w != best implies quad_lt(
                    rest@[best as int],
                    rest@[w],
                ) by {
                    assert(rest@[w].3 != rest@[best as int].3);
                }
            }
            let ghost old_rest = rest@;
            let ghost old_res = res@;
            proof {
                assert(forall|j: int|
                    0 <= j < old_res.len() ==> entry_lt(
                        s,
                        old_res[j],
                        quad_strip(old_rest[best as int]),
                    ));
            }
            let q = rest.remove(best);
            res.push((q.0, q.1, q.2));
            proof {
                assert(rest@ =~= old_rest.take(best as int) + old_rest.skip(best as int + 1));
                assert(res@ == old_res.push(quad_strip(old_rest[best as int])));
                assert forall|j: int| 0 <= j < rest@.len() implies rest@[j] == (if j < best {
                    old_rest[j]
                } else {
                    old_rest[j + 1]
                }) by {}
                assert(q == old_rest[best as int]);
                assert forall|c2: int, i2: int|
                    0 <= c2 < tri.len() && 0 <= i2 < tri[c2].len() implies #[trigger] covered(
                    s,
                    point,
                    res@,
                    rest@,
                    c2,
                    i2,
                ) by {
                    assert(covered(s, point, old_res, old_rest, c2, i2));
                    if exists|j: int| 0 <= j < old_res.len() && old_res[j] == entry_at(
                        s,
                        point,
                        c2,
                        i2,
                    ) {
                        let j = choose|j: int|
                            0 <= j < old_res.len() && old_res[j] == entry_at(s, point, c2, i2);
                        assert(res@[j] == entry_at(s, point, c2, i2));
                    } else {
                        let k = choose|k: int|
                            0 <= k < old_rest.len() && old_rest[k] == quad_at(s, point, c2, i2);
                        if k == best {
                            assert(res@[res@.len() - 1] == entry_at(s, point, c2, i2));
                        } else if k < best {
                            assert(rest@[k] == quad_at(s, point, c2, i2));
                        } else {
                            assert(rest@[k - 1] == quad_at(s, point, c2, i2));
                        }
                    }
                }
            }
        }
        proof {
            assert forall|c2: int, i2: int|
                0 <= c2 < tri.len() && 0 <= i2 < tri[c2].len() implies (exists|j: int|
                0 <= j < res@.len() && res@[j] == #[trigger] entry_at(s, point, c2, i2)) || (forall|
                j: int,
            |
                0 <= j < res@.len() ==> entry_lt(s, res@[j], entry_at(s, point, c2, i2))) by {
                assert(covered(s, point, res@, rest@, c2, i2));
                if !(exists|j: int| 0 <= j < res@.len() && res@[j] == entry_at(s, point, c2, i2)) {
                    let k = choose|k: int|
                        0 <= k < rest@.len() && rest@[k] == quad_at(s, point, c2, i2);
                    assert(quad_strip(rest@[k]) == entry_at(s, point, c2, i2));
                }
            }
        }
        res
    }

    /// Indices `(color, triangle)` of the first stored triangle containing
    /// `point`, scanning colors then triangles in stored order, or `None`
    /// when no triangle contains it — in particular on the empty store.
    pub fn colliding(&self, point: Point) -> (r: Option<(usize, usize)>)
        requires
            self@.wf(),
            in_bounds(point),
        ensures
            match r {
                Some((c, t)) => {
                    &&& c < self@.triangles.len()
                    &&& 3 * (t + 1) <= self@.triangles[c as int].len()
                    &&& store_tri_contains(self@, c as int, t as int, point)
                    &&& forall|c2: int, t2: int|
                        0 <= c2 < self@.triangles.len() && 0 <= t2 && 3 * t2 + 3
                            <= self@.triangles[c2].len() && tri_index_lt(c2, t2, c as int, t as int)
                            ==> !store_tri_contains(self@, c2, t2, point)
                },
                None => forall|c2: int, t2: int|
                    0 <= c2 < self@.triangles.len() && 0 <= t2 && 3 * t2 + 3
                        <= self@.triangles[c2].len() ==> !store_tri_contains(
                        self@,
                        c2,
                        t2,
                        point,
                    ),
            },
    {
        let mut c: usize = 0;
        while c < self.triangles.len()
            invariant
                self@.wf(),
                in_bounds(point),
                0 <= c <= self.triangles.len(),
                forall|c2: int, t2: int|
                    0 <= c2 < c && 0 <= t2 && 3 * t2 + 3 <= self@.triangles[c2].len()
                        ==> !store_tri_contains(self@, c2, t2, point),
            decreases self.triangles.len() - c,
        {
            let row = &self.triangles[c];
            let count = row.len() / 3;
            let mut t: usize = 0;
            while t < count
                invariant
                    self@.wf(),
                    in_bounds(point),
                    0 <= c < self.triangles.len(),
                    row == &self.triangles[c as int],
                    count == row.len() / 3,
                    0 <= t <= count,
                    forall|t2: int|
                        0 <= t2 < t ==> !store_tri_contains(self@, c as int, t2, point),
                    forall|c2: int, t2: int|
                        0 <= c2 < c && 0 <= t2 && 3 * t2 + 3 <= self@.triangles[c2].len()
                            ==> !store_tri_contains(self@, c2, t2, point),
                decreases count - t,
            {
                assert(3 * t + 2 < row.len());
                assert(self@.triangles[c as int] == row@);
                let a = row[3 * t];
                let b = row[3 * t + 1];
                let d = row[3 * t + 2];
                assert(in_bounds(a) && in_bounds(b) && in_bounds(d));
                let d1 = sign_exec(point, a, b);
                let d2 = sign_exec(point, b, d);
                let d3 = sign_exec(point, d, a);
                let has_neg = d1 < 0 || d2 < 0 || d3 < 0;
                let has_pos = d1 > 0 || d2 > 0 || d3 > 0;
                if !(has_neg && has_pos) {
                    assert(store_tri_contains(self@, c as int, t as int, point));
                    return Some((c, t));
                }
                assert(!store_tri_contains(self@, c as int, t as int, point));
                t += 1;
            }
            assert(forall|t2: int|
                0 <= t2 && 3 * t2 + 3 <= self@.triangles[c as int].len()
                    ==> !store_tri_contains(self@, c as int, t2, point));
            c += 1;
        }
        None
    }
}

} // verus!
