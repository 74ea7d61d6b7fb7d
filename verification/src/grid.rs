//! The uniform dense grid generator.

use vstd::prelude::*;

use vstd::arithmetic::div_mod::lemma_fundamental_div_mod;
use vstd::arithmetic::div_mod::lemma_fundamental_div_mod_converse;
use vstd::arithmetic::div_mod::lemma_mod_division_less_than_divisor;
use vstd::arithmetic::div_mod::lemma_multiply_divide_lt;
use vstd::arithmetic::mul::lemma_mul_inequality;
use vstd::arithmetic::mul::lemma_mul_nonnegative;
use vstd::arithmetic::mul::lemma_mul_strictly_positive;

use crate::command::cmds_of_points;
use crate::command::commands_for;
use crate::command::create_gcode;
use crate::command::gcode_of;
use crate::command::lemma_command_count;
use crate::geom::Extent3;
use crate::geom::Point3;
use crate::Plot;

verus! {

/// A dense, evenly spaced grid of probe targets over a bounding volume.
///
/// The grid is centered horizontally on the origin and anchored at the
/// origin's height as its lowest layer. Along each axis the point count is
/// the extent divided by the resolution, rounded down, plus one, so both
/// boundaries of the extent carry a point.
///
/// `origin` is in half-tenths of a machine unit; `space` (the extent) and
/// `resolution` are in tenths.
pub struct GridPlot {
    pub origin: Point3,
    pub resolution: i64,
    pub space: Extent3,
}

impl GridPlot {
    /// The spacing steps along each axis: extent over resolution, rounded
    /// down; one less than the axis point count.
    pub open spec fn steps_x(self) -> int {
        self.space.x as int / self.resolution as int
    }

    pub open spec fn steps_y(self) -> int {
        self.space.y as int / self.resolution as int
    }

    pub open spec fn steps_z(self) -> int {
        self.space.z as int / self.resolution as int
    }

    /// The point count along each axis.
    pub open spec fn count_x(self) -> int {
        self.steps_x() + 1
    }

    pub open spec fn count_y(self) -> int {
        self.steps_y() + 1
    }

    pub open spec fn count_z(self) -> int {
        self.steps_z() + 1
    }

    /// The total point count of the grid.
    pub open spec fn total(self) -> int {
        self.count_x() * self.count_y() * self.count_z()
    }

    /// The coordinate of horizontal grid index `xi`, in half-tenths: the
    /// grid is centered on the origin, so the first point sits half the
    /// total span below it. A resolution of `r` tenths is `2 r` half-tenths,
    /// which is why the start offset (half the span) is exactly
    /// `steps * r` half-tenths.
    pub open spec fn coord_x(self, xi: int) -> int {
        self.origin.x - self.steps_x() * self.resolution + xi * 2 * self.resolution
    }

    pub open spec fn coord_y(self, yi: int) -> int {
        self.origin.y - self.steps_y() * self.resolution + yi * 2 * self.resolution
    }

    /// The vertical axis is anchored at the origin and grows upward.
    pub open spec fn coord_z(self, zi: int) -> int {
        self.origin.z + zi * 2 * self.resolution
    }

    /// The point at flat enumeration index `k`: layers outermost, then
    /// rows, then columns.
    pub open spec fn point_at(self, k: int) -> Point3 {
        let per_layer = self.count_x() * self.count_y();
        let zi = k / per_layer;
        let rem = k % per_layer;
        let yi = rem / self.count_x();
        let xi = rem % self.count_x();
        Point3 {
            x: self.coord_x(xi) as i64,
            y: self.coord_y(yi) as i64,
            z: self.coord_z(zi) as i64,
        }
    }

    /// The parameters are valid and every coordinate of the grid, and every
    /// intermediate product, stays within the `i64` machine range.
    pub open spec fn wf_grid(self) -> bool {
        &&& self.resolution >= 1
        &&& self.space.x >= 0
        &&& self.space.y >= 0
        &&& self.space.z >= 0
        &&& self.steps_x() >= 0
        &&& self.steps_y() >= 0
        &&& self.steps_z() >= 0
        &&& self.steps_x() < i64::MAX
        &&& self.steps_y() < i64::MAX
        &&& self.steps_z() < i64::MAX
        &&& self.steps_x() * 2 * self.resolution <= i64::MAX
        &&& self.steps_y() * 2 * self.resolution <= i64::MAX
        &&& self.steps_z() * 2 * self.resolution <= i64::MAX
        &&& i64::MIN <= self.origin.x - self.steps_x() * self.resolution
        &&& self.origin.x + self.steps_x() * self.resolution <= i64::MAX
        &&& i64::MIN <= self.origin.y - self.steps_y() * self.resolution
        &&& self.origin.y + self.steps_y() * self.resolution <= i64::MAX
        &&& self.origin.z + self.steps_z() * 2 * self.resolution <= i64::MAX
    }

    /// Decides whether this grid can be plotted: a positive resolution,
    /// non-negative extents, and every coordinate the grid would compute
    /// within the fixed-point machine range.
    pub fn plot_ready(&self) -> (b: bool)
        ensures
            b == self.wf_grid(),
    {
        if self.resolution < 1 || self.space.x < 0 || self.space.y < 0 || self.space.z < 0 {
            return false;
        }
        let res = self.resolution;
        let sx = self.space.x / res;
        let sy = self.space.y / res;
        let sz = self.space.z / res;
        proof {
            lemma_div_mul_le(self.space.x as int, res as int);
            lemma_div_mul_le(self.space.y as int, res as int);
            lemma_div_mul_le(self.space.z as int, res as int);
        }
        if sx == i64::MAX || sy == i64::MAX || sz == i64::MAX {
            return false;
        }
        let r = res as i128;
        let px = (sx as i128) * r;
        let py = (sy as i128) * r;
        let pz = (sz as i128) * r;
        let max = i64::MAX as i128;
        let min = i64::MIN as i128;
        let ox = self.origin.x as i128;
        let oy = self.origin.y as i128;
        let oz = self.origin.z as i128;
        proof {
            assert(self.steps_x() * 2 * (res as int) == 2 * (self.steps_x() * res))
                by (nonlinear_arith);
            assert(self.steps_y() * 2 * (res as int) == 2 * (self.steps_y() * res))
                by (nonlinear_arith);
            assert(self.steps_z() * 2 * (res as int) == 2 * (self.steps_z() * res))
                by (nonlinear_arith);
        }
        2 * px <= max && 2 * py <= max && 2 * pz <= max && min <= ox - px && ox + px <= max
            && min <= oy - py && oy + py <= max && oz + 2 * pz <= max
    }

    /// Creates a grid generator from an origin, a bounding volume and a
    /// point spacing. Validation happens at generation time, not here.
    pub fn new(origin: Point3, space: Extent3, resolution: i64) -> (g: GridPlot)
        ensures
            g.origin == origin,
            g.space == space,
            g.resolution == resolution,
    {
        GridPlot { origin, resolution, space }
    }
}

/// Half the product bound: `0 <= (e / r) * r <= e` for a non-negative
/// dividend and positive divisor.
proof fn lemma_div_mul_le(e: int, r: int)
    requires
        e >= 0,
        r >= 1,
    ensures
        0 <= (e / r) * r <= e,
        e / r >= 0,
{
    lemma_fundamental_div_mod(e, r);
    lemma_mod_division_less_than_divisor(e, r);
    assert(e / r >= 0) by (nonlinear_arith)
        requires
            e >= 0,
            r >= 1,
    ;
    assert((e / r) * r == r * (e / r)) by (nonlinear_arith);
}

/// Bounds for one axis: for an index within the step count, the product
/// terms and the resulting coordinate all stay within `i64`.
proof fn lemma_axis_bounds(o: int, n1: int, res: int, i: int)
    requires
        res >= 1,
        n1 >= 0,
        0 <= i <= n1,
        n1 * 2 * res <= i64::MAX,
        i64::MIN <= o - n1 * res,
        o + n1 * res <= i64::MAX,
    ensures
        0 <= i * 2 <= n1 * 2 <= i64::MAX,
        0 <= i * 2 * res <= n1 * 2 * res,
        i64::MIN <= o - n1 * res + i * 2 * res <= i64::MAX,
{
    assert(n1 * 2 <= n1 * 2 * res) by (nonlinear_arith)
        requires
            res >= 1,
            n1 >= 0,
    ;
    lemma_mul_inequality(i * 2, n1 * 2, res);
    lemma_mul_nonnegative(i * 2, res);
    assert(n1 * 2 * res == n1 * res + n1 * res) by (nonlinear_arith);
}

/// Bounds for the vertical axis, which is anchored at the origin instead of
/// centered on it.
proof fn lemma_axis_bounds_z(o: int, n1: int, res: int, i: int)
    requires
        res >= 1,
        n1 >= 0,
        0 <= i <= n1,
        n1 * 2 * res <= i64::MAX,
        o + n1 * 2 * res <= i64::MAX,
    ensures
        0 <= i * 2 <= n1 * 2 <= i64::MAX,
        0 <= i * 2 * res <= n1 * 2 * res,
        o <= o + i * 2 * res <= i64::MAX,
{
    assert(n1 * 2 <= n1 * 2 * res) by (nonlinear_arith)
        requires
            res >= 1,
            n1 >= 0,
    ;
    lemma_mul_inequality(i * 2, n1 * 2, res);
    lemma_mul_nonnegative(i * 2, res);
}

impl Plot for GridPlot {
    open spec fn wf_plot(&self) -> bool {
        self.wf_grid()
    }

    open spec fn points_spec(&self) -> Seq<Point3> {
        Seq::new(self.total() as nat, |k: int| self.point_at(k))
    }

    fn produce_points(&self) -> (r: Vec<Point3>) {
        proof {
            lemma_div_mul_le(self.space.x as int, self.resolution as int);
            lemma_div_mul_le(self.space.y as int, self.resolution as int);
            lemma_div_mul_le(self.space.z as int, self.resolution as int);
        }
        let n1x: i64 = self.space.x / self.resolution;
        let n1y: i64 = self.space.y / self.resolution;
        let n1z: i64 = self.space.z / self.resolution;
        let nx: i64 = n1x + 1;
        let ny: i64 = n1y + 1;
        let nz: i64 = n1z + 1;
        let start_x: i64 = self.origin.x - n1x * self.resolution;
        let start_y: i64 = self.origin.y - n1y * self.resolution;
        let ghost cx = self.count_x();
        let ghost cy = self.count_y();
        let ghost cz = self.count_z();
        proof {
            lemma_mul_strictly_positive(cx, cy);
        }
        let mut pts: Vec<Point3> = Vec::new();
        let mut zi: i64 = 0;
        while zi < nz
            invariant
                self.wf_plot(),
                nx == cx && ny == cy && nz == cz,
                cx == self.count_x() && cy == self.count_y() && cz == self.count_z(),
                n1x == self.steps_x() && n1y == self.steps_y() && n1z == self.steps_z(),
                start_x == self.origin.x - self.steps_x() * self.resolution,
                start_y == self.origin.y - self.steps_y() * self.resolution,
                0 <= zi <= cz,
                pts@.len() == zi * (cx * cy),
                pts@ == self.points_spec().take(pts@.len() as int),
            decreases cz - zi,
        {
            let mut yi: i64 = 0;
            while yi < ny
                invariant
                    self.wf_plot(),
                    nx == cx && ny == cy && nz == cz,
                    cx == self.count_x() && cy == self.count_y() && cz == self.count_z(),
                cx == self.count_x() && cy == self.count_y() && cz == self.count_z(),
                    n1x == self.steps_x() && n1y == self.steps_y() && n1z == self.steps_z(),
                    start_x == self.origin.x - self.steps_x() * self.resolution,
                    start_y == self.origin.y - self.steps_y() * self.resolution,
                    0 <= zi < cz,
                    0 <= yi <= cy,
                    pts@.len() == zi * (cx * cy) + yi * cx,
                    pts@ == self.points_spec().take(pts@.len() as int),
                decreases cy - yi,
            {
                let mut xi: i64 = 0;
                while xi < nx
                    invariant
                        self.wf_plot(),
                        nx == cx && ny == cy && nz == cz,
                        cx == self.count_x() && cy == self.count_y() && cz == self.count_z(),
                    cx == self.count_x() && cy == self.count_y() && cz == self.count_z(),
                cx == self.count_x() && cy == self.count_y() && cz == self.count_z(),
                        n1x == self.steps_x() && n1y == self.steps_y() && n1z == self.steps_z(),
                        start_x == self.origin.x - self.steps_x() * self.resolution,
                        start_y == self.origin.y - self.steps_y() * self.resolution,
                        0 <= zi < cz,
                        0 <= yi < cy,
                        0 <= xi <= cx,
                        pts@.len() == zi * (cx * cy) + yi * cx + xi,
                        pts@ == self.points_spec().take(pts@.len() as int),
                    decreases cx - xi,
                {
                    proof {
                        lemma_axis_bounds(
                            self.origin.x as int,
                            n1x as int,
                            self.resolution as int,
                            xi as int,
                        );
                        lemma_axis_bounds(
                            self.origin.y as int,
                            n1y as int,
                            self.resolution as int,
                            yi as int,
                        );
                        lemma_axis_bounds_z(
                            self.origin.z as int,
                            n1z as int,
                            self.resolution as int,
                            zi as int,
                        );
                    }
                    let x: i64 = start_x + xi * 2 * self.resolution;
                    let y: i64 = start_y + yi * 2 * self.resolution;
                    let z: i64 = self.origin.z + zi * 2 * self.resolution;
                    let ghost k = pts@.len() as int;
                    proof {
                        let per_layer = cx * cy;
                        let rem = yi * cx + xi;
                        assert(0 <= rem && rem < per_layer) by (nonlinear_arith)
                            requires
                                0 <= yi < cy,
                                0 <= xi < cx,
                                per_layer == cx * cy,
                                rem == yi * cx + xi,
                        ;
                        assert(k == zi * per_layer + rem);
                        lemma_fundamental_div_mod_converse(k, per_layer, zi as int, rem);
                        lemma_fundamental_div_mod_converse(rem, cx, yi as int, xi as int);
                        assert(k < self.total()) by (nonlinear_arith)
                            requires
                                k == zi * (cx * cy) + yi * cx + xi,
                                0 <= zi < cz,
                                0 <= yi < cy,
                                0 <= xi < cx,
                                self.total() == cx * cy * cz,
                        ;
                        assert(self.point_at(k) == Point3 { x, y, z });
                    }
                    pts.push(Point3 { x, y, z });
                    proof {
                        assert(pts@ =~= self.points_spec().take(k + 1));
                    }
                    xi = xi + 1;
                }
                proof {
                    assert(zi * (cx * cy) + yi * cx + cx == zi * (cx * cy) + (yi + 1) * cx)
                        by (nonlinear_arith);
                }
                yi = yi + 1;
            }
            proof {
                assert(zi * (cx * cy) + cy * cx == (zi + 1) * (cx * cy)) by (nonlinear_arith);
            }
            zi = zi + 1;
        }
        proof {
            assert(cz * (cx * cy) == self.total()) by (nonlinear_arith)
                requires
                    self.total() == cx * cy * cz,
            ;
            assert(pts@ =~= self.points_spec());
        }
        pts
    }

    fn plot(&self, wait_time: u64, pre_trigger_wait: u64) -> (r: String) {
        let points = self.produce_points();
        let commands = commands_for(&points, wait_time, pre_trigger_wait);
        create_gcode(commands)
    }
}

/// Derives the per-axis indices of flat enumeration index `k`, with their
/// ranges and the recomposition equation.
proof fn lemma_grid_decompose(g: GridPlot, k: int)
    requires
        g.wf_grid(),
        0 <= k < g.total(),
    ensures
        ({
            let per_layer = g.count_x() * g.count_y();
            let zi = k / per_layer;
            let rem = k % per_layer;
            let yi = rem / g.count_x();
            let xi = rem % g.count_x();
            &&& 0 <= xi < g.count_x()
            &&& 0 <= yi < g.count_y()
            &&& 0 <= zi < g.count_z()
            &&& k == zi * per_layer + yi * g.count_x() + xi
        }),
{
    let cx = g.count_x();
    let cy = g.count_y();
    let cz = g.count_z();
    let per_layer = cx * cy;
    lemma_mul_strictly_positive(cx, cy);
    let zi = k / per_layer;
    let rem = k % per_layer;
    lemma_fundamental_div_mod(k, per_layer);
    lemma_mod_division_less_than_divisor(k, per_layer);
    assert(zi >= 0) by (nonlinear_arith)
        requires
            k >= 0,
            per_layer >= 1,
            zi == k / per_layer,
    ;
    assert(k < per_layer * cz) by (nonlinear_arith)
        requires
            k < g.total(),
            g.total() == cx * cy * cz,
            per_layer == cx * cy,
    ;
    lemma_multiply_divide_lt(k, per_layer, cz);
    let yi = rem / cx;
    let xi = rem % cx;
    lemma_fundamental_div_mod(rem, cx);
    lemma_mod_division_less_than_divisor(rem, cx);
    assert(yi >= 0) by (nonlinear_arith)
        requires
            rem >= 0,
            cx >= 1,
            yi == rem / cx,
    ;
    lemma_multiply_divide_lt(rem, cx, cy);
    assert(k == zi * per_layer + (cx * yi + xi));
    assert(cx * yi == yi * cx) by (nonlinear_arith);
    assert(per_layer * zi == zi * per_layer) by (nonlinear_arith);
}

/// There is a generated point mirrored in `x` about `origin.x`, at the
/// same `y` and `z`, for the point at index `k`.
pub open spec fn mirrored_x(g: GridPlot, k: int) -> bool {
    exists|j: int|
        {
            &&& 0 <= j < g.points_spec().len()
            &&& (#[trigger] g.points_spec()[j]).x + g.points_spec()[k].x == 2 * g.origin.x
            &&& g.points_spec()[j].y == g.points_spec()[k].y
            &&& g.points_spec()[j].z == g.points_spec()[k].z
        }
}

/// There is a generated point mirrored in `y` about `origin.y`, at the
/// same `x` and `z`, for the point at index `k`.
pub open spec fn mirrored_y(g: GridPlot, k: int) -> bool {
    exists|j: int|
        {
            &&& 0 <= j < g.points_spec().len()
            &&& (#[trigger] g.points_spec()[j]).y + g.points_spec()[k].y == 2 * g.origin.y
            &&& g.points_spec()[j].x == g.points_spec()[k].x
            &&& g.points_spec()[j].z == g.points_spec()[k].z
        }
}

/// The grid is symmetric about the origin on both horizontal axes: for
/// every generated point there is a generated point mirrored in `x` about
/// `origin.x` (at the same `y` and `z`), and one mirrored in `y` about
/// `origin.y` (at the same `x` and `z`).
pub proof fn lemma_grid_symmetry(g: GridPlot)
    requires
        g.wf_grid(),
    ensures
        forall|k: int| 0 <= k < g.points_spec().len() ==> #[trigger] mirrored_x(g, k),
        forall|k: int| 0 <= k < g.points_spec().len() ==> #[trigger] mirrored_y(g, k),
{
    let cx = g.count_x();
    let cy = g.count_y();
    let cz = g.count_z();
    let per_layer = cx * cy;
    let res = g.resolution as int;
    lemma_mul_strictly_positive(cx, cy);
    assert(g.total() >= 0) by (nonlinear_arith)
        requires
            g.total() == cx * cy * cz,
            cx >= 1,
            cy >= 1,
            cz >= 1,
    ;
    assert forall|k: int| 0 <= k < g.points_spec().len() implies #[trigger] mirrored_x(g, k) by {
        lemma_grid_decompose(g, k);
        let zi = k / per_layer;
        let rem = k % per_layer;
        let yi = rem / cx;
        let xi = rem % cx;
        let xm = cx - 1 - xi;
        let j = zi * per_layer + yi * cx + xm;
        assert(0 <= yi * cx + xm < per_layer) by (nonlinear_arith)
            requires
                0 <= yi < cy,
                0 <= xm < cx,
                per_layer == cx * cy,
        ;
        lemma_fundamental_div_mod_converse(j, per_layer, zi, yi * cx + xm);
        lemma_fundamental_div_mod_converse(yi * cx + xm, cx, yi, xm);
        assert(0 <= j < g.total()) by (nonlinear_arith)
            requires
                j == zi * per_layer + yi * cx + xm,
                0 <= zi < cz,
                0 <= yi * cx + xm < per_layer,
                g.total() == cx * cy * cz,
                per_layer == cx * cy,
        ;
        lemma_axis_bounds(g.origin.x as int, g.steps_x(), res, xi);
        lemma_axis_bounds(g.origin.x as int, g.steps_x(), res, xm);
        assert(xi * 2 * res + xm * 2 * res == (cx - 1) * 2 * res) by (nonlinear_arith)
            requires
                xm == cx - 1 - xi,
        ;
        assert((cx - 1) * 2 * res == g.steps_x() * res + g.steps_x() * res) by (nonlinear_arith)
            requires
                cx == g.steps_x() + 1,
        ;
        assert(g.points_spec()[j].x + g.points_spec()[k].x == 2 * g.origin.x);
        assert(g.points_spec()[j].y == g.points_spec()[k].y);
        assert(g.points_spec()[j].z == g.points_spec()[k].z);
        assert(mirrored_x(g, k));
    }
    assert forall|k: int| 0 <= k < g.points_spec().len() implies #[trigger] mirrored_y(g, k) by {
        lemma_grid_decompose(g, k);
        let zi = k / per_layer;
        let rem = k % per_layer;
        let yi = rem / cx;
        let xi = rem % cx;
        let ym = cy - 1 - yi;
        let j = zi * per_layer + ym * cx + xi;
        assert(0 <= ym * cx + xi < per_layer) by (nonlinear_arith)
            requires
                0 <= ym < cy,
                0 <= xi < cx,
                per_layer == cx * cy,
        ;
        lemma_fundamental_div_mod_converse(j, per_layer, zi, ym * cx + xi);
        lemma_fundamental_div_mod_converse(ym * cx + xi, cx, ym, xi);
        assert(0 <= j < g.total()) by (nonlinear_arith)
            requires
                j == zi * per_layer + ym * cx + xi,
                0 <= zi < cz,
                0 <= ym * cx + xi < per_layer,
                g.total() == cx * cy * cz,
                per_layer == cx * cy,
        ;
        lemma_axis_bounds(g.origin.y as int, g.steps_y(), res, yi);
        lemma_axis_bounds(g.origin.y as int, g.steps_y(), res, ym);
        assert(yi * 2 * res + ym * 2 * res == (cy - 1) * 2 * res) by (nonlinear_arith)
            requires
                ym == cy - 1 - yi,
        ;
        assert((cy - 1) * 2 * res == g.steps_y() * res + g.steps_y() * res) by (nonlinear_arith)
            requires
                cy == g.steps_y() + 1,
        ;
        assert(g.points_spec()[j].y + g.points_spec()[k].y == 2 * g.origin.y);
        assert(g.points_spec()[j].x == g.points_spec()[k].x);
        assert(g.points_spec()[j].z == g.points_spec()[k].z);
        assert(mirrored_y(g, k));
    }
}

/// The grid's point count is the product, over the three axes, of the
/// extent divided by the resolution, rounded down, plus one; and the
/// command sequence derived from it holds five commands per point.
pub proof fn lemma_grid_counts(g: GridPlot, wait_time: u64, pre_trigger_wait: u64)
    requires
        g.wf_grid(),
    ensures
        g.points_spec().len() == (g.space.x as int / g.resolution as int + 1) * (
        g.space.y as int / g.resolution as int + 1) * (g.space.z as int / g.resolution as int
            + 1),
        cmds_of_points(g.points_spec(), wait_time, pre_trigger_wait).len() == 5
            * g.points_spec().len(),
{
    lemma_mul_strictly_positive(g.count_x(), g.count_y());
    lemma_mul_strictly_positive(g.count_x() * g.count_y(), g.count_z());
    assert(g.total() == (g.count_x() * g.count_y()) * g.count_z()) by (nonlinear_arith);
    lemma_command_count(g.points_spec(), wait_time, pre_trigger_wait);
}

} // verus!
