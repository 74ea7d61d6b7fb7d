//! The custom-pattern generator: a validated stack of layers parsed from a
//! layered ASCII diagram.

use vstd::prelude::*;

use crate::errors::PlotError;
use crate::geom::Point3;
use crate::geom::Space;
use crate::layer::block_error;
use crate::layer::classify_seq;
use crate::layer::layer_cells;
use crate::layer::layer_height;
use crate::layer::layer_width;
use crate::layer::lemma_parse_layer_err_is_block_error;
use crate::layer::lemma_parse_layer_ok_no_block_error;
use crate::layer::origin_count;
use crate::layer::parse_layer_ok;
use crate::layer::PointType;
use crate::layer::ZLayer;
use crate::text::chars_of;
use crate::text::norm_crlf;
use crate::text::normalize_newlines;
use crate::text::split_blocks;
use crate::text::split_double_newline;

verus! {

/// A custom probe pattern: an ordered stack of layers under a declared
/// space, a spacing, and a machine-space origin coordinate.
///
/// `origin_coordinate` is in half-tenths of a machine unit; `resolution` is
/// in tenths. Layer index 0 is the lowest slice; the vertical axis grows
/// away from the origin.
pub struct CustomPlot {
    pub space: Space,
    pub resolution: i64,
    pub origin_coordinate: Point3,
    pub layers: Vec<ZLayer>,
}

/// The blocks a pattern text decomposes into: carriage-return+line-feed
/// pairs normalized, then split on blank lines.
pub open spec fn blocks_of(s: Seq<char>) -> Seq<Seq<char>> {
    split_blocks(norm_crlf(s), Seq::empty())
}

/// The failure of the first block that does not parse, if any.
pub open spec fn first_block_error(bs: Seq<Seq<char>>) -> Option<PlotError>
    decreases bs.len(),
{
    if bs.len() == 0 {
        None
    } else if block_error(bs[0]).is_some() {
        block_error(bs[0])
    } else {
        first_block_error(bs.skip(1))
    }
}

/// The mismatch failure of the first block whose declared rectangle differs
/// from `(w, h)`, if any; a width mismatch is reported before a height
/// mismatch, block by block.
pub open spec fn first_dim_error(bs: Seq<Seq<char>>, w: int, h: int) -> Option<PlotError>
    decreases bs.len(),
{
    if bs.len() == 0 {
        None
    } else if layer_width(bs[0]) != w {
        Some(PlotError::XSpaceMismatch)
    } else if layer_height(bs[0]) != h {
        Some(PlotError::YSpaceMismatch)
    } else {
        first_dim_error(bs.skip(1), w, h)
    }
}

/// The failure parsing a whole pattern text reports, if any: the first
/// failing block's failure; else a first layer without an origin; else the
/// first layer whose rectangle disagrees with the first layer's.
pub open spec fn from_string_error(s: Seq<char>) -> Option<PlotError> {
    let bs = blocks_of(s);
    if first_block_error(bs).is_some() {
        first_block_error(bs)
    } else if origin_count(classify_seq(layer_cells(bs[0]))) == 0 {
        Some(PlotError::MissingOrigin)
    } else {
        first_dim_error(bs, layer_width(bs[0]), layer_height(bs[0]))
    }
}

/// If every block before `i` parses, the first block failure is at `i` when
/// block `i` fails, and there is none when the scan ran out.
proof fn lemma_first_block_error_at(bs: Seq<Seq<char>>, i: int)
    requires
        0 <= i <= bs.len(),
        forall|j: int| 0 <= j < i ==> block_error(#[trigger] bs[j]).is_none(),
    ensures
        i == bs.len() ==> first_block_error(bs).is_none(),
        i < bs.len() && block_error(bs[i]).is_some() ==> first_block_error(bs) == block_error(
            bs[i],
        ),
    decreases i,
{
    if i > 0 {
        assert(block_error(bs[0]).is_none());
        assert forall|j: int| 0 <= j < i - 1 implies block_error(
            #[trigger] bs.skip(1)[j],
        ).is_none() by {
            assert(bs.skip(1)[j] == bs[j + 1]);
        }
        lemma_first_block_error_at(bs.skip(1), i - 1);
        if i < bs.len() {
            assert(bs.skip(1)[i - 1] == bs[i]);
        }
    }
}

/// If every block before `i` matches the rectangle, the first mismatch is
/// at `i` when block `i` mismatches, and there is none when the scan ran
/// out.
proof fn lemma_first_dim_error_at(bs: Seq<Seq<char>>, w: int, h: int, i: int)
    requires
        0 <= i <= bs.len(),
        forall|j: int|
            0 <= j < i ==> layer_width(#[trigger] bs[j]) == w && layer_height(bs[j]) == h,
    ensures
        i == bs.len() ==> first_dim_error(bs, w, h).is_none(),
        i < bs.len() && layer_width(bs[i]) != w ==> first_dim_error(bs, w, h) == Some(
            PlotError::XSpaceMismatch,
        ),
        i < bs.len() && layer_width(bs[i]) == w && layer_height(bs[i]) != h ==> first_dim_error(
            bs,
            w,
            h,
        ) == Some(PlotError::YSpaceMismatch),
    decreases i,
{
    if i > 0 {
        assert(layer_width(bs[0]) == w && layer_height(bs[0]) == h);
        assert forall|j: int| 0 <= j < i - 1 implies layer_width(#[trigger] bs.skip(1)[j]) == w
            && layer_height(bs.skip(1)[j]) == h by {
            assert(bs.skip(1)[j] == bs[j + 1]);
        }
        lemma_first_dim_error_at(bs.skip(1), w, h, i - 1);
        if i < bs.len() {
            assert(bs.skip(1)[i - 1] == bs[i]);
        }
    }
}

impl CustomPlot {
    /// The structural invariant: no more layers than the declared vertical
    /// space, and every layer a well-formed rectangle of the declared width
    /// and height.
    pub open spec fn wf(self) -> bool {
        &&& self.layers@.len() <= self.space.z
        &&& forall|i: int|
            0 <= i < self.layers@.len() ==> {
                let l = #[trigger] self.layers@[i];
                &&& l.x_space == self.space.x
                &&& l.y_space == self.space.y
                &&& l.wf()
            }
    }

    /// Creates an empty pattern under a declared space.
    pub fn new(space: Space, resolution: i64, origin: Point3) -> (p: CustomPlot)
        ensures
            p.space == space,
            p.resolution == resolution,
            p.origin_coordinate == origin,
            p.layers@.len() == 0,
    {
        CustomPlot { space, resolution, origin_coordinate: origin, layers: Vec::new() }
    }

    /// Appends a layer, refusing one whose rectangle disagrees with the
    /// declared space, one beyond the declared layer count, and a first
    /// layer without an origin cell to anchor the pattern.
    pub fn add_layer(&mut self, layer: ZLayer) -> (r: Result<(), PlotError>)
        ensures
            match r {
                Ok(()) => {
                    &&& layer.x_space == old(self).space.x
                    &&& layer.y_space == old(self).space.y
                    &&& old(self).layers@.len() != old(self).space.z
                    &&& (old(self).layers@.len() == 0 ==> layer.origin is Some)
                    &&& final (self).layers@ == old(self).layers@.push(layer)
                },
                Err(e) => {
                    &&& *final (self) == *old(self)
                    &&& match e {
                        PlotError::XSpaceMismatch => layer.x_space != old(self).space.x,
                        PlotError::YSpaceMismatch => layer.x_space == old(self).space.x
                            && layer.y_space != old(self).space.y,
                        PlotError::LayerOverflow => layer.x_space == old(self).space.x
                            && layer.y_space == old(self).space.y && old(self).layers@.len()
                            == old(self).space.z,
                        PlotError::MissingOrigin => layer.x_space == old(self).space.x
                            && layer.y_space == old(self).space.y && old(self).layers@.len()
                            != old(self).space.z && old(self).layers@.len() == 0
                            && layer.origin is None,
                        _ => false,
                    }
                },
            },
            final (self).space == old(self).space,
            final (self).resolution == old(self).resolution,
            final (self).origin_coordinate == old(self).origin_coordinate,
    {
        if self.space.x != layer.x_space {
            Err(PlotError::XSpaceMismatch)
        } else if self.space.y != layer.y_space {
            Err(PlotError::YSpaceMismatch)
        } else if self.space.z == self.layers.len() {
            Err(PlotError::LayerOverflow)
        } else if self.layers.len() == 0 && layer.origin.is_none() {
            Err(PlotError::MissingOrigin)
        } else {
            self.layers.push(layer);
            Ok(())
        }
    }

    /// The anchor cell of the first layer, if the pattern has one.
    pub fn origin_point(&self) -> (r: Option<(usize, usize)>)
        ensures
            r == if self.layers@.len() > 0 {
                self.layers@[0].origin
            } else {
                None::<(usize, usize)>
            },
    {
        if self.layers.len() > 0 {
            self.layers[0].origin
        } else {
            None
        }
    }

    /// Parses a whole pattern text: blocks split on blank lines (after
    /// newline normalization), each block parsed as a layer, the declared
    /// space derived from the first layer and the block count, and every
    /// layer appended under the append-time checks.
    pub fn from_string(string: &str, resolution: i64, origin: Point3) -> (r: Result<
        CustomPlot,
        PlotError,
    >)
        ensures
            match r {
                Ok(p) => {
                    let bs = blocks_of(string@);
                    &&& from_string_error(string@).is_none()
                    &&& p.resolution == resolution
                    &&& p.origin_coordinate == origin
                    &&& p.layers@.len() == bs.len()
                    &&& p.space.x as int == layer_width(bs[0])
                    &&& p.space.y as int == layer_height(bs[0])
                    &&& p.space.z == bs.len()
                    &&& forall|i: int|
                        0 <= i < bs.len() ==> parse_layer_ok(bs[i], #[trigger] p.layers@[i])
                    &&& p.wf()
                    &&& p.layers@[0].origin is Some
                },
                Err(e) => from_string_error(string@) == Some(e),
            },
    {
        let chars = chars_of(string);
        let normd = normalize_newlines(&chars);
        let blocks = split_double_newline(&normd);
        let ghost bs = blocks_of(string@);
        proof {
            assert(blocks.deep_view() == bs);
        }
        let mut parsed: Vec<ZLayer> = Vec::new();
        let mut k: usize = 0;
        while k < blocks.len()
            invariant
                bs == blocks_of(string@),
                bs == blocks.deep_view(),
                bs.len() == blocks@.len(),
                k <= blocks@.len(),
                parsed@.len() == k,
                forall|j: int| 0 <= j < k ==> parse_layer_ok(bs[j], #[trigger] parsed@[j]),
                forall|j: int| 0 <= j < k ==> block_error(#[trigger] bs[j]).is_none(),
            decreases blocks@.len() - k,
        {
            proof {
                assert(blocks.deep_view()[k as int] == blocks@[k as int]@);
            }
            match ZLayer::from_chars(&blocks[k]) {
                Ok(l) => {
                    proof {
                        lemma_parse_layer_ok_no_block_error(bs[k as int], l);
                    }
                    parsed.push(l);
                },
                Err(e) => {
                    proof {
                        lemma_parse_layer_err_is_block_error(bs[k as int], e);
                        lemma_first_block_error_at(bs, k as int);
                    }
                    return Err(e);
                },
            }
            k = k + 1;
        }
        proof {
            lemma_first_block_error_at(bs, bs.len() as int);
        }
        let x_space = parsed[0].x_space;
        let y_space = parsed[0].y_space;
        let z_space = parsed.len();
        let mut plot = CustomPlot::new(
            Space { x: x_space, y: y_space, z: z_space },
            resolution,
            origin,
        );
        let ghost parsed0 = parsed@;
        let mut idx: usize = 0;
        while idx < plot.space.z
            invariant
                bs == blocks_of(string@),
                first_block_error(bs).is_none(),
                parsed0.len() == bs.len(),
                forall|j: int| 0 <= j < bs.len() ==> parse_layer_ok(bs[j], #[trigger] parsed0[j]),
                x_space as int == layer_width(bs[0]),
                y_space as int == layer_height(bs[0]),
                z_space == bs.len(),
                plot.space == (Space { x: x_space, y: y_space, z: z_space }),
                plot.resolution == resolution,
                plot.origin_coordinate == origin,
                idx <= z_space,
                parsed@ == parsed0.skip(idx as int),
                plot.layers@ == parsed0.take(idx as int),
                forall|j: int|
                    0 <= j < idx ==> layer_width(#[trigger] bs[j]) == x_space as int
                        && layer_height(bs[j]) == y_space as int,
                idx > 0 ==> parsed0[0].origin is Some,
            decreases z_space - idx,
        {
            proof {
                assert(parsed@[0] == parsed0[idx as int]);
            }
            let l = parsed.remove(0);
            let ghost lg = l;
            match plot.add_layer(l) {
                Ok(()) => {
                    proof {
                        assert(plot.layers@ =~= parsed0.take(idx + 1));
                        assert(parsed@ =~= parsed0.skip(idx + 1));
                        assert(parse_layer_ok(bs[idx as int], lg));
                        assert(layer_width(bs[idx as int]) == x_space as int);
                        assert(layer_height(bs[idx as int]) == y_space as int);
                    }
                },
                Err(e) => {
                    proof {
                        assert(parse_layer_ok(bs[idx as int], lg));
                        if idx == 0 {
                            assert(e == PlotError::MissingOrigin);
                            assert(lg.origin is None);
                            assert(origin_count(classify_seq(layer_cells(bs[0]))) == 0) by {
                                crate::layer::lemma_origin_count_nonneg(
                                    classify_seq(layer_cells(bs[0])),
                                );
                            }
                        } else {
                            assert(parsed0[0].origin is Some);
                            assert(origin_count(classify_seq(layer_cells(bs[0]))) == 1);
                            lemma_first_dim_error_at(
                                bs,
                                x_space as int,
                                y_space as int,
                                idx as int,
                            );
                        }
                    }
                    return Err(e);
                },
            }
            idx = idx + 1;
        }
        proof {
            assert(plot.layers@ =~= parsed0);
            lemma_first_dim_error_at(bs, x_space as int, y_space as int, bs.len() as int);
            assert(parsed0[0].origin is Some);
            assert(origin_count(classify_seq(layer_cells(bs[0]))) == 1);
            assert forall|i: int| 0 <= i < plot.layers@.len() implies {
                let l = #[trigger] plot.layers@[i];
                &&& l.x_space == plot.space.x
                &&& l.y_space == plot.space.y
                &&& l.wf()
            } by {
                assert(parse_layer_ok(bs[i], parsed0[i]));
                assert(layer_width(bs[i]) == x_space as int);
                assert(layer_height(bs[i]) == y_space as int);
            }
        }
        Ok(plot)
    }
}

/// Whether a cell is an active probe target: the origin doubles as one.
pub open spec fn cell_active(p: PointType) -> bool {
    p is Origin || p is ProbePoint
}

/// Whether a cell is an active probe target.
pub fn is_active(p: &PointType) -> (r: bool)
    ensures
        r == cell_active(*p),
{
    matches!(p, PointType::Origin | PointType::ProbePoint)
}

/// For an offset `d` in `[-lo, hi]`, the doubled offset, its product with
/// the resolution, and the shifted coordinate all stay within `i64`.
proof fn lemma_offset_bounds(o: int, lo: int, hi: int, res: int, d: int)
    requires
        res >= 1,
        lo >= 0,
        hi >= 0,
        -lo <= d <= hi,
        lo * 2 * res <= i64::MAX,
        hi * 2 * res <= i64::MAX,
        i64::MIN <= o - lo * 2 * res,
        o + hi * 2 * res <= i64::MAX,
    ensures
        -(lo * 2) <= d * 2 <= hi * 2,
        lo * 2 <= i64::MAX,
        hi * 2 <= i64::MAX,
        -(lo * 2 * res) <= d * 2 * res <= hi * 2 * res,
        i64::MIN <= o + d * 2 * res <= i64::MAX,
{
    assert(lo * 2 <= lo * 2 * res) by (nonlinear_arith)
        requires
            res >= 1,
            lo >= 0,
    ;
    assert(hi * 2 <= hi * 2 * res) by (nonlinear_arith)
        requires
            res >= 1,
            hi >= 0,
    ;
    vstd::arithmetic::mul::lemma_mul_inequality(d * 2, hi * 2, res);
    vstd::arithmetic::mul::lemma_mul_inequality(-(lo * 2), d * 2, res);
    assert((-(lo * 2)) * res == -(lo * 2 * res)) by (nonlinear_arith);
}

impl CustomPlot {
    /// The anchor column of the first layer.
    pub open spec fn origin_col(self) -> int {
        self.layers@[0].origin.unwrap().0 as int
    }

    /// The anchor row of the first layer.
    pub open spec fn origin_row(self) -> int {
        self.layers@[0].origin.unwrap().1 as int
    }

    /// The machine `x` coordinate of pattern column `c`, in half-tenths:
    /// the anchor column sits exactly on the origin coordinate, and each
    /// column is one resolution step (`2 r` half-tenths for `r` tenths)
    /// away from its neighbour.
    pub open spec fn cell_x(self, c: int) -> int {
        self.origin_coordinate.x + (c - self.origin_col()) * 2 * self.resolution
    }

    /// The machine `y` coordinate of pattern row `r`.
    pub open spec fn cell_y(self, r: int) -> int {
        self.origin_coordinate.y + (r - self.origin_row()) * 2 * self.resolution
    }

    /// The machine `z` coordinate of layer `z`: anchored at the origin,
    /// growing away from it.
    pub open spec fn cell_z(self, z: int) -> int {
        self.origin_coordinate.z + z * 2 * self.resolution
    }

    /// The machine coordinate of cell `i` (row-major) of layer `z`.
    pub open spec fn cell_point(self, z: int, i: int) -> Point3 {
        let w = self.space.x as int;
        Point3 {
            x: self.cell_x(i % w) as i64,
            y: self.cell_y(i / w) as i64,
            z: self.cell_z(z) as i64,
        }
    }

    /// The probe targets of the first `n` cells of layer `z`, in cell
    /// order: every active cell contributes its machine coordinate.
    pub open spec fn layer_points_up_to(self, z: int, n: int) -> Seq<Point3>
        decreases n,
    {
        if n <= 0 {
            Seq::empty()
        } else {
            self.layer_points_up_to(z, n - 1) + if cell_active(self.layers@[z].points@[n - 1]) {
                seq![self.cell_point(z, n - 1)]
            } else {
                Seq::empty()
            }
        }
    }

    /// The probe targets of the first `z` layers, in layer order.
    pub open spec fn points_up_to_layer(self, z: int) -> Seq<Point3>
        decreases z,
    {
        if z <= 0 {
            Seq::empty()
        } else {
            self.points_up_to_layer(z - 1) + self.layer_points_up_to(
                z - 1,
                self.layers@[z - 1].points@.len() as int,
            )
        }
    }

    /// The pattern can be plotted: it is well formed, anchored by its first
    /// layer's origin cell, and every coordinate it would compute, and
    /// every intermediate product, stays within the `i64` machine range.
    pub open spec fn pattern_ready(self) -> bool {
        let w = self.space.x as int;
        let h = self.space.y as int;
        let last = self.layers@.len() - 1;
        &&& self.wf()
        &&& self.layers@.len() >= 1
        &&& self.layers@[0].origin is Some
        &&& self.origin_col() < w
        &&& self.origin_row() < h
        &&& self.resolution >= 1
        &&& w <= i64::MAX
        &&& h <= i64::MAX
        &&& self.layers@.len() <= i64::MAX
        &&& self.origin_col() * 2 * self.resolution <= i64::MAX
        &&& (w - 1 - self.origin_col()) * 2 * self.resolution <= i64::MAX
        &&& i64::MIN <= self.origin_coordinate.x - self.origin_col() * 2 * self.resolution
        &&& self.origin_coordinate.x + (w - 1 - self.origin_col()) * 2 * self.resolution
            <= i64::MAX
        &&& self.origin_row() * 2 * self.resolution <= i64::MAX
        &&& (h - 1 - self.origin_row()) * 2 * self.resolution <= i64::MAX
        &&& i64::MIN <= self.origin_coordinate.y - self.origin_row() * 2 * self.resolution
        &&& self.origin_coordinate.y + (h - 1 - self.origin_row()) * 2 * self.resolution
            <= i64::MAX
        &&& last * 2 * self.resolution <= i64::MAX
        &&& self.origin_coordinate.z + last * 2 * self.resolution <= i64::MAX
    }
}

/// For a non-negative factor and positive multiplier, the product stays
/// under a bound exactly when the factor stays under the divided bound.
proof fn lemma_mul_le_iff_div(a: int, b: int, m: int)
    requires
        a >= 0,
        b >= 1,
        m >= 0,
    ensures
        (a * b <= m) <==> (a <= m / b),
{
    if a <= m / b {
        vstd::arithmetic::mul::lemma_mul_inequality(a, m / b, b);
        vstd::arithmetic::div_mod::lemma_fundamental_div_mod(m, b);
        vstd::arithmetic::div_mod::lemma_mod_division_less_than_divisor(m, b);
        assert((m / b) * b == b * (m / b)) by (nonlinear_arith);
    }
    if a * b <= m {
        vstd::arithmetic::div_mod::lemma_div_is_ordered(a * b, m, b);
        vstd::arithmetic::div_mod::lemma_div_multiples_vanish(a, b);
        assert(a * b == b * a) by (nonlinear_arith);
    }
}

impl CustomPlot {
    /// Decides whether this pattern can be plotted: well formed, anchored
    /// by its first layer's origin cell, and every coordinate it would
    /// compute within the fixed-point machine range.
    pub fn plot_ready(&self) -> (b: bool)
        ensures
            b == self.pattern_ready(),
    {
        if self.layers.len() > self.space.z || self.layers.len() == 0 {
            return false;
        }
        let mut i: usize = 0;
        while i < self.layers.len()
            invariant
                i <= self.layers@.len(),
                forall|j: int|
                    0 <= j < i ==> {
                        let l = #[trigger] self.layers@[j];
                        &&& l.x_space == self.space.x
                        &&& l.y_space == self.space.y
                        &&& l.wf()
                    },
            decreases self.layers@.len() - i,
        {
            if self.layers[i].x_space != self.space.x || self.layers[i].y_space != self.space.y
                || !self.layers[i].check_wf() {
                return false;
            }
            i = i + 1;
        }
        let (oc, orow) = match self.layers[0].origin {
            Some(cell) => cell,
            None => {
                return false;
            },
        };
        if oc >= self.space.x || orow >= self.space.y || self.resolution < 1 {
            return false;
        }
        let max = i64::MAX as i128;
        let min = i64::MIN as i128;
        if (self.space.x as u128) > (i64::MAX as u128) || (self.space.y as u128) > (
        i64::MAX as u128) || (self.layers.len() as u128) > (i64::MAX as u128) {
            return false;
        }
        let w = self.space.x as i128;
        let h = self.space.y as i128;
        let last = (self.layers.len() as i128) - 1;
        let occ = oc as i128;
        let orr = orow as i128;
        let r = self.resolution as i128;
        let ox = self.origin_coordinate.x as i128;
        let oy = self.origin_coordinate.y as i128;
        let oz = self.origin_coordinate.z as i128;
        let bound = max / r;
        proof {
            vstd::arithmetic::div_mod::lemma_div_pos_is_pos(max as int, r as int);
            lemma_mul_le_iff_div(occ as int * 2, r as int, max as int);
            lemma_mul_le_iff_div((w - 1 - occ) as int * 2, r as int, max as int);
            lemma_mul_le_iff_div(orr as int * 2, r as int, max as int);
            lemma_mul_le_iff_div((h - 1 - orr) as int * 2, r as int, max as int);
            lemma_mul_le_iff_div(last as int * 2, r as int, max as int);
        }
        if occ * 2 > bound || (w - 1 - occ) * 2 > bound || orr * 2 > bound || (h - 1 - orr) * 2
            > bound || last * 2 > bound {
            return false;
        }
        let px_lo = occ * 2 * r;
        let px_hi = (w - 1 - occ) * 2 * r;
        let py_lo = orr * 2 * r;
        let py_hi = (h - 1 - orr) * 2 * r;
        let pz_hi = last * 2 * r;
        min <= ox - px_lo && ox + px_hi <= max && min <= oy - py_lo && oy + py_hi <= max && oz
            + pz_hi <= max
    }
}

impl crate::Plot for CustomPlot {
    open spec fn wf_plot(&self) -> bool {
        self.pattern_ready()
    }

    open spec fn points_spec(&self) -> Seq<Point3> {
        self.points_up_to_layer(self.layers@.len() as int)
    }

    fn produce_points(&self) -> (r: Vec<Point3>) {
        let w = self.space.x;
        let (oc, orow) = self.layers[0].origin.unwrap();
        let oc_i: i64 = oc as i64;
        let or_i: i64 = orow as i64;
        let ox = self.origin_coordinate.x;
        let oy = self.origin_coordinate.y;
        let oz = self.origin_coordinate.z;
        let res = self.resolution;
        let mut pts: Vec<Point3> = Vec::new();
        let mut z: usize = 0;
        while z < self.layers.len()
            invariant
                self.pattern_ready(),
                w == self.space.x,
                oc_i as int == self.origin_col(),
                or_i as int == self.origin_row(),
                ox == self.origin_coordinate.x,
                oy == self.origin_coordinate.y,
                oz == self.origin_coordinate.z,
                res == self.resolution,
                z <= self.layers@.len(),
                pts@ == self.points_up_to_layer(z as int),
            decreases self.layers@.len() - z,
        {
            let n = self.layers[z].points.len();
            let mut i: usize = 0;
            while i < n
                invariant
                    self.pattern_ready(),
                    w == self.space.x,
                    oc_i as int == self.origin_col(),
                    or_i as int == self.origin_row(),
                    ox == self.origin_coordinate.x,
                    oy == self.origin_coordinate.y,
                    oz == self.origin_coordinate.z,
                    res == self.resolution,
                    z < self.layers@.len(),
                    n == self.layers@[z as int].points@.len(),
                    i <= n,
                    pts@ == self.points_up_to_layer(z as int) + self.layer_points_up_to(
                        z as int,
                        i as int,
                    ),
                decreases n - i,
            {
                let p = self.layers[z].points[i];
                let ghost target = self.points_up_to_layer(z as int) + self.layer_points_up_to(
                    z as int,
                    i + 1,
                );
                if is_active(&p) {
                    proof {
                        assert(self.layers@[z as int].wf());
                        assert(w >= 1) by (nonlinear_arith)
                            requires
                                self.layers@[z as int].points@.len() == self.layers@[z as int].x_space
                                    * self.layers@[z as int].y_space,
                                self.layers@[z as int].x_space == self.space.x,
                                i < self.layers@[z as int].points@.len(),
                                w == self.space.x,
                        ;
                    }
                    let c = i % w;
                    let row = i / w;
                    proof {
                        assert(i < w * (self.space.y as int)) by {
                            assert(self.layers@[z as int].y_space == self.space.y);
                        }
                        vstd::arithmetic::div_mod::lemma_multiply_divide_lt(
                            i as int,
                            w as int,
                            self.space.y as int,
                        );
                        assert(row < self.space.y);
                        lemma_offset_bounds(
                            ox as int,
                            oc_i as int,
                            self.space.x as int - 1 - oc_i as int,
                            res as int,
                            c as int - oc_i as int,
                        );
                        lemma_offset_bounds(
                            oy as int,
                            or_i as int,
                            self.space.y as int - 1 - or_i as int,
                            res as int,
                            row as int - or_i as int,
                        );
                        lemma_offset_bounds(
                            oz as int,
                            0,
                            self.layers@.len() - 1,
                            res as int,
                            z as int,
                        );
                    }
                    let dc: i64 = (c as i64) - oc_i;
                    let dr: i64 = (row as i64) - or_i;
                    let x: i64 = ox + dc * 2 * res;
                    let y: i64 = oy + dr * 2 * res;
                    let zc: i64 = oz + (z as i64) * 2 * res;
                    pts.push(Point3 { x, y, z: zc });
                    proof {
                        assert(self.cell_point(z as int, i as int) == Point3 { x, y, z: zc });
                        assert(pts@ =~= target);
                    }
                } else {
                    proof {
                        assert(pts@ =~= target);
                    }
                }
                i = i + 1;
            }
            proof {
                assert(pts@ =~= self.points_up_to_layer(z + 1));
            }
            z = z + 1;
        }
        pts
    }

    fn plot(&self, wait_time: u64, pre_trigger_wait: u64) -> (r: String) {
        let points = self.produce_points();
        let commands = crate::command::commands_for(&points, wait_time, pre_trigger_wait);
        crate::command::create_gcode(commands)
    }
}

/// Every layer of a well-formed pattern agrees with the declared space:
/// re-deriving the width and height from any layer gives the pattern's own.
pub proof fn lemma_pattern_space_consistent(p: CustomPlot)
    requires
        p.wf(),
    ensures
        forall|i: int|
            0 <= i < p.layers@.len() ==> (#[trigger] p.layers@[i]).x_space == p.space.x
                && p.layers@[i].y_space == p.space.y,
{
}

} // verus!
