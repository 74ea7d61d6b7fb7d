//! One horizontal slice of a custom probe pattern: symbol classification,
//! origin detection, and parsing of a rectangular text block.

use itertools::Itertools;
use vstd::prelude::*;

use crate::errors::PlotError;
use crate::text::chars_of;
use crate::text::flatten_rows;
use crate::text::flatten_seqs;
use crate::text::split_lines;
use crate::text::split_newline;

verus! {

/// The semantic kind of one pattern cell.
///
/// `Origin` anchors the pattern's horizontal indexing and doubles as a probe
/// target; `ProbePoint` is a plain probe target; `Empty` is skipped.
#[derive(Clone, Copy, Debug, PartialEq, Eq, Structural)]
pub enum PointType {
    Origin,
    Empty,
    ProbePoint,
}

/// The classification of one symbol: `o` anchors, `-` is empty, `x` probes,
/// everything else is invalid.
pub open spec fn classify_char(c: char) -> Option<PointType> {
    if c == 'o' {
        Some(PointType::Origin)
    } else if c == '-' {
        Some(PointType::Empty)
    } else if c == 'x' {
        Some(PointType::ProbePoint)
    } else {
        None
    }
}

/// Whether every symbol of the text is a recognized cell symbol.
pub open spec fn all_valid(s: Seq<char>) -> bool {
    forall|i: int| 0 <= i < s.len() ==> (#[trigger] classify_char(s[i])).is_some()
}

/// The classified cells of a fully valid text, in order.
pub open spec fn classify_seq(s: Seq<char>) -> Seq<PointType> {
    Seq::new(s.len(), |i: int| classify_char(s[i]).unwrap())
}

/// The first unrecognized symbol of the text, if any.
pub open spec fn first_bad(s: Seq<char>) -> Option<char>
    decreases s.len(),
{
    if s.len() == 0 {
        None
    } else if classify_char(s[0]).is_none() {
        Some(s[0])
    } else {
        first_bad(s.skip(1))
    }
}

/// The number of origin cells in a classified sequence.
pub open spec fn origin_count(pts: Seq<PointType>) -> int
    decreases pts.len(),
{
    if pts.len() == 0 {
        0
    } else {
        origin_count(pts.drop_last()) + if pts.last() is Origin {
            1int
        } else {
            0int
        }
    }
}

/// If every symbol before position `i` is recognized, the first bad symbol
/// is at `i` if `i` is bad, and there is none if the scan ran out.
pub proof fn lemma_first_bad_at(s: Seq<char>, i: int)
    requires
        0 <= i <= s.len(),
        forall|j: int| 0 <= j < i ==> (#[trigger] classify_char(s[j])).is_some(),
    ensures
        i == s.len() ==> first_bad(s).is_none(),
        i < s.len() && classify_char(s[i]).is_none() ==> first_bad(s) == Some(s[i]),
    decreases i,
{
    if i == 0 {
    } else {
        assert(classify_char(s[0]).is_some());
        lemma_first_bad_at(s.skip(1), i - 1);
        assert forall|j: int| 0 <= j < i - 1 implies (#[trigger] classify_char(
            s.skip(1)[j],
        )).is_some() by {
            assert(s.skip(1)[j] == s[j + 1]);
        }
        lemma_first_bad_at(s.skip(1), i - 1);
        if i < s.len() {
            assert(s.skip(1)[i - 1] == s[i]);
        }
    }
}

/// A sequence without origin cells has none at any position.
pub proof fn lemma_origin_count_zero(pts: Seq<PointType>)
    requires
        origin_count(pts) == 0,
    ensures
        forall|i: int| 0 <= i < pts.len() ==> !((#[trigger] pts[i]) is Origin),
    decreases pts.len(),
{
    if pts.len() > 0 {
        assert(origin_count(pts.drop_last()) >= 0) by {
            lemma_origin_count_nonneg(pts.drop_last());
        }
        lemma_origin_count_zero(pts.drop_last());
        assert forall|i: int| 0 <= i < pts.len() implies !((#[trigger] pts[i]) is Origin) by {
            if i < pts.len() - 1 {
                assert(pts.drop_last()[i] == pts[i]);
            }
        }
    }
}

/// An origin count is never negative.
pub proof fn lemma_origin_count_nonneg(pts: Seq<PointType>)
    ensures
        origin_count(pts) >= 0,
    decreases pts.len(),
{
    if pts.len() > 0 {
        lemma_origin_count_nonneg(pts.drop_last());
    }
}

/// In a sequence with exactly one origin cell, any two origin positions
/// coincide.
pub proof fn lemma_origin_unique(pts: Seq<PointType>, i: int, j: int)
    requires
        origin_count(pts) == 1,
        0 <= i < pts.len(),
        0 <= j < pts.len(),
        pts[i] is Origin,
        pts[j] is Origin,
    ensures
        i == j,
    decreases pts.len(),
{
    if pts.last() is Origin {
        lemma_origin_count_nonneg(pts.drop_last());
        lemma_origin_count_zero(pts.drop_last());
        if i < pts.len() - 1 {
            assert(pts.drop_last()[i] == pts[i]);
        }
        if j < pts.len() - 1 {
            assert(pts.drop_last()[j] == pts[j]);
        }
    } else {
        assert(i < pts.len() - 1 && j < pts.len() - 1) by {
            if i == pts.len() - 1 || j == pts.len() - 1 {
                assert(pts.last() is Origin);
            }
        }
        assert(pts.drop_last()[i] == pts[i] && pts.drop_last()[j] == pts[j]);
        lemma_origin_unique(pts.drop_last(), i, j);
    }
}

/// Whether a cell is the pattern's anchor.
pub fn is_origin(p: &PointType) -> (r: bool)
    ensures
        r == (*p is Origin),
{
    matches!(p, PointType::Origin)
}

/// Relies on itertools' `at_most_one` over the enumerated origin cells: it
/// yields `Ok(None)` when the filtered iterator is empty, `Ok` with the
/// single element when it yields exactly one, and an error when it yields
/// two or more.
#[verifier::external_body]
fn find_unique_origin(points: &Vec<PointType>) -> (r: Result<Option<usize>, ()>)
    ensures
        match r {
            Ok(opt) => match opt {
                Some(i) => origin_count(points@) == 1 && i < points@.len()
                    && points@[i as int] is Origin,
                None => origin_count(points@) == 0,
            },
            Err(()) => origin_count(points@) >= 2,
        },
{
    points
        .iter()
        .enumerate()
        .filter(|e: &(usize, &PointType)| is_origin(e.1))
        .at_most_one()
        .map(|o| o.map(|(i, _)| i))
        .map_err(|_| ())
}

/// Classifies one pattern symbol.
pub fn classify_symbol(c: char) -> (r: Result<PointType, PlotError>)
    ensures
        match r {
            Ok(p) => classify_char(c) == Some(p),
            Err(e) => classify_char(c).is_none() && e == PlotError::InvalidSymbol(c),
        },
{
    if c == 'o' {
        Ok(PointType::Origin)
    } else if c == '-' {
        Ok(PointType::Empty)
    } else if c == 'x' {
        Ok(PointType::ProbePoint)
    } else {
        Err(PlotError::InvalidSymbol(c))
    }
}

/// One horizontal slice of a custom pattern: a rectangular grid of
/// classified cells in row-major order (row index increasing downward),
/// with the detected origin cell, if any, as `(column, row)`.
pub struct ZLayer {
    pub x_space: usize,
    pub y_space: usize,
    pub points: Vec<PointType>,
    pub origin: Option<(usize, usize)>,
}

impl ZLayer {
    /// The cell count matches the declared rectangle.
    pub open spec fn wf(self) -> bool {
        self.points@.len() == self.x_space * self.y_space
    }

    /// Decides the layer's structural invariant.
    pub fn check_wf(&self) -> (b: bool)
        ensures
            b == self.wf(),
    {
        rect_matches(self.x_space, self.y_space, self.points.len())
    }

    /// Assembles a layer, rejecting a cell list whose length disagrees with
    /// the declared rectangle.
    pub fn construct_layer(
        x_space: usize,
        y_space: usize,
        origin: Option<(usize, usize)>,
        points: Vec<PointType>,
    ) -> (r: Result<ZLayer, PlotError>)
        ensures
            match r {
                Ok(l) => {
                    &&& points@.len() == x_space * y_space
                    &&& l == (ZLayer { x_space, y_space, points, origin })
                    &&& l.wf()
                },
                Err(e) => {
                    &&& points@.len() != x_space * y_space
                    &&& e == PlotError::PointCountMismatch
                },
            },
    {
        if rect_matches(x_space, y_space, points.len()) {
            Ok(ZLayer { x_space, y_space, origin, points })
        } else {
            Err(PlotError::PointCountMismatch)
        }
    }
}

/// The rows of a layer text block.
pub open spec fn layer_rows(block: Seq<char>) -> Seq<Seq<char>> {
    split_lines(block, Seq::empty())
}

/// The layer width a block declares: the length of its first row.
pub open spec fn layer_width(block: Seq<char>) -> int {
    layer_rows(block)[0].len() as int
}

/// The layer height a block declares: its row count.
pub open spec fn layer_height(block: Seq<char>) -> int {
    layer_rows(block).len() as int
}

/// The cell symbols of a block, rows joined in row-major order.
pub open spec fn layer_cells(block: Seq<char>) -> Seq<char> {
    flatten_seqs(layer_rows(block))
}

/// The position of the unique origin cell, meaningful when exactly one
/// exists.
pub open spec fn origin_index(pts: Seq<PointType>) -> int {
    choose|i: int| 0 <= i < pts.len() && pts[i] is Origin
}

/// The resolved origin cell of a classified layer: the unique origin's
/// zero-based `(column, row)`, or nothing when the layer has no origin.
pub open spec fn layer_origin(pts: Seq<PointType>, w: int) -> Option<(usize, usize)> {
    if origin_count(pts) == 1 {
        Some((((origin_index(pts) % w) as usize), ((origin_index(pts) / w) as usize)))
    } else {
        None
    }
}

/// What a successfully parsed layer holds, in terms of its source block:
/// every symbol classified in row-major order, the declared rectangle taken
/// from the first row and the row count, and the origin cell resolved from
/// the unique origin symbol.
pub open spec fn parse_layer_ok(block: Seq<char>, l: ZLayer) -> bool {
    let w = layer_width(block);
    let h = layer_height(block);
    let cells = layer_cells(block);
    let pts = classify_seq(cells);
    &&& all_valid(cells)
    &&& origin_count(pts) <= 1
    &&& cells.len() == w * h
    &&& l.x_space == w
    &&& l.y_space == h
    &&& l.points@ == pts
    &&& l.origin == layer_origin(pts, w)
}

/// When and with which failure parsing a block is refused: the first
/// unrecognized symbol, else more than one origin, else a cell count that
/// disagrees with the declared rectangle (unequal row lengths).
pub open spec fn parse_layer_err(block: Seq<char>, e: PlotError) -> bool {
    let w = layer_width(block);
    let h = layer_height(block);
    let cells = layer_cells(block);
    let pts = classify_seq(cells);
    match e {
        PlotError::InvalidSymbol(c) => first_bad(cells) == Some(c),
        PlotError::MultipleOrigins => all_valid(cells) && origin_count(pts) >= 2,
        PlotError::PointCountMismatch => all_valid(cells) && origin_count(pts) <= 1
            && cells.len() != w * h,
        _ => false,
    }
}

/// The failure a block parses to, if any, with the same precedence the
/// parser applies.
pub open spec fn block_error(block: Seq<char>) -> Option<PlotError> {
    let cells = layer_cells(block);
    let pts = classify_seq(cells);
    if first_bad(cells).is_some() {
        Some(PlotError::InvalidSymbol(first_bad(cells).unwrap()))
    } else if origin_count(pts) >= 2 {
        Some(PlotError::MultipleOrigins)
    } else if cells.len() != layer_width(block) * layer_height(block) {
        Some(PlotError::PointCountMismatch)
    } else {
        None
    }
}

/// A text has no unrecognized symbol exactly when every symbol is
/// recognized.
pub proof fn lemma_all_valid_iff(s: Seq<char>)
    ensures
        all_valid(s) <==> first_bad(s).is_none(),
    decreases s.len(),
{
    if all_valid(s) {
        lemma_first_bad_at(s, s.len() as int);
    }
    if first_bad(s).is_none() && s.len() > 0 {
        lemma_all_valid_iff(s.skip(1));
        assert forall|i: int| 0 <= i < s.len() implies (#[trigger] classify_char(
            s[i],
        )).is_some() by {
            if i > 0 {
                assert(s.skip(1)[i - 1] == s[i]);
                assert(classify_char(s.skip(1)[i - 1]).is_some());
            }
        }
    }
}

/// A refused block refuses with exactly the failure `block_error` names.
pub proof fn lemma_parse_layer_err_is_block_error(block: Seq<char>, e: PlotError)
    requires
        parse_layer_err(block, e),
    ensures
        block_error(block) == Some(e),
{
    lemma_all_valid_iff(layer_cells(block));
}

/// A successfully parsed block has no failure to name.
pub proof fn lemma_parse_layer_ok_no_block_error(block: Seq<char>, l: ZLayer)
    requires
        parse_layer_ok(block, l),
    ensures
        block_error(block).is_none(),
{
    lemma_all_valid_iff(layer_cells(block));
}

impl ZLayer {
    /// Parses one rectangular text block into a layer: rows split on line
    /// feeds, symbols classified in row-major order, the unique origin
    /// resolved to its zero-based `(column, row)` cell.
    pub fn from_string(s: &str) -> (r: Result<ZLayer, PlotError>)
        ensures
            match r {
                Ok(l) => parse_layer_ok(s@, l),
                Err(e) => parse_layer_err(s@, e),
            },
    {
        let chars = chars_of(s);
        ZLayer::from_chars(&chars)
    }

    /// Parses one rectangular block given as a character vector.
    pub fn from_chars(v: &Vec<char>) -> (r: Result<ZLayer, PlotError>)
        ensures
            match r {
                Ok(l) => parse_layer_ok(v@, l),
                Err(e) => parse_layer_err(v@, e),
            },
    {
        let lines = split_newline(v);
        let x_space = lines[0].len();
        let y_space = lines.len();
        let flat = flatten_rows(&lines);
        proof {
            assert(lines.deep_view()[0] == lines@[0]@);
            assert(x_space as int == layer_width(v@));
            assert(y_space as int == layer_height(v@));
            assert(flat@ == layer_cells(v@));
        }
        let mut points: Vec<PointType> = Vec::new();
        let mut i: usize = 0;
        while i < flat.len()
            invariant
                flat@ == layer_cells(v@),
                i <= flat@.len(),
                points@.len() == i,
                forall|j: int|
                    0 <= j < i ==> (#[trigger] classify_char(flat@[j])).is_some() && points@[j]
                        == classify_char(flat@[j]).unwrap(),
            decreases flat@.len() - i,
        {
            match classify_symbol(flat[i]) {
                Ok(p) => {
                    points.push(p);
                },
                Err(e) => {
                    proof {
                        lemma_first_bad_at(flat@, i as int);
                    }
                    return Err(e);
                },
            }
            i = i + 1;
        }
        proof {
            lemma_first_bad_at(flat@, flat@.len() as int);
            assert(points@ =~= classify_seq(flat@));
        }
        let origin_cell: Option<(usize, usize)> = match find_unique_origin(&points) {
            Err(()) => {
                return Err(PlotError::MultipleOrigins);
            },
            Ok(opt) => {
                proof {
                    lemma_origin_count_nonneg(points@);
                }
                if !rect_matches(x_space, y_space, points.len()) {
                    return Err(PlotError::PointCountMismatch);
                }
                match opt {
                    Some(oi) => {
                        proof {
                            assert(x_space > 0) by (nonlinear_arith)
                                requires
                                    points@.len() == x_space * y_space,
                                    oi < points@.len(),
                            ;
                            let wit = choose|w: int|
                                0 <= w < points@.len() && points@[w] is Origin;
                            assert(0 <= oi < points@.len() && points@[oi as int] is Origin);
                            lemma_origin_unique(points@, oi as int, wit);
                        }
                        Some((oi % x_space, oi / x_space))
                    },
                    None => None,
                }
            },
        };
        match ZLayer::construct_layer(x_space, y_space, origin_cell, points) {
            Ok(l) => Ok(l),
            Err(e) => Err(e),
        }
    }
}

/// Decides `len == w * h` without computing the product.
fn rect_matches(w: usize, h: usize, len: usize) -> (b: bool)
    ensures
        b == (len == w * h),
{
    if w == 0 {
        proof {
            assert(w * h == 0) by (nonlinear_arith)
                requires
                    w == 0,
            ;
        }
        len == 0
    } else {
        let b = len % w == 0 && len / w == h;
        proof {
            vstd::arithmetic::div_mod::lemma_fundamental_div_mod(len as int, w as int);
            if len == w * h {
                assert((w * h) % (w as int) == 0 && (w * h) / (w as int) == h)
                    by (nonlinear_arith)
                    requires
                        w >= 1,
                ;
            }
        }
        b
    }
}

} // verus!
