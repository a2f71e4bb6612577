use vstd::prelude::*;
use vstd::arithmetic::div_mod::lemma_fundamental_div_mod_converse;

use crate::errors::Error;

verus! {

/// The most points a grid can have: each is numbered by a `u16`.
pub const MAX_POINTS: u32 = 65536;

/// Where one point of a `width` by `height` grid stands. Points are
/// numbered row by row from the top left; the grid is spread over the square
/// from -100 to 100 on both axes. Coordinates are exact fractions.
#[derive(Clone, Copy, Debug, PartialEq, Eq, Structural)]
pub struct GridPoint {
    pub index: u32,
    pub column: u32,
    pub row: u32,
    pub x_numerator: i64,
    pub x_denominator: i64,
    pub y_numerator: i64,
    pub y_denominator: i64,
    pub fraction_numerator: i64,
    pub fraction_denominator: i64,
}

/// `x` of point `i`, times `width - 1`: `-100 + (i mod width) * 200 / (width - 1)`.
pub open spec fn x_numerator(i: int, width: int) -> int {
    -100 * (width - 1) + 200 * (i % width)
}

/// `y` of point `i`, times `height - 1`: `100 - 200 / (height - 1) * floor(i / width)`.
pub open spec fn y_numerator(i: int, width: int, height: int) -> int {
    100 * (height - 1) - 200 * (i / width)
}

pub open spec fn valid_grid(width: int, height: int) -> bool {
    2 <= width && 2 <= height && width * height <= MAX_POINTS
}

/// The point of index `index` in a `width` by `height` grid.
pub fn grid_point(index: u32, width: u16, height: u16) -> (r: GridPoint)
    requires
        valid_grid(width as int, height as int),
        index < width * height,
    ensures
        r.index == index,
        r.column == index % (width as u32),
        r.row == index / (width as u32),
        r.x_numerator == x_numerator(index as int, width as int),
        r.x_denominator == width - 1,
        r.y_numerator == y_numerator(index as int, width as int, height as int),
        r.y_denominator == height - 1,
        r.fraction_numerator == index,
        r.fraction_denominator == width * height - 1,
{
    let w = width as u32;
    let h = height as u32;
    proof {
        assert(width <= width * height && height <= width * height) by (nonlinear_arith)
            requires
                width >= 2,
                height >= 2,
        ;
        assert(index / w <= index) by (nonlinear_arith)
            requires
                w >= 2,
        ;
    }
    let column = index % w;
    let row = index / w;
    let x_numerator = -100 * (w as i64 - 1) + 200 * (column as i64);
    let y_numerator = 100 * (h as i64 - 1) - 200 * (row as i64);
    GridPoint {
        index,
        column,
        row,
        x_numerator,
        x_denominator: w as i64 - 1,
        y_numerator,
        y_denominator: h as i64 - 1,
        fraction_numerator: index as i64,
        fraction_denominator: (w * h) as i64 - 1,
    }
}

/// On every grid, the first point stands at the top left `(-100, 100)`
/// and the last at the bottom right `(100, -100)`.
pub proof fn lemma_grid_corners(width: int, height: int)
    requires
        width >= 2,
        height >= 2,
    ensures
        x_numerator(0, width) == -100 * (width - 1),
        y_numerator(0, width, height) == 100 * (height - 1),
        x_numerator(width * height - 1, width) == 100 * (width - 1),
        y_numerator(width * height - 1, width, height) == -100 * (height - 1),
{
    lemma_fundamental_div_mod_converse(0, width, 0, 0);
    assert(width * height - 1 == (height - 1) * width + (width - 1)) by (nonlinear_arith);
    lemma_fundamental_div_mod_converse(width * height - 1, width, height - 1, width - 1);
}

/// A point's index as the pass lists it.
pub open spec fn point_index(i: int) -> u16 {
    i as u16
}

/// The indices of the points whose evaluation met an error, in order.
pub open spec fn failed_in(errors: Seq<Vec<Error>>) -> Seq<u16>
    decreases errors.len(),
{
    if errors.len() == 0 {
        seq![]
    } else if errors.last()@.len() > 0 {
        failed_in(errors.drop_last()).push(point_index(errors.len() - 1))
    } else {
        failed_in(errors.drop_last())
    }
}

/// The indices of the points of a pass whose list of errors is not empty.
pub fn failed_indexes(errors: &Vec<Vec<Error>>) -> (r: Vec<u16>)
    requires
        errors@.len() <= 65536,
    ensures
        r@ == failed_in(errors@),
{
    let mut out: Vec<u16> = Vec::new();
    let mut i: usize = 0;
    proof {
        assert(errors@.subrange(0, 0) =~= Seq::<Vec<Error>>::empty());
    }
    while i < errors.len()
        invariant
            i <= errors@.len() <= 65536,
            out@ == failed_in(errors@.subrange(0, i as int)),
        decreases errors@.len() - i,
    {
        proof {
            assert(errors@.subrange(0, i + 1).drop_last() =~= errors@.subrange(0, i as int));
        }
        if errors[i].len() > 0 {
            out.push(i as u16);
        }
        i = i + 1;
    }
    proof {
        assert(errors@.subrange(0, i as int) =~= errors@);
    }
    out
}

/// A point's index is listed as failed exactly when that point's own list
/// of errors is not empty: an error at one point marks no other.
pub proof fn lemma_failed_only_where_errors(errors: Seq<Vec<Error>>, i: int)
    requires
        errors.len() <= 65536,
        0 <= i < errors.len(),
    ensures
        failed_in(errors).contains(i as u16) <==> errors[i]@.len() > 0,
    decreases errors.len(),
{
    lemma_failed_below(errors);
    let n = errors.len() - 1;
    if i < n {
        lemma_failed_only_where_errors(errors.drop_last(), i);
        assert(errors.drop_last()[i] == errors[i]);
        if errors.last()@.len() > 0 {
            let f = failed_in(errors.drop_last());
            assert(failed_in(errors) == f.push(n as u16));
            assert(f.push(n as u16).contains(i as u16) <==> f.contains(i as u16)) by {
                let g = f.push(n as u16);
                if g.contains(i as u16) {
                    let j = choose|j: int| 0 <= j < g.len() && #[trigger] g[j] == i as u16;
                    if j < f.len() {
                        assert(f[j] == i as u16);
                    }
                }
                if f.contains(i as u16) {
                    let j = choose|j: int| 0 <= j < f.len() && #[trigger] f[j] == i as u16;
                    assert(f.push(n as u16)[j] == i as u16);
                }
            }
        }
    } else {
        let f = failed_in(errors.drop_last());
        lemma_failed_below(errors.drop_last());
        if errors.last()@.len() > 0 {
            assert(failed_in(errors).last() == i as u16);
        } else {
            if f.contains(i as u16) {
                let j = choose|j: int| 0 <= j < f.len() && #[trigger] f[j] == i as u16;
                assert((f[j] as int) < n);
            }
        }
    }
}

/// Every index listed comes before the end of the list of points.
proof fn lemma_failed_below(errors: Seq<Vec<Error>>)
    requires
        errors.len() <= 65536,
    ensures
        forall|j: int| 0 <= j < failed_in(errors).len() ==> (#[trigger] failed_in(errors)[j] as int) < errors.len(),
    decreases errors.len(),
{
    if errors.len() > 0 {
        lemma_failed_below(errors.drop_last());
        let f = failed_in(errors.drop_last());
        if errors.last()@.len() > 0 {
            assert forall|j: int| 0 <= j < f.push(point_index(errors.len() - 1)).len() implies (#[trigger] f.push(
                point_index(errors.len() - 1),
            )[j] as int) < errors.len() by {
                if j < f.len() {
                    assert(f.push(point_index(errors.len() - 1))[j] == f[j]);
                }
            }
        }
    }
}

} // verus!
