//! Small geometric helpers shared by individual implementations, and the
//! raw colour-channel records consumed by the diversity visualiser.

use vstd::prelude::*;

verus! {

/// Coordinates must stay well inside `i32` so that squared distances fit in
/// `i64` and Manhattan distances fit in `i32`.
pub const COORD_LIMIT: i32 = 0x2000_0000;

/// A point on an integer grid.
#[derive(Debug, Clone, Copy, PartialEq, Eq, Structural)]
pub struct Coord {
    pub x: i32,
    pub y: i32,
}

/// `c` is far enough from the `i32` boundaries that differences of two such
/// coordinates square and sum without overflowing `i64`.
pub open spec fn coord_in_limit(c: Coord) -> bool {
    -(COORD_LIMIT as int) < c.x < COORD_LIMIT as int
        && -(COORD_LIMIT as int) < c.y < COORD_LIMIT as int
}

/// The squared Euclidean distance between two points, as a mathematical
/// integer.
pub open spec fn spec_distance_euclid(first: Coord, second: Coord) -> int {
    let dx = second.x - first.x;
    let dy = second.y - first.y;
    dx * dx + dy * dy
}

/// The Manhattan distance between two points.
pub open spec fn spec_distance_manhattan(first: Coord, second: Coord) -> int {
    let dx = second.x - first.x;
    let dy = second.y - first.y;
    abs_int(dx) + abs_int(dy)
}

/// The absolute value of a mathematical integer.
pub open spec fn abs_int(x: int) -> int {
    if x < 0 {
        -x
    } else {
        x
    }
}

impl Coord {
    /// Squared Euclidean distance (no square root is ever taken: the engine
    /// only compares distances).
    pub fn distance_euclid(first: &Self, second: &Self) -> (d: i64)
        requires
            coord_in_limit(*first),
            coord_in_limit(*second),
        ensures
            d == spec_distance_euclid(*first, *second),
            d >= 0,
    {
        let x = second.x as i64 - first.x as i64;
        let y = second.y as i64 - first.y as i64;
        proof {
            assert((x * x) + (y * y) < i64::MAX && x * x >= 0 && y * y >= 0) by (nonlinear_arith)
                requires
                    -0x4000_0000i64 < x < 0x4000_0000i64,
                    -0x4000_0000i64 < y < 0x4000_0000i64,
            ;
        }
        (x * x) + (y * y)
    }

    /// Manhattan distance.
    pub fn distance_manhattan(first: &Self, second: &Self) -> (d: i32)
        requires
            coord_in_limit(*first),
            coord_in_limit(*second),
        ensures
            d == spec_distance_manhattan(*first, *second),
            d >= 0,
    {
        let x = second.x - first.x;
        let y = second.y - first.y;
        let ax = if x < 0 { -x } else { x };
        let ay = if y < 0 { -y } else { y };
        ax + ay
    }
}

/// One colour record for the diversity visualiser: the three channel values
/// of one individual.  Channels are carried in thousandths of a Lab unit,
/// so the lightness range 10..90 becomes 10_000..90_000.
#[derive(Debug, Clone, Copy, PartialEq, Eq, Structural)]
pub struct LabData {
    pub l: i64,
    pub a: i64,
    pub b: i64,
}

/// A colour record tagged with the grid index of the individual it belongs
/// to.
#[derive(Debug, Clone, Copy, PartialEq, Eq, Structural)]
pub struct IndexedLabData {
    pub index: usize,
    pub data: LabData,
}

impl IndexedLabData {
    pub fn new(l: i64, a: i64, b: i64, index: usize) -> (r: Self)
        ensures
            r == (IndexedLabData { index, data: LabData { l, a, b } }),
    {
        IndexedLabData { data: LabData { l, a, b }, index }
    }
}

/// Which channel of a [`LabData`] record a normalization pass works on.
#[derive(Clone, Copy, Debug, PartialEq, Eq, Structural)]
pub enum LabChannel {
    L,
    A,
    B,
}

/// Read one channel of a record.
pub open spec fn spec_channel(d: LabData, ch: LabChannel) -> i64 {
    match ch {
        LabChannel::L => d.l,
        LabChannel::A => d.a,
        LabChannel::B => d.b,
    }
}

/// The record with one channel replaced.
pub open spec fn with_channel(d: LabData, ch: LabChannel, v: i64) -> LabData {
    match ch {
        LabChannel::L => LabData { l: v, ..d },
        LabChannel::A => LabData { a: v, ..d },
        LabChannel::B => LabData { b: v, ..d },
    }
}

/// The sequence of one channel's values across a sequence of records.
pub open spec fn channel_seq(s: Seq<IndexedLabData>, ch: LabChannel) -> Seq<i64> {
    Seq::new(s.len(), |i: int| spec_channel(s[i].data, ch))
}

pub fn get_channel(d: &LabData, ch: LabChannel) -> (r: i64)
    ensures
        r == spec_channel(*d, ch),
{
    match ch {
        LabChannel::L => d.l,
        LabChannel::A => d.a,
        LabChannel::B => d.b,
    }
}

pub fn set_channel(d: &mut LabData, ch: LabChannel, v: i64)
    ensures
        *final(d) == with_channel(*old(d), ch, v),
{
    match ch {
        LabChannel::L => d.l = v,
        LabChannel::A => d.a = v,
        LabChannel::B => d.b = v,
    }
}

/// How many of the first `j` values are strictly below `x`.
pub open spec fn count_lt_upto(vals: Seq<i64>, x: int, j: int) -> int
    recommends
        0 <= j <= vals.len(),
    decreases j,
{
    if j <= 0 {
        0
    } else {
        count_lt_upto(vals, x, j - 1) + if vals[j - 1] < x {
            1int
        } else {
            0int
        }
    }
}

/// How many values are strictly below `x`: the rank of `x` in the sorted
/// order of `vals`, ties collapsed onto the first position of their group.
pub open spec fn count_lt(vals: Seq<i64>, x: int) -> int {
    count_lt_upto(vals, x, vals.len() as int)
}

/// The denominator of the rank scale: one less than the input count, with
/// a population of one mapped to the start of the range rather than
/// dividing by zero.
pub open spec fn rank_denom(len: int) -> int {
    if len > 1 {
        len - 1
    } else {
        1
    }
}

/// The rank-normalized image of `x` against the values `vals`, spread
/// linearly over the target range `lo..=hi`: values of equal rank land on
/// the same point, and rank `r` lands at `lo + r * (hi - lo) / (len - 1)`.
pub open spec fn rank_value(vals: Seq<i64>, x: int, lo: int, hi: int) -> int {
    lo + count_lt(vals, x) * (hi - lo) / rank_denom(vals.len() as int)
}

pub proof fn lemma_count_lt_upto_bounds(vals: Seq<i64>, x: int, j: int)
    requires
        0 <= j <= vals.len(),
    ensures
        0 <= count_lt_upto(vals, x, j) <= j,
    decreases j,
{
    if j > 0 {
        lemma_count_lt_upto_bounds(vals, x, j - 1);
    }
}

/// A value that occurs in the data never counts itself, so its rank stays
/// strictly below the input count.
pub proof fn lemma_count_lt_member(vals: Seq<i64>, x: int, k: int, j: int)
    requires
        0 <= k < vals.len(),
        vals[k] == x,
        0 <= j <= vals.len(),
    ensures
        count_lt_upto(vals, x, j) <= j - (if k < j {
            1int
        } else {
            0int
        }),
    decreases j,
{
    if j > 0 {
        lemma_count_lt_member(vals, x, k, j - 1);
    }
}

/// Counting below a larger bound never yields fewer.
pub proof fn lemma_count_lt_mono(vals: Seq<i64>, x: int, y: int, j: int)
    requires
        x <= y,
        0 <= j <= vals.len(),
    ensures
        count_lt_upto(vals, x, j) <= count_lt_upto(vals, y, j),
    decreases j,
{
    if j > 0 {
        lemma_count_lt_mono(vals, x, y, j - 1);
    }
}

/// A value of the data that is strictly below `y` pushes the rank of `y`
/// strictly above its own.
pub proof fn lemma_count_lt_strict(vals: Seq<i64>, x: int, y: int, k: int, j: int)
    requires
        0 <= k < vals.len(),
        vals[k] == x,
        x < y,
        k < j <= vals.len(),
    ensures
        count_lt_upto(vals, x, j) + 1 <= count_lt_upto(vals, y, j),
    decreases j,
{
    if j - 1 == k {
        lemma_count_lt_mono(vals, x, y, j - 1);
    } else {
        lemma_count_lt_strict(vals, x, y, k, j - 1);
    }
}

/// Rank normalization is order-preserving up to ties: equal inputs always
/// map to equal outputs, and a smaller input never maps above a larger
/// one.
pub proof fn lemma_rank_value_order(vals: Seq<i64>, x: i64, y: i64, lo: int, hi: int)
    requires
        lo <= hi,
        x <= y,
    ensures
        x == y ==> rank_value(vals, x as int, lo, hi) == rank_value(vals, y as int, lo, hi),
        rank_value(vals, x as int, lo, hi) <= rank_value(vals, y as int, lo, hi),
{
    let len = vals.len() as int;
    let cx = count_lt(vals, x as int);
    let cy = count_lt(vals, y as int);
    lemma_count_lt_mono(vals, x as int, y as int, len);
    vstd::arithmetic::mul::lemma_mul_inequality(cx, cy, hi - lo);
    vstd::arithmetic::div_mod::lemma_div_is_ordered(cx * (hi - lo), cy * (hi - lo), rank_denom(len));
}

/// Distinct inputs stay distinct whenever the target range is at least as
/// wide as the rank scale: a strictly smaller value of the data maps
/// strictly below a larger one, so sorting the normalized output recovers
/// the order of the input.
pub proof fn lemma_rank_value_strict(vals: Seq<i64>, x: i64, y: i64, k: int, lo: int, hi: int)
    requires
        0 <= k < vals.len(),
        vals[k] == x,
        x < y,
        hi - lo >= rank_denom(vals.len() as int),
    ensures
        rank_value(vals, x as int, lo, hi) < rank_value(vals, y as int, lo, hi),
{
    let len = vals.len() as int;
    let d = rank_denom(len);
    let r = hi - lo;
    let cx = count_lt(vals, x as int);
    let cy = count_lt(vals, y as int);
    lemma_count_lt_strict(vals, x as int, y as int, k, len);
    assert((cx + 1) * r == cx * r + r) by (nonlinear_arith);
    vstd::arithmetic::mul::lemma_mul_inequality(cx + 1, cy, r);
    vstd::arithmetic::div_mod::lemma_div_is_ordered(cx * r + d, cy * r, d);
    assert(cx * r / d + 1 == (cx * r + 1 * d) / d) by {
        vstd::arithmetic::div_mod::lemma_hoist_over_denominator(cx * r, 1, d as nat);
    }
    assert(1 * d == d);
}

} // verus!
