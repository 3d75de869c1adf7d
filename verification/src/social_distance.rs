//! A concrete individual for the engine: a set of points on a screen that
//! should keep a required distance from one another while staying near the
//! screen centre.
//!
//! All geometry is integer: distances are squared Euclidean distances, and
//! the fitness is the negated sum of per-point penalties, scaled by the
//! point count so that no fractions arise.

use vstd::prelude::*;

use crate::evo_individual::{EvoIndividual, EvoIndividualData};
use crate::population::PROB_SCALE;
use crate::rng::rng_below;
use crate::utils::{abs_int, coord_in_limit, spec_distance_euclid, Coord};

verus! {

/// Largest accepted screen side.
pub const SCREEN_LIMIT: u32 = 32768;

/// Largest accepted point count.
pub const POINTS_LIMIT: usize = 4096;

/// Largest accepted required distance.
pub const REQUIRED_DISTANCE_LIMIT: u32 = 65536;

/// Largest mutation step actually applied to a coordinate.
pub const STEP_LIMIT: u32 = 8192;

/// Crossover mixes parent coordinates in thousandths.
pub const RATIO_SCALE: u64 = 1000;

/// Squared distances between screen points never exceed this.
pub const DIST_BOUND: i64 = 2_147_483_648;

/// One point's penalty never exceeds this.
pub const PENALTY_BOUND: i64 = 0x2000_0000_0000;

#[derive(Clone)]
pub struct DistanceIndividualData {
    pub screen_width: u32,
    pub screen_height: u32,
    pub n_points: usize,
    pub required_distance: u32,
}

impl EvoIndividualData for DistanceIndividualData {
    /// The screen is large enough to place points away from its border and
    /// small enough that every penalty fits comfortably in `i64`; at least
    /// two points exist, so every point has a nearest neighbour.
    open spec fn valid(&self) -> bool {
        &&& 16 <= self.screen_width <= SCREEN_LIMIT
        &&& 16 <= self.screen_height <= SCREEN_LIMIT
        &&& 2 <= self.n_points <= POINTS_LIMIT
        &&& self.required_distance <= REQUIRED_DISTANCE_LIMIT
    }
}

impl DistanceIndividualData {
    pub fn new(screen_width: u32, screen_height: u32, n_points: usize, required_distance: u32) -> (r:
        Self)
        requires
            16 <= screen_width <= SCREEN_LIMIT,
            16 <= screen_height <= SCREEN_LIMIT,
            2 <= n_points <= POINTS_LIMIT,
            required_distance <= REQUIRED_DISTANCE_LIMIT,
        ensures
            r == (DistanceIndividualData { screen_width, screen_height, n_points, required_distance }),
            r.valid(),
    {
        DistanceIndividualData { screen_width, screen_height, n_points, required_distance }
    }
}

/// Every point lies on the screen.
pub open spec fn coords_on_screen(coords: Seq<Coord>, data: DistanceIndividualData) -> bool {
    forall|k: int|
        0 <= k < coords.len() ==> 0 <= (#[trigger] coords[k]).x <= data.screen_width && 0
            <= coords[k].y <= data.screen_height
}

/// The centre of the screen.
pub open spec fn spec_center(data: DistanceIndividualData) -> Coord {
    Coord { x: (data.screen_width / 2) as i32, y: (data.screen_height / 2) as i32 }
}

/// The least squared distance from point `i` to any of the first `j`
/// points other than itself, starting from an unreachable sentinel.
pub open spec fn min_dist_upto(coords: Seq<Coord>, i: int, j: int) -> int
    recommends
        0 <= i < coords.len(),
        0 <= j <= coords.len(),
    decreases j,
{
    if j <= 0 {
        i64::MAX as int
    } else {
        let prev = min_dist_upto(coords, i, j - 1);
        if j - 1 == i {
            prev
        } else {
            let d = spec_distance_euclid(coords[i], coords[j - 1]);
            if d < prev {
                d
            } else {
                prev
            }
        }
    }
}

/// The squared distance from point `i` to its nearest other point.
pub open spec fn closest_dist(coords: Seq<Coord>, i: int) -> int {
    min_dist_upto(coords, i, coords.len() as int)
}

/// The penalty of point `i`: how far its nearest-neighbour distance misses
/// the required squared distance, scaled by the point count, plus its
/// squared distance from the screen centre.
pub open spec fn point_penalty(coords: Seq<Coord>, data: DistanceIndividualData, i: int) -> int {
    abs_int(
        closest_dist(coords, i) - (data.required_distance as int) * (data.required_distance as int),
    ) * coords.len() + spec_distance_euclid(coords[i], spec_center(data))
}

/// The summed penalty of the first `k` points.
pub open spec fn penalty_upto(coords: Seq<Coord>, data: DistanceIndividualData, k: int) -> int
    decreases k,
{
    if k <= 0 {
        0
    } else {
        penalty_upto(coords, data, k - 1) + point_penalty(coords, data, k - 1)
    }
}

/// The fitness of a point set: the negated total penalty (higher is
/// better; zero is unreachable perfection).
pub open spec fn distance_fitness(coords: Seq<Coord>, data: DistanceIndividualData) -> int {
    -penalty_upto(coords, data, coords.len() as int)
}

/// Squared distances between two on-screen points are small.
proof fn lemma_euclid_bound(a: Coord, b: Coord)
    requires
        0 <= a.x <= SCREEN_LIMIT,
        0 <= a.y <= SCREEN_LIMIT,
        0 <= b.x <= SCREEN_LIMIT,
        0 <= b.y <= SCREEN_LIMIT,
    ensures
        0 <= spec_distance_euclid(a, b) <= DIST_BOUND,
{
    assert(0 <= (b.x - a.x) * (b.x - a.x) + (b.y - a.y) * (b.y - a.y) <= 2_147_483_648int)
        by (nonlinear_arith)
        requires
            -32768 <= b.x - a.x <= 32768,
            -32768 <= b.y - a.y <= 32768,
    ;
}

/// The nearest-neighbour distance is bounded by the distance to any one
/// other point, and never negative.
proof fn lemma_min_dist_le(coords: Seq<Coord>, i: int, k: int, j: int)
    requires
        0 <= i < coords.len(),
        0 <= k < j <= coords.len(),
        k != i,
    ensures
        min_dist_upto(coords, i, j) <= spec_distance_euclid(coords[i], coords[k]),
    decreases j,
{
    if j - 1 > k {
        lemma_min_dist_le(coords, i, k, j - 1);
    }
}

/// The nearest-neighbour distance is never negative (every term is a sum
/// of squares, and so is the sentinel).
proof fn lemma_min_dist_nonneg(coords: Seq<Coord>, i: int, j: int)
    requires
        0 <= i < coords.len(),
        0 <= j <= coords.len(),
    ensures
        min_dist_upto(coords, i, j) >= 0,
    decreases j,
{
    if j > 0 {
        lemma_min_dist_nonneg(coords, i, j - 1);
        if j - 1 != i {
            let a = coords[i];
            let b = coords[j - 1];
            assert((b.x - a.x) * (b.x - a.x) + (b.y - a.y) * (b.y - a.y) >= 0) by (nonlinear_arith);
        }
    }
}

/// One point's penalty is bounded when the data and the points are valid.
proof fn lemma_point_penalty_bound(coords: Seq<Coord>, data: DistanceIndividualData, i: int)
    requires
        data.valid(),
        coords_on_screen(coords, data),
        coords.len() == data.n_points,
        0 <= i < coords.len(),
    ensures
        0 <= point_penalty(coords, data, i) <= PENALTY_BOUND,
{
    let k = if i == 0 {
        1int
    } else {
        0int
    };
    lemma_min_dist_le(coords, i, k, coords.len() as int);
    lemma_min_dist_nonneg(coords, i, coords.len() as int);
    lemma_euclid_bound(coords[i], coords[k]);
    lemma_euclid_bound(coords[i], spec_center(data));
    assert(0 <= (data.required_distance as int) * (data.required_distance as int) <= 65536int
        * 65536int) by (nonlinear_arith)
        requires
            0 <= data.required_distance as int <= 65536,
    ;
    let rd2 = (data.required_distance as int) * (data.required_distance as int);
    let ad = abs_int(closest_dist(coords, i) - rd2);
    assert(0 <= ad * coords.len() <= 0x1800_0000_0000) by (nonlinear_arith)
        requires
            0 <= ad <= 2_147_483_648 + 65536int * 65536int,
            0 <= coords.len() <= 4096,
    ;
}

/// The total penalty grows by at most one bounded term per point.
proof fn lemma_penalty_upto_bound(coords: Seq<Coord>, data: DistanceIndividualData, k: int)
    requires
        data.valid(),
        coords_on_screen(coords, data),
        coords.len() == data.n_points,
        0 <= k <= coords.len(),
    ensures
        0 <= penalty_upto(coords, data, k) <= k * PENALTY_BOUND,
    decreases k,
{
    if k > 0 {
        lemma_penalty_upto_bound(coords, data, k - 1);
        lemma_point_penalty_bound(coords, data, k - 1);
        assert((k - 1) * PENALTY_BOUND + PENALTY_BOUND == k * PENALTY_BOUND) by (nonlinear_arith);
    }
}

/// The sum of the first `k` x coordinates.
pub open spec fn sum_x_upto(coords: Seq<Coord>, k: int) -> int
    decreases k,
{
    if k <= 0 {
        0
    } else {
        sum_x_upto(coords, k - 1) + coords[k - 1].x
    }
}

/// The sum of the first `k` y coordinates.
pub open spec fn sum_y_upto(coords: Seq<Coord>, k: int) -> int
    decreases k,
{
    if k <= 0 {
        0
    } else {
        sum_y_upto(coords, k - 1) + coords[k - 1].y
    }
}

/// A set of points with a cached fitness.
#[derive(Clone, Debug)]
pub struct DistanceIndividual {
    coords: Vec<Coord>,
    fitness: i64,
}

impl DistanceIndividual {
    /// The points of this individual, in order.
    pub closed spec fn spec_coords(&self) -> Seq<Coord> {
        self.coords@
    }

    pub fn get_coords(&self) -> (r: &Vec<Coord>)
        ensures
            r@ == self.spec_coords(),
    {
        &self.coords
    }
}

impl EvoIndividual<DistanceIndividualData> for DistanceIndividual {
    /// The point set matches the configured count and stays on the screen.
    closed spec fn valid(&self, data: &DistanceIndividualData) -> bool {
        &&& self.coords@.len() == data.n_points
        &&& coords_on_screen(self.coords@, *data)
    }

    closed spec fn fitness_spec(&self) -> i64 {
        self.fitness
    }

    closed spec fn fitness_of(&self, data: &DistanceIndividualData) -> i64 {
        distance_fitness(self.coords@, *data) as i64
    }

    closed spec fn visuals_spec(&self, data: &DistanceIndividualData) -> (i64, i64) {
        (
            sum_x_upto(self.coords@, self.coords@.len() as int) as i64,
            sum_y_upto(self.coords@, self.coords@.len() as int) as i64,
        )
    }

    fn new(data: &DistanceIndividualData) -> (r: Self) {
        let mut coords: Vec<Coord> = Vec::with_capacity(data.n_points);
        let mut k: usize = 0;
        while k < data.n_points
            invariant
                0 <= k <= data.n_points,
                data.valid(),
                coords@.len() == k,
                forall|m: int|
                    0 <= m < k ==> (#[trigger] coords@[m]) == (Coord { x: 0int as i32, y: 0int as i32 }),
            decreases data.n_points - k,
        {
            coords.push(Coord { x: 0, y: 0 });
            k += 1;
        }
        DistanceIndividual { coords, fitness: 0 }
    }

    fn new_randomised(data: &DistanceIndividualData, rng: &mut rand::rngs::SmallRng) -> (r: Self) {
        let mut coords: Vec<Coord> = Vec::with_capacity(data.n_points);
        let mut k: usize = 0;
        while k < data.n_points
            invariant
                0 <= k <= data.n_points,
                data.valid(),
                coords@.len() == k,
                coords_on_screen(coords@, *data),
            decreases data.n_points - k,
        {
            let x = (rng_below(rng, (data.screen_width - 10) as u64) + 5) as i32;
            let y = (rng_below(rng, (data.screen_height - 10) as u64) + 5) as i32;
            coords.push(Coord { x, y });
            k += 1;
        }
        DistanceIndividual { coords, fitness: 0 }
    }

    fn copy_to(&self, ind: &mut Self) {
        let len = self.coords.len();
        let mut coords: Vec<Coord> = Vec::with_capacity(len);
        let mut k: usize = 0;
        while k < len
            invariant
                0 <= k <= len,
                len == self.coords@.len(),
                coords@.len() == k,
                forall|m: int| 0 <= m < k ==> (#[trigger] coords@[m]) == self.coords@[m],
            decreases len - k,
        {
            coords.push(self.coords[k]);
            k += 1;
        }
        proof {
            assert(coords@ =~= self.coords@);
        }
        ind.coords = coords;
        ind.fitness = self.fitness;
        proof {
            assert forall|d: DistanceIndividualData| #[trigger] ind.valid(&d) == self.valid(
                &d,
            ) by {}
            assert forall|d: DistanceIndividualData| #[trigger] ind.fitness_of(&d)
                == self.fitness_of(&d) by {}
            assert forall|d: DistanceIndividualData| #[trigger] ind.visuals_spec(&d)
                == self.visuals_spec(&d) by {}
        }
    }

    /// Each point moves independently with probability `mut_prob`.  The
    /// step is drawn uniformly from `-amount..=amount` per axis (with the
    /// amplitude capped at [`STEP_LIMIT`]); a step that would leave the
    /// screen is applied in the opposite direction instead, and the result
    /// is clamped onto the screen.
    fn mutate(
        &mut self,
        data: &DistanceIndividualData,
        rng: &mut rand::rngs::SmallRng,
        mut_prob: u32,
        mut_amount: u32,
    ) {
        let amount: u32 = if mut_amount > STEP_LIMIT {
            STEP_LIMIT
        } else {
            mut_amount
        };
        let n = self.coords.len();
        let sw = data.screen_width as i32;
        let sh = data.screen_height as i32;
        let mut k: usize = 0;
        while k < n
            invariant
                0 <= k <= n,
                data.valid(),
                amount <= STEP_LIMIT,
                sw == data.screen_width as i32,
                sh == data.screen_height as i32,
                n == self.coords@.len(),
                self.coords@.len() == old(self).coords@.len(),
                self.fitness == old(self).fitness,
                coords_on_screen(self.coords@, *data),
            decreases n - k,
        {
            let roll = rng_below(rng, PROB_SCALE as u64);
            if roll < mut_prob as u64 {
                let span: u64 = 2 * (amount as u64) + 1;
                let x_mut = rng_below(rng, span) as i32 - amount as i32;
                let y_mut = rng_below(rng, span) as i32 - amount as i32;
                let c = self.coords[k];
                let mut nx = if c.x + x_mut < 0 || c.x + x_mut > sw {
                    c.x - x_mut
                } else {
                    c.x + x_mut
                };
                let mut ny = if c.y + y_mut < 0 || c.y + y_mut > sh {
                    c.y - y_mut
                } else {
                    c.y + y_mut
                };
                if nx < 0 {
                    nx = 0;
                }
                if nx > sw {
                    nx = sw;
                }
                if ny < 0 {
                    ny = 0;
                }
                if ny > sh {
                    ny = sh;
                }
                self.coords.set(k, Coord { x: nx, y: ny });
            }
            k += 1;
        }
    }

    /// Each child point is a convex mix of the two parent points, with one
    /// mixing ratio drawn per point.
    fn crossover(
        &self,
        another_ind: &Self,
        data: &DistanceIndividualData,
        rng: &mut rand::rngs::SmallRng,
    ) -> (r: Self) {
        let n = self.coords.len();
        let mut coords: Vec<Coord> = Vec::with_capacity(n);
        let mut k: usize = 0;
        while k < n
            invariant
                0 <= k <= n,
                data.valid(),
                n == self.coords@.len(),
                self.coords@.len() == data.n_points,
                another_ind.coords@.len() == data.n_points,
                coords_on_screen(self.coords@, *data),
                coords_on_screen(another_ind.coords@, *data),
                coords@.len() == k,
                coords_on_screen(coords@, *data),
            decreases n - k,
        {
            let ratio = rng_below(rng, RATIO_SCALE + 1) as i64;
            let a = self.coords[k];
            let b = another_ind.coords[k];
            proof {
                assert(0 <= (a.x as i64) * ratio + (b.x as i64) * (1000 - ratio) <= (
                data.screen_width as i64) * 1000 && 0 <= (a.y as i64) * ratio + (b.y as i64) * (1000
                    - ratio) <= (data.screen_height as i64) * 1000) by (nonlinear_arith)
                    requires
                        0 <= ratio <= 1000,
                        0 <= a.x as i64 <= data.screen_width as i64,
                        0 <= b.x as i64 <= data.screen_width as i64,
                        0 <= a.y as i64 <= data.screen_height as i64,
                        0 <= b.y as i64 <= data.screen_height as i64,
                ;
            }
            let num_x = (a.x as i64) * ratio + (b.x as i64) * (RATIO_SCALE as i64 - ratio);
            let num_y = (a.y as i64) * ratio + (b.y as i64) * (RATIO_SCALE as i64 - ratio);
            proof {
                assert(0 <= num_x / 1000 <= data.screen_width && 0 <= num_y / 1000
                    <= data.screen_height) by (nonlinear_arith)
                    requires
                        0 <= num_x <= (data.screen_width as i64) * 1000,
                        0 <= num_y <= (data.screen_height as i64) * 1000,
                ;
            }
            let x = (num_x / 1000) as i32;
            let y = (num_y / 1000) as i32;
            coords.push(Coord { x, y });
            k += 1;
        }
        DistanceIndividual { coords, fitness: 0 }
    }

    fn count_fitness(&mut self, data: &DistanceIndividualData) {
        let n = self.coords.len();
        proof {
            assert(0 <= (data.required_distance as i64) * (data.required_distance as i64)
                <= 65536int * 65536int) by (nonlinear_arith)
                requires
                    0 <= data.required_distance as i64 <= 65536,
            ;
        }
        let rd2: i64 = (data.required_distance as i64) * (data.required_distance as i64);
        let center = Coord {
            x: (data.screen_width / 2) as i32,
            y: (data.screen_height / 2) as i32,
        };
        let mut penalty: i64 = 0;
        let mut i: usize = 0;
        while i < n
            invariant
                0 <= i <= n,
                data.valid(),
                n == self.coords@.len(),
                self.coords@ == old(self).coords@,
                self.coords@.len() == data.n_points,
                coords_on_screen(self.coords@, *data),
                rd2 == (data.required_distance as int) * (data.required_distance as int),
                0 <= rd2 <= 65536int * 65536int,
                center == spec_center(*data),
                penalty == penalty_upto(self.coords@, *data, i as int),
                0 <= penalty <= (i as int) * PENALTY_BOUND,
            decreases n - i,
        {
            proof {
                lemma_penalty_upto_bound(self.coords@, *data, i as int);
                lemma_point_penalty_bound(self.coords@, *data, i as int);
                assert((i as int) * PENALTY_BOUND + PENALTY_BOUND == (i as int + 1) * PENALTY_BOUND)
                    by (nonlinear_arith);
                assert((i as int + 1) * PENALTY_BOUND <= 4096 * PENALTY_BOUND) by (nonlinear_arith)
                    requires
                        i as int + 1 <= 4096,
                ;
            }
            let mut closest: i64 = i64::MAX;
            let mut j: usize = 0;
            while j < n
                invariant
                    0 <= j <= n,
                    0 <= i < n,
                    data.valid(),
                    n == self.coords@.len(),
                    self.coords@.len() == data.n_points,
                    coords_on_screen(self.coords@, *data),
                    closest == min_dist_upto(self.coords@, i as int, j as int),
                decreases n - j,
            {
                if j != i {
                    let d = Coord::distance_euclid(&self.coords[i], &self.coords[j]);
                    if d < closest {
                        closest = d;
                    }
                }
                j += 1;
            }
            proof {
                let k = if i == 0 {
                    1int
                } else {
                    0int
                };
                lemma_min_dist_le(self.coords@, i as int, k, n as int);
                lemma_min_dist_nonneg(self.coords@, i as int, n as int);
                lemma_euclid_bound(self.coords@[i as int], self.coords@[k]);
                lemma_euclid_bound(self.coords@[i as int], spec_center(*data));
            }
            let diff = closest - rd2;
            let ad = if diff < 0 {
                -diff
            } else {
                diff
            };
            proof {
                assert(0 <= ad * (n as i64) <= 0x1800_0000_0000) by (nonlinear_arith)
                    requires
                        0 <= ad <= 2_147_483_648 + 65536int * 65536int,
                        0 <= n <= 4096,
                ;
            }
            let dc = Coord::distance_euclid(&self.coords[i], &center);
            let term = ad * (n as i64) + dc;
            penalty = penalty + term;
            i += 1;
        }
        proof {
            lemma_penalty_upto_bound(self.coords@, *data, n as int);
        }
        self.fitness = -penalty;
    }

    fn get_fitness(&self) -> (f: i64) {
        self.fitness
    }

    fn get_visuals(&self, data: &DistanceIndividualData) -> (v: (i64, i64)) {
        let n = self.coords.len();
        let mut a: i64 = 0;
        let mut b: i64 = 0;
        let mut k: usize = 0;
        while k < n
            invariant
                0 <= k <= n,
                data.valid(),
                n == self.coords@.len(),
                self.coords@.len() == data.n_points,
                coords_on_screen(self.coords@, *data),
                a == sum_x_upto(self.coords@, k as int),
                b == sum_y_upto(self.coords@, k as int),
                0 <= a <= (k as int) * (SCREEN_LIMIT as int),
                0 <= b <= (k as int) * (SCREEN_LIMIT as int),
            decreases n - k,
        {
            proof {
                assert((k as int) * (SCREEN_LIMIT as int) + SCREEN_LIMIT as int == (k as int + 1) * (
                SCREEN_LIMIT as int)) by (nonlinear_arith);
                assert((k as int + 1) * (SCREEN_LIMIT as int) <= 4096 * (SCREEN_LIMIT as int))
                    by (nonlinear_arith)
                    requires
                        k as int + 1 <= 4096,
                ;
            }
            let c = self.coords[k];
            a = a + c.x as i64;
            b = b + c.y as i64;
            k += 1;
        }
        (a, b)
    }
}

} // verus!
