//! The population engine: a toroidal grid of individuals advanced one
//! synchronous generation at a time.
//!
//! Each cell is refilled from its five-cell neighbourhood (itself plus the
//! four toroidal neighbours).  With probability `crossover_prob` the new
//! individual is a crossover of the two tournament-best neighbours;
//! otherwise it is a mutated copy of one neighbour picked by the configured
//! selection strategy.  Crossover parents are always chosen by dual
//! tournament, whatever the configured single-parent strategy: the strategy
//! setting governs the pure-mutation path only.

use vstd::prelude::*;

use crate::evo_individual::{EvoIndividual, EvoIndividualData};
use crate::rng::{new_rng, rng_below, rng_below_u128};
use crate::utils::{
    channel_seq, count_lt_upto, get_channel, lemma_count_lt_member, lemma_count_lt_upto_bounds,
    rank_denom, rank_value, set_channel, spec_channel, with_channel, IndexedLabData, LabChannel,
    LabData,
};

verus! {

/// Probabilities are carried in parts per `PROB_SCALE`.
pub const PROB_SCALE: u32 = 1_000_000;

/// Colour channels are carried in thousandths of a Lab unit; the lightness
/// target range is 10.0 to 90.0.
pub const LAB_L_MIN: i64 = 10_000;

pub const LAB_L_MAX: i64 = 90_000;

/// The colour-axis target range is -128.0 to 128.0, in thousandths.
pub const LAB_AB_MIN: i64 = -128_000;

pub const LAB_AB_MAX: i64 = 128_000;

/// Capacity of the neighbour-index scratch buffer.
pub const MAX_NEIGHBOURS: usize = 9;

pub const DEFAULT_POP_WIDTH: usize = 128;

pub const DEFAULT_POP_HEIGHT: usize = 128;

/// One tenth of `PROB_SCALE`.
pub const DEFAULT_MUT_PROB: u32 = 100_000;

pub const DEFAULT_MUT_AMOUNT: u32 = 1;

/// One tenth of `PROB_SCALE`.
pub const DEFAULT_CROSSOVER_PROB: u32 = 100_000;

/// How a single parent is picked on the pure-mutation path.
#[derive(Clone, Copy, Debug, PartialEq, Eq, Structural)]
pub enum SelectionStrategyType {
    Tournament,
    Roulette,
}

/// The tuning surface consumed at construction, with the documented
/// defaults.
#[derive(Clone, Copy, Debug, PartialEq, Eq, Structural)]
pub struct PopulationParams {
    pub pop_width: usize,
    pub pop_height: usize,
    pub mut_prob: u32,
    pub mut_amount: u32,
    pub crossover_prob: u32,
    pub selection_strategy: SelectionStrategyType,
}

impl PopulationParams {
    /// The grid is non-empty, its size fits the address space, and the
    /// probabilities are genuine probabilities.
    pub open spec fn valid(&self) -> bool {
        &&& 1 <= self.pop_width
        &&& 1 <= self.pop_height
        &&& self.pop_width * self.pop_height <= usize::MAX
        &&& self.mut_prob <= PROB_SCALE
        &&& self.crossover_prob <= PROB_SCALE
    }
}

impl Default for PopulationParams {
    /// The defaults of the configuration surface: a 128 by 128 grid,
    /// mutation and crossover probability one tenth, tournament selection.
    fn default() -> (r: Self)
        ensures
            r == (PopulationParams {
                pop_width: DEFAULT_POP_WIDTH,
                pop_height: DEFAULT_POP_HEIGHT,
                mut_prob: DEFAULT_MUT_PROB,
                mut_amount: DEFAULT_MUT_AMOUNT,
                crossover_prob: DEFAULT_CROSSOVER_PROB,
                selection_strategy: SelectionStrategyType::Tournament,
            }),
            r.valid(),
    {
        PopulationParams {
            pop_width: DEFAULT_POP_WIDTH,
            pop_height: DEFAULT_POP_HEIGHT,
            mut_prob: DEFAULT_MUT_PROB,
            mut_amount: DEFAULT_MUT_AMOUNT,
            crossover_prob: DEFAULT_CROSSOVER_PROB,
            selection_strategy: SelectionStrategyType::Tournament,
        }
    }
}

/// The five neighbour indices of cell `i` on a `w` by `h` torus, in the
/// order centre, left, right, up, down.  The lateral neighbours wrap modulo
/// the width, the vertical ones modulo the height.
pub open spec fn l5_neighbours(i: int, w: int, h: int) -> Seq<int>
    recommends
        1 <= w,
        1 <= h,
        0 <= i < w * h,
{
    let x = i % w;
    let y = i / w;
    let xl = if x == 0 {
        w - 1
    } else {
        x - 1
    };
    let xr = if x == w - 1 {
        0
    } else {
        x + 1
    };
    let yt = if y == 0 {
        h - 1
    } else {
        y - 1
    };
    let yb = if y == h - 1 {
        0
    } else {
        y + 1
    };
    seq![i, y * w + xl, y * w + xr, yt * w + x, yb * w + x]
}

/// The neighbourhood always holds exactly five in-range indices and always
/// includes the cell itself, on every grid and at every cell: the wraparound
/// never leaves the grid, corners and edges included.
pub proof fn lemma_l5_in_range(i: int, w: int, h: int)
    requires
        1 <= w,
        1 <= h,
        0 <= i < w * h,
    ensures
        l5_neighbours(i, w, h).len() == 5,
        l5_neighbours(i, w, h)[0] == i,
        forall|k: int| 0 <= k < 5 ==> 0 <= #[trigger] l5_neighbours(i, w, h)[k] < w * h,
{
    let x = i % w;
    let y = i / w;
    assert(0 <= x < w && 0 <= y < h && y * w + x == i) by (nonlinear_arith)
        requires
            1 <= w,
            1 <= h,
            0 <= i < w * h,
            x == i % w,
            y == i / w,
    ;
    let xl = if x == 0 {
        w - 1
    } else {
        x - 1
    };
    let xr = if x == w - 1 {
        0
    } else {
        x + 1
    };
    let yt = if y == 0 {
        h - 1
    } else {
        y - 1
    };
    let yb = if y == h - 1 {
        0
    } else {
        y + 1
    };
    lemma_cell_in_range(xl, y, w, h);
    lemma_cell_in_range(xr, y, w, h);
    lemma_cell_in_range(x, yt, w, h);
    lemma_cell_in_range(x, yb, w, h);
}

/// A cell with a column inside the width and a row inside the height has a
/// flat index inside the grid.
proof fn lemma_cell_in_range(c: int, r: int, w: int, h: int)
    requires
        0 <= c < w,
        0 <= r < h,
    ensures
        0 <= r * w,
        0 <= r * w + c < w * h,
{
    assert(0 <= r * w && 0 <= r * w + c < w * h) by (nonlinear_arith)
        requires
            0 <= c < w,
            0 <= r < h,
    ;
}

pub struct Population<Individual, IndividualData> {
    // Current and next generation of individuals
    inds: Vec<Individual>,
    next_inds: Vec<Individual>,
    // Population size
    pop_width: usize,
    pop_height: usize,
    // Probability parameters
    mut_prob: u32,
    mut_amount: u32,
    crossover_prob: u32,
    // Current generation number
    i_generation: usize,
    // Data for individuals
    ind_data: IndividualData,
    // Which strategy fills a cell on the pure-mutation path
    selection_strategy: SelectionStrategyType,
}

impl<Individual, IndividualData> Population<Individual, IndividualData> where
    Individual: EvoIndividual<IndividualData>,
    IndividualData: EvoIndividualData,
 {
    /// The engine's invariant: a non-empty grid whose buffers both match the
    /// grid size, with every current individual well formed and carrying a
    /// fitness cache consistent with its genome (no stale fitness).
    pub closed spec fn well_formed(&self) -> bool {
        &&& 1 <= self.pop_width
        &&& 1 <= self.pop_height
        &&& self.pop_width * self.pop_height == self.inds.len()
        &&& 1 <= self.inds.len()
        &&& self.next_inds.len() == self.inds.len()
        &&& self.ind_data.valid()
        &&& self.mut_prob <= PROB_SCALE
        &&& self.crossover_prob <= PROB_SCALE
        &&& forall|k: int|
            0 <= k < self.inds.len() ==> (#[trigger] self.inds[k]).valid(&self.ind_data)
        &&& forall|k: int|
            0 <= k < self.inds.len() ==> (#[trigger] self.inds[k]).fitness_spec()
                == self.inds[k].fitness_of(&self.ind_data)
    }

    pub closed spec fn spec_width(&self) -> usize {
        self.pop_width
    }

    pub closed spec fn spec_height(&self) -> usize {
        self.pop_height
    }

    pub closed spec fn spec_generation(&self) -> usize {
        self.i_generation
    }

    pub closed spec fn spec_inds(&self) -> Seq<Individual> {
        self.inds@
    }

    pub closed spec fn spec_ind_data(&self) -> IndividualData {
        self.ind_data
    }

    pub fn get_at(&self, x: usize, y: usize) -> (r: &Individual)
        requires
            self.well_formed(),
            x < self.spec_width(),
            y < self.spec_height(),
        ensures
            *r == self.spec_inds()[y * self.spec_width() + x],
    {
        proof {
            assert(y * self.pop_width + x < self.pop_width * self.pop_height) by (nonlinear_arith)
                requires
                    x < self.pop_width,
                    y < self.pop_height,
            ;
        }
        &self.inds[y * self.pop_width + x]
    }

    pub fn get_width(&self) -> (r: usize)
        ensures
            r == self.spec_width(),
    {
        self.pop_width
    }

    pub fn get_height(&self) -> (r: usize)
        ensures
            r == self.spec_height(),
    {
        self.pop_height
    }

    /// The number of the current generation.
    pub fn get_generation(&self) -> (r: usize)
        ensures
            r == self.spec_generation(),
    {
        self.i_generation
    }

    /// The shared, read-only data for individuals.
    pub fn get_individual_data(&self) -> (r: &IndividualData)
        ensures
            *r == self.spec_ind_data(),
    {
        &self.ind_data
    }

    /// Fill `buf` with the five neighbour indices of cell `i` in the order
    /// centre, left, right, up, down; the count of filled slots is
    /// returned and the remaining slots are left alone.
    pub fn _l5_selection(i: usize, w: usize, h: usize, buf: &mut [usize; MAX_NEIGHBOURS]) -> (n:
        usize)
        requires
            1 <= w,
            1 <= h,
            i < w * h,
            w * h <= usize::MAX,
        ensures
            n == 5,
            forall|k: int|
                0 <= k < 5 ==> final(buf)@[k] == l5_neighbours(i as int, w as int, h as int)[k],
            forall|k: int| 5 <= k < MAX_NEIGHBOURS ==> final(buf)@[k] == old(buf)@[k],
    {
        let x = i % w;
        let y = i / w;
        proof {
            lemma_l5_in_range(i as int, w as int, h as int);
            assert(0 <= x < w && 0 <= y < h && y * w + x == i) by (nonlinear_arith)
                requires
                    1 <= w,
                    1 <= h,
                    0 <= i < w * h,
                    x == i % w,
                    y == i / w,
            ;
            let yt_g: int = if y == 0 {
                h - 1
            } else {
                y - 1
            };
            let yb_g: int = if y == h as int - 1 {
                0
            } else {
                y + 1
            };
            lemma_cell_in_range(0, y as int, w as int, h as int);
            lemma_cell_in_range(x as int, yt_g, w as int, h as int);
            lemma_cell_in_range(x as int, yb_g, w as int, h as int);
        }
        // wrap in X
        let xl = if x == 0 {
            w - 1
        } else {
            x - 1
        };
        let xr = if x == w - 1 {
            0
        } else {
            x + 1
        };
        // wrap in Y
        let yt = if y == 0 {
            h - 1
        } else {
            y - 1
        };
        let yb = if y == h - 1 {
            0
        } else {
            y + 1
        };
        // Precompute row offsets
        let row = y * w;
        let row_yt = yt * w;
        let row_yb = yb * w;

        buf[0] = i;  // center
        buf[1] = row + xl;  // left
        buf[2] = row + xr;  // right
        buf[3] = row_yt + x;  // up
        buf[4] = row_yb + x;  // down

        5
    }

    /// Every entry of `indices` is a valid position in `inds`.
    pub open spec fn candidates_in_range(indices: Seq<usize>, inds: Seq<Individual>) -> bool {
        forall|j: int| 0 <= j < indices.len() ==> (#[trigger] indices[j]) < inds.len()
    }

    /// The cached fitness of the candidate at position `j` of `indices`.
    pub open spec fn cand_fitness(indices: Seq<usize>, inds: Seq<Individual>, j: int) -> int {
        inds[indices[j] as int].fitness_spec() as int
    }

    /// The winner of a tournament over the first `k` candidates: the
    /// first-seen candidate of strictly greatest fitness.
    pub open spec fn winner_upto(indices: Seq<usize>, inds: Seq<Individual>, k: int) -> usize
        recommends
            1 <= k <= indices.len(),
        decreases k,
    {
        if k <= 1 {
            indices[0]
        } else {
            let prev = Self::winner_upto(indices, inds, k - 1);
            if Self::cand_fitness(indices, inds, k - 1) > inds[prev as int].fitness_spec() {
                indices[k - 1]
            } else {
                prev
            }
        }
    }

    /// The winner of a single tournament over all candidates.
    pub open spec fn tournament_winner(indices: Seq<usize>, inds: Seq<Individual>) -> usize {
        Self::winner_upto(indices, inds, indices.len() as int)
    }

    /// The tournament winner is one of the candidates and none of them beats
    /// it; ties go to the first-seen candidate, so no candidate before the
    /// winner reaches its fitness.
    pub proof fn lemma_tournament_winner_is_max(indices: Seq<usize>, inds: Seq<Individual>, k: int)
        requires
            1 <= k <= indices.len(),
            Self::candidates_in_range(indices, inds),
        ensures
            exists|j: int|
                0 <= j < k && indices[j] == Self::winner_upto(indices, inds, k) && (forall|m: int|
                    0 <= m < j ==> #[trigger] Self::cand_fitness(indices, inds, m)
                        < Self::cand_fitness(indices, inds, j)),
            forall|j: int|
                0 <= j < k ==> #[trigger] Self::cand_fitness(indices, inds, j) <= inds[Self::winner_upto(
                    indices,
                    inds,
                    k,
                ) as int].fitness_spec(),
        decreases k,
    {
        if k <= 1 {
            assert(0 <= 0 < k && indices[0] == Self::winner_upto(indices, inds, k) && (forall|
                m: int,
            |
                0 <= m < 0 ==> #[trigger] Self::cand_fitness(indices, inds, m) < Self::cand_fitness(
                    indices,
                    inds,
                    0,
                )));
        } else {
            Self::lemma_tournament_winner_is_max(indices, inds, k - 1);
            let prev = Self::winner_upto(indices, inds, k - 1);
            if Self::cand_fitness(indices, inds, k - 1) > inds[prev as int].fitness_spec() {
                assert forall|m: int| 0 <= m < k - 1 implies #[trigger] Self::cand_fitness(
                    indices,
                    inds,
                    m,
                ) < Self::cand_fitness(indices, inds, k - 1) by {
                    assert(Self::cand_fitness(indices, inds, m) <= inds[prev as int].fitness_spec());
                }
                assert(0 <= k - 1 < k && indices[k - 1] == Self::winner_upto(indices, inds, k) && (
                forall|m: int|
                    0 <= m < k - 1 ==> #[trigger] Self::cand_fitness(indices, inds, m)
                        < Self::cand_fitness(indices, inds, k - 1)));
            } else {
                let j = choose|j: int|
                    0 <= j < k - 1 && indices[j] == prev && (forall|m: int|
                        0 <= m < j ==> #[trigger] Self::cand_fitness(indices, inds, m)
                            < Self::cand_fitness(indices, inds, j));
                assert(0 <= j < k && indices[j] == Self::winner_upto(indices, inds, k) && (forall|
                    m: int,
                |
                    0 <= m < j ==> #[trigger] Self::cand_fitness(indices, inds, m)
                        < Self::cand_fitness(indices, inds, j)));
            }
        }
    }

    /// The index of the best of a small candidate set: a linear scan in
    /// which only a strictly greater fitness displaces the current best.
    /// The generator is unused; it is part of the common selection-strategy
    /// shape.
    pub fn _single_tournament(
        _rng: &mut rand::rngs::SmallRng,
        indices: &[usize],
        inds: &[Individual],
    ) -> (r: usize)
        requires
            1 <= indices@.len(),
            Self::candidates_in_range(indices@, inds@),
        ensures
            r == Self::tournament_winner(indices@, inds@),
    {
        let mut best_i = indices[0];
        let mut idx: usize = 1;
        while idx < indices.len()
            invariant
                1 <= idx <= indices@.len(),
                Self::candidates_in_range(indices@, inds@),
                best_i == Self::winner_upto(indices@, inds@, idx as int),
                best_i < inds@.len(),
            decreases indices@.len() - idx,
        {
            if inds[indices[idx]].get_fitness() > inds[best_i].get_fitness() {
                best_i = indices[idx];
            }
            idx += 1;
        }
        best_i
    }

    /// The pair of winners of a dual tournament over the first `k`
    /// candidates, `k >= 1`: the scan starts from (first, second) candidate
    /// and examines candidates after the first.
    pub open spec fn dual_upto(indices: Seq<usize>, inds: Seq<Individual>, k: int) -> (usize, usize)
        recommends
            2 <= indices.len(),
            1 <= k <= indices.len(),
        decreases k,
    {
        if k <= 1 {
            (indices[0], indices[1])
        } else {
            let prev = Self::dual_upto(indices, inds, k - 1);
            let c = indices[k - 1];
            if Self::cand_fitness(indices, inds, k - 1) > inds[prev.0 as int].fitness_spec() {
                (c, prev.0)
            } else if Self::cand_fitness(indices, inds, k - 1) > inds[prev.1 as int].fitness_spec() {
                (prev.0, c)
            } else {
                prev
            }
        }
    }

    /// The two winners of a dual tournament over all candidates, best first.
    pub open spec fn dual_tournament_winners(indices: Seq<usize>, inds: Seq<Individual>) -> (
        usize,
        usize,
    ) {
        Self::dual_upto(indices, inds, indices.len() as int)
    }

    /// Both dual-tournament winners are candidates, the best beats every
    /// candidate, and the runner-up never beats the best.
    pub proof fn lemma_dual_tournament_props(indices: Seq<usize>, inds: Seq<Individual>, k: int)
        requires
            2 <= indices.len(),
            2 <= k <= indices.len(),
            Self::candidates_in_range(indices, inds),
        ensures
            exists|j: int| 0 <= j < k && indices[j] == Self::dual_upto(indices, inds, k).0,
            exists|j: int| 0 <= j < k && indices[j] == Self::dual_upto(indices, inds, k).1,
            forall|j: int|
                0 <= j < k ==> #[trigger] Self::cand_fitness(indices, inds, j) <= inds[Self::dual_upto(
                    indices,
                    inds,
                    k,
                ).0 as int].fitness_spec(),
            inds[Self::dual_upto(indices, inds, k).1 as int].fitness_spec() <= inds[Self::dual_upto(
                indices,
                inds,
                k,
            ).0 as int].fitness_spec(),
        decreases k,
    {
        if k == 2 {
            assert(Self::dual_upto(indices, inds, 1) == (indices[0], indices[1]));
            let p = Self::dual_upto(indices, inds, 2);
            if Self::cand_fitness(indices, inds, 1) > inds[indices[0] as int].fitness_spec() {
                assert(0 <= 1 < k && indices[1] == p.0);
                assert(0 <= 0 < k && indices[0] == p.1);
            } else {
                assert(0 <= 0 < k && indices[0] == p.0);
                assert(0 <= 1 < k && indices[1] == p.1);
            }
        } else {
            Self::lemma_dual_tournament_props(indices, inds, k - 1);
            let prev = Self::dual_upto(indices, inds, k - 1);
            let p = Self::dual_upto(indices, inds, k);
            let jb = choose|j: int| 0 <= j < k - 1 && indices[j] == prev.0;
            let js = choose|j: int| 0 <= j < k - 1 && indices[j] == prev.1;
            if Self::cand_fitness(indices, inds, k - 1) > inds[prev.0 as int].fitness_spec() {
                assert(0 <= k - 1 < k && indices[k - 1] == p.0);
                assert(0 <= jb < k && indices[jb] == p.1);
            } else if Self::cand_fitness(indices, inds, k - 1) > inds[prev.1 as int].fitness_spec() {
                assert(0 <= jb < k && indices[jb] == p.0);
                assert(0 <= k - 1 < k && indices[k - 1] == p.1);
            } else {
                assert(0 <= jb < k && indices[jb] == p.0);
                assert(0 <= js < k && indices[js] == p.1);
            }
        }
    }

    /// The runner-up of the dual tournament is a true second best: apart
    /// from one position that holds the winner, no candidate beats it.
    pub proof fn lemma_dual_tournament_second_best(
        indices: Seq<usize>,
        inds: Seq<Individual>,
        k: int,
    )
        requires
            2 <= indices.len(),
            2 <= k <= indices.len(),
            Self::candidates_in_range(indices, inds),
        ensures
            exists|j: int|
                0 <= j < k && indices[j] == Self::dual_upto(indices, inds, k).0 && (forall|m: int|
                    0 <= m < k && m != j ==> #[trigger] Self::cand_fitness(indices, inds, m)
                        <= inds[Self::dual_upto(indices, inds, k).1 as int].fitness_spec()),
        decreases k,
    {
        Self::lemma_dual_tournament_props(indices, inds, k);
        let p = Self::dual_upto(indices, inds, k);
        if k == 2 {
            assert(Self::dual_upto(indices, inds, 1) == (indices[0], indices[1]));
            if Self::cand_fitness(indices, inds, 1) > inds[indices[0] as int].fitness_spec() {
                assert(0 <= 1 < k && indices[1] == p.0 && (forall|m: int|
                    0 <= m < k && m != 1 ==> #[trigger] Self::cand_fitness(indices, inds, m)
                        <= inds[p.1 as int].fitness_spec()));
            } else {
                assert(0 <= 0 < k && indices[0] == p.0 && (forall|m: int|
                    0 <= m < k && m != 0 ==> #[trigger] Self::cand_fitness(indices, inds, m)
                        <= inds[p.1 as int].fitness_spec()));
            }
        } else {
            Self::lemma_dual_tournament_second_best(indices, inds, k - 1);
            Self::lemma_dual_tournament_props(indices, inds, k - 1);
            let prev = Self::dual_upto(indices, inds, k - 1);
            let jp = choose|j: int|
                0 <= j < k - 1 && indices[j] == prev.0 && (forall|m: int|
                    0 <= m < k - 1 && m != j ==> #[trigger] Self::cand_fitness(indices, inds, m)
                        <= inds[prev.1 as int].fitness_spec());
            if Self::cand_fitness(indices, inds, k - 1) > inds[prev.0 as int].fitness_spec() {
                // The newcomer wins; the old winner becomes the runner-up,
                // which every earlier candidate already failed to beat.
                assert(0 <= k - 1 < k && indices[k - 1] == p.0 && (forall|m: int|
                    0 <= m < k && m != k - 1 ==> #[trigger] Self::cand_fitness(indices, inds, m)
                        <= inds[p.1 as int].fitness_spec()));
            } else if Self::cand_fitness(indices, inds, k - 1) > inds[prev.1 as int].fitness_spec() {
                // The newcomer displaces only the runner-up.
                assert(0 <= jp < k && indices[jp] == p.0 && (forall|m: int|
                    0 <= m < k && m != jp ==> #[trigger] Self::cand_fitness(indices, inds, m)
                        <= inds[p.1 as int].fitness_spec()));
            } else {
                // The newcomer beats neither winner.
                assert(0 <= jp < k && indices[jp] == p.0 && (forall|m: int|
                    0 <= m < k && m != jp ==> #[trigger] Self::cand_fitness(indices, inds, m)
                        <= inds[p.1 as int].fitness_spec()));
            }
        }
    }

    /// The two best of a small candidate set in one linear scan, best
    /// first; ties are first-seen-wins, as in the single tournament.
    pub fn _dual_tournament(indices: &[usize], inds: &[Individual]) -> (r: (usize, usize))
        requires
            2 <= indices@.len(),
            Self::candidates_in_range(indices@, inds@),
        ensures
            r == Self::dual_tournament_winners(indices@, inds@),
    {
        let mut best_i = indices[0];
        let mut second_best_i = indices[1];
        let mut idx: usize = 1;
        while idx < indices.len()
            invariant
                1 <= idx <= indices@.len(),
                2 <= indices@.len(),
                Self::candidates_in_range(indices@, inds@),
                (best_i, second_best_i) == Self::dual_upto(indices@, inds@, idx as int),
                best_i < inds@.len(),
                second_best_i < inds@.len(),
            decreases indices@.len() - idx,
        {
            let index = indices[idx];
            if inds[index].get_fitness() > inds[best_i].get_fitness() {
                second_best_i = best_i;
                best_i = index;
            } else if inds[index].get_fitness() > inds[second_best_i].get_fitness() {
                second_best_i = index;
            }
            idx += 1;
        }
        (best_i, second_best_i)
    }

    /// The least fitness among the first `k` candidates.
    pub open spec fn min_fit_upto(indices: Seq<usize>, inds: Seq<Individual>, k: int) -> int
        recommends
            1 <= k <= indices.len(),
        decreases k,
    {
        if k <= 1 {
            Self::cand_fitness(indices, inds, 0)
        } else {
            let prev = Self::min_fit_upto(indices, inds, k - 1);
            if Self::cand_fitness(indices, inds, k - 1) < prev {
                Self::cand_fitness(indices, inds, k - 1)
            } else {
                prev
            }
        }
    }

    /// The least fitness among all candidates.
    pub open spec fn min_fitness(indices: Seq<usize>, inds: Seq<Individual>) -> int {
        Self::min_fit_upto(indices, inds, indices.len() as int)
    }

    /// The selection mass of candidate `j`: its fitness shifted down by the
    /// least candidate fitness, so that mass is never negative even when
    /// raw fitness is.
    pub open spec fn roulette_weight(indices: Seq<usize>, inds: Seq<Individual>, j: int) -> int {
        Self::cand_fitness(indices, inds, j) - Self::min_fitness(indices, inds)
    }

    /// The sum of the selection masses of the first `k` candidates.
    pub open spec fn cum_weight(indices: Seq<usize>, inds: Seq<Individual>, k: int) -> int
        decreases k,
    {
        if k <= 0 {
            0
        } else {
            Self::cum_weight(indices, inds, k - 1) + Self::roulette_weight(indices, inds, k - 1)
        }
    }

    /// The total selection mass of the candidate set.
    pub open spec fn total_weight(indices: Seq<usize>, inds: Seq<Individual>) -> int {
        Self::cum_weight(indices, inds, indices.len() as int)
    }

    /// All candidates share one fitness value (the degenerate roulette
    /// case, in which every selection mass is zero).
    pub open spec fn all_fitness_equal(indices: Seq<usize>, inds: Seq<Individual>) -> bool {
        forall|j: int, k: int|
            0 <= j < indices.len() && 0 <= k < indices.len() ==> #[trigger] Self::cand_fitness(
                indices,
                inds,
                j,
            ) == #[trigger] Self::cand_fitness(indices, inds, k)
    }

    /// The position the draw `r` selects: the first position whose
    /// cumulative mass exceeds `r`, the last position as a fallback.
    pub open spec fn roulette_pos_from(
        indices: Seq<usize>,
        inds: Seq<Individual>,
        r: int,
        j: int,
    ) -> int
        recommends
            0 <= j < indices.len(),
        decreases indices.len() - j,
    {
        if j >= indices.len() - 1 {
            indices.len() - 1
        } else if Self::cum_weight(indices, inds, j + 1) > r {
            j
        } else {
            Self::roulette_pos_from(indices, inds, r, j + 1)
        }
    }

    /// The position the draw `r` selects, scanning from the front.
    pub open spec fn roulette_pos(indices: Seq<usize>, inds: Seq<Individual>, r: int) -> int {
        Self::roulette_pos_from(indices, inds, r, 0)
    }

    /// The least candidate fitness really is a lower bound.
    pub proof fn lemma_min_fitness_le(indices: Seq<usize>, inds: Seq<Individual>, k: int)
        requires
            1 <= k <= indices.len(),
        ensures
            forall|j: int|
                0 <= j < k ==> Self::min_fit_upto(indices, inds, k) <= #[trigger] Self::cand_fitness(
                    indices,
                    inds,
                    j,
                ),
            i64::MIN <= Self::min_fit_upto(indices, inds, k) <= i64::MAX,
        decreases k,
    {
        if k > 1 {
            Self::lemma_min_fitness_le(indices, inds, k - 1);
        }
    }

    /// Cumulative masses are bounded: non-negative, and at most `k` masses
    /// of at most the full `i64` span each.
    pub proof fn lemma_cum_weight_bounds(indices: Seq<usize>, inds: Seq<Individual>, k: int)
        requires
            1 <= indices.len(),
            0 <= k <= indices.len(),
        ensures
            0 <= Self::cum_weight(indices, inds, k) <= k * 0xFFFF_FFFF_FFFF_FFFF,
        decreases k,
    {
        if k > 0 {
            Self::lemma_cum_weight_bounds(indices, inds, k - 1);
            Self::lemma_min_fitness_le(indices, inds, indices.len() as int);
            assert(Self::min_fit_upto(indices, inds, indices.len() as int)
                <= Self::cand_fitness(indices, inds, k - 1));
            assert((k - 1) * 0xFFFF_FFFF_FFFF_FFFF + 0xFFFF_FFFF_FFFF_FFFF == k
                * 0xFFFF_FFFF_FFFF_FFFF) by (nonlinear_arith);
        }
    }

    /// A total mass of zero collapses every candidate onto the least
    /// fitness: the degenerate case is exactly the all-equal case.
    pub proof fn lemma_zero_mass_all_equal(indices: Seq<usize>, inds: Seq<Individual>, k: int)
        requires
            1 <= indices.len(),
            0 <= k <= indices.len(),
            Self::cum_weight(indices, inds, k) == 0,
        ensures
            forall|j: int|
                0 <= j < k ==> #[trigger] Self::cand_fitness(indices, inds, j) == Self::min_fitness(
                    indices,
                    inds,
                ),
        decreases k,
    {
        if k > 0 {
            Self::lemma_min_fitness_le(indices, inds, indices.len() as int);
            Self::lemma_cum_weight_bounds(indices, inds, k - 1);
            assert(Self::roulette_weight(indices, inds, k - 1) >= 0);
            Self::lemma_zero_mass_all_equal(indices, inds, k - 1);
        }
    }

    /// Whenever the draw lands inside the total mass, the selected
    /// candidate carries strictly positive mass: a candidate of least
    /// fitness is never selected while another candidate is strictly
    /// fitter.
    pub proof fn lemma_roulette_pos_positive(
        indices: Seq<usize>,
        inds: Seq<Individual>,
        r: int,
        j: int,
    )
        requires
            1 <= indices.len(),
            0 <= j < indices.len(),
            Self::cum_weight(indices, inds, j) <= r < Self::total_weight(indices, inds),
        ensures
            j <= Self::roulette_pos_from(indices, inds, r, j) < indices.len(),
            Self::roulette_weight(indices, inds, Self::roulette_pos_from(indices, inds, r, j)) > 0,
        decreases indices.len() - j,
    {
        let len = indices.len() as int;
        if j >= len - 1 {
            assert(Self::cum_weight(indices, inds, len) == Self::cum_weight(indices, inds, len - 1)
                + Self::roulette_weight(indices, inds, len - 1));
        } else if Self::cum_weight(indices, inds, j + 1) > r {
            assert(Self::cum_weight(indices, inds, j + 1) == Self::cum_weight(indices, inds, j)
                + Self::roulette_weight(indices, inds, j));
        } else {
            Self::lemma_roulette_pos_positive(indices, inds, r, j + 1);
        }
    }

    /// Select the candidate the draw `r` lands on, given masses shifted by
    /// the least candidate fitness.  This is the deterministic part of
    /// roulette selection: the caller supplies the draw.
    pub fn _roulette_pick(indices: &[usize], inds: &[Individual], r: u128) -> (res: usize)
        requires
            1 <= indices@.len() <= u32::MAX,
            Self::candidates_in_range(indices@, inds@),
            r < Self::total_weight(indices@, inds@),
        ensures
            res == indices@[Self::roulette_pos(indices@, inds@, r as int)],
            exists|j: int| 0 <= j < indices@.len() && indices@[j] == res,
            inds@[res as int].fitness_spec() > Self::min_fitness(indices@, inds@),
    {
        let len = indices.len();
        proof {
            Self::lemma_cum_weight_bounds(indices@, inds@, indices@.len() as int);
            Self::lemma_roulette_pos_positive(indices@, inds@, r as int, 0);
        }
        // Get min fitness
        let mut min_fitness = inds[indices[0]].get_fitness();
        let mut k: usize = 1;
        while k < len
            invariant
                1 <= k <= len,
                len == indices@.len(),
                Self::candidates_in_range(indices@, inds@),
                min_fitness == Self::min_fit_upto(indices@, inds@, k as int),
            decreases len - k,
        {
            let fitness = inds[indices[k]].get_fitness();
            if fitness < min_fitness {
                min_fitness = fitness;
            }
            k += 1;
        }
        // Walk the cumulative masses until the draw is passed
        let ri: i128 = r as i128;
        let mut sum: i128 = 0;
        let mut j: usize = 0;
        loop
            invariant
                0 <= j < len,
                len == indices@.len(),
                1 <= len <= u32::MAX,
                Self::candidates_in_range(indices@, inds@),
                min_fitness == Self::min_fitness(indices@, inds@),
                sum == Self::cum_weight(indices@, inds@, j as int),
                sum <= ri,
                ri == r,
                r < Self::total_weight(indices@, inds@),
                Self::roulette_pos(indices@, inds@, r as int) == Self::roulette_pos_from(
                    indices@,
                    inds@,
                    r as int,
                    j as int,
                ),
            decreases len - j,
        {
            proof {
                Self::lemma_min_fitness_le(indices@, inds@, indices@.len() as int);
                Self::lemma_cum_weight_bounds(indices@, inds@, j as int);
                Self::lemma_cum_weight_bounds(indices@, inds@, indices@.len() as int);
            }
            let weight = inds[indices[j]].get_fitness() as i128 - min_fitness as i128;
            if j == len - 1 {
                // The tail of the mass all lies on the last candidate
                proof {
                    Self::lemma_roulette_pos_positive(indices@, inds@, r as int, j as int);
                }
                return indices[j];
            }
            if sum + weight > ri {
                proof {
                    Self::lemma_roulette_pos_positive(indices@, inds@, r as int, j as int);
                }
                return indices[j];
            }
            sum = sum + weight;
            j += 1;
        }
    }

    /// Fitness-proportionate selection: each candidate is drawn with mass
    /// proportional to its fitness shifted down by the least candidate
    /// fitness.  When every candidate has the same fitness the masses are
    /// all zero and the choice falls back to a uniform draw.
    pub fn _roulette_selection(
        rng: &mut rand::rngs::SmallRng,
        indices: &[usize],
        inds: &[Individual],
    ) -> (res: usize)
        requires
            1 <= indices@.len() <= u32::MAX,
            Self::candidates_in_range(indices@, inds@),
        ensures
            exists|j: int| 0 <= j < indices@.len() && indices@[j] == res,
            !Self::all_fitness_equal(indices@, inds@) ==> inds@[res as int].fitness_spec()
                > Self::min_fitness(indices@, inds@),
    {
        let len = indices.len();
        // Get min fitness
        let mut min_fitness = inds[indices[0]].get_fitness();
        let mut k: usize = 1;
        while k < len
            invariant
                1 <= k <= len,
                len == indices@.len(),
                Self::candidates_in_range(indices@, inds@),
                min_fitness == Self::min_fit_upto(indices@, inds@, k as int),
            decreases len - k,
        {
            let fitness = inds[indices[k]].get_fitness();
            if fitness < min_fitness {
                min_fitness = fitness;
            }
            k += 1;
        }
        // Calculate the sum of the shifted masses
        let mut sum: i128 = 0;
        let mut k: usize = 0;
        while k < len
            invariant
                0 <= k <= len,
                len == indices@.len(),
                1 <= len <= u32::MAX,
                Self::candidates_in_range(indices@, inds@),
                min_fitness == Self::min_fitness(indices@, inds@),
                sum == Self::cum_weight(indices@, inds@, k as int),
                0 <= sum <= k * 0xFFFF_FFFF_FFFF_FFFF,
            decreases len - k,
        {
            proof {
                Self::lemma_min_fitness_le(indices@, inds@, indices@.len() as int);
                assert(Self::min_fitness(indices@, inds@) <= Self::cand_fitness(
                    indices@,
                    inds@,
                    k as int,
                ));
                assert((k as int) * 0xFFFF_FFFF_FFFF_FFFF + 0xFFFF_FFFF_FFFF_FFFF == (k as int + 1)
                    * 0xFFFF_FFFF_FFFF_FFFF) by (nonlinear_arith);
            }
            sum = sum + (inds[indices[k]].get_fitness() as i128 - min_fitness as i128);
            k += 1;
        }
        if sum == 0 {
            // Degenerate case: every mass is zero, pick uniformly
            proof {
                Self::lemma_zero_mass_all_equal(indices@, inds@, indices@.len() as int);
            }
            let pick = rng_below(rng, len as u64) as usize;
            indices[pick]
        } else {
            let r = rng_below_u128(rng, sum as u128);
            Self::_roulette_pick(indices, inds, r)
        }
    }

    /// Two parents by roulette: draw the first, remove every occurrence of
    /// it from the candidate set, draw the second from the remainder.  The
    /// two results therefore always differ.
    pub fn _dual_rulette(
        rng: &mut rand::rngs::SmallRng,
        indices: &[usize],
        inds: &[Individual],
    ) -> (r: (usize, usize))
        requires
            2 <= indices@.len() <= u32::MAX,
            Self::candidates_in_range(indices@, inds@),
            exists|j: int, k: int|
                0 <= j < indices@.len() && 0 <= k < indices@.len() && indices@[j] != indices@[k],
        ensures
            exists|j: int| 0 <= j < indices@.len() && indices@[j] == r.0,
            exists|j: int| 0 <= j < indices@.len() && indices@[j] == r.1,
            r.0 != r.1,
    {
        // Select the first individual
        let first = Self::_roulette_selection(rng, indices, inds);

        // Remove the first index from the candidates so the second draw
        // cannot repeat it
        let mut indices2: Vec<usize> = Vec::new();
        let mut k: usize = 0;
        while k < indices.len()
            invariant
                0 <= k <= indices@.len(),
                indices@.len() <= u32::MAX,
                Self::candidates_in_range(indices@, inds@),
                indices2@.len() <= k,
                forall|m: int|
                    0 <= m < indices2@.len() ==> (#[trigger] indices2@[m]) != first && exists|
                        j: int,
                    | 0 <= j < indices@.len() && indices@[j] == indices2@[m],
                forall|j: int|
                    0 <= j < k && (#[trigger] indices@[j]) != first ==> exists|m: int|
                        0 <= m < indices2@.len() && indices2@[m] == indices@[j],
            decreases indices@.len() - k,
        {
            let ghost pre = indices2@;
            let cur = indices[k];
            if cur != first {
                indices2.push(cur);
            }
            proof {
                assert forall|j: int|
                    0 <= j <= k && (#[trigger] indices@[j]) != first implies exists|m: int|
                    0 <= m < indices2@.len() && indices2@[m] == indices@[j] by {
                    if j == k {
                        assert(indices2@[pre.len() as int] == indices@[j]);
                    } else {
                        let m = choose|m: int| 0 <= m < pre.len() && pre[m] == indices@[j];
                        assert(indices2@[m] == indices@[j]);
                    }
                }
            }
            k += 1;
        }
        proof {
            let (ja, jb) = choose|j: int, k: int|
                0 <= j < indices@.len() && 0 <= k < indices@.len() && indices@[j] != indices@[k];
            if indices@[ja] != first {
                assert(exists|m: int|
                    0 <= m < indices2@.len() && indices2@[m] == indices@[ja]);
            } else {
                assert(indices@[jb] != first);
                assert(exists|m: int|
                    0 <= m < indices2@.len() && indices2@[m] == indices@[jb]);
            }
        }

        // Select the second individual
        let second = Self::_roulette_selection(rng, indices2.as_slice(), inds);

        (first, second)
    }

    /// The position of the best of the first `k` individuals: the
    /// first-seen position of strictly greatest fitness.
    pub open spec fn best_index_upto(s: Seq<Individual>, k: int) -> int
        recommends
            1 <= k <= s.len(),
        decreases k,
    {
        if k <= 1 {
            0
        } else {
            let p = Self::best_index_upto(s, k - 1);
            if s[k - 1].fitness_spec() > s[p].fitness_spec() {
                k - 1
            } else {
                p
            }
        }
    }

    /// The position of the best individual of the whole generation.
    pub open spec fn best_index(s: Seq<Individual>) -> int {
        Self::best_index_upto(s, s.len() as int)
    }

    /// The best position is in range and nothing beats it.
    pub proof fn lemma_best_index_props(s: Seq<Individual>, k: int)
        requires
            1 <= k <= s.len(),
        ensures
            0 <= Self::best_index_upto(s, k) < k,
            forall|j: int|
                0 <= j < k ==> (#[trigger] s[j]).fitness_spec() <= s[Self::best_index_upto(
                    s,
                    k,
                )].fitness_spec(),
        decreases k,
    {
        if k > 1 {
            Self::lemma_best_index_props(s, k - 1);
        }
    }

    /// The best individual in the current generation: a linear scan,
    /// first-max-wins on ties.
    pub fn get_best(&self) -> (r: &Individual)
        requires
            self.well_formed(),
        ensures
            *r == self.spec_inds()[Self::best_index(self.spec_inds())],
    {
        let mut best_i: usize = 0;
        let mut i: usize = 1;
        while i < self.inds.len()
            invariant
                1 <= i <= self.inds.len(),
                1 <= self.inds.len(),
                best_i == Self::best_index_upto(self.inds@, i as int),
                best_i < self.inds.len(),
            decreases self.inds.len() - i,
        {
            if self.inds[i].get_fitness() > self.inds[best_i].get_fitness() {
                best_i = i;
            }
            i += 1;
        }
        &self.inds[best_i]
    }

    /// Reading the best individual is idempotent: two reads with no
    /// generation advance in between yield the same individual, because the
    /// contract of `get_best` pins the result to one position of the
    /// unchanged generation.
    pub proof fn lemma_get_best_idempotent(p: Self, r1: Individual, r2: Individual)
        requires
            p.well_formed(),
            r1 == p.spec_inds()[Self::best_index(p.spec_inds())],
            r2 == p.spec_inds()[Self::best_index(p.spec_inds())],
        ensures
            r1 == r2,
    {
    }

    /// The tuning parameters the engine was built with.
    pub closed spec fn spec_params(&self) -> PopulationParams {
        PopulationParams {
            pop_width: self.pop_width,
            pop_height: self.pop_height,
            mut_prob: self.mut_prob,
            mut_amount: self.mut_amount,
            crossover_prob: self.crossover_prob,
            selection_strategy: self.selection_strategy,
        }
    }

    /// A new population of `pop_width * pop_height` randomised,
    /// fitness-evaluated individuals at generation zero.  The scratch
    /// buffer is allocated once here and reused for the engine's lifetime.
    pub fn new(params: &PopulationParams, ind_data: IndividualData) -> (r: Self)
        requires
            params.valid(),
            ind_data.valid(),
        ensures
            r.well_formed(),
            r.spec_params() == *params,
            r.spec_width() == params.pop_width,
            r.spec_height() == params.pop_height,
            r.spec_generation() == 0,
            r.spec_ind_data() == ind_data,
            r.spec_inds().len() == params.pop_width * params.pop_height,
    {
        let size = params.pop_width * params.pop_height;
        proof {
            assert(size >= 1) by (nonlinear_arith)
                requires
                    size == params.pop_width * params.pop_height,
                    params.pop_width >= 1,
                    params.pop_height >= 1,
            ;
        }
        let mut rng = new_rng();
        let mut inds: Vec<Individual> = Vec::with_capacity(size);
        let mut next_inds: Vec<Individual> = Vec::with_capacity(size);
        let mut i: usize = 0;
        while i < size
            invariant
                0 <= i <= size,
                ind_data.valid(),
                inds@.len() == i,
                next_inds@.len() == i,
                forall|k: int| 0 <= k < i ==> (#[trigger] inds@[k]).valid(&ind_data),
                forall|k: int|
                    0 <= k < i ==> (#[trigger] inds@[k]).fitness_spec() == inds@[k].fitness_of(
                        &ind_data,
                    ),
            decreases size - i,
        {
            let mut curr_gen_ind = Individual::new_randomised(&ind_data, &mut rng);
            curr_gen_ind.count_fitness(&ind_data);
            inds.push(curr_gen_ind);
            next_inds.push(Individual::new(&ind_data));
            i += 1;
        }
        Population {
            inds,
            next_inds,
            pop_width: params.pop_width,
            pop_height: params.pop_height,
            mut_prob: params.mut_prob,
            mut_amount: params.mut_amount,
            crossover_prob: params.crossover_prob,
            i_generation: 0,
            ind_data,
            selection_strategy: params.selection_strategy,
        }
    }

    /// Replace the whole current generation with `inds`, which must match
    /// the grid size and carry consistent fitness caches.
    pub fn set_individuals(&mut self, inds: Vec<Individual>)
        requires
            old(self).well_formed(),
            inds@.len() == old(self).spec_inds().len(),
            forall|k: int|
                0 <= k < inds@.len() ==> (#[trigger] inds@[k]).valid(&old(self).spec_ind_data()),
            forall|k: int|
                0 <= k < inds@.len() ==> (#[trigger] inds@[k]).fitness_spec()
                    == inds@[k].fitness_of(&old(self).spec_ind_data()),
        ensures
            final(self).well_formed(),
            final(self).spec_inds() == inds@,
            final(self).spec_params() == old(self).spec_params(),
            final(self).spec_width() == old(self).spec_width(),
            final(self).spec_height() == old(self).spec_height(),
            final(self).spec_generation() == old(self).spec_generation(),
            final(self).spec_ind_data() == old(self).spec_ind_data(),
    {
        self.inds = inds;
    }

    /// Advance the population one generation.
    ///
    /// Every cell of the next grid is computed from the frozen current
    /// grid: with probability `crossover_prob` it is the crossover of the
    /// two dual-tournament winners of the cell's five-cell neighbourhood,
    /// otherwise a mutated copy of the neighbour chosen by the configured
    /// selection strategy; its fitness is recomputed after the write.  Then
    /// the buffers swap and the generation counter increments by exactly
    /// one.  The grid size, the tuning parameters and the shared data never
    /// change.
    pub fn next_gen(&mut self)
        requires
            old(self).well_formed(),
            old(self).spec_generation() < usize::MAX,
        ensures
            final(self).well_formed(),
            final(self).spec_generation() == old(self).spec_generation() + 1,
            final(self).spec_width() == old(self).spec_width(),
            final(self).spec_height() == old(self).spec_height(),
            final(self).spec_inds().len() == old(self).spec_inds().len(),
            final(self).spec_ind_data() == old(self).spec_ind_data(),
            final(self).spec_params() == old(self).spec_params(),
    {
        let mut rng = new_rng();
        let mut neigh_buf: [usize; MAX_NEIGHBOURS] = [0, 0, 0, 0, 0, 0, 0, 0, 0];
        let size = self.inds.len();
        let mut i: usize = 0;
        while i < size
            invariant
                0 <= i <= size,
                size == self.inds.len(),
                old(self).well_formed(),
                self.inds == old(self).inds,
                self.pop_width == old(self).pop_width,
                self.pop_height == old(self).pop_height,
                self.mut_prob == old(self).mut_prob,
                self.mut_amount == old(self).mut_amount,
                self.crossover_prob == old(self).crossover_prob,
                self.i_generation == old(self).i_generation,
                self.ind_data == old(self).ind_data,
                self.selection_strategy == old(self).selection_strategy,
                self.next_inds@.len() == size,
                forall|k: int|
                    0 <= k < i ==> (#[trigger] self.next_inds@[k]).valid(&self.ind_data),
                forall|k: int|
                    0 <= k < i ==> (#[trigger] self.next_inds@[k]).fitness_spec()
                        == self.next_inds@[k].fitness_of(&self.ind_data),
            decreases size - i,
        {
            let n_neigh = Self::_l5_selection(i, self.pop_width, self.pop_height, &mut neigh_buf);
            let mut candidates: Vec<usize> = Vec::with_capacity(n_neigh);
            let mut k: usize = 0;
            proof {
                lemma_l5_in_range(i as int, self.pop_width as int, self.pop_height as int);
            }
            while k < n_neigh
                invariant
                    0 <= k <= n_neigh,
                    n_neigh == 5,
                    candidates@.len() == k,
                    size == self.inds.len(),
                    self.pop_width * self.pop_height == size,
                    forall|m: int|
                        0 <= m < 5 ==> neigh_buf@[m] == l5_neighbours(
                            i as int,
                            self.pop_width as int,
                            self.pop_height as int,
                        )[m],
                    forall|m: int|
                        0 <= m < 5 ==> 0 <= #[trigger] l5_neighbours(
                            i as int,
                            self.pop_width as int,
                            self.pop_height as int,
                        )[m] < size,
                    forall|m: int| 0 <= m < k ==> (#[trigger] candidates@[m]) == neigh_buf@[m],
                decreases n_neigh - k,
            {
                candidates.push(neigh_buf[k]);
                k += 1;
            }
            assert(Self::candidates_in_range(candidates@, self.inds@));

            let roll = rng_below(&mut rng, PROB_SCALE as u64);
            let mut child: Individual;
            if roll < self.crossover_prob as u64 {
                let (first_ind, second_ind) = Self::_dual_tournament(
                    candidates.as_slice(),
                    self.inds.as_slice(),
                );
                proof {
                    Self::lemma_dual_tournament_props(
                        candidates@,
                        self.inds@,
                        candidates@.len() as int,
                    );
                    let jb = choose|j: int|
                        0 <= j < candidates@.len() && candidates@[j] == first_ind;
                    assert(candidates@[jb] < self.inds@.len());
                    let js = choose|j: int|
                        0 <= j < candidates@.len() && candidates@[j] == second_ind;
                    assert(candidates@[js] < self.inds@.len());
                }
                child = self.inds[first_ind].crossover(
                    &self.inds[second_ind],
                    &self.ind_data,
                    &mut rng,
                );
            } else {
                let selected_ind_index = match self.selection_strategy {
                    SelectionStrategyType::Tournament => {
                        let s = Self::_single_tournament(
                            &mut rng,
                            candidates.as_slice(),
                            self.inds.as_slice(),
                        );
                        proof {
                            Self::lemma_tournament_winner_is_max(
                                candidates@,
                                self.inds@,
                                candidates@.len() as int,
                            );
                            let j = choose|j: int|
                                0 <= j < candidates@.len() && candidates@[j] == s && (forall|
                                    m: int,
                                |
                                    0 <= m < j ==> #[trigger] Self::cand_fitness(
                                        candidates@,
                                        self.inds@,
                                        m,
                                    ) < Self::cand_fitness(candidates@, self.inds@, j));
                            assert(candidates@[j] < self.inds@.len());
                        }
                        s
                    },
                    SelectionStrategyType::Roulette => {
                        let s = Self::_roulette_selection(
                            &mut rng,
                            candidates.as_slice(),
                            self.inds.as_slice(),
                        );
                        proof {
                            let j = choose|j: int|
                                0 <= j < candidates@.len() && candidates@[j] == s;
                            assert(candidates@[j] < self.inds@.len());
                        }
                        s
                    },
                };
                child = Individual::new(&self.ind_data);
                self.inds[selected_ind_index].copy_to(&mut child);
                child.mutate(&self.ind_data, &mut rng, self.mut_prob, self.mut_amount);
            }
            child.count_fitness(&self.ind_data);
            self.next_inds.set(i, child);
            i += 1;
        }

        // Swap the current generation with the next generation and
        // increment the generation counter
        core::mem::swap(&mut self.inds, &mut self.next_inds);
        self.i_generation = self.i_generation + 1;
    }

    /// The fitness channel of a generation.
    pub open spec fn fitness_seq(s: Seq<Individual>) -> Seq<i64> {
        Seq::new(s.len(), |i: int| s[i].fitness_spec())
    }

    /// The first visual channel of a generation.
    pub open spec fn visual_a_seq(s: Seq<Individual>, data: IndividualData) -> Seq<i64> {
        Seq::new(s.len(), |i: int| s[i].visuals_spec(&data).0)
    }

    /// The second visual channel of a generation.
    pub open spec fn visual_b_seq(s: Seq<Individual>, data: IndividualData) -> Seq<i64> {
        Seq::new(s.len(), |i: int| s[i].visuals_spec(&data).1)
    }

    /// Collect the raw colour channels of the current generation: the
    /// fitness as lightness, the two visual scalars as the colour axes,
    /// each record tagged with its grid index.
    pub fn _prepare_pop_lab_data(&self) -> (r: Vec<IndexedLabData>)
        requires
            self.well_formed(),
        ensures
            r@.len() == self.spec_inds().len(),
            forall|i: int|
                0 <= i < r@.len() ==> (#[trigger] r@[i]) == (IndexedLabData {
                    index: i as usize,
                    data: LabData {
                        l: self.spec_inds()[i].fitness_spec(),
                        a: self.spec_inds()[i].visuals_spec(&self.spec_ind_data()).0,
                        b: self.spec_inds()[i].visuals_spec(&self.spec_ind_data()).1,
                    },
                }),
    {
        let len = self.inds.len();
        let mut lab_data: Vec<IndexedLabData> = Vec::with_capacity(len);
        let mut i: usize = 0;
        while i < len
            invariant
                0 <= i <= len,
                len == self.inds.len(),
                self.well_formed(),
                lab_data@.len() == i,
                forall|m: int|
                    0 <= m < i ==> (#[trigger] lab_data@[m]) == (IndexedLabData {
                        index: m as usize,
                        data: LabData {
                            l: self.spec_inds()[m].fitness_spec(),
                            a: self.spec_inds()[m].visuals_spec(&self.spec_ind_data()).0,
                            b: self.spec_inds()[m].visuals_spec(&self.spec_ind_data()).1,
                        },
                    }),
            decreases len - i,
        {
            let l = self.inds[i].get_fitness();
            let (a, b) = self.inds[i].get_visuals(&self.ind_data);
            lab_data.push(IndexedLabData::new(l, a, b, i));
            i += 1;
        }
        lab_data
    }

    /// Rank-normalize one channel of the records into the target range
    /// `min_val..=max_val`, in place.  Every record keeps its index and its
    /// other channels; the chosen channel of each record becomes the
    /// rank-normalized image of its old value against the whole column, so
    /// equal values stay equal and order is preserved.
    pub fn _normalize_component(
        data: &mut Vec<IndexedLabData>,
        ch: LabChannel,
        min_val: i64,
        max_val: i64,
    )
        requires
            min_val <= max_val,
            max_val - min_val <= i64::MAX,
        ensures
            final(data)@.len() == old(data)@.len(),
            forall|i: int|
                0 <= i < final(data)@.len() ==> (#[trigger] final(data)@[i]) == (IndexedLabData {
                    index: old(data)@[i].index,
                    data: with_channel(
                        old(data)@[i].data,
                        ch,
                        rank_value(
                            channel_seq(old(data)@, ch),
                            spec_channel(old(data)@[i].data, ch) as int,
                            min_val as int,
                            max_val as int,
                        ) as i64,
                    ),
                }),
    {
        let len = data.len();
        if len == 0 {
            return ;
        }
        // Snapshot the channel so every rank is computed against the
        // unmodified column
        let mut vals: Vec<i64> = Vec::with_capacity(len);
        let mut j: usize = 0;
        while j < len
            invariant
                0 <= j <= len,
                len == data@.len(),
                data@ == old(data)@,
                vals@.len() == j,
                forall|m: int| 0 <= m < j ==> vals@[m] == channel_seq(data@, ch)[m],
            decreases len - j,
        {
            vals.push(get_channel(&data[j].data, ch));
            j += 1;
        }
        proof {
            assert(vals@ =~= channel_seq(old(data)@, ch));
        }
        let denom: usize = if len > 1 {
            len - 1
        } else {
            1
        };
        let range_u: u128 = (max_val as i128 - min_val as i128) as u128;
        let mut i: usize = 0;
        while i < len
            invariant
                0 <= i <= len,
                len == data@.len(),
                len == old(data)@.len(),
                1 <= len,
                vals@ == channel_seq(old(data)@, ch),
                vals@.len() == len,
                denom == rank_denom(len as int),
                min_val <= max_val,
                max_val - min_val <= i64::MAX,
                range_u == max_val - min_val,
                forall|m: int|
                    0 <= m < i ==> (#[trigger] data@[m]) == (IndexedLabData {
                        index: old(data)@[m].index,
                        data: with_channel(
                            old(data)@[m].data,
                            ch,
                            rank_value(
                                channel_seq(old(data)@, ch),
                                spec_channel(old(data)@[m].data, ch) as int,
                                min_val as int,
                                max_val as int,
                            ) as i64,
                        ),
                    }),
                forall|m: int| i <= m < len ==> (#[trigger] data@[m]) == old(data)@[m],
            decreases len - i,
        {
            let x = vals[i];
            let mut count: usize = 0;
            let mut j: usize = 0;
            while j < len
                invariant
                    0 <= j <= len,
                    vals@.len() == len,
                    count == count_lt_upto(vals@, x as int, j as int),
                    count <= j,
                decreases len - j,
            {
                proof {
                    lemma_count_lt_upto_bounds(vals@, x as int, j as int);
                }
                if vals[j] < x {
                    count += 1;
                }
                j += 1;
            }
            proof {
                lemma_count_lt_upto_bounds(vals@, x as int, len as int);
                assert(spec_channel(old(data)@[i as int].data, ch) == vals@[i as int]);
                lemma_count_lt_member(vals@, x as int, i as int, len as int);
                // count <= denom, so the normalized value stays inside the
                // target range
                vstd::arithmetic::mul::lemma_mul_inequality(
                    count as int,
                    denom as int,
                    range_u as int,
                );
                vstd::arithmetic::mul::lemma_mul_nonnegative(count as int, range_u as int);
                vstd::arithmetic::div_mod::lemma_div_is_ordered(
                    (count as int) * (range_u as int),
                    (denom as int) * (range_u as int),
                    denom as int,
                );
                vstd::arithmetic::div_mod::lemma_div_multiples_vanish(
                    range_u as int,
                    denom as int,
                );
                vstd::arithmetic::div_mod::lemma_div_pos_is_pos(
                    (count as int) * (range_u as int),
                    denom as int,
                );
                assert((denom as int) * (range_u as int) < u128::MAX) by (nonlinear_arith)
                    requires
                        0 < denom as int <= 0xFFFF_FFFF_FFFF_FFFFu64 as int,
                        0 <= range_u as int <= 0x7FFF_FFFF_FFFF_FFFFu64 as int,
                ;
            }
            let q: u128 = (count as u128) * range_u / (denom as u128);
            let norm: i64 = (min_val as i128 + q as i128) as i64;
            let rec = data[i];
            let mut d2 = rec.data;
            set_channel(&mut d2, ch, norm);
            data.set(i, IndexedLabData { index: rec.index, data: d2 });
            i += 1;
        }
    }

    /// Rank-normalize all three channels of the records, each against its
    /// own column: fitness into the lightness range, the two visual
    /// scalars into the colour-axis ranges.
    pub fn _normalize_lab_data_rank_based(lab_data: Vec<IndexedLabData>) -> (r: Vec<
        IndexedLabData,
    >)
        ensures
            r@.len() == lab_data@.len(),
            forall|i: int|
                0 <= i < r@.len() ==> (#[trigger] r@[i]) == (IndexedLabData {
                    index: lab_data@[i].index,
                    data: LabData {
                        l: rank_value(
                            channel_seq(lab_data@, LabChannel::L),
                            lab_data@[i].data.l as int,
                            LAB_L_MIN as int,
                            LAB_L_MAX as int,
                        ) as i64,
                        a: rank_value(
                            channel_seq(lab_data@, LabChannel::A),
                            lab_data@[i].data.a as int,
                            LAB_AB_MIN as int,
                            LAB_AB_MAX as int,
                        ) as i64,
                        b: rank_value(
                            channel_seq(lab_data@, LabChannel::B),
                            lab_data@[i].data.b as int,
                            LAB_AB_MIN as int,
                            LAB_AB_MAX as int,
                        ) as i64,
                    },
                }),
    {
        let ghost s0 = lab_data@;
        let mut lab_data = lab_data;
        Self::_normalize_component(&mut lab_data, LabChannel::L, LAB_L_MIN, LAB_L_MAX);
        let ghost s1 = lab_data@;
        proof {
            assert(channel_seq(s1, LabChannel::A) =~= channel_seq(s0, LabChannel::A));
            assert(channel_seq(s1, LabChannel::B) =~= channel_seq(s0, LabChannel::B));
        }
        Self::_normalize_component(&mut lab_data, LabChannel::A, LAB_AB_MIN, LAB_AB_MAX);
        let ghost s2 = lab_data@;
        proof {
            assert(channel_seq(s2, LabChannel::B) =~= channel_seq(s0, LabChannel::B));
        }
        Self::_normalize_component(&mut lab_data, LabChannel::B, LAB_AB_MIN, LAB_AB_MAX);
        lab_data
    }

    /// The diversity raster of the current generation: one record per
    /// individual, in grid order, with the fitness rank-normalized into
    /// the lightness range and the two visual scalars rank-normalized into
    /// the colour-axis ranges.  Degenerate channels (all values equal)
    /// collapse onto the start of their target range.
    pub fn visualise(&self) -> (r: Vec<IndexedLabData>)
        requires
            self.well_formed(),
        ensures
            r@.len() == self.spec_inds().len(),
            forall|i: int|
                0 <= i < r@.len() ==> (#[trigger] r@[i]) == (IndexedLabData {
                    index: i as usize,
                    data: LabData {
                        l: rank_value(
                            Self::fitness_seq(self.spec_inds()),
                            self.spec_inds()[i].fitness_spec() as int,
                            LAB_L_MIN as int,
                            LAB_L_MAX as int,
                        ) as i64,
                        a: rank_value(
                            Self::visual_a_seq(self.spec_inds(), self.spec_ind_data()),
                            self.spec_inds()[i].visuals_spec(&self.spec_ind_data()).0 as int,
                            LAB_AB_MIN as int,
                            LAB_AB_MAX as int,
                        ) as i64,
                        b: rank_value(
                            Self::visual_b_seq(self.spec_inds(), self.spec_ind_data()),
                            self.spec_inds()[i].visuals_spec(&self.spec_ind_data()).1 as int,
                            LAB_AB_MIN as int,
                            LAB_AB_MAX as int,
                        ) as i64,
                    },
                }),
    {
        let lab_data = self._prepare_pop_lab_data();
        let ghost raw = lab_data@;
        proof {
            assert(channel_seq(raw, LabChannel::L) =~= Self::fitness_seq(self.spec_inds()));
            assert(channel_seq(raw, LabChannel::A) =~= Self::visual_a_seq(
                self.spec_inds(),
                self.spec_ind_data(),
            ));
            assert(channel_seq(raw, LabChannel::B) =~= Self::visual_b_seq(
                self.spec_inds(),
                self.spec_ind_data(),
            ));
        }
        Self::_normalize_lab_data_rank_based(lab_data)
    }
}

} // verus!
