//! The integer bookkeeping of weight tuning: which games a batch plays, how a game's
//! end is classified and tallied, and how parents are drawn by rank.
//!
//! Fitness values are floating point and stay with the caller; what is decided here
//! is exact.

use vstd::prelude::*;
use rand::rngs::StdRng;
use crate::random::draw_below;
use crate::model::GamePhase;

verus! {

/// How weights are tuned.
#[derive(Debug, Clone, Copy, PartialEq, Eq, Structural)]
pub enum Strategy {
    /// A genetic algorithm.
    GA,
    /// Simultaneous perturbation stochastic approximation.
    Spsa,
}

/// Which search the tuned weights are for.
#[derive(Debug, Clone, Copy, PartialEq, Eq, Structural)]
pub enum Target {
    Beam,
    Rhea,
}

/// How one game of an evaluation ended.
#[derive(Debug, Clone, Copy, PartialEq, Eq, Structural)]
pub enum SeedOutcome {
    Won,
    Lost,
    /// The search stopped before the game ended.
    TimedOut,
    /// The search returned no solution at all.
    Panicked,
}

/// The outcome of a game whose search ended in `final_phase`, or returned nothing.
pub open spec fn outcome_spec(final_phase: Option<GamePhase>) -> SeedOutcome {
    match final_phase {
        None => SeedOutcome::Panicked,
        Some(GamePhase::Victory) => SeedOutcome::Won,
        Some(GamePhase::GameOver) => SeedOutcome::Lost,
        Some(_) => SeedOutcome::TimedOut,
    }
}

/// Classifies a game by the phase its search ended in (`None`: no solution).
pub fn seed_outcome(final_phase: Option<GamePhase>) -> (r: SeedOutcome)
    ensures
        r == outcome_spec(final_phase),
{
    match final_phase {
        None => SeedOutcome::Panicked,
        Some(GamePhase::Victory) => SeedOutcome::Won,
        Some(GamePhase::GameOver) => SeedOutcome::Lost,
        Some(_) => SeedOutcome::TimedOut,
    }
}

/// The status code reported for a finished game: 2 won, 3 lost, 4 no solution,
/// 5 timed out.
pub open spec fn status_spec(o: SeedOutcome) -> u8 {
    match o {
        SeedOutcome::Won => 2,
        SeedOutcome::Lost => 3,
        SeedOutcome::Panicked => 4,
        SeedOutcome::TimedOut => 5,
    }
}

/// The status code of an outcome (see [`status_spec`]).
pub fn outcome_status(o: SeedOutcome) -> (r: u8)
    ensures
        r == status_spec(o),
{
    match o {
        SeedOutcome::Won => 2,
        SeedOutcome::Lost => 3,
        SeedOutcome::Panicked => 4,
        SeedOutcome::TimedOut => 5,
    }
}

/// How many games ended each way.
#[derive(Debug, Clone, Copy, PartialEq, Eq, Structural)]
pub struct SeedTally {
    pub wins: usize,
    pub losses: usize,
    pub timeouts: usize,
    pub panics: usize,
}

/// The tally of a single game.
pub open spec fn single_tally(o: SeedOutcome) -> SeedTally {
    SeedTally {
        wins: if o == SeedOutcome::Won { 1 } else { 0 },
        losses: if o == SeedOutcome::Lost { 1 } else { 0 },
        timeouts: if o == SeedOutcome::TimedOut { 1 } else { 0 },
        panics: if o == SeedOutcome::Panicked { 1 } else { 0 },
    }
}

impl SeedTally {
    /// No games yet.
    pub fn new() -> (r: SeedTally)
        ensures
            r == (SeedTally { wins: 0, losses: 0, timeouts: 0, panics: 0 }),
    {
        SeedTally { wins: 0, losses: 0, timeouts: 0, panics: 0 }
    }

    /// The tally of one game.
    pub fn of_outcome(o: SeedOutcome) -> (r: SeedTally)
        ensures
            r == single_tally(o),
    {
        SeedTally {
            wins: if o == SeedOutcome::Won { 1 } else { 0 },
            losses: if o == SeedOutcome::Lost { 1 } else { 0 },
            timeouts: if o == SeedOutcome::TimedOut { 1 } else { 0 },
            panics: if o == SeedOutcome::Panicked { 1 } else { 0 },
        }
    }

    /// Adds another tally to this one, count by count.
    pub fn add(&mut self, other: &SeedTally)
        requires
            old(self).wins + other.wins <= usize::MAX,
            old(self).losses + other.losses <= usize::MAX,
            old(self).timeouts + other.timeouts <= usize::MAX,
            old(self).panics + other.panics <= usize::MAX,
        ensures
            final(self).wins == old(self).wins + other.wins,
            final(self).losses == old(self).losses + other.losses,
            final(self).timeouts == old(self).timeouts + other.timeouts,
            final(self).panics == old(self).panics + other.panics,
    {
        self.wins = self.wins + other.wins;
        self.losses = self.losses + other.losses;
        self.timeouts = self.timeouts + other.timeouts;
        self.panics = self.panics + other.panics;
    }

    /// The number of games tallied.
    pub open spec fn games(self) -> int {
        self.wins + self.losses + self.timeouts + self.panics
    }
}

/// Every game is tallied exactly once: a single game's tally counts one game, under
/// its own outcome.
pub proof fn lemma_single_tally(o: SeedOutcome)
    ensures
        single_tally(o).games() == 1,
{
}

/// The games of a batch, one per genome and seed, genome by genome: entry `i` is
/// genome `i / seeds` on seed `i % seeds`.
pub open spec fn tasks_spec(genomes: nat, seeds: nat) -> Seq<(usize, usize)> {
    Seq::new(genomes * seeds, |i: int| ((i / seeds as int) as usize, (i % seeds as int) as usize))
}

/// The games a batch plays (see [`tasks_spec`]).
pub fn game_tasks(genomes: usize, seeds: usize) -> (r: Vec<(usize, usize)>)
    requires
        genomes * seeds <= usize::MAX,
    ensures
        r@ == tasks_spec(genomes as nat, seeds as nat),
{
    let mut r: Vec<(usize, usize)> = Vec::new();
    let mut g: usize = 0;
    while g < genomes
        invariant
            0 <= g <= genomes,
            genomes * seeds <= usize::MAX,
            r@ == tasks_spec(g as nat, seeds as nat),
        decreases genomes - g,
    {
        let mut s: usize = 0;
        proof {
            lemma_mul_le(g as nat, genomes as nat, seeds as nat);
        }
        while s < seeds
            invariant
                0 <= g < genomes,
                0 <= s <= seeds,
                g * seeds + seeds <= genomes * seeds,
                r@.len() == g * seeds + s,
                forall|i: int|
                    0 <= i < r@.len() ==> #[trigger] r@[i] == ((i / seeds as int) as usize, (i
                        % seeds as int) as usize),
            decreases seeds - s,
        {
            proof {
                lemma_div_mod_row(g as int, s as int, seeds as int);
            }
            r.push((g, s));
            s += 1;
        }
        g += 1;
        proof {
            lemma_mul_succ(g as nat, seeds as nat);
            assert(r@ =~= tasks_spec(g as nat, seeds as nat));
        }
    }
    r
}

proof fn lemma_mul_le(g: nat, n: nat, s: nat)
    requires
        g < n,
    ensures
        g * s + s <= n * s,
{
    assert(g * s + s == (g + 1) * s) by (nonlinear_arith);
    assert((g + 1) * s <= n * s) by (nonlinear_arith)
        requires
            g + 1 <= n,
    ;
}

proof fn lemma_mul_succ(g: nat, s: nat)
    requires
        g >= 1,
    ensures
        (g - 1) * s + s == g * s,
{
    assert((g - 1) * s + s == g * s) by (nonlinear_arith)
        requires
            g >= 1,
    ;
}

proof fn lemma_div_mod_row(g: int, s: int, n: int)
    requires
        0 <= g,
        0 <= s < n,
    ensures
        (g * n + s) / n == g,
        (g * n + s) % n == s,
{
    assert((g * n + s) / n == g && (g * n + s) % n == s) by (nonlinear_arith)
        requires
            0 <= g,
            0 <= s < n,
    ;
}

/// The sum of the rank weights `population, population - 1, ..., 1`.
pub open spec fn rank_total(population: nat) -> nat
    decreases population,
{
    if population == 0 {
        0
    } else {
        population + rank_total((population - 1) as nat)
    }
}

/// The total rank weight is the triangular number of the population:
/// `1 + 2 + ... + p == p * (p + 1) / 2`.
pub proof fn lemma_rank_total_closed_form(p: nat)
    ensures
        2 * (rank_total(p) as int) == (p as int) * (p as int + 1),
    decreases p,
{
    if p > 0 {
        let q = (p - 1) as nat;
        lemma_rank_total_closed_form(q);
        let (pi, qi) = (p as int, q as int);
        assert(2 * pi + qi * (qi + 1) == pi * (pi + 1)) by (nonlinear_arith)
            requires
                qi + 1 == pi,
        ;
    } else {
        assert((p as int) * (p as int + 1) == 0) by (nonlinear_arith)
            requires
                p == 0,
        ;
    }
}

/// The total weight that parents are drawn against: `1 + 2 + ... + population`.
pub fn rank_weight_total(population: usize) -> (r: usize)
    requires
        rank_total(population as nat) <= usize::MAX,
    ensures
        r == rank_total(population as nat),
{
    let mut total: usize = 0;
    let mut k: usize = 0;
    while k < population
        invariant
            0 <= k <= population,
            rank_total(population as nat) <= usize::MAX,
            total == rank_total(population as nat) - rank_total((population - k) as nat),
            rank_total((population - k) as nat) <= rank_total(population as nat),
        decreases population - k,
    {
        assert(rank_total((population - k) as nat) == (population - k) + rank_total(
            (population - k - 1) as nat,
        ));
        total = total + (population - k);
        k += 1;
    }
    total
}

/// The weight of the parent at rank `i` (rank 0 is the fittest).
pub open spec fn rank_weight(population: int, i: int) -> int {
    population - i
}

/// The total weight of the ranks below `i`.
pub open spec fn rank_prefix(population: int, i: int) -> int
    decreases i,
{
    if i <= 0 {
        0
    } else {
        rank_prefix(population, i - 1) + rank_weight(population, i - 1)
    }
}

/// The rank drawn by the value `r`, scanning ranks from `i` on: the first rank whose
/// weight exceeds what is left of `r`; rank 0 if the scan runs out.
pub open spec fn pick_from(r: int, population: int, i: int, len: int) -> int
    decreases len - i,
{
    if i >= len {
        0
    } else if r < rank_weight(population, i) {
        i
    } else {
        pick_from(r - rank_weight(population, i), population, i + 1, len)
    }
}

/// Draws a parent by rank: `r` is a uniform draw below the total rank weight, and the
/// parent at rank `i` is drawn with weight `population - i`. `candidates` parents are
/// ranked, at most `population`.
pub fn select_parent_idx(r: usize, population: usize, candidates: usize) -> (i: usize)
    requires
        candidates <= population,
    ensures
        i == pick_from(r as int, population as int, 0, candidates as int),
{
    let mut rest: usize = r;
    let mut i: usize = 0;
    while i < candidates
        invariant
            0 <= i <= candidates <= population,
            pick_from(rest as int, population as int, i as int, candidates as int) == pick_from(
                r as int,
                population as int,
                0,
                candidates as int,
            ),
        decreases candidates - i,
    {
        let weight = population - i;
        if rest < weight {
            return i;
        }
        rest = rest - weight;
        i += 1;
    }
    0
}

proof fn lemma_pick_bounds(r: int, p: int, i: int, len: int)
    requires
        0 <= i <= len,
        len == p,
        rank_prefix(p, i) <= r + rank_prefix(p, i),
        0 <= r,
        r + rank_prefix(p, i) < rank_total(p as nat),
    ensures
        i <= pick_from(r, p, i, len) < len,
        rank_prefix(p, pick_from(r, p, i, len)) <= r + rank_prefix(p, i) < rank_prefix(
            p,
            pick_from(r, p, i, len),
        ) + rank_weight(p, pick_from(r, p, i, len)),
    decreases len - i,
{
    lemma_prefix_total(p, len);
    if i < len {
        if r >= rank_weight(p, i) {
            assert(rank_prefix(p, i + 1) == rank_prefix(p, i) + rank_weight(p, i));
            lemma_pick_bounds(r - rank_weight(p, i), p, i + 1, len);
        }
    }
}

proof fn lemma_prefix_total(p: int, k: int)
    requires
        0 <= k <= p,
    ensures
        rank_prefix(p, k) + rank_total((p - k) as nat) == rank_total(p as nat),
    decreases k,
{
    if k > 0 {
        lemma_prefix_total(p, k - 1);
        assert(rank_total((p - k + 1) as nat) == (p - k + 1) + rank_total((p - k) as nat));
    }
}

/// Drawing by rank always names one of the ranked parents, and names the rank `i`
/// exactly for the `population - i` draws between the weights of the ranks before it
/// and that total plus its own weight: fitter parents are drawn more often.
pub proof fn lemma_parent_draw(r: nat, population: nat)
    requires
        r < rank_total(population),
    ensures
        pick_from(r as int, population as int, 0, population as int) < population,
        rank_prefix(population as int, pick_from(r as int, population as int, 0, population as int))
            <= r,
        r < rank_prefix(population as int, pick_from(r as int, population as int, 0, population as int))
            + rank_weight(population as int, pick_from(r as int, population as int, 0, population as int)),
{
    lemma_pick_bounds(r as int, population as int, 0, population as int);
}

/// Draws a parent by rank: a uniform draw below the total
/// rank weight, turned into a rank by [`select_parent_idx`].
pub fn draw_parent(rng: &mut StdRng, population: usize, candidates: usize) -> (i: usize)
    requires
        candidates <= population,
        0 < rank_total(population as nat) <= usize::MAX,
    ensures
        exists|r: int|
            0 <= r < rank_total(population as nat) && i == pick_from(
                r,
                population as int,
                0,
                candidates as int,
            ),
{
    let total = rank_weight_total(population);
    let r = draw_below(rng, total);
    select_parent_idx(r, population, candidates)
}

} // verus!
