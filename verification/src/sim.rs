//! The simulation engine: one realization of the growth process, and the
//! ensemble of realizations that differ in their seed alone.
//!
//! Every observable is kept as an exact integer. With `L` the substrate
//! length, a sample holds the number of particles dropped so far (the elapsed
//! time is that number over `L`), the sum of the heights (the mean height is
//! that sum over `L`) and the spread `L * sum(h^2) - sum(h)^2` (the interface
//! width is the square root of the spread, over `L`).

use crate::ini_parser::{ConfigError, InputParams};
use rayon::iter::{IntoParallelRefIterator, ParallelIterator};
use vstd::prelude::*;

pub mod csv_writer;
pub mod random;
pub mod schedule;
pub mod stats;
pub mod surface;

use random::{RandomStream, RngState};
use schedule::{
    batch_size, count_time_points, lemma_batch_size, lemma_batch_within_cap, missing, next_batch,
    particle_cap, particle_goal, particles_after, time_points, time_points_from,
};
use stats::{
    Fraction, lemma_spread_nonnegative, lemma_totals_bounded, mean, spread, square_total, total, variance,
};
use surface::{
    after_drops, deposit_blocks, lemma_heights_never_decrease, lemma_tallest_at_most,
    lemma_tallest_attained, lemma_tallest_bounds, tallest,
};

verus! {

/// Why an ensemble cannot be reduced.
#[derive(Clone, Copy, Debug, PartialEq, Eq, Structural)]
pub enum ConsistencyError {
    /// A realization recorded a series whose length is not the number of
    /// sample points of the schedule.
    SeriesLengthMismatch,
    /// There is no realization to take the elapsed times from.
    EmptyEnsemble,
}

/// The parameters of one ensemble, as plain numbers.
pub struct Config {
    /// Number of columns of the substrate.
    pub length: nat,
    /// Elapsed time, in monolayers, at which a realization stops.
    pub max_time: nat,
    /// Number of neighbours on each side that take part in the sticking rule.
    pub k_neighbour: nat,
    /// Number of realizations.
    pub seed_count: nat,
    /// Whether the substrate wraps around at its edges.
    pub periodic_boundary: bool,
    /// Offset of the seeds of the realizations.
    pub base_seed: nat,
}

/// One sample point of a realization.
#[derive(Clone, Copy, Debug, PartialEq, Eq, Structural)]
pub struct Sample {
    /// Particles dropped so far: the elapsed time times the length.
    pub particles: u64,
    /// Sum of the column heights: the mean height times the length.
    pub height_sum: u64,
    /// Length times the sum of squared heights, less the squared sum of
    /// heights: the squared interface width times the squared length.
    pub spread: u128,
}

/// The state of a realization between two batches.
pub struct RunState {
    pub surface: Seq<u64>,
    pub rng: RngState,
    pub particles: nat,
}

/// The sample taken in state `st`.
pub open spec fn sample_of(st: RunState) -> Sample {
    Sample {
        particles: st.particles as u64,
        height_sum: total(st.surface) as u64,
        spread: spread(st.surface) as u128,
    }
}

impl Config {
    /// The invariants of a configuration, and what machine integers ask of
    /// it: the seed of every realization has a magnitude that a signed 32-bit
    /// seed can hold, and the length times the largest particle count fits 64
    /// bits, so that every sum of heights fits 64 bits and every spread 128.
    pub open spec fn valid(self) -> bool {
        &&& self.length > 0
        &&& self.length <= u32::MAX
        &&& self.max_time <= u32::MAX
        &&& self.k_neighbour < self.length
        &&& self.seed_count > 0
        &&& self.length + self.base_seed + self.seed_count - 1 <= i32::MAX
        &&& self.length * particle_cap(self.length, self.max_time) <= u64::MAX
    }

    /// The first invariant that the configuration breaks, if it breaks one.
    pub open spec fn fault(self) -> Option<ConfigError> {
        if self.length == 0 {
            Some(ConfigError::EmptySubstrate)
        } else if self.k_neighbour >= self.length {
            Some(ConfigError::NeighbourRange)
        } else if self.seed_count == 0 {
            Some(ConfigError::NoSeeds)
        } else if self.length + self.base_seed + self.seed_count - 1 > i32::MAX {
            Some(ConfigError::SeedRange)
        } else if self.length * particle_cap(self.length, self.max_time) > u64::MAX {
            Some(ConfigError::TooManyParticles)
        } else {
            None
        }
    }

    /// The particle count at which a realization stops.
    pub open spec fn goal(self) -> nat {
        particle_goal(self.length, self.max_time)
    }

    /// The seed of realization `index`: the negated sum of the length, the
    /// seed offset and the index.
    pub open spec fn seed_of(self, index: nat) -> int {
        -(self.length + self.base_seed + index)
    }

    /// The state in which realization `index` starts: a flat surface at
    /// height zero and a stream fresh from the realization's seed.
    pub open spec fn start(self, index: nat) -> RunState {
        RunState {
            surface: Seq::new(self.length, |c: int| 0u64),
            rng: RngState::initial(self.seed_of(index)),
            particles: 0,
        }
    }

    /// The state after the batch that starts in `st`.
    pub open spec fn step(self, st: RunState) -> RunState {
        let n = batch_size(st.particles, self.length);
        let (surface, rng) = after_drops(
            st.surface,
            st.rng,
            n,
            self.k_neighbour,
            self.periodic_boundary,
        );
        RunState { surface, rng, particles: st.particles + n }
    }

    /// The state of realization `index` after `i` batches.
    pub open spec fn state_after(self, index: nat, i: nat) -> RunState
        decreases i,
    {
        if i == 0 {
            self.start(index)
        } else {
            self.step(self.state_after(index, (i - 1) as nat))
        }
    }

    /// The samples that a realization records from state `st` on: one after
    /// each batch, until the particle count reaches the goal.
    pub open spec fn series_from(self, st: RunState) -> Seq<Sample>
        decreases missing(st.particles, self.goal()),
    {
        if st.particles >= self.goal() || self.length == 0 {
            Seq::empty()
        } else {
            let next = self.step(st);
            seq![sample_of(next)] + self.series_from(next)
        }
    }

    /// The series of realization `index`.
    pub open spec fn realization(self, index: nat) -> Seq<Sample> {
        self.series_from(self.start(index))
    }

    /// What holds of every state that a realization passes through.
    pub open spec fn reaches(self, st: RunState) -> bool {
        &&& st.surface.len() == self.length
        &&& st.rng.valid()
        &&& tallest(st.surface) <= st.particles
        &&& st.particles <= particle_cap(self.length, self.max_time)
    }
}

/// A realization records as many samples as the schedule has points left.
pub proof fn lemma_series_length(cfg: Config, st: RunState)
    ensures
        cfg.series_from(st).len() == time_points_from(st.particles, cfg.length, cfg.goal()),
    decreases missing(st.particles, cfg.goal()),
{
    if st.particles >= cfg.goal() || cfg.length == 0 {
    } else {
        lemma_series_length(cfg, cfg.step(st));
    }
}

/// A batch that starts below the goal keeps the state within its bounds and
/// lowers no column.
pub proof fn lemma_step(cfg: Config, st: RunState)
    requires
        cfg.valid(),
        cfg.reaches(st),
        st.particles < cfg.goal(),
    ensures
        cfg.reaches(cfg.step(st)),
        cfg.step(st).particles == st.particles + batch_size(st.particles, cfg.length),
        cfg.step(st).particles > st.particles,
        forall|c: int| 0 <= c < cfg.length ==> st.surface[c] <= #[trigger] cfg.step(st).surface[c],
{
    let n = batch_size(st.particles, cfg.length);
    let cap = particle_cap(cfg.length, cfg.max_time);
    lemma_batch_within_cap(st.particles, cfg.length, cfg.max_time);
    lemma_batch_size(st.particles, cfg.length);
    assert(cap <= u64::MAX) by (nonlinear_arith)
        requires
            cfg.length >= 1,
            cfg.length * cap <= u64::MAX,
    ;
    lemma_heights_never_decrease(st.surface, st.rng, n, cfg.k_neighbour, cfg.periodic_boundary);
}

/// The sums of a state within its bounds fit the fields of a sample.
pub proof fn lemma_sample_fits(cfg: Config, st: RunState)
    requires
        cfg.valid(),
        cfg.reaches(st),
    ensures
        0 <= total(st.surface) <= u64::MAX,
        0 <= spread(st.surface) <= u128::MAX,
        st.particles <= u64::MAX,
        cfg.length * tallest(st.surface) <= u64::MAX,
{
    let s = st.surface;
    let top = tallest(s);
    let len = cfg.length as int;
    let cap = particle_cap(cfg.length, cfg.max_time) as int;
    lemma_tallest_attained(s);
    assert forall|c: int| 0 <= c < s.len() implies #[trigger] s[c] <= top by {
        lemma_tallest_bounds(s, c);
    }
    lemma_totals_bounded(s, top);
    lemma_spread_nonnegative(s);
    assert(len * top <= len * cap) by (nonlinear_arith)
        requires
            0 <= top <= cap,
            0 <= len,
    ;
    assert(cap <= u64::MAX) by (nonlinear_arith)
        requires
            len >= 1,
            len * cap <= u64::MAX,
    ;
    assert(len * (len * top * top) <= 0xffff_ffff_ffff_ffff * 0xffff_ffff_ffff_ffff)
        by (nonlinear_arith)
        requires
            0 <= len,
            0 <= top,
            len * top <= 0xffff_ffff_ffff_ffff,
    ;
    assert(len * square_total(s) <= len * (len * top * top)) by (nonlinear_arith)
        requires
            0 <= len,
            square_total(s) <= len * top * top,
    ;
    assert(total(s) * total(s) >= 0) by (nonlinear_arith);
}

/// The parameters of one ensemble of realizations.
#[derive(Clone, Copy, Debug)]
pub struct SimulationParams {
    length_t_max: (u32, u32),
    k_neighbour: u32,
    max_seed: u32,
    periodic_bc: bool,
    init_seed: u32,
}

impl View for SimulationParams {
    type V = Config;

    closed spec fn view(&self) -> Config {
        Config {
            length: self.length_t_max.0 as nat,
            max_time: self.length_t_max.1 as nat,
            k_neighbour: self.k_neighbour as nat,
            seed_count: self.max_seed as nat,
            periodic_boundary: self.periodic_bc,
            base_seed: self.init_seed as nat,
        }
    }
}

/// The configuration that the arguments of `SimulationParams::new` ask for.
pub open spec fn requested(
    total_params: InputParams,
    length_t_max: (u32, u32),
    k_neighbour: u32,
    max_seed: u32,
) -> Config {
    Config {
        length: length_t_max.0 as nat,
        max_time: length_t_max.1 as nat,
        k_neighbour: k_neighbour as nat,
        seed_count: max_seed as nat,
        periodic_boundary: total_params.periodic_bc,
        base_seed: total_params.init_seed as nat,
    }
}

impl SimulationParams {
    /// The parameters satisfy the invariants of a configuration. This holds
    /// of every value of the type: `new` returns no others.
    #[verifier::type_invariant]
    pub open spec fn wf(&self) -> bool {
        self@.valid()
    }

    /// The parameters of the ensemble of `max_seed` realizations on a
    /// substrate of `length_t_max.0` columns up to time `length_t_max.1`,
    /// with the boundary and the seed offset of `total_params`. Numbers that
    /// break an invariant of the configuration are refused, with the first
    /// invariant that they break.
    pub fn new(
        total_params: InputParams,
        length_t_max: (u32, u32),
        k_neighbour: u32,
        max_seed: u32,
    ) -> (r: Result<SimulationParams, ConfigError>)
        ensures
            match r {
                Ok(params) => {
                    &&& params.wf()
                    &&& params@ == requested(total_params, length_t_max, k_neighbour, max_seed)
                    &&& params@.fault() is None
                },
                Err(e) => requested(total_params, length_t_max, k_neighbour, max_seed).fault()
                    == Some(e),
            },
    {
        let l: u32 = length_t_max.0;
        let t_max: u32 = length_t_max.1;
        if l == 0 {
            return Err(ConfigError::EmptySubstrate);
        }
        if k_neighbour >= l {
            return Err(ConfigError::NeighbourRange);
        }
        if max_seed == 0 {
            return Err(ConfigError::NoSeeds);
        }
        if l as u64 + total_params.init_seed as u64 + max_seed as u64 - 1 > 0x7fff_ffff {
            return Err(ConfigError::SeedRange);
        }
        proof {
            assert((l as nat) * (t_max as nat) <= 0xffff_ffff * 0xffff_ffff) by (nonlinear_arith)
                requires
                    l <= 0xffff_ffff,
                    t_max <= 0xffff_ffff,
            ;
        }
        let goal: u64 = l as u64 * t_max as u64;
        let batch: u64 = goal / 100 + 1;
        let cap: u128 = if batch >= l as u64 {
            goal as u128 + batch as u128
        } else {
            goal as u128 + l as u128
        };
        proof {
            assert((l as int) * (cap as int) <= 0xffff_ffff * 0x2_0000_0000_0000_0000)
                by (nonlinear_arith)
                requires
                    0 <= l <= 0xffff_ffff,
                    0 <= cap <= 0x2_0000_0000_0000_0000,
            ;
        }
        if l as u128 * cap > 0xffff_ffff_ffff_ffff {
            return Err(ConfigError::TooManyParticles);
        }
        Ok(
            SimulationParams {
                length_t_max,
                k_neighbour,
                max_seed,
                periodic_bc: total_params.periodic_bc,
                init_seed: total_params.init_seed,
            },
        )
    }

    /// Number of columns of the substrate.
    pub fn length(&self) -> (r: u32)
        ensures
            r == self@.length,
    {
        self.length_t_max.0
    }

    /// Elapsed time at which a realization stops.
    pub fn max_time(&self) -> (r: u32)
        ensures
            r == self@.max_time,
    {
        self.length_t_max.1
    }

    /// Number of neighbours on each side that take part in the sticking rule.
    pub fn k_neighbour(&self) -> (r: u32)
        ensures
            r == self@.k_neighbour,
    {
        self.k_neighbour
    }

    /// Number of realizations.
    pub fn max_seed(&self) -> (r: u32)
        ensures
            r == self@.seed_count,
    {
        self.max_seed
    }

    /// Whether the substrate wraps around at its edges.
    pub fn periodic_bc(&self) -> (r: bool)
        ensures
            r == self@.periodic_boundary,
    {
        self.periodic_bc
    }

    /// Offset of the seeds of the realizations.
    pub fn init_seed(&self) -> (r: u32)
        ensures
            r == self@.base_seed,
    {
        self.init_seed
    }
}

/// Runs realization `seed` of the ensemble and returns its series: one sample
/// after each batch of the schedule. `t_points` is the number of samples that
/// the caller has room for; a series of any other length is a consistency
/// error.
pub fn do_sim(params: &SimulationParams, seed: u32, t_points: usize) -> (r: Result<
    Vec<Sample>,
    ConsistencyError,
>)
    requires
        seed < params@.seed_count,
    ensures
        r is Ok <==> t_points == time_points(params@.length, params@.max_time),
        r matches Ok(series) ==> series@ == params@.realization(seed as nat),
        r matches Err(e) ==> e == ConsistencyError::SeriesLengthMismatch,
{
    let l: u32 = params.length_t_max.0;
    let t_max: u32 = params.length_t_max.1;
    let k_neighbour: u32 = params.k_neighbour;
    let periodic_bc: bool = params.periodic_bc;
    let ghost cfg = params@;
    proof {
        use_type_invariant(params);
    }

    let idum: i32 = (0 - (l as i64 + params.init_seed as i64 + seed as i64)) as i32;
    let mut rng: RandomStream = RandomStream::new(idum);
    let mut s: Vec<u64> = zeroed_surface(l);

    proof {
        assert((l as nat) * (t_max as nat) <= 0xffff_ffff * 0xffff_ffff) by (nonlinear_arith)
            requires
                l <= 0xffff_ffff,
                t_max <= 0xffff_ffff,
        ;
    }
    let goal: u64 = l as u64 * t_max as u64;
    let mut m: u64 = 0;
    let mut out: Vec<Sample> = Vec::new();
    let ghost mut st: RunState = cfg.start(seed as nat);
    proof {
        assert(s@ =~= st.surface);
        lemma_tallest_at_most(s@, 0);
        lemma_tallest_attained(s@);
        lemma_series_length(cfg, st);
        assert(cfg.series_from(st) =~= out@ + cfg.series_from(st));
    }
    while m < goal
        invariant
            cfg == params@,
            cfg.valid(),
            l == cfg.length,
            k_neighbour == cfg.k_neighbour,
            periodic_bc == cfg.periodic_boundary,
            goal == cfg.goal(),
            cfg.reaches(st),
            s@ == st.surface,
            rng@ == st.rng,
            rng.wf(),
            m == st.particles,
            out@ + cfg.series_from(st) == cfg.realization(seed as nat),
            cfg.realization(seed as nat).len() == time_points(cfg.length, cfg.max_time),
            out.len() <= t_points,
        decreases missing(m as nat, goal as nat),
    {
        if out.len() >= t_points {
            return Err(ConsistencyError::SeriesLengthMismatch);
        }
        let n: u64 = next_batch(m, l);
        proof {
            lemma_step(cfg, st);
            lemma_sample_fits(cfg, cfg.step(st));
        }
        deposit_blocks(n, l, &mut s, &mut rng, k_neighbour, periodic_bc);
        m = m + n;
        let sample = Sample {
            particles: m,
            height_sum: mean(&s).unwrap().numerator as u64,
            spread: variance(&s).unwrap().numerator,
        };
        proof {
            let next = cfg.step(st);
            assert(sample == sample_of(next));
            assert(out@.push(sample) + cfg.series_from(next) =~= out@ + cfg.series_from(st));
            st = next;
        }
        out.push(sample);
    }
    if out.len() != t_points {
        return Err(ConsistencyError::SeriesLengthMismatch);
    }
    proof {
        assert(out@ + cfg.series_from(st) =~= out@);
    }
    Ok(out)
}

/// A flat surface of `l` columns at height zero.
pub fn zeroed_surface(l: u32) -> (s: Vec<u64>)
    ensures
        s@ == Seq::new(l as nat, |c: int| 0u64),
{
    let mut s: Vec<u64> = Vec::new();
    let mut c: u32 = 0;
    while c < l
        invariant
            c <= l,
            s@ == Seq::new(c as nat, |c: int| 0u64),
        decreases l - c,
    {
        s.push(0);
        c += 1;
        assert(s@ =~= Seq::new(c as nat, |c: int| 0u64));
    }
    s
}

/// The final time that a table of lengths and final times gives for
/// `length`: that of the first row with this length.
pub open spec fn horizon_of(table: Seq<(u32, u32)>, length: u32) -> Option<u32>
    decreases table.len(),
{
    if table.len() == 0 {
        None
    } else if table[0].0 == length {
        Some(table[0].1)
    } else {
        horizon_of(table.drop_first(), length)
    }
}

/// Looks up the final time of a run on `length` columns in a table of
/// lengths and final times. A length without a row has none.
pub fn time_horizon(table: &Vec<(u32, u32)>, length: u32) -> (t_max: Option<u32>)
    ensures
        t_max == horizon_of(table@, length),
        t_max is None <==> forall|i: int| 0 <= i < table.len() ==> (#[trigger] table[i]).0 != length,
{
    let mut i: usize = 0;
    proof {
        assert(table@.subrange(0, table.len() as int) == table@);
    }
    while i < table.len()
        invariant
            i <= table.len(),
            horizon_of(table@, length) == horizon_of(
                table@.subrange(i as int, table.len() as int),
                length,
            ),
            forall|i2: int| 0 <= i2 < i ==> (#[trigger] table[i2]).0 != length,
        decreases table.len() - i,
    {
        let row: (u32, u32) = table[i];
        proof {
            let rest = table@.subrange(i as int, table.len() as int);
            assert(rest[0] == row);
            assert(rest.drop_first() == table@.subrange(i + 1, table.len() as int));
        }
        if row.0 == length {
            return Some(row.1);
        }
        i += 1;
    }
    None
}

/// The series of an ensemble, one per realization.
pub open spec fn series_of(data: Seq<Vec<Sample>>) -> Seq<Seq<Sample>> {
    data.map_values(|series: Vec<Sample>| series@)
}

/// Sum of the height sums that the first `count` realizations recorded at
/// sample point `j`.
pub open spec fn column_total(runs: Seq<Seq<Sample>>, j: int, count: nat) -> int
    decreases count,
{
    if count == 0 {
        0
    } else {
        column_total(runs, j, (count - 1) as nat) + runs[count - 1][j].height_sum
    }
}

/// What an ensemble of realizations reduces to, one entry per sample point.
pub struct Ensemble {
    /// The spread of every realization, in the order of the realizations.
    /// The average interface width is the mean of their square roots, over
    /// the length.
    pub width_terms: Seq<Seq<u128>>,
    /// Sum over the realizations of the sums of heights. The average mean
    /// height is this sum over the length and the number of realizations.
    pub height_totals: Seq<u128>,
    /// Particles dropped so far in the first realization. The elapsed time is
    /// this count over the length.
    pub particles: Seq<u64>,
}

/// The reduction of `runs`, each of `t` samples.
pub open spec fn reduced(runs: Seq<Seq<Sample>>, t: nat) -> Ensemble {
    Ensemble {
        width_terms: Seq::new(t, |j: int| Seq::new(runs.len(), |i: int| runs[i][j].spread)),
        height_totals: Seq::new(t, |j: int| column_total(runs, j, runs.len()) as u128),
        particles: Seq::new(t, |j: int| runs[0][j].particles),
    }
}

/// Why `runs` cannot be reduced to `t` sample points, if they cannot.
pub open spec fn reduce_fault(runs: Seq<Seq<Sample>>, t: nat) -> Option<ConsistencyError> {
    if runs.len() == 0 {
        Some(ConsistencyError::EmptyEnsemble)
    } else if exists|i: int| 0 <= i < runs.len() && (#[trigger] runs[i]).len() != t {
        Some(ConsistencyError::SeriesLengthMismatch)
    } else {
        None
    }
}

impl Config {
    /// The series of all realizations of the ensemble.
    pub open spec fn realizations(self) -> Seq<Seq<Sample>> {
        Seq::new(self.seed_count, |i: int| self.realization(i as nat))
    }

    /// What the ensemble reduces to.
    pub open spec fn ensemble(self) -> Ensemble {
        reduced(self.realizations(), time_points(self.length, self.max_time))
    }
}

/// The reduced series of an ensemble.
#[derive(Debug)]
pub struct SimulationResults {
    /// For each sample point, the spread of every realization.
    pub width_terms: Vec<Vec<u128>>,
    /// For each sample point, the sum over the realizations of the sums of
    /// heights.
    pub height_totals: Vec<u128>,
    /// For each sample point, the particles dropped so far.
    pub particles: Vec<u64>,
}

impl View for SimulationResults {
    type V = Ensemble;

    open spec fn view(&self) -> Ensemble {
        Ensemble {
            width_terms: self.width_terms@.map_values(|terms: Vec<u128>| terms@),
            height_totals: self.height_totals@,
            particles: self.particles@,
        }
    }
}

impl SimulationResults {
    /// The results that hold the three series as they are given.
    pub fn new(v_out: Vec<Vec<u128>>, h_out: Vec<u128>, t_out: Vec<u64>) -> (results:
        SimulationResults)
        ensures
            results.width_terms == v_out,
            results.height_totals == h_out,
            results.particles == t_out,
    {
        SimulationResults { width_terms: v_out, height_totals: h_out, particles: t_out }
    }

    /// The elapsed time at sample point `j`, in monolayers, of an ensemble
    /// on `length` columns: the particle count over the length. There is none
    /// beyond the last sample point, nor on an empty substrate.
    pub fn elapsed_time(&self, j: usize, length: u32) -> (r: Option<Fraction>)
        ensures
            r is Some <==> j < self.particles.len() && length > 0,
            r matches Some(f) ==> f.numerator == self.particles[j as int] && f.denominator
                == length,
    {
        if j < self.particles.len() && length > 0 {
            Some(Fraction { numerator: self.particles[j] as u128, denominator: length as u128 })
        } else {
            None
        }
    }

    /// The mean height at sample point `j`, averaged over the `max_seed`
    /// realizations of an ensemble on `length` columns: the height total over
    /// the length and the number of realizations.
    pub fn mean_height(&self, j: usize, length: u32, max_seed: u32) -> (r: Option<Fraction>)
        ensures
            r is Some <==> j < self.height_totals.len() && length > 0 && max_seed > 0,
            r matches Some(f) ==> f.numerator == self.height_totals[j as int] && f.denominator
                == length * max_seed,
    {
        if j < self.height_totals.len() && length > 0 && max_seed > 0 {
            proof {
                assert(length * max_seed <= 0xffff_ffff * 0xffff_ffff) by (nonlinear_arith)
                    requires
                        length <= 0xffff_ffff,
                        max_seed <= 0xffff_ffff,
                ;
            }
            Some(
                Fraction {
                    numerator: self.height_totals[j],
                    denominator: length as u128 * max_seed as u128,
                },
            )
        } else {
            None
        }
    }

    /// The variance of the heights of realization `i` at sample point `j`, on
    /// `length` columns: the spread over the squared length. The interface
    /// width of the realization is its square root, and the ensemble's width
    /// the mean of these widths.
    pub fn height_variance(&self, j: usize, i: usize, length: u32) -> (r: Option<Fraction>)
        ensures
            r is Some <==> j < self.width_terms.len() && i < self.width_terms[j as int].len()
                && length > 0,
            r matches Some(f) ==> f.numerator == self.width_terms[j as int][i as int]
                && f.denominator == length * length,
    {
        if j < self.width_terms.len() && length > 0 {
            if i < self.width_terms[j].len() {
                proof {
                    assert(length * length <= 0xffff_ffff * 0xffff_ffff) by (nonlinear_arith)
                        requires
                            length <= 0xffff_ffff,
                    ;
                }
                return Some(
                    Fraction {
                        numerator: self.width_terms[j][i],
                        denominator: length as u128 * length as u128,
                    },
                );
            }
        }
        None
    }
}

/// Reduces the series of an ensemble, one per realization and each of
/// `t_points` samples, to one entry per sample point: the spreads side by
/// side, the height sums added up, and the particle counts of the first
/// realization. An empty ensemble and a series of another length are
/// consistency errors.
pub fn reduce_ensemble(data: &Vec<Vec<Sample>>, t_points: usize) -> (r: Result<
    SimulationResults,
    ConsistencyError,
>)
    ensures
        match r {
            Ok(results) => {
                &&& reduce_fault(series_of(data@), t_points as nat) is None
                &&& results@ == reduced(series_of(data@), t_points as nat)
            },
            Err(e) => reduce_fault(series_of(data@), t_points as nat) == Some(e),
        },
{
    let ghost runs = series_of(data@);
    let count: usize = data.len();
    if count == 0 {
        return Err(ConsistencyError::EmptyEnsemble);
    }
    let mut i: usize = 0;
    while i < count
        invariant
            i <= count,
            count == data.len(),
            runs == series_of(data@),
            forall|i2: int| 0 <= i2 < i ==> (#[trigger] runs[i2]).len() == t_points,
        decreases count - i,
    {
        if data[i].len() != t_points {
            assert(runs[i as int].len() != t_points);
            return Err(ConsistencyError::SeriesLengthMismatch);
        }
        i += 1;
    }
    let mut v_out: Vec<Vec<u128>> = Vec::new();
    let mut h_out: Vec<u128> = Vec::new();
    let mut t_out: Vec<u64> = Vec::new();
    let ghost target = reduced(runs, t_points as nat);
    let mut j: usize = 0;
    while j < t_points
        invariant
            j <= t_points,
            0 < count == data.len(),
            runs == series_of(data@),
            target == reduced(runs, t_points as nat),
            forall|i2: int| 0 <= i2 < count ==> (#[trigger] runs[i2]).len() == t_points,
            v_out.len() == j,
            h_out.len() == j,
            t_out.len() == j,
            forall|j2: int| 0 <= j2 < j ==> (#[trigger] v_out[j2])@ == target.width_terms[j2],
            forall|j2: int| 0 <= j2 < j ==> #[trigger] h_out[j2] == target.height_totals[j2],
            forall|j2: int| 0 <= j2 < j ==> #[trigger] t_out[j2] == target.particles[j2],
        decreases t_points - j,
    {
        let mut terms: Vec<u128> = Vec::new();
        let mut sum: u128 = 0;
        let mut i: usize = 0;
        while i < count
            invariant
                i <= count,
                j < t_points,
                count == data.len(),
                runs == series_of(data@),
                forall|i2: int| 0 <= i2 < count ==> (#[trigger] runs[i2]).len() == t_points,
                terms.len() == i,
                forall|i2: int| 0 <= i2 < i ==> #[trigger] terms[i2] == runs[i2][j as int].spread,
                sum == column_total(runs, j as int, i as nat),
                sum <= i * 0xffff_ffff_ffff_ffff,
            decreases count - i,
        {
            assert(runs[i as int].len() == t_points);
            let sample: Sample = data[i][j];
            proof {
                assert((i + 1) * 0xffff_ffff_ffff_ffff <= 0xffff_ffff_ffff_ffff
                    * 0xffff_ffff_ffff_ffff) by (nonlinear_arith)
                    requires
                        i + 1 <= 0xffff_ffff_ffff_ffff,
                ;
            }
            terms.push(sample.spread);
            sum = sum + sample.height_sum as u128;
            i += 1;
        }
        assert(runs[0].len() == t_points);
        let first: Sample = data[0][j];
        proof {
            assert(terms@ =~= target.width_terms[j as int]);
        }
        v_out.push(terms);
        h_out.push(sum);
        t_out.push(first.particles);
        j += 1;
    }
    let results = SimulationResults::new(v_out, h_out, t_out);
    proof {
        assert(results@.width_terms =~= target.width_terms);
        assert(results@.height_totals =~= target.height_totals);
        assert(results@.particles =~= target.particles);
        assert(forall|i2: int| 0 <= i2 < runs.len() ==> (#[trigger] runs[i2]).len() == t_points);
    }
    Ok(results)
}

/// One realization of an ensemble whose number of sample points is known.
fn realize(params: &SimulationParams, seed: u32, t_points: usize) -> (series: Vec<Sample>)
    requires
        seed < params@.seed_count,
        t_points == time_points(params@.length, params@.max_time),
    ensures
        series@ == params@.realization(seed as nat),
{
    do_sim(params, seed, t_points).unwrap()
}

/// Runs the realizations with the given seeds on rayon's worker pool, through
/// `par_iter`, `map` and `collect` into a `Vec`. As rayon documents of
/// collecting an indexed parallel iterator into a vector, the result holds one
/// item for each seed, in the order of the seeds; each item is what `realize`
/// returned for that seed.
#[verifier::external_body]
fn simulate_all(params: &SimulationParams, seeds: &Vec<u32>, t_points: usize) -> (data: Vec<
    Vec<Sample>,
>)
    requires
        t_points == time_points(params@.length, params@.max_time),
        forall|i: int| 0 <= i < seeds.len() ==> seeds[i] < params@.seed_count,
    ensures
        data.len() == seeds.len(),
        forall|i: int|
            0 <= i < seeds.len() ==> (#[trigger] data[i])@ == params@.realization(seeds[i] as nat),
{
    seeds.par_iter().map(|seed| realize(params, *seed, t_points)).collect()
}

/// Runs the whole ensemble: counts the sample points by a dry run of the
/// schedule, runs one realization per seed, each with a stream and a surface
/// of its own, and reduces their series.
pub fn run(params: SimulationParams) -> (r: Result<SimulationResults, ConsistencyError>)
    ensures
        r matches Ok(results) && results@ == params@.ensemble(),
{
    proof {
        use_type_invariant(&params);
    }
    let t_points: usize = count_time_points(params.length_t_max.0, params.length_t_max.1);
    let max_seed: u32 = params.max_seed;
    let mut seeds: Vec<u32> = Vec::new();
    let mut seed: u32 = 0;
    while seed < max_seed
        invariant
            seed <= max_seed,
            seeds.len() == seed,
            forall|i: int| 0 <= i < seed ==> seeds[i] == i,
        decreases max_seed - seed,
    {
        seeds.push(seed);
        seed += 1;
    }
    let data: Vec<Vec<Sample>> = simulate_all(&params, &seeds, t_points);
    proof {
        let cfg = params@;
        assert(series_of(data@) =~= cfg.realizations());
        assert forall|i: int| 0 <= i < cfg.realizations().len() implies (
        #[trigger] cfg.realizations()[i]).len() == t_points by {
            lemma_series_length(cfg, cfg.start(i as nat));
        }
    }
    reduce_ensemble(&data, t_points)
}

/// The dry run counts what a real run records: whatever the seed, the series
/// of a realization has as many samples as the schedule has sample points
/// for the same length and the same final time.
pub proof fn lemma_dry_run_counts_samples(cfg: Config, index: nat)
    ensures
        cfg.realization(index).len() == time_points(cfg.length, cfg.max_time),
{
    lemma_series_length(cfg, cfg.start(index));
}

/// The states of a realization stay within their bounds, and the particle
/// count after `i` batches is that of the schedule: it depends on the length
/// alone, not on the seed.
pub proof fn lemma_state_after(cfg: Config, index: nat, i: nat)
    requires
        cfg.valid(),
        index < cfg.seed_count,
        i <= time_points(cfg.length, cfg.max_time),
    ensures
        cfg.reaches(cfg.state_after(index, i)),
        cfg.state_after(index, i).particles == particles_after(cfg.length, i),
        i + time_points_from(particles_after(cfg.length, i), cfg.length, cfg.goal())
            == time_points(cfg.length, cfg.max_time),
        i < time_points(cfg.length, cfg.max_time) ==> particles_after(cfg.length, i) < cfg.goal(),
    decreases i,
{
    if i == 0 {
        let st = cfg.start(index);
        lemma_tallest_at_most(st.surface, 0);
        lemma_tallest_attained(st.surface);
    } else {
        lemma_state_after(cfg, index, (i - 1) as nat);
        lemma_step(cfg, cfg.state_after(index, (i - 1) as nat));
    }
}

/// Sample `j` of a series is taken in the state that follows batch `j`,
/// counting both from zero.
pub proof fn lemma_series_index(cfg: Config, index: nat, i: nat, j: nat)
    requires
        j < cfg.series_from(cfg.state_after(index, i)).len(),
    ensures
        cfg.series_from(cfg.state_after(index, i))[j as int] == sample_of(
            cfg.state_after(index, i + j + 1),
        ),
    decreases j,
{
    let st = cfg.state_after(index, i);
    assert(cfg.step(st) == cfg.state_after(index, i + 1));
    if j > 0 {
        lemma_series_index(cfg, index, i + 1, (j - 1) as nat);
    }
}

/// Heights never decrease over time: between any two states that a
/// realization passes through, the later has no column lower than the
/// earlier.
pub proof fn lemma_heights_grow_over_time(cfg: Config, index: nat, i: nat, j: nat)
    requires
        cfg.valid(),
        index < cfg.seed_count,
        i <= j <= time_points(cfg.length, cfg.max_time),
    ensures
        cfg.state_after(index, i).surface.len() == cfg.length,
        cfg.state_after(index, j).surface.len() == cfg.length,
        forall|c: int|
            0 <= c < cfg.length ==> cfg.state_after(index, i).surface[c] <= #[trigger] cfg.state_after(
                index,
                j,
            ).surface[c],
    decreases j,
{
    lemma_state_after(cfg, index, i);
    if i < j {
        lemma_heights_grow_over_time(cfg, index, i, (j - 1) as nat);
        lemma_state_after(cfg, index, (j - 1) as nat);
        lemma_step(cfg, cfg.state_after(index, (j - 1) as nat));
    }
}

/// All realizations share one schedule: the particle count of sample `j` is
/// that of the schedule after `j + 1` batches, whatever the seed, and it
/// grows strictly from one sample to the next.
pub proof fn lemma_elapsed_time(cfg: Config, index: nat, j: nat)
    requires
        cfg.valid(),
        index < cfg.seed_count,
        j < time_points(cfg.length, cfg.max_time),
    ensures
        cfg.realization(index).len() == time_points(cfg.length, cfg.max_time),
        cfg.realization(index)[j as int] == sample_of(cfg.state_after(index, j + 1)),
        cfg.realization(index)[j as int].particles == particles_after(cfg.length, j + 1),
        j > 0 ==> cfg.realization(index)[j - 1].particles < cfg.realization(
            index,
        )[j as int].particles,
    decreases j,
{
    lemma_dry_run_counts_samples(cfg, index);
    lemma_series_index(cfg, index, 0, j);
    lemma_state_after(cfg, index, j + 1);
    lemma_sample_fits(cfg, cfg.state_after(index, j + 1));
    if j > 0 {
        lemma_elapsed_time(cfg, index, (j - 1) as nat);
        schedule::lemma_particles_after_increase(cfg.length, j);
    }
}

/// An ensemble of a single realization is that realization: at every sample
/// point the particle count and the height total are those of the
/// realization's sample, and the only width term is its spread. Dividing by
/// a seed count of one changes nothing.
pub proof fn lemma_single_realization(cfg: Config)
    requires
        cfg.seed_count == 1,
    ensures
        cfg.ensemble().particles.len() == cfg.realization(0).len(),
        cfg.ensemble().height_totals.len() == cfg.realization(0).len(),
        cfg.ensemble().width_terms.len() == cfg.realization(0).len(),
        forall|j: int|
            0 <= j < cfg.realization(0).len() ==> {
                &&& (#[trigger] cfg.ensemble().particles[j]) == cfg.realization(0)[j].particles
                &&& cfg.ensemble().height_totals[j] == cfg.realization(0)[j].height_sum
                &&& cfg.ensemble().width_terms[j] == seq![cfg.realization(0)[j].spread]
            },
{
    lemma_dry_run_counts_samples(cfg, 0);
    let runs = cfg.realizations();
    let e = cfg.ensemble();
    assert forall|j: int| 0 <= j < cfg.realization(0).len() implies {
        &&& (#[trigger] e.particles[j]) == cfg.realization(0)[j].particles
        &&& e.height_totals[j] == cfg.realization(0)[j].height_sum
        &&& e.width_terms[j] == seq![cfg.realization(0)[j].spread]
    } by {
        assert(runs[0] == cfg.realization(0));
        assert(column_total(runs, j, 1) == column_total(runs, j, 0) + runs[0][j].height_sum);
        assert(e.width_terms[j] =~= seq![cfg.realization(0)[j].spread]);
    }
}

} // verus!
