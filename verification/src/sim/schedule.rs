//! The logarithmic sampling schedule.
//!
//! Elapsed time is measured in monolayers: after `m` particles on `len`
//! columns it is `m / len`. The schedule is kept on the particle count, an
//! integer, so that every realization and the dry run that sizes the output
//! take exactly the same steps.

use vstd::prelude::*;

verus! {

/// Number of particles by which the count must grow for the batches to grow
/// by one particle.
pub const BATCH_GROWTH: u64 = 100;

/// Number of particles in the batch that starts after `m` particles have
/// fallen on `len` columns. At elapsed time `t = m / len` it is
/// `t * len / 100 + 1` rounded down, one more than a hundredth of `m`, and a
/// whole monolayer where that is a single particle.
pub open spec fn batch_size(m: nat, len: nat) -> nat {
    let n = m / 100 + 1;
    if n == 1 {
        len
    } else {
        n
    }
}

/// Number of particles at which the elapsed time reaches `max_time`.
pub open spec fn particle_goal(len: nat, max_time: nat) -> nat {
    len * max_time
}

/// Number of particles still missing to the goal.
pub open spec fn missing(m: nat, goal: nat) -> nat {
    if m >= goal {
        0
    } else {
        (goal - m) as nat
    }
}

/// Number of sample points still to come once `m` particles have fallen.
pub open spec fn time_points_from(m: nat, len: nat, goal: nat) -> nat
    decreases missing(m, goal),
{
    if m >= goal || len == 0 {
        0
    } else {
        1 + time_points_from(m + batch_size(m, len), len, goal)
    }
}

/// Number of sample points of a run on `len` columns up to `max_time`.
pub open spec fn time_points(len: nat, max_time: nat) -> nat {
    time_points_from(0, len, particle_goal(len, max_time))
}

/// Number of particles that have fallen when sample point `i` is taken,
/// counting from one; zero before the first batch.
pub open spec fn particles_after(len: nat, i: nat) -> nat
    decreases i,
{
    if i == 0 {
        0
    } else {
        let m = particles_after(len, (i - 1) as nat);
        m + batch_size(m, len)
    }
}

/// A count that the particles of a run never exceed: the goal, and one batch
/// of the largest size that can start below it.
pub open spec fn particle_cap(len: nat, max_time: nat) -> nat {
    let goal = particle_goal(len, max_time);
    let batch = goal / 100 + 1;
    if batch >= len {
        goal + batch
    } else {
        goal + len
    }
}

/// A batch that starts below the goal ends at or below the cap.
pub proof fn lemma_batch_within_cap(m: nat, len: nat, max_time: nat)
    requires
        m < particle_goal(len, max_time),
    ensures
        m + batch_size(m, len) <= particle_cap(len, max_time),
{
}

/// `m` doubled `k` times.
pub open spec fn doubled(m: nat, k: nat) -> nat
    decreases k,
{
    if k == 0 {
        m
    } else {
        doubled(2 * m, (k - 1) as nat)
    }
}

/// Doubling keeps the order.
pub proof fn lemma_doubled_monotonic(a: nat, b: nat, k: nat)
    requires
        a <= b,
    ensures
        doubled(a, k) <= doubled(b, k),
    decreases k,
{
    if k > 0 {
        lemma_doubled_monotonic(2 * a, 2 * b, (k - 1) as nat);
    }
}

/// Doubling in two stages.
pub proof fn lemma_doubled_twice(m: nat, a: nat, b: nat)
    ensures
        doubled(m, a + b) == doubled(doubled(m, a), b),
    decreases a,
{
    if a > 0 {
        lemma_doubled_twice(2 * m, (a - 1) as nat, b);
    }
}

/// A hundred doubled fifty-eight times is more than any 64-bit count.
pub proof fn lemma_doubled_hundred()
    ensures
        doubled(100, 58) > u64::MAX,
{
    assert(doubled(100, 8) == 25600) by {
        reveal_with_fuel(doubled, 9);
    }
    assert(doubled(25600, 10) == 26214400) by {
        reveal_with_fuel(doubled, 11);
    }
    assert(doubled(26214400, 10) == 26843545600) by {
        reveal_with_fuel(doubled, 11);
    }
    assert(doubled(26843545600, 10) == 27487790694400) by {
        reveal_with_fuel(doubled, 11);
    }
    assert(doubled(27487790694400, 10) == 28147497671065600) by {
        reveal_with_fuel(doubled, 11);
    }
    assert(doubled(28147497671065600, 10) == 28823037615171174400) by {
        reveal_with_fuel(doubled, 11);
    }
    lemma_doubled_twice(100, 8, 10);
    lemma_doubled_twice(100, 18, 10);
    lemma_doubled_twice(100, 28, 10);
    lemma_doubled_twice(100, 38, 10);
    lemma_doubled_twice(100, 48, 10);
}

/// A batch holds at least one particle, and more than a hundredth of those
/// that fell before it.
pub proof fn lemma_batch_size(m: nat, len: nat)
    requires
        len > 0,
    ensures
        batch_size(m, len) >= 1,
        m >= BATCH_GROWTH ==> batch_size(m, len) == m / (BATCH_GROWTH as nat) + 1,
        m < BATCH_GROWTH ==> batch_size(m, len) == len,
{
}

/// Once a hundred particles have fallen, the count doubles within a hundred
/// sample points: from `m`, with `r` points left of the hundred that started
/// at `m0`, at most `r + 100 * k` points remain if `k` more doublings of
/// `2 * m0` reach the goal.
proof fn lemma_points_within_doubling(m0: nat, m: nat, r: nat, k: nat, len: nat, goal: nat)
    requires
        len > 0,
        m0 >= BATCH_GROWTH,
        m >= m0,
        m + r * (m0 / (BATCH_GROWTH as nat) + 1) >= 2 * m0,
        goal <= doubled(2 * m0, k),
    ensures
        time_points_from(m, len, goal) <= r + 100 * k,
    decreases k, r + 1,
{
    if m >= goal {
    } else if r == 0 {
        lemma_doubled_monotonic(2 * m0, m, k);
        lemma_points_after_hundred(m, k, len, goal);
    } else {
        let step = m0 / (BATCH_GROWTH as nat) + 1;
        let next = m + batch_size(m, len);
        assert(batch_size(m, len) >= step);
        assert((r - 1) * step == r * step - step) by (nonlinear_arith);
        lemma_points_within_doubling(m0, next, (r - 1) as nat, k, len, goal);
    }
}

/// Once a hundred particles have fallen, at most a hundred sample points are
/// taken for each doubling of the count that the goal still asks for.
pub proof fn lemma_points_after_hundred(m: nat, k: nat, len: nat, goal: nat)
    requires
        len > 0,
        m >= BATCH_GROWTH,
        goal <= doubled(m, k),
    ensures
        time_points_from(m, len, goal) <= 100 * k,
    decreases k, 0nat,
{
    if k > 0 {
        let step = m / (BATCH_GROWTH as nat) + 1;
        assert(100 * step >= m);
        lemma_points_within_doubling(m, m, 100, (k - 1) as nat, len, goal);
    }
}

/// Particles still missing to the first hundred.
pub open spec fn short_of_hundred(m: nat) -> nat {
    if m >= BATCH_GROWTH {
        0
    } else {
        (BATCH_GROWTH - m) as nat
    }
}

/// Before a hundred particles have fallen every batch is a monolayer, so at
/// most one sample point is taken per particle still missing to the hundred.
pub proof fn lemma_points_before_hundred(m: nat, k: nat, len: nat, goal: nat)
    requires
        len > 0,
        goal <= doubled(BATCH_GROWTH as nat, k),
    ensures
        time_points_from(m, len, goal) <= short_of_hundred(m) + 100 * k,
    decreases short_of_hundred(m),
{
    if m >= goal {
    } else if m >= BATCH_GROWTH {
        lemma_doubled_monotonic(BATCH_GROWTH as nat, m, k);
        lemma_points_after_hundred(m, k, len, goal);
    } else {
        lemma_points_before_hundred(m + batch_size(m, len), k, len, goal);
    }
}

/// Largest number of sample points that a goal within 64 bits can ask for.
pub const MAX_TIME_POINTS: usize = 5900;

/// The schedule is logarithmic: whatever the length, a goal that fits 64 bits
/// is reached within `MAX_TIME_POINTS` sample points.
pub proof fn lemma_time_points_bounded(m: nat, len: nat, goal: nat)
    requires
        goal <= u64::MAX,
    ensures
        time_points_from(m, len, goal) <= MAX_TIME_POINTS,
{
    if len > 0 {
        lemma_doubled_hundred();
        lemma_points_before_hundred(m, 58, len, goal);
    }
}

/// Every batch ends at a particle count that depends on the length and on
/// the number of batches alone, and the counts grow strictly.
pub proof fn lemma_particles_after_increase(len: nat, i: nat)
    requires
        len > 0,
    ensures
        particles_after(len, i) < particles_after(len, i + 1),
{
    lemma_batch_size(particles_after(len, i), len);
}

/// The batch that starts after `m` particles, on machine integers.
pub fn next_batch(m: u64, l: u32) -> (n: u64)
    ensures
        n == batch_size(m as nat, l as nat),
{
    let n: u64 = m / BATCH_GROWTH + 1;
    if n == 1 {
        l as u64
    } else {
        n
    }
}

/// Counts the sample points of a run on `l` columns up to time `t_max`
/// without depositing anything: the length of every series that a
/// realization with these parameters records.
pub fn count_time_points(l: u32, t_max: u32) -> (t_points: usize)
    ensures
        t_points == time_points(l as nat, t_max as nat),
        t_points <= MAX_TIME_POINTS,
{
    proof {
        assert((l as nat) * (t_max as nat) <= 0xffff_ffff * 0xffff_ffff) by (nonlinear_arith)
            requires
                l <= 0xffff_ffff,
                t_max <= 0xffff_ffff,
        ;
    }
    let goal: u64 = (l as u64) * (t_max as u64);
    proof {
        lemma_time_points_bounded(0, l as nat, goal as nat);
    }
    if l == 0 {
        return 0;
    }
    let mut m: u128 = 0;
    let mut t_points: usize = 0;
    while m < goal as u128
        invariant
            l > 0,
            m <= 2 * u64::MAX,
            t_points + time_points_from(m as nat, l as nat, goal as nat) == time_points_from(
                0,
                l as nat,
                goal as nat,
            ),
            time_points_from(0, l as nat, goal as nat) <= MAX_TIME_POINTS,
        decreases time_points_from(m as nat, l as nat, goal as nat),
    {
        let n: u64 = next_batch(m as u64, l);
        m = m + n as u128;
        t_points += 1;
    }
    t_points
}

} // verus!
