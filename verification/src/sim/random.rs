//! A long-period pseudorandom stream: two linear congruential generators
//! whose outputs are combined by subtraction and decorrelated through a
//! shuffle table.
//!
//! A draw is the fraction `next() / FIRST_MODULUS`, which lies strictly
//! between zero and one. The stream keeps the numerator as an integer so that
//! every decision taken from it is exact.

use vstd::prelude::*;

verus! {

/// Modulus of the first generator, and denominator of every draw.
pub const FIRST_MODULUS: i64 = 2147483563;

/// Modulus of the second generator.
pub const SECOND_MODULUS: i64 = 2147483399;

/// Multiplier of the first generator.
pub const FIRST_MULTIPLIER: i64 = 40014;

/// Multiplier of the second generator.
pub const SECOND_MULTIPLIER: i64 = 40692;

/// Largest numerator a draw can have: `FIRST_MODULUS - 1`.
pub const LARGEST_DRAW: i64 = 2147483562;

/// Number of entries of the shuffle table.
pub const TABLE_SIZE: usize = 32;

/// Divisor that maps the previous output to a table slot:
/// `1 + LARGEST_DRAW / TABLE_SIZE`.
pub const TABLE_DIVISOR: i64 = 67108862;

/// Steps of the first generator taken while the table is filled: eight that
/// are discarded, then one per table entry.
pub const PRIMING_STEPS: usize = 40;

/// Initial state of the second generator before the table is filled.
pub const SECOND_START: i64 = 123456789;

/// The mathematical state of the stream.
pub struct RngState {
    /// State of the first generator; a value that is not positive asks for
    /// the table to be filled before the next draw.
    pub idum: int,
    /// State of the second generator.
    pub idum2: int,
    /// Numerator of the previous draw.
    pub iy: int,
    /// The shuffle table.
    pub iv: Seq<int>,
}

/// One step of the first generator.
pub open spec fn first_lcg(x: int) -> int {
    (FIRST_MULTIPLIER * x) % (FIRST_MODULUS as int)
}

/// One step of the second generator.
pub open spec fn second_lcg(x: int) -> int {
    (SECOND_MULTIPLIER * x) % (SECOND_MODULUS as int)
}

/// `n` steps of the first generator from `x`.
pub open spec fn first_lcg_iter(x: int, n: nat) -> int
    decreases n,
{
    if n == 0 {
        x
    } else {
        first_lcg(first_lcg_iter(x, (n - 1) as nat))
    }
}

impl RngState {
    /// The state right after construction from `seed`.
    pub open spec fn initial(seed: int) -> RngState {
        RngState {
            idum: seed,
            idum2: SECOND_START as int,
            iy: 0,
            iv: Seq::new(TABLE_SIZE as nat, |j: int| 0int),
        }
    }

    /// Every component is within the range that the generator keeps it in.
    pub open spec fn valid(self) -> bool {
        &&& -0x8000_0000 <= self.idum < 0x8000_0000
        &&& 0 <= self.idum2 <= 0x8000_0000
        &&& 0 <= self.iy <= LARGEST_DRAW
        &&& self.iv.len() == TABLE_SIZE
        &&& forall|j: int| 0 <= j < TABLE_SIZE ==> 0 <= #[trigger] self.iv[j] < FIRST_MODULUS
    }

    /// The magnitude that a non-positive seed stands for, at least one.
    pub open spec fn magnitude(self) -> int {
        if self.idum == 0 {
            1
        } else {
            -self.idum
        }
    }

    /// The state with its table filled, where the first generator's state
    /// asks for it: eight steps are discarded, the next thirty-two fill the
    /// table from its last entry down to its first.
    pub open spec fn primed(self) -> RngState {
        if self.idum <= 0 {
            let m = self.magnitude();
            RngState {
                idum: first_lcg_iter(m, PRIMING_STEPS as nat),
                idum2: m,
                iy: first_lcg_iter(m, PRIMING_STEPS as nat),
                iv: Seq::new(
                    TABLE_SIZE as nat,
                    |j: int| first_lcg_iter(m, (PRIMING_STEPS - j) as nat),
                ),
            }
        } else {
            self
        }
    }

    /// The state after one draw.
    pub open spec fn advance(self) -> RngState {
        let p = self.primed();
        let idum = first_lcg(p.idum);
        let idum2 = second_lcg(p.idum2);
        let slot = p.iy / (TABLE_DIVISOR as int);
        let raw = p.iv[slot] - idum2;
        RngState {
            idum,
            idum2,
            iy: if raw < 1 {
                raw + LARGEST_DRAW
            } else {
                raw
            },
            iv: p.iv.update(slot, idum),
        }
    }

    /// The state after `n` draws.
    pub open spec fn after(self, n: nat) -> RngState
        decreases n,
    {
        if n == 0 {
            self
        } else {
            self.after((n - 1) as nat).advance()
        }
    }
}

/// Iterating the first generator from a seed magnitude stays in range.
pub proof fn lemma_first_lcg_iter_range(x: int, n: nat)
    requires
        0 <= x <= 0x8000_0000,
    ensures
        0 <= first_lcg_iter(x, n) <= 0x8000_0000,
        n > 0 ==> first_lcg_iter(x, n) < FIRST_MODULUS,
    decreases n,
{
    if n > 0 {
        lemma_first_lcg_iter_range(x, (n - 1) as nat);
    }
}

/// Filling the table keeps the state valid, and leaves the first generator
/// below its modulus.
pub proof fn lemma_primed_valid(s: RngState)
    requires
        s.valid(),
    ensures
        s.primed().valid(),
        0 <= s.primed().idum,
{
    if s.idum <= 0 {
        let m = s.magnitude();
        lemma_first_lcg_iter_range(m, PRIMING_STEPS as nat);
        assert forall|j: int| 0 <= j < TABLE_SIZE implies 0 <= #[trigger] s.primed().iv[j]
            < FIRST_MODULUS by {
            lemma_first_lcg_iter_range(m, (PRIMING_STEPS - j) as nat);
        }
    }
}

/// Every draw keeps the state valid and has a numerator in
/// `[1, FIRST_MODULUS - 1]`: as a fraction of `FIRST_MODULUS` it lies
/// strictly between zero and one.
pub proof fn lemma_advance_valid(s: RngState)
    requires
        s.valid(),
    ensures
        s.advance().valid(),
        1 <= s.advance().iy <= LARGEST_DRAW,
{
    lemma_primed_valid(s);
    let p = s.primed();
    let slot = p.iy / (TABLE_DIVISOR as int);
    assert(0 <= slot < TABLE_SIZE);
    assert(0 <= p.iv[slot] < FIRST_MODULUS);
}

/// The stream is a function of its seed alone, and each of its draws lies
/// strictly inside the unit interval: for every seed and every `n >= 1`, the
/// numerator of the `n`-th draw is at least one and less than
/// `FIRST_MODULUS`.
pub proof fn lemma_draws_in_unit_interval(seed: i32, n: nat)
    ensures
        RngState::initial(seed as int).after(n).valid(),
        n >= 1 ==> 1 <= RngState::initial(seed as int).after(n).iy < FIRST_MODULUS,
    decreases n,
{
    if n > 0 {
        lemma_draws_in_unit_interval(seed, (n - 1) as nat);
        lemma_advance_valid(RngState::initial(seed as int).after((n - 1) as nat));
    }
}

/// Streams in the same state draw the same values: the sequence of a stream
/// is a function of its seed alone.
pub proof fn lemma_same_seed_same_sequence(a: RngState, b: RngState, n: nat)
    requires
        a == b,
    ensures
        a.after(n) == b.after(n),
        a.after(n).iy == b.after(n).iy,
{
}

/// The pseudorandom stream that drives one realization.
pub struct RandomStream {
    idum: i64,
    idum2: i64,
    iy: i64,
    iv: Vec<i64>,
}

impl View for RandomStream {
    type V = RngState;

    closed spec fn view(&self) -> RngState {
        RngState {
            idum: self.idum as int,
            idum2: self.idum2 as int,
            iy: self.iy as int,
            iv: self.iv@.map_values(|x: i64| x as int),
        }
    }
}

/// One step of the first generator, on machine integers.
fn first_lcg_step(x: i64) -> (r: i64)
    requires
        0 <= x <= 0x8000_0000,
    ensures
        r == first_lcg(x as int),
        0 <= r < FIRST_MODULUS,
{
    (FIRST_MULTIPLIER * x) % FIRST_MODULUS
}

/// One step of the second generator, on machine integers.
fn second_lcg_step(x: i64) -> (r: i64)
    requires
        0 <= x <= 0x8000_0000,
    ensures
        r == second_lcg(x as int),
        0 <= r < SECOND_MODULUS,
{
    (SECOND_MULTIPLIER * x) % SECOND_MODULUS
}

impl RandomStream {
    /// Every component of the state is within its range. Construction
    /// establishes this and every draw keeps it.
    pub open spec fn wf(&self) -> bool {
        self@.valid()
    }

    /// A stream for `seed`. A seed that is not positive has the shuffle table
    /// filled from its magnitude at the first draw.
    pub fn new(seed: i32) -> (stream: RandomStream)
        ensures
            stream.wf(),
            stream@ == RngState::initial(seed as int),
    {
        let stream = RandomStream {
            idum: seed as i64,
            idum2: SECOND_START,
            iy: 0,
            iv: vec![0i64; TABLE_SIZE],
        };
        assert(stream@.iv =~= RngState::initial(seed as int).iv);
        stream
    }

    /// Fills the shuffle table from the magnitude of the seed.
    fn prime(&mut self)
        requires
            old(self).wf(),
            old(self)@.idum <= 0,
        ensures
            final(self)@ == old(self)@.primed(),
    {
        let m: i64 = if self.idum == 0 {
            1
        } else {
            -self.idum
        };
        let mut x: i64 = m;
        let mut j: usize = PRIMING_STEPS;
        assert forall|i: int| 0 <= i < TABLE_SIZE implies 0 <= #[trigger] self.iv[i]
            < FIRST_MODULUS by {
            assert(self@.iv[i] == self.iv[i]);
        }
        while j > 0
            invariant
                0 <= j <= PRIMING_STEPS,
                0 <= m <= 0x8000_0000,
                0 <= x <= 0x8000_0000,
                j < PRIMING_STEPS ==> x < FIRST_MODULUS,
                x == first_lcg_iter(m as int, (PRIMING_STEPS - j) as nat),
                self.iv.len() == TABLE_SIZE,
                self.idum == old(self).idum,
                self.idum2 == old(self).idum2,
                self.iy == old(self).iy,
                forall|i: int| 0 <= i < TABLE_SIZE ==> 0 <= #[trigger] self.iv[i] < FIRST_MODULUS,
                forall|i: int|
                    j <= i < TABLE_SIZE ==> #[trigger] self.iv[i] == first_lcg_iter(
                        m as int,
                        (PRIMING_STEPS - i) as nat,
                    ),
            decreases j,
        {
            j -= 1;
            x = first_lcg_step(x);
            if j < TABLE_SIZE {
                self.iv.set(j, x);
            }
        }
        self.idum = x;
        self.idum2 = m;
        self.iy = self.iv[0];
        assert(self@.iv =~= old(self)@.primed().iv);
    }

    /// Draws the next value and returns its numerator: the draw is
    /// `numerator / FIRST_MODULUS`, strictly between zero and one.
    pub fn next(&mut self) -> (numerator: u32)
        requires
            old(self).wf(),
        ensures
            final(self).wf(),
            final(self)@ == old(self)@.advance(),
            numerator == final(self)@.iy,
            1 <= numerator < FIRST_MODULUS,
    {
        proof {
            lemma_primed_valid(self@);
            lemma_advance_valid(self@);
        }
        if self.idum <= 0 {
            self.prime();
        }
        let idum: i64 = first_lcg_step(self.idum);
        let idum2: i64 = second_lcg_step(self.idum2);
        let slot: usize = (self.iy / TABLE_DIVISOR) as usize;
        let raw: i64 = self.iv[slot] - idum2;
        self.idum = idum;
        self.idum2 = idum2;
        self.iv.set(slot, idum);
        self.iy = if raw < 1 {
            raw + LARGEST_DRAW
        } else {
            raw
        };
        assert(self@.iv =~= old(self)@.advance().iv);
        self.iy as u32
    }
}

} // verus!
