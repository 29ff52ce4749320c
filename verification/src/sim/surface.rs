//! The growing surface and the sticking rule.
//!
//! A surface is a sequence of column heights. A particle dropped on column
//! `j` comes to rest one unit above the tallest column among `j` and its
//! `k` nearest neighbours on each side. At the edges of the substrate the
//! neighbourhood either wraps around (periodic) or stops at the edge
//! (bounded).

use super::random::{RandomStream, RngState, FIRST_MODULUS};
use vstd::arithmetic::div_mod::lemma_fundamental_div_mod_converse;
use vstd::prelude::*;

verus! {

/// The larger of two integers.
pub open spec fn larger(a: int, b: int) -> int {
    if a >= b {
        a
    } else {
        b
    }
}

/// The column `k` places to the left of column `j` on a substrate of `len`
/// columns: wrapped modulo `len` when periodic, stopped at column zero when
/// bounded.
pub open spec fn left_neighbour(j: int, k: int, len: int, periodic: bool) -> int {
    if periodic {
        (j - k) % len
    } else if j - k < 0 {
        0
    } else {
        j - k
    }
}

/// The column `k` places to the right of column `j` on a substrate of `len`
/// columns: wrapped modulo `len` when periodic, stopped at the last column
/// when bounded.
pub open spec fn right_neighbour(j: int, k: int, len: int, periodic: bool) -> int {
    if periodic {
        (j + k) % len
    } else if j + k > len - 1 {
        len - 1
    } else {
        j + k
    }
}

/// The tallest height among column `j` and its `k` neighbours on each side.
pub open spec fn neighbourhood_max(s: Seq<u64>, j: int, k: nat, periodic: bool) -> int
    decreases k,
{
    if k == 0 {
        s[j] as int
    } else {
        larger(
            larger(
                s[left_neighbour(j, k as int, s.len() as int, periodic)] as int,
                neighbourhood_max(s, j, (k - 1) as nat, periodic),
            ),
            s[right_neighbour(j, k as int, s.len() as int, periodic)] as int,
        )
    }
}

/// One of the two columns `d` places from column `j` has height `h`.
pub open spec fn stands_at(s: Seq<u64>, j: int, d: int, periodic: bool, h: int) -> bool {
    s[left_neighbour(j, d, s.len() as int, periodic)] == h || s[right_neighbour(
        j,
        d,
        s.len() as int,
        periodic,
    )] == h
}

/// The tallest height of the whole surface; zero for an empty one.
pub open spec fn tallest(s: Seq<u64>) -> int
    decreases s.len(),
{
    if s.len() == 0 {
        0
    } else {
        larger(tallest(s.drop_last()), s.last() as int)
    }
}

/// The surface after one particle has come to rest on column `j`.
pub open spec fn drop_at(s: Seq<u64>, j: int, k: nat, periodic: bool) -> Seq<u64> {
    s.update(j, (neighbourhood_max(s, j, k, periodic) + 1) as u64)
}

/// The column that a draw with numerator `draw` selects among `len` columns:
/// the integer part of `len * draw / FIRST_MODULUS`.
pub open spec fn column_of(draw: int, len: int) -> int {
    (len * draw) / (FIRST_MODULUS as int)
}

/// The surface and the stream after `n` particles have been dropped, each on
/// the column that the next draw selects.
pub open spec fn after_drops(s: Seq<u64>, g: RngState, n: nat, k: nat, periodic: bool) -> (
    Seq<u64>,
    RngState,
)
    decreases n,
{
    if n == 0 {
        (s, g)
    } else {
        let (s1, g1) = after_drops(s, g, (n - 1) as nat, k, periodic);
        let g2 = g1.advance();
        (drop_at(s1, column_of(g2.iy, s1.len() as int), k, periodic), g2)
    }
}

/// On a periodic substrate both neighbours are columns of the substrate and
/// are found by one addition or subtraction of the length at most.
pub proof fn lemma_periodic_neighbours(j: int, k: int, len: int)
    requires
        0 <= j < len,
        0 <= k < len,
    ensures
        left_neighbour(j, k, len, true) == if j >= k {
            j - k
        } else {
            j - k + len
        },
        right_neighbour(j, k, len, true) == if j + k < len {
            j + k
        } else {
            j + k - len
        },
{
    if j >= k {
        lemma_fundamental_div_mod_converse(j - k, len, 0, j - k);
    } else {
        lemma_fundamental_div_mod_converse(j - k, len, -1, j - k + len);
    }
    if j + k < len {
        lemma_fundamental_div_mod_converse(j + k, len, 0, j + k);
    } else {
        lemma_fundamental_div_mod_converse(j + k, len, 1, j + k - len);
    }
}

/// Both neighbours are columns of the substrate, whatever the boundary.
pub proof fn lemma_neighbours_in_range(j: int, k: int, len: int, periodic: bool)
    requires
        0 <= j < len,
        0 <= k < len,
    ensures
        0 <= left_neighbour(j, k, len, periodic) < len,
        0 <= right_neighbour(j, k, len, periodic) < len,
{
    lemma_periodic_neighbours(j, k, len);
}

/// Wrapping and clamping at the edges. On a periodic substrate the left
/// neighbour of column zero is the last column and the right neighbour of the
/// last column is column zero; `k` places to the left of column zero lies
/// column `len - k`, and `k` places to the right of the last column lies
/// column `k - 1`. On a bounded substrate a lookup to the left of column zero
/// stays on column zero and one to the right of the last column stays on the
/// last column, at every distance.
pub proof fn lemma_edge_neighbours(k: int, len: int)
    requires
        0 < len,
        0 <= k < len,
    ensures
        left_neighbour(0, 1, len, true) == len - 1,
        right_neighbour(len - 1, 1, len, true) == 0,
        k >= 1 ==> left_neighbour(0, k, len, true) == len - k,
        k >= 1 ==> right_neighbour(len - 1, k, len, true) == k - 1,
        left_neighbour(0, k, len, false) == 0,
        right_neighbour(len - 1, k, len, false) == len - 1,
{
    if len == 1 {
        lemma_fundamental_div_mod_converse(-1, len, -1, 0);
        lemma_fundamental_div_mod_converse(1, len, 1, 0);
    } else {
        lemma_periodic_neighbours(0, 1, len);
        lemma_periodic_neighbours(len - 1, 1, len);
        lemma_periodic_neighbours(0, k, len);
        lemma_periodic_neighbours(len - 1, k, len);
    }
}

/// No column is taller than `tallest`.
pub proof fn lemma_tallest_bounds(s: Seq<u64>, c: int)
    requires
        0 <= c < s.len(),
    ensures
        s[c] <= tallest(s),
    decreases s.len(),
{
    if c < s.len() - 1 {
        lemma_tallest_bounds(s.drop_last(), c);
    }
}

/// `tallest` is zero or the height of some column.
pub proof fn lemma_tallest_attained(s: Seq<u64>)
    ensures
        tallest(s) >= 0,
        s.len() > 0 ==> exists|c: int| 0 <= c < s.len() && #[trigger] s[c] == tallest(s),
    decreases s.len(),
{
    if s.len() > 0 {
        lemma_tallest_attained(s.drop_last());
        if tallest(s) == s.last() {
            assert(s[s.len() - 1] == tallest(s));
        } else {
            let c = choose|c: int| 0 <= c < s.drop_last().len() && #[trigger] s.drop_last()[c] == tallest(s.drop_last());
            assert(s[c] == tallest(s));
        }
    }
}

/// A surface whose columns are all at most `b` has `tallest` at most `b`.
pub proof fn lemma_tallest_at_most(s: Seq<u64>, b: int)
    requires
        0 <= b,
        forall|c: int| 0 <= c < s.len() ==> #[trigger] s[c] <= b,
    ensures
        tallest(s) <= b,
{
    lemma_tallest_attained(s);
}

/// The neighbourhood maximum is the height of a column within `k` places of
/// `j`, and no column within `k` places of `j` is taller.
pub proof fn lemma_neighbourhood_max(s: Seq<u64>, j: int, k: nat, periodic: bool)
    requires
        0 <= j < s.len(),
        k < s.len(),
    ensures
        forall|d: int|
            0 <= d <= k ==> #[trigger] s[left_neighbour(j, d, s.len() as int, periodic)]
                <= neighbourhood_max(s, j, k, periodic),
        forall|d: int|
            0 <= d <= k ==> #[trigger] s[right_neighbour(j, d, s.len() as int, periodic)]
                <= neighbourhood_max(s, j, k, periodic),
        exists|d: int|
            0 <= d <= k && #[trigger] stands_at(
                s,
                j,
                d,
                periodic,
                neighbourhood_max(s, j, k, periodic),
            ),
        s[j] <= neighbourhood_max(s, j, k, periodic) <= tallest(s),
    decreases k,
{
    let len = s.len() as int;
    lemma_periodic_neighbours(j, 0, len);
    lemma_neighbours_in_range(j, k as int, len, periodic);
    lemma_tallest_bounds(s, j);
    if k == 0 {
        assert(stands_at(s, j, 0, periodic, neighbourhood_max(s, j, k, periodic)));
    } else {
        lemma_neighbourhood_max(s, j, (k - 1) as nat, periodic);
        lemma_tallest_bounds(s, left_neighbour(j, k as int, len, periodic));
        lemma_tallest_bounds(s, right_neighbour(j, k as int, len, periodic));
        let m = neighbourhood_max(s, j, k, periodic);
        let prev = neighbourhood_max(s, j, (k - 1) as nat, periodic);
        if m == prev {
            let d = choose|d: int| 0 <= d <= k - 1 && #[trigger] stands_at(s, j, d, periodic, prev);
            assert(stands_at(s, j, d, periodic, m));
        } else {
            assert(stands_at(s, j, k as int, periodic, m));
        }
    }
}

/// Without neighbours the particle lands one unit above its own column,
/// whatever the other columns hold and whatever the boundary.
pub proof fn lemma_no_neighbours(s: Seq<u64>, j: int, periodic: bool)
    requires
        0 <= j < s.len(),
        s[j] < u64::MAX,
    ensures
        drop_at(s, j, 0, periodic) == s.update(j, (s[j] + 1) as u64),
        drop_at(s, j, 0, periodic)[j] == s[j] + 1,
        forall|c: int| 0 <= c < s.len() && c != j ==> drop_at(s, j, 0, periodic)[c] == s[c],
{
}

/// Replacing one height by `v` leaves `tallest` at most the larger of its
/// old value and `v`.
pub proof fn lemma_tallest_update(s: Seq<u64>, j: int, v: u64)
    requires
        0 <= j < s.len(),
    ensures
        tallest(s.update(j, v)) <= larger(tallest(s), v as int),
{
    let t = s.update(j, v);
    lemma_tallest_attained(s);
    assert forall|c: int| 0 <= c < t.len() implies #[trigger] t[c] <= larger(
        tallest(s),
        v as int,
    ) by {
        if c != j {
            lemma_tallest_bounds(s, c);
        }
    }
    lemma_tallest_at_most(t, larger(tallest(s), v as int));
}

/// One particle: the surface keeps its length, no column shrinks, only the
/// landing column changes, and the tallest column grows by one unit at most.
pub proof fn lemma_drop_at(s: Seq<u64>, j: int, k: nat, periodic: bool)
    requires
        0 <= j < s.len(),
        k < s.len(),
        tallest(s) < u64::MAX,
    ensures
        drop_at(s, j, k, periodic).len() == s.len(),
        forall|c: int| 0 <= c < s.len() ==> s[c] <= #[trigger] drop_at(s, j, k, periodic)[c],
        forall|c: int| 0 <= c < s.len() && c != j ==> s[c] == #[trigger] drop_at(s, j, k, periodic)[c],
        drop_at(s, j, k, periodic)[j] == neighbourhood_max(s, j, k, periodic) + 1,
        tallest(drop_at(s, j, k, periodic)) <= tallest(s) + 1,
{
    lemma_neighbourhood_max(s, j, k, periodic);
    lemma_tallest_update(s, j, (neighbourhood_max(s, j, k, periodic) + 1) as u64);
}

/// A draw selects a column of the substrate.
pub proof fn lemma_column_in_range(draw: int, len: int)
    requires
        0 < len,
        0 <= draw < FIRST_MODULUS,
    ensures
        0 <= column_of(draw, len) < len,
{
    let m = FIRST_MODULUS as int;
    assert(0 <= len * draw < len * m) by (nonlinear_arith)
        requires
            0 < len,
            0 <= draw < m,
    ;
    let q = (len * draw) / m;
    assert(0 <= q < len) by (nonlinear_arith)
        requires
            0 <= len * draw < len * m,
            q == (len * draw) / m,
            0 < m,
    ;
}

/// Heights never decrease. Over any number of drops from a valid stream the
/// surface keeps its length, every column is at least as tall as before, and
/// the tallest column has grown by at most one unit per particle.
pub proof fn lemma_heights_never_decrease(
    s: Seq<u64>,
    g: RngState,
    n: nat,
    k: nat,
    periodic: bool,
)
    requires
        g.valid(),
        0 < s.len(),
        k < s.len(),
        tallest(s) + n <= u64::MAX,
    ensures
        after_drops(s, g, n, k, periodic).0.len() == s.len(),
        after_drops(s, g, n, k, periodic).1 == g.after(n),
        after_drops(s, g, n, k, periodic).1.valid(),
        forall|c: int|
            0 <= c < s.len() ==> s[c] <= #[trigger] after_drops(s, g, n, k, periodic).0[c],
        tallest(after_drops(s, g, n, k, periodic).0) <= tallest(s) + n,
    decreases n,
{
    if n > 0 {
        lemma_heights_never_decrease(s, g, (n - 1) as nat, k, periodic);
        let (s1, g1) = after_drops(s, g, (n - 1) as nat, k, periodic);
        super::random::lemma_advance_valid(g1);
        let g2 = g1.advance();
        let j = column_of(g2.iy, s1.len() as int);
        lemma_column_in_range(g2.iy, s1.len() as int);
        lemma_drop_at(s1, j, k, periodic);
    }
}

/// Return the largest of two values.
pub fn max(a: i64, b: i64) -> (r: i64)
    ensures
        r == larger(a as int, b as int),
{
    if a >= b {
        a
    } else {
        b
    }
}

/// Return the smallest of two values.
pub fn min(a: i64, b: i64) -> (r: i64)
    ensures
        r <= a,
        r <= b,
        r == a || r == b,
{
    if a <= b {
        a
    } else {
        b
    }
}

/// Return the largest of three values.
pub fn max3(a: u64, b: u64, c: u64) -> (r: u64)
    ensures
        r == larger(larger(a as int, b as int), c as int),
{
    if a <= b {
        if b <= c {
            c
        } else {
            b
        }
    } else {
        if a <= c {
            c
        } else {
            a
        }
    }
}

/// The column `k` places to the left of column `j`.
pub fn left_column(j: usize, k: u32, l: u32, periodic_bc: bool) -> (c: usize)
    requires
        j < l,
        k < l,
    ensures
        c == left_neighbour(j as int, k as int, l as int, periodic_bc),
        c < l,
{
    proof {
        lemma_periodic_neighbours(j as int, k as int, l as int);
    }
    let jk: i64 = j as i64 - k as i64;
    if periodic_bc {
        if jk < 0 {
            (l as i64 + jk) as usize
        } else {
            jk as usize
        }
    } else {
        max(jk, 0) as usize
    }
}

/// The column `k` places to the right of column `j`.
pub fn right_column(j: usize, k: u32, l: u32, periodic_bc: bool) -> (c: usize)
    requires
        j < l,
        k < l,
    ensures
        c == right_neighbour(j as int, k as int, l as int, periodic_bc),
        c < l,
{
    proof {
        lemma_periodic_neighbours(j as int, k as int, l as int);
    }
    let jk: i64 = j as i64 + k as i64;
    if periodic_bc {
        (jk % (l as i64)) as usize
    } else {
        min(jk, l as i64 - 1) as usize
    }
}

/// Draws the column on which the next particle falls. The draw is a fraction
/// below one, so the column is always on the substrate and no draw is ever
/// thrown away.
pub fn draw_column(rng: &mut RandomStream, l: u32) -> (j: usize)
    requires
        old(rng).wf(),
        0 < l,
    ensures
        final(rng).wf(),
        final(rng)@ == old(rng)@.advance(),
        j == column_of(final(rng)@.iy, l as int),
        j < l,
{
    let draw: u32 = rng.next();
    proof {
        lemma_column_in_range(draw as int, l as int);
        assert(0 <= (l as int) * (draw as int) <= 0xffff_ffff * 0x7fff_ffff) by (nonlinear_arith)
            requires
                0 <= l <= 0xffff_ffff,
                0 <= draw <= 0x7fff_ffff,
        ;
    }
    ((l as u64 * draw as u64) / (FIRST_MODULUS as u64)) as usize
}

/// Drops one particle on column `j`: the column rises to one unit above the
/// tallest column of its neighbourhood.
pub fn deposit_at(s: &mut Vec<u64>, j: usize, l: u32, k_neighbour: u32, periodic_bc: bool)
    requires
        old(s).len() == l,
        j < l,
        k_neighbour < l,
        tallest(old(s)@) < u64::MAX,
    ensures
        final(s)@ == drop_at(old(s)@, j as int, k_neighbour as nat, periodic_bc),
{
    let mut h_max: u64 = s[j];
    let mut k: u32 = 0;
    while k < k_neighbour
        invariant
            s.len() == l,
            s@ == old(s)@,
            j < l,
            k <= k_neighbour < l,
            h_max == neighbourhood_max(s@, j as int, k as nat, periodic_bc),
        decreases k_neighbour - k,
    {
        k += 1;
        let left: usize = left_column(j, k, l, periodic_bc);
        let right: usize = right_column(j, k, l, periodic_bc);
        h_max = max3(s[left], h_max, s[right]);
    }
    proof {
        lemma_neighbourhood_max(s@, j as int, k_neighbour as nat, periodic_bc);
    }
    s.set(j, h_max + 1);
}

/// Drops `n` particles on the surface `s` of `l` columns, each on the column
/// that the next draw of `rng` selects, with `k_neighbour` neighbours on each
/// side taking part in the sticking rule.
pub fn deposit_blocks(
    n: u64,
    l: u32,
    s: &mut Vec<u64>,
    rng: &mut RandomStream,
    k_neighbour: u32,
    periodic_bc: bool,
)
    requires
        old(rng).wf(),
        0 < l,
        old(s).len() == l,
        k_neighbour < l,
        tallest(old(s)@) + n <= u64::MAX,
    ensures
        final(rng).wf(),
        (final(s)@, final(rng)@) == after_drops(
            old(s)@,
            old(rng)@,
            n as nat,
            k_neighbour as nat,
            periodic_bc,
        ),
        final(rng)@ == old(rng)@.after(n as nat),
        final(s).len() == l,
        forall|c: int| 0 <= c < l ==> old(s)[c] <= #[trigger] final(s)[c],
        tallest(final(s)@) <= tallest(old(s)@) + n,
{
    let mut i: u64 = 0;
    while i < n
        invariant
            i <= n,
            0 < l,
            k_neighbour < l,
            s.len() == l,
            old(s).len() == l,
            rng.wf(),
            old(rng)@.valid(),
            tallest(old(s)@) + n <= u64::MAX,
            (s@, rng@) == after_drops(
                old(s)@,
                old(rng)@,
                i as nat,
                k_neighbour as nat,
                periodic_bc,
            ),
            rng@ == old(rng)@.after(i as nat),
            forall|c: int| 0 <= c < l ==> old(s)[c] <= #[trigger] s[c],
            tallest(s@) <= tallest(old(s)@) + i,
        decreases n - i,
    {
        let ghost before = s@;
        let j: usize = draw_column(rng, l);
        deposit_at(s, j, l, k_neighbour, periodic_bc);
        proof {
            lemma_drop_at(before, j as int, k_neighbour as nat, periodic_bc);
        }
        i += 1;
    }
}

} // verus!
