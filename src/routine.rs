//! The guest's self-check routine and the search for the value of `r7` that
//! makes it succeed.
//!
//! With `r7 == v`, the routine computes `f(x, y)` on 15-bit words:
//! `f(0, y) = (y + 1, y)`, `f(x, 0) = f(x - 1, v)` and
//! `f(x, y) = f(x - 1, f(x, y - 1).0)`. The guest calls it as `f(4, 1)` and
//! wants 6 back in its first component.
use vstd::arithmetic::div_mod::{
    lemma_add_mod_noop, lemma_fundamental_div_mod_converse_div,
    lemma_fundamental_div_mod_converse_mod, lemma_mod_twice, lemma_mul_mod_noop_left, lemma_mul_mod_noop_right,
    lemma_small_mod,
};
use vstd::prelude::*;

verus! {

/// The routine with `r7 == v`, as a pair (first component, second component).
pub open spec fn routine(v: nat, x: nat, y: nat) -> (nat, nat)
    decreases x, y,
{
    if x == 0 {
        ((y + 1) % 32768, y)
    } else if y == 0 {
        routine(v, (x - 1) as nat, v)
    } else {
        routine(v, (x - 1) as nat, routine(v, x, (y - 1) as nat).0)
    }
}

/// What the guest checks: `f(4, 1)` returns 6 in its first component.
pub open spec fn is_magic(v: nat) -> bool {
    routine(v, 4, 1).0 == 6
}

/// Both components stay 15-bit words.
pub proof fn lemma_routine_bounds(v: nat, x: nat, y: nat)
    requires
        v < 32768,
        y < 32768,
    ensures
        routine(v, x, y).0 < 32768,
        routine(v, x, y).1 < 32768,
    decreases x, y,
{
    if x == 0 {
    } else if y == 0 {
        lemma_routine_bounds(v, (x - 1) as nat, v);
    } else {
        lemma_routine_bounds(v, x, (y - 1) as nat);
        lemma_routine_bounds(v, (x - 1) as nat, routine(v, x, (y - 1) as nat).0);
    }
}

/// A row of the memo holds `f(x, y)` for every 15-bit `y`.
pub open spec fn row_holds(v: nat, x: nat, row: Seq<(u16, u16)>) -> bool {
    &&& row.len() == 32768
    &&& forall|y: int|
        0 <= y < 32768 ==> (#[trigger] row[y].0 as nat, row[y].1 as nat) == routine(
            v,
            x,
            y as nat,
        )
}

/// A memoised evaluation of the routine for one value of `r7`. The memo
/// holds whole rows `f(x, ·)` for `x` from 0 up, each computed from the one
/// before it, so no evaluation recurses.
pub struct Search {
    pub r7: u16,
    pub memo: Vec<Vec<(u16, u16)>>,
}

impl Search {
    pub open spec fn wf(&self) -> bool {
        &&& self.r7 < 32768
        &&& forall|x: int|
            0 <= x < self.memo@.len() ==> row_holds(
                self.r7 as nat,
                x as nat,
                #[trigger] self.memo@[x]@,
            )
    }

    /// An empty memo for `r7` (a 15-bit word).
    pub fn new(r7: u16) -> (r: Search)
        requires
            r7 < 32768,
        ensures
            r.wf(),
            r.r7 == r7,
    {
        Search { r7, memo: Vec::new() }
    }

    fn first_row(&self) -> (r: Vec<(u16, u16)>)
        ensures
            row_holds(self.r7 as nat, 0, r@),
    {
        let mut row: Vec<(u16, u16)> = Vec::new();
        let mut y: u16 = 0;
        while y < 32768
            invariant
                y <= 32768,
                row@.len() == y,
                forall|j: int|
                    0 <= j < y ==> (#[trigger] row@[j].0 as nat, row@[j].1 as nat) == routine(
                        self.r7 as nat,
                        0,
                        j as nat,
                    ),
            decreases 32768 - y,
        {
            row.push(((y + 1) % 32768, y));
            y += 1;
        }
        row
    }

    fn next_row(&self, x: usize, prev: &Vec<(u16, u16)>) -> (r: Vec<(u16, u16)>)
        requires
            self.r7 < 32768,
            x >= 1,
            row_holds(self.r7 as nat, (x - 1) as nat, prev@),
        ensures
            row_holds(self.r7 as nat, x as nat, r@),
    {
        let ghost v = self.r7 as nat;
        proof {
            lemma_routine_bounds(v, (x - 1) as nat, v);
        }
        let mut row: Vec<(u16, u16)> = Vec::new();
        row.push(prev[self.r7 as usize]);
        let mut y: usize = 1;
        while y < 32768
            invariant
                v == self.r7,
                v < 32768,
                x >= 1,
                row_holds(v, (x - 1) as nat, prev@),
                1 <= y <= 32768,
                row@.len() == y,
                forall|j: int|
                    0 <= j < y ==> (#[trigger] row@[j].0 as nat, row@[j].1 as nat) == routine(
                        v,
                        x as nat,
                        j as nat,
                    ),
            decreases 32768 - y,
        {
            proof {
                lemma_routine_bounds(v, x as nat, (y - 1) as nat);
            }
            let t = row[y - 1].0;
            row.push(prev[t as usize]);
            y += 1;
        }
        row
    }

    /// `f(regs.0, regs.1)` for this `r7`, filling the memo as far as needed.
    pub fn find(&mut self, regs: (u16, u16)) -> (r: (u16, u16))
        requires
            old(self).wf(),
            regs.1 < 32768,
        ensures
            final(self).wf(),
            final(self).r7 == old(self).r7,
            (r.0 as nat, r.1 as nat) == routine(old(self).r7 as nat, regs.0 as nat, regs.1 as nat),
    {
        if self.memo.len() == 0 {
            let row = self.first_row();
            self.memo.push(row);
        }
        while self.memo.len() <= regs.0 as usize
            invariant
                self.wf(),
                self.r7 == old(self).r7,
                self.memo@.len() >= 1,
            decreases regs.0 + 1 - self.memo@.len(),
        {
            let x = self.memo.len();
            let row = self.next_row(x, &self.memo[x - 1]);
            self.memo.push(row);
        }
        let row = &self.memo[regs.0 as usize];
        row[regs.1 as usize]
    }
}

// The routine collapses: row 1 adds, row 2 is an affine map of its argument,
// and row 3 iterates that map. The check can then be computed in a
// logarithmic number of steps by composing affine maps.

/// `t ↦ (a·t + b) mod 32768`.
pub open spec fn affine(a: nat, b: nat, t: nat) -> nat {
    (a * t + b) % 32768
}

/// `f(2, ·)` with `r7 == v`.
pub open spec fn row_two_map(v: nat, t: nat) -> nat {
    affine(v + 1, 2 * v + 1, t)
}

/// `row_two_map` applied `n` times to `t`.
pub open spec fn iterate(v: nat, n: nat, t: nat) -> nat
    decreases n,
{
    if n == 0 {
        t
    } else {
        row_two_map(v, iterate(v, (n - 1) as nat, t))
    }
}

proof fn lemma_row_one(v: nat, y: nat)
    requires
        v < 32768,
        y < 32768,
    ensures
        routine(v, 1, y).0 == (v + 1 + y) % 32768,
    decreases y,
{
    if y > 0 {
        lemma_row_one(v, (y - 1) as nat);
        let t = routine(v, 1, (y - 1) as nat).0;
        assert(routine(v, 1, y) == routine(v, 0, t));
        assert(t == (v + y) % 32768);
        lemma_add_mod_noop((v + y) as int, 1, 32768);
        lemma_small_mod(1, 32768);
        assert(routine(v, 0, t).0 == (t + 1) % 32768);
    } else {
        assert(routine(v, 1, 0) == routine(v, 0, v));
    }
}

proof fn lemma_row_two(v: nat, y: nat)
    requires
        v < 32768,
        y < 32768,
    ensures
        routine(v, 2, y).0 == row_two_map(v, y),
    decreases y,
{
    if y == 0 {
        lemma_row_one(v, v);
        assert((v + 1) * 0 == 0) by (nonlinear_arith);
    } else {
        lemma_row_two(v, (y - 1) as nat);
        lemma_routine_bounds(v, 2, (y - 1) as nat);
        let p = (v + 1) * ((y - 1) as nat) + 2 * v + 1;
        let t = routine(v, 2, (y - 1) as nat).0;
        lemma_row_one(v, t);
        assert(routine(v, 2, y) == routine(v, 1, t));
        assert(t == p % 32768);
        assert((v + 1) * y == (v + 1) * ((y - 1) as nat) + v + 1) by (nonlinear_arith)
            requires
                y >= 1,
        ;
        vstd::arithmetic::div_mod::lemma_add_mod_noop_right((v + 1) as int, p as int, 32768);
    }
}

proof fn lemma_iterate_bound(v: nat, n: nat, t: nat)
    requires
        t < 32768,
    ensures
        iterate(v, n, t) < 32768,
{
}

proof fn lemma_row_three(v: nat, y: nat)
    requires
        v < 32768,
        y < 32768,
    ensures
        routine(v, 3, y).0 == iterate(v, y + 1, v),
    decreases y,
{
    if y == 0 {
        lemma_row_two(v, v);
        assert(routine(v, 3, 0) == routine(v, 2, v));
        assert(iterate(v, 1, v) == row_two_map(v, iterate(v, 0, v)));
    } else {
        lemma_row_three(v, (y - 1) as nat);
        lemma_routine_bounds(v, 3, (y - 1) as nat);
        let t = routine(v, 3, (y - 1) as nat).0;
        lemma_row_two(v, t);
        assert(routine(v, 3, y) == routine(v, 2, t));
    }
}

/// `f(4, 1)` in terms of the iterated map.
proof fn lemma_row_four(v: nat)
    requires
        v < 32768,
    ensures
        routine(v, 4, 1).0 == iterate(v, iterate(v, v + 1, v) + 1, v),
{
    lemma_row_three(v, v);
    lemma_routine_bounds(v, 3, v);
    let w = routine(v, 3, v).0;
    lemma_row_three(v, w);
    assert(routine(v, 4, 0) == routine(v, 3, v));
    assert(routine(v, 4, 1) == routine(v, 3, w));
}

proof fn lemma_compose(a1: nat, b1: nat, a2: nat, b2: nat, t: nat)
    ensures
        affine(a1, b1, affine(a2, b2, t)) == affine(
            (a1 * a2) % 32768,
            (a1 * b2 + b1) % 32768,
            t,
        ),
{
    let y = a2 * t + b2;
    lemma_mul_mod_noop_right(a1 as int, y as int, 32768);
    lemma_add_mod_noop((a1 * (y % 32768)) as int, b1 as int, 32768);
    lemma_add_mod_noop((a1 * y) as int, b1 as int, 32768);
    lemma_mod_twice((a1 * (y % 32768)) as int, 32768);
    lemma_mod_twice((a1 * y) as int, 32768);
    assert(a1 * y + b1 == a1 * a2 * t + (a1 * b2 + b1)) by (nonlinear_arith)
        requires
            y == a2 * t + b2,
    ;
    lemma_mul_mod_noop_left((a1 * a2) as int, t as int, 32768);
    lemma_add_mod_noop(((a1 * a2) % 32768 * t) as int, ((a1 * b2 + b1) % 32768) as int, 32768);
    lemma_add_mod_noop((a1 * a2 * t) as int, (a1 * b2 + b1) as int, 32768);
    lemma_mod_twice(((a1 * a2) % 32768 * t) as int, 32768);
    lemma_mod_twice((a1 * a2 * t) as int, 32768);
    lemma_mod_twice((a1 * b2 + b1) as int, 32768);
}

proof fn lemma_iterate_add(v: nat, m: nat, n: nat, t: nat)
    ensures
        iterate(v, m + n, t) == iterate(v, m, iterate(v, n, t)),
    decreases m,
{
    if m > 0 {
        lemma_iterate_add(v, (m - 1) as nat, n, t);
    }
}

/// `iterate(v, n, t)` by composing affine maps: a logarithmic number of
/// steps in `n`.
fn iterate_fast(v: u16, n: u32, t: u16) -> (r: u16)
    requires
        v < 32768,
        t < 32768,
    ensures
        r as nat == iterate(v as nat, n as nat, t as nat),
{
    let ghost gv = v as nat;
    let mut ra: u64 = 1;
    let mut rb: u64 = 0;
    let mut pa: u64 = v as u64 + 1;
    let mut pb: u64 = 2 * v as u64 + 1;
    let mut k: u32 = n;
    let ghost mut done: nat = 0;
    let ghost mut scale: nat = 1;
    assert forall|u: nat| u < 32768 implies #[trigger] iterate(gv, 1, u) == affine(
        pa as nat,
        pb as nat,
        u,
    ) by {
        assert(iterate(gv, 1, u) == row_two_map(gv, iterate(gv, 0, u)));
    }
    assert forall|u: nat| u < 32768 implies iterate(gv, 0, u) == affine(
        ra as nat,
        rb as nat,
        u,
    ) by {
        lemma_small_mod(u, 32768);
    }
    while k > 0
        invariant
            gv == v,
            ra < 32768,
            rb < 32768,
            pa <= 32768,
            pb < 65536,
            n == done + k * scale,
            forall|u: nat| u < 32768 ==> iterate(gv, done, u) == affine(ra as nat, rb as nat, u),
            forall|u: nat|
                u < 32768 ==> iterate(gv, scale, u) == affine(pa as nat, pb as nat, u),
        decreases k,
    {
        if k % 2 == 1 {
            let ghost nd = done + scale;
            assert forall|u: nat| u < 32768 implies #[trigger] iterate(gv, nd, u) == affine(
                (pa * ra) as nat % 32768,
                (pa * rb + pb) as nat % 32768,
                u,
            ) by {
                lemma_iterate_add(gv, scale, done, u);
                lemma_iterate_bound(gv, done, u);
                lemma_compose(pa as nat, pb as nat, ra as nat, rb as nat, u);
            }
            assert(pa * ra <= 32768 * 32767) by (nonlinear_arith)
                requires
                    pa <= 32768,
                    ra < 32768,
            ;
            assert(pa * rb <= 32768 * 32767) by (nonlinear_arith)
                requires
                    pa <= 32768,
                    rb < 32768,
            ;
            let na = (pa * ra) % 32768;
            let nb = (pa * rb + pb) % 32768;
            ra = na;
            rb = nb;
            proof {
                done = done + scale;
            }
        }
        let ghost ns = scale + scale;
        assert forall|u: nat| u < 32768 implies #[trigger] iterate(gv, ns, u) == affine(
            (pa * pa) as nat % 32768,
            (pa * pb + pb) as nat % 32768,
            u,
        ) by {
            lemma_iterate_add(gv, scale, scale, u);
            lemma_iterate_bound(gv, scale, u);
            lemma_compose(pa as nat, pb as nat, pa as nat, pb as nat, u);
        }
        assert(pa * pa <= 32768 * 32768) by (nonlinear_arith)
            requires
                pa <= 32768,
        ;
        assert(pa * pb <= 32768 * 65535) by (nonlinear_arith)
            requires
                pa <= 32768,
                pb < 65536,
        ;
        let sa = (pa * pa) % 32768;
        let sb = (pa * pb + pb) % 32768;
        pa = sa;
        pb = sb;
        proof {
            let kk = k as nat;
            assert(kk * scale == (kk % 2) * scale + (kk / 2) * (scale + scale))
                by (nonlinear_arith);
            scale = scale + scale;
        }
        k = k / 2;
    }
    assert(ra * (t as u64) <= 32767 * 32767) by (nonlinear_arith)
        requires
            ra < 32768,
            t < 32768,
    ;
    ((ra * t as u64 + rb) % 32768) as u16
}

/// Whether the guest's check succeeds with `r7` set to `r7`.
pub fn accepts(r7: u16) -> (r: bool)
    requires
        r7 < 32768,
    ensures
        r == is_magic(r7 as nat),
{
    proof {
        lemma_row_four(r7 as nat);
        lemma_iterate_bound(r7 as nat, r7 as nat + 1, r7 as nat);
    }
    let w = iterate_fast(r7, r7 as u32 + 1, r7);
    iterate_fast(r7, w as u32 + 1, r7) == 6
}

/// The smallest `r7` in `[1, 32767]` for which the guest's check succeeds,
/// if there is one.
pub fn find_magic_value() -> (r: Option<u16>)
    ensures
        match r {
            Some(v) => 1 <= v < 32768 && is_magic(v as nat) && forall|u: nat|
                1 <= u < v ==> !is_magic(u),
            None => forall|u: nat| 1 <= u < 32768 ==> !is_magic(u),
        },
{
    let mut v: u16 = 1;
    while v < 32768
        invariant
            1 <= v <= 32768,
            forall|u: nat| 1 <= u < v ==> !is_magic(u),
        decreases 32768 - v,
    {
        if accepts(v) {
            return Some(v);
        }
        v += 1;
    }
    None
}

/// `row_two_map` composed `n` times, as the coefficients of an affine map,
/// by repeated squaring.
pub open spec fn power_map(a: nat, b: nat, n: nat) -> (nat, nat)
    decreases n,
{
    if n == 0 {
        (1, 0)
    } else if n % 2 == 0 {
        let h = power_map(a, b, n / 2);
        ((h.0 * h.0) % 32768, (h.0 * h.1 + h.1) % 32768)
    } else {
        let h = power_map(a, b, (n - 1) as nat);
        ((a * h.0) % 32768, (a * h.1 + b) % 32768)
    }
}

proof fn lemma_power_map(v: nat, n: nat, t: nat)
    requires
        t < 32768,
    ensures
        iterate(v, n, t) == affine(power_map(v + 1, 2 * v + 1, n).0, power_map(v + 1, 2 * v + 1, n).1, t),
    decreases n,
{
    if n == 0 {
        lemma_small_mod(t, 32768);
    } else if n % 2 == 0 {
        let h = (n / 2) as nat;
        lemma_power_map(v, h, t);
        lemma_iterate_bound(v, h, t);
        lemma_power_map(v, h, iterate(v, h, t));
        lemma_iterate_add(v, h, h, t);
        let p = power_map(v + 1, 2 * v + 1, h);
        lemma_compose(p.0, p.1, p.0, p.1, t);
    } else {
        let m = (n - 1) as nat;
        lemma_power_map(v, m, t);
        let p = power_map(v + 1, 2 * v + 1, m);
        lemma_compose(v + 1, 2 * v + 1, p.0, p.1, t);
    }
}

proof fn lemma_power_square(a: nat, b: nat, h: nat, c: nat, d: nat, c2: nat, d2: nat)
    requires
        h > 0,
        power_map(a, b, h) == (c, d),
        c2 == (c * c) % 32768,
        d2 == (c * d + d) % 32768,
    ensures
        power_map(a, b, 2 * h) == (c2, d2),
{
    assert((2 * h) % 2 == 0 && (2 * h) / 2 == h) by (nonlinear_arith);
}

proof fn lemma_power_step(a: nat, b: nat, m: nat, c: nat, d: nat, c2: nat, d2: nat)
    requires
        (m + 1) % 2 == 1,
        power_map(a, b, m) == (c, d),
        c2 == (a * c) % 32768,
        d2 == (a * d + b) % 32768,
    ensures
        power_map(a, b, m + 1) == (c2, d2),
{
}

proof fn lemma_power_first()
    ensures
        power_map(0x6487, 51469, 25735) == (23671nat, 31125nat),
{
    assert(power_map(0x6487, 51469, 0) == (1nat, 0nat));
    lemma_fundamental_div_mod_converse_mod(25735, 32768, 0, 25735);
    lemma_fundamental_div_mod_converse_mod(51469, 32768, 1, 18701);
    lemma_fundamental_div_mod_converse_mod(1, 2, 0, 1);
    lemma_power_step(0x6487, 51469, 0, 1, 0, 25735, 18701);
    lemma_fundamental_div_mod_converse_mod(662290225, 32768, 20211, 16177);
    lemma_fundamental_div_mod_converse_mod(481288936, 32768, 14687, 25320);
    lemma_power_square(0x6487, 51469, 1, 25735, 18701, 16177, 25320);
    lemma_fundamental_div_mod_converse_mod(416315095, 32768, 12704, 30423);
    lemma_fundamental_div_mod_converse_mod(651661669, 32768, 19887, 4453);
    lemma_fundamental_div_mod_converse_mod(3, 2, 1, 1);
    lemma_power_step(0x6487, 51469, 2, 16177, 25320, 30423, 4453);
    lemma_fundamental_div_mod_converse_mod(925558929, 32768, 28245, 26769);
    lemma_fundamental_div_mod_converse_mod(135478072, 32768, 4134, 15160);
    lemma_power_square(0x6487, 51469, 3, 30423, 4453, 26769, 15160);
    lemma_fundamental_div_mod_converse_mod(716579361, 32768, 21868, 8737);
    lemma_fundamental_div_mod_converse_mod(405833200, 32768, 12385, 1520);
    lemma_power_square(0x6487, 51469, 6, 26769, 15160, 8737, 1520);
    lemma_fundamental_div_mod_converse_mod(76335169, 32768, 2329, 18497);
    lemma_fundamental_div_mod_converse_mod(13281760, 32768, 405, 10720);
    lemma_power_square(0x6487, 51469, 12, 8737, 1520, 18497, 10720);
    lemma_fundamental_div_mod_converse_mod(476020295, 32768, 14526, 32327);
    lemma_fundamental_div_mod_converse_mod(275930669, 32768, 8420, 24109);
    lemma_fundamental_div_mod_converse_mod(25, 2, 12, 1);
    lemma_power_step(0x6487, 51469, 24, 18497, 10720, 32327, 24109);
    lemma_fundamental_div_mod_converse_mod(1045034929, 32768, 31891, 30641);
    lemma_fundamental_div_mod_converse_mod(779395752, 32768, 23785, 8872);
    lemma_power_square(0x6487, 51469, 25, 32327, 24109, 30641, 8872);
    lemma_fundamental_div_mod_converse_mod(938870881, 32768, 28652, 2145);
    lemma_fundamental_div_mod_converse_mod(271855824, 32768, 8296, 12496);
    lemma_power_square(0x6487, 51469, 50, 30641, 8872, 2145, 12496);
    lemma_fundamental_div_mod_converse_mod(4601025, 32768, 140, 13505);
    lemma_fundamental_div_mod_converse_mod(26816416, 32768, 818, 12192);
    lemma_power_square(0x6487, 51469, 100, 2145, 12496, 13505, 12192);
    lemma_fundamental_div_mod_converse_mod(347551175, 32768, 10606, 13767);
    lemma_fundamental_div_mod_converse_mod(313812589, 32768, 9576, 26221);
    lemma_fundamental_div_mod_converse_mod(201, 2, 100, 1);
    lemma_power_step(0x6487, 51469, 200, 13505, 12192, 13767, 26221);
    lemma_fundamental_div_mod_converse_mod(189530289, 32768, 5784, 177);
    lemma_fundamental_div_mod_converse_mod(361010728, 32768, 11017, 5672);
    lemma_power_square(0x6487, 51469, 201, 13767, 26221, 177, 5672);
    lemma_fundamental_div_mod_converse_mod(31329, 32768, 0, 31329);
    lemma_fundamental_div_mod_converse_mod(1009616, 32768, 30, 26576);
    lemma_power_square(0x6487, 51469, 402, 177, 5672, 31329, 26576);
    lemma_fundamental_div_mod_converse_mod(981506241, 32768, 29953, 6337);
    lemma_fundamental_div_mod_converse_mod(832626080, 32768, 25409, 23968);
    lemma_power_square(0x6487, 51469, 804, 31329, 26576, 6337, 23968);
    lemma_fundamental_div_mod_converse_mod(40157569, 32768, 1225, 16769);
    lemma_fundamental_div_mod_converse_mod(151909184, 32768, 4635, 29504);
    lemma_power_square(0x6487, 51469, 1608, 6337, 23968, 16769, 29504);
    lemma_fundamental_div_mod_converse_mod(281199361, 32768, 8581, 17153);
    lemma_fundamental_div_mod_converse_mod(494782080, 32768, 15099, 18048);
    lemma_power_square(0x6487, 51469, 3216, 16769, 29504, 17153, 18048);
    lemma_fundamental_div_mod_converse_mod(441432455, 32768, 13471, 14727);
    lemma_fundamental_div_mod_converse_mod(464516749, 32768, 14175, 30349);
    lemma_fundamental_div_mod_converse_mod(6433, 2, 3216, 1);
    lemma_power_step(0x6487, 51469, 6432, 17153, 18048, 14727, 30349);
    lemma_fundamental_div_mod_converse_mod(216884529, 32768, 6618, 25905);
    lemma_fundamental_div_mod_converse_mod(446980072, 32768, 13640, 24552);
    lemma_power_square(0x6487, 51469, 6433, 14727, 30349, 25905, 24552);
    lemma_fundamental_div_mod_converse_mod(666665175, 32768, 20345, 215);
    lemma_fundamental_div_mod_converse_mod(631897189, 32768, 19283, 31845);
    lemma_fundamental_div_mod_converse_mod(12867, 2, 6433, 1);
    lemma_power_step(0x6487, 51469, 12866, 25905, 24552, 215, 31845);
    lemma_fundamental_div_mod_converse_mod(46225, 32768, 1, 13457);
    lemma_fundamental_div_mod_converse_mod(6878520, 32768, 209, 30008);
    lemma_power_square(0x6487, 51469, 12867, 215, 31845, 13457, 30008);
    lemma_fundamental_div_mod_converse_mod(346315895, 32768, 10568, 23671);
    lemma_fundamental_div_mod_converse_mod(772307349, 32768, 23568, 31125);
    lemma_fundamental_div_mod_converse_mod(25735, 2, 12867, 1);
    lemma_power_step(0x6487, 51469, 25734, 13457, 30008, 23671, 31125);
}

proof fn lemma_power_second()
    ensures
        power_map(0x6487, 51469, 23520) == (29953nat, 23936nat),
{
    assert(power_map(0x6487, 51469, 0) == (1nat, 0nat));
    lemma_fundamental_div_mod_converse_mod(25735, 32768, 0, 25735);
    lemma_fundamental_div_mod_converse_mod(51469, 32768, 1, 18701);
    lemma_fundamental_div_mod_converse_mod(1, 2, 0, 1);
    lemma_power_step(0x6487, 51469, 0, 1, 0, 25735, 18701);
    lemma_fundamental_div_mod_converse_mod(662290225, 32768, 20211, 16177);
    lemma_fundamental_div_mod_converse_mod(481288936, 32768, 14687, 25320);
    lemma_power_square(0x6487, 51469, 1, 25735, 18701, 16177, 25320);
    lemma_fundamental_div_mod_converse_mod(261695329, 32768, 7986, 10081);
    lemma_fundamental_div_mod_converse_mod(409626960, 32768, 12500, 26960);
    lemma_power_square(0x6487, 51469, 2, 16177, 25320, 10081, 26960);
    lemma_fundamental_div_mod_converse_mod(259434535, 32768, 7917, 10279);
    lemma_fundamental_div_mod_converse_mod(693867069, 32768, 21175, 4669);
    lemma_fundamental_div_mod_converse_mod(5, 2, 2, 1);
    lemma_power_step(0x6487, 51469, 4, 10081, 26960, 10279, 4669);
    lemma_fundamental_div_mod_converse_mod(105657841, 32768, 3224, 13809);
    lemma_fundamental_div_mod_converse_mod(47997320, 32768, 1464, 24968);
    lemma_power_square(0x6487, 51469, 5, 10279, 4669, 13809, 24968);
    lemma_fundamental_div_mod_converse_mod(355374615, 32768, 10845, 5655);
    lemma_fundamental_div_mod_converse_mod(642602949, 32768, 19610, 22469);
    lemma_fundamental_div_mod_converse_mod(11, 2, 5, 1);
    lemma_power_step(0x6487, 51469, 10, 13809, 24968, 5655, 22469);
    lemma_fundamental_div_mod_converse_mod(31979025, 32768, 975, 30225);
    lemma_fundamental_div_mod_converse_mod(127084664, 32768, 3878, 10360);
    lemma_power_square(0x6487, 51469, 11, 5655, 22469, 30225, 10360);
    lemma_fundamental_div_mod_converse_mod(913550625, 32768, 27879, 11553);
    lemma_fundamental_div_mod_converse_mod(313141360, 32768, 9556, 10352);
    lemma_power_square(0x6487, 51469, 22, 30225, 10360, 11553, 10352);
    lemma_fundamental_div_mod_converse_mod(297316455, 32768, 9073, 12391);
    lemma_fundamental_div_mod_converse_mod(266460189, 32768, 8131, 23581);
    lemma_fundamental_div_mod_converse_mod(45, 2, 22, 1);
    lemma_power_step(0x6487, 51469, 44, 11553, 10352, 12391, 23581);
    lemma_fundamental_div_mod_converse_mod(153536881, 32768, 4685, 18801);
    lemma_fundamental_div_mod_converse_mod(292215752, 32768, 8917, 23496);
    lemma_power_square(0x6487, 51469, 45, 12391, 23581, 18801, 23496);
    lemma_fundamental_div_mod_converse_mod(483843735, 32768, 14765, 24215);
    lemma_fundamental_div_mod_converse_mod(604721029, 32768, 18454, 20357);
    lemma_fundamental_div_mod_converse_mod(91, 2, 45, 1);
    lemma_power_step(0x6487, 51469, 90, 18801, 23496, 24215, 20357);
    lemma_fundamental_div_mod_converse_mod(586366225, 32768, 17894, 15633);
    lemma_fundamental_div_mod_converse_mod(492965112, 32768, 15044, 3320);
    lemma_power_square(0x6487, 51469, 91, 24215, 20357, 15633, 3320);
    lemma_fundamental_div_mod_converse_mod(402315255, 32768, 12277, 22519);
    lemma_fundamental_div_mod_converse_mod(85491669, 32768, 2608, 32725);
    lemma_fundamental_div_mod_converse_mod(183, 2, 91, 1);
    lemma_power_step(0x6487, 51469, 182, 15633, 3320, 22519, 32725);
    lemma_fundamental_div_mod_converse_mod(507105361, 32768, 15475, 20561);
    lemma_fundamental_div_mod_converse_mod(736967000, 32768, 22490, 14680);
    lemma_power_square(0x6487, 51469, 183, 22519, 32725, 20561, 14680);
    lemma_fundamental_div_mod_converse_mod(529137335, 32768, 16147, 32439);
    lemma_fundamental_div_mod_converse_mod(377841269, 32768, 11530, 26229);
    lemma_fundamental_div_mod_converse_mod(367, 2, 183, 1);
    lemma_power_step(0x6487, 51469, 366, 20561, 14680, 32439, 26229);
    lemma_fundamental_div_mod_converse_mod(1052288721, 32768, 32113, 9937);
    lemma_fundamental_div_mod_converse_mod(850868760, 32768, 25966, 14872);
    lemma_power_square(0x6487, 51469, 367, 32439, 26229, 9937, 14872);
    lemma_fundamental_div_mod_converse_mod(255728695, 32768, 7804, 7223);
    lemma_fundamental_div_mod_converse_mod(382782389, 32768, 11681, 19381);
    lemma_fundamental_div_mod_converse_mod(735, 2, 367, 1);
    lemma_power_step(0x6487, 51469, 734, 9937, 14872, 7223, 19381);
    lemma_fundamental_div_mod_converse_mod(52171729, 32768, 1592, 5073);
    lemma_fundamental_div_mod_converse_mod(140008344, 32768, 4272, 23448);
    lemma_power_square(0x6487, 51469, 735, 7223, 19381, 5073, 23448);
    lemma_fundamental_div_mod_converse_mod(25735329, 32768, 785, 12449);
    lemma_fundamental_div_mod_converse_mod(118975152, 32768, 3630, 27312);
    lemma_power_square(0x6487, 51469, 1470, 5073, 23448, 12449, 27312);
    lemma_fundamental_div_mod_converse_mod(154977601, 32768, 4729, 17729);
    lemma_fundamental_div_mod_converse_mod(340034400, 32768, 10377, 864);
    lemma_power_square(0x6487, 51469, 2940, 12449, 27312, 17729, 864);
    lemma_fundamental_div_mod_converse_mod(314317441, 32768, 9592, 6785);
    lemma_fundamental_div_mod_converse_mod(15318720, 32768, 467, 16064);
    lemma_power_square(0x6487, 51469, 5880, 17729, 864, 6785, 16064);
    lemma_fundamental_div_mod_converse_mod(46036225, 32768, 1404, 29953);
    lemma_fundamental_div_mod_converse_mod(109010304, 32768, 3326, 23936);
    lemma_power_square(0x6487, 51469, 11760, 6785, 16064, 29953, 23936);
}

/// The value that the patch hook puts in `r7` passes the guest's check,
/// and the routine then returns what the hook puts in `r0`.
pub proof fn lemma_magic_value()
    ensures
        is_magic(crate::machine::MAGIC_R7 as nat),
        routine(crate::machine::MAGIC_R7 as nat, 4, 1).0 == crate::machine::PATCH_RESULT,
{
    lemma_row_four(0x6486);
    lemma_power_map(0x6486, 0x6487, 0x6486);
    lemma_power_first();
    lemma_fundamental_div_mod_converse_mod(23671int * 25734 + 31125, 32768, 18590, 23519);
    assert(affine(23671, 31125, 0x6486) == 23519);
    lemma_power_map(0x6486, 23520, 0x6486);
    lemma_power_second();
    lemma_fundamental_div_mod_converse_mod(29953int * 25734 + 23936, 32768, 23524, 6);
    assert(affine(29953, 23936, 0x6486) == 6);
}

} // verus!
