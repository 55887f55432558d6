//! The colony: a population of agents advanced in lockstep each tick, and the
//! deposit pass that folds their positions into a new trail.

use crate::fixed::{
    div_trunc, isqrt, lemma_mul_bounds, lemma_tdiv_bounds, tdiv, to_units, COORD_BOUND, SCALE,
};
use crate::rng::rand_in_range;
use crate::vec2::{near_unit_speed, Vec2};
use crate::slime::{can_move, can_sense, moved_x, moved_y, steered_vel_x, steered_vel_y, Slime};
use crate::trail::{lemma_flat_index_bound, lemma_flat_index_injective, lemma_grid_area_small, Trail};
use vstd::arithmetic::div_mod::{
    lemma_div_is_ordered, lemma_div_multiples_vanish, lemma_div_pos_is_pos,
    lemma_fundamental_div_mod, lemma_fundamental_div_mod_converse, lemma_mod_bound,
};
use vstd::arithmetic::mul::lemma_mul_inequality;
use vstd::prelude::*;
use vstd::seq_lib::group_to_multiset_ensures;

verus! {

/// The fixed population: a length-immutable ordered sequence of agents. A new
/// colony value is produced by each transformation; nothing is mutated across
/// ticks.
#[derive(Debug)]
pub struct Colony {
    pub agents: Vec<Slime>,
}

/// The x cell an agent deposits into: its position truncated to whole units.
/// Deposit applies no wrap of its own, so positions must already be wrapped.
pub open spec fn dep_x(s: Slime) -> int {
    to_units(s.pos.x as int)
}

/// The y cell an agent deposits into.
pub open spec fn dep_y(s: Slime) -> int {
    to_units(s.pos.y as int)
}

/// Whether agent `s` deposits into cell `(x, y)`.
pub open spec fn hits(s: Slime, x: int, y: int) -> bool {
    dep_x(s) == x && dep_y(s) == y
}

/// How many of `agents` deposit into cell `(x, y)`.
pub open spec fn count_at(agents: Seq<Slime>, x: int, y: int) -> nat
    decreases agents.len(),
{
    if agents.len() == 0 {
        0
    } else {
        count_at(agents.drop_last(), x, y) + if hits(agents.last(), x, y) {
            1nat
        } else {
            0nat
        }
    }
}

/// Agent position already wrapped into `[0, span)` on both axes: the
/// precondition of the deposit pass (the driver moves — and thereby wraps —
/// before depositing).
pub open spec fn can_deposit(s: Slime, span: int) -> bool {
    0 <= s.pos.x < span && 0 <= s.pos.y < span
}

/// No cell is hit more often than there are agents: the bound a caller uses
/// to discharge the deposit overflow precondition.
pub proof fn lemma_count_at_le_len(s: Seq<Slime>, x: int, y: int)
    ensures
        count_at(s, x, y) <= s.len(),
    decreases s.len(),
{
    if s.len() > 0 {
        lemma_count_at_le_len(s.drop_last(), x, y);
    }
}

/// Extending a prefix by one agent adds that agent's hit to the count.
proof fn lemma_count_take_succ(s: Seq<Slime>, k: int, x: int, y: int)
    requires
        0 <= k < s.len(),
    ensures
        count_at(s.take(k + 1), x, y) == count_at(s.take(k), x, y) + if hits(s[k], x, y) {
            1nat
        } else {
            0nat
        },
{
    assert(s.take(k + 1).drop_last() =~= s.take(k));
    assert(s.take(k + 1).last() == s[k]);
}

/// A prefix never hits a cell more often than the whole sequence.
proof fn lemma_count_take_le(s: Seq<Slime>, k: int, x: int, y: int)
    requires
        0 <= k <= s.len(),
    ensures
        count_at(s.take(k), x, y) <= count_at(s, x, y),
    decreases s.len() - k,
{
    if k == s.len() {
        assert(s.take(k) =~= s);
    } else {
        lemma_count_take_succ(s, k, x, y);
        lemma_count_take_le(s, k + 1, x, y);
    }
}

/// Removing one agent removes exactly its hit from the count.
proof fn lemma_count_remove(s: Seq<Slime>, i: int, x: int, y: int)
    requires
        0 <= i < s.len(),
    ensures
        count_at(s, x, y) == count_at(s.remove(i), x, y) + if hits(s[i], x, y) {
            1nat
        } else {
            0nat
        },
    decreases s.len(),
{
    if i == s.len() - 1 {
        assert(s.remove(i) =~= s.drop_last());
    } else {
        let sd = s.drop_last();
        assert(s.remove(i).drop_last() =~= sd.remove(i));
        assert(s.remove(i).last() == s.last());
        lemma_count_remove(sd, i, x, y);
    }
}

/// Two sequences with the same multiset of agents hit every cell equally
/// often.
proof fn lemma_count_permutation(s1: Seq<Slime>, s2: Seq<Slime>, x: int, y: int)
    requires
        s1.to_multiset() == s2.to_multiset(),
    ensures
        count_at(s1, x, y) == count_at(s2, x, y),
    decreases s1.len(),
{
    broadcast use group_to_multiset_ensures;

    if s1.len() == 0 {
        assert(s2.to_multiset().len() == 0);
        assert(s2.len() == 0);
    } else {
        let a = s1.last();
        let i1 = s1.len() - 1;
        assert(s1.contains(a));
        assert(s1.to_multiset().count(a) > 0);
        assert(s2.to_multiset().count(a) > 0);
        assert(s2.contains(a));
        let i2 = choose|j: int| 0 <= j < s2.len() && s2[j] == a;
        assert(s1.remove(i1).to_multiset() == s1.to_multiset().remove(s1[i1]));
        assert(s2.remove(i2).to_multiset() == s2.to_multiset().remove(s2[i2]));
        lemma_count_remove(s1, i1, x, y);
        lemma_count_remove(s2, i2, x, y);
        lemma_count_permutation(s1.remove(i1), s2.remove(i2), x, y);
    }
}

/// Law (order independence): two colonies holding the same agents in any
/// order deposit identically. The deposit pass adds exactly
/// `SCALE * count_at` to every cell, and `count_at` sees only the multiset of
/// agents, so permuting the agents cannot be observed in the resulting trail.
pub proof fn lemma_deposit_order_independent(s1: Seq<Slime>, s2: Seq<Slime>)
    requires
        s1.to_multiset() == s2.to_multiset(),
    ensures
        forall|x: int, y: int| count_at(s1, x, y) == count_at(s2, x, y),
{
    assert forall|x: int, y: int| count_at(s1, x, y) == count_at(s2, x, y) by {
        lemma_count_permutation(s1, s2, x, y);
    }
}

/// The intensity a cell shows after `k` deposit passes of one colony whose
/// agents hit it `cnt` times a pass: each pass adds `SCALE * cnt` to the
/// cell, the per-cell increment `deposit_on`'s contract states.
pub open spec fn deposited_after(base: int, cnt: nat, k: nat) -> int
    decreases k,
{
    if k == 0 {
        base
    } else {
        deposited_after(base, cnt, (k - 1) as nat) + SCALE * cnt
    }
}

/// Law (deposit accumulation): repeated deposit passes accumulate exactly —
/// after `k` passes a cell stands at its start value plus `k` whole deposits
/// per resident agent. With one agent on a zeroed cell that is exactly `k`
/// units of intensity; a cell no agent stands on (`cnt == 0`) is unchanged.
pub proof fn lemma_deposit_accumulates(base: int, cnt: nat, k: nat)
    ensures
        deposited_after(base, cnt, k) == base + k * (SCALE as int) * cnt,
    decreases k,
{
    if k == 0 {
        assert(k * (SCALE as int) * cnt == 0) by (nonlinear_arith)
            requires
                k == 0,
        ;
    } else {
        let j = (k - 1) as nat;
        lemma_deposit_accumulates(base, cnt, j);
        assert(k * (SCALE as int) * cnt == j * (SCALE as int) * cnt + (SCALE as int) * cnt)
            by (nonlinear_arith)
            requires
                j == k - 1,
        ;
    }
}

/// A wrapped position truncates into a cell of the grid.
proof fn lemma_dep_cell_range(s: Slime, size: int)
    requires
        1 <= size,
        can_deposit(s, size * (SCALE as int)),
    ensures
        0 <= dep_x(s) < size,
        0 <= dep_y(s) < size,
{
    let sc = SCALE as int;
    lemma_div_pos_is_pos(s.pos.x as int, sc);
    lemma_div_pos_is_pos(s.pos.y as int, sc);
    lemma_div_is_ordered(s.pos.x as int, size * sc - 1, sc);
    lemma_div_is_ordered(s.pos.y as int, size * sc - 1, sc);
    lemma_fundamental_div_mod_converse(size * sc - 1, sc, size - 1, sc - 1);
}

impl Colony {
    /// A colony holding exactly the given agents, in order.
    pub fn new(agents: Vec<Slime>) -> (c: Colony)
        ensures
            c.agents@ == agents@,
    {
        Colony { agents }
    }

    /// One Euler step applied to every agent independently, against one
    /// shared trail snapshot; no agent affects another, so agent order is
    /// irrelevant.
    pub fn moved(&self, time: i64, trail: &Trail) -> (c: Colony)
        requires
            trail.wf(),
            forall|i: int|
                0 <= i < self.agents@.len() ==> can_move(
                    #[trigger] self.agents@[i],
                    time,
                    trail.span(),
                ),
        ensures
            c.agents@.len() == self.agents@.len(),
            forall|i: int|
                0 <= i < self.agents@.len() ==> {
                    &&& (#[trigger] c.agents@[i]).vel == self.agents@[i].vel
                    &&& c.agents@[i].pos.x == moved_x(self.agents@[i], time, trail.span())
                    &&& c.agents@[i].pos.y == moved_y(self.agents@[i], time, trail.span())
                    &&& 0 <= c.agents@[i].pos.x < trail.span()
                    &&& 0 <= c.agents@[i].pos.y < trail.span()
                },
    {
        let n = self.agents.len();
        let mut out: Vec<Slime> = Vec::new();
        let mut i: usize = 0;
        while i < n
            invariant
                i <= n,
                n == self.agents@.len(),
                trail.wf(),
                forall|k: int|
                    0 <= k < n ==> can_move(#[trigger] self.agents@[k], time, trail.span()),
                out@.len() == i,
                forall|k: int|
                    0 <= k < i ==> {
                        &&& (#[trigger] out@[k]).vel == self.agents@[k].vel
                        &&& out@[k].pos.x == moved_x(self.agents@[k], time, trail.span())
                        &&& out@[k].pos.y == moved_y(self.agents@[k], time, trail.span())
                        &&& 0 <= out@[k].pos.x < trail.span()
                        &&& 0 <= out@[k].pos.y < trail.span()
                    },
            decreases n - i,
        {
            let s = self.agents[i];
            out.push(s.updated(time, trail));
            i = i + 1;
        }
        Colony { agents: out }
    }

    /// One steering decision applied to every agent independently, all
    /// reading the same unmodified trail snapshot: no agent's choice this
    /// tick affects another's.
    pub fn steered(&self, trail: &Trail) -> (c: Colony)
        requires
            trail.wf(),
            forall|i: int|
                0 <= i < self.agents@.len() ==> can_sense(#[trigger] self.agents@[i], *trail),
        ensures
            c.agents@.len() == self.agents@.len(),
            forall|i: int|
                0 <= i < self.agents@.len() ==> {
                    &&& (#[trigger] c.agents@[i]).pos == self.agents@[i].pos
                    &&& c.agents@[i].vel.x == steered_vel_x(self.agents@[i], *trail)
                    &&& c.agents@[i].vel.y == steered_vel_y(self.agents@[i], *trail)
                },
    {
        let n = self.agents.len();
        let mut out: Vec<Slime> = Vec::new();
        let mut i: usize = 0;
        while i < n
            invariant
                i <= n,
                n == self.agents@.len(),
                trail.wf(),
                forall|k: int|
                    0 <= k < n ==> can_sense(#[trigger] self.agents@[k], *trail),
                out@.len() == i,
                forall|k: int|
                    0 <= k < i ==> {
                        &&& (#[trigger] out@[k]).pos == self.agents@[k].pos
                        &&& out@[k].vel.x == steered_vel_x(self.agents@[k], *trail)
                        &&& out@[k].vel.y == steered_vel_y(self.agents@[k], *trail)
                    },
            decreases n - i,
        {
            let s = self.agents[i];
            out.push(s.steered(trail));
            i = i + 1;
        }
        Colony { agents: out }
    }

    /// A new trail equal to `trail` with one deposit — `SCALE`, that is 1.0 —
    /// added at each agent's truncated cell, in agent order. Every cell ends
    /// at its old intensity plus `SCALE` times the number of agents on it, so
    /// increments commute and no cell ever decreases.
    pub fn deposit_on(&self, trail: &Trail) -> (t: Trail)
        requires
            trail.wf(),
            forall|i: int|
                0 <= i < self.agents@.len() ==> can_deposit(
                    #[trigger] self.agents@[i],
                    trail.span(),
                ),
            forall|x: int, y: int|
                0 <= x < trail.size && 0 <= y < trail.size ==> trail.at(x, y) + SCALE * count_at(
                    self.agents@,
                    x,
                    y,
                ) <= i64::MAX,
        ensures
            t.wf(),
            t.size == trail.size,
            forall|x: int, y: int|
                0 <= x < t.size && 0 <= y < t.size ==> t.at(x, y) == trail.at(x, y) + SCALE
                    * count_at(self.agents@, x, y),
            forall|x: int, y: int|
                0 <= x < t.size && 0 <= y < t.size ==> t.at(x, y) >= trail.at(x, y),
    {
        let size = trail.size;
        let n2 = trail.cells.len();
        let mut cells: Vec<i64> = Vec::new();
        let mut i: usize = 0;
        while i < n2
            invariant
                i <= n2,
                n2 == trail.cells@.len(),
                cells@.len() == i,
                forall|k: int| 0 <= k < i ==> cells@[k] == trail.cells@[k],
            decreases n2 - i,
        {
            cells.push(trail.cells[i]);
            i = i + 1;
        }
        assert(cells@ =~= trail.cells@);

        let n = self.agents.len();
        let mut a: usize = 0;
        while a < n
            invariant
                a <= n,
                n == self.agents@.len(),
                trail.wf(),
                size == trail.size,
                cells@.len() == trail.cells@.len(),
                forall|i2: int|
                    0 <= i2 < n ==> can_deposit(#[trigger] self.agents@[i2], trail.span()),
                forall|x: int, y: int|
                    0 <= x < size && 0 <= y < size ==> trail.at(x, y) + SCALE * count_at(
                        self.agents@,
                        x,
                        y,
                    ) <= i64::MAX,
                forall|x: int, y: int|
                    0 <= x < size && 0 <= y < size ==> #[trigger] cells@[x + y * size] == trail.at(
                        x,
                        y,
                    ) + SCALE * count_at(self.agents@.take(a as int), x, y),
            decreases n - a,
        {
            let s = self.agents[a];
            proof {
                lemma_dep_cell_range(s, size as int);
                lemma_grid_area_small(size as int);
            }
            let cx = crate::fixed::div_trunc(s.pos.x, SCALE) as usize;
            let cy = crate::fixed::div_trunc(s.pos.y, SCALE) as usize;
            proof {
                lemma_flat_index_bound(cx as int, cy as int, size as int);
                lemma_count_take_succ(self.agents@, a as int, cx as int, cy as int);
                lemma_count_take_le(self.agents@, a as int + 1, cx as int, cy as int);
            }
            let idx = cx + cy * size;
            let cur = cells[idx];
            cells[idx] = cur + SCALE;
            proof {
                assert forall|x: int, y: int|
                    0 <= x < size && 0 <= y < size implies #[trigger] cells@[x + y * size]
                    == trail.at(x, y) + SCALE * count_at(
                    self.agents@.take(a as int + 1),
                    x,
                    y,
                ) by {
                    lemma_flat_index_bound(x, y, size as int);
                    lemma_count_take_succ(self.agents@, a as int, x, y);
                    if x + y * size == cx + cy * size {
                        lemma_flat_index_injective(x, y, cx as int, cy as int, size as int);
                    }
                }
            }
            a = a + 1;
        }
        assert(self.agents@.take(n as int) =~= self.agents@);
        let t = Trail { size, cells };
        assert forall|x: int, y: int|
            0 <= x < t.size && 0 <= y < t.size implies t.at(x, y) == trail.at(x, y) + SCALE
            * count_at(self.agents@, x, y) && t.at(x, y) >= trail.at(x, y) by {
            lemma_flat_index_bound(x, y, size as int);
        }
        t
    }
}

/// A velocity of roughly unit speed in a uniformly random direction: a point
/// is rejection-sampled from the annulus between half the unit circle and the
/// unit circle, then rescaled to the unit circle by its own length (keeping
/// the radius above half the circle keeps the rescaling accurate). After `64`
/// misses in a row (vanishingly unlikely: each try accepts with probability
/// about `0.59`) it falls back to the unit vector along x rather than loop
/// unboundedly.
fn random_unit_vel() -> (v: Vec2)
    ensures
        -SCALE <= v.x <= SCALE,
        -SCALE <= v.y <= SCALE,
        near_unit_speed(v),
        !(v.x == 0 && v.y == 0),
{
    let mut tries: usize = 0;
    while tries < 64
        invariant
            tries <= 64,
        decreases 64 - tries,
    {
        let dx = rand_in_range(-SCALE, SCALE + 1);
        let dy = rand_in_range(-SCALE, SCALE + 1);
        proof {
            lemma_mul_bounds(dx as int, dx as int, SCALE as int, SCALE as int);
            lemma_mul_bounds(dy as int, dy as int, SCALE as int, SCALE as int);
        }
        let d2 = dx * dx + dy * dy;
        if d2 >= 32768 * 32768 && d2 <= SCALE * SCALE {
            let mu = isqrt(d2 as u64);
            proof {
                assert(32768 <= mu && mu <= 65536 && -(mu as int) <= dx as int <= mu as int
                    && -(mu as int) <= dy as int <= mu as int && dx * dx + dy * dy <= mu * mu + 2
                    * mu) by (nonlinear_arith)
                    requires
                        mu * mu <= d2 as u64,
                        (d2 as u64) < (mu + 1) * (mu + 1),
                        d2 as u64 == dx * dx + dy * dy,
                        32768 * 32768 <= d2 as u64,
                        d2 as u64 <= 65536 * 65536,
                ;
            }
            let m = mu as i64;
            proof {
                lemma_unit_speed(dx as int, dy as int, m as int);
                lemma_mul_bounds(dx as int, SCALE as int, m as int, SCALE as int);
                lemma_mul_bounds(dy as int, SCALE as int, m as int, SCALE as int);
                lemma_tdiv_bounds(dx as int * SCALE as int, m as int, m as int * SCALE as int);
                lemma_tdiv_bounds(dy as int * SCALE as int, m as int, m as int * SCALE as int);
                lemma_div_multiples_vanish(SCALE as int, m as int);
            }
            let vx = div_trunc(dx * SCALE, m);
            let vy = div_trunc(dy * SCALE, m);
            proof {
                lemma_unit_component_nonzero(dx as int, m as int);
                lemma_unit_component_nonzero(dy as int, m as int);
            }
            return Vec2 { x: vx, y: vy };
        }
        tries = tries + 1;
    }
    Vec2 { x: SCALE, y: 0 }
}

/// Division facts for rescaling one annulus coordinate to the circle:
/// `tdiv(d * SCALE, m)` keeps the sign of `d`, lands within one unit, and its
/// magnitude `w` satisfies the Euclidean bracket `m * w <= |d| * SCALE < m * w + m`.
proof fn lemma_rescale_bounds(d: int, m: int)
    requires
        1 <= m,
        -m <= d <= m,
    ensures
        -65536 <= tdiv(d * 65536, m) <= 65536,
        d >= 0 ==> tdiv(d * 65536, m) >= 0,
        d < 0 ==> tdiv(d * 65536, m) <= 0,
        d >= 0 ==> m * tdiv(d * 65536, m) <= d * 65536 && d * 65536 < m * tdiv(d * 65536, m)
            + m,
        d < 0 ==> m * (-tdiv(d * 65536, m)) <= (-d) * 65536 && (-d) * 65536 < m * (-tdiv(
            d * 65536,
            m,
        )) + m,
{
    let a = if d >= 0 {
        d
    } else {
        -d
    };
    let q = (a * 65536) / m;
    lemma_div_pos_is_pos(a * 65536, m);
    lemma_fundamental_div_mod(a * 65536, m);
    lemma_mod_bound(a * 65536, m);
    lemma_mul_inequality(a, m, 65536);
    lemma_div_is_ordered(a * 65536, m * 65536, m);
    lemma_div_multiples_vanish(65536, m);
    if d >= 0 {
        assert(tdiv(d * 65536, m) == q);
    } else {
        assert(-(d * 65536) == a * 65536);
        assert(tdiv(d * 65536, m) == -q);
    }
}

/// The rescaled velocity has unit speed up to fixed-point rounding: its
/// squared magnitude lies within a few `SCALE` of `SCALE * SCALE`.
proof fn lemma_unit_speed(dx: int, dy: int, m: int)
    requires
        32768 <= m <= 65536,
        -m <= dx <= m,
        -m <= dy <= m,
        m * m <= dx * dx + dy * dy,
        dx * dx + dy * dy <= m * m + 2 * m,
    ensures
        ({
            let vx = tdiv(dx * 65536, m);
            let vy = tdiv(dy * 65536, m);
            65536 * 65536 - 4 * 65536 - 1 <= vx * vx + vy * vy <= 65536 * 65536 + 4 * 65536
        }),
{
    lemma_rescale_bounds(dx, m);
    lemma_rescale_bounds(dy, m);
    let vx = tdiv(dx * 65536, m);
    let vy = tdiv(dy * 65536, m);
    let wx = if vx >= 0 {
        vx
    } else {
        -vx
    };
    let wy = if vy >= 0 {
        vy
    } else {
        -vy
    };
    let ax = if dx >= 0 {
        dx
    } else {
        -dx
    };
    let ay = if dy >= 0 {
        dy
    } else {
        -dy
    };
    assert(m * wx <= ax * 65536 && ax * 65536 < m * wx + m);
    assert(m * wy <= ay * 65536 && ay * 65536 < m * wy + m);
    assert(wx * wx == vx * vx && ax * ax == dx * dx) by (nonlinear_arith)
        requires
            wx == vx || wx == -vx,
            ax == dx || ax == -dx,
    ;
    assert(wy * wy == vy * vy && ay * ay == dy * dy) by (nonlinear_arith)
        requires
            wy == vy || wy == -vy,
            ay == dy || ay == -dy,
    ;
    assert((m * m) * (wx * wx) <= (ax * ax) * (65536 * 65536)) by (nonlinear_arith)
        requires
            0 <= m * wx,
            m * wx <= ax * 65536,
    ;
    assert((m * m) * (wy * wy) <= (ay * ay) * (65536 * 65536)) by (nonlinear_arith)
        requires
            0 <= m * wy,
            m * wy <= ay * 65536,
    ;
    assert(wx * wx + wy * wy <= 65536 * 65536 + 4 * 65536) by (nonlinear_arith)
        requires
            (m * m) * (wx * wx) <= (ax * ax) * (65536 * 65536),
            (m * m) * (wy * wy) <= (ay * ay) * (65536 * 65536),
            ax * ax + ay * ay <= m * m + 2 * m,
            32768 <= m <= 65536,
    ;
    assert((ax * ax) * (65536 * 65536) < (m * m) * ((wx + 1) * (wx + 1))) by (nonlinear_arith)
        requires
            0 <= ax * 65536,
            ax * 65536 < m * wx + m,
    ;
    assert((ay * ay) * (65536 * 65536) < (m * m) * ((wy + 1) * (wy + 1))) by (nonlinear_arith)
        requires
            0 <= ay * 65536,
            ay * 65536 < m * wy + m,
    ;
    assert(65536 * 65536 - 4 * 65536 - 1 <= wx * wx + wy * wy) by (nonlinear_arith)
        requires
            (ax * ax) * (65536 * 65536) < (m * m) * ((wx + 1) * (wx + 1)),
            (ay * ay) * (65536 * 65536) < (m * m) * ((wy + 1) * (wy + 1)),
            m * m <= ax * ax + ay * ay,
            0 <= wx <= 65536,
            0 <= wy <= 65536,
            32768 <= m,
    ;
}

/// Rescaling a nonzero disk coordinate to the circle keeps it nonzero.
proof fn lemma_unit_component_nonzero(d: int, m: int)
    requires
        1 <= m <= SCALE,
    ensures
        d != 0 ==> tdiv(d * (SCALE as int), m) != 0,
{
    let sc = SCALE as int;
    if d != 0 {
        if d > 0 {
            assert(d * sc >= m) by (nonlinear_arith)
                requires
                    d >= 1,
                    1 <= m <= sc,
                    sc == 65536,
            ;
            lemma_div_multiples_vanish(1, m);
            lemma_div_is_ordered(m, d * sc, m);
        } else {
            assert(-(d * sc) >= m) by (nonlinear_arith)
                requires
                    d <= -1,
                    1 <= m <= sc,
                    sc == 65536,
            ;
            lemma_div_multiples_vanish(1, m);
            lemma_div_is_ordered(m, -(d * sc), m);
        }
    }
}

impl Colony {
    /// A colony of `count` agents spawned at random: an independently uniform
    /// position in `[0, limit)` per axis, and a uniformly random heading at
    /// unit speed up to fixed-point rounding (`near_unit_speed`). The
    /// randomness source is outside the contract (any uniform generator
    /// serves): ranges and speed are promised of every outcome, the
    /// distribution of none.
    pub fn new_random(count: usize, limit: i64) -> (c: Colony)
        requires
            1 <= limit <= COORD_BOUND,
        ensures
            c.agents@.len() == count,
            forall|i: int|
                0 <= i < count ==> {
                    &&& 0 <= (#[trigger] c.agents@[i]).pos.x < limit
                    &&& 0 <= c.agents@[i].pos.y < limit
                    &&& -SCALE <= c.agents@[i].vel.x <= SCALE
                    &&& -SCALE <= c.agents@[i].vel.y <= SCALE
                    &&& near_unit_speed(c.agents@[i].vel)
                    &&& !(c.agents@[i].vel.x == 0 && c.agents@[i].vel.y == 0)
                },
    {
        let mut agents: Vec<Slime> = Vec::new();
        let mut i: usize = 0;
        while i < count
            invariant
                i <= count,
                1 <= limit <= COORD_BOUND,
                agents@.len() == i,
                forall|k: int|
                    0 <= k < i ==> {
                        &&& 0 <= (#[trigger] agents@[k]).pos.x < limit
                        &&& 0 <= agents@[k].pos.y < limit
                        &&& -SCALE <= agents@[k].vel.x <= SCALE
                        &&& -SCALE <= agents@[k].vel.y <= SCALE
                        &&& near_unit_speed(agents@[k].vel)
                        &&& !(agents@[k].vel.x == 0 && agents@[k].vel.y == 0)
                    },
            decreases count - i,
        {
            let px = rand_in_range(0, limit);
            let py = rand_in_range(0, limit);
            let vel = random_unit_vel();
            agents.push(Slime { pos: Vec2 { x: px, y: py }, vel });
            i = i + 1;
        }
        Colony { agents }
    }
}

impl PartialEq for Colony {
    fn eq(&self, other: &Colony) -> (r: bool) {
        if self.agents.len() != other.agents.len() {
            return false;
        }
        let n = self.agents.len();
        let mut i: usize = 0;
        while i < n
            invariant
                i <= n,
                n == self.agents@.len(),
                n == other.agents@.len(),
                forall|k: int| 0 <= k < i ==> self.agents@[k] == other.agents@[k],
            decreases n - i,
        {
            if self.agents[i] != other.agents[i] {
                return false;
            }
            i = i + 1;
        }
        proof {
            assert(self.agents@ =~= other.agents@);
        }
        true
    }
}

impl vstd::std_specs::cmp::PartialEqSpecImpl for Colony {
    open spec fn obeys_eq_spec() -> bool {
        true
    }

    open spec fn eq_spec(&self, other: &Colony) -> bool {
        self.agents@ == other.agents@
    }
}

} // verus!
