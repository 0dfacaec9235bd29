use crate::element::gravity_of;
use crate::grid::{cell_index, lemma_cell_index, lemma_cell_of_index, Grid};
use crate::object::{may_become, Object};
use crate::world::World;
use vstd::prelude::*;

verus! {

/// Gravity moves a particle one cell down per this many milliseconds.
pub const GRAVITY_PERIOD: u64 = 4;

/// Turns elapsed milliseconds into whole cells of downward bias, carrying
/// the leftover milliseconds into the next frame so that the total descent
/// does not depend on how time is split into frames.
pub struct GravityClock {
    carry: u32,
}

/// The downward bias of a frame that lasts `dt` ms, after `carry` ms left over.
pub open spec fn gravity_bias(carry: int, dt: int) -> int {
    (carry + dt) / GRAVITY_PERIOD as int
}

/// The milliseconds left over after such a frame.
pub open spec fn gravity_carry(carry: int, dt: int) -> int {
    (carry + dt) % GRAVITY_PERIOD as int
}

/// The total downward bias of a run of frames lasting `dts` ms each, the
/// first starting with `carry` ms left over.
pub open spec fn total_descent(carry: int, dts: Seq<nat>) -> int
    decreases dts.len(),
{
    if dts.len() == 0 {
        0
    } else {
        gravity_bias(carry, dts[0] as int) + total_descent(gravity_carry(carry, dts[0] as int), dts.drop_first())
    }
}

/// The total duration of a run of frames.
pub open spec fn total_time(dts: Seq<nat>) -> int
    decreases dts.len(),
{
    if dts.len() == 0 {
        0
    } else {
        dts[0] + total_time(dts.drop_first())
    }
}

/// Over a run of frames, gravity moves a particle down by the whole periods
/// in the total time elapsed (with the leftover it started from).
pub proof fn lemma_total_descent(carry: int, dts: Seq<nat>)
    requires
        0 <= carry < GRAVITY_PERIOD,
    ensures
        total_descent(carry, dts) == (carry + total_time(dts)) / GRAVITY_PERIOD as int,
    decreases dts.len(),
{
    if dts.len() > 0 {
        let p = GRAVITY_PERIOD as int;
        let s = carry + dts[0];
        let rest = dts.drop_first();
        lemma_total_descent(s % p, rest);
        vstd::arithmetic::div_mod::lemma_fundamental_div_mod(s, p);
        vstd::arithmetic::div_mod::lemma_hoist_over_denominator(s % p + total_time(rest), s / p, p as nat);
        assert(s / p * p == p * (s / p)) by (nonlinear_arith);
    }
}

/// Gravity does not depend on frame rate: two runs of frames that last as
/// long in total move a particle down by the same number of cells.
pub proof fn lemma_descent_independent_of_frames(carry: int, a: Seq<nat>, b: Seq<nat>)
    requires
        0 <= carry < GRAVITY_PERIOD,
        total_time(a) == total_time(b),
    ensures
        total_descent(carry, a) == total_descent(carry, b),
{
    lemma_total_descent(carry, a);
    lemma_total_descent(carry, b);
}

impl GravityClock {
    pub closed spec fn carry(&self) -> int {
        self.carry as int
    }

    pub closed spec fn wf(&self) -> bool {
        self.carry < GRAVITY_PERIOD
    }

    pub fn new() -> (c: GravityClock)
        ensures
            c.wf(),
            c.carry() == 0,
    {
        GravityClock { carry: 0 }
    }

    /// Advances the clock by a frame of `dt` ms; returns that frame's bias.
    pub fn advance(&mut self, dt: u32) -> (bias: u64)
        requires
            old(self).wf(),
        ensures
            final(self).wf(),
            bias == gravity_bias(old(self).carry(), dt as int),
            final(self).carry() == gravity_carry(old(self).carry(), dt as int),
            bias <= u32::MAX,
    {
        let total: u64 = self.carry as u64 + dt as u64;
        self.carry = (total % GRAVITY_PERIOD) as u32;
        total / GRAVITY_PERIOD
    }
}

/// What became of one particle during a frame.
#[derive(Clone, Copy, Debug, PartialEq, Eq, Structural)]
pub enum Fate {
    Removed,
    Stayed,
    MovedTo(usize, usize),
}

/// The record of one particle's turn in a frame: where it stood, what its
/// behavior made of it, the displacement it attempted and its fate.
#[derive(Clone, Copy, Debug, PartialEq, Eq, Structural)]
pub struct Movement {
    pub x: usize,
    pub y: usize,
    pub object: Object,
    pub dx: i64,
    pub dy: i64,
    pub fate: Fate,
}

/// The vertical displacement of `q`: its own velocity plus, under gravity,
/// the frame's bias.
pub open spec fn displacement_y(q: Object, bias: int) -> int {
    q.velocity.y + if gravity_of(q.material) {
        bias
    } else {
        0
    }
}

/// The fate of particle `q` (already simulated) standing at (x, y) of a grid
/// of `w` by `h` cells holding `c`: removed if marked; kept on the last
/// column or row; removed if its target lies off the grid; kept if the target
/// is occupied; moved to the target otherwise.
pub open spec fn fate_of(c: Seq<Option<Object>>, w: int, h: int, x: int, y: int, q: Object, bias: int) -> Fate {
    let tx = x + q.velocity.x;
    let ty = y + displacement_y(q, bias);
    if q.marked_for_removal {
        Fate::Removed
    } else if x + 1 == w || y + 1 == h {
        Fate::Stayed
    } else if !(0 <= tx < w && 0 <= ty < h) {
        Fate::Removed
    } else if c[cell_index(tx, ty, h)] is Some {
        Fate::Stayed
    } else {
        Fate::MovedTo(tx as usize, ty as usize)
    }
}

/// The grid contents after particle `q` at storage position `k` meets `fate`.
pub open spec fn after_fate(c: Seq<Option<Object>>, h: int, k: int, q: Object, fate: Fate) -> Seq<Option<Object>> {
    match fate {
        Fate::Removed => c.update(k, None),
        Fate::Stayed => c.update(k, Some(q)),
        Fate::MovedTo(a, b) => c.update(k, None).update(cell_index(a as int, b as int, h), Some(q)),
    }
}

/// Where a particle that was not removed ends the frame (-1 if removed).
pub open spec fn landing(m: Movement, h: int) -> int {
    match m.fate {
        Fate::Removed => -1,
        Fate::Stayed => cell_index(m.x as int, m.y as int, h),
        Fate::MovedTo(a, b) => cell_index(a as int, b as int, h),
    }
}

/// The storage position a movement started from.
pub open spec fn source(m: Movement, h: int) -> int {
    cell_index(m.x as int, m.y as int, h)
}

/// `m` records a turn taken by the rules of movement on a grid of `w` by `h`
/// cells under a frame bias of `bias`.
pub open spec fn follows_rules(m: Movement, w: int, h: int, bias: int) -> bool {
    let q = m.object;
    let tx = m.x + m.dx;
    let ty = m.y + m.dy;
    let edge = m.x + 1 == w || m.y + 1 == h;
    &&& m.x < w && m.y < h
    &&& m.dx == q.velocity.x
    &&& m.dy == displacement_y(q, bias)
    &&& q.marked_for_removal ==> m.fate is Removed
    &&& !q.marked_for_removal && edge ==> m.fate is Stayed
    &&& !q.marked_for_removal && !edge && !(0 <= tx < w && 0 <= ty < h) ==> m.fate is Removed
    &&& !q.marked_for_removal && !edge && (0 <= tx < w && 0 <= ty < h) ==> (m.fate is Stayed || m.fate
        == Fate::MovedTo(tx as usize, ty as usize))
}

/// Resolves the movement of particle `q`, the simulated form of the one at
/// (x, y), and marks in `moved` the cell where it ends. A particle only
/// ever moves into an empty cell, and is removed rather than moved off the
/// grid.
pub fn resolve(g: &mut Grid, moved: &mut Vec<bool>, x: usize, y: usize, q: Object, bias: u64) -> (m: Movement)
    requires
        old(g).wf(),
        old(g).in_bounds(x as int, y as int),
        old(g).at(x as int, y as int) is Some,
        old(moved)@.len() == old(g).contents().len(),
        bias <= u32::MAX,
    ensures
        final(g).wf(),
        final(g).width() == old(g).width(),
        final(g).height() == old(g).height(),
        m.x == x && m.y == y && m.object == q,
        m.dx == q.velocity.x,
        m.dy == displacement_y(q, bias as int),
        m.fate == fate_of(old(g).contents(), old(g).width() as int, old(g).height() as int, x as int, y as int, q, bias as int),
        final(g).contents() == after_fate(old(g).contents(), old(g).height() as int, cell_index(x as int, y as int, old(g).height() as int), q, m.fate),
        m.fate is Removed ==> final(moved)@ == old(moved)@,
        m.fate is Stayed ==> final(moved)@ == old(moved)@.update(cell_index(x as int, y as int, old(g).height() as int), true),
        m.fate matches Fate::MovedTo(a, b) ==> old(g).in_bounds(a as int, b as int) && final(moved)@ == old(moved)@.update(cell_index(a as int, b as int, old(g).height() as int), true),
{
    let k = g.index_of(x, y);
    let dx: i64 = q.velocity.x as i64;
    let dy: i64 = if q.material.has_gravity() {
        q.velocity.y as i64 + bias as i64
    } else {
        q.velocity.y as i64
    };
    let fate = if q.marked_for_removal {
        Fate::Removed
    } else if x == g.columns() - 1 || y == g.rows() - 1 {
        Fate::Stayed
    } else {
        let tx: i128 = x as i128 + dx as i128;
        let ty: i128 = y as i128 + dy as i128;
        if tx < 0 || ty < 0 || tx >= g.columns() as i128 || ty >= g.rows() as i128 {
            Fate::Removed
        } else {
            let t = g.index_of(tx as usize, ty as usize);
            if g.get_at(t).is_some() {
                Fate::Stayed
            } else {
                Fate::MovedTo(tx as usize, ty as usize)
            }
        }
    };
    match fate {
        Fate::Removed => {
            g.set_at(k, None);
        },
        Fate::Stayed => {
            g.set_at(k, Some(q));
            moved.set(k, true);
        },
        Fate::MovedTo(a, b) => {
            let t = g.index_of(a, b);
            g.set_at(k, None);
            g.set_at(t, Some(q));
            moved.set(t, true);
        },
    }
    Movement { x, y, object: q, dx, dy, fate }
}

} // verus!

verus! {

impl World {
    /// Runs one frame of the simulation. Cells are visited column by column,
    /// top to bottom within a column. Each particle present when the frame
    /// starts takes exactly one turn: its material's behavior runs, then it is
    /// removed, kept or moved into an empty cell. A per-frame record of the
    /// cells where particles ended keeps a particle that moved ahead of the
    /// scan from taking a second turn. Returns one record per turn, in scan
    /// order.
    pub fn simulate(&mut self) -> (log: Vec<Movement>)
        requires
            old(self).wf(),
        ensures
            final(self).wf(),
            final(self).particles.width() == old(self).particles.width(),
            final(self).particles.height() == old(self).particles.height(),
            final(self).last_dot == old(self).last_dot,
            final(self).delta_time == old(self).delta_time,
            final(self).clock.carry() == gravity_carry(old(self).clock.carry(), old(self).delta_time as int),
            // turns are taken in scan order, so no particle takes two
            forall|a: int, b: int|
                0 <= a < b < log@.len() ==> source(#[trigger] log@[a], old(self).particles.height() as int)
                    < source(#[trigger] log@[b], old(self).particles.height() as int),
            // every particle present at the start takes a turn, and only those
            forall|c: int|
                0 <= c < old(self).particles.contents().len() ==> (
                #[trigger] old(self).particles.contents()[c] is Some <==> exists|t: int|
                    0 <= t < log@.len() && source(#[trigger] log@[t], old(self).particles.height() as int) == c),
            forall|t: int|
                0 <= t < log@.len() ==> {
                    let m = #[trigger] log@[t];
                    let h = old(self).particles.height() as int;
                    &&& follows_rules(
                        m,
                        old(self).particles.width() as int,
                        h,
                        gravity_bias(old(self).clock.carry(), old(self).delta_time as int),
                    )
                    &&& old(self).particles.contents()[source(m, h)] is Some
                    &&& may_become(old(self).particles.contents()[source(m, h)].unwrap(), m.object)
                },
            // the particles that remain stand where their turns left them, one per cell
            forall|t: int|
                0 <= t < log@.len() && landing(#[trigger] log@[t], old(self).particles.height() as int) >= 0
                    ==> final(self).particles.contents()[landing(log@[t], old(self).particles.height() as int)]
                    == Some(log@[t].object),
            forall|a: int, b: int|
                0 <= a < log@.len() && 0 <= b < log@.len() && a != b && landing(
                    #[trigger] log@[a],
                    old(self).particles.height() as int,
                ) >= 0 ==> landing(log@[a], old(self).particles.height() as int) != landing(
                    #[trigger] log@[b],
                    old(self).particles.height() as int,
                ),
            forall|c: int|
                0 <= c < final(self).particles.contents().len() && (
                #[trigger] final(self).particles.contents()[c]) is Some ==> exists|t: int|
                    0 <= t < log@.len() && landing(#[trigger] log@[t], old(self).particles.height() as int)
                        == c,
    {
        let ghost o = self.particles.contents();
        let ghost w = self.particles.width() as int;
        let ghost h = self.particles.height() as int;
        let n = self.particles.size();
        let rows = self.particles.rows();
        let bias = self.clock.advance(self.delta_time);
        let mut moved: Vec<bool> = Vec::new();
        let mut i: usize = 0;
        while i < n
            invariant
                i <= n,
                moved@.len() == i,
                forall|c: int| 0 <= c < i ==> !(#[trigger] moved@[c]),
            decreases n - i,
        {
            moved.push(false);
            i = i + 1;
        }
        let mut log: Vec<Movement> = Vec::new();
        let mut k: usize = 0;
        while k < n
            invariant
                self.wf(),
                self.particles.width() == w,
                self.particles.height() == h,
                rows == h,
                n == w * h,
                n == o.len(),
                self.particles.contents().len() == n,
                moved@.len() == n,
                k <= n,
                self.last_dot == old(self).last_dot,
                self.delta_time == old(self).delta_time,
                self.clock.carry() == gravity_carry(old(self).clock.carry(), old(self).delta_time as int),
                bias == gravity_bias(old(self).clock.carry(), old(self).delta_time as int),
                bias <= u32::MAX,
                forall|c: int|
                    k <= c < n && !moved@[c] ==> #[trigger] self.particles.contents()[c] == o[c],
                forall|c: int| k <= c < n && #[trigger] moved@[c] ==> o[c] is None,
                forall|t: int|
                    0 <= t < log@.len() ==> {
                        let m = #[trigger] log@[t];
                        &&& 0 <= source(m, h) < k
                        &&& follows_rules(m, w, h, bias as int)
                        &&& o[source(m, h)] is Some
                        &&& may_become(o[source(m, h)].unwrap(), m.object)
                    },
                forall|a: int, b: int|
                    0 <= a < b < log@.len() ==> source(#[trigger] log@[a], h) < source(#[trigger] log@[b], h),
                forall|c: int|
                    0 <= c < k ==> (#[trigger] o[c] is Some <==> exists|t: int|
                        0 <= t < log@.len() && source(#[trigger] log@[t], h) == c),
                forall|t: int|
                    0 <= t < log@.len() && landing(#[trigger] log@[t], h) >= 0 ==> {
                        &&& landing(log@[t], h) < n
                        &&& self.particles.contents()[landing(log@[t], h)] == Some(log@[t].object)
                        &&& moved@[landing(log@[t], h)]
                    },
                forall|a: int, b: int|
                    0 <= a < log@.len() && 0 <= b < log@.len() && a != b && landing(#[trigger] log@[a], h) >= 0
                        ==> landing(log@[a], h) != landing(#[trigger] log@[b], h),
                forall|c: int|
                    0 <= c < n && (#[trigger] self.particles.contents()[c]) is Some && (c < k || moved@[c])
                        ==> exists|t: int| 0 <= t < log@.len() && landing(#[trigger] log@[t], h) == c,
            decreases n - k,
        {
            proof {
                lemma_cell_of_index(k as int, w, h);
            }
            let x = k / rows;
            let y = k % rows;
            let cell = self.particles.get_at(k);
            if let Some(p) = cell {
                if !moved[k] {
                    let mut q = p;
                    q.simulate();
                    let ghost g0 = self.particles.contents();
                    let ghost mv0 = moved@;
                    let ghost log0 = log@;
                    let m = resolve(&mut self.particles, &mut moved, x, y, q, bias);
                    log.push(m);
                    proof {
                        let kk = k as int;
                        self.particles.lemma_dims();
                        let g1 = self.particles.contents();
                        let mv1 = moved@;
                        let nt = log0.len() as int;
                        assert(log@[nt] == m);
                        assert(forall|t: int| 0 <= t < nt ==> log@[t] == log0[t]);
                        assert(o[kk] == Some(p));
                        assert(source(m, h) == kk);
                        let ln = landing(m, h);
                        // what changed: at most the source cell and the landing cell
                        assert(g1.len() == n && mv1.len() == n) by {
                            match m.fate {
                                Fate::MovedTo(a, b) => {
                                    lemma_cell_index(a as int, b as int, w, h);
                                },
                                _ => {},
                            }
                        }
                        assert(ln >= 0 ==> 0 <= ln < n && g0[ln] is None || ln == kk) by {
                            match m.fate {
                                Fate::MovedTo(a, b) => {
                                    let tx = x as int + q.velocity.x;
                                    let ty = y as int + displacement_y(q, bias as int);
                                    assert(0 <= tx < w && 0 <= ty < h);
                                    assert(m.fate == Fate::MovedTo(tx as usize, ty as usize));
                                    assert((tx as usize) as int == tx);
                                    assert(a as int == tx && b as int == ty);
                                    lemma_cell_index(a as int, b as int, w, h);
                                },
                                _ => {},
                            }
                        }
                        assert(forall|c: int| 0 <= c < n && c != kk && c != ln ==> g1[c] == g0[c] && mv1[c] == mv0[c]) by {
                            match m.fate {
                                Fate::MovedTo(a, b) => {
                                    lemma_cell_index(a as int, b as int, w, h);
                                },
                                _ => {},
                            }
                        }
                        assert(ln >= 0 ==> g1[ln] == Some(q) && mv1[ln]);
                        assert(ln != kk ==> g1[kk] is None && mv1[kk] == mv0[kk]);
                        assert(forall|t: int| 0 <= t < nt && landing(#[trigger] log0[t], h) >= 0 ==> landing(log0[t], h) != kk && landing(log0[t], h) != ln);
                        assert forall|c: int| k + 1 <= c < n && !mv1[c] implies #[trigger] g1[c] == o[c] by {
                            assert(c != kk && c != ln);
                        }
                        assert forall|c: int| k + 1 <= c < n && #[trigger] mv1[c] implies o[c] is None by {
                            if c == ln {
                                if mv0[c] {
                                } else {
                                    assert(g0[c] == o[c]);
                                }
                            }
                        }
                        assert forall|t: int| 0 <= t < log@.len() && landing(#[trigger] log@[t], h) >= 0 implies {
                            &&& landing(log@[t], h) < n
                            &&& g1[landing(log@[t], h)] == Some(log@[t].object)
                            &&& mv1[landing(log@[t], h)]
                        } by {
                            if t < nt {
                                assert(log@[t] == log0[t]);
                            }
                        }
                        assert forall|c: int| 0 <= c < n && (#[trigger] g1[c]) is Some && (c < k + 1 || mv1[c]) implies exists|t: int| 0 <= t < log@.len() && landing(#[trigger] log@[t], h) == c by {
                            if c == ln {
                                assert(landing(log@[nt], h) == c);
                            } else {
                                assert(c != kk);
                                let t = choose|t: int| 0 <= t < log0.len() && landing(#[trigger] log0[t], h) == c;
                                assert(log@[t] == log0[t]);
                            }
                        }
                        assert forall|a: int, b: int| 0 <= a < log@.len() && 0 <= b < log@.len() && a != b && landing(#[trigger] log@[a], h) >= 0 implies landing(log@[a], h) != landing(#[trigger] log@[b], h) by {
                            if a < nt && b < nt {
                                assert(log@[a] == log0[a] && log@[b] == log0[b]);
                            } else if a < nt {
                                assert(log@[a] == log0[a]);
                            } else if b < nt {
                                assert(log@[b] == log0[b]);
                            }
                        }
                    }
                }
            }
            k = k + 1;
        }
        log
    }
}

} // verus!
