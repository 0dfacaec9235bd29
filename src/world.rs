use crate::element::Material;
use crate::grid::{cell_index, lemma_cell_index, lemma_cell_of_index, Grid};
use crate::object::{is_fresh, Object};
use crate::step::GravityClock;
use crate::stroke::{stroke_length, stroke_point, stroke_points};
use vstd::prelude::*;

verus! {

/// The simulated world: the grid of particles, the frame timing that
/// gravity is scaled by, and the state of the current brush stroke.
pub struct World {
    pub particles: Grid,
    /// Milliseconds elapsed during the previous frame.
    pub delta_time: u32,
    /// The previous pointer sample of the current stroke.
    pub last_dot: (i32, i32),
    pub clock: GravityClock,
}

/// Cell content `c` is what painting with `m` leaves: a fresh particle of
/// the material, or nothing when erasing.
pub open spec fn painted(c: Option<Object>, m: Option<Material>) -> bool {
    match m {
        Some(m) => c is Some && is_fresh(c.unwrap(), m),
        None => c is None,
    }
}

/// Cell (cx, cy) lies in the `size` by `size` square whose top-left cell is
/// (x, y).
pub open spec fn in_square(cx: int, cy: int, x: int, y: int, size: int) -> bool {
    x <= cx < x + size && y <= cy < y + size
}

/// Cell (cx, cy) lies under the brush of size `size` at one of the first
/// `upto` steps of the stroke from (x1, y1) to (x2, y2).
pub open spec fn stroke_covers(x1: int, y1: int, x2: int, y2: int, size: int, cx: int, cy: int, upto: int) -> bool {
    exists|t: int|
        0 <= t < upto && in_square(
            cx,
            cy,
            (#[trigger] stroke_point(x1, y1, x2, y2, t)).0,
            stroke_point(x1, y1, x2, y2, t).1,
            size,
        )
}

/// Cell (cx, cy) of the square has been painted once the square's columns
/// before `i`, and the first `j` cells of column `i`, are done.
pub open spec fn square_done(cx: int, cy: int, x: int, y: int, size: int, i: int, j: int) -> bool {
    in_square(cx, cy, x, y, size) && (cx < x + i || (cx == x + i && cy < y + j))
}

/// The position, in what `place_square` returns, of the placement at
/// offset (i, j) of the square.
pub open spec fn square_slot(i: int, j: int, size: int) -> int {
    i * size + j
}

proof fn lemma_square_slot(i: int, j: int, size: int)
    requires
        0 <= i < size,
        0 <= j < size,
    ensures
        0 <= square_slot(i, j, size) < size * size,
        i * size + size <= size * size,
{
    assert(0 <= i * size + j < size * size) by (nonlinear_arith)
        requires 0 <= i < size, 0 <= j < size;
    assert(i * size + size <= size * size) by (nonlinear_arith)
        requires 0 <= i < size;
}

proof fn lemma_slot_of(s: int, size: int)
    requires
        0 <= s < size * size,
        0 < size,
    ensures
        0 <= s / size < size,
        0 <= s % size < size,
        square_slot(s / size, s % size, size) == s,
{
    lemma_cell_of_index(s, size, size);
}

proof fn lemma_square_slot_order(a: int, b: int, i: int, j: int, size: int)
    requires
        0 <= a <= i,
        0 <= b < size,
        0 <= j < size,
        a < i || b <= j,
    ensures
        0 <= square_slot(a, b, size) <= square_slot(i, j, size),
        square_slot(a, b, size) == square_slot(i, j, size) <==> (a == i && b == j),
{
    if a < i {
        assert(a * size + b < i * size) by (nonlinear_arith)
            requires 0 <= a < i, 0 <= b < size;
        assert(0 <= a * size) by (nonlinear_arith)
            requires 0 <= a, 0 <= size;
    } else {
        assert(0 <= a * size) by (nonlinear_arith)
            requires 0 <= a, 0 <= size;
    }
}

impl World {
    pub open spec fn wf(&self) -> bool {
        self.particles.wf() && self.clock.wf()
    }

    /// The world's state apart from its particles is that of `other`.
    pub open spec fn same_frame_state(&self, other: &World) -> bool {
        &&& self.wf()
        &&& self.particles.width() == other.particles.width()
        &&& self.particles.height() == other.particles.height()
        &&& self.delta_time == other.delta_time
        &&& self.clock == other.clock
    }

    /// An empty world of `rows` by `columns` cells.
    pub fn new(rows: usize, columns: usize) -> (w: World)
        requires
            rows * columns <= usize::MAX,
        ensures
            w.wf(),
            w.particles.width() == columns,
            w.particles.height() == rows,
            w.particles.contents().len() == rows * columns,
            w.particles.is_empty(),
            w.delta_time == 0,
            w.last_dot == (0i32, 0i32),
            w.clock.carry() == 0,
    {
        proof {
            assert(columns * rows == rows * columns) by (nonlinear_arith);
        }
        World { particles: Grid::new(columns, rows), delta_time: 0, last_dot: (0, 0), clock: GravityClock::new() }
    }

    /// Paints cell (x, y) with a new particle of `material` (overwriting
    /// what was there), or empties it when `material` is `None`. A cell
    /// outside the grid is left alone. Returns the particle placed, if any.
    pub fn place(&mut self, x: i64, y: i64, material: Option<Material>) -> (r: Option<Object>)
        requires
            old(self).wf(),
        ensures
            final(self).same_frame_state(old(self)),
            final(self).last_dot == old(self).last_dot,
            final(self).particles.contents().len() == old(self).particles.contents().len(),
            old(self).particles.in_bounds(x as int, y as int) ==> {
                &&& final(self).particles.contents() == old(self).particles.contents().update(
                    cell_index(x as int, y as int, old(self).particles.height() as int),
                    r,
                )
                &&& painted(r, material)
            },
            !old(self).particles.in_bounds(x as int, y as int) ==> r is None
                && final(self).particles.contents() == old(self).particles.contents(),
            // erasing an empty cell changes nothing
            material is None && old(self).particles.get_spec(x as int, y as int) is None ==> r is None
                && final(self).particles.contents() == old(self).particles.contents(),
    {
        let v = match material {
            Some(m) => Some(Object::new(m)),
            None => None,
        };
        if x < 0 || y < 0 || x as u64 >= self.particles.columns() as u64 || y as u64 >= self.particles.rows() as u64 {
            return None;
        }
        proof {
            self.particles.lemma_dims();
            lemma_cell_index(x as int, y as int, self.particles.width() as int, self.particles.height() as int);
            if material is None && self.particles.get_spec(x as int, y as int) is None {
                let k = cell_index(x as int, y as int, self.particles.height() as int);
                assert(self.particles.in_bounds(x as int, y as int));
                assert(self.particles.contents()[k] is None);
                assert(self.particles.contents().update(
                    cell_index(x as int, y as int, self.particles.height() as int),
                    None,
                ) =~= self.particles.contents());
            }
        }
        self.particles.set(x, y, v);
        v
    }

    /// Places `material` (or erases, for `None`) on every cell of the `size`
    /// by `size` square whose top-left cell is (x, y). Returns, row of the
    /// square by row, what each placement gave.
    pub fn place_square(&mut self, x: i32, y: i32, size: i32, material: Option<Material>) -> (r: Vec<
        Option<Object>,
    >)
        requires
            old(self).wf(),
        ensures
            final(self).same_frame_state(old(self)),
            final(self).last_dot == old(self).last_dot,
            final(self).particles.contents().len() == old(self).particles.contents().len(),
            forall|k: int|
                0 <= k < old(self).particles.contents().len() ==> {
                    let h = old(self).particles.height() as int;
                    if in_square(k / h, k % h, x as int, y as int, size as int) {
                        painted(#[trigger] final(self).particles.contents()[k], material)
                    } else {
                        final(self).particles.contents()[k] == old(self).particles.contents()[k]
                    }
                },
            r@.len() == if size > 0 {
                size * size
            } else {
                0
            },
            forall|i: int, j: int|
                0 <= i < size && 0 <= j < size ==> {
                    &&& (#[trigger] r@[square_slot(i, j, size as int)] is Some <==> (material is Some
                        && old(self).particles.in_bounds(x + i, y + j)))
                    &&& r@[square_slot(i, j, size as int)] is Some ==> painted(
                        r@[square_slot(i, j, size as int)],
                        material,
                    )
                },
    {
        let ghost h = self.particles.height() as int;
        let ghost w = self.particles.width() as int;
        let ghost o = self.particles.contents();
        proof {
            self.particles.lemma_dims();
        }
        let mut placed: Vec<Option<Object>> = Vec::new();
        let mut i: i32 = 0;
        while i < size
            invariant
                self.same_frame_state(old(self)),
                self.last_dot == old(self).last_dot,
                self.particles.height() == h,
                self.particles.width() == w,
                self.particles.contents().len() == o.len(),
                o.len() == w * h,
                o == old(self).particles.contents(),
                0 <= i,
                size <= 0 ==> i == 0,
                size > 0 ==> i <= size,
                placed@.len() == i * size,
                forall|k: int|
                    0 <= k < o.len() ==> if square_done(k / h, k % h, x as int, y as int, size as int, i as int, 0) {
                        painted(#[trigger] self.particles.contents()[k], material)
                    } else {
                        self.particles.contents()[k] == o[k]
                    },
                forall|a: int, b: int|
                    0 <= a < i && 0 <= b < size ==> {
                        &&& (#[trigger] placed@[square_slot(a, b, size as int)] is Some <==> (material is Some
                            && old(self).particles.in_bounds(x + a, y + b)))
                        &&& placed@[square_slot(a, b, size as int)] is Some ==> painted(
                            placed@[square_slot(a, b, size as int)],
                            material,
                        )
                    },
            decreases size - i,
        {
            let mut j: i32 = 0;
            while j < size
                invariant
                    self.same_frame_state(old(self)),
                    self.last_dot == old(self).last_dot,
                    self.particles.height() == h,
                    self.particles.width() == w,
                    self.particles.contents().len() == o.len(),
                    o.len() == w * h,
                    o == old(self).particles.contents(),
                    0 <= i < size,
                    0 <= j <= size,
                    placed@.len() == i * size + j,
                    forall|k: int|
                        0 <= k < o.len() ==> if square_done(k / h, k % h, x as int, y as int, size as int, i as int, j as int) {
                            painted(#[trigger] self.particles.contents()[k], material)
                        } else {
                            self.particles.contents()[k] == o[k]
                        },
                    forall|a: int, b: int|
                        0 <= a <= i && 0 <= b < size && (a < i || b < j) ==> {
                            &&& (#[trigger] placed@[square_slot(a, b, size as int)] is Some <==> (material is Some
                                && old(self).particles.in_bounds(x + a, y + b)))
                            &&& placed@[square_slot(a, b, size as int)] is Some ==> painted(
                                placed@[square_slot(a, b, size as int)],
                                material,
                            )
                        },
                decreases size - j,
            {
                let cx: i64 = x as i64 + i as i64;
                let cy: i64 = y as i64 + j as i64;
                let p = self.place(cx, cy, material);
                placed.push(p);
                proof {
                    lemma_square_slot(i as int, j as int, size as int);
                    assert forall|k: int| 0 <= k < o.len() implies if square_done(k / h, k % h, x as int, y as int, size as int, i as int, j + 1) {
                        painted(#[trigger] self.particles.contents()[k], material)
                    } else {
                        self.particles.contents()[k] == o[k]
                    } by {
                        assert(h > 0) by (nonlinear_arith)
                            requires 0 <= k < w * h, w >= 0, h >= 0;
                        lemma_cell_of_index(k, w, h);
                        if self.particles.in_bounds(cx as int, cy as int) {
                            lemma_cell_index(cx as int, cy as int, w, h);
                        }
                    }
                    assert forall|a: int, b: int|
                        0 <= a <= i && 0 <= b < size && (a < i || b < j + 1) implies {
                            &&& (#[trigger] placed@[square_slot(a, b, size as int)] is Some <==> (material is Some
                                && old(self).particles.in_bounds(x + a, y + b)))
                            &&& placed@[square_slot(a, b, size as int)] is Some ==> painted(
                                placed@[square_slot(a, b, size as int)],
                                material,
                            )
                        } by {
                        lemma_square_slot_order(a, b, i as int, j as int, size as int);
                    }
                }
                j = j + 1;
            }
            proof {
                assert((i + 1) * size == i * size + size) by (nonlinear_arith);
            }
            i = i + 1;
        }
        proof {
            if size <= 0 {
                assert(i == 0);
            }
        }
        placed
    }

    /// Paints a brush stroke from the previous sample to (xc, yc): a square
    /// of `radius` cells is placed at every step of the line between them,
    /// so the stroke has no gaps however far apart the samples are. The new
    /// sample becomes the previous one. Returns every placement's result,
    /// square by square.
    pub fn draw(&mut self, xc: i32, yc: i32, radius: i32, material: Option<Material>) -> (r: Vec<
        Option<Object>,
    >)
        requires
            old(self).wf(),
        ensures
            final(self).same_frame_state(old(self)),
            final(self).last_dot == (xc, yc),
            final(self).particles.contents().len() == old(self).particles.contents().len(),
            forall|k: int|
                0 <= k < old(self).particles.contents().len() ==> {
                    let h = old(self).particles.height() as int;
                    let (x1, y1) = old(self).last_dot;
                    if stroke_covers(
                        x1 as int,
                        y1 as int,
                        xc as int,
                        yc as int,
                        radius as int,
                        k / h,
                        k % h,
                        stroke_length(x1 as int, y1 as int, xc as int, yc as int) + 1,
                    ) {
                        painted(#[trigger] final(self).particles.contents()[k], material)
                    } else {
                        final(self).particles.contents()[k] == old(self).particles.contents()[k]
                    }
                },
            forall|t: int| 0 <= t < r@.len() && (#[trigger] r@[t]) is Some ==> painted(r@[t], material),
    {
        let ghost h = self.particles.height() as int;
        let ghost o = self.particles.contents();
        let (x1, y1) = self.last_dot;
        let points = stroke_points(x1, y1, xc, yc);
        let mut placed: Vec<Option<Object>> = Vec::new();
        let mut i: usize = 0;
        while i < points.len()
            invariant
                self.same_frame_state(old(self)),
                self.last_dot == old(self).last_dot,
                (x1, y1) == old(self).last_dot,
                self.particles.height() == h,
                self.particles.contents().len() == o.len(),
                o == old(self).particles.contents(),
                i <= points@.len(),
                points@.len() == stroke_length(x1 as int, y1 as int, xc as int, yc as int) + 1,
                forall|t: int|
                    0 <= t < points@.len() ==> ((#[trigger] points@[t]).0 as int, points@[t].1 as int) == stroke_point(
                        x1 as int,
                        y1 as int,
                        xc as int,
                        yc as int,
                        t,
                    ),
                forall|k: int|
                    0 <= k < o.len() ==> if stroke_covers(
                        x1 as int,
                        y1 as int,
                        xc as int,
                        yc as int,
                        radius as int,
                        k / h,
                        k % h,
                        i as int,
                    ) {
                        painted(#[trigger] self.particles.contents()[k], material)
                    } else {
                        self.particles.contents()[k] == o[k]
                    },
                forall|t: int| 0 <= t < placed@.len() && (#[trigger] placed@[t]) is Some ==> painted(placed@[t], material),
            decreases points@.len() - i,
        {
            let (px, py) = points[i];
            let mut square = self.place_square(px, py, radius, material);
            let ghost placed0 = placed@;
            let ghost square0 = square@;
            placed.append(&mut square);
            proof {
                let sp = stroke_point(x1 as int, y1 as int, xc as int, yc as int, i as int);
                assert(points@[i as int] == (px, py));
                assert(sp == (px as int, py as int));
                assert forall|k: int| 0 <= k < o.len() implies if stroke_covers(
                    x1 as int,
                    y1 as int,
                    xc as int,
                    yc as int,
                    radius as int,
                    k / h,
                    k % h,
                    i + 1,
                ) {
                    painted(#[trigger] self.particles.contents()[k], material)
                } else {
                    self.particles.contents()[k] == o[k]
                } by {
                    if in_square(k / h, k % h, px as int, py as int, radius as int) {
                        assert(stroke_covers(x1 as int, y1 as int, xc as int, yc as int, radius as int, k / h, k % h, i + 1));
                    } else if stroke_covers(x1 as int, y1 as int, xc as int, yc as int, radius as int, k / h, k % h, i as int) {
                        let t = choose|t: int|
                            0 <= t < i && in_square(
                                k / h,
                                k % h,
                                (#[trigger] stroke_point(x1 as int, y1 as int, xc as int, yc as int, t)).0,
                                stroke_point(x1 as int, y1 as int, xc as int, yc as int, t).1,
                                radius as int,
                            );
                        assert(stroke_covers(x1 as int, y1 as int, xc as int, yc as int, radius as int, k / h, k % h, i + 1));
                    } else {
                        assert(!stroke_covers(x1 as int, y1 as int, xc as int, yc as int, radius as int, k / h, k % h, i + 1)) by {
                            if stroke_covers(x1 as int, y1 as int, xc as int, yc as int, radius as int, k / h, k % h, i + 1) {
                                let t = choose|t: int|
                                    0 <= t < i + 1 && in_square(
                                        k / h,
                                        k % h,
                                        (#[trigger] stroke_point(x1 as int, y1 as int, xc as int, yc as int, t)).0,
                                        stroke_point(x1 as int, y1 as int, xc as int, yc as int, t).1,
                                        radius as int,
                                    );
                                if t < i {
                                    assert(stroke_covers(x1 as int, y1 as int, xc as int, yc as int, radius as int, k / h, k % h, i as int));
                                }
                            }
                        }
                    }
                }
                assert forall|t: int| 0 <= t < placed@.len() && (#[trigger] placed@[t]) is Some implies painted(placed@[t], material) by {
                    if t < placed0.len() {
                        assert(placed@[t] == placed0[t]);
                    } else {
                        assert(placed@[t] == square0[t - placed0.len()]);
                        if radius > 0 {
                            let a = (t - placed0.len()) / radius as int;
                            let b = (t - placed0.len()) % radius as int;
                            lemma_slot_of(t - placed0.len(), radius as int);
                            assert(square0[square_slot(a, b, radius as int)] is Some);
                        }
                    }
                }
            }
            i = i + 1;
        }
        self.last_dot = (xc, yc);
        placed
    }

}

} // verus!
