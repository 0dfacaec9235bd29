use vstd::arithmetic::div_mod::{lemma_div_is_ordered, lemma_div_multiples_vanish_fancy, lemma_div_plus_one};
use vstd::prelude::*;

verus! {

pub open spec fn abs_int(v: int) -> int {
    if v < 0 {
        -v
    } else {
        v
    }
}

pub open spec fn sign_int(v: int) -> int {
    if v < 0 {
        -1
    } else if v > 0 {
        1
    } else {
        0
    }
}

/// The number of steps of the stroke from (x1, y1) to (x2, y2): the larger
/// of the horizontal and vertical distances.
pub open spec fn stroke_length(x1: int, y1: int, x2: int, y2: int) -> int {
    let a = abs_int(x2 - x1);
    let b = abs_int(y2 - y1);
    if a >= b {
        a
    } else {
        b
    }
}

/// One coordinate of step `i` of a `d`-step line that moves `delta` in
/// total: the start plus `i * delta / d`, rounded to the nearest cell.
pub open spec fn line_coord(start: int, delta: int, d: int, i: int) -> int {
    if d == 0 {
        start
    } else {
        start + sign_int(delta) * ((i * abs_int(delta) + d / 2) / d)
    }
}

/// Step `i` of the stroke from (x1, y1) to (x2, y2).
pub open spec fn stroke_point(x1: int, y1: int, x2: int, y2: int, i: int) -> (int, int) {
    let d = stroke_length(x1, y1, x2, y2);
    (line_coord(x1, x2 - x1, d, i), line_coord(y1, y2 - y1, d, i))
}

/// The rounded fraction `i * a / d` lies in [0, a], is 0 at the start and
/// `a` at the end, and grows by at most one per step.
proof fn lemma_fraction(a: int, d: int, i: int)
    requires
        0 <= a <= d,
        0 < d,
        0 <= i <= d,
    ensures
        0 <= (i * a + d / 2) / d <= a,
        (0 * a + d / 2) / d == 0,
        (d * a + d / 2) / d == a,
        i < d ==> (i * a + d / 2) / d <= ((i + 1) * a + d / 2) / d <= (i * a + d / 2) / d + 1,
{
    lemma_div_multiples_vanish_fancy(0, d / 2, d);
    lemma_div_multiples_vanish_fancy(a, d / 2, d);
    assert(d * 0 == 0 * a) by (nonlinear_arith);
    assert(0 <= i * a <= d * a) by (nonlinear_arith)
        requires 0 <= a, 0 <= i <= d;
    lemma_div_is_ordered(0 * a + d / 2, i * a + d / 2, d);
    lemma_div_is_ordered(i * a + d / 2, d * a + d / 2, d);
    if i < d {
        assert((i + 1) * a == i * a + a) by (nonlinear_arith);
        lemma_div_is_ordered(i * a + d / 2, (i + 1) * a + d / 2, d);
        lemma_div_is_ordered((i + 1) * a + d / 2, d + (i * a + d / 2), d);
        lemma_div_plus_one(i * a + d / 2, d);
    }
}

/// A line coordinate stays between the start and the end, begins at the
/// start, ends at the end, and moves by at most one cell per step.
pub proof fn lemma_line_coord(start: int, delta: int, d: int, i: int)
    requires
        abs_int(delta) <= d,
        0 <= i <= d,
    ensures
        line_coord(start, delta, d, 0) == start,
        line_coord(start, delta, d, d) == start + delta,
        delta >= 0 ==> start <= line_coord(start, delta, d, i) <= start + delta,
        delta < 0 ==> start + delta <= line_coord(start, delta, d, i) <= start,
        i < d ==> abs_int(line_coord(start, delta, d, i + 1) - line_coord(start, delta, d, i)) <= 1,
{
    if d > 0 {
        lemma_fraction(abs_int(delta), d, i);
    }
}

/// The cells visited by a stroke from (x1, y1) to (x2, y2): one per step,
/// from the first point to the last, each a neighbour (sideways, up, down or
/// diagonal) of the one before, so that a brush placed on each leaves no gap.
pub fn stroke_points(x1: i32, y1: i32, x2: i32, y2: i32) -> (r: Vec<(i32, i32)>)
    ensures
        r@.len() == stroke_length(x1 as int, y1 as int, x2 as int, y2 as int) + 1,
        forall|i: int|
            0 <= i < r@.len() ==> ((#[trigger] r@[i]).0 as int, r@[i].1 as int) == stroke_point(
                x1 as int,
                y1 as int,
                x2 as int,
                y2 as int,
                i,
            ),
        r@[0] == (x1, y1),
        r@[r@.len() - 1] == (x2, y2),
        forall|i: int|
            0 <= i < r@.len() - 1 ==> abs_int((#[trigger] r@[i + 1]).0 - r@[i].0) <= 1 && abs_int(
                r@[i + 1].1 - r@[i].1,
            ) <= 1,
{
    let ghost d_spec = stroke_length(x1 as int, y1 as int, x2 as int, y2 as int);
    let dx: i64 = x2 as i64 - x1 as i64;
    let dy: i64 = y2 as i64 - y1 as i64;
    let adx: u64 = if dx < 0 {
        (-dx) as u64
    } else {
        dx as u64
    };
    let ady: u64 = if dy < 0 {
        (-dy) as u64
    } else {
        dy as u64
    };
    let sx: i64 = if dx < 0 {
        -1
    } else if dx > 0 {
        1
    } else {
        0
    };
    let sy: i64 = if dy < 0 {
        -1
    } else if dy > 0 {
        1
    } else {
        0
    };
    let d: u64 = if adx >= ady {
        adx
    } else {
        ady
    };
    assert(d == d_spec);
    let mut points: Vec<(i32, i32)> = Vec::new();
    let mut i: u64 = 0;
    while i <= d
        invariant
            d == d_spec,
            d_spec == stroke_length(x1 as int, y1 as int, x2 as int, y2 as int),
            d < 0x1_0000_0000,
            adx <= d,
            ady <= d,
            adx == abs_int(dx as int),
            ady == abs_int(dy as int),
            sx == sign_int(dx as int),
            sy == sign_int(dy as int),
            dx == x2 - x1,
            dy == y2 - y1,
            i <= d + 1,
            points@.len() == i,
            forall|t: int|
                0 <= t < i ==> ((#[trigger] points@[t]).0 as int, points@[t].1 as int) == stroke_point(
                    x1 as int,
                    y1 as int,
                    x2 as int,
                    y2 as int,
                    t,
                ),
        decreases d + 1 - i,
    {
        proof {
            lemma_line_coord(x1 as int, dx as int, d as int, i as int);
            lemma_line_coord(y1 as int, dy as int, d as int, i as int);
            assert(i * adx <= d * d && i * ady <= d * d) by (nonlinear_arith)
                requires i <= d, adx <= d, ady <= d;
            assert(d * d < 0x1_0000_0000 * 0x1_0000_0000 - 0x1_0000_0000) by (nonlinear_arith)
                requires d < 0x1_0000_0000;
        }
        let vx: u64 = if d == 0 {
            0
        } else {
            (i * adx + d / 2) / d
        };
        let vy: u64 = if d == 0 {
            0
        } else {
            (i * ady + d / 2) / d
        };
        proof {
            if d > 0 {
                lemma_fraction(adx as int, d as int, i as int);
                lemma_fraction(ady as int, d as int, i as int);
            }
        }
        let px: i64 = x1 as i64 + sx * vx as i64;
        let py: i64 = y1 as i64 + sy * vy as i64;
        proof {
            assert(px as int == line_coord(x1 as int, dx as int, d as int, i as int));
            assert(py as int == line_coord(y1 as int, dy as int, d as int, i as int));
        }
        let ghost prev = points@;
        points.push((px as i32, py as i32));
        proof {
            let sp = stroke_point(x1 as int, y1 as int, x2 as int, y2 as int, i as int);
            assert(sp.0 == px as int && sp.1 == py as int);
            assert(points@[i as int] == (px as i32, py as i32));
            assert forall|t: int| 0 <= t < i + 1 implies ((#[trigger] points@[t]).0 as int, points@[t].1 as int)
                == stroke_point(x1 as int, y1 as int, x2 as int, y2 as int, t) by {
                if t < i {
                    assert(points@[t] == prev[t]);
                }
            }
        }
        i = i + 1;
    }
    proof {
        lemma_line_coord(x1 as int, dx as int, d as int, 0);
        lemma_line_coord(y1 as int, dy as int, d as int, 0);
        assert forall|t: int| 0 <= t < points@.len() - 1 implies abs_int((#[trigger] points@[t + 1]).0 - points@[t].0) <= 1
            && abs_int(points@[t + 1].1 - points@[t].1) <= 1 by {
            lemma_line_coord(x1 as int, dx as int, d as int, t);
            lemma_line_coord(y1 as int, dy as int, d as int, t);
        }
        assert(points@[0] == (x1, y1));
        assert(points@[points@.len() - 1] == (x2, y2));
    }
    points
}

} // verus!
