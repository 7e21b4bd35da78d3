//! The cells of a straight line between two grid positions.
//!
//! The line runs along its longer axis one cell at a time; on the shorter
//! axis it stands at the share of the way that the step has covered, rounded
//! to the nearest cell, halves upward. That is the path of Bresenham's
//! integer walk with a balance term, which `Surface::draw_line` takes.

use vstd::prelude::*;
use vstd::arithmetic::div_mod::{lemma_fundamental_div_mod, lemma_fundamental_div_mod_converse};
use crate::vec::Vec2;

verus! {

/// The distance between two coordinates.
pub open spec fn span(a: int, b: int) -> int {
    if a >= b {
        a - b
    } else {
        b - a
    }
}

/// The coordinate `n` cells from `from` in the direction of `to`.
pub open spec fn advance(from: int, to: int, n: int) -> int {
    if to > from {
        from + n
    } else {
        from - n
    }
}

/// `minor * k / major` rounded to the nearest integer, halves upward: how
/// far the line has moved on its shorter axis after `k` steps on the longer.
pub open spec fn rounded_share(major: int, minor: int, k: int) -> int {
    if major == 0 {
        0
    } else {
        (2 * minor * k + major) / (2 * major)
    }
}

/// The number of steps from the first cell of the line to its last.
pub open spec fn steps(p1: Vec2, p2: Vec2) -> int {
    let dx = span(p1.x as int, p2.x as int);
    let dy = span(p1.y as int, p2.y as int);
    if dx >= dy {
        dx
    } else {
        dy
    }
}

/// The cell of the line from `p1` to `p2` that is reached after `k` steps.
pub open spec fn line_point(p1: Vec2, p2: Vec2, k: int) -> (int, int) {
    let dx = span(p1.x as int, p2.x as int);
    let dy = span(p1.y as int, p2.y as int);
    if dx >= dy {
        (advance(p1.x as int, p2.x as int, k), advance(p1.y as int, p2.y as int, rounded_share(dx, dy, k)))
    } else {
        (advance(p1.x as int, p2.x as int, rounded_share(dy, dx, k)), advance(p1.y as int, p2.y as int, k))
    }
}

/// Whether `(x, y)` is one of the first `n` cells of the line from `p1` to `p2`.
pub open spec fn on_line_before(p1: Vec2, p2: Vec2, n: int, x: int, y: int) -> bool {
    exists|k: int| 0 <= k < n && #[trigger] line_point(p1, p2, k) == (x, y)
}

/// Whether `(x, y)` is a cell of the line from `p1` to `p2`, ends included.
pub open spec fn on_line(p1: Vec2, p2: Vec2, x: int, y: int) -> bool {
    on_line_before(p1, p2, steps(p1, p2) + 1, x, y)
}

/// The rounded share is the one integer `m` with
/// `2 * major * m <= 2 * minor * k + major < 2 * major * (m + 1)`.
pub proof fn lemma_rounded_share_is(major: int, minor: int, k: int, m: int)
    requires
        0 < major,
        2 * major * m <= 2 * minor * k + major < 2 * major * (m + 1),
    ensures
        rounded_share(major, minor, k) == m,
{
    let x = 2 * minor * k + major;
    let d = 2 * major;
    assert(2 * major * (m + 1) == d * m + d) by (nonlinear_arith)
        requires
            d == 2 * major,
    ;
    lemma_fundamental_div_mod_converse(x, d, m, x - m * d);
}

/// The bounds that define the rounded share.
pub proof fn lemma_rounded_share_bounds(major: int, minor: int, k: int)
    requires
        0 < major,
    ensures
        2 * major * rounded_share(major, minor, k) <= 2 * minor * k + major,
        2 * minor * k + major < 2 * major * (rounded_share(major, minor, k) + 1),
{
    let x = 2 * minor * k + major;
    let d = 2 * major;
    let m = rounded_share(major, minor, k);
    lemma_fundamental_div_mod(x, d);
    assert(2 * major * (m + 1) == d * m + d) by (nonlinear_arith)
        requires
            d == 2 * major,
    ;
}

/// One step of the walk. With `balance` the walk's balance term before step
/// `k + 1`, the line moves on its shorter axis exactly when the balance is
/// not negative, and it has then not yet covered that axis.
pub proof fn lemma_walk_step(major: int, minor: int, k: int, balance: int)
    requires
        0 <= minor <= major,
        0 <= k < major,
        balance == 2 * minor * (k + 1) - major - 2 * major * rounded_share(major, minor, k),
    ensures
        0 <= rounded_share(major, minor, k) <= minor,
        2 * minor - 2 * major <= balance < 2 * minor,
        balance >= 0 ==> rounded_share(major, minor, k + 1) == rounded_share(major, minor, k) + 1,
        balance >= 0 ==> rounded_share(major, minor, k) < minor,
        balance >= 0 ==> balance - 2 * major + 2 * minor == 2 * minor * (k + 2) - major - 2 * major
            * rounded_share(major, minor, k + 1),
        balance < 0 ==> rounded_share(major, minor, k + 1) == rounded_share(major, minor, k),
        balance < 0 ==> balance + 2 * minor == 2 * minor * (k + 2) - major - 2 * major * rounded_share(
            major,
            minor,
            k + 1,
        ),
{
    let s = rounded_share(major, minor, k);
    lemma_rounded_share_bounds(major, minor, k);
    let mk = minor * k;
    let ms = major * s;
    assert(2 * minor * k == 2 * mk) by (nonlinear_arith)
        requires
            mk == minor * k,
    ;
    assert(2 * minor * (k + 1) == 2 * mk + 2 * minor) by (nonlinear_arith)
        requires
            mk == minor * k,
    ;
    assert(2 * minor * (k + 2) == 2 * mk + 4 * minor) by (nonlinear_arith)
        requires
            mk == minor * k,
    ;
    assert(2 * major * s == 2 * ms) by (nonlinear_arith)
        requires
            ms == major * s,
    ;
    assert(2 * major * (s + 1) == 2 * ms + 2 * major) by (nonlinear_arith)
        requires
            ms == major * s,
    ;
    assert(2 * major * (s + 2) == 2 * ms + 4 * major) by (nonlinear_arith)
        requires
            ms == major * s,
    ;
    assert(0 <= mk <= minor * major - minor) by (nonlinear_arith)
        requires
            mk == minor * k,
            0 <= minor,
            0 <= k < major,
    ;
    assert(s <= minor) by (nonlinear_arith)
        requires
            2 * ms <= 2 * (minor * major - minor) + major,
            ms == major * s,
            0 < major,
            0 <= minor,
    ;
    if balance >= 0 {
        lemma_rounded_share_is(major, minor, k + 1, s + 1);
        assert(s < minor) by (nonlinear_arith)
            requires
                2 * ms + 2 * major <= 2 * (minor * major - minor) + 2 * minor + major,
                ms == major * s,
                0 < major,
        ;
    } else {
        lemma_rounded_share_is(major, minor, k + 1, s);
    }
}

/// The line starts at `p1` and, after `steps` steps, stands at `p2`.
pub proof fn lemma_line_ends(p1: Vec2, p2: Vec2)
    ensures
        line_point(p1, p2, 0) == (p1.x as int, p1.y as int),
        line_point(p1, p2, steps(p1, p2)) == (p2.x as int, p2.y as int),
{
    let dx = span(p1.x as int, p2.x as int);
    let dy = span(p1.y as int, p2.y as int);
    if dx >= dy {
        lemma_share_at_ends(dx, dy);
    } else {
        lemma_share_at_ends(dy, dx);
    }
}

/// Before the first step the line has not moved on its shorter axis; after
/// the last it has covered it.
pub proof fn lemma_share_at_ends(major: int, minor: int)
    requires
        0 <= minor <= major,
    ensures
        rounded_share(major, minor, 0) == 0,
        rounded_share(major, minor, major) == minor,
{
    if major > 0 {
        lemma_rounded_share_is(major, minor, 0, 0);
        assert(2 * major * minor == 2 * minor * major) by (nonlinear_arith);
        assert(2 * major * (minor + 1) == 2 * minor * major + 2 * major) by (nonlinear_arith);
        lemma_rounded_share_is(major, minor, major, minor);
    }
}

/// A line from a position to itself is that one cell.
pub proof fn lemma_one_cell_line(p: Vec2, x: int, y: int)
    ensures
        on_line(p, p, x, y) <==> (x == p.x && y == p.y),
{
    assert(line_point(p, p, 0) == (p.x as int, p.y as int));
}

/// From one cell of the line to the next, the line moves one cell along its
/// longer axis and at most one, never backward, along the shorter: the path
/// is connected, and no coordinate of the longer axis is skipped or visited
/// twice.
pub proof fn lemma_line_connected(p1: Vec2, p2: Vec2, k: int)
    requires
        0 <= k < steps(p1, p2),
    ensures
        ({
            let dx = span(p1.x as int, p2.x as int);
            let dy = span(p1.y as int, p2.y as int);
            let a = line_point(p1, p2, k);
            let b = line_point(p1, p2, k + 1);
            if dx >= dy {
                &&& b.0 == advance(a.0, p2.x as int, 1)
                &&& (b.1 == a.1 || b.1 == advance(a.1, p2.y as int, 1))
            } else {
                &&& b.1 == advance(a.1, p2.y as int, 1)
                &&& (b.0 == a.0 || b.0 == advance(a.0, p2.x as int, 1))
            }
        }),
{
    let dx = span(p1.x as int, p2.x as int);
    let dy = span(p1.y as int, p2.y as int);
    if dx >= dy {
        let balance = 2 * dy * (k + 1) - dx - 2 * dx * rounded_share(dx, dy, k);
        lemma_walk_step(dx, dy, k, balance);
    } else {
        let balance = 2 * dx * (k + 1) - dy - 2 * dy * rounded_share(dy, dx, k);
        lemma_walk_step(dy, dx, k, balance);
    }
}

/// No cell of the line is reached twice.
pub proof fn lemma_line_cells_differ(p1: Vec2, p2: Vec2, j: int, k: int)
    requires
        j != k,
    ensures
        line_point(p1, p2, j) != line_point(p1, p2, k),
{
}

/// Every cell of the line lies in the rectangle that its two ends span.
pub proof fn lemma_line_in_box(p1: Vec2, p2: Vec2, k: int)
    requires
        0 <= k <= steps(p1, p2),
    ensures
        ({
            let p = line_point(p1, p2, k);
            &&& (p1.x <= p.0 <= p2.x || p2.x <= p.0 <= p1.x)
            &&& (p1.y <= p.1 <= p2.y || p2.y <= p.1 <= p1.y)
        }),
{
    let dx = span(p1.x as int, p2.x as int);
    let dy = span(p1.y as int, p2.y as int);
    let (major, minor) = if dx >= dy {
        (dx, dy)
    } else {
        (dy, dx)
    };
    if k < major {
        let balance = 2 * minor * (k + 1) - major - 2 * major * rounded_share(major, minor, k);
        lemma_walk_step(major, minor, k, balance);
    } else {
        lemma_share_at_ends(major, minor);
    }
}

/// A line between two cells of one row is the stretch of that row between
/// them.
pub proof fn lemma_horizontal_line(p1: Vec2, p2: Vec2, x: int, y: int)
    requires
        p1.y == p2.y,
    ensures
        on_line(p1, p2, x, y) <==> (y == p1.y && (p1.x <= x <= p2.x || p2.x <= x <= p1.x)),
{
    let dx = span(p1.x as int, p2.x as int);
    assert forall|k: int| 0 <= k <= dx implies rounded_share(dx, 0, k) == 0 by {
        if dx > 0 {
            assert(2 * 0 * k == 0) by (nonlinear_arith);
            lemma_rounded_share_is(dx, 0, k, 0);
        }
    }
    if y == p1.y && (p1.x <= x <= p2.x || p2.x <= x <= p1.x) {
        let k = span(p1.x as int, x);
        assert(line_point(p1, p2, k) == (x, y));
    }
    if on_line(p1, p2, x, y) {
        let k = choose|k: int| 0 <= k < steps(p1, p2) + 1 && #[trigger] line_point(p1, p2, k) == (x, y);
    }
}

} // verus!
