//! The canvas: a fixed rectangle of cells that is read and written by
//! position, and never indexed out of bounds.

use vstd::prelude::*;
use vstd::std_specs::iter::IteratorSpec;
use crate::cell::Element;
use crate::grid::{lemma_index_in_range, Grid};
use crate::line::{advance, lemma_share_at_ends, lemma_walk_step, rounded_share, span, steps};
use crate::vec::Vec2;

verus! {

/// A rectangle of cells, held row after row.
pub struct Surface {
    dim: Vec2,
    data: Vec<Element>,
}

impl View for Surface {
    type V = Grid;

    closed spec fn view(&self) -> Grid {
        Grid { width: self.dim.x as int, height: self.dim.y as int, cells: self.data@ }
    }
}

impl Surface {
    #[verifier::type_invariant]
    spec fn holds_its_rectangle(self) -> bool {
        self@.wf()
    }

    /// A blank canvas of the given size. A size with a side that is zero or
    /// negative gives a canvas without cells.
    pub fn new(dim: Vec2) -> (s: Surface)
        ensures
            s@ == Grid::blank(dim.x as int, dim.y as int),
            s@.wf(),
    {
        let n: usize = if dim.x > 0 && dim.y > 0 {
            proof {
                assert(dim.x * dim.y <= 32767 * 32767) by (nonlinear_arith)
                    requires
                        0 < dim.x <= 32767,
                        0 < dim.y <= 32767,
                ;
            }
            (dim.x as usize) * (dim.y as usize)
        } else {
            0
        };
        let mut data: Vec<Element> = Vec::new();
        while data.len() < n
            invariant
                data.len() <= n,
                forall|i: int| 0 <= i < data.len() ==> data[i] == Element::blank_spec(),
            decreases n - data.len(),
        {
            data.push(Element::blank());
        }
        assert(data@ =~= Grid::blank(dim.x as int, dim.y as int).cells);
        Surface { dim, data }
    }

    /// Whether `pos` lies on the canvas.
    pub fn contains(&self, pos: Vec2) -> (b: bool)
        ensures
            b == self@.contains(pos.x as int, pos.y as int),
    {
        0 <= pos.x && pos.x < self.dim.x && 0 <= pos.y && pos.y < self.dim.y
    }

    fn place(&self, pos: Vec2) -> (i: usize)
        requires
            self@.contains(pos.x as int, pos.y as int),
        ensures
            i == self@.index(pos.x as int, pos.y as int),
            i < self.data@.len(),
    {
        proof {
            use_type_invariant(self);
            lemma_index_in_range(self.dim.x as int, self.dim.y as int, pos.x as int, pos.y as int);
            assert(pos.y * self.dim.x <= 32767 * 32767) by (nonlinear_arith)
                requires
                    0 <= pos.y <= 32767,
                    0 < self.dim.x <= 32767,
            ;
        }
        (pos.y as usize) * (self.dim.x as usize) + (pos.x as usize)
    }

    /// The cell at `pos`, or nothing where `pos` lies off the canvas.
    pub fn elem(&self, pos: Vec2) -> (r: Option<&Element>)
        ensures
            match r {
                Some(e) => self@.get(pos.x as int, pos.y as int) == Some(*e),
                None => !self@.contains(pos.x as int, pos.y as int),
            },
    {
        if self.contains(pos) {
            let i = self.place(pos);
            return Some(&self.data[i]);
        }
        None
    }

    /// The cell at `pos`, to be written through, or nothing where `pos` lies
    /// off the canvas. What is written stays in that cell; no other cell
    /// changes.
    pub fn elem_mut(&mut self, pos: Vec2) -> (r: Option<&mut Element>)
        ensures
            match r {
                Some(e) => {
                    &&& old(self)@.get(pos.x as int, pos.y as int) == Some(*e)
                    &&& final(self)@ == old(self)@.set(pos.x as int, pos.y as int, *final(e))
                },
                None => {
                    &&& !old(self)@.contains(pos.x as int, pos.y as int)
                    &&& final(self)@ == old(self)@
                },
            },
            final(self)@.wf(),
    {
        proof {
            use_type_invariant(&*self);
        }
        if self.contains(pos) {
            let i = self.place(pos);
            return Some(&mut self.data[i]);
        }
        None
    }

    /// Writes `val` at `pos` and hands the written cell back; writes nothing
    /// and hands nothing back where `pos` lies off the canvas.
    pub fn set(&mut self, pos: Vec2, val: Element) -> (r: Option<&Element>)
        ensures
            final(self)@ == old(self)@.set(pos.x as int, pos.y as int, val),
            old(self)@.contains(pos.x as int, pos.y as int) ==> r == Some(&val),
            !old(self)@.contains(pos.x as int, pos.y as int) ==> r.is_none() && final(self)@ == old(
                self,
            )@,
            final(self)@.wf(),
    {
        let elem = self.elem_mut(pos);
        match elem {
            Some(x) => {
                *x = val;
                Some(x)
            },
            None => None,
        }
    }

    /// The size that the canvas was made with.
    pub fn size(&self) -> (dim: Vec2)
        ensures
            dim.x == self@.width,
            dim.y == self@.height,
            self@.wf(),
    {
        proof {
            use_type_invariant(self);
        }
        self.dim
    }

    /// All cells, row after row.
    pub fn state(&self) -> (cells: &Vec<Element>)
        ensures
            cells@ == self@.cells,
            self@.wf(),
    {
        proof {
            use_type_invariant(self);
        }
        &self.data
    }

    /// Makes every cell blank.
    pub fn clear(&mut self)
        ensures
            final(self)@ == old(self)@.cleared(),
            final(self)@.wf(),
    {
        proof {
            use_type_invariant(&*self);
        }
        let n = self.data.len();
        let mut i: usize = 0;
        while i < n
            invariant
                i <= n,
                n == self.data.len(),
                self.dim == old(self).dim,
                self@.wf(),
                forall|j: int| 0 <= j < i ==> self.data[j] == Element::blank_spec(),
            decreases n - i,
        {
            self.data[i] = Element::blank();
            i += 1;
        }
        assert(self.data@ =~= old(self)@.cleared().cells);
    }

    /// Writes the glyphs of `s` into row `y`, the first at column `x` and
    /// each next one column to the right, one cell per glyph. Backgrounds
    /// stay. Glyphs that would land off the canvas are dropped.
    pub fn print_str(&mut self, s: &str, x: u16, y: u16)
        ensures
            final(self)@ == old(self)@.stamped(s@, x as int, y as int),
            final(self)@.wf(),
    {
        proof {
            use_type_invariant(&*self);
        }
        let ghost g0 = self@;
        let width = self.dim.x;
        proof {
            assert(g0.stamped(s@.take(0), x as int, y as int).cells =~= g0.cells);
        }
        if x > 32767 || y > 32767 || y as i16 >= self.dim.y {
            proof {
                g0.lemma_stamp_clipped(s@, 0, x as int, y as int);
            }
            return ;
        }
        let row = y as i16;
        let mut col = x as i16;
        let mut chars = s.chars();
        let ghost mut n: int = 0;
        while col < width
            invariant
                g0.wf(),
                width == g0.width,
                0 <= row < g0.height,
                row == y,
                0 <= n <= s@.len(),
                col == x + n,
                chars.obeys_prophetic_iter_laws(),
                chars.remaining() == s@.skip(n),
                self@ == g0.stamped(s@.take(n), x as int, y as int),
            ensures
                n == s@.len() || x + n >= width,
                0 <= n <= s@.len(),
                self@ == g0.stamped(s@.take(n), x as int, y as int),
            decreases width - col,
        {
            match chars.next() {
                Some(c) => {
                    proof {
                        g0.lemma_stamp_grows(s@, n, x as int, y as int);
                    }
                    match self.elem_mut(Vec2 { x: col, y: row }) {
                        Some(e) => {
                            e.value = c;
                        },
                        None => {},
                    }
                    col += 1;
                    proof {
                        n = n + 1;
                    }
                },
                None => {
                    break ;
                },
            }
        }
        proof {
            g0.lemma_stamp_clipped(s@, n, x as int, y as int);
        }
    }

    /// Writes the glyphs of `text` as `print_str` writes those of a string.
    pub fn print_chars(&mut self, text: &[char], x: u16, y: u16)
        ensures
            final(self)@ == old(self)@.stamped(text@, x as int, y as int),
            final(self)@.wf(),
    {
        proof {
            use_type_invariant(&*self);
        }
        let ghost g0 = self@;
        let width = self.dim.x;
        proof {
            assert(g0.stamped(text@.take(0), x as int, y as int).cells =~= g0.cells);
        }
        if x > 32767 || y > 32767 || y as i16 >= self.dim.y {
            proof {
                g0.lemma_stamp_clipped(text@, 0, x as int, y as int);
            }
            return ;
        }
        let row = y as i16;
        let mut col = x as i16;
        let mut n: usize = 0;
        while n < text.len() && col < width
            invariant
                g0.wf(),
                width == g0.width,
                0 <= row < g0.height,
                row == y,
                n <= text@.len(),
                col == x + n,
                self@ == g0.stamped(text@.take(n as int), x as int, y as int),
            decreases text@.len() - n,
        {
            proof {
                g0.lemma_stamp_grows(text@, n as int, x as int, y as int);
            }
            match self.elem_mut(Vec2 { x: col, y: row }) {
                Some(e) => {
                    e.value = text[n];
                },
                None => {},
            }
            col += 1;
            n += 1;
        }
        proof {
            g0.lemma_stamp_clipped(text@, n as int, x as int, y as int);
        }
    }

    /// Draws the straight line from `p1` to `p2`, both ends included: writes
    /// `val` at every cell of the line that lies on the canvas, and leaves
    /// every other cell as it was.
    ///
    /// The walk runs along x where the line is at least as wide as it is
    /// high, and along y where it is at least as high as it is wide. On an
    /// exact diagonal both walks run; the second then starts on `p2` and only
    /// writes that cell again.
    pub fn draw_line(&mut self, p1: Vec2, p2: Vec2, val: Element)
        ensures
            final(self)@ == old(self)@.with_line(p1, p2, val),
            final(self)@.wf(),
    {
        proof {
            use_type_invariant(&*self);
        }
        let ghost g0 = self@;
        let mut p = p1;
        let dx: i32;
        let dy: i32;
        let incx: i16;
        let incy: i16;

        if p2.x > p1.x {
            dx = p2.x as i32 - p1.x as i32;
            incx = 1;
        } else {
            dx = p1.x as i32 - p2.x as i32;
            incx = -1;
        }

        if p2.y > p1.y {
            dy = p2.y as i32 - p1.y as i32;
            incy = 1;
        } else {
            dy = p1.y as i32 - p2.y as i32;
            incy = -1;
        }

        proof {
            g0.lemma_line_unstarted(p1, p2, val);
        }

        if dx >= dy {
            let mut balance: i32 = 2 * dy - dx;
            let ghost mut k: int = 0;
            proof {
                lemma_share_at_ends(dx as int, dy as int);
                assert(2 * dy * (0 + 1) == 2 * dy) by (nonlinear_arith);
            }

            while p.x != p2.x
                invariant
                    g0.wf(),
                    dx == span(p1.x as int, p2.x as int),
                    dy == span(p1.y as int, p2.y as int),
                    dy <= dx,
                    incx == advance(0, p2.x as int - p1.x as int, 1),
                    incy == advance(0, p2.y as int - p1.y as int, 1),
                    0 <= k <= dx,
                    p.x == advance(p1.x as int, p2.x as int, k),
                    p.y == advance(p1.y as int, p2.y as int, rounded_share(dx as int, dy as int, k)),
                    k < dx ==> balance == 2 * dy * (k + 1) - dx - 2 * dx * rounded_share(
                        dx as int,
                        dy as int,
                        k,
                    ),
                    self@ == g0.with_line_before(p1, p2, k, val),
                decreases dx - k,
            {
                proof {
                    lemma_walk_step(dx as int, dy as int, k, balance as int);
                    g0.lemma_line_grows(p1, p2, k, val);
                }
                self.set(p, val);
                if balance >= 0 {
                    p.y += incy;
                    balance -= 2 * dx;
                }
                balance += 2 * dy;
                p.x += incx;
                proof {
                    k = k + 1;
                }
            }
            proof {
                g0.lemma_line_grows(p1, p2, k, val);
            }
            self.set(p, val);
        }

        if dy >= dx {
            let mut balance: i32 = 2 * dx - dy;
            let ghost mut k: int = if dx == dy {
                dy as int
            } else {
                0
            };
            proof {
                lemma_share_at_ends(dy as int, dx as int);
            }

            while p.y != p2.y
                invariant
                    g0.wf(),
                    dx == span(p1.x as int, p2.x as int),
                    dy == span(p1.y as int, p2.y as int),
                    dx <= dy,
                    incx == advance(0, p2.x as int - p1.x as int, 1),
                    incy == advance(0, p2.y as int - p1.y as int, 1),
                    0 <= k <= dy,
                    dx == dy ==> p == p2 && self@ == g0.with_line(p1, p2, val),
                    dx < dy ==> {
                        &&& p.x == advance(p1.x as int, p2.x as int, rounded_share(dy as int, dx as int, k))
                        &&& p.y == advance(p1.y as int, p2.y as int, k)
                        &&& k < dy ==> balance == 2 * dx * (k + 1) - dy - 2 * dy * rounded_share(
                            dy as int,
                            dx as int,
                            k,
                        )
                        &&& self@ == g0.with_line_before(p1, p2, k, val)
                    },
                decreases dy - k,
            {
                proof {
                    lemma_walk_step(dy as int, dx as int, k, balance as int);
                    g0.lemma_line_grows(p1, p2, k, val);
                }
                self.set(p, val);
                if balance >= 0 {
                    p.x += incx;
                    balance -= 2 * dy;
                }
                balance += 2 * dx;
                p.y += incy;
                proof {
                    k = k + 1;
                }
            }
            proof {
                if dx == dy {
                    g0.lemma_line_redrawn(p1, p2, steps(p1, p2) + 1, steps(p1, p2), val);
                } else {
                    g0.lemma_line_grows(p1, p2, k, val);
                }
            }
            self.set(p, val);
        }
    }
}

} // verus!
