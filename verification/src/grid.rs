//! The mathematical model of the canvas: a rectangle of cells in row-major
//! order, and what each operation makes of it.

use vstd::prelude::*;
use crate::cell::Element;
use crate::line::{line_point, on_line, on_line_before, steps};
use crate::vec::Vec2;

verus! {

/// A `width` by `height` rectangle of cells, row after row.
pub struct Grid {
    pub width: int,
    pub height: int,
    pub cells: Seq<Element>,
}

impl Grid {
    /// The number of cells of a `width` by `height` rectangle; none where a
    /// side is zero or negative.
    pub open spec fn area(width: int, height: int) -> int {
        if width > 0 && height > 0 {
            width * height
        } else {
            0
        }
    }

    /// The grid holds exactly the cells of its rectangle.
    pub open spec fn wf(self) -> bool {
        self.cells.len() == Grid::area(self.width, self.height)
    }

    /// Whether `(x, y)` lies on the grid.
    pub open spec fn contains(self, x: int, y: int) -> bool {
        0 <= x < self.width && 0 <= y < self.height
    }

    /// Where the cell at `(x, y)` stands in row-major order.
    pub open spec fn index(self, x: int, y: int) -> int {
        y * self.width + x
    }

    /// The column of the cell that stands at `i` in row-major order.
    pub open spec fn column(self, i: int) -> int {
        i % self.width
    }

    /// The row of the cell that stands at `i` in row-major order.
    pub open spec fn row(self, i: int) -> int {
        i / self.width
    }

    /// The cell at `(x, y)`, if that position lies on the grid.
    pub open spec fn get(self, x: int, y: int) -> Option<Element> {
        if self.contains(x, y) {
            Some(self.cells[self.index(x, y)])
        } else {
            None
        }
    }

    /// The grid with `cell` at `(x, y)`; the same grid where that position
    /// lies off it.
    pub open spec fn set(self, x: int, y: int, cell: Element) -> Grid {
        if self.contains(x, y) {
            Grid { cells: self.cells.update(self.index(x, y), cell), ..self }
        } else {
            self
        }
    }

    /// The grid of the given size with every cell blank.
    pub open spec fn blank(width: int, height: int) -> Grid {
        Grid {
            width,
            height,
            cells: Seq::new(Grid::area(width, height) as nat, |i: int| Element::blank_spec()),
        }
    }

    /// The grid of the same size with every cell blank.
    pub open spec fn cleared(self) -> Grid {
        Grid::blank(self.width, self.height)
    }

    /// The grid in which every cell is replaced by `f` of its column, its
    /// row and itself.
    pub open spec fn map_cells(self, f: spec_fn(int, int, Element) -> Element) -> Grid {
        Grid {
            cells: Seq::new(
                self.cells.len(),
                |i: int| f(self.column(i), self.row(i), self.cells[i]),
            ),
            ..self
        }
    }

    /// The grid with `cell` at every position that `shape` holds of.
    pub open spec fn paint(self, shape: spec_fn(int, int) -> bool, cell: Element) -> Grid {
        self.map_cells(
            |x: int, y: int, e: Element|
                if shape(x, y) {
                    cell
                } else {
                    e
                },
        )
    }

    /// The grid with `cell` at each of the first `n` cells of the line from
    /// `p1` to `p2` that lie on it.
    pub open spec fn with_line_before(self, p1: Vec2, p2: Vec2, n: int, cell: Element) -> Grid {
        self.paint(|x: int, y: int| on_line_before(p1, p2, n, x, y), cell)
    }

    /// The grid with `cell` at every cell of the line from `p1` to `p2` that
    /// lies on it.
    pub open spec fn with_line(self, p1: Vec2, p2: Vec2, cell: Element) -> Grid {
        self.with_line_before(p1, p2, steps(p1, p2) + 1, cell)
    }

    /// The grid with the glyphs of `text` in row `y`, the first at column `x`
    /// and each next one column to the right; backgrounds stay.
    pub open spec fn stamped(self, text: Seq<char>, x: int, y: int) -> Grid {
        self.map_cells(
            |cx: int, cy: int, e: Element|
                if cy == y && x <= cx < x + text.len() {
                    e.with_value_spec(text[cx - x])
                } else {
                    e
                },
        )
    }
}

/// On a grid `width` wide, a position inside a `width` by `height`
/// rectangle has its place among the rectangle's cells.
pub proof fn lemma_index_in_range(width: int, height: int, x: int, y: int)
    requires
        0 <= x < width,
        0 <= y < height,
    ensures
        0 <= y * width + x < width * height,
        Grid::area(width, height) == width * height,
{
    assert(y * width + x < width * height) by (nonlinear_arith)
        requires
            0 <= x < width,
            0 <= y < height,
    ;
}

/// Row-major order takes a position to its place and back.
pub proof fn lemma_index_round_trip(width: int, x: int, y: int)
    requires
        0 <= x < width,
    ensures
        (y * width + x) % width == x,
        (y * width + x) / width == y,
{
    vstd::arithmetic::div_mod::lemma_fundamental_div_mod_converse(y * width + x, width, y, x);
}

/// Every place among the cells of a rectangle is that of one position
/// inside it.
pub proof fn lemma_place_is_position(width: int, height: int, i: int)
    requires
        0 <= i < Grid::area(width, height),
    ensures
        0 <= i % width < width,
        0 <= i / width < height,
        (i / width) * width + i % width == i,
{
    vstd::arithmetic::div_mod::lemma_fundamental_div_mod(i, width);
    let q = i / width;
    let r = i % width;
    assert(0 <= q < height) by (nonlinear_arith)
        requires
            q * width + r == i,
            0 <= r < width,
            0 <= i < width * height,
            0 < width,
            0 < height,
    ;
}

impl Grid {
    /// A cell that was written is read back, and every other cell reads as
    /// before.
    pub proof fn lemma_set_then_get(self, x: int, y: int, cell: Element, a: int, b: int)
        requires
            self.wf(),
            self.contains(x, y),
        ensures
            self.set(x, y, cell).wf(),
            self.set(x, y, cell).get(x, y) == Some(cell),
            (a != x || b != y) ==> self.set(x, y, cell).get(a, b) == self.get(a, b),
    {
        lemma_index_in_range(self.width, self.height, x, y);
        if self.contains(a, b) {
            lemma_index_in_range(self.width, self.height, a, b);
            lemma_index_round_trip(self.width, x, y);
            lemma_index_round_trip(self.width, a, b);
        }
    }

    /// Off the grid nothing is read, and a write changes nothing.
    pub proof fn lemma_off_grid(self, x: int, y: int, cell: Element)
        requires
            x < 0 || x >= self.width || y < 0 || y >= self.height,
        ensures
            self.get(x, y).is_none(),
            self.set(x, y, cell) == self,
    {
    }

    /// After clearing, every position of the grid reads blank.
    pub proof fn lemma_cleared_reads_blank(self, x: int, y: int)
        requires
            self.contains(x, y),
        ensures
            self.cleared().wf(),
            self.cleared().get(x, y) == Some(Element::blank_spec()),
    {
        lemma_index_in_range(self.width, self.height, x, y);
    }

    /// What a drawn line leaves at a position of the grid: the drawn cell on
    /// the line, the cell that was there everywhere else.
    pub proof fn lemma_with_line_get(self, p1: Vec2, p2: Vec2, cell: Element, x: int, y: int)
        requires
            self.wf(),
            self.contains(x, y),
        ensures
            self.with_line(p1, p2, cell).wf(),
            self.with_line(p1, p2, cell).get(x, y) == Some(
                if on_line(p1, p2, x, y) {
                    cell
                } else {
                    self.get(x, y).unwrap()
                },
            ),
    {
        lemma_index_in_range(self.width, self.height, x, y);
        lemma_index_round_trip(self.width, x, y);
    }

    /// A line from a position to itself writes that one cell, and no other.
    pub proof fn lemma_line_of_one_cell(self, p: Vec2, cell: Element)
        requires
            self.wf(),
        ensures
            self.with_line(p, p, cell) == self.set(p.x as int, p.y as int, cell),
    {
        self.lemma_line_unstarted(p, p, cell);
        self.lemma_line_grows(p, p, 0, cell);
    }

    /// What stamped text leaves at a position of the grid: in the row of the
    /// text, from its first column on, the glyphs one after another on the
    /// backgrounds that were there; the cell that was there everywhere else.
    pub proof fn lemma_stamped_get(self, text: Seq<char>, x: int, y: int, a: int, b: int)
        requires
            self.wf(),
            self.contains(a, b),
        ensures
            self.stamped(text, x, y).wf(),
            self.stamped(text, x, y).get(a, b) == Some(
                if b == y && x <= a < x + text.len() {
                    self.get(a, b).unwrap().with_value_spec(text[a - x])
                } else {
                    self.get(a, b).unwrap()
                },
            ),
    {
        lemma_index_in_range(self.width, self.height, a, b);
        lemma_index_round_trip(self.width, a, b);
    }

    /// What `map_cells` leaves at a position of the grid.
    pub proof fn lemma_map_cells_get(self, f: spec_fn(int, int, Element) -> Element, x: int, y: int)
        requires
            self.wf(),
            self.contains(x, y),
        ensures
            self.map_cells(f).get(x, y) == Some(f(x, y, self.get(x, y).unwrap())),
    {
        lemma_index_in_range(self.width, self.height, x, y);
        lemma_index_round_trip(self.width, x, y);
    }
}

impl Grid {
    /// Painting a shape and then one more cell paints the shape that holds
    /// of that cell too.
    pub proof fn lemma_paint_set(
        self,
        shape: spec_fn(int, int) -> bool,
        wider: spec_fn(int, int) -> bool,
        x: int,
        y: int,
        cell: Element,
    )
        requires
            self.wf(),
            forall|a: int, b: int|
                self.contains(a, b) ==> (#[trigger] wider(a, b) <==> shape(a, b) || (a == x && b == y)),
        ensures
            self.paint(shape, cell).set(x, y, cell) == self.paint(wider, cell),
    {
        let lhs = self.paint(shape, cell).set(x, y, cell);
        let rhs = self.paint(wider, cell);
        if self.contains(x, y) {
            lemma_index_in_range(self.width, self.height, x, y);
            lemma_index_round_trip(self.width, x, y);
        }
        assert forall|i: int| 0 <= i < self.cells.len() implies lhs.cells[i] == rhs.cells[i] by {
            lemma_place_is_position(self.width, self.height, i);
            let a = self.column(i);
            let b = self.row(i);
            assert(self.contains(a, b));
            assert(wider(a, b) <==> shape(a, b) || (a == x && b == y));
        }
        assert(lhs.cells =~= rhs.cells);
    }

    /// Before its first cell is drawn, a line has changed nothing.
    pub proof fn lemma_line_unstarted(self, p1: Vec2, p2: Vec2, cell: Element)
        requires
            self.wf(),
        ensures
            self.with_line_before(p1, p2, 0, cell) == self,
    {
        assert(self.with_line_before(p1, p2, 0, cell).cells =~= self.cells);
    }

    /// Drawing the cell that `n` steps reach, after the `n` cells before it,
    /// gives the first `n + 1` cells of the line.
    pub proof fn lemma_line_grows(self, p1: Vec2, p2: Vec2, n: int, cell: Element)
        requires
            self.wf(),
            0 <= n,
        ensures
            self.with_line_before(p1, p2, n, cell).set(
                line_point(p1, p2, n).0,
                line_point(p1, p2, n).1,
                cell,
            ) == self.with_line_before(p1, p2, n + 1, cell),
    {
        let p = line_point(p1, p2, n);
        let shape = |x: int, y: int| on_line_before(p1, p2, n, x, y);
        let wider = |x: int, y: int| on_line_before(p1, p2, n + 1, x, y);
        self.lemma_paint_set(shape, wider, p.0, p.1, cell);
    }

    /// Drawing a cell of the line again changes nothing.
    pub proof fn lemma_line_redrawn(self, p1: Vec2, p2: Vec2, n: int, k: int, cell: Element)
        requires
            self.wf(),
            0 <= k < n,
        ensures
            self.with_line_before(p1, p2, n, cell).set(
                line_point(p1, p2, k).0,
                line_point(p1, p2, k).1,
                cell,
            ) == self.with_line_before(p1, p2, n, cell),
    {
        let p = line_point(p1, p2, k);
        let shape = |x: int, y: int| on_line_before(p1, p2, n, x, y);
        self.lemma_paint_set(shape, shape, p.0, p.1, cell);
    }

    /// After the first `n` glyphs of `text`, writing glyph `n` into the cell
    /// one column further gives the first `n + 1` glyphs; where that cell
    /// lies off the grid, they are there already.
    pub proof fn lemma_stamp_grows(self, text: Seq<char>, n: int, x: int, y: int)
        requires
            self.wf(),
            0 <= n < text.len(),
        ensures
            ({
                let so_far = self.stamped(text.take(n), x, y);
                let next = self.stamped(text.take(n + 1), x, y);
                if self.contains(x + n, y) {
                    so_far.set(x + n, y, so_far.get(x + n, y).unwrap().with_value_spec(text[n])) == next
                } else {
                    so_far == next
                }
            }),
    {
        let so_far = self.stamped(text.take(n), x, y);
        let next = self.stamped(text.take(n + 1), x, y);
        let lhs = if self.contains(x + n, y) {
            so_far.set(x + n, y, so_far.get(x + n, y).unwrap().with_value_spec(text[n]))
        } else {
            so_far
        };
        if self.contains(x + n, y) {
            lemma_index_in_range(self.width, self.height, x + n, y);
            lemma_index_round_trip(self.width, x + n, y);
        }
        assert forall|i: int| 0 <= i < self.cells.len() implies lhs.cells[i] == next.cells[i] by {
            lemma_place_is_position(self.width, self.height, i);
            assert(self.contains(self.column(i), self.row(i)));
        }
        assert(lhs.cells =~= next.cells);
    }

    /// The glyphs of `text` after the first `n` change nothing where none
    /// is left, where the row lies off the grid, or where glyph `n` would
    /// already stand right of the last column.
    pub proof fn lemma_stamp_clipped(self, text: Seq<char>, n: int, x: int, y: int)
        requires
            self.wf(),
            0 <= n <= text.len(),
            n == text.len() || !(0 <= y < self.height) || x + n >= self.width,
        ensures
            self.stamped(text.take(n), x, y) == self.stamped(text, x, y),
    {
        let lhs = self.stamped(text.take(n), x, y);
        let rhs = self.stamped(text, x, y);
        assert forall|i: int| 0 <= i < self.cells.len() implies lhs.cells[i] == rhs.cells[i] by {
            lemma_place_is_position(self.width, self.height, i);
            assert(self.contains(self.column(i), self.row(i)));
        }
        assert(lhs.cells =~= rhs.cells);
    }
}

} // verus!
