//! What one frame does to the canvas, apart from the terminal: the time that
//! is left of it, the effect of a command, and the readout of a position.

use vstd::prelude::*;
use vstd::std_specs::iter::IteratorSpec;
use crate::cell::Element;
use crate::grid::{lemma_index_in_range, lemma_index_round_trip, lemma_place_is_position, Grid};
use crate::input::Command;
use crate::surface::Surface;
use crate::vec::Vec2;

verus! {

/// The length of a frame in microseconds.
pub const FRAME_MICROS: u64 = 8_000;

/// What is left of a frame once `elapsed_micros` of it have passed; nothing
/// once the frame is over.
pub fn remaining_micros(elapsed_micros: u64) -> (left: Option<u64>)
    ensures
        elapsed_micros <= FRAME_MICROS ==> left == Some((FRAME_MICROS - elapsed_micros) as u64),
        elapsed_micros > FRAME_MICROS ==> left.is_none(),
{
    FRAME_MICROS.checked_sub(elapsed_micros)
}

/// The character of a decimal digit.
pub open spec fn digit(d: nat) -> char {
    (48 + d) as u8 as char
}

/// The decimal numeral of `n`, without leading zeros.
pub open spec fn decimal(n: nat) -> Seq<char>
    decreases n,
{
    if n < 10 {
        seq![digit(n)]
    } else {
        decimal(n / 10).push(digit(n % 10))
    }
}

/// The readout of a position: `x: `, the column, `, y: `, the row, and four
/// spaces that wipe what a longer readout left behind.
pub open spec fn position_label(x: nat, y: nat) -> Seq<char> {
    "x: "@ + decimal(x) + ", y: "@ + decimal(y) + "    "@
}

/// The character of the decimal digit `d`.
fn digit_char(d: u16) -> (c: char)
    requires
        d < 10,
    ensures
        c == digit(d as nat),
{
    (48 + d as u8) as char
}

/// Appends the decimal numeral of `n`.
fn push_decimal(out: &mut Vec<char>, n: u16)
    ensures
        final(out)@ == old(out)@ + decimal(n as nat),
    decreases n,
{
    if n >= 10 {
        push_decimal(out, n / 10);
    }
    out.push(digit_char(n % 10));
}

/// Appends the characters of `text`.
fn push_str(out: &mut Vec<char>, text: &str)
    ensures
        final(out)@ == old(out)@ + text@,
{
    let ghost before = out@;
    let mut chars = text.chars();
    let ghost mut n: int = 0;
    loop
        invariant
            0 <= n <= text@.len(),
            chars.obeys_prophetic_iter_laws(),
            chars.remaining() == text@.skip(n),
            out@ == before + text@.take(n),
        ensures
            out@ == before + text@,
        decreases text@.len() - n,
    {
        match chars.next() {
            Some(c) => {
                out.push(c);
                proof {
                    n = n + 1;
                }
            },
            None => {
                break ;
            },
        }
    }
}

/// The readout of the position `(x, y)`.
pub fn position_text(x: u16, y: u16) -> (label: Vec<char>)
    ensures
        label@ == position_label(x as nat, y as nat),
{
    let mut label: Vec<char> = Vec::new();
    push_str(&mut label, "x: ");
    push_decimal(&mut label, x);
    push_str(&mut label, ", y: ");
    push_decimal(&mut label, y);
    push_str(&mut label, "    ");
    label
}

/// Writes the readout of the position `(x, y)` into row 1, from column 1 on.
pub fn render_pos(surface: &mut Surface, x: u16, y: u16)
    ensures
        final(surface)@ == old(surface)@.stamped(position_label(x as nat, y as nat), 1, 1),
        final(surface)@.wf(),
{
    let out = position_text(x, y);
    surface.print_chars(out.as_slice(), 1, 1);
}

/// Carries out a command and says whether the loop is to end. Quitting
/// leaves the canvas as it is; looking at a position writes its readout.
pub fn apply(surface: &mut Surface, command: Command) -> (done: bool)
    ensures
        final(surface)@ == (match command {
            Command::Quit => old(surface)@,
            Command::Look(x, y) => old(surface)@.stamped(position_label(x as nat, y as nat), 1, 1),
        }),
        done == (command == Command::Quit),
{
    match command {
        Command::Quit => true,
        Command::Look(x, y) => {
            render_pos(surface, x, y);
            false
        },
    }
}

/// The glyph of the frame at `(x, y)` on a `w` by `h` canvas: a corner piece
/// in each corner, a horizontal bar along the top and bottom rows, a vertical
/// bar along the two sides, and nothing inside. Where the canvas is one cell
/// wide or high and pieces fall on one cell, the top right corner goes before
/// the bottom right, that before the bottom left, that before the top left,
/// and rows go before sides.
pub open spec fn boundary_glyph(w: int, h: int, x: int, y: int) -> Option<char> {
    if x == w - 1 && y == 0 {
        Some('╗')
    } else if x == w - 1 && y == h - 1 {
        Some('╝')
    } else if x == 0 && y == h - 1 {
        Some('╚')
    } else if x == 0 && y == 0 {
        Some('╔')
    } else if y == 0 || y == h - 1 {
        Some('═')
    } else if x == 0 || x == w - 1 {
        Some('║')
    } else {
        None
    }
}

/// The grid with the frame drawn along its edge: glyphs change, backgrounds
/// stay.
pub open spec fn with_boundary(g: Grid) -> Grid {
    g.map_cells(
        |x: int, y: int, e: Element|
            match boundary_glyph(g.width, g.height, x, y) {
                Some(c) => e.with_value_spec(c),
                None => e,
            },
    )
}

/// The glyph of the frame at `(x, y)` while the frame is being drawn: after
/// `sides` cells of the two sides, `rows` cells of the top and bottom rows and
/// `corners` corners are written. The sides go first, row by row, left cell
/// then right cell; then the top and bottom rows, column by column, top cell
/// then bottom cell; then the corners, top left, bottom left, bottom right,
/// top right. What is written later stays.
spec fn boundary_stage(w: int, h: int, sides: int, rows: int, corners: int, x: int, y: int) -> Option<char> {
    if corners >= 4 && x == w - 1 && y == 0 {
        Some('╗')
    } else if corners >= 3 && x == w - 1 && y == h - 1 {
        Some('╝')
    } else if corners >= 2 && x == 0 && y == h - 1 {
        Some('╚')
    } else if corners >= 1 && x == 0 && y == 0 {
        Some('╔')
    } else if (y == 0 && 2 * x + 1 <= rows) || (y == h - 1 && 2 * x + 2 <= rows) {
        Some('═')
    } else if (x == 0 && 2 * y + 1 <= sides) || (x == w - 1 && 2 * y + 2 <= sides) {
        Some('║')
    } else {
        None
    }
}

/// The grid with the frame as far as it is drawn at the given stage.
spec fn with_boundary_stage(g: Grid, sides: int, rows: int, corners: int) -> Grid {
    g.map_cells(
        |x: int, y: int, e: Element|
            match boundary_stage(g.width, g.height, sides, rows, corners, x, y) {
                Some(c) => e.with_value_spec(c),
                None => e,
            },
    )
}

/// Nothing is drawn at the first stage, and the whole frame at the last.
proof fn lemma_boundary_ends(g: Grid)
    requires
        g.wf(),
    ensures
        with_boundary_stage(g, 0, 0, 0) == g,
        with_boundary_stage(g, 2 * g.height, 2 * g.width, 4) == with_boundary(g),
{
    let first = with_boundary_stage(g, 0, 0, 0);
    let last = with_boundary_stage(g, 2 * g.height, 2 * g.width, 4);
    assert forall|i: int| 0 <= i < g.cells.len() implies first.cells[i] == g.cells[i] && last.cells[i]
        == with_boundary(g).cells[i] by {
        lemma_place_is_position(g.width, g.height, i);
    }
    assert(first.cells =~= g.cells);
    assert(last.cells =~= with_boundary(g).cells);
}

/// The grid with the glyph `c` at `(x, y)`, on the background that is there.
pub open spec fn with_glyph(g: Grid, x: int, y: int, c: char) -> Grid {
    if g.contains(x, y) {
        g.set(x, y, g.get(x, y).unwrap().with_value_spec(c))
    } else {
        g
    }
}

/// What the frame leaves at a position of the grid: its glyph where it runs
/// through the position, on the background that was there, and the cell that
/// was there where it does not.
pub proof fn lemma_with_boundary_get(g: Grid, x: int, y: int)
    requires
        g.wf(),
        g.contains(x, y),
    ensures
        with_boundary(g).wf(),
        with_boundary(g).get(x, y) == Some(
            match boundary_glyph(g.width, g.height, x, y) {
                Some(c) => g.get(x, y).unwrap().with_value_spec(c),
                None => g.get(x, y).unwrap(),
            },
        ),
{
    lemma_index_in_range(g.width, g.height, x, y);
    lemma_index_round_trip(g.width, x, y);
}

/// Writing one glyph of the frame takes the canvas from one stage to the
/// next, where the next stage differs from the one before by that glyph.
proof fn lemma_boundary_write(g: Grid, before: (int, int, int), after: (int, int, int), x: int, y: int, c: char)
    requires
        g.wf(),
        forall|a: int, b: int|
            g.contains(a, b) ==> #[trigger] boundary_stage(g.width, g.height, after.0, after.1, after.2, a, b)
                == (if a == x && b == y {
                Some(c)
            } else {
                boundary_stage(g.width, g.height, before.0, before.1, before.2, a, b)
            }),
    ensures
        with_glyph(with_boundary_stage(g, before.0, before.1, before.2), x, y, c) == with_boundary_stage(
            g,
            after.0,
            after.1,
            after.2,
        ),
{
    let lhs = with_glyph(with_boundary_stage(g, before.0, before.1, before.2), x, y, c);
    let rhs = with_boundary_stage(g, after.0, after.1, after.2);
    if g.contains(x, y) {
        lemma_index_in_range(g.width, g.height, x, y);
        lemma_index_round_trip(g.width, x, y);
    }
    assert forall|i: int| 0 <= i < g.cells.len() implies lhs.cells[i] == rhs.cells[i] by {
        lemma_place_is_position(g.width, g.height, i);
        let a = g.column(i);
        let b = g.row(i);
        assert(g.contains(a, b));
    }
    assert(lhs.cells =~= rhs.cells);
}

fn write_glyph(surface: &mut Surface, x: i16, y: i16, c: char)
    ensures
        final(surface)@ == with_glyph(old(surface)@, x as int, y as int, c),
        final(surface)@.wf(),
{
    match surface.elem_mut(Vec2 { x, y }) {
        Some(e) => {
            e.value = c;
        },
        None => {},
    }
}

/// Draws a frame of box-drawing glyphs along the edge of the canvas, on the
/// backgrounds that are there. A canvas without cells stays as it is.
pub fn render_boundary(surface: &mut Surface)
    ensures
        final(surface)@ == with_boundary(old(surface)@),
        final(surface)@.wf(),
{
    let size = surface.size();
    let ghost g0 = surface@;
    let w = size.x;
    let h = size.y;
    proof {
        lemma_boundary_ends(g0);
    }
    if w <= 0 || h <= 0 {
        proof {
            assert(with_boundary(g0).cells =~= g0.cells);
        }
        return ;
    }
    let mut y: i16 = 0;
    while y < h
        invariant
            g0.wf(),
            w == g0.width,
            h == g0.height,
            0 < w,
            0 <= y <= h,
            surface@ == with_boundary_stage(g0, 2 * y, 0, 0),
        decreases h - y,
    {
        proof {
            lemma_boundary_write(g0, (2 * y, 0, 0), (2 * y + 1, 0, 0), 0, y as int, '║');
            lemma_boundary_write(g0, (2 * y + 1, 0, 0), (2 * y + 2, 0, 0), w - 1, y as int, '║');
        }
        write_glyph(surface, 0, y, '║');
        write_glyph(surface, w - 1, y, '║');
        y += 1;
    }
    let mut x: i16 = 0;
    while x < w
        invariant
            g0.wf(),
            w == g0.width,
            h == g0.height,
            0 < h,
            0 <= x <= w,
            surface@ == with_boundary_stage(g0, 2 * h, 2 * x, 0),
        decreases w - x,
    {
        proof {
            lemma_boundary_write(g0, (2 * h, 2 * x, 0), (2 * h, 2 * x + 1, 0), x as int, 0, '═');
            lemma_boundary_write(g0, (2 * h, 2 * x + 1, 0), (2 * h, 2 * x + 2, 0), x as int, h - 1, '═');
        }
        write_glyph(surface, x, 0, '═');
        write_glyph(surface, x, h - 1, '═');
        x += 1;
    }
    proof {
        lemma_boundary_write(g0, (2 * h, 2 * w, 0), (2 * h, 2 * w, 1), 0, 0, '╔');
        lemma_boundary_write(g0, (2 * h, 2 * w, 1), (2 * h, 2 * w, 2), 0, h - 1, '╚');
        lemma_boundary_write(g0, (2 * h, 2 * w, 2), (2 * h, 2 * w, 3), w - 1, h - 1, '╝');
        lemma_boundary_write(g0, (2 * h, 2 * w, 3), (2 * h, 2 * w, 4), w - 1, 0, '╗');
    }
    write_glyph(surface, 0, 0, '╔');
    write_glyph(surface, 0, h - 1, '╚');
    write_glyph(surface, w - 1, h - 1, '╝');
    write_glyph(surface, w - 1, 0, '╗');
}

} // verus!
