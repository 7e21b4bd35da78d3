//! Island terrain: a height from noise, a falloff toward the edges of the
//! canvas, and the band of terrain that the two select.
//!
//! Heights are exact. Noise comes in millionths, the falloff is a fraction
//! of two integers, and a height is compared with a band's threshold by
//! cross-multiplying, so that no rounding decides a band.

use vstd::prelude::*;
use crate::cell::{Color, Element};
use crate::grid::{lemma_index_in_range, lemma_index_round_trip, lemma_place_is_position, Grid};
use crate::surface::Surface;
use crate::vec::Vec2;

verus! {

/// One whole of noise: noise values count millionths.
pub const NOISE_UNIT: i32 = 1_000_000;

/// A band of terrain, from the lowest to the highest.
#[derive(Debug, Clone, Copy, PartialEq, Eq, Structural)]
pub enum Band {
    Water,
    Sand,
    Forest,
    Mountain,
}

impl Band {
    /// The place of the band in the order from low to high.
    pub open spec fn rank_spec(self) -> u8 {
        match self {
            Band::Water => 0,
            Band::Sand => 1,
            Band::Forest => 2,
            Band::Mountain => 3,
        }
    }

    /// The place of the band in the order from low to high.
    #[verifier::when_used_as_spec(rank_spec)]
    pub fn rank(self) -> (r: u8)
        ensures
            r == self.rank_spec(),
    {
        match self {
            Band::Water => 0,
            Band::Sand => 1,
            Band::Forest => 2,
            Band::Mountain => 3,
        }
    }

    /// The cell that shows the band: a space on the band's colour.
    pub open spec fn cell_spec(self) -> Element {
        Element {
            value: ' ',
            background: match self {
                Band::Water => Color::Rgb { r: 0, g: 105, b: 148 },
                Band::Sand => Color::Rgb { r: 194, g: 174, b: 128 },
                Band::Forest => Color::Rgb { r: 2, g: 48, b: 32 },
                Band::Mountain => Color::White,
            },
        }
    }

    /// The cell that shows the band: a space on the band's colour.
    #[verifier::when_used_as_spec(cell_spec)]
    pub fn cell(self) -> (e: Element)
        ensures
            e == self.cell_spec(),
    {
        let background = match self {
            Band::Water => Color::Rgb { r: 0, g: 105, b: 148 },
            Band::Sand => Color::Rgb { r: 194, g: 174, b: 128 },
            Band::Forest => Color::Rgb { r: 2, g: 48, b: 32 },
            Band::Mountain => Color::White,
        };
        Element { value: ' ', background }
    }
}

/// The shorter side of a `w` by `h` canvas.
pub open spec fn short_side(w: int, h: int) -> int {
    if w < h {
        w
    } else {
        h
    }
}

/// The denominator of the falloff on a `w` by `h` canvas.
pub open spec fn falloff_den(w: int, h: int) -> int {
    10 * short_side(w, h) * short_side(w, h)
}

/// The numerator of the falloff at `(x, y)` on a `w` by `h` canvas.
///
/// With `(dx, dy)` the offset of `(x, y)` from the centre `(w / 2, h / 2)`
/// and `d` the square of half the shorter side, the falloff is
/// `1 - (dx * dx / 10 + dy * dy) / d`: one at the centre, less toward the
/// edges, and slower to fall along x than along y. Over the denominator
/// `falloff_den(w, h)` that is this numerator.
pub open spec fn falloff_num(w: int, h: int, x: int, y: int) -> int {
    falloff_den(w, h) - (w - 2 * x) * (w - 2 * x) - 10 * (h - 2 * y) * (h - 2 * y)
}

/// Whether the height that `noise` millionths reach under the falloff
/// `num / den` lies below `percent` hundredths.
pub open spec fn below(noise: int, num: int, den: int, percent: int) -> bool {
    100 * (noise * num) < percent * (NOISE_UNIT * den)
}

/// The band of the height that `noise` millionths reach under the falloff
/// `num / den`: water below 0.30, sand below 0.40, forest below 0.55,
/// mountain from there on.
pub open spec fn band_of(noise: int, num: int, den: int) -> Band {
    if below(noise, num, den, 30) {
        Band::Water
    } else if below(noise, num, den, 40) {
        Band::Sand
    } else if below(noise, num, den, 55) {
        Band::Forest
    } else {
        Band::Mountain
    }
}

/// How much of the noise is left at a position: a fraction with a positive
/// denominator.
#[derive(Debug, Clone, Copy)]
pub struct Falloff {
    num: i64,
    den: i64,
}

impl Falloff {
    #[verifier::type_invariant]
    spec fn in_range(self) -> bool {
        &&& 0 < self.den <= 0x4_0000_0000
        &&& -0x20_0000_0000 <= self.num <= 0x4_0000_0000
    }

    /// The numerator.
    pub closed spec fn num_spec(self) -> int {
        self.num as int
    }

    /// The denominator.
    pub closed spec fn den_spec(self) -> int {
        self.den as int
    }

    /// The numerator.
    pub fn num(self) -> (n: i64)
        ensures
            n == self.num_spec(),
    {
        self.num
    }

    /// The denominator, which is positive.
    pub fn den(self) -> (d: i64)
        ensures
            d == self.den_spec(),
            d > 0,
    {
        proof {
            use_type_invariant(self);
        }
        self.den
    }
}

/// The falloff at `pos` on a canvas of the given size; nothing on a canvas
/// that has a side of zero or less, where no falloff is defined.
pub fn falloff(size: Vec2, pos: Vec2) -> (r: Option<Falloff>)
    ensures
        match r {
            Some(f) => {
                &&& size.x > 0 && size.y > 0
                &&& f.num_spec() == falloff_num(size.x as int, size.y as int, pos.x as int, pos.y as int)
                &&& f.den_spec() == falloff_den(size.x as int, size.y as int)
            },
            None => size.x <= 0 || size.y <= 0,
        },
{
    if size.x <= 0 || size.y <= 0 {
        return None;
    }
    let w = size.x as i64;
    let h = size.y as i64;
    let m = if w < h {
        w
    } else {
        h
    };
    let ax = w - 2 * (pos.x as i64);
    let ay = h - 2 * (pos.y as i64);
    assert(0 < m * m <= 32767 * 32767) by (nonlinear_arith)
        requires
            0 < m <= 32767,
    ;
    assert(0 <= ax * ax <= 98303 * 98303) by (nonlinear_arith)
        requires
            -98303 <= ax <= 98303,
    ;
    assert(0 <= ay * ay <= 98303 * 98303) by (nonlinear_arith)
        requires
            -98303 <= ay <= 98303,
    ;
    let mm = m * m;
    let den = 10 * mm;
    let num = den - ax * ax - 10 * (ay * ay);
    assert(10 * m * m == 10 * mm) by (nonlinear_arith)
        requires
            mm == m * m,
    ;
    assert(10 * ay * ay == 10 * (ay * ay)) by (nonlinear_arith);
    Some(Falloff { num, den })
}

/// The band of terrain at a place where `noise` millionths meet `falloff`.
pub fn classify(noise: i32, falloff: Falloff) -> (b: Band)
    ensures
        b == band_of(noise as int, falloff.num_spec(), falloff.den_spec()),
{
    proof {
        use_type_invariant(falloff);
    }
    let n = noise as i128;
    let num = falloff.num as i128;
    let den = falloff.den as i128;
    assert(-0x80000000 * 0x20_0000_0000 <= n * num <= 0x80000000 * 0x20_0000_0000) by (nonlinear_arith)
        requires
            -0x80000000 <= n <= 0x80000000,
            -0x20_0000_0000 <= num <= 0x20_0000_0000,
    ;
    let height = 100 * (n * num);
    let whole = (NOISE_UNIT as i128) * den;
    if height < 30 * whole {
        Band::Water
    } else if height < 40 * whole {
        Band::Sand
    } else if height < 55 * whole {
        Band::Forest
    } else {
        Band::Mountain
    }
}

/// Under one falloff that is not negative, more noise never gives a lower
/// band.
pub proof fn lemma_band_monotone(low: int, high: int, num: int, den: int)
    requires
        low <= high,
        num >= 0,
    ensures
        band_of(low, num, den).rank_spec() <= band_of(high, num, den).rank_spec(),
{
    assert(low * num <= high * num) by (nonlinear_arith)
        requires
            low <= high,
            num >= 0,
    ;
}

/// The number of places at which a `w` by `h` canvas is sampled: every
/// second column from column 1 on, and in it every row from row 1 on.
pub open spec fn sample_count(w: int, h: int) -> int {
    if w >= 2 && h >= 2 {
        (w / 2) * (h - 1)
    } else {
        0
    }
}

/// The place of sample `k` on a canvas `h` high: the samples run down one
/// column after another.
pub open spec fn sample_position(h: int, k: int) -> (int, int) {
    (1 + 2 * (k / (h - 1)), 1 + k % (h - 1))
}

/// The column whose sample decides the cell in column `x`: `x` itself where
/// it is odd, the column left of it where it is even.
pub open spec fn sampled_column(x: int) -> int {
    1 + 2 * ((x - 1) / 2)
}

/// Which sample decides the cell at `(x, y)` on a canvas `h` high.
pub open spec fn sample_of(h: int, x: int, y: int) -> int {
    ((x - 1) / 2) * (h - 1) + (y - 1)
}

/// The cell at `(x, y)` of a `w` by `h` canvas once its first `n` samples
/// are painted: the cell of the band that the deciding sample selects, or
/// `e`, the cell that was there, where no sample among them decides.
pub open spec fn terrain_cell(w: int, h: int, noise: Seq<i32>, n: int, x: int, y: int, e: Element) -> Element {
    let k = sample_of(h, x, y);
    if x >= 1 && y >= 1 && 0 <= k < n {
        band_of(
            noise[k] as int,
            falloff_num(w, h, sampled_column(x), y),
            falloff_den(w, h),
        ).cell_spec()
    } else {
        e
    }
}

/// The grid with the terrain of the first `n` samples painted.
pub open spec fn with_terrain_before(g: Grid, noise: Seq<i32>, n: int) -> Grid {
    g.map_cells(|x: int, y: int, e: Element| terrain_cell(g.width, g.height, noise, n, x, y, e))
}

/// The grid with the terrain painted that `noise` gives, sample by sample.
/// Each sample paints its own cell and the cell right of it. Column 0 and
/// row 0 are never painted, nor the places of samples that `noise` is too
/// short to hold.
pub open spec fn with_terrain(g: Grid, noise: Seq<i32>) -> Grid {
    with_terrain_before(g, noise, noise.len() as int)
}

/// Every sample has its place on the canvas, in an odd column and below the
/// top row, and decides the cell at its own place.
pub proof fn lemma_sample_at_its_place(w: int, h: int, k: int)
    requires
        0 <= k < sample_count(w, h),
    ensures
        ({
            let (x, y) = sample_position(h, k);
            &&& 1 <= x < w
            &&& x % 2 == 1
            &&& 1 <= y < h
            &&& sampled_column(x) == x
            &&& sample_of(h, x, y) == k
        }),
{
    let rows = h - 1;
    let c = k / rows;
    let r = k % rows;
    vstd::arithmetic::div_mod::lemma_fundamental_div_mod(k, rows);
    vstd::arithmetic::div_mod::lemma_mod_bound(k, rows);
    assert(c * rows == rows * c) by (nonlinear_arith);
    assert(0 <= c < w / 2) by (nonlinear_arith)
        requires
            c * rows + r == k,
            0 <= r < rows,
            0 <= k < (w / 2) * rows,
    ;
}

/// What painted terrain leaves at a position of the grid.
pub proof fn lemma_with_terrain_get(g: Grid, noise: Seq<i32>, x: int, y: int)
    requires
        g.wf(),
        g.contains(x, y),
    ensures
        with_terrain(g, noise).wf(),
        with_terrain(g, noise).get(x, y) == Some(
            terrain_cell(g.width, g.height, noise, noise.len() as int, x, y, g.get(x, y).unwrap()),
        ),
{
    lemma_index_in_range(g.width, g.height, x, y);
    lemma_index_round_trip(g.width, x, y);
}

/// Painting sample `n` after the samples before it gives the terrain of the
/// first `n + 1` samples.
pub proof fn lemma_terrain_grows(g: Grid, noise: Seq<i32>, n: int, x: int, y: int)
    requires
        g.wf(),
        1 <= x < g.width,
        x % 2 == 1,
        1 <= y < g.height,
        n == sample_of(g.height, x, y),
        0 <= n < noise.len(),
    ensures
        ({
            let cell = band_of(
                noise[n] as int,
                falloff_num(g.width, g.height, x, y),
                falloff_den(g.width, g.height),
            ).cell_spec();
            with_terrain_before(g, noise, n).set(x, y, cell).set(x + 1, y, cell) == with_terrain_before(
                g,
                noise,
                n + 1,
            )
        }),
{
    let cell = band_of(
        noise[n] as int,
        falloff_num(g.width, g.height, x, y),
        falloff_den(g.width, g.height),
    ).cell_spec();
    let once = with_terrain_before(g, noise, n).set(x, y, cell);
    let lhs = once.set(x + 1, y, cell);
    let rhs = with_terrain_before(g, noise, n + 1);
    let rows = g.height - 1;
    lemma_index_in_range(g.width, g.height, x, y);
    lemma_index_round_trip(g.width, x, y);
    if g.contains(x + 1, y) {
        lemma_index_in_range(g.width, g.height, x + 1, y);
        lemma_index_round_trip(g.width, x + 1, y);
    }
    lemma_index_round_trip(rows, y - 1, (x - 1) / 2);
    assert forall|i: int| 0 <= i < g.cells.len() implies lhs.cells[i] == rhs.cells[i] by {
        lemma_place_is_position(g.width, g.height, i);
        let a = g.column(i);
        let b = g.row(i);
        assert(g.contains(a, b));
        if a >= 1 && b >= 1 {
            lemma_index_round_trip(rows, b - 1, (a - 1) / 2);
            if sample_of(g.height, a, b) == n {
                assert((a - 1) / 2 == (x - 1) / 2);
                assert(b == y);
                assert(a == x || a == x + 1);
                assert(sampled_column(a) == x);
            }
        }
    }
    assert(lhs.cells =~= rhs.cells);
}

/// Once `noise` is used up, or every cell that a sample decides is painted,
/// the terrain is complete.
pub proof fn lemma_terrain_complete(g: Grid, noise: Seq<i32>, n: int)
    requires
        g.wf(),
        0 <= n <= noise.len(),
        n == noise.len() || forall|a: int, b: int|
            g.contains(a, b) && a >= 1 && b >= 1 ==> #[trigger] sample_of(g.height, a, b) < n,
    ensures
        with_terrain_before(g, noise, n) == with_terrain(g, noise),
{
    let lhs = with_terrain_before(g, noise, n);
    let rhs = with_terrain(g, noise);
    assert forall|i: int| 0 <= i < g.cells.len() implies lhs.cells[i] == rhs.cells[i] by {
        lemma_place_is_position(g.width, g.height, i);
        let a = g.column(i);
        let b = g.row(i);
        assert(g.contains(a, b));
        if a >= 1 && b >= 1 {
            assert(0 <= (a - 1) / 2);
            assert(0 <= ((a - 1) / 2) * (g.height - 1)) by (nonlinear_arith)
                requires
                    0 <= (a - 1) / 2,
                    0 <= g.height - 1,
            ;
        }
    }
    assert(lhs.cells =~= rhs.cells);
}

/// Paints one sample: the cell of `band` at `pos` and at the position right
/// of it, each where it lies on the canvas.
pub fn paint_sample(surface: &mut Surface, pos: Vec2, band: Band)
    ensures
        final(surface)@ == old(surface)@.set(pos.x as int, pos.y as int, band.cell_spec()).set(
            pos.x + 1,
            pos.y as int,
            band.cell_spec(),
        ),
        final(surface)@.wf(),
{
    let cell = band.cell();
    surface.set(pos, cell);
    if pos.x < surface.size().x {
        surface.set(Vec2 { x: pos.x + 1, y: pos.y }, cell);
    }
}

/// The places at which a canvas of the given size is sampled, in the order
/// in which `generate_heightmap` takes their noise.
pub fn sample_positions(size: Vec2) -> (places: Vec<Vec2>)
    ensures
        places@.len() == sample_count(size.x as int, size.y as int),
        forall|k: int|
            0 <= k < places@.len() ==> (#[trigger] places@[k].x as int, places@[k].y as int)
                == sample_position(size.y as int, k),
{
    let mut places: Vec<Vec2> = Vec::new();
    let w = size.x as i32;
    let h = size.y as i32;
    if w < 2 || h < 2 {
        return places;
    }
    let mut x: i32 = 1;
    let ghost mut c: int = 0;
    while x < w
        invariant
            w == size.x,
            h == size.y,
            2 <= w <= 32767,
            2 <= h <= 32767,
            x == 2 * c + 1,
            0 <= c,
            x <= w + 1,
            places@.len() == c * (h - 1),
            forall|k: int|
                0 <= k < places@.len() ==> (#[trigger] places@[k].x as int, places@[k].y as int)
                    == sample_position(h as int, k),
        decreases w + 1 - x,
    {
        let mut y: i32 = 1;
        while y < h
            invariant
                w == size.x,
                h == size.y,
                2 <= h <= 32767,
                1 <= x < w <= 32767,
                x == 2 * c + 1,
                0 <= c,
                1 <= y <= h,
                places@.len() == c * (h - 1) + (y - 1),
                forall|k: int|
                    0 <= k < places@.len() ==> (#[trigger] places@[k].x as int, places@[k].y as int)
                        == sample_position(h as int, k),
            decreases h - y,
        {
            proof {
                lemma_index_round_trip(h - 1, y - 1, c);
            }
            places.push(Vec2 { x: x as i16, y: y as i16 });
            y += 1;
        }
        proof {
            assert((c + 1) * (h - 1) == c * (h - 1) + (h - 1)) by (nonlinear_arith);
            c = c + 1;
        }
        x += 2;
    }
    places
}

/// Paints the terrain that `noise` gives: `noise[k]`, in millionths, is the
/// noise at the `k`-th place of `sample_positions`. Each sample selects a
/// band by its noise and the falloff at its place, and paints the band's
/// cell at its place and right of it. Where `noise` holds fewer values than
/// there are samples, the places of the missing ones stay as they are;
/// values beyond the last sample are not read.
pub fn generate_heightmap(surface: &mut Surface, noise: &Vec<i32>)
    ensures
        final(surface)@ == with_terrain(old(surface)@, noise@),
        final(surface)@.wf(),
{
    let size = surface.size();
    let ghost g0 = surface@;
    let w = size.x as i32;
    let h = size.y as i32;
    let mut k: usize = 0;
    let mut x: i32 = 1;
    let ghost mut c: int = 0;
    proof {
        assert(with_terrain_before(g0, noise@, 0).cells =~= g0.cells);
    }
    while x < w
        invariant
            g0.wf(),
            g0 == old(surface)@,
            w == g0.width,
            h == g0.height,
            size.x == w,
            size.y == h,
            x == 2 * c + 1,
            0 <= c,
            x <= w + 1 || w < 1,
            h >= 2 ==> k == c * (h - 1),
            h < 2 ==> k == 0,
            k <= noise@.len(),
            surface@ == with_terrain_before(g0, noise@, k as int),
        decreases w + 1 - x,
    {
        let mut y: i32 = 1;
        while y < h
            invariant
                g0.wf(),
                g0 == old(surface)@,
                w == g0.width,
                h == g0.height,
                size.x == w,
                size.y == h,
                1 <= x < w,
                x == 2 * c + 1,
                0 <= c,
                1 <= y,
                y <= h || h < 1,
                h >= 2 ==> k == c * (h - 1) + (y - 1),
                h < 2 ==> k == 0,
                k <= noise@.len(),
                surface@ == with_terrain_before(g0, noise@, k as int),
            decreases h - y,
        {
            if k >= noise.len() {
                return ;
            }
            let pos = Vec2 { x: x as i16, y: y as i16 };
            proof {
                lemma_terrain_grows(g0, noise@, k as int, x as int, y as int);
            }
            match falloff(size, pos) {
                Some(f) => {
                    paint_sample(surface, pos, classify(noise[k], f));
                },
                None => {},
            }
            k += 1;
            y += 1;
        }
        proof {
            assert((c + 1) * (h - 1) == c * (h - 1) + (h - 1)) by (nonlinear_arith);
            c = c + 1;
        }
        x += 2;
    }
    proof {
        assert forall|a: int, b: int| g0.contains(a, b) && a >= 1 && b >= 1 implies #[trigger] sample_of(
            g0.height,
            a,
            b,
        ) < k by {
            let ca = (a - 1) / 2;
            assert(ca <= c - 1);
            assert(ca * (h - 1) <= (c - 1) * (h - 1)) by (nonlinear_arith)
                requires
                    ca <= c - 1,
                    0 <= h - 1,
            ;
            assert((c - 1) * (h - 1) == c * (h - 1) - (h - 1)) by (nonlinear_arith);
        }
        lemma_terrain_complete(g0, noise@, k as int);
    }
}

} // verus!
