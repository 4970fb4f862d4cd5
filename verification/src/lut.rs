//! Three-dimensional lookup tables: where a sample stands.
//!
//! Samples and corners are single-precision bit patterns; this module only
//! moves them. A renderer interpolates between the samples of a cell.

use vstd::arithmetic::div_mod::lemma_fundamental_div_mod_converse;
use vstd::prelude::*;

verus! {

/// A table of colors over a cube, red varying fastest.
#[derive(PartialEq, Eq, Debug)]
pub struct Lut3d {
    /// Samples per axis, at least two.
    pub edge: u32,
    /// The low corner of the cube.
    pub lo: [u32; 3],
    /// The high corner of the cube.
    pub hi: [u32; 3],
    /// Three values per sample.
    pub data: Vec<u32>,
}

/// Samples per axis of the display table.
pub const DISPLAY_EDGE: u32 = 65;

/// The bits of the low corner of the display table in each axis, minus one
/// quarter.
pub const DISPLAY_LO: [u32; 3] = [0xBE80_0000, 0xBE80_0000, 0xBE80_0000];

/// The bits of the high corner of the display table in each axis, four.
pub const DISPLAY_HI: [u32; 3] = [0x4080_0000, 0x4080_0000, 0x4080_0000];

/// The number of the sample at a grid point.
pub open spec fn sample_number(edge: int, r: int, g: int, b: int) -> int {
    (b * edge + g) * edge + r
}

/// How many samples a table has.
pub open spec fn sample_count(edge: int) -> int {
    edge * edge * edge
}

/// The grid point of a sample.
pub open spec fn grid_point(edge: int, n: int) -> (int, int, int) {
    (n % edge, n / edge % edge, n / edge / edge)
}

/// A grid point's number is below the sample count, and leads back to the
/// point.
pub proof fn lemma_sample_number(edge: int, r: int, g: int, b: int)
    requires
        0 <= r < edge,
        0 <= g < edge,
        0 <= b,
    ensures
        sample_number(edge, r, g, b) >= 0,
        b < edge ==> sample_number(edge, r, g, b) < sample_count(edge),
        b == edge && r == 0 && g == 0 ==> sample_number(edge, r, g, b) == sample_count(edge),
        grid_point(edge, sample_number(edge, r, g, b)) == (r, g, b),
{
    let upper = b * edge + g;
    let n = upper * edge + r;
    lemma_fundamental_div_mod_converse(upper, edge, b, g);
    lemma_fundamental_div_mod_converse(n, edge, upper, r);
    assert(n >= 0) by (nonlinear_arith)
        requires
            n == (b * edge + g) * edge + r,
            b >= 0,
            edge > 0,
            g >= 0,
            r >= 0,
    ;
    if b < edge {
        assert(n < edge * edge * edge) by (nonlinear_arith)
            requires
                n == (b * edge + g) * edge + r,
                0 <= b < edge,
                0 <= g < edge,
                0 <= r < edge,
        {
            assert(b * edge + g <= edge * edge - 1) by (nonlinear_arith)
                requires
                    0 <= b < edge,
                    0 <= g < edge,
            ;
            assert((b * edge + g) * edge <= (edge * edge - 1) * edge) by (nonlinear_arith)
                requires
                    b * edge + g <= edge * edge - 1,
                    edge > 0,
            ;
        }
    }
    if b == edge && r == 0 && g == 0 {
        assert((edge * edge + 0) * edge + 0 == edge * edge * edge) by (nonlinear_arith);
    }
}

/// Different grid points have different samples.
pub proof fn law_samples_are_distinct(
    edge: int,
    p: (int, int, int),
    q: (int, int, int),
)
    requires
        0 <= p.0 < edge,
        0 <= p.1 < edge,
        0 <= p.2 < edge,
        0 <= q.0 < edge,
        0 <= q.1 < edge,
        0 <= q.2 < edge,
        sample_number(edge, p.0, p.1, p.2) == sample_number(edge, q.0, q.1, q.2),
    ensures
        p == q,
{
    lemma_sample_number(edge, p.0, p.1, p.2);
    lemma_sample_number(edge, q.0, q.1, q.2);
}

impl Lut3d {
    /// Whether the table has a sample for every grid point.
    pub open spec fn wf(&self) -> bool {
        self.edge >= 2 && self.data@.len() == sample_count(self.edge as int) * 3
    }

    /// The color at a grid point.
    pub open spec fn color_at(&self, r: int, g: int, b: int) -> Seq<u32> {
        let at = sample_number(self.edge as int, r, g, b) * 3;
        seq![self.data@[at], self.data@[at + 1], self.data@[at + 2]]
    }

    /// Where the color of a grid point starts in the data.
    pub fn index(&self, r: u32, g: u32, b: u32) -> (at: usize)
        requires
            self.wf(),
            r < self.edge,
            g < self.edge,
            b < self.edge,
        ensures
            at == sample_number(self.edge as int, r as int, g as int, b as int) * 3,
            at + 3 <= self.data@.len(),
    {
        let total: usize = self.data.len();
        let ghost edge = self.edge as int;
        let ghost upper = b * edge + g;
        let ghost number = sample_number(edge, r as int, g as int, b as int);
        proof {
            lemma_sample_number(edge, r as int, g as int, b as int);
            assert(0 <= b * edge <= upper);
            assert(upper <= upper * edge) by (nonlinear_arith)
                requires
                    upper >= 0,
                    edge >= 1,
            ;
            assert(number * 3 + 3 <= total);
        }
        ((b as usize * self.edge as usize + g as usize) * self.edge as usize + r as usize) * 3
    }

    /// The color at a grid point.
    pub fn sample(&self, r: u32, g: u32, b: u32) -> (color: [u32; 3])
        requires
            self.wf(),
            r < self.edge,
            g < self.edge,
            b < self.edge,
        ensures
            color@ == self.color_at(r as int, g as int, b as int),
    {
        let at: usize = self.index(r, g, b);
        let total: usize = self.data.len();
        assert(at + 3 <= total);
        let color: [u32; 3] = [self.data[at], self.data[at + 1], self.data[at + 2]];
        assert(color@ =~= self.color_at(r as int, g as int, b as int));
        color
    }

    /// The corners of the cube.
    pub fn domain(&self) -> (r: ([u32; 3], [u32; 3]))
        ensures
            r.0 == self.lo,
            r.1 == self.hi,
    {
        (self.lo, self.hi)
    }

    /// The next grid coordinate, the last one at the edge.
    pub open spec fn next(&self, i: int) -> int {
        if i + 1 < self.edge {
            i + 1
        } else {
            i
        }
    }

    /// The next grid coordinate, the last one at the edge.
    pub fn neighbor(&self, i: u32) -> (r: u32)
        requires
            self.edge >= 2,
            i < self.edge,
        ensures
            r == self.next(i as int),
            r < self.edge,
    {
        if i < self.edge - 1 {
            i + 1
        } else {
            i
        }
    }

    /// The colors at the corners of the cell at a grid point, red varying
    /// fastest: what a value inside the cell is interpolated from.
    pub fn corners(&self, r: u32, g: u32, b: u32) -> (colors: [[u32; 3]; 8])
        requires
            self.wf(),
            r < self.edge,
            g < self.edge,
            b < self.edge,
        ensures
            colors@[0]@ == self.color_at(r as int, g as int, b as int),
            colors@[1]@ == self.color_at(self.next(r as int), g as int, b as int),
            colors@[2]@ == self.color_at(r as int, self.next(g as int), b as int),
            colors@[3]@ == self.color_at(self.next(r as int), self.next(g as int), b as int),
            colors@[4]@ == self.color_at(r as int, g as int, self.next(b as int)),
            colors@[5]@ == self.color_at(self.next(r as int), g as int, self.next(b as int)),
            colors@[6]@ == self.color_at(r as int, self.next(g as int), self.next(b as int)),
            colors@[7]@ == self.color_at(
                self.next(r as int),
                self.next(g as int),
                self.next(b as int),
            ),
    {
        let r1: u32 = self.neighbor(r);
        let g1: u32 = self.neighbor(g);
        let b1: u32 = self.neighbor(b);
        [
            self.sample(r, g, b),
            self.sample(r1, g, b),
            self.sample(r, g1, b),
            self.sample(r1, g1, b),
            self.sample(r, g, b1),
            self.sample(r1, g, b1),
            self.sample(r, g1, b1),
            self.sample(r1, g1, b1),
        ]
    }

    /// Build a table by evaluating `f` at every grid point; an edge below
    /// two is two.
    pub fn build<F: Fn(u32, u32, u32) -> [u32; 3]>(
        edge: u32,
        lo: [u32; 3],
        hi: [u32; 3],
        f: F,
    ) -> (lut: Lut3d)
        requires
            forall|r: u32, g: u32, b: u32| #[trigger] f.requires((r, g, b)),
            sample_count(built_edge(edge) as int) * 3 <= usize::MAX,
        ensures
            lut.wf(),
            lut.edge == built_edge(edge),
            lut.lo == lo,
            lut.hi == hi,
            forall|r: u32, g: u32, b: u32|
                r < lut.edge && g < lut.edge && b < lut.edge ==> #[trigger] holds_value(
                    f,
                    &lut,
                    r,
                    g,
                    b,
                ),
            holds_values(f, &lut),
    {
        let edge: u32 = if edge < 2 {
            2
        } else {
            edge
        };
        let mut data: Vec<u32> = Vec::new();
        let ghost mut colors: Seq<[u32; 3]> = Seq::empty();
        let mut r: u32 = 0;
        let mut g: u32 = 0;
        let mut b: u32 = 0;
        while b < edge
            invariant
                edge >= 2,
                sample_count(edge as int) * 3 <= usize::MAX,
                r < edge,
                g < edge,
                b <= edge,
                b == edge ==> r == 0 && g == 0,
                colors.len() == sample_number(edge as int, r as int, g as int, b as int),
                data@.len() == colors.len() * 3,
                forall|r: u32, g: u32, b: u32| #[trigger] f.requires((r, g, b)),
                forall|k: int|
                    0 <= k < colors.len() ==> #[trigger] is_evaluated(f, edge as int, k, colors[k]),
                forall|k: int|
                    0 <= k < colors.len() ==> #[trigger] colors[k]@[0] == data@[3 * k],
                forall|k: int|
                    0 <= k < colors.len() ==> #[trigger] colors[k]@[1] == data@[3 * k + 1],
                forall|k: int|
                    0 <= k < colors.len() ==> #[trigger] colors[k]@[2] == data@[3 * k + 2],
            decreases sample_count(edge as int) - colors.len(),
        {
            let color: [u32; 3] = f(r, g, b);
            proof {
                lemma_sample_number(edge as int, r as int, g as int, b as int);
                assert(is_evaluated(f, edge as int, colors.len() as int, color));
                colors = colors.push(color);
            }
            data.push(color[0]);
            data.push(color[1]);
            data.push(color[2]);
            let ghost (r0, g0, b0) = (r as int, g as int, b as int);
            if r < edge - 1 {
                r = r + 1;
            } else {
                r = 0;
                if g < edge - 1 {
                    g = g + 1;
                } else {
                    g = 0;
                    b = b + 1;
                }
            }
            proof {
                let e = edge as int;
                assert(((b0 + 1) * e + 0) * e + 0 == (b0 * e + (e - 1)) * e + (e - 1) + 1)
                    by (nonlinear_arith);
                assert((b0 * e + (g0 + 1)) * e + 0 == (b0 * e + g0) * e + (e - 1) + 1)
                    by (nonlinear_arith);
            }
        }
        let lut = Lut3d { edge, lo, hi, data };
        proof {
            lemma_sample_number(edge as int, 0, 0, edge as int);
            assert forall|r: u32, g: u32, b: u32|
                r < lut.edge && g < lut.edge && b < lut.edge implies #[trigger] holds_value(
                f,
                &lut,
                r,
                g,
                b,
            ) by {
                lemma_sample_number(edge as int, r as int, g as int, b as int);
                let k = sample_number(edge as int, r as int, g as int, b as int);
                assert(is_evaluated(f, edge as int, k, colors[k]));
                assert(colors[k]@[0] == lut.data@[3 * k]);
                assert(colors[k]@[1] == lut.data@[3 * k + 1]);
                assert(colors[k]@[2] == lut.data@[3 * k + 2]);
                assert(colors[k]@ =~= lut.color_at(r as int, g as int, b as int));
            }
        }
        lut
    }
}

/// Whether the color at a grid point is what `f` gives there.
pub open spec fn holds_value<F: Fn(u32, u32, u32) -> [u32; 3]>(
    f: F,
    lut: &Lut3d,
    r: u32,
    g: u32,
    b: u32,
) -> bool {
    exists|color: [u32; 3]| #[trigger]
        f.ensures((r, g, b), color) && color@ == lut.color_at(r as int, g as int, b as int)
}

/// Whether the color at every grid point is what `f` gives there.
pub open spec fn holds_values<F: Fn(u32, u32, u32) -> [u32; 3]>(f: F, lut: &Lut3d) -> bool {
    forall|r: u32, g: u32, b: u32|
        r < lut.edge && g < lut.edge && b < lut.edge ==> #[trigger] holds_value(f, lut, r, g, b)
}

/// The edge of a table that is built: at least two.
pub open spec fn built_edge(edge: u32) -> u32 {
    if edge < 2 {
        2
    } else {
        edge
    }
}

/// Whether `color` is what `f` gives at the grid point of sample `k`.
pub open spec fn is_evaluated<F: Fn(u32, u32, u32) -> [u32; 3]>(
    f: F,
    edge: int,
    k: int,
    color: [u32; 3],
) -> bool {
    let p = grid_point(edge, k);
    f.ensures((p.0 as u32, p.1 as u32, p.2 as u32), color)
}

/// A sample stands behind the samples with a smaller blue, then green, then
/// red: the first color starts at the beginning, one step in red is one
/// color, one in green a row of colors, and one in blue a layer of them.
pub proof fn law_red_varies_fastest(
    lut: &Lut3d,
    r: u32,
    g: u32,
    b: u32,
    at: usize,
    redder: usize,
    greener: usize,
    bluer: usize,
)
    requires
        lut.wf(),
        r + 1 < lut.edge,
        g + 1 < lut.edge,
        b + 1 < lut.edge,
        call_ensures(Lut3d::index, (lut, r, g, b), at),
        call_ensures(Lut3d::index, (lut, (r + 1) as u32, g, b), redder),
        call_ensures(Lut3d::index, (lut, r, (g + 1) as u32, b), greener),
        call_ensures(Lut3d::index, (lut, r, g, (b + 1) as u32), bluer),
    ensures
        r == 0 && g == 0 && b == 0 ==> at == 0,
        redder == at + 3,
        greener == at + 3 * lut.edge,
        bluer == at + 3 * (lut.edge * lut.edge),
{
    let e = lut.edge as int;
    let (g, b) = (g as int, b as int);
    assert((b * e + (g + 1)) * e == (b * e + g) * e + e) by (nonlinear_arith);
    assert(((b + 1) * e + g) * e == (b * e + g) * e + e * e) by (nonlinear_arith);
    assert(g == 0 && b == 0 ==> (b * e + g) * e == 0) by (nonlinear_arith);
}

/// A color is the three values where its grid point stands in the data.
pub proof fn law_colors_are_three_values_in_a_row(
    lut: &Lut3d,
    r: u32,
    g: u32,
    b: u32,
    at: usize,
    color: [u32; 3],
)
    requires
        lut.wf(),
        r < lut.edge,
        g < lut.edge,
        b < lut.edge,
        call_ensures(Lut3d::index, (lut, r, g, b), at),
        call_ensures(Lut3d::sample, (lut, r, g, b), color),
    ensures
        color@[0] == lut.data@[at as int],
        color@[1] == lut.data@[at + 1],
        color@[2] == lut.data@[at + 2],
{
}

/// The corners of a cell are the samples at its grid point and at the ones
/// next to it, red varying fastest. The last grid point of an axis is its
/// own neighbor.
pub proof fn law_corners_are_the_samples_of_the_cell(
    lut: &Lut3d,
    r: u32,
    g: u32,
    b: u32,
    colors: [[u32; 3]; 8],
    k: int,
    at: (u32, u32, u32),
    color: [u32; 3],
)
    requires
        lut.wf(),
        r < lut.edge,
        g < lut.edge,
        b < lut.edge,
        call_ensures(Lut3d::corners, (lut, r, g, b), colors),
        0 <= k < 8,
        at.0 == (if k % 2 == 1 && r + 1 < lut.edge {
            r + 1
        } else {
            r as int
        }),
        at.1 == (if k / 2 % 2 == 1 && g + 1 < lut.edge {
            g + 1
        } else {
            g as int
        }),
        at.2 == (if k / 4 == 1 && b + 1 < lut.edge {
            b + 1
        } else {
            b as int
        }),
        call_ensures(Lut3d::sample, (lut, at.0, at.1, at.2), color),
    ensures
        colors@[k]@ == color@,
{
}

/// A table that was built has at every grid point the color that it was
/// built with, in the cube and with the edge that were asked for; an edge
/// below two is two.
pub proof fn law_built_tables_hold_their_colors<F: Fn(u32, u32, u32) -> [u32; 3]>(
    edge: u32,
    lo: [u32; 3],
    hi: [u32; 3],
    f: F,
    lut: Lut3d,
    r: u32,
    g: u32,
    b: u32,
    color: [u32; 3],
)
    requires
        call_ensures(Lut3d::build::<F>, (edge, lo, hi, f), lut),
        r < lut.edge,
        g < lut.edge,
        b < lut.edge,
        call_ensures(Lut3d::sample, (&lut, r, g, b), color),
    ensures
        exists|given: [u32; 3]| #[trigger] f.ensures((r, g, b), given) && given@ == color@,
        edge >= 2 ==> lut.edge == edge,
        edge < 2 ==> lut.edge == 2,
        lut.lo@ == lo@,
        lut.hi@ == hi@,
        lut.data@.len() == 3 * (lut.edge * lut.edge * lut.edge),
{
    assert(holds_values(f, &lut));
    assert(holds_value(f, &lut, r, g, b));
}

} // verus!
