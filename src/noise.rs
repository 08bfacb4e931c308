//! The integer core of the two noise primitives.
//!
//! Both primitives key a fork of one root stream by the integer coordinates
//! of a cell. Lattice noise takes one bit of the fork; cellular noise draws
//! a feature point inside the cell from it. Turning a position into cells,
//! and feature points into distances, is left to floating-point code.

use vstd::prelude::*;
use crate::stream::{ForeveRNG, StreamView, fork, le_value, seeded, zero_block};

verus! {

/// Which quarter of the plane a position lies in, as told by the signs of
/// its coordinates.
#[derive(Clone, Copy, Debug, PartialEq, Eq, Structural)]
pub enum Quadrant {
    NW,
    NE,
    SE,
    SW,
}

impl Quadrant {
    /// The quadrant of a position whose `x` and `y` are (or are not) above zero.
    pub fn of_signs(x_positive: bool, y_positive: bool) -> (r: Quadrant)
        ensures
            r == (if x_positive {
                if y_positive { Quadrant::NW } else { Quadrant::SW }
            } else {
                if y_positive { Quadrant::NE } else { Quadrant::SE }
            }),
    {
        if x_positive {
            if y_positive {
                Quadrant::NW
            } else {
                Quadrant::SW
            }
        } else {
            if y_positive {
                Quadrant::NE
            } else {
                Quadrant::SE
            }
        }
    }
}

/// The eight big-endian bytes of `v` in two's complement.
pub open spec fn be_bytes(v: i64) -> Seq<u8> {
    Seq::new(8, |i: int| ((v as u64) >> ((56 - 8 * i) as u64)) as u8)
}

/// The seed of the fork that belongs to cell (`x`, `y`).
pub open spec fn cell_seed(x: i64, y: i64) -> Seq<u8> {
    be_bytes(x) + be_bytes(y)
}

/// The fork of `root` that belongs to cell (`x`, `y`).
pub open spec fn cell_stream(root: StreamView, x: i64, y: i64) -> StreamView {
    fork(root, cell_seed(x, y))
}

/// The first 32-bit draw of a stream.
pub open spec fn first_draw(s: StreamView) -> nat {
    le_value(s.bytes(4))
}

/// The second 32-bit draw of a stream.
pub open spec fn second_draw(s: StreamView) -> nat {
    le_value(s.advance(4).bytes(4))
}

/// The lattice value of cell (`x`, `y`): the parity of the cell's first draw.
pub open spec fn lattice_value(root: StreamView, x: i64, y: i64) -> u8 {
    (first_draw(cell_stream(root, x, y)) % 2) as u8
}

/// The feature point of cell (`x`, `y`), as two fractions of the cell in
/// units of 2^-24: the top 24 bits of the cell's first two draws.
pub open spec fn feature_of(root: StreamView, x: i64, y: i64) -> (u32, u32) {
    let s = cell_stream(root, x, y);
    ((first_draw(s) / 256) as u32, (second_draw(s) / 256) as u32)
}

/// Neighbour `k` (0 to 8) of a cell, row by row from the top left: its
/// offset in x and in y.
pub open spec fn neighbour_offset(k: int) -> (i64, i64) {
    ((k % 3 - 1) as i64, (1 - k / 3) as i64)
}

/// Noise built twice from equal seeds agrees at every cell: the same
/// feature point and the same lattice value.
pub proof fn lemma_noise_deterministic(a: StreamView, b: StreamView, seed: Seq<u8>)
    requires
        a == seeded(zero_block(), seed),
        b == seeded(zero_block(), seed),
    ensures
        forall|x: i64, y: i64| #[trigger] feature_of(a, x, y) == feature_of(b, x, y),
        forall|x: i64, y: i64| #[trigger] lattice_value(a, x, y) == lattice_value(b, x, y),
        forall|x: i64, y: i64| #[trigger] lattice_value(a, x, y) <= 1,
{
}

/// Builds the seed of cell (`x`, `y`).
fn cell_seed_bytes(x: i64, y: i64) -> (r: [u8; 16])
    ensures
        r@ == cell_seed(x, y),
{
    let ux = x as u64;
    let uy = y as u64;
    let mut out = [0u8; 16];
    let mut i: usize = 0;
    while i < 8
        invariant
            ux == x as u64,
            uy == y as u64,
            i <= 8,
            forall|t: int| 0 <= t < i ==> out@[t] == be_bytes(x)[t],
            forall|t: int| 0 <= t < i ==> out@[8 + t] == be_bytes(y)[t],
        decreases 8 - i,
    {
        let shift = (56 - 8 * i) as u64;
        out[i] = (ux >> shift) as u8;
        out[8 + i] = (uy >> shift) as u8;
        i += 1;
    }
    assert(out@ =~= cell_seed(x, y));
    out
}

/// A feature point found for one of the nine cells around a query cell.
#[derive(Clone, Copy, Debug, PartialEq, Eq, Structural)]
pub struct FeaturePoint {
    /// Offset of the cell from the query cell, in x (-1, 0 or 1).
    pub dx: i64,
    /// Offset of the cell from the query cell, in y (-1, 0 or 1).
    pub dy: i64,
    /// The point's x within its cell, in units of 2^-24.
    pub x: u32,
    /// The point's y within its cell, in units of 2^-24.
    pub y: u32,
}

/// Cellular (Worley) noise: one pseudorandom feature point in each unit cell.
pub struct Worley {
    rng: ForeveRNG,
}

impl View for Worley {
    type V = StreamView;

    closed spec fn view(&self) -> StreamView {
        self.rng@
    }
}

impl Worley {
    /// Cellular noise on `seed`; its cells fork the root stream on `seed`.
    pub fn new(seed: &[u8]) -> (r: Worley)
        ensures
            r@ == seeded(zero_block(), seed@),
    {
        Worley { rng: ForeveRNG::with_seed(seed) }
    }

    /// The feature point of cell (`x`, `y`).
    pub fn feature_point(&self, x: i64, y: i64) -> (r: (u32, u32))
        ensures
            r == feature_of(self@, x, y),
            r.0 < 0x100_0000,
            r.1 < 0x100_0000,
    {
        let seed = cell_seed_bytes(x, y);
        let mut sub = self.rng.reseed(&seed);
        let a = sub.next_u32();
        let b = sub.next_u32();
        assert(a >> 8u32 == a / 256 && a / 256 < 0x100_0000) by (bit_vector);
        assert(b >> 8u32 == b / 256 && b / 256 < 0x100_0000) by (bit_vector);
        (a >> 8, b >> 8)
    }

    /// The feature points of the nine cells around cell (`x`, `y`), in the
    /// order of `neighbour_offset`. Cell coordinates wrap at the ends of `i64`.
    pub fn feature_points(&self, x: i64, y: i64) -> (r: Vec<FeaturePoint>)
        ensures
            r@.len() == 9,
            forall|k: int| 0 <= k < 9 ==> {
                let (dx, dy) = neighbour_offset(k);
                let (fx, fy) = feature_of(self@, x.wrapping_add(dx), y.wrapping_add(dy));
                #[trigger] r@[k] == FeaturePoint { dx, dy, x: fx, y: fy }
            },
    {
        let mut out: Vec<FeaturePoint> = Vec::new();
        let mut k: usize = 0;
        while k < 9
            invariant
                k <= 9,
                out@.len() == k,
                forall|j: int| 0 <= j < k ==> {
                    let (dx, dy) = neighbour_offset(j);
                    let (fx, fy) = feature_of(self@, x.wrapping_add(dx), y.wrapping_add(dy));
                    #[trigger] out@[j] == FeaturePoint { dx, dy, x: fx, y: fy }
                },
            decreases 9 - k,
        {
            let dx = (k % 3) as i64 - 1;
            let dy = 1 - (k / 3) as i64;
            let (fx, fy) = self.feature_point(x.wrapping_add(dx), y.wrapping_add(dy));
            out.push(FeaturePoint { dx, dy, x: fx, y: fy });
            k += 1;
        }
        out
    }
}

/// Lattice (checkerboard) noise: each unit cell is 0 or 1.
pub struct Checkerboard {
    rng: ForeveRNG,
}

impl View for Checkerboard {
    type V = StreamView;

    closed spec fn view(&self) -> StreamView {
        self.rng@
    }
}

impl Checkerboard {
    /// Lattice noise on `seed`; its cells fork the root stream on `seed`.
    pub fn new(seed: &[u8]) -> (r: Checkerboard)
        ensures
            r@ == seeded(zero_block(), seed@),
    {
        Checkerboard { rng: ForeveRNG::with_seed(seed) }
    }

    /// The value of cell (`x`, `y`): 0 or 1.
    pub fn cell(&self, x: i64, y: i64) -> (r: u8)
        ensures
            r == lattice_value(self@, x, y),
            r <= 1,
    {
        let seed = cell_seed_bytes(x, y);
        let mut sub = self.rng.reseed(&seed);
        let v = sub.next_u32();
        if v % 2 == 1 {
            1
        } else {
            0
        }
    }
}

} // verus!
