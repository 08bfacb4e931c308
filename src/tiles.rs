//! Rendering a raster in independent bands of rows.
//!
//! The raster is cut into bands of a fixed number of rows (the last may be
//! shorter). Each band is rendered into a buffer of its own, the bands in
//! parallel; then each band's buffer is copied into the output at band index
//! times band capacity. A pixel function gives each byte of the raster.

use vstd::prelude::*;
use vstd::arithmetic::div_mod::{lemma_fundamental_div_mod, lemma_fundamental_div_mod_converse};
use rayon::iter::{IndexedParallelIterator, IntoParallelIterator, ParallelIterator};

verus! {

/// How many bands of `band_height` rows cover `height` rows.
pub open spec fn band_count_of(height: nat, band_height: nat) -> nat {
    if height % band_height == 0 {
        height / band_height
    } else {
        height / band_height + 1
    }
}

/// The first row of band `i`.
pub open spec fn band_start(i: nat, band_height: nat) -> nat {
    i * band_height
}

/// One past the last row of band `i`.
pub open spec fn band_end(i: nat, band_height: nat, height: nat) -> nat {
    if (i + 1) * band_height <= height {
        (i + 1) * band_height
    } else {
        height
    }
}

/// Where byte `c` of pixel (`x`, `y`) lies in a buffer of rows `width`
/// pixels wide, with `channels` bytes a pixel.
pub open spec fn raster_index(width: nat, channels: nat, x: nat, y: nat, c: nat) -> nat {
    (y * width + x) * channels + c
}

/// `buf` holds rows `first_row` to `first_row + rows` (exclusive) of the
/// raster in which byte `c` of pixel (`x`, `y`) is what `pixel` returns on
/// (`x`, `y`, `c`).
pub open spec fn holds_rows<F: Fn(usize, usize, usize) -> u8>(
    pixel: F,
    width: nat,
    channels: nat,
    first_row: nat,
    rows: nat,
    buf: Seq<u8>,
) -> bool {
    &&& buf.len() == rows * width * channels
    &&& forall|x: nat, y: nat, c: nat|
        x < width && y < rows && c < channels ==> pixel.ensures(
            (x as usize, (first_row + y) as usize, c as usize),
            #[trigger] buf[raster_index(width, channels, x, y, c) as int],
        )
}

/// `pixel` returns one value on each input.
pub open spec fn is_function<F: Fn(usize, usize, usize) -> u8>(pixel: F) -> bool {
    forall|a: (usize, usize, usize), r1: u8, r2: u8|
        pixel.ensures(a, r1) && pixel.ensures(a, r2) ==> r1 == r2
}

proof fn lemma_raster_index_unique(width: nat, channels: nat, x: nat, y: nat, c: nat)
    requires
        x < width,
        c < channels,
    ensures
        raster_index(width, channels, x, y, c) % channels == c,
        raster_index(width, channels, x, y, c) / channels == y * width + x,
        (y * width + x) % width == x,
        (y * width + x) / width == y,
{
    lemma_fundamental_div_mod_converse(
        raster_index(width, channels, x, y, c) as int,
        channels as int,
        (y * width + x) as int,
        c as int,
    );
    lemma_fundamental_div_mod_converse((y * width + x) as int, width as int, y as int, x as int);
}

proof fn lemma_raster_index_injective(
    width: nat,
    channels: nat,
    x1: nat,
    y1: nat,
    c1: nat,
    x2: nat,
    y2: nat,
    c2: nat,
)
    requires
        x1 < width,
        c1 < channels,
        x2 < width,
        c2 < channels,
        raster_index(width, channels, x1, y1, c1) == raster_index(width, channels, x2, y2, c2),
    ensures
        x1 == x2 && y1 == y2 && c1 == c2,
{
    lemma_raster_index_unique(width, channels, x1, y1, c1);
    lemma_raster_index_unique(width, channels, x2, y2, c2);
}

proof fn lemma_raster_index_bound(width: nat, channels: nat, x: nat, y: nat, c: nat, rows: nat)
    requires
        x < width,
        c < channels,
        y < rows,
    ensures
        raster_index(width, channels, x, y, c) < rows * width * channels,
{
    assert((y * width + x) * channels + c < rows * width * channels) by (nonlinear_arith)
        requires x < width, c < channels, y < rows;
}

/// How many bands of `band_height` rows cover `height` rows.
pub fn band_count(height: usize, band_height: usize) -> (r: usize)
    requires
        band_height > 0,
    ensures
        r == band_count_of(height as nat, band_height as nat),
{
    if height % band_height == 0 {
        height / band_height
    } else {
        assert(height / band_height < height) by (nonlinear_arith)
            requires band_height > 0, height % band_height != 0;
        height / band_height + 1
    }
}

/// The rows of band `index`: its first row, and one past its last.
pub fn band_rows(index: usize, height: usize, band_height: usize) -> (r: (usize, usize))
    requires
        band_height > 0,
        index < band_count_of(height as nat, band_height as nat),
    ensures
        r.0 == band_start(index as nat, band_height as nat),
        r.1 == band_end(index as nat, band_height as nat, height as nat),
        r.0 < r.1 <= height,
{
    assert(index * band_height < height) by (nonlinear_arith)
        requires
            band_height > 0,
            index < band_count_of(height as nat, band_height as nat);
    let start = index * band_height;
    assert((index + 1) * band_height == start + band_height) by (nonlinear_arith)
        requires start == index * band_height;
    if band_height <= height - start {
        (start, start + band_height)
    } else {
        (start, height)
    }
}

/// Renders rows `first_row` to `first_row + rows` (exclusive) of a raster
/// `width` pixels wide, with `channels` bytes a pixel.
pub fn render_band<F: Fn(usize, usize, usize) -> u8>(
    first_row: usize,
    rows: usize,
    width: usize,
    channels: usize,
    pixel: &F,
) -> (r: Vec<u8>)
    requires
        rows * width * channels <= usize::MAX,
        first_row + rows <= usize::MAX,
        forall|x: usize, y: usize, c: usize| pixel.requires((x, y, c)),
    ensures
        holds_rows(*pixel, width as nat, channels as nat, first_row as nat, rows as nat, r@),
{
    let total = if channels == 0 {
        0
    } else {
        assert(rows * width <= rows * width * channels) by (nonlinear_arith)
            requires channels > 0;
        rows * width * channels
    };
    let mut out: Vec<u8> = Vec::new();
    let mut k: usize = 0;
    while k < total
        invariant
            total == rows * width * channels,
            first_row + rows <= usize::MAX,
            forall|x: usize, y: usize, c: usize| pixel.requires((x, y, c)),
            k <= total,
            out@.len() == k,
            forall|x: nat, y: nat, c: nat|
                x < width && y < rows && c < channels && raster_index(
                    width as nat,
                    channels as nat,
                    x,
                    y,
                    c,
                ) < k ==> pixel.ensures(
                    (x as usize, (first_row + y) as usize, c as usize),
                    #[trigger] out@[raster_index(width as nat, channels as nat, x, y, c) as int],
                ),
        decreases total - k,
    {
        assert(width > 0 && channels > 0) by (nonlinear_arith)
            requires k < total, total == rows * width * channels;
        let c = k % channels;
        let x = (k / channels) % width;
        let y = (k / channels) / width;
        proof {
            lemma_fundamental_div_mod(k as int, channels as int);
            lemma_fundamental_div_mod((k / channels) as int, width as int);
            let q = k / channels;
            assert((y * width + x) * channels + c == k) by (nonlinear_arith)
                requires
                    k == channels * q + c,
                    q == width * y + x;
            assert(y < rows) by (nonlinear_arith)
                requires
                    k < total,
                    total == rows * width * channels,
                    k == (y * width + x) * channels + c,
                    x < width, c < channels;
        }
        let v = pixel(x, first_row + y, c);
        out.push(v);
        proof {
            assert forall|x2: nat, y2: nat, c2: nat|
                x2 < width && y2 < rows && c2 < channels && raster_index(
                    width as nat,
                    channels as nat,
                    x2,
                    y2,
                    c2,
                ) < k + 1 implies pixel.ensures(
                    (x2 as usize, (first_row + y2) as usize, c2 as usize),
                    #[trigger] out@[raster_index(width as nat, channels as nat, x2, y2, c2) as int],
                ) by {
                if raster_index(width as nat, channels as nat, x2, y2, c2) == k {
                    lemma_raster_index_injective(
                        width as nat, channels as nat, x2, y2, c2, x as nat, y as nat, c as nat);
                }
            }
        }
        k += 1;
    }
    proof {
        assert forall|x: nat, y: nat, c: nat|
            x < width && y < rows && c < channels implies pixel.ensures(
                (x as usize, (first_row + y) as usize, c as usize),
                #[trigger] out@[raster_index(width as nat, channels as nat, x, y, c) as int],
            ) by {
            lemma_raster_index_bound(width as nat, channels as nat, x, y, c, rows as nat);
        }
    }
    out
}


/// Bands partition the rows: band `y / band_height` is the one band that
/// holds row `y`, every band holds at least one row, and each band starts
/// where the one before it ends, from row 0 to the last row.
pub proof fn lemma_bands_partition(height: nat, band_height: nat)
    requires
        band_height > 0,
    ensures
        forall|y: nat|
            y < height ==> {
                &&& #[trigger] (y / band_height) < band_count_of(height, band_height)
                &&& band_start(y / band_height, band_height) <= y
                &&& y < band_end(y / band_height, band_height, height)
            },
        forall|i: nat, y: nat|
            i < band_count_of(height, band_height) && band_start(i, band_height) <= y && y
                < #[trigger] band_end(i, band_height, height) ==> i == #[trigger] (y / band_height),
        forall|i: nat|
            i < band_count_of(height, band_height) ==> #[trigger] band_start(i, band_height)
                < band_end(i, band_height, height),
        forall|i: nat|
            i + 1 < band_count_of(height, band_height) ==> #[trigger] band_end(i, band_height, height)
                == band_start(i + 1, band_height),
        band_count_of(height, band_height) > 0 ==> band_start(0, band_height) == 0 && band_end(
            (band_count_of(height, band_height) - 1) as nat,
            band_height,
            height,
        ) == height,
{
    let n = band_count_of(height, band_height);
    lemma_fundamental_div_mod(height as int, band_height as int);
    assert forall|y: nat| y < height implies {
        &&& #[trigger] (y / band_height) < n
        &&& band_start(y / band_height, band_height) <= y
        &&& y < band_end(y / band_height, band_height, height)
    } by {
        lemma_fundamental_div_mod(y as int, band_height as int);
        let q = y / band_height;
        assert(q < n && q * band_height <= y && y < (q + 1) * band_height) by (nonlinear_arith)
            requires
                y == band_height * q + y % band_height,
                0 <= y % band_height < band_height,
                y < height,
                n == (if height % band_height == 0 { height / band_height } else { height / band_height + 1 }),
                height == band_height * (height / band_height) + height % band_height,
                0 <= height % band_height < band_height;
    }
    assert forall|i: nat, y: nat|
        i < n && band_start(i, band_height) <= y && y < #[trigger] band_end(i, band_height, height)
        implies i == #[trigger] (y / band_height) by {
        assert(y < (i + 1) * band_height);
        assert(y - i * band_height < band_height) by (nonlinear_arith)
            requires y < (i + 1) * band_height;
        lemma_fundamental_div_mod_converse(
            y as int, band_height as int, i as int, (y - i * band_height) as int);
    }
    assert forall|i: nat| i < n implies #[trigger] band_start(i, band_height) < band_end(i, band_height, height) by {
        assert(i * band_height < height && i * band_height < (i + 1) * band_height) by (nonlinear_arith)
            requires
                band_height > 0,
                i < n,
                n == (if height % band_height == 0 { height / band_height } else { height / band_height + 1 }),
                height == band_height * (height / band_height) + height % band_height,
                0 <= height % band_height < band_height;
    }
    assert forall|i: nat| i + 1 < n implies #[trigger] band_end(i, band_height, height) == band_start(i + 1, band_height) by {
        assert((i + 1) * band_height <= height) by (nonlinear_arith)
            requires
                band_height > 0,
                i + 1 < n,
                n == (if height % band_height == 0 { height / band_height } else { height / band_height + 1 }),
                height == band_height * (height / band_height) + height % band_height,
                0 <= height % band_height < band_height;
    }
    if n > 0 {
        assert(band_end((n - 1) as nat, band_height, height) == height) by (nonlinear_arith)
            requires
                band_height > 0,
                n > 0,
                n == (if height % band_height == 0 { height / band_height } else { height / band_height + 1 }),
                height == band_height * (height / band_height) + height % band_height,
                0 <= height % band_height < band_height,
                band_end((n - 1) as nat, band_height, height) == (if n * band_height <= height { n * band_height } else { height });
    }
}

/// Copies each band into the output at its first row, so that row `y` of
/// the result is row `y % band_height` of band `y / band_height`.
pub fn stitch(
    bands: &Vec<Vec<u8>>,
    width: usize,
    height: usize,
    channels: usize,
    band_height: usize,
) -> (r: Vec<u8>)
    requires
        band_height > 0,
        width * height * channels <= usize::MAX,
        bands@.len() == band_count_of(height as nat, band_height as nat),
        forall|i: int|
            0 <= i < bands@.len() ==> (#[trigger] bands@[i])@.len() == (band_end(
                i as nat,
                band_height as nat,
                height as nat,
            ) - band_start(i as nat, band_height as nat)) * width * channels,
    ensures
        r@.len() == height * width * channels,
        forall|x: nat, y: nat, c: nat|
            x < width && y < height && c < channels ==> #[trigger] r@[raster_index(
                width as nat,
                channels as nat,
                x,
                y,
                c,
            ) as int] == bands@[(y / (band_height as nat)) as int]@[raster_index(
                width as nat,
                channels as nat,
                x,
                y % (band_height as nat),
                c,
            ) as int],
{
    proof {
        lemma_bands_partition(height as nat, band_height as nat);
    }
    if height == 0 || width == 0 || channels == 0 {
        assert(height * width * channels == 0) by (nonlinear_arith)
            requires height == 0 || width == 0 || channels == 0;
        return Vec::new();
    }
    assert(width * channels <= width * height * channels && height * width * channels == width * height * channels) by (nonlinear_arith)
        requires height > 0;
    let row_bytes = width * channels;
    assert(height * row_bytes == width * height * channels) by (nonlinear_arith)
        requires row_bytes == width * channels;
    let total = height * row_bytes;
    assert(total == height * width * channels) by (nonlinear_arith)
        requires total == height * row_bytes, row_bytes == width * channels;
    let mut out: Vec<u8> = Vec::new();
    while out.len() < total
        invariant
            out@.len() <= total,
        decreases total - out@.len(),
    {
        out.push(0);
    }
    let count = bands.len();
    let mut i: usize = 0;
    while i < count
        invariant
            count == bands@.len(),
            count == band_count_of(height as nat, band_height as nat),
            band_height > 0,
            height > 0,
            row_bytes == width * channels,
            total == height * width * channels,
            out@.len() == total,
            i <= count,
            forall|i2: int|
                0 <= i2 < bands@.len() ==> (#[trigger] bands@[i2])@.len() == (band_end(
                    i2 as nat,
                    band_height as nat,
                    height as nat,
                ) - band_start(i2 as nat, band_height as nat)) * width * channels,
            forall|y: nat| y < height ==> {
                &&& #[trigger] (y / (band_height as nat)) < band_count_of(height as nat, band_height as nat)
                &&& band_start(y / (band_height as nat), band_height as nat) <= y
                &&& y < band_end(y / (band_height as nat), band_height as nat, height as nat)
            },
            forall|i2: nat, y: nat|
                i2 < band_count_of(height as nat, band_height as nat) && band_start(i2, band_height as nat) <= y && y
                    < #[trigger] band_end(i2, band_height as nat, height as nat) ==> i2 == #[trigger] (y / (band_height as nat)),
            forall|x: nat, y: nat, c: nat|
                x < width && y < height && c < channels && y / (band_height as nat)
                    < i ==> #[trigger] out@[raster_index(width as nat, channels as nat, x, y, c) as int]
                    == bands@[(y / (band_height as nat)) as int]@[raster_index(
                    width as nat,
                    channels as nat,
                    x,
                    y % (band_height as nat),
                    c,
                ) as int],
        decreases count - i,
    {
        let (start, end) = band_rows(i, height, band_height);
        let band = &bands[i];
        assert(start * row_bytes + band@.len() <= total && band@.len() == (end - start) * row_bytes) by (nonlinear_arith)
            requires
                band@.len() == (end - start) * width * channels,
                row_bytes == width * channels,
                start < end <= height,
                total == height * width * channels;
        let offset = start * row_bytes;
        let ghost before = out@;
        let mut j: usize = 0;
        while j < band.len()
            invariant
                offset + band@.len() <= total,
                out@.len() == total,
                j <= band@.len(),
                forall|t: int| 0 <= t < offset ==> out@[t] == before[t],
                forall|t: int| 0 <= t < j ==> out@[offset + t] == band@[t],
            decreases band@.len() - j,
        {
            out.set(offset + j, band[j]);
            j += 1;
        }
        proof {
            assert forall|x: nat, y: nat, c: nat|
                x < width && y < height && c < channels && y / (band_height as nat)
                    < i + 1 implies #[trigger] out@[raster_index(width as nat, channels as nat, x, y, c) as int]
                    == bands@[(y / (band_height as nat)) as int]@[raster_index(
                    width as nat,
                    channels as nat,
                    x,
                    y % (band_height as nat),
                    c,
                ) as int] by {
                let q = y / (band_height as nat);
                lemma_fundamental_div_mod(y as int, band_height as int);
                if q < i {
                    assert(band_start(q, band_height as nat) < band_end(q, band_height as nat, height as nat));
                    assert(q + 1 <= i);
                    assert((q + 1) * band_height <= i * band_height) by (nonlinear_arith)
                        requires q + 1 <= i;
                    assert(y < start);
                    lemma_raster_index_bound(width as nat, channels as nat, x, y, c, start as nat);
                    assert(start * width * channels == offset) by (nonlinear_arith)
                        requires offset == start * row_bytes, row_bytes == width * channels;
                    let k = raster_index(width as nat, channels as nat, x, y, c) as int;
                    assert(out@[k] == before[k]);
                } else {
                    assert(q == i);
                    let yl = (y - start) as nat;
                    assert(y % (band_height as nat) == yl) by (nonlinear_arith)
                        requires
                            yl == y - start,
                            y == band_height * q + y % (band_height as nat),
                            start == i * band_height,
                            q == i;
                    assert(raster_index(width as nat, channels as nat, x, y, c) == offset + raster_index(
                        width as nat, channels as nat, x, yl, c)) by (nonlinear_arith)
                        requires
                            offset == start * row_bytes,
                            row_bytes == width * channels,
                            yl == y - start;
                    assert(y < end);
                    lemma_raster_index_bound(width as nat, channels as nat, x, yl, c, (end - start) as nat);
                    assert((end - start) * width * channels == (end - start) * row_bytes) by (nonlinear_arith)
                        requires row_bytes == width * channels;
                    let kl = raster_index(width as nat, channels as nat, x, yl, c) as int;
                    assert(out@[offset + kl] == band@[kl]);
                }
            }
        }
        i += 1;
    }
    proof {
        assert(height * width * channels == width * height * channels) by (nonlinear_arith);
    }
    out
}

/// Relies on rayon (`into_par_iter` on a range, `map`, `collect_into_vec`):
/// `f` on each of 0 to `n` (exclusive), run in parallel, the results in
/// index order.
#[verifier::external_body]
fn par_map<R: Send, G: Fn(usize) -> R + Sync + Send>(n: usize, f: G) -> (r: Vec<R>)
    requires
        forall|i: usize| i < n ==> f.requires((i,)),
    ensures
        r@.len() == n,
        forall|i: int| 0 <= i < n ==> f.ensures((i as usize,), #[trigger] r@[i]),
{
    let mut out = Vec::with_capacity(n);
    (0..n).into_par_iter().map(f).collect_into_vec(&mut out);
    out
}

/// Renders a raster `width` by `height` pixels of `channels` bytes, in bands
/// of `band_height` rows rendered in parallel.
pub fn render<F: Fn(usize, usize, usize) -> u8 + Sync>(
    width: usize,
    height: usize,
    channels: usize,
    band_height: usize,
    pixel: &F,
) -> (r: Vec<u8>)
    requires
        band_height > 0,
        width * height * channels <= usize::MAX,
        forall|x: usize, y: usize, c: usize| pixel.requires((x, y, c)),
    ensures
        holds_rows(*pixel, width as nat, channels as nat, 0, height as nat, r@),
{
    proof {
        lemma_bands_partition(height as nat, band_height as nat);
    }
    let count = band_count(height, band_height);
    let job = |i: usize| -> (b: Vec<u8>)
        requires
            i < count,
        ensures
            holds_rows(
                *pixel,
                width as nat,
                channels as nat,
                band_start(i as nat, band_height as nat),
                (band_end(i as nat, band_height as nat, height as nat) - band_start(i as nat, band_height as nat)) as nat,
                b@,
            ),
        {
            let (start, end) = band_rows(i, height, band_height);
            assert((end - start) * width * channels <= width * height * channels) by (nonlinear_arith)
                requires start < end <= height;
            render_band(start, end - start, width, channels, pixel)
        };
    let bands = par_map(count, job);
    let out = stitch(&bands, width, height, channels, band_height);
    proof {
        assert forall|i: int| 0 <= i < bands@.len() implies (#[trigger] bands@[i])@.len() == (band_end(
            i as nat,
            band_height as nat,
            height as nat,
        ) - band_start(i as nat, band_height as nat)) * width * channels by {
            assert(job.ensures((i as usize,), bands@[i]));
        }
        assert forall|x: nat, y: nat, c: nat| x < width && y < height && c < channels implies pixel.ensures(
            (x as usize, (0 + y) as usize, c as usize),
            #[trigger] out@[raster_index(width as nat, channels as nat, x, y, c) as int],
        ) by {
            let q = y / (band_height as nat);
            lemma_fundamental_div_mod(y as int, band_height as int);
            assert(job.ensures((q as usize,), bands@[q as int]));
            let yl = y % (band_height as nat);
            assert(band_start(q, band_height as nat) + yl == y) by (nonlinear_arith)
                requires y == band_height * q + yl;
        }
        assert(height * width * channels == width * height * channels) by (nonlinear_arith);
    }
    out
}

/// Rendering does not depend on how the raster is cut into bands: two
/// buffers that hold all rows of one pixel function's raster are equal, so
/// `render` gives the same bytes for any two band heights.
pub proof fn lemma_band_height_irrelevant<F: Fn(usize, usize, usize) -> u8>(
    pixel: F,
    width: nat,
    height: nat,
    channels: nat,
    a: Seq<u8>,
    b: Seq<u8>,
)
    requires
        is_function(pixel),
        holds_rows(pixel, width, channels, 0, height, a),
        holds_rows(pixel, width, channels, 0, height, b),
    ensures
        a == b,
{
    assert forall|k: int| 0 <= k < a.len() implies a[k] == b[k] by {
        assert(width > 0 && channels > 0) by (nonlinear_arith)
            requires 0 <= k < a.len(), a.len() == height * width * channels;
        lemma_fundamental_div_mod(k, channels as int);
        let q = k / channels as int;
        lemma_fundamental_div_mod(q, width as int);
        let c = (k % channels as int) as nat;
        let x = (q % width as int) as nat;
        let y = (q / width as int) as nat;
        assert((y * width + x) * channels + c == k && y < height) by (nonlinear_arith)
            requires
                k == channels * q + c,
                q == width * y + x,
                x < width, c < channels,
                0 <= k < height * width * channels;
        assert(pixel.ensures((x as usize, (0 + y) as usize, c as usize), a[raster_index(width, channels, x, y, c) as int]));
        assert(pixel.ensures((x as usize, (0 + y) as usize, c as usize), b[raster_index(width, channels, x, y, c) as int]));
    }
    assert(a =~= b);
}

} // verus!
