//! What the art generators are called and how they are grouped.

use vstd::prelude::*;
use vstd::arithmetic::div_mod::lemma_fundamental_div_mod_converse;
use vstd::string::StringSliceAdditionalSpecFns;
use crate::stream::{ForeveRNG, StreamView, fork, seeded, zero_block};

verus! {

/// The kind of generator: a test of the plumbing, a plain noise, or a piece.
#[derive(Clone, Copy, Debug, Hash, PartialEq, Eq, Structural)]
pub enum Category {
    /// A generator just meant to be used to test other infrastructure
    Test,
    /// A single, simple generator of a standard type of noise
    Basic,
    /// An art piece, built out of other generators etc.
    Project,
}

pub open spec fn category_name(c: Category) -> Seq<char> {
    match c {
        Category::Test => "test"@,
        Category::Basic => "basic"@,
        Category::Project => "project"@,
    }
}

pub open spec fn category_description(c: Category) -> Seq<char> {
    match c {
        Category::Test => "A generator just meant to be used to test other infrastructure"@,
        Category::Basic => "A single, simple generator of noise, maybe with octaves or inversion applied"@,
        Category::Project => "An art piece, built out of other generators etc."@,
    }
}

impl Category {
    /// Every category, each once.
    pub fn all() -> (r: [Category; 3])
        ensures
            r@ == seq![Category::Test, Category::Basic, Category::Project],
    {
        let r = [Category::Test, Category::Basic, Category::Project];
        assert(r@ =~= seq![Category::Test, Category::Basic, Category::Project]);
        r
    }

    /// The name of the category's subcommand.
    pub fn name(&self) -> (r: &'static str)
        ensures
            r@ == category_name(*self),
    {
        match self {
            Category::Test => "test",
            Category::Basic => "basic",
            Category::Project => "project",
        }
    }

    /// What the category's generators are for.
    pub fn description(&self) -> (r: &'static str)
        ensures
            r@ == category_description(*self),
    {
        match self {
            Category::Test => "A generator just meant to be used to test other infrastructure",
            Category::Basic => "A single, simple generator of noise, maybe with octaves or inversion applied",
            Category::Project => "An art piece, built out of other generators etc.",
        }
    }
}

/// The lower-case hexadecimal digit of `v` (below 16), in ASCII.
pub open spec fn hex_digit(v: nat) -> u8 {
    if v < 10 {
        (48 + v) as u8
    } else {
        (87 + v) as u8
    }
}

/// Each byte of `data` as a space and two hex digits.
pub open spec fn hex_listing(data: Seq<u8>) -> Seq<u8> {
    Seq::new(
        3 * data.len(),
        |k: int|
            if k % 3 == 0 {
                32u8
            } else if k % 3 == 1 {
                hex_digit((data[k / 3] / 16) as nat)
            } else {
                hex_digit((data[k / 3] % 16) as nat)
            },
    )
}

/// How many bytes of each stream the ASCII test shows.
pub const SHOWN_BYTES: usize = 32;

/// The two lines that show the first bytes of stream `s` under `name`.
pub open spec fn shown_lines(name: Seq<u8>, s: StreamView) -> Seq<u8> {
    "Some random data from ".spec_bytes() + name + seq![10u8] + hex_listing(s.bytes(
        SHOWN_BYTES as nat,
    )) + seq![10u8]
}

fn hex_char(v: u8) -> (r: u8)
    requires
        v < 16,
    ensures
        r == hex_digit(v as nat),
{
    if v < 10 {
        48 + v
    } else {
        87 + v
    }
}

/// Appends the hex listing of `data` to `out`.
fn push_hex_listing(out: &mut Vec<u8>, data: &[u8])
    ensures
        final(out)@ == old(out)@ + hex_listing(data@),
{
    let ghost start = out@;
    let mut i: usize = 0;
    while i < data.len()
        invariant
            i <= data@.len(),
            out@ =~= start + hex_listing(data@.subrange(0, i as int)),
        decreases data@.len() - i,
    {
        let b = data[i];
        out.push(32);
        out.push(hex_char(b / 16));
        out.push(hex_char(b % 16));
        proof {
            let done = data@.subrange(0, i + 1);
            assert forall|k: int| 0 <= k < 3 * (i + 1) implies #[trigger] hex_listing(done)[k]
                == (if k < 3 * i { hex_listing(data@.subrange(0, i as int))[k] } else if k == 3 * i { 32u8 } else if k == 3 * i + 1 { hex_digit((b / 16) as nat) } else { hex_digit((b % 16) as nat) }) by {
                lemma_fundamental_div_mod_converse(k, 3, k / 3, k % 3);
                if k >= 3 * i {
                    lemma_fundamental_div_mod_converse(k, 3, i as int, k - 3 * i);
                }
            }
            assert(out@ =~= start + hex_listing(done));
        }
        i += 1;
    }
    assert(data@.subrange(0, data@.len() as int) =~= data@);
}

/// The two lines that show the first bytes of `rng` under `name`.
pub fn write_from(rng: ForeveRNG, name: &str) -> (r: Vec<u8>)
    requires
        rng@.wf(),
    ensures
        r@ == shown_lines(name.spec_bytes(), rng@),
{
    let mut rng = rng;
    let ghost s = rng@;
    let mut out: Vec<u8> = Vec::new();
    let prefix = "Some random data from ".as_bytes();
    let label = name.as_bytes();
    let mut i: usize = 0;
    while i < prefix.len()
        invariant
            i <= prefix@.len(),
            out@ =~= prefix@.subrange(0, i as int),
        decreases prefix@.len() - i,
    {
        out.push(prefix[i]);
        i += 1;
    }
    let mut j: usize = 0;
    while j < label.len()
        invariant
            j <= label@.len(),
            out@ =~= prefix@ + label@.subrange(0, j as int),
        decreases label@.len() - j,
    {
        out.push(label[j]);
        j += 1;
    }
    out.push(10);
    let mut random_data = [0u8; SHOWN_BYTES];
    rng.fill_bytes(&mut random_data);
    push_hex_listing(&mut out, &random_data);
    out.push(10);
    assert(out@ =~= shown_lines(name.spec_bytes(), s));
    out
}

/// A test generator that prints bytes from a stream and from its forks.
pub struct TestAscii;

impl TestAscii {
    pub fn category(&self) -> (r: Category)
        ensures
            r == Category::Test,
    {
        Category::Test
    }

    pub fn command(&self) -> (r: &'static str)
        ensures
            r@ == "ascii"@,
    {
        "ascii"
    }

    pub fn about(&self) -> (r: &'static str)
        ensures
            r@ == "A test generator which outputs some ASCII"@,
    {
        "A test generator which outputs some ASCII"
    }

    /// What the generator prints about `seed`, after the seed itself: the
    /// first bytes of the root stream, of a fork on "Hello", of a fork on
    /// "World", and of a second fork on "Hello" (which match the first).
    pub fn report(seed: &[u8]) -> (r: Vec<u8>)
        ensures
            r@ == shown_lines("Parent".spec_bytes(), seeded(zero_block(), seed@)) + shown_lines(
                "Child 1-1".spec_bytes(),
                fork(seeded(zero_block(), seed@), "Hello".spec_bytes()),
            ) + shown_lines(
                "Child 2".spec_bytes(),
                fork(seeded(zero_block(), seed@), "World".spec_bytes()),
            ) + shown_lines(
                "Child 1-2".spec_bytes(),
                fork(seeded(zero_block(), seed@), "Hello".spec_bytes()),
            ),
    {
        let rng = ForeveRNG::with_seed(seed);
        let c1 = rng.reseed("Hello".as_bytes());
        let c2 = rng.reseed("World".as_bytes());
        let c3 = rng.reseed("Hello".as_bytes());
        let mut out = write_from(rng, "Parent");
        let mut more = write_from(c1, "Child 1-1");
        out.append(&mut more);
        let mut more = write_from(c2, "Child 2");
        out.append(&mut more);
        let mut more = write_from(c3, "Child 1-2");
        out.append(&mut more);
        out
    }
}

/// A test generator that renders lattice noise in three colour channels.
pub struct Test2D;

impl Test2D {
    pub fn category(&self) -> (r: Category)
        ensures
            r == Category::Test,
    {
        Category::Test
    }

    pub fn command(&self) -> (r: &'static str)
        ensures
            r@ == "2d"@,
    {
        "2d"
    }

    pub fn about(&self) -> (r: &'static str)
        ensures
            r@ == "A test generator which outputs a PNG"@,
    {
        "A test generator which outputs a PNG"
    }

    /// The seed of colour channel `channel`: the channel's number, then the seed.
    pub fn channel_seed(seed: &[u8], channel: u8) -> (r: Vec<u8>)
        ensures
            r@ == seq![channel] + seed@,
    {
        let mut out: Vec<u8> = Vec::new();
        out.push(channel);
        let mut i: usize = 0;
        while i < seed.len()
            invariant
                i <= seed@.len(),
                out@ == seq![channel] + seed@.subrange(0, i as int),
            decreases seed@.len() - i,
        {
            out.push(seed[i]);
            i += 1;
            assert(out@ =~= seq![channel] + seed@.subrange(0, i as int));
        }
        assert(seed@.subrange(0, seed@.len() as int) =~= seed@);
        out
    }
}

/// A generator of cellular noise images.
pub struct WorleyGen;

impl WorleyGen {
    pub fn category(&self) -> (r: Category)
        ensures
            r == Category::Basic,
    {
        Category::Basic
    }

    pub fn command(&self) -> (r: &'static str)
        ensures
            r@ == "basic:worley"@,
    {
        "basic:worley"
    }

    pub fn about(&self) -> (r: &'static str)
        ensures
            r@ == "Generate Worley noise"@,
    {
        "Generate Worley noise"
    }
}

/// A piece that blends two images, picking pixels by noise.
pub struct Mottler;

impl Mottler {
    pub fn category(&self) -> (r: Category)
        ensures
            r == Category::Project,
    {
        Category::Project
    }

    pub fn command(&self) -> (r: &'static str)
        ensures
            r@ == "mottle"@,
    {
        "mottle"
    }

    pub fn about(&self) -> (r: &'static str)
        ensures
            r@ == "Blend two images together by picking pixels based on 2D noise"@,
    {
        "Blend two images together by picking pixels based on 2D noise"
    }
}

} // verus!
