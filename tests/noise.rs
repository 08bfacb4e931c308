use hart::{Checkerboard, ForeveRNG, Quadrant, Worley};
use rand::{Rng, RngCore};

struct Draws(ForeveRNG);

impl RngCore for Draws {
    fn next_u32(&mut self) -> u32 {
        self.0.next_u32()
    }
    fn next_u64(&mut self) -> u64 {
        self.0.next_u64()
    }
    fn fill_bytes(&mut self, dest: &mut [u8]) {
        self.0.fill_bytes(dest)
    }
    fn try_fill_bytes(&mut self, dest: &mut [u8]) -> Result<(), rand::Error> {
        self.0.fill_bytes(dest);
        Ok(())
    }
}

fn cell_seed(x: i64, y: i64) -> [u8; 16] {
    let mut s = [0u8; 16];
    s[..8].copy_from_slice(&x.to_be_bytes());
    s[8..].copy_from_slice(&y.to_be_bytes());
    s
}

#[test]
fn feature_point_is_top_bits_of_two_draws_of_the_cell_fork() {
    let w = Worley::new(b"cells");
    let root = ForeveRNG::with_seed(b"cells");
    for (x, y) in [(0i64, 0i64), (-3, 7), (i64::MAX, i64::MIN)] {
        let mut sub = root.reseed(&cell_seed(x, y));
        let a = sub.next_u32() >> 8;
        let b = sub.next_u32() >> 8;
        assert_eq!(w.feature_point(x, y), (a, b));
    }
}

#[test]
fn feature_point_matches_rand_unit_floats() {
    let w = Worley::new(b"floats");
    let root = ForeveRNG::with_seed(b"floats");
    let (fx, fy) = w.feature_point(4, -2);
    let mut r = Draws(root.reseed(&cell_seed(4, -2)));
    let gx: f32 = r.gen();
    let gy: f32 = r.gen();
    assert_eq!(fx as f32 / 16777216.0, gx);
    assert_eq!(fy as f32 / 16777216.0, gy);
}

#[test]
fn nine_neighbours_in_order() {
    let w = Worley::new(b"n");
    let pts = w.feature_points(10, 20);
    assert_eq!(pts.len(), 9);
    let expected = [(-1, 1), (0, 1), (1, 1), (-1, 0), (0, 0), (1, 0), (-1, -1), (0, -1), (1, -1)];
    for (k, p) in pts.iter().enumerate() {
        assert_eq!((p.dx, p.dy), expected[k]);
        assert_eq!((p.x, p.y), w.feature_point(10 + p.dx, 20 + p.dy));
        assert!(p.x < 1 << 24 && p.y < 1 << 24);
    }
}

#[test]
fn neighbours_wrap_at_the_ends() {
    let w = Worley::new(b"wrap");
    let pts = w.feature_points(i64::MAX, i64::MIN);
    assert_eq!((pts[2].x, pts[2].y), w.feature_point(i64::MIN, i64::MIN + 1));
    assert_eq!((pts[6].x, pts[6].y), w.feature_point(i64::MAX - 1, i64::MAX));
}

#[test]
fn neighbouring_queries_share_feature_points() {
    let w = Worley::new(b"share");
    let a = w.feature_points(0, 0);
    let b = w.feature_points(1, 0);
    assert_eq!((a[5].x, a[5].y), (b[4].x, b[4].y));
}

#[test]
fn lattice_is_parity_of_the_first_draw() {
    let c = Checkerboard::new(b"lattice");
    let root = ForeveRNG::with_seed(b"lattice");
    let mut ones = 0;
    for x in -5i64..5 {
        for y in -5i64..5 {
            let v = c.cell(x, y);
            assert!(v <= 1);
            let mut sub = root.reseed(&cell_seed(x, y));
            assert_eq!(v as u32, sub.next_u32() % 2);
            ones += v as u32;
        }
    }
    assert!(ones > 0 && ones < 100);
}

#[test]
fn lattice_same_seed_same_cells() {
    let a = Checkerboard::new(b"X");
    let b = Checkerboard::new(b"X");
    for x in -10i64..10 {
        assert_eq!(a.cell(x, 3 * x), b.cell(x, 3 * x));
    }
}

#[test]
fn quadrant_by_signs() {
    assert_eq!(Quadrant::of_signs(true, true), Quadrant::NW);
    assert_eq!(Quadrant::of_signs(true, false), Quadrant::SW);
    assert_eq!(Quadrant::of_signs(false, true), Quadrant::NE);
    assert_eq!(Quadrant::of_signs(false, false), Quadrant::SE);
}
