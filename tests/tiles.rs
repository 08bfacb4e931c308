use hart::{band_count, band_rows, render, render_band, stitch, Checkerboard, Worley};

fn pattern(x: usize, y: usize, c: usize) -> u8 {
    (x * 31 + y * 7 + c * 101) as u8
}

#[test]
fn band_count_rounds_up() {
    assert_eq!(band_count(5, 2), 3);
    assert_eq!(band_count(6, 2), 3);
    assert_eq!(band_count(7, 3), 3);
    assert_eq!(band_count(0, 8), 0);
    assert_eq!(band_count(2160, 8), 270);
    assert_eq!(band_count(1, 8), 1);
}

#[test]
fn stitch_coverage_four_by_five_in_bands_of_two() {
    let n = band_count(5, 2);
    assert_eq!(n, 3);
    let bands: Vec<(usize, usize)> = (0..n).map(|i| band_rows(i, 5, 2)).collect();
    assert_eq!(bands, vec![(0, 2), (2, 4), (4, 5)]);
    let mut seen = [0u32; 5];
    for (s, e) in bands {
        for y in s..e {
            seen[y] += 1;
        }
    }
    assert_eq!(seen, [1; 5]);
    let out = render(4, 5, 1, 2, &|x: usize, y: usize, _c: usize| (y * 4 + x) as u8);
    assert_eq!(out, (0u8..20).collect::<Vec<u8>>());
}

#[test]
fn band_renders_its_rows() {
    let b = render_band(3, 2, 2, 3, &pattern);
    assert_eq!(b.len(), 12);
    assert_eq!(b[0], pattern(0, 3, 0));
    assert_eq!(b[5], pattern(1, 3, 2));
    assert_eq!(b[6], pattern(0, 4, 0));
    assert_eq!(b[11], pattern(1, 4, 2));
}

#[test]
fn stitch_places_each_band_at_its_first_row() {
    let bands = vec![vec![1u8, 2, 3, 4], vec![5u8, 6, 7, 8], vec![9u8, 10]];
    let out = stitch(&bands, 2, 5, 1, 2);
    assert_eq!(out, vec![1, 2, 3, 4, 5, 6, 7, 8, 9, 10]);
}

#[test]
fn band_height_two_and_three_give_the_same_bytes() {
    let a = render(5, 7, 3, 2, &pattern);
    let b = render(5, 7, 3, 3, &pattern);
    assert_eq!(a.len(), 5 * 7 * 3);
    assert_eq!(a, b);
    let c = render(5, 7, 3, 100, &pattern);
    assert_eq!(a, c);
    for y in 0..7 {
        for x in 0..5 {
            for ch in 0..3 {
                assert_eq!(a[(y * 5 + x) * 3 + ch], pattern(x, y, ch));
            }
        }
    }
}

#[test]
fn empty_rasters_render_empty() {
    assert!(render(0, 4, 1, 2, &pattern).is_empty());
    assert!(render(4, 0, 1, 2, &pattern).is_empty());
    assert!(render(4, 4, 0, 2, &pattern).is_empty());
}

fn cell_noise(w: &Worley, x: f32, y: f32) -> f32 {
    let (fx, fy) = (x.rem_euclid(1.0), y.rem_euclid(1.0));
    let mut min_sq = 1.0f32;
    for p in w.feature_points(x.floor() as i64, y.floor() as i64) {
        let px = p.x as f32 / 16777216.0 + p.dx as f32;
        let py = p.y as f32 / 16777216.0 + p.dy as f32;
        let d = (px - fx) * (px - fx) + (py - fy) * (py - fy);
        if d < min_sq {
            min_sq = d;
        }
    }
    min_sq.sqrt()
}

fn lattice_octaves(c: &Checkerboard, x: f32, y: f32) -> f32 {
    let (mut sum, mut max, mut zoom, mut scale) = (0.0f32, 0.0f32, 1.0f32, 1.0f32);
    for _ in 0..3 {
        sum += c.cell((x * zoom) as i64, (y * zoom) as i64) as f32 * scale;
        max += scale;
        zoom *= 2.0;
        scale *= 0.5;
    }
    sum / max
}

#[test]
fn cell_noise_raster_from_empty_seed_is_reproducible() {
    let run = || {
        let w = Worley::new(&[]);
        render(4, 4, 1, 2, &move |x: usize, y: usize, _c: usize| {
            let v = cell_noise(&w, x as f32, y as f32);
            assert!((0.0..=1.0).contains(&v));
            (v * 255.0) as u8
        })
    };
    let a = run();
    let b = run();
    assert_eq!(a.len(), 16);
    assert_eq!(a, b);
}

#[test]
fn lattice_octaves_stay_in_range_and_agree() {
    let a = Checkerboard::new(b"X");
    let b = Checkerboard::new(b"X");
    for i in 0..100 {
        let x = i as f32 * 0.37 - 18.0;
        let y = i as f32 * -0.53 + 7.0;
        let va = lattice_octaves(&a, x, y);
        let vb = lattice_octaves(&b, x, y);
        assert!((0.0..=1.0).contains(&va));
        assert_eq!(va.to_bits(), vb.to_bits());
    }
}
