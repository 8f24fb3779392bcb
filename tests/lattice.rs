use perlin2d::lattice::{cell_corners, lattice_hash, CellCorners};

fn lattice_value(x: i32, y: i32) -> f64 {
    1.0 - (lattice_hash(x, y) as f64) * 0.931322574615478515625e-9
}

#[test]
fn hash_known_values() {
    assert_eq!(lattice_hash(0, 0), 1376312589);
    assert_eq!(lattice_hash(1, 0), 1316808037);
    assert_eq!(lattice_hash(0, 1), 854329141);
    assert_eq!(lattice_hash(-1, -1), 2119548211);
    assert_eq!(lattice_hash(5, 10), 1685426229);
    assert_eq!(lattice_hash(123456, -654321), 901808453);
}

#[test]
fn hash_wraps_at_word_edges() {
    assert_eq!(lattice_hash(i32::MAX, 0), 107238581);
    // x + 57 * y wraps to zero here
    assert_eq!(lattice_hash(i32::MIN, i32::MIN), lattice_hash(0, 0));
}

#[test]
fn hash_is_deterministic() {
    for x in -20..20 {
        for y in -20..20 {
            assert_eq!(lattice_hash(x, y), lattice_hash(x, y));
        }
    }
}

#[test]
fn lattice_values_stay_in_unit_range() {
    let mut x: i64 = i32::MIN as i64;
    while x <= i32::MAX as i64 {
        let mut y: i64 = i32::MIN as i64;
        while y <= i32::MAX as i64 {
            let t = lattice_hash(x as i32, y as i32);
            assert!(t <= 0x7fff_ffff);
            let v = lattice_value(x as i32, y as i32);
            assert!((-1.0..=1.0).contains(&v));
            y += 16_777_259;
        }
        x += 16_777_213;
    }
}

#[test]
fn corners_known_values() {
    assert_eq!(
        cell_corners(0, 0),
        CellCorners { x0y0: 17052225744, x1y0: 18721482080, x0y1: 14802095584, x1y1: 18327451664 }
    );
    assert_eq!(
        cell_corners(5, 10),
        CellCorners { x0y0: 23427422272, x1y0: 22467307728, x0y1: 20507456976, x1y1: 18075937248 }
    );
    assert_eq!(
        cell_corners(-3, 7),
        CellCorners { x0y0: 22179595600, x1y0: 25401562528, x0y1: 21123897888, x1y1: 19719530896 }
    );
}

#[test]
fn corners_wrap_at_word_edges() {
    let c = cell_corners(i32::MAX, i32::MAX);
    assert_eq!(
        c,
        CellCorners { x0y0: 21123885456, x1y0: 20775998400, x0y1: 16241687616, x1y1: 17052225744 }
    );
    assert_eq!(c.x1y1, cell_corners(i32::MIN, i32::MIN).x0y0);
}

#[test]
fn neighbouring_cells_share_corners() {
    for x in -6..6 {
        for y in -6..6 {
            let c = cell_corners(x, y);
            let right = cell_corners(x + 1, y);
            let below = cell_corners(x, y + 1);
            assert_eq!(c.x1y0, right.x0y0);
            assert_eq!(c.x1y1, right.x0y1);
            assert_eq!(c.x0y1, below.x0y0);
            assert_eq!(c.x1y1, below.x1y0);
        }
    }
}

#[test]
fn corner_sums_equal_float_kernel() {
    for (x, y) in [(0i32, 0i32), (5, 10), (-3, 7), (1000, -2000), (i32::MAX - 3, 17)] {
        let n = |dx: i32, dy: i32| lattice_value(x.wrapping_add(dx), y.wrapping_add(dy));
        let kernel = |cx: i32, cy: i32| {
            0.0625 * (n(cx - 1, cy - 1) + n(cx + 1, cy - 1) + n(cx - 1, cy + 1) + n(cx + 1, cy + 1))
                + 0.125 * (n(cx - 1, cy) + n(cx + 1, cy) + n(cx, cy - 1) + n(cx, cy + 1))
                + 0.25 * n(cx, cy)
        };
        let c = cell_corners(x, y);
        let value = |s: u64| 1.0 - (s as f64) * (1.0 / 17179869184.0);
        assert_eq!(value(c.x0y0), kernel(0, 0));
        assert_eq!(value(c.x1y0), kernel(1, 0));
        assert_eq!(value(c.x0y1), kernel(0, 1));
        assert_eq!(value(c.x1y1), kernel(1, 1));
    }
}
