use vstd::prelude::*;
use vstd::arithmetic::div_mod::{
    lemma_add_mod_noop, lemma_mod_bound, lemma_mod_twice, lemma_mod_multiples_vanish,
    lemma_mul_mod_noop_left, lemma_mul_mod_noop_right, lemma_small_mod,
};

verus! {

/// Size of the 32-bit word ring in which the hash computes.
pub const WORD: u64 = 0x1_0000_0000;

/// Denominator of a lattice value: the value of hash `t` is `1 - t / UNIT`.
pub const UNIT: u64 = 0x4000_0000;

/// A mathematical integer reduced to a 32-bit word (two's-complement wraparound).
pub open spec fn word(v: int) -> u32 {
    (v % (WORD as int)) as u32
}

/// First mixing step: `n = x + 57 * y`, then `n = (n << 13) ^ n`, on 32-bit words.
pub open spec fn mix(x: int, y: int) -> u32 {
    let n = word(x + 57 * y);
    (n << 13u32) ^ n
}

/// The lattice hash of grid point `(x, y)`:
/// `(n * (n * n * 15731 + 789221) + 1376312589) & 0x7fffffff` on 32-bit words.
/// Grid coordinates are taken modulo 2^32, as 32-bit wraparound would take them.
pub open spec fn hash_spec(x: int, y: int) -> u32 {
    let n = mix(x, y);
    word(n * (n * n * 15731 + 789221) + 1376312589) & 0x7fff_ffffu32
}

/// Numerator of the lattice value at `(x, y)` over `UNIT`: `UNIT - t`.
pub open spec fn lattice_value_num(x: int, y: int) -> int {
    UNIT as int - hash_spec(x, y) as int
}

proof fn lemma_word_mod(v: int)
    ensures
        word(v) as int == v % (WORD as int),
{
    lemma_mod_bound(v, WORD as int);
}

proof fn lemma_i32_as_word(x: i32)
    ensures
        (x as u32) == word(x as int),
{
    assert(x >= 0 ==> (x as u32) as int == x as int) by (bit_vector);
    assert(x < 0 ==> (x as u32) as int == x as int + 0x1_0000_0000) by (bit_vector);
    lemma_word_mod(x as int);
    if x >= 0 {
        lemma_small_mod(x as nat, WORD as nat);
    } else {
        lemma_mod_multiples_vanish(1, x as int, WORD as int);
        lemma_small_mod((x + WORD) as nat, WORD as nat);
    }
}

proof fn lemma_wrapping_add(a: u32, b: u32)
    ensures
        a.wrapping_add(b) == word(a + b),
{
    lemma_word_mod(a + b);
    if a + b > u32::MAX {
        lemma_mod_multiples_vanish(1, a + b - WORD, WORD as int);
        lemma_small_mod((a + b - WORD) as nat, WORD as nat);
    } else {
        lemma_small_mod((a + b) as nat, WORD as nat);
    }
}

proof fn lemma_wrapping_mul(a: u32, b: u32)
    ensures
        a.wrapping_mul(b) == word(a * b),
{
    lemma_word_mod(a * b);
    lemma_mod_bound(a * b, WORD as int);
}

/// The hash of grid point `(x, y)`, computed with 32-bit wraparound.
pub fn lattice_hash(x: i32, y: i32) -> (t: u32)
    ensures
        t == hash_spec(x as int, y as int),
        t <= 0x7fff_ffff,
{
    let xw: u32 = x as u32;
    let yw: u32 = y as u32;
    let ym: u32 = yw.wrapping_mul(57);
    let n: u32 = xw.wrapping_add(ym);
    proof {
        let m = WORD as int;
        lemma_i32_as_word(x);
        lemma_i32_as_word(y);
        lemma_word_mod(x as int);
        lemma_word_mod(y as int);
        lemma_wrapping_mul(yw, 57);
        lemma_wrapping_add(xw, ym);
        lemma_word_mod(yw * 57);
        lemma_word_mod(xw + ym);
        lemma_word_mod(x + 57 * y);
        lemma_mul_mod_noop_left(y as int, 57, m);
        lemma_add_mod_noop(x as int, 57 * y, m);
        lemma_mod_twice(x as int, m);
        lemma_mod_twice(57 * y, m);
        assert(n as int == (x + 57 * y) % m);
    }
    let n: u32 = (n << 13u32) ^ n;
    let sq: u32 = n.wrapping_mul(n);
    let a: u32 = sq.wrapping_mul(15731);
    let inner: u32 = a.wrapping_add(789221);
    let b: u32 = n.wrapping_mul(inner);
    let r: u32 = b.wrapping_add(1376312589);
    proof {
        let m = WORD as int;
        let p: int = n * n * 15731 + 789221;
        let q: int = n * p + 1376312589;
        lemma_wrapping_mul(n, n);
        lemma_wrapping_mul(sq, 15731);
        lemma_wrapping_add(a, 789221);
        lemma_wrapping_mul(n, inner);
        lemma_wrapping_add(b, 1376312589);
        lemma_word_mod(n * n);
        lemma_word_mod(sq * 15731);
        lemma_word_mod(a + 789221);
        lemma_word_mod(n * inner);
        lemma_word_mod(b + 1376312589);
        lemma_word_mod(q);
        lemma_mul_mod_noop_left(n * n, 15731, m);
        assert(a as int == (n * n * 15731) % m);
        lemma_add_mod_noop(n * n * 15731, 789221, m);
        lemma_mod_twice(n * n * 15731, m);
        lemma_small_mod(789221, m as nat);
        assert(inner as int == p % m);
        lemma_mul_mod_noop_right(n as int, p, m);
        assert(b as int == (n * p) % m);
        lemma_add_mod_noop(n * p, 1376312589, m);
        lemma_mod_twice(n * p, m);
        lemma_small_mod(1376312589, m as nat);
        assert(r as int == q % m);
    }
    let t: u32 = r & 0x7fff_ffffu32;
    assert(t <= 0x7fff_ffff) by (bit_vector)
        requires
            t == r & 0x7fff_ffffu32,
    ;
    t
}

/// Hash `t` stays within 31 bits, so the lattice value `1 - t / 2^30` lies in `[-1, 1]`.
pub proof fn lemma_lattice_value_in_unit_range(x: int, y: int)
    ensures
        0 <= hash_spec(x, y) <= 0x7fff_ffff,
        -(UNIT as int) <= lattice_value_num(x, y) <= UNIT as int,
{
    let w = word(mix(x, y) * (mix(x, y) * mix(x, y) * 15731 + 789221) + 1376312589);
    assert(w & 0x7fff_ffffu32 <= 0x7fff_ffff) by (bit_vector);
}

/// The hash repeats with period 2^32 along both axes.
pub proof fn lemma_hash_periodic(x: int, y: int, a: int, b: int)
    ensures
        hash_spec(x + a * WORD, y + b * WORD) == hash_spec(x, y),
{
    let m = WORD as int;
    assert(x + a * m + 57 * (y + b * m) == m * (a + 57 * b) + (x + 57 * y)) by (nonlinear_arith);
    lemma_mod_multiples_vanish(a + 57 * b, x + 57 * y, m);
}

/// The hash of the grid point `(x + dx, y + dy)`, the offsets wrapping as 32-bit integers.
fn hash_at(x: i32, y: i32, dx: i32, dy: i32) -> (t: u32)
    requires
        -1 <= dx <= 2,
        -1 <= dy <= 2,
    ensures
        t == hash_spec(x + dx, y + dy),
        t <= 0x7fff_ffff,
{
    let xs: i32 = x.wrapping_add(dx);
    let ys: i32 = y.wrapping_add(dy);
    proof {
        let m = WORD as int;
        let a: int = if xs > x + dx { 1 } else if xs < x + dx { -1 } else { 0 };
        let b: int = if ys > y + dy { 1 } else if ys < y + dy { -1 } else { 0 };
        assert(xs == x + dx + a * m);
        assert(ys == y + dy + b * m);
        lemma_hash_periodic(x + dx, y + dy, a, b);
    }
    lattice_hash(xs, ys)
}

/// Weighted 3x3 sum of hashes around grid point `(cx, cy)`: weight 4 at the centre,
/// 2 at the four edge-adjacent points and 1 at the four diagonal ones.
/// The smoothed value at `(cx, cy)` is `1 - smoothed_sum(cx, cy) / 2^34`.
pub open spec fn smoothed_sum(cx: int, cy: int) -> int {
    (hash_spec(cx - 1, cy - 1) + hash_spec(cx + 1, cy - 1) + hash_spec(cx - 1, cy + 1)
        + hash_spec(cx + 1, cy + 1))
        + 2 * (hash_spec(cx - 1, cy) + hash_spec(cx + 1, cy) + hash_spec(cx, cy - 1)
        + hash_spec(cx, cy + 1))
        + 4 * hash_spec(cx, cy)
}

/// The same neighbourhood as `smoothed_sum`, over lattice values: sixteen times the
/// smoothed value, as a numerator over `UNIT`.
pub open spec fn smoothed_value_num(cx: int, cy: int) -> int {
    (lattice_value_num(cx - 1, cy - 1) + lattice_value_num(cx + 1, cy - 1)
        + lattice_value_num(cx - 1, cy + 1) + lattice_value_num(cx + 1, cy + 1))
        + 2 * (lattice_value_num(cx - 1, cy) + lattice_value_num(cx + 1, cy)
        + lattice_value_num(cx, cy - 1) + lattice_value_num(cx, cy + 1))
        + 4 * lattice_value_num(cx, cy)
}

/// The smoothed value is the kernel's weighted mean of the nine lattice values,
/// `1 - smoothed_sum / 2^34`, and lies in `[-1, 1]` like they do.
pub proof fn lemma_smoothed_is_weighted_mean(cx: int, cy: int)
    ensures
        smoothed_value_num(cx, cy) == 16 * UNIT - smoothed_sum(cx, cy),
        0 <= smoothed_sum(cx, cy) <= 16 * 0x7fff_ffff,
        -16 * UNIT <= smoothed_value_num(cx, cy) <= 16 * UNIT,
{
    lemma_lattice_value_in_unit_range(cx - 1, cy - 1);
    lemma_lattice_value_in_unit_range(cx + 1, cy - 1);
    lemma_lattice_value_in_unit_range(cx - 1, cy + 1);
    lemma_lattice_value_in_unit_range(cx + 1, cy + 1);
    lemma_lattice_value_in_unit_range(cx - 1, cy);
    lemma_lattice_value_in_unit_range(cx + 1, cy);
    lemma_lattice_value_in_unit_range(cx, cy - 1);
    lemma_lattice_value_in_unit_range(cx, cy + 1);
    lemma_lattice_value_in_unit_range(cx, cy);
}

/// Smoothed sums at the four corners of the lattice cell whose lower corner is
/// `(x, y)`: the corner itself, its right, lower and diagonal neighbours.
#[derive(Clone, Copy, Debug, PartialEq, Eq)]
pub struct CellCorners {
    pub x0y0: u64,
    pub x1y0: u64,
    pub x0y1: u64,
    pub x1y1: u64,
}

/// The smoothed sums at the corners of cell `(x, y)`, from the sixteen hashes of the
/// 4x4 block of grid points spanning offsets -1..=2 on both axes.
pub fn cell_corners(x: i32, y: i32) -> (c: CellCorners)
    ensures
        c.x0y0 == smoothed_sum(x as int, y as int),
        c.x1y0 == smoothed_sum(x + 1, y as int),
        c.x0y1 == smoothed_sum(x as int, y + 1),
        c.x1y1 == smoothed_sum(x + 1, y + 1),
{
    let n01 = hash_at(x, y, -1, -1) as u64;
    let n02 = hash_at(x, y, 1, -1) as u64;
    let n03 = hash_at(x, y, -1, 1) as u64;
    let n04 = hash_at(x, y, 1, 1) as u64;
    let n05 = hash_at(x, y, -1, 0) as u64;
    let n06 = hash_at(x, y, 1, 0) as u64;
    let n07 = hash_at(x, y, 0, -1) as u64;
    let n08 = hash_at(x, y, 0, 1) as u64;
    let n09 = hash_at(x, y, 0, 0) as u64;

    let n12 = hash_at(x, y, 2, -1) as u64;
    let n14 = hash_at(x, y, 2, 1) as u64;
    let n16 = hash_at(x, y, 2, 0) as u64;

    let n23 = hash_at(x, y, -1, 2) as u64;
    let n24 = hash_at(x, y, 1, 2) as u64;
    let n28 = hash_at(x, y, 0, 2) as u64;

    let n34 = hash_at(x, y, 2, 2) as u64;

    CellCorners {
        x0y0: (n01 + n02 + n03 + n04) + 2 * (n05 + n06 + n07 + n08) + 4 * n09,
        x1y0: (n07 + n12 + n08 + n14) + 2 * (n09 + n16 + n02 + n04) + 4 * n06,
        x0y1: (n05 + n06 + n23 + n24) + 2 * (n03 + n04 + n09 + n28) + 4 * n08,
        x1y1: (n09 + n16 + n28 + n34) + 2 * (n08 + n14 + n06 + n24) + 4 * n04,
    }
}

/// The smoothed sums repeat with period 2^32 along both axes.
pub proof fn lemma_smoothed_periodic(x: int, y: int, a: int, b: int)
    ensures
        smoothed_sum(x + a * WORD, y + b * WORD) == smoothed_sum(x, y),
{
    let m = WORD as int;
    assert(x + a * m - 1 == (x - 1) + a * m);
    assert(x + a * m + 1 == (x + 1) + a * m);
    assert(y + b * m - 1 == (y - 1) + b * m);
    assert(y + b * m + 1 == (y + 1) + b * m);
    lemma_hash_periodic(x - 1, y - 1, a, b);
    lemma_hash_periodic(x + 1, y - 1, a, b);
    lemma_hash_periodic(x - 1, y + 1, a, b);
    lemma_hash_periodic(x + 1, y + 1, a, b);
    lemma_hash_periodic(x - 1, y, a, b);
    lemma_hash_periodic(x + 1, y, a, b);
    lemma_hash_periodic(x, y - 1, a, b);
    lemma_hash_periodic(x, y + 1, a, b);
    lemma_hash_periodic(x, y, a, b);
}

/// Neighbouring cells meet on shared corners: the cell to the right of `(x, y)`, at
/// `x + 1` with 32-bit wraparound, has as its left corners the right corners of cell
/// `(x, y)`, and the cell below likewise has its upper corners as lower ones.
pub proof fn lemma_neighbour_cells_agree(x: i32, y: i32)
    ensures
        smoothed_sum(x.wrapping_add(1) as int, y as int) == smoothed_sum(x + 1, y as int),
        smoothed_sum(x.wrapping_add(1) as int, y + 1) == smoothed_sum(x + 1, y + 1),
        smoothed_sum(x as int, y.wrapping_add(1) as int) == smoothed_sum(x as int, y + 1),
        smoothed_sum(x + 1, y.wrapping_add(1) as int) == smoothed_sum(x + 1, y + 1),
{
    let xs = x.wrapping_add(1);
    let ys = y.wrapping_add(1);
    let a: int = if xs < x + 1 { -1 } else { 0 };
    let b: int = if ys < y + 1 { -1 } else { 0 };
    assert(xs == x + 1 + a * WORD);
    assert(ys == y + 1 + b * WORD);
    lemma_smoothed_periodic(x + 1, y as int, a, 0);
    lemma_smoothed_periodic(x + 1, y + 1, a, 0);
    lemma_smoothed_periodic(x as int, y + 1, 0, b);
    lemma_smoothed_periodic(x + 1, y + 1, 0, b);
}

} // verus!
