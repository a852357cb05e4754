use vstd::arithmetic::div_mod::{
    lemma_fundamental_div_mod, lemma_fundamental_div_mod_converse_div,
};
use vstd::prelude::*;

verus! {

/// `x` to the fifth power.
pub open spec fn fifth(x: int) -> int {
    x * x * x * x * x
}

/// `x` to the fourteenth power.
pub open spec fn fourteenth(x: int) -> int {
    let x2 = x * x;
    let x4 = x2 * x2;
    let x8 = x4 * x4;
    x8 * x4 * x2
}

/// `v` is `ceiling * (i / 255)^2.8` truncated to an integer: since 2.8 = 14 / 5,
/// `v` is the largest integer with `(v / ceiling)^5 <= (i / 255)^14`.
pub open spec fn is_gamma_level(v: int, i: int, ceiling: int) -> bool {
    &&& 0 <= v
    &&& fifth(v) * fourteenth(255) <= fifth(ceiling) * fourteenth(i)
    &&& fifth(ceiling) * fourteenth(i) < fifth(v + 1) * fourteenth(255)
}

/// Ceiling of the red channel.
pub const RED_CEILING: u8 = 255;

/// Ceiling of the green channel.
pub const GREEN_CEILING: u8 = 240;

/// Ceiling of the blue channel.
pub const BLUE_CEILING: u8 = 220;

/// Corrected levels of one input level, one per channel.
pub struct GammaValues {
    pub r: u8,
    pub g: u8,
    pub b: u8,
}

/// Gamma correction lookup table: one entry for every `u8` level.
pub struct GammaLookup {
    table: Vec<GammaValues>,
}

proof fn lemma_fifth_monotone(a: int, b: int)
    requires
        0 <= a <= b,
    ensures
        fifth(a) <= fifth(b),
{
    assert(a * a <= b * b) by (nonlinear_arith)
        requires
            0 <= a <= b,
    ;
    assert(a * a * a <= b * b * b) by (nonlinear_arith)
        requires
            0 <= a <= b,
            a * a <= b * b,
    ;
    assert(a * a * a * a <= b * b * b * b) by (nonlinear_arith)
        requires
            0 <= a <= b,
            a * a * a <= b * b * b,
    ;
    assert(fifth(a) <= fifth(b)) by (nonlinear_arith)
        requires
            0 <= a <= b,
            a * a * a * a <= b * b * b * b,
    ;
}

proof fn lemma_fourteenth_bound(i: int)
    requires
        0 <= i <= 255,
    ensures
        0 <= fourteenth(i) <= fourteenth(255),
{
    let i2 = i * i;
    let i4 = i2 * i2;
    let i8 = i4 * i4;
    assert(0 <= i2 <= 65025) by (nonlinear_arith)
        requires
            0 <= i <= 255,
            i2 == i * i,
    ;
    assert(0 <= i4 <= 65025 * 65025) by (nonlinear_arith)
        requires
            0 <= i2 <= 65025,
            i4 == i2 * i2,
    ;
    assert(0 <= i8 <= (65025 * 65025) * (65025 * 65025)) by (nonlinear_arith)
        requires
            0 <= i4 <= 65025 * 65025,
            i8 == i4 * i4,
    ;
    assert(0 <= i8 * i4 * i2 <= fourteenth(255)) by (nonlinear_arith)
        requires
            0 <= i2 <= 65025,
            0 <= i4 <= 65025 * 65025,
            0 <= i8 <= (65025 * 65025) * (65025 * 65025),
    ;
}

/// `a <= n / d` exactly when `a * d <= n`.
proof fn lemma_le_floor_div(a: int, n: int, d: int)
    requires
        d > 0,
        n >= 0,
    ensures
        (a <= n / d) <==> (a * d <= n),
{
    lemma_fundamental_div_mod(n, d);
    let q = n / d;
    let r = n % d;
    assert((a <= q) <==> (a * d <= d * q + r)) by (nonlinear_arith)
        requires
            d > 0,
            0 <= r < d,
    ;
}

/// Comparing against `num / den` is comparing against `c5 / p` when the two
/// fractions are equal.
proof fn lemma_scale(a: int, b: int, num: int, den: int, c5: int, p: int)
    requires
        num > 0,
        den > 0,
        c5 > 0,
        p > 0,
        num * p == c5 * den,
    ensures
        (a * den <= num * b) <==> (a * p <= c5 * b),
{
    assert((a * den <= num * b) <==> (a * p <= c5 * b)) by (nonlinear_arith)
        requires
            num > 0,
            den > 0,
            c5 > 0,
            p > 0,
            num * p == c5 * den,
    ;
}

/// `i` to the fourteenth power.
fn fourteenth_of(i: u8) -> (r: u128)
    ensures
        r == fourteenth(i as int),
{
    let i = i as u128;
    assert(i * i <= 65025) by (nonlinear_arith)
        requires
            i <= 255,
    ;
    let i2 = i * i;
    assert(i2 * i2 <= 65025 * 65025) by (nonlinear_arith)
        requires
            i2 <= 65025,
    ;
    let i4 = i2 * i2;
    assert(i4 * i4 <= (65025 * 65025) * (65025 * 65025)) by (nonlinear_arith)
        requires
            i4 <= 65025 * 65025,
    ;
    let i8 = i4 * i4;
    assert(i8 * i4 <= (65025 * 65025) * (65025 * 65025) * (65025 * 65025)) by (nonlinear_arith)
        requires
            i4 <= 65025 * 65025,
            i8 <= (65025 * 65025) * (65025 * 65025),
    ;
    let i12 = i8 * i4;
    proof {
        lemma_fourteenth_value();
    }
    assert(i12 * i2 <= fourteenth(255)) by (nonlinear_arith)
        requires
            i2 <= 65025,
            i12 <= (65025 * 65025) * (65025 * 65025) * (65025 * 65025),
    ;
    i12 * i2
}

/// `v` to the fifth power, for `v` up to 256.
fn fifth_of(v: u64) -> (r: u64)
    requires
        v <= 256,
    ensures
        r == fifth(v as int),
{
    proof {
        lemma_fifth_monotone(v as int, 256);
    }
    assert(v * v <= 256 * 256) by (nonlinear_arith)
        requires
            v <= 256,
    ;
    assert(v * v * v <= 256 * 256 * 256) by (nonlinear_arith)
        requires
            v <= 256,
            v * v <= 256 * 256,
    ;
    assert(v * v * v * v <= 256 * 256 * 256 * 256) by (nonlinear_arith)
        requires
            v <= 256,
            v * v * v <= 256 * 256 * 256,
    ;
    v * v * v * v * v
}

/// `num * x / den` computed without forming `num * x`.
fn scaled_quotient(x: u128, num: u128, den: u128) -> (t: u128)
    requires
        num > 0,
        den > 0,
        num * den < 0x1_0000_0000_0000_0000_0000_0000_0000_0000,
        num * x <= 0x1_0000_0000_0000_0000_0000_0000_0000_0000 * 0x1_0000_0000_0000_0000,
        num * (x / den) + num < 0x1_0000_0000_0000_0000_0000_0000_0000_0000,
    ensures
        t == (num * x) / (den as int),
{
    proof {
        lemma_fundamental_div_mod(x as int, den as int);
    }
    let q = x / den;
    let rem = x % den;
    assert(num * rem < num * den) by (nonlinear_arith)
        requires
            num > 0,
            rem < den,
    ;
    let low = num * rem;
    let tail = low / den;
    proof {
        lemma_fundamental_div_mod(low as int, den as int);
        assert(tail < num) by (nonlinear_arith)
            requires
                low < num * den,
                tail == low / den,
                low == den * tail + low % den,
                0 <= low % den,
                den > 0,
        ;
        assert(num * x == (num * q + tail) * den + low % den) by (nonlinear_arith)
            requires
                x == den * q + rem,
                low == num * rem,
                low == den * tail + low % den,
        ;
        lemma_fundamental_div_mod_converse_div(
            num * x,
            den as int,
            num * q + tail,
            (low % den) as int,
        );
    }
    num * q + tail
}

/// The three channel ceilings as fractions of `255^14`, in lowest terms.
proof fn lemma_channel_fractions()
    ensures
        1 * fourteenth(255) == fifth(255) * 4558916353692287109375,
        1048576 * fourteenth(255) == fifth(240) * 6473009297204469698255859375,
        164916224 * fourteenth(255) == fifth(220) * 1572941259220686136676173828125,
{
    assert(fifth(255) == 1078203909375);
    assert(fifth(240) == 796262400000);
    assert(fifth(220) == 515363200000);
    lemma_fourteenth_value();
}

proof fn lemma_fourteenth_value()
    ensures
        fourteenth(255) == 4915441435064644177113043212890625,
{
    let x2 = 255 * 255;
    assert(x2 == 65025);
    let x4 = x2 * x2;
    assert(x4 == 4228250625);
    let x8 = x4 * x4;
    assert(x8 == 17878103347812890625);
    assert(x8 * x4 == 75593101654204447168212890625);
    assert(x8 * x4 * x2 == 4915441435064644177113043212890625);
}

/// The corrected level of `i` for a channel whose ceiling is `ceiling`, where
/// `num / den` is `ceiling^5 / 255^14` in lowest terms.
fn gamma_level(i: u8, ceiling: u8, num: u128, den: u128) -> (v: u8)
    requires
        num > 0,
        den > 0,
        ceiling > 0,
        num <= 0xffff_ffff,
        num * fourteenth(255) == fifth(ceiling as int) * den,
        num * den < 0x1_0000_0000_0000_0000_0000_0000_0000_0000,
    ensures
        is_gamma_level(v as int, i as int, ceiling as int),
{
    let x = fourteenth_of(i);
    let ghost n: int = num * x;
    let ghost c5: int = fifth(ceiling as int);
    proof {
        lemma_fourteenth_bound(i as int);
        lemma_fifth_monotone(ceiling as int, 255);
        assert(c5 > 0) by (nonlinear_arith)
            requires
                c5 == fifth(ceiling as int),
                ceiling > 0,
        ;
        lemma_fourteenth_value();
        assert(fifth(255) == 1078203909375);
        assert(n <= num * fourteenth(255)) by (nonlinear_arith)
            requires
                num > 0,
                x <= fourteenth(255),
                n == num * x,
        ;
        // n / den <= ceiling^5
        lemma_le_floor_div(c5 + 1, n, den as int);
        assert(!((c5 + 1) * den <= n)) by (nonlinear_arith)
            requires
                n <= num * fourteenth(255),
                num * fourteenth(255) == c5 * den,
                den > 0,
        ;
        lemma_fundamental_div_mod(x as int, den as int);
        lemma_le_floor_div((x / den) as int, x as int, den as int);
        assert(num * (x / den) <= n / (den as int)) by (nonlinear_arith)
            requires
                (x / den) * den <= x,
                n == num * x,
                num > 0,
                den > 0,
        {
            lemma_le_floor_div(num * (x / den), n, den as int);
        }
        assert(num * x <= 0x1_0000_0000_0000_0000_0000_0000_0000_0000 * 0x1_0000_0000_0000_0000)
            by (nonlinear_arith)
            requires
                n == num * x,
                n <= num * fourteenth(255),
                num * fourteenth(255) == c5 * den,
                c5 <= 1078203909375,
                den < 0x1_0000_0000_0000_0000_0000_0000_0000_0000,
        ;
    }
    let target128 = scaled_quotient(x, num, den);
    let target: u64 = target128 as u64;
    let c: u64 = ceiling as u64;
    let mut v: u64 = 0;
    while v < c && fifth_of(v + 1) <= target
        invariant
            v <= c,
            c == ceiling,
            c <= 255,
            fifth(v as int) <= target,
            target == n / (den as int),
        decreases c - v,
    {
        v = v + 1;
    }
    proof {
        if v == c {
            assert(c5 < fifth(c + 1)) by (nonlinear_arith)
                requires
                    c5 == fifth(c as int),
                    0 < c,
            ;
        }
        assert(target < fifth(v + 1));
        lemma_le_floor_div(fifth(v as int), n, den as int);
        lemma_le_floor_div(fifth(v + 1), n, den as int);
        lemma_scale(fifth(v as int), x as int, num as int, den as int, c5, fourteenth(255));
        lemma_scale(fifth(v + 1), x as int, num as int, den as int, c5, fourteenth(255));
    }
    v as u8
}

impl GammaLookup {
    /// The table is complete: each of the 256 levels holds the corrected value
    /// of every channel.
    pub closed spec fn wf(&self) -> bool {
        &&& self.table@.len() == 256
        &&& forall|i: int|
            #![trigger self.table@[i]]
            0 <= i < 256 ==> {
                &&& is_gamma_level(self.table@[i].r as int, i, RED_CEILING as int)
                &&& is_gamma_level(self.table@[i].g as int, i, GREEN_CEILING as int)
                &&& is_gamma_level(self.table@[i].b as int, i, BLUE_CEILING as int)
            }
    }

    /// Build the table for all 256 levels.
    pub fn new() -> (r: Self)
        ensures
            r.wf(),
    {
        proof {
            lemma_channel_fractions();
        }
        let mut table: Vec<GammaValues> = Vec::new();
        let mut i: u16 = 0;
        while i < 256
            invariant
                i <= 256,
                table@.len() == i,
                1 * fourteenth(255) == fifth(255) * 4558916353692287109375,
                1048576 * fourteenth(255) == fifth(240) * 6473009297204469698255859375,
                164916224 * fourteenth(255) == fifth(220) * 1572941259220686136676173828125,
                forall|k: int|
                    #![trigger table@[k]]
                    0 <= k < i ==> {
                        &&& is_gamma_level(table@[k].r as int, k, RED_CEILING as int)
                        &&& is_gamma_level(table@[k].g as int, k, GREEN_CEILING as int)
                        &&& is_gamma_level(table@[k].b as int, k, BLUE_CEILING as int)
                    },
            decreases 256 - i,
        {
            let level = i as u8;
            let r = gamma_level(level, RED_CEILING, 1, 4558916353692287109375);
            let g = gamma_level(level, GREEN_CEILING, 1048576, 6473009297204469698255859375);
            let b = gamma_level(level, BLUE_CEILING, 164916224, 1572941259220686136676173828125);
            table.push(GammaValues { r, g, b });
            i = i + 1;
        }
        GammaLookup { table }
    }

    /// Number of levels in the table.
    pub fn len(&self) -> (r: usize)
        requires
            self.wf(),
        ensures
            r == 256,
    {
        self.table.len()
    }

    /// Gamma corrected value of the red channel.
    pub fn red(&self, r: u8) -> (v: u8)
        requires
            self.wf(),
        ensures
            is_gamma_level(v as int, r as int, RED_CEILING as int),
    {
        self.table[r as usize].r
    }

    /// Gamma corrected value of the green channel.
    pub fn green(&self, g: u8) -> (v: u8)
        requires
            self.wf(),
        ensures
            is_gamma_level(v as int, g as int, GREEN_CEILING as int),
    {
        self.table[g as usize].g
    }

    /// Gamma corrected value of the blue channel.
    pub fn blue(&self, b: u8) -> (v: u8)
        requires
            self.wf(),
        ensures
            is_gamma_level(v as int, b as int, BLUE_CEILING as int),
    {
        self.table[b as usize].b
    }
}

} // verus!
