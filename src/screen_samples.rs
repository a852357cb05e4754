use crate::color::{alpha_of, blue_of, green_of, pack, red_of, rgba, unpack};
use crate::gamma_correction::{
    is_gamma_level, GammaLookup, BLUE_CEILING, GREEN_CEILING, RED_CEILING,
};
use crate::pixel_buffer::PixelBuffer;
use crate::settings::{
    index_count, led_count, pixel_total, DisplayConfiguration, OpcChannel, OpcPixelRange,
    LedPosition, Settings, FADE_ONE, KERNEL_ONE,
};
use vstd::prelude::*;

verus! {

/// Sample points per side of a sample block.
pub const PIXEL_SAMPLES: usize = 16;

/// Sample points in a sample block.
pub const OFFSET_ARRAY_SIZE: usize = 256;

/// One channel value, scaled: channels are computed in units of
/// `1 / CHANNEL_UNIT` (an average over 256 samples, faded in units of `1 / FADE_ONE`).
pub const CHANNEL_UNIT: u64 = 0x100_0000;

/// A channel after fading, in units of `1 / CHANNEL_UNIT`: the average of the
/// block (`sum / 256`) weighted by `1 - fade`, plus the previous value weighted
/// by `fade`.
pub open spec fn faded(sum: int, previous: int, fade: int) -> int {
    sum * (FADE_ONE - fade) + previous * 256 * fade
}

/// A channel after the minimum brightness lift, truncated to an integer. `x` is
/// the channel and `s` the sum of the three channels, both in units of
/// `1 / CHANNEL_UNIT`. Where the sum reaches the minimum the channel is kept;
/// where it is zero it stays zero (a third of the sum); else the channel becomes
/// `deficit * (S - X) / (2 * S)`, spreading the deficit in proportion to each
/// channel's complement.
pub open spec fn lifted(x: int, s: int, min_brightness: int) -> int {
    if s >= min_brightness * (CHANNEL_UNIT as int) {
        x / (CHANNEL_UNIT as int)
    } else if s == 0 {
        0
    } else {
        ((min_brightness * (CHANNEL_UNIT as int) - s) * (s - x)) / (2 * s * (CHANNEL_UNIT as int))
    }
}

/// An integer clamped to a byte.
pub open spec fn clamp_u8(v: int) -> int {
    if v < 0 {
        0
    } else if v > 255 {
        255
    } else {
        v
    }
}

/// The new color of an LED whose sample block sums to `(sum_r, sum_g, sum_b)`
/// over its 256 sample points, whose color was `previous`: faded, lifted to the
/// minimum brightness, clamped, with alpha full.
pub open spec fn reduced_color(
    sum_r: int,
    sum_g: int,
    sum_b: int,
    previous: u32,
    min_brightness: int,
    fade: int,
) -> int {
    let xr = faded(sum_r, red_of(previous) as int, fade);
    let xg = faded(sum_g, green_of(previous) as int, fade);
    let xb = faded(sum_b, blue_of(previous) as int, fade);
    let s = xr + xg + xb;
    rgba(
        clamp_u8(lifted(xr, s, min_brightness)),
        clamp_u8(lifted(xg, s, min_brightness)),
        clamp_u8(lifted(xb, s, min_brightness)),
        0xff,
    )
}

/// Largest sum of one channel over a sample block.
pub open spec fn max_block_sum() -> int {
    255int * 256
}

fn lift_channel(x: u64, s: u64, min_brightness: u8) -> (r: u8)
    requires
        x <= s,
        s <= 3 * 255 * CHANNEL_UNIT,
    ensures
        r == clamp_u8(lifted(x as int, s as int, min_brightness as int)),
{
    let floor: u64 = min_brightness as u64 * CHANNEL_UNIT;
    let v: u128 = if s >= floor {
        (x / CHANNEL_UNIT) as u128
    } else if s == 0 {
        0
    } else {
        let deficit = (floor - s) as u128;
        assert(deficit * (s - x) <= (255 * CHANNEL_UNIT) * (3 * 255 * CHANNEL_UNIT))
            by (nonlinear_arith)
            requires
                deficit <= 255 * CHANNEL_UNIT,
                s - x <= 3 * 255 * CHANNEL_UNIT,
                x <= s,
        ;
        assert(2 * s * CHANNEL_UNIT <= 2 * (3 * 255 * CHANNEL_UNIT) * CHANNEL_UNIT)
            by (nonlinear_arith)
            requires
                s <= 3 * 255 * CHANNEL_UNIT,
        ;
        (deficit * ((s - x) as u128)) / (2 * (s as u128) * (CHANNEL_UNIT as u128))
    };
    if v > 255 {
        255
    } else {
        v as u8
    }
}

fn fade_channel(sum: u32, previous: u8, fade: u32) -> (r: u64)
    requires
        sum <= max_block_sum(),
        fade <= FADE_ONE,
    ensures
        r == faded(sum as int, previous as int, fade as int),
        r <= 255 * CHANNEL_UNIT,
{
    assert(sum * (FADE_ONE - fade) <= 255 * 256 * FADE_ONE) by (nonlinear_arith)
        requires
            sum <= 255 * 256,
            fade <= FADE_ONE,
    ;
    assert(previous * 256 * fade <= 255 * 256 * FADE_ONE) by (nonlinear_arith)
        requires
            previous <= 255,
            fade <= FADE_ONE,
    ;
    let a = sum as u64 * (FADE_ONE - fade) as u64;
    let b = previous as u64 * 256 * fade as u64;
    assert(a + b <= 255 * CHANNEL_UNIT) by (nonlinear_arith)
        requires
            a == sum * (FADE_ONE - fade),
            b == previous * 256 * fade,
            sum <= 255 * 256,
            previous <= 255,
            fade <= FADE_ONE,
            FADE_ONE == 65536,
            CHANNEL_UNIT == 256 * 65536,
    ;
    a + b
}

/// The new color of an LED from the channel sums of its sample block and its
/// previous color.
pub fn reduce_color(
    sum_r: u32,
    sum_g: u32,
    sum_b: u32,
    previous: u32,
    min_brightness: u8,
    fade: u32,
) -> (c: u32)
    requires
        sum_r <= max_block_sum(),
        sum_g <= max_block_sum(),
        sum_b <= max_block_sum(),
        fade <= FADE_ONE,
    ensures
        c == reduced_color(
            sum_r as int,
            sum_g as int,
            sum_b as int,
            previous,
            min_brightness as int,
            fade as int,
        ),
        alpha_of(c) == 0xff,
{
    let (pr, pg, pb, _pa) = unpack(previous);
    let xr = fade_channel(sum_r, pr, fade);
    let xg = fade_channel(sum_g, pg, fade);
    let xb = fade_channel(sum_b, pb, fade);
    let s = xr + xg + xb;
    let r = lift_channel(xr, s, min_brightness);
    let g = lift_channel(xg, s, min_brightness);
    let b = lift_channel(xb, s, min_brightness);
    pack(r, g, b, 0xff)
}

/// Without fading, the new color of an LED depends on the current samples
/// alone, not on its previous color.
pub proof fn lemma_no_fade_forgets_previous(
    sum_r: int,
    sum_g: int,
    sum_b: int,
    p: u32,
    q: u32,
    min_brightness: int,
)
    ensures
        reduced_color(sum_r, sum_g, sum_b, p, min_brightness, 0) == reduced_color(
            sum_r,
            sum_g,
            sum_b,
            q,
            min_brightness,
            0,
        ),
{
}

/// Without fading, a second tick on an unchanged image gives the color of the
/// first.
pub proof fn lemma_no_fade_settles(
    sum_r: int,
    sum_g: int,
    sum_b: int,
    p: u32,
    min_brightness: int,
)
    requires
        0 <= sum_r <= max_block_sum(),
        0 <= sum_g <= max_block_sum(),
        0 <= sum_b <= max_block_sum(),
    ensures
        ({
            let first = reduced_color(sum_r, sum_g, sum_b, p, min_brightness, 0);
            reduced_color(sum_r, sum_g, sum_b, first as u32, min_brightness, 0) == first
        }),
{
}

/// Fading moves a channel toward the block average geometrically: before
/// truncation, its distance to the average after a tick is `fade / FADE_ONE`
/// times its distance before. In units of `1 / CHANNEL_UNIT` the average is
/// `sum * FADE_ONE` and the previous value `256 * FADE_ONE * previous`.
pub proof fn lemma_fade_contracts(sum: int, previous: int, fade: int)
    ensures
        faded(sum, previous, fade) - sum * FADE_ONE == fade * (256 * previous - sum),
        (faded(sum, previous, fade) - sum * FADE_ONE) * FADE_ONE == fade * (256 * FADE_ONE
            * previous - sum * FADE_ONE),
{
    assert(faded(sum, previous, fade) - sum * FADE_ONE == fade * (256 * previous - sum))
        by (nonlinear_arith);
    assert(fade * (256 * previous - sum) * FADE_ONE == fade * (256 * FADE_ONE * previous - sum
        * FADE_ONE)) by (nonlinear_arith);
}

/// Absolute value.
pub open spec fn abs(v: int) -> int {
    if v < 0 {
        -v
    } else {
        v
    }
}

/// One channel after a tick without lift, truncated: its distance to the
/// block average `sum / 256` is at most `fade / FADE_ONE` times the distance of
/// the previous value, plus one for the truncation.
proof fn lemma_channel_step(sum: int, previous: int, fade: int)
    requires
        0 <= sum <= max_block_sum(),
        0 <= previous <= 255,
        0 <= fade <= FADE_ONE,
    ensures
        ({
            let v = faded(sum, previous, fade) / (CHANNEL_UNIT as int);
            &&& 0 <= v <= 255
            &&& clamp_u8(v) == v
            &&& abs((256 * v - sum) * FADE_ONE) <= fade * abs(256 * previous - sum)
                + CHANNEL_UNIT
        }),
{
    let x = faded(sum, previous, fade);
    let u = CHANNEL_UNIT as int;
    let v = x / u;
    lemma_fade_contracts(sum, previous, fade);
    vstd::arithmetic::div_mod::lemma_fundamental_div_mod(x, u);
    assert(0 <= x <= 255 * u) by (nonlinear_arith)
        requires
            x == sum * (FADE_ONE - fade) + previous * 256 * fade,
            0 <= sum <= 255 * 256,
            0 <= previous <= 255,
            0 <= fade <= FADE_ONE,
            u == 256 * FADE_ONE,
    ;
    assert(0 <= v <= 255) by (nonlinear_arith)
        requires
            0 <= x <= 255 * u,
            x == u * v + x % u,
            0 <= x % u < u,
            u > 0,
    ;
    let d = 256 * previous - sum;
    assert(abs((256 * v - sum) * FADE_ONE) <= fade * abs(d) + u) by (nonlinear_arith)
        requires
            x == u * v + x % u,
            0 <= x % u < u,
            u == 256 * FADE_ONE,
            x - sum * FADE_ONE == fade * d,
            0 <= fade,
            abs((256 * v - sum) * FADE_ONE) == if (256 * v - sum) * FADE_ONE < 0 {
                -((256 * v - sum) * FADE_ONE)
            } else {
                (256 * v - sum) * FADE_ONE
            },
            abs(d) == if d < 0 {
                -d
            } else {
                d
            },
    ;
}

/// Fading with no lift (minimum brightness zero) approaches an unchanged
/// image geometrically: after a tick each channel's distance to its block
/// average is at most `fade / FADE_ONE` times its distance before, plus one
/// for the truncation. Distances are in units of `1 / 256`, scaled by `FADE_ONE`.
pub proof fn lemma_fade_approaches_average(
    sum_r: int,
    sum_g: int,
    sum_b: int,
    p: u32,
    fade: int,
)
    requires
        0 <= sum_r <= max_block_sum(),
        0 <= sum_g <= max_block_sum(),
        0 <= sum_b <= max_block_sum(),
        0 <= fade <= FADE_ONE,
    ensures
        ({
            let c = reduced_color(sum_r, sum_g, sum_b, p, 0, fade) as u32;
            &&& abs((256 * red_of(c) - sum_r) * FADE_ONE) <= fade * abs(
                256 * red_of(p) - sum_r,
            ) + CHANNEL_UNIT
            &&& abs((256 * green_of(c) - sum_g) * FADE_ONE) <= fade * abs(
                256 * green_of(p) - sum_g,
            ) + CHANNEL_UNIT
            &&& abs((256 * blue_of(c) - sum_b) * FADE_ONE) <= fade * abs(
                256 * blue_of(p) - sum_b,
            ) + CHANNEL_UNIT
        }),
{
    lemma_zero_minimum_keeps_color(sum_r, sum_g, sum_b, p, fade);
    lemma_channel_step(sum_r, red_of(p) as int, fade);
    lemma_channel_step(sum_g, green_of(p) as int, fade);
    lemma_channel_step(sum_b, blue_of(p) as int, fade);
    let u = CHANNEL_UNIT as int;
    crate::color::lemma_rgba_channels(
        faded(sum_r, red_of(p) as int, fade) / u,
        faded(sum_g, green_of(p) as int, fade) / u,
        faded(sum_b, blue_of(p) as int, fade) / u,
        0xff,
    );
}

/// With a minimum brightness of zero the lift never applies: every channel is
/// the faded value, truncated.
pub proof fn lemma_zero_minimum_keeps_color(
    sum_r: int,
    sum_g: int,
    sum_b: int,
    p: u32,
    fade: int,
)
    requires
        0 <= sum_r <= max_block_sum(),
        0 <= sum_g <= max_block_sum(),
        0 <= sum_b <= max_block_sum(),
        0 <= fade <= FADE_ONE,
    ensures
        reduced_color(sum_r, sum_g, sum_b, p, 0, fade) == rgba(
            clamp_u8(faded(sum_r, red_of(p) as int, fade) / (CHANNEL_UNIT as int)),
            clamp_u8(faded(sum_g, green_of(p) as int, fade) / (CHANNEL_UNIT as int)),
            clamp_u8(faded(sum_b, blue_of(p) as int, fade) / (CHANNEL_UNIT as int)),
            0xff,
        ),
{
    let xr = faded(sum_r, red_of(p) as int, fade);
    let xg = faded(sum_g, green_of(p) as int, fade);
    let xb = faded(sum_b, blue_of(p) as int, fade);
    assert(xr >= 0 && xg >= 0 && xb >= 0) by (nonlinear_arith)
        requires
            xr == sum_r * (FADE_ONE - fade) + (red_of(p) as int) * 256 * fade,
            xg == sum_g * (FADE_ONE - fade) + (green_of(p) as int) * 256 * fade,
            xb == sum_b * (FADE_ONE - fade) + (blue_of(p) as int) * 256 * fade,
            0 <= sum_r,
            0 <= sum_g,
            0 <= sum_b,
            0 <= fade <= FADE_ONE,
            red_of(p) >= 0,
            green_of(p) >= 0,
            blue_of(p) >= 0,
    ;
}

/// Coordinate of sample `k` (of 16) along one side of the block of grid cell
/// `cell` out of `count` cells on a display `size` pixels long: the block is
/// `size / count` long, the step a sixteenth of it, the first sample half a
/// step in. A cell outside the grid gets the display's size, outside every frame.
pub open spec fn sample_coord(size: int, cell: int, count: int, k: int) -> int {
    if cell < count {
        (size * (32 * cell + 1 + 2 * k)) / (32 * count)
    } else {
        size
    }
}

/// The 16 x 16 sample points of one LED: every pair of one of `xs` and one of `ys`.
pub struct SampleBlock {
    pub xs: Vec<usize>,
    pub ys: Vec<usize>,
}

impl SampleBlock {
    /// The block of the LED at `position` on a display of `width` x `height`
    /// pixels whose grid is `display`'s.
    pub open spec fn is_block_of(
        &self,
        width: u32,
        height: u32,
        display: &DisplayConfiguration,
        position: LedPosition,
    ) -> bool {
        &&& self.xs@.len() == PIXEL_SAMPLES
        &&& self.ys@.len() == PIXEL_SAMPLES
        &&& forall|k: int|
            0 <= k < PIXEL_SAMPLES ==> #[trigger] self.xs@[k] == sample_coord(
                width as int,
                position.x as int,
                display.horizontal_count as int,
                k,
            )
        &&& forall|k: int|
            0 <= k < PIXEL_SAMPLES ==> #[trigger] self.ys@[k] == sample_coord(
                height as int,
                position.y as int,
                display.vertical_count as int,
                k,
            )
    }
}

fn sample_coords(size: u32, cell: usize, count: usize) -> (r: Vec<usize>)
    ensures
        r@.len() == PIXEL_SAMPLES,
        forall|k: int|
            0 <= k < PIXEL_SAMPLES ==> #[trigger] r@[k] == sample_coord(
                size as int,
                cell as int,
                count as int,
                k,
            ),
{
    let mut r: Vec<usize> = Vec::new();
    let mut k: usize = 0;
    while k < PIXEL_SAMPLES
        invariant
            k <= PIXEL_SAMPLES,
            r@.len() == k,
            forall|m: int|
                0 <= m < k ==> #[trigger] r@[m] == sample_coord(
                    size as int,
                    cell as int,
                    count as int,
                    m,
                ),
        decreases PIXEL_SAMPLES - k,
    {
        let v: usize = if cell < count {
            let steps = 32 * (cell as u128) + 1 + 2 * (k as u128);
            assert(steps < 32 * count);
            assert((size as u128) * steps <= 0xffff_ffff * (32 * 0xffff_ffff_ffff_ffff))
                by (nonlinear_arith)
                requires
                    size <= 0xffff_ffff,
                    steps < 32 * count,
                    count <= 0xffff_ffff_ffff_ffff,
            ;
            let q = (size as u128) * steps / (32 * (count as u128));
            assert(q <= size) by (nonlinear_arith)
                requires
                    q == (size * steps) / (32 * count),
                    steps < 32 * count,
                    count > 0,
            {
                vstd::arithmetic::div_mod::lemma_div_is_ordered(
                    size * steps,
                    size * (32 * count),
                    32 * count,
                );
                vstd::arithmetic::div_mod::lemma_div_multiples_vanish(size as int, 32 * count);
            }
            q as usize
        } else {
            size as usize
        };
        r.push(v);
        k = k + 1;
    }
    r
}

/// Channel `ch` (0 blue, 1 green, 2 red) summed over the first `n` sample
/// points of a block, taken row by row, in a BGRA frame of `pitch` bytes per row.
pub open spec fn block_sum(
    pixels: Seq<u8>,
    pitch: int,
    xs: Seq<usize>,
    ys: Seq<usize>,
    ch: int,
    n: int,
) -> int
    decreases n,
{
    if n <= 0 {
        0
    } else {
        let i = n - 1;
        block_sum(pixels, pitch, xs, ys, ch, i) + pixels[ys[i / 16] * pitch + xs[i % 16] * 4
            + ch]
    }
}

/// Every sample point of the block lies inside a frame of `len` bytes.
pub open spec fn block_in_frame(len: int, pitch: int, xs: Seq<usize>, ys: Seq<usize>) -> bool {
    forall|a: int, b: int|
        0 <= a < PIXEL_SAMPLES && 0 <= b < PIXEL_SAMPLES ==> #[trigger] (ys[a] * pitch + xs[b]
            * 4) + 3 < len
}

/// Whether every sample point of the block lies inside the frame.
fn block_fits(len: usize, pitch: usize, block: &SampleBlock) -> (r: bool)
    requires
        block.xs@.len() == PIXEL_SAMPLES,
        block.ys@.len() == PIXEL_SAMPLES,
    ensures
        r == block_in_frame(len as int, pitch as int, block.xs@, block.ys@),
{
    let mut a: usize = 0;
    while a < PIXEL_SAMPLES
        invariant
            a <= PIXEL_SAMPLES,
            block.xs@.len() == PIXEL_SAMPLES,
            block.ys@.len() == PIXEL_SAMPLES,
            forall|i: int, j: int|
                0 <= i < a && 0 <= j < PIXEL_SAMPLES ==> #[trigger] (block.ys@[i] * pitch
                    + block.xs@[j] * 4) + 3 < len,
        decreases PIXEL_SAMPLES - a,
    {
        let mut b: usize = 0;
        while b < PIXEL_SAMPLES
            invariant
                a < PIXEL_SAMPLES,
                b <= PIXEL_SAMPLES,
                block.xs@.len() == PIXEL_SAMPLES,
                block.ys@.len() == PIXEL_SAMPLES,
                forall|i: int, j: int|
                    0 <= i < a && 0 <= j < PIXEL_SAMPLES ==> #[trigger] (block.ys@[i] * pitch
                        + block.xs@[j] * 4) + 3 < len,
                forall|j: int|
                    0 <= j < b ==> #[trigger] (block.ys@[a as int] * pitch + block.xs@[j] * 4) + 3
                        < len,
            decreases PIXEL_SAMPLES - b,
        {
            let y = block.ys[a] as u128;
            let x = block.xs[b] as u128;
            assert(y * pitch <= 0xffff_ffff_ffff_ffff * 0xffff_ffff_ffff_ffff)
                by (nonlinear_arith)
                requires
                    y <= 0xffff_ffff_ffff_ffff,
                    pitch <= 0xffff_ffff_ffff_ffff,
            ;
            let row = y * (pitch as u128);
            if row >= len as u128 || row + x * 4 + 3 >= len as u128 {
                assert(!((block.ys@[a as int] * pitch + block.xs@[b as int] * 4) + 3 < len));
                return false;
            }
            b = b + 1;
        }
        a = a + 1;
    }
    true
}

/// Sum the red, green and blue channels over the sample points of a block.
fn sum_block(pixels: &[u8], pitch: usize, block: &SampleBlock) -> (r: (u32, u32, u32))
    requires
        block.xs@.len() == PIXEL_SAMPLES,
        block.ys@.len() == PIXEL_SAMPLES,
        block_in_frame(pixels@.len() as int, pitch as int, block.xs@, block.ys@),
    ensures
        r.0 == block_sum(pixels@, pitch as int, block.xs@, block.ys@, 2, 256),
        r.1 == block_sum(pixels@, pitch as int, block.xs@, block.ys@, 1, 256),
        r.2 == block_sum(pixels@, pitch as int, block.xs@, block.ys@, 0, 256),
        r.0 <= max_block_sum(),
        r.1 <= max_block_sum(),
        r.2 <= max_block_sum(),
{
    let mut sr: u32 = 0;
    let mut sg: u32 = 0;
    let mut sb: u32 = 0;
    let mut i: usize = 0;
    while i < OFFSET_ARRAY_SIZE
        invariant
            i <= OFFSET_ARRAY_SIZE,
            block.xs@.len() == PIXEL_SAMPLES,
            block.ys@.len() == PIXEL_SAMPLES,
            block_in_frame(pixels@.len() as int, pitch as int, block.xs@, block.ys@),
            sr == block_sum(pixels@, pitch as int, block.xs@, block.ys@, 2, i as int),
            sg == block_sum(pixels@, pitch as int, block.xs@, block.ys@, 1, i as int),
            sb == block_sum(pixels@, pitch as int, block.xs@, block.ys@, 0, i as int),
            sr <= 255 * i,
            sg <= 255 * i,
            sb <= 255 * i,
        decreases OFFSET_ARRAY_SIZE - i,
    {
        let y = block.ys[i / 16];
        let x = block.xs[i % 16];
        assert((block.ys@[(i / 16) as int] * pitch + block.xs@[(i % 16) as int] * 4) + 3 < pixels@.len());
        assert(y * pitch + x * 4 + 3 < pixels@.len());
        assert(0 <= y * pitch) by (nonlinear_arith);
        let len = pixels.len();
        assert(y * pitch + x * 4 + 3 < len);
        let row = y * pitch;
        let base = row + x * 4;
        sr = sr + pixels[base + 2] as u32;
        sg = sg + pixels[base + 1] as u32;
        sb = sb + pixels[base] as u32;
        i = i + 1;
    }
    (sr, sg, sb)
}

proof fn lemma_led_count_prefix(displays: Seq<DisplayConfiguration>, i: int)
    requires
        0 <= i < displays.len(),
    ensures
        led_count(displays.take(i + 1)) == led_count(displays.take(i))
            + displays[i].positions@.len(),
        0 <= led_count(displays.take(i)),
        led_count(displays.take(i + 1)) <= led_count(displays),
    decreases displays.len(),
{
    assert(displays.take(i + 1).drop_last() =~= displays.take(i));
    lemma_led_count_nonneg(displays.take(i));
    if i + 1 == displays.len() {
        assert(displays.take(i + 1) =~= displays);
    } else {
        lemma_led_count_prefix(displays.drop_last(), i);
        assert(displays.drop_last().take(i + 1) =~= displays.take(i + 1));
        assert(displays.drop_last().take(i) =~= displays.take(i));
        lemma_led_count_nonneg(displays.drop_last());
    }
}

proof fn lemma_led_count_nonneg(displays: Seq<DisplayConfiguration>)
    ensures
        0 <= led_count(displays),
    decreases displays.len(),
{
    if displays.len() > 0 {
        lemma_led_count_nonneg(displays.drop_last());
    }
}

/// The new color of the LED whose block is `block` and whose color was `previous`.
pub open spec fn block_color(
    settings: &Settings,
    block: SampleBlock,
    previous: u32,
    pixels: Seq<u8>,
    pitch: int,
) -> u32 {
    reduced_color(
        block_sum(pixels, pitch, block.xs@, block.ys@, 2, 256),
        block_sum(pixels, pitch, block.xs@, block.ys@, 1, 256),
        block_sum(pixels, pitch, block.xs@, block.ys@, 0, 256),
        previous,
        settings.min_brightness as int,
        settings.fade as int,
    ) as u32
}

/// The colors after sampling a frame of the display whose LEDs start at
/// `first` and have the blocks `blocks`: each of them gets its block's color,
/// every other LED keeps its color.
pub open spec fn tick_colors(
    settings: &Settings,
    blocks: Seq<SampleBlock>,
    first: int,
    colors: Seq<u32>,
    pixels: Seq<u8>,
    pitch: int,
) -> Seq<u32> {
    Seq::new(
        colors.len(),
        |k: int|
            if first <= k < first + blocks.len() {
                block_color(settings, blocks[k - first], colors[k], pixels, pitch)
            } else {
                colors[k]
            },
    )
}

/// Without fading, the colors a frame gives the LEDs of its display depend on
/// that frame alone, not on the colors of earlier ticks.
pub proof fn lemma_tick_without_fade_forgets(
    settings: &Settings,
    blocks: Seq<SampleBlock>,
    first: int,
    c1: Seq<u32>,
    c2: Seq<u32>,
    pixels: Seq<u8>,
    pitch: int,
)
    requires
        settings.fade == 0,
        c1.len() == c2.len(),
        0 <= first,
        first + blocks.len() <= c1.len(),
    ensures
        forall|k: int|
            first <= k < first + blocks.len() ==> #[trigger] tick_colors(
                settings,
                blocks,
                first,
                c1,
                pixels,
                pitch,
            )[k] == tick_colors(settings, blocks, first, c2, pixels, pitch)[k],
{
}

/// A channel summed over a block's sample points is at most 255 per point.
proof fn lemma_block_sum_bound(
    pixels: Seq<u8>,
    pitch: int,
    xs: Seq<usize>,
    ys: Seq<usize>,
    ch: int,
    n: int,
)
    ensures
        n >= 0 ==> 0 <= block_sum(pixels, pitch, xs, ys, ch, n) <= 255 * n,
    decreases n,
{
    if n > 0 {
        lemma_block_sum_bound(pixels, pitch, xs, ys, ch, n - 1);
    }
}

/// With a minimum brightness of zero, sampling a frame never lifts a color:
/// each LED of the display gets its faded block average, truncated.
pub proof fn lemma_tick_without_minimum(
    settings: &Settings,
    blocks: Seq<SampleBlock>,
    first: int,
    colors: Seq<u32>,
    pixels: Seq<u8>,
    pitch: int,
)
    requires
        settings.min_brightness == 0,
        settings.fade <= FADE_ONE,
        0 <= first,
        first + blocks.len() <= colors.len(),
    ensures
        forall|k: int|
            first <= k < first + blocks.len() ==> {
                let b = blocks[k - first];
                let p = colors[k];
                #[trigger] tick_colors(settings, blocks, first, colors, pixels, pitch)[k] == rgba(
                    clamp_u8(
                        faded(
                            block_sum(pixels, pitch, b.xs@, b.ys@, 2, 256),
                            red_of(p) as int,
                            settings.fade as int,
                        ) / (CHANNEL_UNIT as int),
                    ),
                    clamp_u8(
                        faded(
                            block_sum(pixels, pitch, b.xs@, b.ys@, 1, 256),
                            green_of(p) as int,
                            settings.fade as int,
                        ) / (CHANNEL_UNIT as int),
                    ),
                    clamp_u8(
                        faded(
                            block_sum(pixels, pitch, b.xs@, b.ys@, 0, 256),
                            blue_of(p) as int,
                            settings.fade as int,
                        ) / (CHANNEL_UNIT as int),
                    ),
                    0xff,
                ) as u32
            },
{
    assert forall|k: int| first <= k < first + blocks.len() implies {
        let b = blocks[k - first];
        let p = colors[k];
        #[trigger] tick_colors(settings, blocks, first, colors, pixels, pitch)[k] == rgba(
            clamp_u8(
                faded(block_sum(pixels, pitch, b.xs@, b.ys@, 2, 256), red_of(p) as int, settings.fade as int)
                    / (CHANNEL_UNIT as int),
            ),
            clamp_u8(
                faded(block_sum(pixels, pitch, b.xs@, b.ys@, 1, 256), green_of(p) as int, settings.fade as int)
                    / (CHANNEL_UNIT as int),
            ),
            clamp_u8(
                faded(block_sum(pixels, pitch, b.xs@, b.ys@, 0, 256), blue_of(p) as int, settings.fade as int)
                    / (CHANNEL_UNIT as int),
            ),
            0xff,
        ) as u32
    } by {
        let b = blocks[k - first];
        lemma_block_sum_bound(pixels, pitch, b.xs@, b.ys@, 2, 256);
        lemma_block_sum_bound(pixels, pitch, b.xs@, b.ys@, 1, 256);
        lemma_block_sum_bound(pixels, pitch, b.xs@, b.ys@, 0, 256);
        lemma_zero_minimum_keeps_color(
            block_sum(pixels, pitch, b.xs@, b.ys@, 2, 256),
            block_sum(pixels, pitch, b.xs@, b.ys@, 1, 256),
            block_sum(pixels, pitch, b.xs@, b.ys@, 0, 256),
            colors[k],
            settings.fade as int,
        );
    }
}

/// Index in strand order of the first LED of display `d`.
pub open spec fn first_led(displays: Seq<DisplayConfiguration>, d: int) -> int {
    led_count(displays.take(d))
}

/// Captures the displays' edges and keeps the current color of every LED.
pub struct ScreenSamples {
    /// Sample blocks of each LED, display by display; empty for a display that
    /// has no frame source.
    pub pixel_offsets: Vec<Vec<SampleBlock>>,
    /// Current color of each LED, in strand order.
    pub previous_colors: Vec<u32>,
    /// Whether resources are held and samples can be taken.
    pub acquired_resources: bool,
    /// Ticks taken since the resources were created.
    pub frame_count: usize,
}

impl ScreenSamples {
    /// While resources are held there is one color per LED and, for each
    /// configured display, either no block or one block per LED.
    pub open spec fn wf(&self, settings: &Settings) -> bool {
        self.acquired_resources ==> {
            &&& self.previous_colors@.len() == settings.total_led_count
            &&& forall|k: int|
                0 <= k < self.previous_colors@.len() ==> alpha_of(
                    #[trigger] self.previous_colors@[k],
                ) == 0xff
            &&& self.pixel_offsets@.len() == settings.displays@.len()
            &&& forall|d: int|
                0 <= d < self.pixel_offsets@.len() ==> {
                    ||| (#[trigger] self.pixel_offsets@[d])@.len() == 0
                    ||| self.pixel_offsets@[d]@.len() == settings.displays@[d].positions@.len()
                }
            &&& forall|d: int, j: int|
                0 <= d < self.pixel_offsets@.len() && 0 <= j < self.pixel_offsets@[d]@.len()
                    ==> {
                    &&& (#[trigger] self.pixel_offsets@[d]@[j]).xs@.len() == PIXEL_SAMPLES
                    &&& self.pixel_offsets@[d]@[j].ys@.len() == PIXEL_SAMPLES
                }
        }
    }

    /// A sampler that holds no resources.
    pub fn new() -> (r: Self)
        ensures
            !r.acquired_resources,
            r.previous_colors@.len() == 0,
    {
        ScreenSamples {
            pixel_offsets: Vec::new(),
            previous_colors: Vec::new(),
            acquired_resources: false,
            frame_count: 0,
        }
    }

    /// Create the resources for the attached displays, whose sizes in pixels
    /// `bounds` lists in configuration order: the sample blocks of every LED of
    /// a configured display that has a size, and every LED's color at the
    /// minimum brightness. Fails where no display is attached; does nothing
    /// where resources are already held.
    pub fn create_resources(&mut self, settings: &Settings, bounds: &Vec<(u32, u32)>) -> (r:
        bool)
        requires
            settings.wf(),
            old(self).wf(settings),
        ensures
            final(self).wf(settings),
            r == (old(self).acquired_resources || bounds@.len() > 0),
            r == final(self).acquired_resources,
            old(self).acquired_resources ==> *final(self) == *old(self),
            !old(self).acquired_resources && r ==> {
                &&& final(self).previous_colors@ == Seq::new(
                    settings.total_led_count as nat,
                    |i: int| settings.min_brightness_color,
                )
                &&& final(self).frame_count == 0
                &&& forall|i: int|
                    0 <= i < settings.total_led_count ==> {
                        &&& alpha_of(#[trigger] final(self).previous_colors@[i]) == 0xff
                        &&& red_of(final(self).previous_colors@[i]) == settings.min_brightness / 3
                        &&& green_of(final(self).previous_colors@[i]) == settings.min_brightness / 3
                        &&& blue_of(final(self).previous_colors@[i]) == settings.min_brightness / 3
                    }
                &&& forall|d: int|
                    0 <= d < settings.displays@.len() ==> (
                    #[trigger] final(self).pixel_offsets@[d])@.len() == if d < bounds@.len() {
                        settings.displays@[d].positions@.len()
                    } else {
                        0
                    }
                &&& forall|d: int, j: int|
                    0 <= d < settings.displays@.len() && d < bounds@.len() && 0 <= j
                        < settings.displays@[d].positions@.len() ==> (
                    #[trigger] final(self).pixel_offsets@[d]@[j]).is_block_of(
                        bounds@[d].0,
                        bounds@[d].1,
                        &settings.displays@[d],
                        settings.displays@[d].positions@[j],
                    )
            },
            !r ==> *final(self) == *old(self),
    {
        if self.acquired_resources {
            return true;
        }
        if bounds.len() == 0 {
            return false;
        }
        let mut offsets: Vec<Vec<SampleBlock>> = Vec::new();
        let mut d: usize = 0;
        while d < settings.displays.len()
            invariant
                d <= settings.displays@.len(),
                offsets@.len() == d,
                forall|e: int|
                    0 <= e < d ==> (#[trigger] offsets@[e])@.len() == if e < bounds@.len() {
                        settings.displays@[e].positions@.len()
                    } else {
                        0
                    },
                forall|e: int, j: int|
                    0 <= e < d && e < bounds@.len() && 0 <= j
                        < settings.displays@[e].positions@.len() ==> (
                    #[trigger] offsets@[e]@[j]).is_block_of(
                        bounds@[e].0,
                        bounds@[e].1,
                        &settings.displays@[e],
                        settings.displays@[e].positions@[j],
                    ),
            decreases settings.displays@.len() - d,
        {
            let display = &settings.displays[d];
            let mut blocks: Vec<SampleBlock> = Vec::new();
            if d < bounds.len() {
                let (width, height) = bounds[d];
                let mut j: usize = 0;
                while j < display.positions.len()
                    invariant
                        j <= display.positions@.len(),
                        blocks@.len() == j,
                        forall|m: int|
                            0 <= m < j ==> (#[trigger] blocks@[m]).is_block_of(
                                width,
                                height,
                                display,
                                display.positions@[m],
                            ),
                    decreases display.positions@.len() - j,
                {
                    let led = display.positions[j];
                    let xs = sample_coords(width, led.x, display.horizontal_count);
                    let ys = sample_coords(height, led.y, display.vertical_count);
                    blocks.push(SampleBlock { xs, ys });
                    j = j + 1;
                }
            }
            offsets.push(blocks);
            d = d + 1;
        }
        let mut colors: Vec<u32> = Vec::new();
        let total = settings.get_total_led_count();
        let color = settings.get_min_brightness_color();
        proof {
            let third = (settings.min_brightness / 3) as int;
            crate::color::lemma_rgba_channels(third, third, third, 0xff);
        }
        let mut i: usize = 0;
        while i < total
            invariant
                i <= total,
                colors@ == Seq::new(i as nat, |k: int| color),
            decreases total - i,
        {
            colors.push(color);
            i = i + 1;
            assert(colors@ =~= Seq::new(i as nat, |k: int| color));
        }
        self.pixel_offsets = offsets;
        self.previous_colors = colors;
        self.acquired_resources = true;
        self.frame_count = 0;
        true
    }

    /// Whether every sample point of every LED of `display` lies inside a
    /// frame of `len` bytes with rows of `pitch` bytes.
    pub open spec fn frame_covers(&self, display: int, len: int, pitch: int) -> bool {
        forall|j: int|
            0 <= j < self.pixel_offsets@[display]@.len() ==> block_in_frame(
                len,
                pitch,
                (#[trigger] self.pixel_offsets@[display]@[j]).xs@,
                self.pixel_offsets@[display]@[j].ys@,
            )
    }

    /// Whether a frame can be sampled for `display`: resources are held, the
    /// display has sample blocks, and the frame holds all their points.
    pub open spec fn can_sample(&self, settings: &Settings, display: int, len: int, pitch: int) -> bool {
        &&& self.acquired_resources
        &&& 0 <= display < self.pixel_offsets@.len()
        &&& self.pixel_offsets@[display]@.len() == settings.displays@[display].positions@.len()
        &&& self.frame_covers(display, len, pitch)
    }

    /// Sample a BGRA frame of `display` with rows of `pitch` bytes: each LED of
    /// the display gets the color reduced from its sample block and its previous
    /// color. Returns false, changing nothing, where the frame cannot be sampled.
    pub fn take_samples(&mut self, settings: &Settings, display: usize, pixels: &[u8], pitch: usize) -> (r: bool)
        requires
            settings.wf(),
            old(self).wf(settings),
        ensures
            final(self).wf(settings),
            r == old(self).can_sample(settings, display as int, pixels@.len() as int, pitch as int),
            !r ==> *final(self) == *old(self),
            final(self).pixel_offsets@ == old(self).pixel_offsets@,
            final(self).acquired_resources == old(self).acquired_resources,
            final(self).frame_count == old(self).frame_count,
            final(self).previous_colors@.len() == old(self).previous_colors@.len(),
            r ==> final(self).previous_colors@ == tick_colors(
                settings,
                old(self).pixel_offsets@[display as int]@,
                first_led(settings.displays@, display as int),
                old(self).previous_colors@,
                pixels@,
                pitch as int,
            ),
            r ==> {
                let first = first_led(settings.displays@, display as int);
                let n = settings.displays@[display as int].positions@.len() as int;
                &&& forall|k: int|
                    0 <= k < old(self).previous_colors@.len() && !(first <= k < first + n)
                        ==> #[trigger] final(self).previous_colors@[k]
                        == old(self).previous_colors@[k]
                &&& forall|j: int|
                    0 <= j < n ==> {
                        let block = #[trigger] old(self).pixel_offsets@[display as int]@[j];
                        final(self).previous_colors@[first + j] == reduced_color(
                            block_sum(pixels@, pitch as int, block.xs@, block.ys@, 2, 256),
                            block_sum(pixels@, pitch as int, block.xs@, block.ys@, 1, 256),
                            block_sum(pixels@, pitch as int, block.xs@, block.ys@, 0, 256),
                            old(self).previous_colors@[first + j],
                            settings.min_brightness as int,
                            settings.fade as int,
                        )
                    }
            },
    {
        if !self.acquired_resources || display >= self.pixel_offsets.len() {
            return false;
        }
        let n = settings.displays[display].positions.len();
        if self.pixel_offsets[display].len() != n {
            return false;
        }
        let len = pixels.len();
        let mut j: usize = 0;
        while j < n
            invariant
                j <= n,
                n == self.pixel_offsets@[display as int]@.len(),
                display < self.pixel_offsets@.len(),
                self.wf(settings),
                self.acquired_resources,
                len == pixels@.len(),
                forall|m: int|
                    0 <= m < j ==> block_in_frame(
                        len as int,
                        pitch as int,
                        (#[trigger] self.pixel_offsets@[display as int]@[m]).xs@,
                        self.pixel_offsets@[display as int]@[m].ys@,
                    ),
            decreases n - j,
        {
            if !block_fits(len, pitch, &self.pixel_offsets[display][j]) {
                return false;
            }
            j = j + 1;
        }
        // index of the display's first LED
        let mut first: usize = 0;
        let mut d: usize = 0;
        proof {
            assert(settings.displays@.take(0) =~= Seq::<DisplayConfiguration>::empty());
            lemma_led_count_prefix(settings.displays@, display as int);
        }
        while d < display
            invariant
                d <= display,
                display < settings.displays@.len(),
                first == led_count(settings.displays@.take(d as int)),
                led_count(settings.displays@.take(display as int + 1)) <= settings.total_led_count,
                settings.wf(),
            decreases display - d,
        {
            proof {
                lemma_led_count_prefix(settings.displays@, d as int);
                lemma_led_count_mono(settings.displays@, d as int + 1, display as int + 1);
            }
            first = first + settings.displays[d].positions.len();
            d = d + 1;
        }
        let ghost old_colors = self.previous_colors@;
        let ghost blocks = self.pixel_offsets@[display as int]@;
        j = 0;
        while j < n
            invariant
                j <= n,
                n == settings.displays@[display as int].positions@.len(),
                n == blocks.len(),
                blocks == self.pixel_offsets@[display as int]@,
                display < self.pixel_offsets@.len(),
                self.wf(settings),
                self.acquired_resources,
                self.frame_count == old(self).frame_count,
                self.pixel_offsets@ == old(self).pixel_offsets@,
                settings.wf(),
                first == first_led(settings.displays@, display as int),
                first + n <= settings.total_led_count,
                old_colors == old(self).previous_colors@,
                self.previous_colors@.len() == old_colors.len(),
                forall|m: int|
                    0 <= m < n ==> block_in_frame(
                        pixels@.len() as int,
                        pitch as int,
                        (#[trigger] blocks[m]).xs@,
                        blocks[m].ys@,
                    ),
                forall|k: int|
                    0 <= k < old_colors.len() && !(first <= k < first + j)
                        ==> #[trigger] self.previous_colors@[k] == old_colors[k],
                forall|m: int|
                    0 <= m < j ==> {
                        let block = #[trigger] blocks[m];
                        self.previous_colors@[first + m] == reduced_color(
                            block_sum(pixels@, pitch as int, block.xs@, block.ys@, 2, 256),
                            block_sum(pixels@, pitch as int, block.xs@, block.ys@, 1, 256),
                            block_sum(pixels@, pitch as int, block.xs@, block.ys@, 0, 256),
                            old_colors[first + m],
                            settings.min_brightness as int,
                            settings.fade as int,
                        )
                    },
            decreases n - j,
        {
            let (sr, sg, sb) = sum_block(pixels, pitch, &self.pixel_offsets[display][j]);
            let previous = self.previous_colors[first + j];
            let c = reduce_color(sr, sg, sb, previous, settings.min_brightness, settings.fade);
            self.previous_colors.set(first + j, c);
            proof {
                assert(blocks[j as int] == self.pixel_offsets@[display as int]@[j as int]);
            }
            j = j + 1;
        }
        proof {
            assert(self.previous_colors@ =~= tick_colors(
                settings,
                blocks,
                first as int,
                old_colors,
                pixels@,
                pitch as int,
            )) by {
                assert forall|k: int| first <= k < first + n implies #[trigger] self.previous_colors@[k]
                    == block_color(settings, blocks[k - first], old_colors[k], pixels@, pitch as int) by {
                    let m = k - first;
                    assert(blocks[m] == blocks[m]);
                }
            }
        }
        true
    }

    /// Count one tick taken while resources are held.
    pub fn count_frame(&mut self)
        ensures
            final(self).pixel_offsets@ == old(self).pixel_offsets@,
            final(self).previous_colors@ == old(self).previous_colors@,
            final(self).acquired_resources == old(self).acquired_resources,
            final(self).frame_count == if old(self).acquired_resources && old(self).frame_count
                < usize::MAX {
                old(self).frame_count + 1
            } else {
                old(self).frame_count as int
            },
    {
        if self.acquired_resources && self.frame_count < usize::MAX {
            self.frame_count = self.frame_count + 1;
        }
    }

    /// Release the resources. Returns the number of ticks taken since they were
    /// created, from which the caller reports the effective frame rate.
    pub fn free_resources(&mut self) -> (frames: usize)
        ensures
            !final(self).acquired_resources,
            old(self).acquired_resources ==> final(self).frame_count == 0,
            frames == if old(self).acquired_resources {
                old(self).frame_count as int
            } else {
                0
            },
            old(self).acquired_resources ==> final(self).pixel_offsets@.len() == 0,
            !old(self).acquired_resources ==> *final(self) == *old(self),
    {
        if !self.acquired_resources {
            return 0;
        }
        let frames = self.frame_count;
        self.pixel_offsets = Vec::new();
        self.frame_count = 0;
        self.acquired_resources = false;
        frames
    }

    /// Whether no resources are held.
    pub fn is_empty(&self) -> (r: bool)
        ensures
            r == !self.acquired_resources,
    {
        !self.acquired_resources
    }
}

proof fn lemma_led_count_mono(displays: Seq<DisplayConfiguration>, i: int, j: int)
    requires
        0 <= i <= j <= displays.len(),
    ensures
        led_count(displays.take(i)) <= led_count(displays.take(j)),
    decreases j - i,
{
    if i < j {
        lemma_led_count_mono(displays, i, j - 1);
        lemma_led_count_prefix(displays, j - 1);
    }
}

/// Channel `ch` of a packed word: 0 red, 1 green, 2 blue, 3 alpha.
pub open spec fn channel_of(c: u32, ch: int) -> int {
    if ch == 0 {
        red_of(c) as int
    } else if ch == 1 {
        green_of(c) as int
    } else if ch == 2 {
        blue_of(c) as int
    } else {
        alpha_of(c) as int
    }
}

/// The color that the walk over `idx` finds for offset `o`, starting at the
/// list `d` whose display's first LED is `base`: lists too short for the
/// offset are skipped, their length taken off the offset and their display's
/// LED count added to the base. Black where the walk runs out, or where the
/// index found lies past the colors.
pub open spec fn lookup_sample(
    idx: Seq<Vec<usize>>,
    displays: Seq<DisplayConfiguration>,
    colors: Seq<u32>,
    d: int,
    o: int,
    base: int,
) -> u32
    decreases idx.len() - d,
{
    if d < 0 || d >= idx.len() {
        0
    } else if o < idx[d]@.len() {
        let k = base + idx[d]@[o];
        if 0 <= k < colors.len() {
            colors[k]
        } else {
            0
        }
    } else {
        lookup_sample(
            idx,
            displays,
            colors,
            d + 1,
            o - idx[d]@.len(),
            base + if d < displays.len() {
                displays[d].positions@.len() as int
            } else {
                0
            },
        )
    }
}

/// Color sampled for pixel `p` of a range: the sample at offset
/// `p * sample_count / pixel_count` in the range's display indices.
pub open spec fn sampled_color(
    range: OpcPixelRange,
    displays: Seq<DisplayConfiguration>,
    colors: Seq<u32>,
    p: int,
) -> u32 {
    lookup_sample(
        range.display_index@,
        displays,
        colors,
        0,
        (p * range.sample_count) / (range.pixel_count as int),
        0,
    )
}

/// Sampled colors of all the pixels of a range.
pub open spec fn sampled_colors(
    range: OpcPixelRange,
    displays: Seq<DisplayConfiguration>,
    colors: Seq<u32>,
) -> Seq<u32> {
    Seq::new(range.pixel_count as nat, |p: int| sampled_color(range, displays, colors, p))
}

/// Channel `ch` of the first `n` samples from `start`, each weighted by the
/// kernel entry of the same rank, summed.
pub open spec fn weighted(w: Seq<u32>, s: Seq<u32>, start: int, ch: int, n: int) -> int
    decreases n,
{
    if n <= 0 {
        0
    } else {
        weighted(w, s, start, ch, n - 1) + w[n - 1] * channel_of(s[start + n - 1], ch)
    }
}

/// Pixel `p` of a range after smoothing: where the whole kernel fits around
/// it, each channel (alpha too) is the kernel-weighted sum of the samples
/// around it, truncated and clamped; elsewhere the sample itself.
pub open spec fn smoothed_color(range: OpcPixelRange, s: Seq<u32>, p: int) -> u32 {
    let r = range.kernel_radius as int;
    let w = range.kernel_weights@;
    if r > 0 && r <= p && p + r < range.pixel_count {
        rgba(
            clamp_u8(weighted(w, s, p - r, 0, 2 * r + 1) / (KERNEL_ONE as int)),
            clamp_u8(weighted(w, s, p - r, 1, 2 * r + 1) / (KERNEL_ONE as int)),
            clamp_u8(weighted(w, s, p - r, 2, 2 * r + 1) / (KERNEL_ONE as int)),
            clamp_u8(weighted(w, s, p - r, 3, 2 * r + 1) / (KERNEL_ONE as int)),
        ) as u32
    } else {
        s[p]
    }
}

/// Output colors of a range.
pub open spec fn range_colors(
    range: OpcPixelRange,
    displays: Seq<DisplayConfiguration>,
    colors: Seq<u32>,
) -> Seq<u32> {
    let s = sampled_colors(range, displays, colors);
    Seq::new(range.pixel_count as nat, |p: int| smoothed_color(range, s, p))
}

/// Output colors of a channel: those of its ranges, one range after another.
pub open spec fn channel_colors(
    ranges: Seq<OpcPixelRange>,
    displays: Seq<DisplayConfiguration>,
    colors: Seq<u32>,
) -> Seq<u32>
    decreases ranges.len(),
{
    if ranges.len() == 0 {
        Seq::empty()
    } else {
        channel_colors(ranges.drop_last(), displays, colors) + range_colors(
            ranges.last(),
            displays,
            colors,
        )
    }
}

proof fn lemma_channel_colors_len(
    ranges: Seq<OpcPixelRange>,
    displays: Seq<DisplayConfiguration>,
    colors: Seq<u32>,
)
    ensures
        channel_colors(ranges, displays, colors).len() == pixel_total(ranges),
    decreases ranges.len(),
{
    if ranges.len() > 0 {
        lemma_channel_colors_len(ranges.drop_last(), displays, colors);
    }
}

/// Gamma corrected color: each channel through the table of its own ceiling,
/// alpha full.
pub open spec fn is_corrected(out: u32, c: u32) -> bool {
    &&& is_gamma_level(red_of(out) as int, red_of(c) as int, RED_CEILING as int)
    &&& is_gamma_level(green_of(out) as int, green_of(c) as int, GREEN_CEILING as int)
    &&& is_gamma_level(blue_of(out) as int, blue_of(c) as int, BLUE_CEILING as int)
    &&& alpha_of(out) == 0xff
}

impl ScreenSamples {
    /// Color sampled at offset `o` of the display indices `idx`.
    fn sample_at(
        &self,
        idx: &Vec<Vec<usize>>,
        displays: &Vec<DisplayConfiguration>,
        o: usize,
    ) -> (c: u32)
        ensures
            c == lookup_sample(idx@, displays@, self.previous_colors@, 0, o as int, 0),
    {
        let mut d: usize = 0;
        let mut off: usize = o;
        let mut base: u128 = 0;
        while d < idx.len() && off >= idx[d].len()
            invariant
                d <= idx@.len(),
                base <= d * usize::MAX,
                lookup_sample(idx@, displays@, self.previous_colors@, 0, o as int, 0)
                    == lookup_sample(
                    idx@,
                    displays@,
                    self.previous_colors@,
                    d as int,
                    off as int,
                    base as int,
                ),
            decreases idx@.len() - d,
        {
            proof {
                crate::settings::lemma_wide_step(d as int);
            }
            off = off - idx[d].len();
            if d < displays.len() {
                base = base + displays[d].positions.len() as u128;
            }
            d = d + 1;
        }
        if d < idx.len() {
            proof {
                crate::settings::lemma_wide_step(d as int);
            }
            let k = base + idx[d][off] as u128;
            if k < self.previous_colors.len() as u128 {
                return self.previous_colors[k as usize];
            }
        }
        0
    }

    /// Kernel-weighted sum of channel `ch` over `2 * radius + 1` samples from `start`.
    fn weighted_channel(w: &Vec<u32>, s: &Vec<u32>, start: usize, ch: usize) -> (r: u128)
        requires
            s@.len() >= start + w@.len(),
            ch < 4,
        ensures
            r == weighted(w@, s@, start as int, ch as int, w@.len() as int),
    {
        let mut acc: u128 = 0;
        let mut k: usize = 0;
        let slen = s.len();
        while k < w.len()
            invariant
                k <= w@.len(),
                slen == s@.len(),
                s@.len() >= start + w@.len(),
                ch < 4,
                acc == weighted(w@, s@, start as int, ch as int, k as int),
                acc <= k * 0x100_0000_0000,
            decreases w@.len() - k,
        {
            let (r, g, b, a) = unpack(s[start + k]);
            let v: u8 = if ch == 0 {
                r
            } else if ch == 1 {
                g
            } else if ch == 2 {
                b
            } else {
                a
            };
            assert((w@[k as int] as u128) * (v as u128) <= 0x100_0000_0000) by (nonlinear_arith)
                requires
                    w@[k as int] <= 0xffff_ffff,
                    v <= 255,
            ;
            assert(k * 0x100_0000_0000 + 0x100_0000_0000 <= 0x1_0000_0000_0000_0000 * 0x100_0000_0000)
                by (nonlinear_arith)
                requires
                    k < 0x1_0000_0000_0000_0000,
            ;
            acc = acc + (w[k] as u128) * (v as u128);
            k = k + 1;
        }
        acc
    }

    /// Pixel `p` of a range after smoothing its sampled colors.
    fn smooth_pixel(range: &OpcPixelRange, sampled: &Vec<u32>, p: usize) -> (c: u32)
        requires
            range.wf(),
            sampled@.len() == range.pixel_count,
            p < range.pixel_count,
        ensures
            c == smoothed_color(*range, sampled@, p as int),
    {
        let r = range.kernel_radius;
        let n = range.pixel_count;
        if r > 0 && r <= p && p < n - r {
            let start = p - r;
            let w = &range.kernel_weights;
            let red = Self::weighted_channel(w, sampled, start, 0) / (KERNEL_ONE as u128);
            let green = Self::weighted_channel(w, sampled, start, 1) / (KERNEL_ONE as u128);
            let blue = Self::weighted_channel(w, sampled, start, 2) / (KERNEL_ONE as u128);
            let alpha = Self::weighted_channel(w, sampled, start, 3) / (KERNEL_ONE as u128);
            let c = pack(
                if red > 255 { 255 } else { red as u8 },
                if green > 255 { 255 } else { green as u8 },
                if blue > 255 { 255 } else { blue as u8 },
                if alpha > 255 { 255 } else { alpha as u8 },
            );
            assert(w@.len() == 2 * r + 1);
            c
        } else {
            sampled[p]
        }
    }

    /// Output colors of one range.
    fn render_range(&self, settings: &Settings, range: &OpcPixelRange, out: &mut Vec<u32>)
        requires
            range.wf(),
        ensures
            final(out)@ == old(out)@ + range_colors(
                *range,
                settings.displays@,
                self.previous_colors@,
            ),
    {
        let n = range.pixel_count;
        let mut sampled: Vec<u32> = Vec::new();
        let mut p: usize = 0;
        while p < n
            invariant
                p <= n,
                n == range.pixel_count,
                sampled@ =~= sampled_colors(*range, settings.displays@, self.previous_colors@).take(
                    p as int,
                ),
            decreases n - p,
        {
            assert((p as u128) * (range.sample_count as u128) <= 0xffff_ffff_ffff_ffff * 0xffff_ffff_ffff_ffff)
                by (nonlinear_arith)
                requires
                    p <= 0xffff_ffff_ffff_ffff,
                    range.sample_count <= 0xffff_ffff_ffff_ffff,
            ;
            let o = (p as u128) * (range.sample_count as u128) / (n as u128);
            assert(o <= range.sample_count) by (nonlinear_arith)
                requires
                    o == (p * range.sample_count) / (n as int),
                    p < n,
            {
                vstd::arithmetic::div_mod::lemma_div_is_ordered(
                    p * range.sample_count,
                    n * range.sample_count,
                    n as int,
                );
                vstd::arithmetic::div_mod::lemma_div_multiples_vanish(
                    range.sample_count as int,
                    n as int,
                );
            }
            let c = self.sample_at(&range.display_index, &settings.displays, o as usize);
            sampled.push(c);
            p = p + 1;
        }
        let ghost s = sampled_colors(*range, settings.displays@, self.previous_colors@);
        assert(sampled@ =~= s);
        let r = range.kernel_radius;
        let ghost before = out@;
        p = 0;
        while p < n
            invariant
                p <= n,
                n == range.pixel_count,
                r == range.kernel_radius,
                range.wf(),
                sampled@ == s,
                s == sampled_colors(*range, settings.displays@, self.previous_colors@),
                s.len() == n,
                out@ =~= before + range_colors(*range, settings.displays@, self.previous_colors@).take(
                    p as int,
                ),
            decreases n - p,
        {
            let c = Self::smooth_pixel(range, &sampled, p);
            proof {
                let x = range_colors(*range, settings.displays@, self.previous_colors@);
                assert(x[p as int] == smoothed_color(*range, s, p as int));
                assert(x.take(p + 1) =~= x.take(p as int).push(c));
            }
            out.push(c);
            p = p + 1;
        }
    }

    /// Write the colors of every pixel of `channel` to its message buffer.
    /// Returns false, leaving the payload zeroed, where no resources are held.
    pub fn render_channel(&self, settings: &Settings, channel: &OpcChannel, pixels: &mut PixelBuffer) -> (r: bool)
        requires
            channel.wf(),
            old(pixels).wf(),
            old(pixels).bytes().len() == old(pixels).header_len() + old(pixels).width()
                * channel.total_pixel_count,
        ensures
            r == self.acquired_resources,
            final(pixels).wf(),
            final(pixels).header_len() == old(pixels).header_len(),
            final(pixels).has_alpha() == old(pixels).has_alpha(),
            final(pixels).bytes().take(old(pixels).header_len()) == old(pixels).bytes().take(
                old(pixels).header_len(),
            ),
            r ==> final(pixels).holds(
                channel_colors(channel.pixels@, settings.displays@, self.previous_colors@),
            ),
            !r ==> final(pixels).bytes() == old(pixels).bytes().take(old(pixels).header_len())
                + crate::pixel_buffer::zeros(old(pixels).bytes().len() - old(pixels).header_len()),
    {
        if !self.acquired_resources {
            pixels.clear();
            return false;
        }
        let mut out: Vec<u32> = Vec::new();
        let mut i: usize = 0;
        while i < channel.pixels.len()
            invariant
                i <= channel.pixels@.len(),
                channel.wf(),
                out@ == channel_colors(
                    channel.pixels@.take(i as int),
                    settings.displays@,
                    self.previous_colors@,
                ),
            decreases channel.pixels@.len() - i,
        {
            proof {
                assert(channel.pixels@.take(i + 1).drop_last() =~= channel.pixels@.take(i as int));
                assert(channel.pixels@[i as int].wf());
            }
            self.render_range(settings, &channel.pixels[i], &mut out);
            i = i + 1;
        }
        proof {
            assert(channel.pixels@.take(i as int) =~= channel.pixels@);
            lemma_channel_colors_len(channel.pixels@, settings.displays@, self.previous_colors@);
        }
        pixels.write_pixels(&out);
        true
    }

    /// Write the gamma corrected color of every LED to the serial message
    /// buffer. Returns false, leaving the payload zeroed, where no resources
    /// are held.
    pub fn render_serial(&self, settings: &Settings, gamma: &GammaLookup, serial: &mut PixelBuffer) -> (r: bool)
        requires
            settings.wf(),
            self.wf(settings),
            gamma.wf(),
            old(serial).wf(),
            !old(serial).has_alpha(),
            old(serial).bytes().len() == old(serial).header_len() + 3 * settings.total_led_count,
        ensures
            r == self.acquired_resources,
            final(serial).wf(),
            final(serial).header_len() == old(serial).header_len(),
            !final(serial).has_alpha(),
            final(serial).bytes().len() == old(serial).bytes().len(),
            final(serial).bytes().take(old(serial).header_len()) == old(serial).bytes().take(
                old(serial).header_len(),
            ),
            r ==> forall|k: int|
                0 <= k < self.previous_colors@.len() ==> {
                    &&& is_gamma_level(
                        #[trigger] final(serial).bytes()[old(serial).header_len() + 3 * k] as int,
                        red_of(self.previous_colors@[k]) as int,
                        RED_CEILING as int,
                    )
                    &&& is_gamma_level(
                        final(serial).bytes()[old(serial).header_len() + 3 * k + 1] as int,
                        green_of(self.previous_colors@[k]) as int,
                        GREEN_CEILING as int,
                    )
                    &&& is_gamma_level(
                        final(serial).bytes()[old(serial).header_len() + 3 * k + 2] as int,
                        blue_of(self.previous_colors@[k]) as int,
                        BLUE_CEILING as int,
                    )
                },
            !r ==> final(serial).bytes() == old(serial).bytes().take(old(serial).header_len())
                + crate::pixel_buffer::zeros(old(serial).bytes().len() - old(serial).header_len()),
    {
        if !self.acquired_resources {
            serial.clear();
            return false;
        }
        let mut out: Vec<u32> = Vec::new();
        let mut k: usize = 0;
        while k < self.previous_colors.len()
            invariant
                k <= self.previous_colors@.len(),
                gamma.wf(),
                out@.len() == k,
                forall|m: int|
                    0 <= m < k ==> is_corrected(#[trigger] out@[m], self.previous_colors@[m]),
            decreases self.previous_colors@.len() - k,
        {
            let (r, g, b, _a) = unpack(self.previous_colors[k]);
            out.push(pack(gamma.red(r), gamma.green(g), gamma.blue(b), 0xff));
            k = k + 1;
        }
        serial.write_pixels(&out);
        proof {
            let h = old(serial).header_len();
            assert forall|m: int| 0 <= m < self.previous_colors@.len() implies is_gamma_level(
                #[trigger] serial.bytes()[h + 3 * m] as int,
                red_of(self.previous_colors@[m]) as int,
                RED_CEILING as int,
            ) && is_gamma_level(
                serial.bytes()[h + 3 * m + 1] as int,
                green_of(self.previous_colors@[m]) as int,
                GREEN_CEILING as int,
            ) && is_gamma_level(
                serial.bytes()[h + 3 * m + 2] as int,
                blue_of(self.previous_colors@[m]) as int,
                BLUE_CEILING as int,
            ) by {
                assert(is_corrected(out@[m], self.previous_colors@[m]));
                assert(serial.bytes()[h + 3 * m + 0] == crate::pixel_buffer::pixel_byte(out@[m], 0));
                assert(serial.bytes()[h + 3 * m + 1] == crate::pixel_buffer::pixel_byte(out@[m], 1));
                assert(serial.bytes()[h + 3 * m + 2] == crate::pixel_buffer::pixel_byte(out@[m], 2));
            }
        }
        true
    }
}

} // verus!
