use crate::color::{pack, rgba};
use vstd::prelude::*;

verus! {

/// `fade` is held in units of `1 / FADE_ONE`.
pub const FADE_ONE: u32 = 65536;

/// Largest `fade`: one half.
pub const FADE_MAX: u32 = 32768;

/// The weights of every blur kernel sum to `KERNEL_ONE`.
pub const KERNEL_ONE: u32 = 65536;

/// The peak of the Gaussian profile handed to [OpcPixelRange::new].
pub const PROFILE_ONE: u32 = 65536;

/// Why a configuration was rejected.
#[derive(Debug, PartialEq, Eq, Structural)]
pub enum SettingsError {
    /// `fps_max` is zero.
    ZeroFrameRate,
    /// `fade` is above one half.
    FadeOutOfRange,
    /// The LEDs do not fit in one serial message.
    TooManyLeds,
    /// The pixels of a channel do not fit in one message.
    TooManyPixels,
    /// The display indices of a range overflow a count.
    TooManySamples,
    /// The Gaussian profile does not have one value per step of the kernel radius.
    ProfileLength,
    /// A value of the Gaussian profile is above its peak.
    ProfileOutOfRange,
}

/// Grid cell of one LED, in the units of its display's grid, `{ 0, 0 }` being
/// the top-left corner.
#[derive(Debug, Clone, Copy)]
pub struct LedPosition {
    pub x: usize,
    pub y: usize,
}

/// A display: its grid size and the cells of its LEDs in strand order.
#[derive(Debug)]
pub struct DisplayConfiguration {
    pub horizontal_count: usize,
    pub vertical_count: usize,
    pub positions: Vec<LedPosition>,
}

/// Number of entries over all the lists of `idx`.
pub open spec fn index_count(idx: Seq<Vec<usize>>) -> int
    decreases idx.len(),
{
    if idx.len() == 0 {
        0
    } else {
        index_count(idx.drop_last()) + idx.last()@.len()
    }
}

/// Number of LED positions over all displays.
pub open spec fn led_count(displays: Seq<DisplayConfiguration>) -> int
    decreases displays.len(),
{
    if displays.len() == 0 {
        0
    } else {
        led_count(displays.drop_last()) + displays.last().positions@.len()
    }
}

/// Sum of a sequence of words.
pub open spec fn seq_sum(s: Seq<u32>) -> int
    decreases s.len(),
{
    if s.len() == 0 {
        0
    } else {
        seq_sum(s.drop_last()) + s.last()
    }
}

/// Radius of the blur kernel of a range of `pixel_count` pixels driven by
/// `sample_count` samples: zero unless each sample spreads over three pixels or more.
pub open spec fn kernel_radius_for(pixel_count: int, sample_count: int) -> int {
    if sample_count > 1 && pixel_count >= 3 * sample_count {
        pixel_count / (2 * sample_count)
    } else {
        0
    }
}

/// Weight of the kernel entry `x` steps from its left end (`x` below the radius):
/// the profile value scaled so that the whole kernel, peak included, sums to one.
pub open spec fn kernel_side(profile: Seq<u32>, x: int) -> int {
    (profile[x] * KERNEL_ONE) / (PROFILE_ONE + 2 * seq_sum(profile))
}

/// `w` is the normalized, symmetric kernel of the half profile `profile`,
/// peaking in its middle.
pub open spec fn is_kernel_of(w: Seq<u32>, profile: Seq<u32>) -> bool {
    let n = profile.len() as int;
    &&& w.len() == 2 * n + 1
    &&& forall|x: int| 0 <= x < n ==> #[trigger] w[x] == kernel_side(profile, x)
    &&& forall|x: int| 0 <= x < w.len() ==> #[trigger] w[x] == w[2 * n - x]
    &&& forall|x: int| 0 <= x < w.len() ==> #[trigger] w[x] <= w[n]
    &&& seq_sum(w) == KERNEL_ONE
}

proof fn lemma_seq_sum_push(s: Seq<u32>, v: u32)
    ensures
        seq_sum(s.push(v)) == seq_sum(s) + v,
{
    assert(s.push(v).drop_last() =~= s);
}

/// Build the kernel of the half profile `profile`: the profile, its peak, then
/// the profile mirrored, all scaled to sum to `KERNEL_ONE`.
fn normalized_kernel(profile: &Vec<u32>) -> (w: Vec<u32>)
    requires
        profile@.len() < 0x1_0000_0000_0000_0000,
        forall|i: int| 0 <= i < profile@.len() ==> profile@[i] <= PROFILE_ONE,
    ensures
        is_kernel_of(w@, profile@),
{
    let n = profile.len();
    let mut psum: u128 = 0;
    let mut i: usize = 0;
    while i < n
        invariant
            i <= n,
            n == profile@.len(),
            n < 0x1_0000_0000_0000_0000,
            forall|k: int| 0 <= k < profile@.len() ==> profile@[k] <= PROFILE_ONE,
            psum == seq_sum(profile@.take(i as int)),
            psum <= i * PROFILE_ONE,
        decreases n - i,
    {
        proof {
            assert(profile@.take(i + 1).drop_last() =~= profile@.take(i as int));
        }
        psum = psum + profile[i] as u128;
        i = i + 1;
    }
    assert(profile@.take(n as int) =~= profile@);
    let total: u128 = PROFILE_ONE as u128 + 2 * psum;
    let mut sides: Vec<u32> = Vec::new();
    let mut side_sum: u128 = 0;
    i = 0;
    while i < n
        invariant
            i <= n,
            n == profile@.len(),
            n < 0x1_0000_0000_0000_0000,
            forall|k: int| 0 <= k < profile@.len() ==> profile@[k] <= PROFILE_ONE,
            total == PROFILE_ONE + 2 * seq_sum(profile@),
            psum == seq_sum(profile@),
            total >= PROFILE_ONE,
            sides@.len() == i,
            forall|k: int| 0 <= k < i ==> #[trigger] sides@[k] == kernel_side(profile@, k),
            side_sum == seq_sum(sides@),
            side_sum <= i * KERNEL_ONE,
            side_sum * total <= KERNEL_ONE * seq_sum(profile@.take(i as int)),
        decreases n - i,
    {
        let p = profile[i] as u128;
        let side = p * (KERNEL_ONE as u128) / total;
        proof {
            let pk: int = p * KERNEL_ONE;
            let ti: int = total as int;
            vstd::arithmetic::div_mod::lemma_fundamental_div_mod(pk, ti);
            assert(side <= KERNEL_ONE && side * ti <= pk) by (nonlinear_arith)
                requires
                    p <= PROFILE_ONE,
                    ti >= PROFILE_ONE,
                    pk == p * KERNEL_ONE,
                    side == pk / ti,
                    pk == ti * (pk / ti) + pk % ti,
                    pk % ti >= 0,
            ;
            assert(profile@.take(i + 1).drop_last() =~= profile@.take(i as int));
            assert((side_sum + side) * total == side_sum * total + side * total) by (nonlinear_arith);
        }
        let ghost before = sides@;
        sides.push(side as u32);
        proof {
            lemma_seq_sum_push(before, side as u32);
        }
        side_sum = side_sum + side;
        i = i + 1;
    }
    assert(profile@.take(n as int) =~= profile@);
    assert(2 * side_sum < KERNEL_ONE) by (nonlinear_arith)
        requires
            side_sum * total <= KERNEL_ONE * psum,
            total == PROFILE_ONE + 2 * psum,
            psum >= 0,
    ;
    let center: u32 = KERNEL_ONE - 2 * (side_sum as u32);
    proof {
        assert(center * total >= KERNEL_ONE * PROFILE_ONE) by (nonlinear_arith)
            requires
                side_sum * total <= KERNEL_ONE * psum,
                total == PROFILE_ONE + 2 * psum,
                center == KERNEL_ONE - 2 * side_sum,
        ;
        assert forall|x: int| 0 <= x < n implies #[trigger] sides@[x] <= center by {
            let p = profile@[x] as int;
            let pk = p * KERNEL_ONE;
            let ti = total as int;
            vstd::arithmetic::div_mod::lemma_fundamental_div_mod(pk, ti);
            assert(sides@[x] == pk / ti);
            assert(sides@[x] <= center) by (nonlinear_arith)
                requires
                    sides@[x] == pk / ti,
                    pk == p * KERNEL_ONE,
                    p <= PROFILE_ONE,
                    ti > 0,
                    pk == ti * (pk / ti) + pk % ti,
                    pk % ti >= 0,
                    center * ti >= KERNEL_ONE * PROFILE_ONE,
            ;
        }
    }
    let mut w: Vec<u32> = Vec::new();
    let mut j: usize = 0;
    while j < n
        invariant
            j <= n,
            n == sides@.len(),
            forall|x: int| 0 <= x < n ==> #[trigger] sides@[x] <= center,
            w@ =~= sides@.take(j as int),
            seq_sum(w@) == seq_sum(sides@.take(j as int)),
        decreases n - j,
    {
        let ghost before = w@;
        w.push(sides[j]);
        proof {
            lemma_seq_sum_push(before, sides@[j as int]);
            assert(sides@.take(j + 1) =~= sides@.take(j as int).push(sides@[j as int]));
        }
        j = j + 1;
    }
    assert(sides@.take(n as int) =~= sides@);
    let ghost left = w@;
    proof {
        lemma_seq_sum_push(left, center);
    }
    w.push(center);
    let mut k: usize = 0;
    while k < n
        invariant
            k <= n,
            n == sides@.len(),
            forall|x: int| 0 <= x < n ==> #[trigger] sides@[x] <= center,
            w@.len() == n + 1 + k,
            forall|x: int| 0 <= x < n ==> #[trigger] w@[x] == sides@[x],
            w@[n as int] == center,
            forall|m: int| 0 <= m < k ==> #[trigger] w@[n + 1 + m] == sides@[n - 1 - m],
            seq_sum(w@) == side_sum + center + side_sum - seq_sum(sides@.take(n - k)),
            side_sum == seq_sum(sides@),
        decreases n - k,
    {
        let ghost before = w@;
        let v = sides[n - 1 - k];
        w.push(v);
        proof {
            lemma_seq_sum_push(before, v);
            assert(sides@.take(n - k).drop_last() =~= sides@.take(n - k - 1));
            assert(sides@.take(n as int) =~= sides@);
        }
        k = k + 1;
    }
    proof {
        assert(sides@.take(0) =~= Seq::<u32>::empty());
        assert forall|x: int| 0 <= x < w@.len() implies #[trigger] w@[x] == w@[2 * n - x] by {
            if x < n {
                assert(w@[n + 1 + (n - 1 - x)] == sides@[n - 1 - (n - 1 - x)]);
            } else if x > n {
                assert(w@[n + 1 + (x - n - 1)] == sides@[n - 1 - (x - n - 1)]);
            }
        }
        assert forall|x: int| 0 <= x < w@.len() implies #[trigger] w@[x] <= w@[n as int] by {
            if x > n {
                assert(w@[n + 1 + (x - n - 1)] == sides@[n - 1 - (x - n - 1)]);
            }
        }
    }
    w
}

proof fn lemma_index_count_prefix(idx: Seq<Vec<usize>>, i: int)
    requires
        0 <= i <= idx.len(),
    ensures
        0 <= index_count(idx.take(i)) <= index_count(idx),
    decreases idx.len(),
{
    if idx.len() > 0 {
        if i == idx.len() {
            assert(idx.take(i) =~= idx);
            lemma_index_count_prefix(idx.drop_last(), i - 1);
            assert(idx.drop_last().take(i - 1) =~= idx.drop_last().take(i - 1));
        } else {
            lemma_index_count_prefix(idx.drop_last(), i);
            assert(idx.drop_last().take(i) =~= idx.take(i));
        }
    }
}

/// Number of entries over all the lists of `idx`, or `None` where it does not
/// fit in a `usize`.
fn count_indices(idx: &Vec<Vec<usize>>) -> (r: Option<usize>)
    ensures
        r matches Some(c) ==> c == index_count(idx@),
        r is None <==> index_count(idx@) > usize::MAX,
{
    let mut total: usize = 0;
    let mut i: usize = 0;
    while i < idx.len()
        invariant
            i <= idx@.len(),
            total == index_count(idx@.take(i as int)),
        decreases idx@.len() - i,
    {
        assert(idx@.take(i + 1).drop_last() =~= idx@.take(i as int));
        match total.checked_add(idx[i].len()) {
            Some(t) => {
                total = t;
            },
            None => {
                proof {
                    lemma_index_count_prefix(idx@, i + 1);
                }
                return None;
            },
        }
        i = i + 1;
    }
    assert(idx@.take(i as int) =~= idx@);
    Some(total)
}

/// Each range of pixels of an OPC channel is driven by the display samples
/// listed in `display_index` (`display_index[d]` lists LED indices of display
/// `d`), spread evenly over `pixel_count` pixels and smoothed by a Gaussian
/// kernel where each sample covers three pixels or more.
#[derive(Debug)]
pub struct OpcPixelRange {
    pub pixel_count: usize,
    pub display_index: Vec<Vec<usize>>,
    pub sample_count: usize,
    pub kernel_radius: usize,
    pub kernel_weights: Vec<u32>,
}

impl OpcPixelRange {
    /// The derived fields agree with `pixel_count` and `display_index`.
    pub open spec fn wf(&self) -> bool {
        &&& self.sample_count == index_count(self.display_index@)
        &&& self.kernel_radius == kernel_radius_for(
            self.pixel_count as int,
            self.sample_count as int,
        )
        &&& self.kernel_radius == 0 ==> self.kernel_weights@.len() == 0
        &&& self.kernel_radius > 0 ==> {
            &&& self.kernel_weights@.len() == 2 * self.kernel_radius + 1
            &&& forall|x: int|
                0 <= x < self.kernel_weights@.len() ==> #[trigger] self.kernel_weights@[x]
                    == self.kernel_weights@[2 * self.kernel_radius - x]
            &&& forall|x: int|
                0 <= x < self.kernel_weights@.len() ==> #[trigger] self.kernel_weights@[x]
                    <= self.kernel_weights@[self.kernel_radius as int]
            &&& seq_sum(self.kernel_weights@) == KERNEL_ONE
        }
    }

    /// Radius of the blur kernel that a range of `pixel_count` pixels over
    /// `display_index` gets, or `None` where the sample count overflows.
    pub fn kernel_radius_of(pixel_count: usize, display_index: &Vec<Vec<usize>>) -> (r: Option<
        usize,
    >)
        ensures
            r is None <==> index_count(display_index@) > usize::MAX,
            r matches Some(k) ==> k == kernel_radius_for(
                pixel_count as int,
                index_count(display_index@),
            ),
    {
        match count_indices(display_index) {
            Some(sample_count) => Some(Self::radius(pixel_count, sample_count)),
            None => None,
        }
    }

    fn radius(pixel_count: usize, sample_count: usize) -> (r: usize)
        ensures
            r == kernel_radius_for(pixel_count as int, sample_count as int),
    {
        if sample_count > 1 && (pixel_count as u128) >= 3 * (sample_count as u128) {
            pixel_count / (2 * sample_count)
        } else {
            0
        }
    }

    /// Build a range. `profile[x]` is the unnormalized Gaussian
    /// `exp(-(x - radius)^2 / (radius^2 / 4.5))` for `x` below the kernel radius,
    /// in units of `1 / PROFILE_ONE`; its peak, at the radius, is `PROFILE_ONE`.
    /// The kernel is the profile, its peak and the profile mirrored, scaled to
    /// sum to `KERNEL_ONE`.
    pub fn new(pixel_count: usize, display_index: Vec<Vec<usize>>, profile: &Vec<u32>) -> (r:
        Result<Self, SettingsError>)
        ensures
            (r matches Err(SettingsError::TooManySamples)) <==> index_count(display_index@)
                > usize::MAX,
            (r matches Err(SettingsError::ProfileLength)) <==> index_count(display_index@)
                <= usize::MAX && profile@.len() != kernel_radius_for(
                pixel_count as int,
                index_count(display_index@),
            ),
            (r matches Err(SettingsError::ProfileOutOfRange)) <==> index_count(
                display_index@,
            ) <= usize::MAX && profile@.len() == kernel_radius_for(
                pixel_count as int,
                index_count(display_index@),
            ) && exists|i: int| 0 <= i < profile@.len() && profile@[i] > PROFILE_ONE,
            r is Ok || (r matches Err(SettingsError::TooManySamples)) || (r matches Err(SettingsError::ProfileLength)) || (r matches Err(SettingsError::ProfileOutOfRange)),
            r matches Ok(range) ==> {
                &&& range.wf()
                &&& range.pixel_count == pixel_count
                &&& range.display_index@ == display_index@
                &&& range.kernel_radius > 0 ==> is_kernel_of(range.kernel_weights@, profile@)
            },
    {
        let sample_count = match count_indices(&display_index) {
            Some(c) => c,
            None => {
                return Err(SettingsError::TooManySamples);
            },
        };
        let kernel_radius = Self::radius(pixel_count, sample_count);
        if profile.len() != kernel_radius {
            return Err(SettingsError::ProfileLength);
        }
        let mut i: usize = 0;
        while i < profile.len()
            invariant
                i <= profile@.len(),
                forall|k: int| 0 <= k < i ==> profile@[k] <= PROFILE_ONE,
                sample_count == index_count(display_index@),
                kernel_radius == kernel_radius_for(pixel_count as int, sample_count as int),
                profile@.len() == kernel_radius,
            decreases profile@.len() - i,
        {
            if profile[i] > PROFILE_ONE {
                return Err(SettingsError::ProfileOutOfRange);
            }
            i = i + 1;
        }
        let kernel_weights = if kernel_radius > 0 {
            normalized_kernel(profile)
        } else {
            Vec::new()
        };
        Ok(OpcPixelRange { pixel_count, display_index, sample_count, kernel_radius, kernel_weights })
    }

    /// Number of display samples that drive this range.
    pub fn get_sample_count(&self) -> (r: usize)
        ensures
            r == self.sample_count,
    {
        self.sample_count
    }

    /// Radius of the blur kernel.
    pub fn get_kernel_radius(&self) -> (r: usize)
        ensures
            r == self.kernel_radius,
    {
        self.kernel_radius
    }

    /// Weights of the blur kernel, in units of `1 / KERNEL_ONE`.
    pub fn get_kernel_weights(&self) -> (r: &[u32])
        ensures
            r@ == self.kernel_weights@,
    {
        self.kernel_weights.as_slice()
    }
}

/// Pixels over all the ranges of a channel.
pub open spec fn pixel_total(ranges: Seq<OpcPixelRange>) -> int
    decreases ranges.len(),
{
    if ranges.len() == 0 {
        0
    } else {
        pixel_total(ranges.drop_last()) + ranges.last().pixel_count
    }
}

/// Samples over all the ranges of a channel.
pub open spec fn sample_total(ranges: Seq<OpcPixelRange>) -> int
    decreases ranges.len(),
{
    if ranges.len() == 0 {
        0
    } else {
        sample_total(ranges.drop_last()) + ranges.last().sample_count
    }
}

pub(crate) proof fn lemma_wide_step(i: int)
    requires
        0 <= i < usize::MAX,
    ensures
        i * usize::MAX + usize::MAX == (i + 1) * usize::MAX,
        (i + 1) * usize::MAX <= u128::MAX,
{
    assert(i * usize::MAX + usize::MAX == (i + 1) * usize::MAX) by (nonlinear_arith);
    assert((i + 1) * usize::MAX <= 0x1_0000_0000_0000_0000 * 0xffff_ffff_ffff_ffff)
        by (nonlinear_arith)
        requires
            0 <= i < usize::MAX,
            usize::MAX <= 0xffff_ffff_ffff_ffff,
    ;
}

/// One OPC channel: its id and its ranges of pixels, in order.
#[derive(Debug)]
pub struct OpcChannel {
    pub channel: u8,
    pub pixels: Vec<OpcPixelRange>,
    pub total_sample_count: usize,
    pub total_pixel_count: usize,
}

impl OpcChannel {
    /// The totals agree with the ranges, every range is well formed, and a
    /// message for all the pixels fits in memory.
    pub open spec fn wf(&self) -> bool {
        &&& forall|i: int| 0 <= i < self.pixels@.len() ==> (#[trigger] self.pixels@[i]).wf()
        &&& self.total_pixel_count == pixel_total(self.pixels@)
        &&& self.total_sample_count == sample_total(self.pixels@)
        &&& 4 * self.total_pixel_count + 6 <= usize::MAX
    }

    /// Build a channel from its ranges.
    pub fn new(channel: u8, pixels: Vec<OpcPixelRange>) -> (r: Result<Self, SettingsError>)
        requires
            forall|i: int| 0 <= i < pixels@.len() ==> (#[trigger] pixels@[i]).wf(),
        ensures
            (r matches Err(SettingsError::TooManyPixels)) <==> 4 * pixel_total(pixels@) + 6
                > usize::MAX,
            (r matches Err(SettingsError::TooManySamples)) <==> 4 * pixel_total(pixels@) + 6
                <= usize::MAX && sample_total(pixels@) > usize::MAX,
            r is Ok || (r matches Err(SettingsError::TooManyPixels)) || (r matches Err(
                SettingsError::TooManySamples,
            )),
            r matches Ok(c) ==> {
                &&& c.wf()
                &&& c.channel == channel
                &&& c.pixels@ == pixels@
            },
    {
        let mut pixel_sum: u128 = 0;
        let mut sample_sum: u128 = 0;
        let mut i: usize = 0;
        while i < pixels.len()
            invariant
                i <= pixels@.len(),
                pixel_sum == pixel_total(pixels@.take(i as int)),
                sample_sum == sample_total(pixels@.take(i as int)),
                pixel_sum <= i * usize::MAX,
                sample_sum <= i * usize::MAX,
            decreases pixels@.len() - i,
        {
            assert(pixels@.take(i + 1).drop_last() =~= pixels@.take(i as int));
            proof {
                lemma_wide_step(i as int);
            }
            pixel_sum = pixel_sum + pixels[i].pixel_count as u128;
            sample_sum = sample_sum + pixels[i].sample_count as u128;
            i = i + 1;
        }
        assert(pixels@.take(i as int) =~= pixels@);
        if pixel_sum > (usize::MAX as u128 - 6) / 4 {
            return Err(SettingsError::TooManyPixels);
        }
        if sample_sum > usize::MAX as u128 {
            return Err(SettingsError::TooManySamples);
        }
        Ok(OpcChannel {
            channel,
            pixels,
            total_sample_count: sample_sum as usize,
            total_pixel_count: pixel_sum as usize,
        })
    }

    /// Number of display samples over the channel.
    pub fn get_total_sample_count(&self) -> (r: usize)
        ensures
            r == self.total_sample_count,
    {
        self.total_sample_count
    }

    /// Number of OPC pixels over the channel.
    pub fn get_total_pixel_count(&self) -> (r: usize)
        ensures
            r == self.total_pixel_count,
    {
        self.total_pixel_count
    }
}

/// An OPC server: where it listens, whether it takes the alpha channel, and
/// its channels.
#[derive(Debug)]
pub struct OpcServer {
    pub host: String,
    pub port: String,
    pub alpha_channel: bool,
    pub channels: Vec<OpcChannel>,
}

/// Every channel of every server is well formed.
pub open spec fn servers_wf(servers: Seq<OpcServer>) -> bool {
    forall|s: int, c: int|
        0 <= s < servers.len() && 0 <= c < servers[s].channels@.len() ==> (
        #[trigger] servers[s].channels@[c]).wf()
}

/// All the settings, with the values derived from them.
#[derive(Debug)]
pub struct Settings {
    /// Minimum LED brightness: the least sum of the three channels of an LED.
    pub min_brightness: u8,
    /// Weight of the previous color in each new one, in units of `1 / FADE_ONE`,
    /// at most one half.
    pub fade: u32,
    /// Serial device timeout in milliseconds.
    pub timeout: u32,
    /// Cap of the refresh rate, in frames per second.
    pub fps_max: u32,
    /// Interval in milliseconds between ticks while throttled.
    pub throttle_timer: u32,
    /// Displays to sample, in enumeration order.
    pub displays: Vec<DisplayConfiguration>,
    /// OPC servers driven by the same samples.
    pub servers: Vec<OpcServer>,
    pub min_brightness_color: u32,
    pub total_led_count: usize,
    pub weight: u32,
    pub delay: u32,
}

/// Color of an LED at the minimum brightness: a third of it on each channel,
/// alpha full.
pub open spec fn min_brightness_color_of(min_brightness: u8) -> int {
    let c = min_brightness / 3;
    rgba(c as int, c as int, c as int, 0xff)
}

impl Settings {
    /// The derived values agree with the settings.
    pub open spec fn wf(&self) -> bool {
        &&& self.fps_max >= 1
        &&& self.fade <= FADE_MAX
        &&& self.weight == FADE_ONE - self.fade
        &&& self.delay == 1000int / (self.fps_max as int)
        &&& self.min_brightness_color == min_brightness_color_of(self.min_brightness)
        &&& self.total_led_count == led_count(self.displays@)
        &&& 3 * self.total_led_count + 6 <= usize::MAX
        &&& servers_wf(self.servers@)
    }

    /// Check the settings and derive the values that depend on them.
    pub fn new(
        min_brightness: u8,
        fade: u32,
        timeout: u32,
        fps_max: u32,
        throttle_timer: u32,
        displays: Vec<DisplayConfiguration>,
        servers: Vec<OpcServer>,
    ) -> (r: Result<Self, SettingsError>)
        requires
            servers_wf(servers@),
        ensures
            (r matches Err(SettingsError::ZeroFrameRate)) <==> fps_max == 0,
            (r matches Err(SettingsError::FadeOutOfRange)) <==> fps_max != 0 && fade > FADE_MAX,
            (r matches Err(SettingsError::TooManyLeds)) <==> fps_max != 0 && fade <= FADE_MAX && 3
                * led_count(displays@) + 6 > usize::MAX,
            r is Ok || (r matches Err(SettingsError::ZeroFrameRate)) || (r matches Err(
                SettingsError::FadeOutOfRange,
            )) || (r matches Err(SettingsError::TooManyLeds)),
            r matches Ok(s) ==> {
                &&& s.wf()
                &&& s.min_brightness == min_brightness
                &&& s.fade == fade
                &&& s.timeout == timeout
                &&& s.fps_max == fps_max
                &&& s.throttle_timer == throttle_timer
                &&& s.displays@ == displays@
                &&& s.servers@ == servers@
            },
    {
        if fps_max == 0 {
            return Err(SettingsError::ZeroFrameRate);
        }
        if fade > FADE_MAX {
            return Err(SettingsError::FadeOutOfRange);
        }
        let mut leds: u128 = 0;
        let mut i: usize = 0;
        while i < displays.len()
            invariant
                i <= displays@.len(),
                leds == led_count(displays@.take(i as int)),
                leds <= i * usize::MAX,
            decreases displays@.len() - i,
        {
            assert(displays@.take(i + 1).drop_last() =~= displays@.take(i as int));
            proof {
                lemma_wide_step(i as int);
            }
            leds = leds + displays[i].positions.len() as u128;
            i = i + 1;
        }
        assert(displays@.take(i as int) =~= displays@);
        if leds > (usize::MAX as u128 - 6) / 3 {
            return Err(SettingsError::TooManyLeds);
        }
        let third = min_brightness / 3;
        let min_brightness_color = pack(third, third, third, 0xff);
        Ok(Settings {
            min_brightness,
            fade,
            timeout,
            fps_max,
            throttle_timer,
            displays,
            servers,
            min_brightness_color,
            total_led_count: leds as usize,
            weight: FADE_ONE - fade,
            delay: 1000 / fps_max,
        })
    }

    /// Color of an LED at its minimum brightness.
    pub fn get_min_brightness_color(&self) -> (r: u32)
        ensures
            r == self.min_brightness_color,
    {
        self.min_brightness_color
    }

    /// Number of LEDs over all displays.
    pub fn get_total_led_count(&self) -> (r: usize)
        ensures
            r == self.total_led_count,
    {
        self.total_led_count
    }

    /// Weight of the new sample in each color (`FADE_ONE - fade`).
    pub fn get_weight(&self) -> (r: u32)
        ensures
            r == self.weight,
    {
        self.weight
    }

    /// Milliseconds per frame at the frame rate cap (`1000 / fps_max`).
    pub fn get_delay(&self) -> (r: u32)
        ensures
            r == self.delay,
    {
        self.delay
    }
}

} // verus!
