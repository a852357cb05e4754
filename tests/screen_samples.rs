use adalight_listener::color::pack;
use adalight_listener::gamma_correction::GammaLookup;
use adalight_listener::pixel_buffer::PixelBuffer;
use adalight_listener::screen_samples::{reduce_color, ScreenSamples};
use adalight_listener::settings::{
    DisplayConfiguration, LedPosition, OpcChannel, OpcPixelRange, Settings, FADE_ONE,
};

const WIDTH: usize = 32;
const HEIGHT: usize = 16;

/// Two LEDs side by side on a 2 x 1 grid.
fn settings(min_brightness: u8, fade: u32) -> Settings {
    let display = DisplayConfiguration {
        horizontal_count: 2,
        vertical_count: 1,
        positions: vec![LedPosition { x: 0, y: 0 }, LedPosition { x: 1, y: 0 }],
    };
    Settings::new(min_brightness, fade, 5000, 30, 3000, vec![display], vec![])
        .expect("build the settings")
}

/// A BGRA frame whose left half is `left` and right half is `right`, as (r, g, b).
fn frame(left: (u8, u8, u8), right: (u8, u8, u8)) -> Vec<u8> {
    let mut pixels = Vec::new();
    for _y in 0..HEIGHT {
        for x in 0..WIDTH {
            let (r, g, b) = if x < WIDTH / 2 { left } else { right };
            pixels.extend_from_slice(&[b, g, r, 0xFF]);
        }
    }
    pixels
}

fn sampler(settings: &Settings) -> ScreenSamples {
    let mut samples = ScreenSamples::new();
    assert!(samples.create_resources(settings, &vec![(WIDTH as u32, HEIGHT as u32)]));
    samples
}

#[test]
fn min_brightness_lift_spreads_the_deficit() {
    // average (10, 0, 0) over 256 samples
    let c = reduce_color(2560, 0, 0, 0xFFFFFFFF, 64, 0);
    assert_eq!(c, (27 << 16) | (27 << 8) | 0xFF);
}

#[test]
fn bright_colors_are_kept() {
    let c = reduce_color(200 * 256, 100 * 256, 50 * 256, 0, 64, 0);
    assert_eq!(c, pack(200, 100, 50, 0xFF));
    let dim = reduce_color(200 * 256, 0, 0, 0, 0, 0);
    assert_eq!(dim, pack(200, 0, 0, 0xFF));
}

#[test]
fn fade_blends_with_the_previous_color() {
    let c = reduce_color(100 * 256, 0, 0, pack(200, 0, 0, 0xFF), 0, FADE_ONE / 2);
    assert_eq!(c, pack(150, 0, 0, 0xFF));
}

#[test]
fn no_fade_ignores_the_previous_color() {
    let a = reduce_color(1000, 2000, 3000, 0, 30, 0);
    let b = reduce_color(1000, 2000, 3000, 0xFFFFFFFF, 30, 0);
    assert_eq!(a, b);
}

#[test]
fn resources_seed_minimum_brightness() {
    let settings = settings(64, 0);
    let samples = sampler(&settings);
    assert!(!samples.is_empty());
    assert_eq!(samples.previous_colors, vec![0x151515FF, 0x151515FF]);
    let mut none = ScreenSamples::new();
    assert!(!none.create_resources(&settings, &vec![]));
    assert!(none.is_empty());
}

#[test]
fn black_input_is_not_lifted() {
    let settings = settings(64, 0);
    let mut samples = sampler(&settings);
    let black = frame((0, 0, 0), (0, 0, 0));
    assert!(samples.take_samples(&settings, 0, &black, WIDTH * 4));
    assert_eq!(samples.previous_colors, vec![0xFF, 0xFF]);
}

#[test]
fn samples_average_each_block() {
    let settings = settings(0, 0);
    let mut samples = sampler(&settings);
    let pixels = frame((200, 10, 0), (0, 0, 120));
    assert!(samples.take_samples(&settings, 0, &pixels, WIDTH * 4));
    samples.count_frame();
    assert_eq!(samples.previous_colors, vec![pack(200, 10, 0, 0xFF), pack(0, 0, 120, 0xFF)]);
    // a second tick on the same image changes nothing
    assert!(samples.take_samples(&settings, 0, &pixels, WIDTH * 4));
    samples.count_frame();
    assert_eq!(samples.previous_colors, vec![pack(200, 10, 0, 0xFF), pack(0, 0, 120, 0xFF)]);
    assert_eq!(samples.free_resources(), 2);
    assert!(samples.is_empty());
}

#[test]
fn fade_approaches_a_steady_image() {
    let settings = settings(0, FADE_ONE / 2);
    let mut samples = sampler(&settings);
    let pixels = frame((255, 255, 255), (255, 255, 255));
    let mut last = 0;
    for _ in 0..16 {
        assert!(samples.take_samples(&settings, 0, &pixels, WIDTH * 4));
        let r = samples.previous_colors[0] >> 24;
        assert!(r >= last);
        last = r;
    }
    assert!(last >= 254);
}

#[test]
fn frames_too_small_are_skipped() {
    let settings = settings(0, 0);
    let mut samples = sampler(&settings);
    let pixels = frame((200, 10, 0), (0, 0, 120));
    assert!(!samples.take_samples(&settings, 0, &pixels[..100], WIDTH * 4));
    assert!(!samples.take_samples(&settings, 1, &pixels, WIDTH * 4));
    assert_eq!(samples.previous_colors, vec![0xFF, 0xFF]);
    let mut idle = ScreenSamples::new();
    assert!(!idle.take_samples(&settings, 0, &pixels, WIDTH * 4));
}

#[test]
fn render_serial_applies_gamma() {
    let settings = settings(0, 0);
    let gamma = GammaLookup::new();
    let mut samples = sampler(&settings);
    let pixels = frame((255, 128, 0), (0, 0, 255));
    assert!(samples.take_samples(&settings, 0, &pixels, WIDTH * 4));
    let mut serial = PixelBuffer::new_serial_buffer(&settings);
    assert!(samples.render_serial(&settings, &gamma, &mut serial));
    assert_eq!(&serial.data()[6..], &[255, 34, 0, 0, 0, 220]);
    samples.free_resources();
    assert!(!samples.render_serial(&settings, &gamma, &mut serial));
    assert_eq!(&serial.data()[6..], &[0, 0, 0, 0, 0, 0]);
}

#[test]
fn render_channel_spreads_samples() {
    let settings = settings(0, 0);
    let mut samples = sampler(&settings);
    let pixels = frame((200, 10, 0), (0, 0, 120));
    assert!(samples.take_samples(&settings, 0, &pixels, WIDTH * 4));
    let range = OpcPixelRange::new(4, vec![vec![0, 1]], &vec![]).expect("build the range");
    let gap = OpcPixelRange::new(1, vec![], &vec![]).expect("build the range");
    let missing = OpcPixelRange::new(1, vec![vec![], vec![5]], &vec![]).expect("build the range");
    let channel = OpcChannel::new(3, vec![range, gap, missing]).expect("build the channel");
    let mut opc = PixelBuffer::new_opc_buffer(&channel);
    assert!(samples.render_channel(&settings, &channel, &mut opc));
    assert_eq!(
        opc.data(),
        &[3, 0, 0, 18, 200, 10, 0, 200, 10, 0, 0, 0, 120, 0, 0, 120, 0, 0, 0, 0, 0, 0]
    );
}

#[test]
fn render_channel_smooths_with_the_kernel() {
    let settings = settings(0, 0);
    let mut samples = sampler(&settings);
    let pixels = frame((240, 0, 0), (0, 0, 0));
    assert!(samples.take_samples(&settings, 0, &pixels, WIDTH * 4));
    // two samples over six pixels: radius 1, profile 1/e^4.5 of the peak
    let profile = vec![((-4.5f64).exp() * 65536.0).round() as u32];
    let range = OpcPixelRange::new(6, vec![vec![0, 1]], &profile).expect("build the range");
    assert_eq!(range.get_kernel_radius(), 1);
    let w: Vec<u64> = range.get_kernel_weights().iter().map(|&w| w as u64).collect();
    let channel = OpcChannel::new(0, vec![range]).expect("build the channel");
    let mut bob = PixelBuffer::new_bob_buffer(&channel);
    assert!(samples.render_channel(&settings, &channel, &mut bob));
    let data = bob.data();
    // pixel 2 sees samples 240, 240, 0 in red
    let red = (w[0] * 240 + w[1] * 240) / 65536;
    assert_eq!(data[6 + 4 * 2], red as u8);
    // pixel 0 is the sample itself
    assert_eq!(&data[6..10], &[240, 0, 0, 0xFF]);
    assert_eq!(&data[6 + 4 * 5..6 + 4 * 6], &[0, 0, 0, 0xFF]);
}
