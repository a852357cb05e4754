use adalight_listener::comments::strip_comments;
use adalight_listener::settings::{
    DisplayConfiguration, LedPosition, OpcChannel, OpcPixelRange, OpcServer, Settings,
    SettingsError, FADE_MAX, FADE_ONE, KERNEL_ONE, PROFILE_ONE,
};

fn positions(cells: &[(usize, usize)]) -> Vec<LedPosition> {
    cells.iter().map(|&(x, y)| LedPosition { x, y }).collect()
}

fn sample_display() -> DisplayConfiguration {
    DisplayConfiguration {
        horizontal_count: 10,
        vertical_count: 5,
        positions: positions(&[
            (3, 4), (2, 4), (1, 4),
            (0, 4), (0, 3), (0, 2), (0, 1),
            (0, 0), (1, 0), (2, 0), (3, 0), (4, 0),
            (5, 0), (6, 0), (7, 0), (8, 0), (9, 0),
            (9, 1), (9, 2), (9, 3), (9, 4),
            (8, 4), (7, 4), (6, 4),
        ]),
    }
}

fn gaussian_profile(pixel_count: usize, display_index: &Vec<Vec<usize>>) -> Vec<u32> {
    let radius = OpcPixelRange::kernel_radius_of(pixel_count, display_index).expect("count samples");
    let denominator = (radius * radius) as f64 / 4.5;
    (0..radius)
        .map(|x| {
            let diff = x as f64 - radius as f64;
            ((-(diff * diff) / denominator).exp() * PROFILE_ONE as f64).round() as u32
        })
        .collect()
}

fn range(pixel_count: usize, display_index: Vec<Vec<usize>>) -> OpcPixelRange {
    let profile = gaussian_profile(pixel_count, &display_index);
    OpcPixelRange::new(pixel_count, display_index, &profile).expect("build the range")
}

fn sample_channel() -> OpcChannel {
    OpcChannel::new(
        2,
        vec![
            range(64, vec![vec![16, 15, 14, 13, 12, 11, 10, 9]]),
            range(4, vec![]),
            range(19, vec![vec![8, 7]]),
            range(29, vec![vec![7, 6, 5, 4, 3]]),
        ],
    )
    .expect("build the channel")
}

#[test]
fn parse_led_position() {
    let led_position = LedPosition { x: 3, y: 4 };
    assert_eq!(led_position.x, 3);
    assert_eq!(led_position.y, 4);
}

#[test]
fn parse_display_configuration() {
    let display_configuration = sample_display();
    assert_eq!(display_configuration.horizontal_count, 10);
    assert_eq!(display_configuration.vertical_count, 5);
    assert_eq!(display_configuration.positions.len(), 24);
}

#[test]
fn parse_opc_pixel_range() {
    let opc_pixel_range = range(64, vec![vec![16, 15, 14, 13, 12, 11, 10, 9]]);
    assert_eq!(opc_pixel_range.pixel_count, 64);
    assert_eq!(opc_pixel_range.display_index.len(), 1);
    let expected: Vec<usize> = (9..=16).rev().collect();
    assert_eq!(opc_pixel_range.display_index[0], expected);
    assert_eq!(opc_pixel_range.get_sample_count(), 8);
    assert_eq!(opc_pixel_range.get_kernel_radius(), 4);
    let kernel_weights = opc_pixel_range.get_kernel_weights();
    assert_eq!(kernel_weights.len(), 9);
    let total: u64 = kernel_weights.iter().map(|&w| w as u64).sum();
    assert_eq!(total, KERNEL_ONE as u64);
}

#[test]
fn kernel_weights_are_symmetric_and_peak_in_the_middle() {
    let opc_pixel_range = range(64, vec![vec![16, 15, 14, 13, 12, 11, 10, 9]]);
    let w = opc_pixel_range.get_kernel_weights();
    for x in 0..w.len() {
        assert_eq!(w[x], w[w.len() - 1 - x]);
    }
    for x in 0..4 {
        assert!(w[x] < w[x + 1]);
    }
    // the profile scaled by KERNEL_ONE / (PROFILE_ONE + 2 * sum)
    let profile = [728u64, 5214, 21276, 49469];
    let total = PROFILE_ONE as u64 + 2 * profile.iter().sum::<u64>();
    assert_eq!(w[0] as u64, 728 * KERNEL_ONE as u64 / total);
}

#[test]
fn ranges_without_spread_have_no_kernel() {
    let short = range(19, vec![vec![8, 7]]);
    assert_eq!(short.get_sample_count(), 2);
    assert_eq!(short.get_kernel_radius(), 4);
    let gap = range(4, vec![]);
    assert_eq!(gap.get_kernel_radius(), 0);
    assert!(gap.get_kernel_weights().is_empty());
    let single = range(29, vec![vec![7]]);
    assert_eq!(single.get_kernel_radius(), 0);
    let dense = range(5, vec![vec![1, 2]]);
    assert_eq!(dense.get_kernel_radius(), 0);
}

#[test]
fn pixel_range_rejects_bad_profiles() {
    assert_eq!(
        OpcPixelRange::new(64, vec![vec![1, 2, 3, 4, 5, 6, 7, 8]], &vec![1, 2]).err(),
        Some(SettingsError::ProfileLength)
    );
    assert_eq!(
        OpcPixelRange::new(64, vec![vec![1, 2, 3, 4, 5, 6, 7, 8]], &vec![1, 2, PROFILE_ONE + 1, 3])
            .err(),
        Some(SettingsError::ProfileOutOfRange)
    );
}

#[test]
fn parse_opc_channel() {
    let opc_channel = sample_channel();
    assert_eq!(opc_channel.channel, 2);
    assert_eq!(opc_channel.pixels.len(), 4);
    assert_eq!(opc_channel.get_total_sample_count(), 15);
    assert_eq!(opc_channel.get_total_pixel_count(), 116);
}

#[test]
fn channel_rejects_oversized_pixel_counts() {
    let huge = OpcPixelRange::new(usize::MAX / 4, vec![], &vec![]).expect("build the range");
    assert_eq!(OpcChannel::new(1, vec![huge]).err(), Some(SettingsError::TooManyPixels));
}

#[test]
fn parse_opc_server() {
    let opc_server = OpcServer {
        host: "192.168.1.14".to_string(),
        port: "80".to_string(),
        alpha_channel: false,
        channels: vec![sample_channel()],
    };
    assert_eq!(&opc_server.host, "192.168.1.14");
    assert_eq!(&opc_server.port, "80");
    assert!(!opc_server.alpha_channel);
    assert_eq!(opc_server.channels.len(), 1);
}

#[test]
fn parse_settings() {
    let server = OpcServer {
        host: "192.168.1.14".to_string(),
        port: "80".to_string(),
        alpha_channel: false,
        channels: vec![sample_channel()],
    };
    let settings = Settings::new(64, 0, 5000, 30, 3000, vec![sample_display()], vec![server])
        .expect("build the settings");
    assert_eq!(settings.min_brightness, 64);
    assert_eq!(settings.fade, 0);
    assert_eq!(settings.timeout, 5000);
    assert_eq!(settings.fps_max, 30);
    assert_eq!(settings.throttle_timer, 3000);
    assert_eq!(settings.displays.len(), 1);
    assert_eq!(settings.servers.len(), 1);
    assert_eq!(settings.get_min_brightness_color(), 0x151515FF);
    assert_eq!(settings.get_total_led_count(), 24);
    assert_eq!(settings.get_weight(), FADE_ONE);
    assert_eq!(settings.get_delay(), 33);
}

#[test]
fn settings_errors() {
    assert_eq!(
        Settings::new(64, 0, 5000, 0, 3000, vec![sample_display()], vec![]).err(),
        Some(SettingsError::ZeroFrameRate)
    );
    assert_eq!(
        Settings::new(64, FADE_ONE + 1, 5000, 30, 3000, vec![sample_display()], vec![]).err(),
        Some(SettingsError::FadeOutOfRange)
    );
    assert_eq!(
        Settings::new(64, FADE_MAX + 1, 5000, 30, 3000, vec![sample_display()], vec![]).err(),
        Some(SettingsError::FadeOutOfRange)
    );
    let empty = Settings::new(64, 0, 5000, 30, 3000, vec![], vec![]).expect("build the settings");
    assert_eq!(empty.get_total_led_count(), 0);
    let half = Settings::new(64, FADE_ONE / 2, 5000, 60, 3000, vec![sample_display()], vec![])
        .expect("build the settings");
    assert_eq!(half.get_weight(), FADE_ONE / 2);
    assert_eq!(half.get_delay(), 16);
}

#[test]
fn configuration_comments_strip_to_json() {
    let config = r#"
{
    /*
     * Minimum LED brightness.
     */
    "minBrightness": 64,
    "fade": 0,
    "timeout": 5000, // 5 seconds
    "fpsMax": 30,
    "throttleTimer": 3000, // 3 seconds
    "note": "a // b /* c */"
}"#;
    let json = strip_comments(config);
    assert_eq!(
        json,
        "{\n    \"minBrightness\": 64,\n    \"fade\": 0,\n    \"timeout\": 5000, \n    \"fpsMax\": 30,\n    \"throttleTimer\": 3000, \n    \"note\": \"a // b /* c */\"\n}"
    );
    let value: serde_json::Value = serde_json::from_str(&json).expect("parse the stripped text");
    assert_eq!(value["minBrightness"], 64);
    assert_eq!(value["timeout"], 5000);
    assert_eq!(value["note"], "a // b /* c */");
}

#[test]
fn strip_comments_edge_cases() {
    assert_eq!(strip_comments(""), "");
    assert_eq!(strip_comments("a /* b */ c"), "a  c");
    assert_eq!(strip_comments("a /* b\nc */ d\ne"), "a \n d\ne");
    assert_eq!(strip_comments("\"x\\\"//y\" // z"), "\"x\\\"//y\" ");
    assert_eq!(strip_comments("1\r\n   \r\n2"), "1\n2");
    assert_eq!(strip_comments("// only\n/* all */"), "");
}
