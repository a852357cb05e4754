use adalight_listener::pixel_buffer::PixelBuffer;
use adalight_listener::settings::{
    DisplayConfiguration, LedPosition, OpcChannel, OpcPixelRange, Settings,
};

fn settings_with_leds(count: usize) -> Settings {
    let display = DisplayConfiguration {
        horizontal_count: count,
        vertical_count: 1,
        positions: (0..count).map(|x| LedPosition { x, y: 0 }).collect(),
    };
    Settings::new(0, 0, 5000, 30, 3000, vec![display], vec![]).expect("build the settings")
}

fn channel_with_pixels(channel: u8, counts: &[usize]) -> OpcChannel {
    let ranges = counts
        .iter()
        .map(|&n| OpcPixelRange::new(n, vec![], &vec![]).expect("build the range"))
        .collect();
    OpcChannel::new(channel, ranges).expect("build the channel")
}

#[test]
fn serial_header_for_24_leds() {
    let buffer = PixelBuffer::new_serial_buffer(&settings_with_leds(24));
    let data = buffer.data();
    assert_eq!(&data[..6], &[0x41, 0x64, 0x61, 0x00, 0x17, 0x42]);
    assert_eq!(data.len(), 78);
    assert!(data[6..].iter().all(|&b| b == 0));
}

#[test]
fn serial_header_check_byte() {
    let buffer = PixelBuffer::new_serial_buffer(&settings_with_leds(300));
    let data = buffer.data();
    // 299 = 0x012B
    assert_eq!(&data[..6], &[0x41, 0x64, 0x61, 0x01, 0x2B, 0x01 ^ 0x2B ^ 0x55]);
    assert_eq!(data.len(), 6 + 900);
    let none = PixelBuffer::new_serial_buffer(&settings_with_leds(0));
    assert_eq!(none.data(), &[0x41, 0x64, 0x61, 0xFF, 0xFF, 0x55]);
    let one = PixelBuffer::new_serial_buffer(&settings_with_leds(1));
    assert_eq!(one.data(), &[0x41, 0x64, 0x61, 0x00, 0x00, 0x55, 0, 0, 0]);
}

#[test]
fn opc_header_for_116_pixels() {
    let channel = channel_with_pixels(2, &[64, 4, 19, 29]);
    let buffer = PixelBuffer::new_opc_buffer(&channel);
    let data = buffer.data();
    assert_eq!(&data[..4], &[0x02, 0x00, 0x01, 0x5C]);
    assert_eq!(data.len(), 352);
}

#[test]
fn bob_header_for_116_pixels() {
    let channel = channel_with_pixels(2, &[64, 4, 19, 29]);
    let buffer = PixelBuffer::new_bob_buffer(&channel);
    let data = buffer.data();
    assert_eq!(&data[..6], &[0x02, 0xFF, 0x01, 0x5C, 0x0B, 0x0B]);
    assert_eq!(data.len(), 470);
}

#[test]
fn add_writes_channels_and_clear_resets() {
    let channel = channel_with_pixels(7, &[2]);
    let mut opc = PixelBuffer::new_opc_buffer(&channel);
    opc.add(0x11223344);
    opc.add(0xAABBCCDD);
    assert_eq!(opc.data(), &[7, 0, 0, 6, 0x11, 0x22, 0x33, 0xAA, 0xBB, 0xCC]);
    opc.clear();
    assert_eq!(opc.data(), &[7, 0, 0, 6, 0, 0, 0, 0, 0, 0]);
    opc.add(0x01020304);
    assert_eq!(&opc.data()[4..7], &[1, 2, 3]);

    let mut bob = PixelBuffer::new_bob_buffer(&channel);
    bob.add(0x11223344);
    assert_eq!(&bob.data()[6..10], &[0x11, 0x22, 0x33, 0x44]);
    assert_eq!(bob.data().len(), 14);
}
