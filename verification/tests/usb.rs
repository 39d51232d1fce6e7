use rodecaster_vad::audio_format::{AudioFormat, SampleFormat};
use rodecaster_vad::config::VadConfig;
use rodecaster_vad::ring_buffer::{RingBuffer, RingBufferSet};
use rodecaster_vad::usb_bridge::{
    needs_silence, period_bytes, product_name, serve_rings, RodeUsbDevice, TransferDirection,
};
use rodecaster_vad::usb_descriptor::{
    audio_endpoint, has_readable_descriptors, is_audio_streaming, is_readable_interface,
    parse_audio_topology, parse_format_descriptor, EndpointDescriptor, InterfaceDescriptor,
};

fn interface(class_code: u8, sub_class_code: u8, addresses: &[u8], extra: &[u8]) -> InterfaceDescriptor {
    InterfaceDescriptor {
        class_code,
        sub_class_code,
        interface_number: 2,
        setting_number: 1,
        endpoints: addresses
            .iter()
            .map(|a| EndpointDescriptor { address: *a, max_packet_size: 392 })
            .collect(),
        extra: extra.to_vec(),
        terminal_name: None,
    }
}

#[test]
fn no_format_descriptor() {
    let default = (vec![48000], 2, 32, 4);
    assert_eq!(parse_format_descriptor(&[]), default);
    assert_eq!(parse_format_descriptor(&[6, 0x24]), default);
    assert_eq!(parse_format_descriptor(&[0, 0x24, 2, 1, 8, 2]), default);
    assert_eq!(parse_format_descriptor(&[7, 0x24, 2, 1, 8, 2]), default);
    assert_eq!(parse_format_descriptor(&[5, 0x24, 2, 1, 8]), default);
    assert_eq!(parse_format_descriptor(&[6, 0x24, 1, 1, 8, 2]), default);
    assert_eq!(parse_format_descriptor(&[6, 0x25, 2, 1, 8, 2]), default);
}

#[test]
fn short_format_descriptor() {
    assert_eq!(parse_format_descriptor(&[6, 0x24, 2, 1, 8, 2]), (vec![48000], 8, 32, 4));
    assert_eq!(parse_format_descriptor(&[7, 0x24, 2, 1, 8, 3, 0]), (vec![48000], 8, 24, 3));
    assert_eq!(parse_format_descriptor(&[8, 0x24, 2, 1, 1, 3, 20, 5]), (vec![48000], 1, 20, 3));
}

#[test]
fn listed_rates() {
    let mut d = vec![16u8, 0x24, 2, 1, 2, 4, 24, 2];
    d.extend_from_slice(&44100u32.to_le_bytes());
    d.extend_from_slice(&96000u32.to_le_bytes());
    assert_eq!(parse_format_descriptor(&d), (vec![44100, 96000], 2, 24, 4));
    d[7] = 1;
    assert_eq!(parse_format_descriptor(&d).0, vec![44100]);
    d[7] = 200;
    assert_eq!(parse_format_descriptor(&d).0, vec![44100, 96000]);
}

#[test]
fn single_rate() {
    let mut d = vec![12u8, 0x24, 2, 1, 2, 4, 24, 0];
    d.extend_from_slice(&44100u32.to_le_bytes());
    assert_eq!(parse_format_descriptor(&d).0, vec![44100]);
    // Three bytes in the descriptor, the fourth after it.
    let mut e = vec![11u8, 0x24, 2, 1, 2, 4, 24, 1];
    e.extend_from_slice(&[0x44, 0xac, 0x00, 0x01]);
    assert_eq!(parse_format_descriptor(&e).0, vec![0x0100_ac44]);
    assert_eq!(parse_format_descriptor(&[10, 0x24, 2, 1, 2, 4, 24, 1, 0x44, 0xac]).0, vec![48000]);
}

#[test]
fn unreadable_descriptors() {
    assert!(has_readable_descriptors(&[]));
    assert!(has_readable_descriptors(&[7, 0x24, 2, 1, 2, 31, 0]));
    assert!(!has_readable_descriptors(&[7, 0x24, 2, 1, 2, 32, 0]));
    assert!(!has_readable_descriptors(&[11, 0x24, 2, 1, 2, 4, 24, 0, 1, 2, 3]));
    assert!(has_readable_descriptors(&[11, 0x24, 2, 1, 2, 4, 24, 0, 1, 2, 3, 4]));
    let bad = interface(1, 3, &[0x81], &[7, 0x24, 2, 1, 2, 32, 0]);
    assert!(!is_readable_interface(&bad));
    assert!(is_readable_interface(&interface(1, 1, &[0x81], &bad.extra)));
    assert!(is_readable_interface(&interface(1, 3, &[], &bad.extra)));
}

#[test]
fn descriptors_before_the_format() {
    let extra = [3, 0x24, 1, 1, 2, 0x24, 2, 6, 0x24, 2, 1, 5, 0];
    // A descriptor of one byte leads into the next.
    assert_eq!(parse_format_descriptor(&extra).1, 2);
    let chain = [4, 0x24, 1, 0, 6, 0x24, 2, 1, 5, 0];
    assert_eq!(parse_format_descriptor(&chain), (vec![48000], 5, 32, 4));
}

#[test]
fn discovery() {
    let format = [8u8, 0x24, 2, 1, 6, 3, 24, 0];
    let interfaces = vec![
        interface(1, 1, &[0x83], &format),
        interface(1, 3, &[0x81, 0x02], &format),
        interface(0xff, 3, &[0x8b], &[]),
        interface(3, 3, &[0x84], &format),
        interface(1, 3, &[], &format),
    ];
    assert_eq!(
        interfaces.iter().map(is_audio_streaming).collect::<Vec<bool>>(),
        vec![false, true, true, false, true],
    );
    let found = parse_audio_topology(&interfaces);
    assert_eq!(found.len(), 3);
    let names: Vec<&str> = found.iter().map(|c| c.name.as_str()).collect();
    assert_eq!(names, vec!["Capture 81", "Playback 02", "Capture 8b"]);
    let directions: Vec<&str> = found.iter().map(|c| c.direction.as_str()).collect();
    assert_eq!(directions, vec!["capture", "playback", "capture"]);
    assert_eq!(found[0].endpoint_address, 0x81);
    assert_eq!(found[0].audio_channels, 6);
    assert_eq!(found[0].bit_resolution, 24);
    assert_eq!(found[0].sample_rates, vec![48000]);
    assert_eq!((found[0].interface_number, found[0].alt_setting), (2, 1));
    assert_eq!(found[2].audio_channels, 2);
    assert_eq!(found[2].bit_resolution, 32);
    assert!(parse_audio_topology(&[]).is_empty());
}

#[test]
fn terminal_names() {
    let mut d = interface(1, 3, &[0x81, 0x02], &[]);
    d.terminal_name = Some("Microphone".to_string());
    let found = parse_audio_topology(&[d]);
    let names: Vec<&str> = found.iter().map(|c| c.name.as_str()).collect();
    assert_eq!(names, vec!["Microphone", "Microphone"]);
    assert_eq!(found[1].direction, "playback");
}

#[test]
fn endpoint_details() {
    let d = interface(1, 3, &[0x81], &[7, 0x24, 2, 1, 2, 3, 0]);
    let ep = audio_endpoint(&d, &d.endpoints[0]);
    assert_eq!(ep.endpoint_address, 0x81);
    assert_eq!(ep.max_packet_size, 392);
    assert_eq!(ep.sample_rates, vec![48000]);
    assert_eq!((ep.channels, ep.bit_resolution, ep.subslot_size), (2, 24, 3));
}

#[test]
fn products() {
    assert_eq!(product_name(0x19f7, 0x0011), "RODECaster Pro");
    assert_eq!(product_name(0x19f7, 0x0012), "RODECaster Pro II (2026)");
    assert_eq!(product_name(0x19f7, 0x0013), "RODECaster Duo (2026)");
    assert_eq!(product_name(0x19f7, 0x0040), "RØDE AI-1");
    assert_eq!(product_name(0x19f7, 0x0041), "RØDE NT-USB");
    assert_eq!(product_name(0x19f7, 0x00ab), "Unknown RODE Device (19f7:00ab)");
    for id in [0u16, 0x42, 0x1234, 0xffff] {
        assert_eq!(product_name(0xf0, id), format!("Unknown RODE Device ({:04x}:{:04x})", 0xf0, id));
    }
}

#[test]
fn devices() {
    let d = RodeUsbDevice::identify(0x19f7, 0x19f7, 0x0012, 3, 7).unwrap();
    assert_eq!(d.name, "RODECaster Pro II (2026)");
    assert_eq!((d.bus, d.address, d.vendor_id, d.product_id), (3, 7, 0x19f7, 0x0012));
    assert!(RodeUsbDevice::identify(0x19f7, 0x1234, 0x0012, 3, 7).is_none());
    assert_ne!(TransferDirection::In, TransferDirection::Out);
}

#[test]
fn serving() {
    let cfg = VadConfig::default();
    let bytes = period_bytes(&cfg);
    assert_eq!(bytes, 2048);
    let mut set = RingBufferSet::new(&cfg).unwrap();
    serve_rings(&mut set, bytes);
    assert!(set.capture.iter().all(|rb| rb.available_frames() == 0));
    set.set_all_running();
    assert_eq!(set.capture[1].write(&[5u8; 8]), Ok(1));
    assert_eq!(set.playback[2].write(&[6u8; 8 * 300]), Ok(300));
    serve_rings(&mut set, bytes);
    assert_eq!(set.capture[0].available_frames(), 256);
    assert_eq!(set.capture[1].available_frames(), 1);
    assert_eq!(set.playback[2].available_frames(), 44);
    let mut buf = vec![1u8; bytes];
    assert_eq!(set.capture[0].read(&mut buf), Ok(256));
    assert!(buf.iter().all(|b| *b == 0));
    let mut header = set.capture[0].snapshot();
    let ring = set.capture[0].geometry();
    assert!(header.is_running());
    assert!(needs_silence(&header, &ring));
    header.write_index += 1;
    assert!(!needs_silence(&header, &ring));
    header.write_index -= 1;
    header.flags = 0;
    assert!(!needs_silence(&header, &ring));
}

#[test]
fn stopped_rings_are_not_served() {
    let format = AudioFormat { sample_rate: 48000, channels: 2, format: SampleFormat::S32LE };
    let mut set = RingBufferSet {
        capture: vec![RingBuffer::create("c", &format, 16).unwrap()],
        playback: vec![RingBuffer::create("p", &format, 16).unwrap()],
    };
    assert_eq!(set.playback[0].write(&[1u8; 16]), Ok(2));
    serve_rings(&mut set, 64);
    assert_eq!(set.capture[0].available_frames(), 0);
    assert_eq!(set.playback[0].available_frames(), 2);
}
