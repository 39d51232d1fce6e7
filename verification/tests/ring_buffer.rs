use rodecaster_vad::audio_format::{AudioFormat, SampleFormat};
use rodecaster_vad::config::VadConfig;
use rodecaster_vad::ring_buffer::{
    capture_region, playback_region, RingBufError, RingBufHeader, RingBuffer, RingBufferSet,
    RingGeometry, Transfer, RINGBUF_MAGIC,
};

fn small(frames: u32) -> RingBuffer {
    let format = AudioFormat { sample_rate: 48000, channels: 1, format: SampleFormat::S16LE };
    RingBuffer::create("test", &format, frames).unwrap()
}

#[test]
fn header() {
    let header = RingBufHeader::new(&AudioFormat::default_stereo(), 1024);
    assert_eq!(header.magic, 0x524F4445);
    assert_eq!(RINGBUF_MAGIC.to_be_bytes(), *b"RODE");
    assert_eq!(header.version, 1);
    assert_eq!(header.frame_bytes, 8);
    assert_eq!(header.channels, 2);
    assert_eq!(header.sample_rate, 48000);
    assert_eq!((header.write_index, header.read_index), (0, 0));
    assert_eq!(header.buffer_frames, 1024);
    assert_eq!(header.flags, 0);
    assert_eq!(header.validate(), Ok(()));
    let bad = RingBufHeader { magic: 0, ..header };
    assert_eq!(bad.validate(), Err(RingBufError::InvalidMagic));
}

#[test]
fn write_then_read() {
    let mut rb = small(8);
    assert_eq!(rb.frame_bytes(), 2);
    assert_eq!(rb.available_frames(), 0);
    assert_eq!(rb.write(&[1, 2, 3, 4, 5, 6]), Ok(3));
    assert_eq!(rb.available_frames(), 3);
    let mut buf = [0u8; 8];
    assert_eq!(rb.read(&mut buf), Ok(3));
    assert_eq!(buf, [1, 2, 3, 4, 5, 6, 0, 0]);
    assert_eq!(rb.available_frames(), 0);
    assert_eq!(rb.read(&mut buf), Ok(0));
    assert_eq!(buf, [1, 2, 3, 4, 5, 6, 0, 0]);
}

#[test]
fn incomplete_frames_are_left() {
    let mut rb = small(8);
    assert_eq!(rb.write(&[]), Ok(0));
    assert_eq!(rb.write(&[1]), Ok(0));
    assert_eq!(rb.write(&[1, 2, 3]), Ok(1));
    let mut one = [0u8; 1];
    assert_eq!(rb.read(&mut one), Ok(0));
    let mut three = [9u8; 3];
    assert_eq!(rb.read(&mut three), Ok(1));
    assert_eq!(three, [1, 2, 9]);
}

#[test]
fn one_slot_stays_free() {
    let mut rb = small(4);
    assert_eq!(rb.write(&[1, 1, 2, 2, 3, 3, 4, 4]), Ok(3));
    assert_eq!(rb.write(&[5, 5]), Ok(0));
    assert_eq!(rb.available_frames(), 3);
    let mut none = small(0);
    assert_eq!(none.write(&[1, 1]), Ok(0));
    let mut single = small(1);
    assert_eq!(single.write(&[1, 1]), Ok(0));
}

#[test]
fn wraps_around() {
    let mut rb = small(4);
    let mut next_in = 0u8;
    let mut next_out = 0u8;
    for round in 0..100 {
        let n = 1 + round % 3;
        let data: Vec<u8> = (0..2 * n).map(|k| next_in.wrapping_add(k)).collect();
        assert_eq!(rb.write(&data), Ok(n as usize));
        next_in = next_in.wrapping_add(2 * n);
        let mut buf = vec![0u8; 2 * n as usize];
        assert_eq!(rb.read(&mut buf), Ok(n as usize));
        for b in buf {
            assert_eq!(b, next_out);
            next_out = next_out.wrapping_add(1);
        }
    }
}

#[test]
fn first_in_first_out() {
    let mut rb = small(6);
    assert_eq!(rb.write(&[1, 2, 3, 4]), Ok(2));
    assert_eq!(rb.write(&[5, 6]), Ok(1));
    let mut buf = [0u8; 2];
    assert_eq!(rb.read(&mut buf), Ok(1));
    assert_eq!(buf, [1, 2]);
    assert_eq!(rb.write(&[7, 8, 9, 10, 11, 12, 13, 14]), Ok(3));
    let mut rest = [0u8; 10];
    assert_eq!(rb.read(&mut rest), Ok(5));
    assert_eq!(rest, [3, 4, 5, 6, 7, 8, 9, 10, 11, 12]);
}

#[test]
fn reset_empties() {
    let mut rb = small(4);
    assert_eq!(rb.write(&[1, 2, 3, 4]), Ok(2));
    rb.reset();
    assert_eq!(rb.available_frames(), 0);
    assert_eq!(rb.write(&[1, 1, 2, 2, 3, 3]), Ok(3));
}

#[test]
fn running_state() {
    let mut rb = small(4);
    assert!(!rb.is_running());
    rb.set_running(true);
    assert!(rb.is_running());
    rb.set_running(false);
    assert!(!rb.is_running());
    let mut header = RingBufHeader::new(&AudioFormat::default_stereo(), 0);
    header.flags = 2;
    let paused = RingBuffer::open("paused", header, Vec::new()).unwrap();
    assert!(!paused.is_running());
}

#[test]
fn open_region() {
    let format = AudioFormat { sample_rate: 48000, channels: 1, format: SampleFormat::S16LE };
    let mut header = RingBufHeader::new(&format, 4);
    header.write_index = 6;
    header.read_index = 3;
    let mut rb = RingBuffer::open("region", header, vec![0, 1, 2, 3, 4, 5, 6, 7]).unwrap();
    assert_eq!(rb.frame_bytes(), 2);
    assert_eq!(rb.available_frames(), 3);
    let mut buf = [0u8; 6];
    assert_eq!(rb.read(&mut buf), Ok(3));
    assert_eq!(buf, [6, 7, 0, 1, 2, 3]);
    header.magic = 1;
    assert!(matches!(RingBuffer::open("region", header, vec![]), Err(RingBufError::InvalidMagic)));
}

#[test]
fn wrapped_positions() {
    let format = AudioFormat { sample_rate: 48000, channels: 1, format: SampleFormat::S16LE };
    let mut header = RingBufHeader::new(&format, 4);
    header.write_index = 1;
    header.read_index = 3;
    let mut rb = RingBuffer::open("region", header, vec![0, 1, 2, 3, 4, 5, 6, 7]).unwrap();
    assert_eq!(rb.available_frames(), 2);
    assert_eq!(rb.write(&[8, 9, 10, 11]), Ok(1));
    let mut buf = [0u8; 8];
    assert_eq!(rb.read(&mut buf), Ok(3));
    assert_eq!(buf, [6, 7, 0, 1, 8, 9, 0, 0]);
    assert_eq!(rb.available_frames(), 0);
}

#[test]
fn overrun_positions() {
    let g = RingGeometry { frame_bytes: 2, buffer_frames: 4 };
    assert!(g.is_consistent(4, 0));
    assert!(!g.is_consistent(5, 0));
    assert!(g.is_consistent(0, 4));
    assert!(!g.is_consistent(0, 5));
    assert!(g.is_writable(9, 0, 4));
    assert_eq!(g.plan_write(9, 0, 4).frames, 0);
    assert!(g.is_readable(9, 0, 6));
    assert_eq!(g.plan_read(9, 0, 6).frames, 3);
    assert!(!g.is_readable(9, 0, 10));
    assert!(g.is_comparable(0, 4));
    assert!(!g.is_writable(0, 5, 2));
    assert!(g.is_writable(0, 5, 1));
    assert!(!g.is_readable(0, 5, 2));
    let none = RingGeometry { frame_bytes: 0, buffer_frames: 4 };
    assert!(none.is_writable(0, 0, 0));
    assert!(!none.is_writable(0, 0, 1));
}

#[test]
fn blocks() {
    let g = RingGeometry { frame_bytes: 8, buffer_frames: 10 };
    assert_eq!(g.region_size(), Some(64 + 80));
    assert_eq!(
        g.plan_write(18, 15, 40),
        Transfer { frames: 5, offset: 64, first: 16, second: 24 },
    );
    assert_eq!(
        g.plan_read(18, 15, 80),
        Transfer { frames: 3, offset: 40, first: 24, second: 0 },
    );
    let huge = RingGeometry { frame_bytes: usize::MAX, buffer_frames: 2 };
    assert_eq!(huge.region_size(), None);
}

#[test]
fn set_of_rings() {
    let cfg = VadConfig::default();
    let mut set = RingBufferSet::new(&cfg).unwrap();
    assert_eq!(set.capture.len(), 11);
    assert_eq!(set.playback.len(), 5);
    for rb in set.capture.iter().chain(set.playback.iter()) {
        assert_eq!(rb.frame_bytes(), 8);
        assert_eq!(rb.available_frames(), 0);
        assert!(!rb.is_running());
    }
    set.set_all_running();
    assert!(set.capture.iter().chain(set.playback.iter()).all(|rb| rb.is_running()));
    let frame = [7u8; 8 * 1024];
    assert_eq!(set.capture[3].write(&frame), Ok(1023));
    set.stop_all();
    assert!(!set.capture.iter().chain(set.playback.iter()).any(|rb| rb.is_running()));
    assert_eq!(set.capture[3].available_frames(), 1023);
}

#[test]
fn region_names() {
    let cfg = VadConfig::default();
    assert_eq!(capture_region(&cfg.capture_channels[0]), "rodecaster_vad_cap_System");
    assert_eq!(playback_region(&cfg.playback_channels[0]), "rodecaster_vad_pb_System");
    let mut names: Vec<String> = cfg.capture_channels.iter().map(capture_region).collect();
    names.extend(cfg.playback_channels.iter().map(playback_region));
    names.sort();
    names.dedup();
    assert_eq!(names.len(), 16);
}

#[test]
fn names_without_nul() {
    let format = AudioFormat::default_stereo();
    assert!(matches!(RingBuffer::create("a\0b", &format, 4), Err(RingBufError::InvalidName)));
    let header = RingBufHeader::new(&format, 0);
    assert!(matches!(RingBuffer::open("\0", header, vec![]), Err(RingBufError::InvalidName)));
    let bad = RingBufHeader { magic: 0, ..header };
    assert!(matches!(RingBuffer::open("\0", bad, vec![]), Err(RingBufError::InvalidName)));
    assert!(RingBuffer::open("", header, vec![]).is_ok());
    let mut cfg = VadConfig::default();
    cfg.playback_channels[4].alsa_id = "Virtual\0B".to_string();
    assert!(matches!(RingBufferSet::new(&cfg), Err(RingBufError::InvalidName)));
    cfg.playback_channels.pop();
    assert!(RingBufferSet::new(&cfg).is_ok());
}

#[test]
fn names_in_use() {
    let mut cfg = VadConfig::default();
    cfg.capture_channels[7].alsa_id = "Combo2".to_string();
    assert!(matches!(RingBufferSet::new(&cfg), Err(RingBufError::NameInUse)));
    // The first channel that is in the way decides.
    cfg.capture_channels[8].alsa_id = "\0".to_string();
    assert!(matches!(RingBufferSet::new(&cfg), Err(RingBufError::NameInUse)));
    cfg.capture_channels[0].alsa_id = "\0".to_string();
    assert!(matches!(RingBufferSet::new(&cfg), Err(RingBufError::InvalidName)));
    // The two directions do not get in each other's way.
    let both = VadConfig::default();
    assert_eq!(both.capture_channels[0].alsa_id, both.playback_channels[0].alsa_id);
    assert!(RingBufferSet::new(&both).is_ok());
}
