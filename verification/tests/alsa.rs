use rodecaster_vad::alsa_bridge::{
    capture_samples, capture_tick, pcm_candidates, pcm_outcome, playback_bytes, playback_tick,
    PcmEvent, PcmOutcome, PcmSearch, PcmStep, TickSchedule,
};
use rodecaster_vad::audio_format::AudioFormat;
use rodecaster_vad::config::VadConfig;
use rodecaster_vad::ring_buffer::{bridge_format, RingBuffer};

fn running_ring(frames: u32) -> RingBuffer {
    let mut rb = RingBuffer::create("ring", &AudioFormat::default_stereo(), frames).unwrap();
    rb.set_running(true);
    rb
}

#[test]
fn candidates() {
    assert_eq!(
        pcm_candidates("Music"),
        vec![
            "hw:Music",
            "hw:CARD=Music,DEV=0",
            "plughw:Music",
            "default:Music",
            "hw:Music",
            "hw:RODECaster_hw:Music",
            "hw:CARD=Music,DEV=0",
            "hw:RODECaster_hw:CARD=Music,DEV=0",
            "plughw:Music",
            "hw:RODECaster_plughw:Music",
            "default:Music",
            "hw:RODECaster_default:Music",
        ],
    );
}

#[test]
fn search_by_name() {
    let mut search = PcmSearch::new("Game");
    search.failed();
    search.failed();
    match search.step() {
        PcmStep::Attempt(a) => {
            assert_eq!(a.name, "plughw:Game");
            assert_eq!(a.card, None);
        }
        PcmStep::GiveUp => panic!("gave up"),
    }
    assert!(search.opened(None));
}

#[test]
fn search_by_card() {
    let mut search = PcmSearch::new("Game");
    for _ in 0..12 {
        search.failed();
    }
    for card in 0..8usize {
        match search.step() {
            PcmStep::Attempt(a) => {
                assert_eq!(a.name, format!("hw:{},0", card));
                assert_eq!(a.card, Some(card));
            }
            PcmStep::GiveUp => panic!("gave up"),
        }
        match card {
            0 => search.failed(),
            1 => assert!(!search.opened(None)),
            _ => assert!(!search.opened(Some("HDA Intel PCH"))),
        }
    }
    assert!(matches!(search.step(), PcmStep::GiveUp));
    search.failed();
    assert!(matches!(search.step(), PcmStep::GiveUp));
}

#[test]
fn search_takes_virtual_cards() {
    for name in ["Loopback", "My Loopback 2", "RODECaster Pro II"] {
        let mut search = PcmSearch::new("Game");
        for _ in 0..14 {
            search.failed();
        }
        assert!(search.opened(Some(name)));
    }
    let mut search = PcmSearch::new("Game");
    for _ in 0..14 {
        search.failed();
    }
    assert!(!search.opened(Some("loopback")));
}

#[test]
fn silence_without_frames() {
    let format = AudioFormat::default_stereo();
    assert_eq!(capture_samples(&format, 3, &[9u8; 8], 0), vec![0i32; 6]);
}

#[test]
fn samples_of_frames() {
    let format = bridge_format(&VadConfig::default());
    let bytes = playback_bytes(&format, &[1, -2, 3, -4, 5, 6], 2);
    assert_eq!(bytes, vec![1, 0, 0, 0, 0xfe, 0xff, 0xff, 0xff, 3, 0, 0, 0, 0xfc, 0xff, 0xff, 0xff]);
    assert_eq!(capture_samples(&format, 256, &bytes, 1), vec![1, -2]);
}

#[test]
fn audio_passes_unchanged() {
    let format = bridge_format(&VadConfig::default());
    let mut rb = running_ring(5);
    let mut buf = vec![0u8; 32];
    for round in 0..20 {
        let samples: Vec<i32> = (0..8).map(|k| (k - 3) * 123456789 + round).collect();
        assert_eq!(playback_tick(&mut rb, &format, &samples, 4), 4);
        let block = capture_tick(&mut rb, &format, 4, &mut buf).unwrap();
        assert_eq!(block.frames, 4);
        assert_eq!(block.samples, samples);
    }
    let block = capture_tick(&mut rb, &format, 4, &mut buf).unwrap();
    assert_eq!(block.frames, 0);
    assert_eq!(block.samples, vec![0i32; 8]);
    assert_eq!(buf, vec![0u8; 32]);
}

#[test]
fn stopped_ring_moves_nothing() {
    let format = bridge_format(&VadConfig::default());
    let mut rb = running_ring(5);
    assert_eq!(playback_tick(&mut rb, &format, &[1, 2], 1), 1);
    assert_eq!(playback_tick(&mut rb, &format, &[1, 2], 0), 0);
    rb.set_running(false);
    assert_eq!(playback_tick(&mut rb, &format, &[3, 4], 1), 0);
    let mut buf = vec![7u8; 8];
    assert!(capture_tick(&mut rb, &format, 1, &mut buf).is_none());
    assert_eq!(buf, vec![7u8; 8]);
    assert_eq!(rb.available_frames(), 1);
}

#[test]
fn schedule() {
    let mut s = TickSchedule { interval: 10, next_tick: 100 };
    assert_eq!(s.advance(103), 7);
    assert_eq!(s.next_tick, 110);
    assert_eq!(s.advance(120), 0);
    assert_eq!(s.next_tick, 130);
    assert_eq!(s.advance(130), 10);
    assert_eq!(s.next_tick, 140);
}

#[test]
fn outcomes() {
    assert_eq!(pcm_outcome(PcmEvent::NotFound), PcmOutcome::Skip);
    assert_eq!(pcm_outcome(PcmEvent::HardwareRefused), PcmOutcome::Skip);
    assert_eq!(pcm_outcome(PcmEvent::SoftwareRefused), PcmOutcome::Fail);
    assert_eq!(pcm_outcome(PcmEvent::NotStarted), PcmOutcome::Fail);
    assert_eq!(pcm_outcome(PcmEvent::Started), PcmOutcome::Use);
}
