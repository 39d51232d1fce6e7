use rodecaster_vad::channel_map::ChannelMap;
use rodecaster_vad::config::{
    build_capture_channels, build_playback_channels, default_channels, ChannelConfig,
    ChannelDirection, VadConfig,
};
use rodecaster_vad::drift::{reset_drift_timer, DriftMonitor, DriftStatus, FillLevel};
use rodecaster_vad::mixer::{
    apply_mixer, audio_cards, control_names, is_audio_card, is_loopback_card, loopback_card,
    ChannelMixerState, ControlReading, MixerState,
};
use rodecaster_vad::text;

#[test]
fn default_configuration() {
    let cfg = VadConfig::default();
    assert_eq!(cfg.period_frames, 256);
    assert_eq!(cfg.num_periods, 4);
    assert_eq!(cfg.sample_rate, 48000);
    assert_eq!(cfg.rode_vendor_id, 0x19F7);
    assert_eq!(cfg.alsa_device_prefix, "RODECaster");
    assert_eq!(cfg.shm_dir, "/dev/shm");
    assert_eq!(default_channels(), 2);
}

#[test]
fn built_in_channels() {
    let capture = build_capture_channels();
    let playback = build_playback_channels();
    let names: Vec<&str> = capture.iter().map(|c| c.name.as_str()).collect();
    assert_eq!(
        names,
        vec![
            "System In",
            "Combo 1 In",
            "Combo 2 In",
            "Combo 3 In",
            "Combo 4 In",
            "Bluetooth In",
            "Smart Pads In",
            "USB1 Main In",
            "USB1 Chat In",
            "USB2 In",
            "Headset In",
        ],
    );
    let ids: Vec<&str> = playback.iter().map(|c| c.alsa_id.as_str()).collect();
    assert_eq!(ids, vec!["System", "Music", "Game", "VirtualA", "VirtualB"]);
    assert!(capture.iter().all(|c| c.direction == ChannelDirection::Capture && c.channels == 2));
    assert!(playback.iter().all(|c| c.direction == ChannelDirection::Playback && c.channels == 2));
    for channels in [&capture, &playback] {
        for i in 0..channels.len() {
            for j in 0..i {
                assert_ne!(channels[i].alsa_id, channels[j].alsa_id);
            }
        }
    }
}

#[test]
fn populating_channels() {
    let own = ChannelConfig {
        name: "Mine".to_string(),
        alsa_id: "Mine".to_string(),
        channels: 1,
        direction: ChannelDirection::Capture,
    };
    let mut cfg = VadConfig { capture_channels: vec![own], playback_channels: vec![], ..VadConfig::default() };
    cfg.populate_channels();
    assert_eq!(cfg.capture_channels.len(), 1);
    assert_eq!(cfg.capture_channels[0].name, "Mine");
    assert_eq!(cfg.playback_channels.len(), 5);
    cfg.capture_channels.clear();
    cfg.populate_channels();
    assert_eq!(cfg.capture_channels.len(), 11);
}

#[test]
fn default_map() {
    let map = ChannelMap::default();
    assert_eq!(map.capture_map.len(), 11);
    assert_eq!(map.playback_map.len(), 5);
    assert_eq!(map.capture_map[0], (0x81, 0, "System In".to_string()));
    assert_eq!(map.capture_map[6], (0x87, 6, "SmartPads In".to_string()));
    assert_eq!(map.capture_map[10], (0x8B, 10, "Headset In".to_string()));
    assert_eq!(map.playback_map[4], (0x05, 4, "Virtual B Out".to_string()));
    assert!(map.capture_map.iter().all(|m| m.0 & 0x80 != 0));
    assert!(map.playback_map.iter().all(|m| m.0 & 0x80 == 0));
}

#[test]
fn mixing() {
    let mut state = ChannelMixerState::default();
    assert_eq!(state, ChannelMixerState { volume: 256, mute: false });
    assert!(!state.is_muted());
    let mut buf = [1, -1, 1000, i32::MAX, i32::MIN];
    apply_mixer(&mut buf, &state);
    assert_eq!(buf, [1, -1, 1000, i32::MAX, i32::MIN]);
    state.volume = 384;
    apply_mixer(&mut buf, &state);
    assert_eq!(buf, [1, -1, 1500, i32::MAX, i32::MIN]);
    state.volume = 0;
    let mut quiet = [5, i32::MIN];
    apply_mixer(&mut quiet, &state);
    assert_eq!(quiet, [0, 0]);
    state.mute = true;
    assert!(state.is_muted());
    apply_mixer(&mut buf, &state);
    assert_eq!(buf, [0; 5]);
}

#[test]
fn mixer_states() {
    let mut mixers = MixerState::new(&VadConfig::default());
    assert_eq!(mixers.capture_mixers, vec![ChannelMixerState::default(); 11]);
    assert_eq!(mixers.playback_mixers, vec![ChannelMixerState::default(); 5]);
    mixers.apply_readings(
        &[
            ControlReading { volume: Some(50), mute: None },
            ControlReading { volume: None, mute: Some(true) },
        ],
        &[ControlReading { volume: None, mute: None }; 9],
    );
    assert_eq!(mixers.capture_mixers[0], ChannelMixerState { volume: 128, mute: false });
    assert_eq!(mixers.capture_mixers[1], ChannelMixerState { volume: 256, mute: true });
    assert_eq!(mixers.capture_mixers[2], ChannelMixerState::default());
    assert_eq!(mixers.playback_mixers, vec![ChannelMixerState::default(); 5]);
}

#[test]
fn mixer_elements() {
    let mut ch = build_playback_channels().remove(1);
    assert_eq!(
        control_names(&ch),
        Some(("Music Out Volume".to_string(), "Music Out Switch".to_string())),
    );
    ch.name = "a\0b".to_string();
    assert_eq!(control_names(&ch), None);
    assert!(is_loopback_card("Loopback"));
    assert!(!is_loopback_card("RODECaster Duo"));
    assert!(is_audio_card("RODECaster Duo"));
    assert!(is_audio_card("xLoopbackx"));
    assert!(!is_audio_card("Loopbac"));
    assert!(!is_audio_card(""));
}

#[test]
fn cards_with_elements() {
    let names = [
        Some("HDA Intel".to_string()),
        Some("RODECaster Duo".to_string()),
        None,
        Some("Loopback".to_string()),
        Some("Loopback 1".to_string()),
    ];
    assert_eq!(audio_cards(&names), vec![1, 3, 4]);
    assert_eq!(loopback_card(&names), Some(3));
    assert_eq!(audio_cards(&names[..1]), vec![]);
    assert_eq!(loopback_card(&names[..3]), None);
    assert_eq!(loopback_card(&[]), None);
}

#[test]
fn searching_text() {
    for (whole, part) in [
        ("", ""),
        ("abc", ""),
        ("abc", "abc"),
        ("abc", "bc"),
        ("abc", "ab"),
        ("abc", "ac"),
        ("abc", "abcd"),
        ("aab", "ab"),
        ("RØDE", "ØD"),
    ] {
        assert_eq!(text::contains(whole, part), whole.contains(part));
    }
    assert!(text::has_nul("\0"));
    assert!(!text::has_nul("nul"));
}

fn level(fill: f32, rate: f32) -> FillLevel {
    FillLevel {
        fill: fill.to_bits(),
        fill_pct: (fill * 100.0).to_bits(),
        rate: rate.to_bits(),
    }
}

fn expected_status(fill: f32, rate: f32) -> DriftStatus {
    let fill_pct = (fill * 100.0).to_bits();
    let rising = DriftStatus::Overflowing { fill_pct, rate: rate.to_bits() };
    let sinking = DriftStatus::Underflowing { fill_pct, rate: rate.to_bits() };
    if fill.is_nan() || fill < 0.01 {
        DriftStatus::Empty
    } else if fill > 0.99 {
        DriftStatus::Full
    } else if (0.3..=0.7).contains(&fill) {
        DriftStatus::Nominal { fill_pct }
    } else if rate > 0.02 {
        rising
    } else if rate < -0.02 {
        sinking
    } else if fill > 0.5 {
        rising
    } else {
        sinking
    }
}

#[test]
fn drift_statuses() {
    let fills =
        [0.0, -0.0, 0.009, 0.01, 0.011, 0.1, 0.2, 0.29, 0.3, 0.31, 0.5, 0.7, 0.71, 0.95, 0.99, 0.991, 1.0, f32::NAN];
    let rates = [0.0, 0.02, 0.021, -0.02, -0.021, 5.0, -5.0, f32::INFINITY, f32::NAN];
    for fill in fills {
        for rate in rates {
            assert_eq!(
                DriftStatus::from_ring_buffer(&level(fill, rate)),
                expected_status(fill, rate),
                "{} {}",
                fill,
                rate,
            );
        }
    }
}

#[test]
fn nominal_range() {
    let steady = |fill: f32| DriftStatus::from_ring_buffer(&level(fill, 0.0));
    for fill in [0.3, 0.4, 0.5, 0.6, 0.7] {
        assert_eq!(steady(fill), DriftStatus::Nominal { fill_pct: (fill * 100.0f32).to_bits() });
    }
    assert!(matches!(steady(0.95), DriftStatus::Overflowing { .. }));
    assert!(matches!(steady(0.701), DriftStatus::Overflowing { .. }));
    assert!(matches!(steady(0.299), DriftStatus::Underflowing { .. }));
    assert!(matches!(steady(0.05), DriftStatus::Underflowing { .. }));
    // A level that moves is told by its direction.
    assert!(matches!(
        DriftStatus::from_ring_buffer(&level(0.95, -0.5)),
        DriftStatus::Underflowing { .. }
    ));
    assert!(matches!(
        DriftStatus::from_ring_buffer(&level(0.05, 0.5)),
        DriftStatus::Overflowing { .. }
    ));
}

#[test]
fn corrections() {
    let over = DriftStatus::from_ring_buffer(&level(0.8, 0.1));
    let under = DriftStatus::from_ring_buffer(&level(0.1, -0.1));
    let nominal = DriftStatus::from_ring_buffer(&level(0.5, 0.0));
    assert!(over.needs_correction());
    assert!(under.needs_correction());
    assert_eq!(f32::from_bits(over.correction_ratio()), 1.0005);
    assert_eq!(f32::from_bits(under.correction_ratio()), 0.9995);
    for status in [nominal, DriftStatus::Full, DriftStatus::Empty] {
        assert!(!status.needs_correction());
        assert_eq!(f32::from_bits(status.correction_ratio()), 1.0);
    }
}

#[test]
fn drift_monitor() {
    let mut monitor = DriftMonitor::new(3, 1, 7);
    assert_eq!(monitor.last_check, 7);
    assert_eq!(monitor.capture_fill_prev, vec![0, 0, 0]);
    assert_eq!(monitor.playback_fill_prev, vec![0]);
    let levels = [level(0.5, 0.0), level(1.0, 0.0)];
    assert_eq!(monitor.elapsed(1007), 1000);
    let statuses = monitor.check_capture(&levels, 1007);
    assert_eq!(monitor.last_check, 1007);
    assert_eq!(
        statuses,
        vec![DriftStatus::Nominal { fill_pct: 50.0f32.to_bits() }, DriftStatus::Full],
    );
    assert_eq!(monitor.capture_fill_prev, vec![0.5f32.to_bits(), 1.0f32.to_bits(), 0]);
    assert_eq!(monitor.check_playback(&levels).len(), 1);
    assert_eq!(monitor.playback_fill_prev, vec![0.5f32.to_bits()]);
    assert_eq!(monitor.last_check, 1007);
}

#[test]
fn drift_timer() {
    let mut monitor = DriftMonitor::new(1, 1, 0);
    monitor.check_capture(&[level(0.5, 0.0)], 100);
    assert_eq!(monitor.elapsed(1_000_000), 999_900);
    reset_drift_timer(&mut monitor, 999_000);
    assert_eq!(monitor.elapsed(1_000_000), 1000);
    assert_eq!(monitor.capture_fill_prev, vec![0.5f32.to_bits()]);
    monitor.restart(1_000_000);
    assert_eq!(monitor.elapsed(1_000_000), 0);
    assert_eq!(monitor.elapsed(5), 0);
}
