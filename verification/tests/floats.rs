//! The integer arithmetic on bit patterns, held against the machine's floats.

use rodecaster_vad::audio_format::{AudioFormat, SampleFormat};
use rodecaster_vad::float_bits;
use rodecaster_vad::mixer::{apply_mixer, ChannelMixerState};

fn pseudo_random(state: &mut u64) -> u32 {
    *state = state.wrapping_mul(6364136223846793005).wrapping_add(1442695040888963407);
    (*state >> 32) as u32
}

fn interesting_bits() -> Vec<u32> {
    let mut out: Vec<u32> = Vec::new();
    for e in 0..=255u32 {
        for f in [0u32, 1, 2, 0x3f_ffff, 0x40_0000, 0x40_0001, 0x7f_fffe, 0x7f_ffff] {
            out.push(e << 23 | f);
            out.push(1 << 31 | e << 23 | f);
        }
    }
    let mut state = 1u64;
    for _ in 0..200_000 {
        out.push(pseudo_random(&mut state));
    }
    out
}

fn interesting_samples() -> Vec<i32> {
    let mut out: Vec<i32> = vec![0, 1, -1, i32::MAX, i32::MIN, i32::MAX - 1, i32::MIN + 1];
    for p in 0..31 {
        for d in [-2i64, -1, 0, 1, 2] {
            let v = (1i64 << p) + d;
            out.push(v as i32);
            out.push(-v as i32);
            let w = (1i64 << p) + (1i64 << p >> 24) + d;
            out.push(w as i32);
            out.push(-w as i32);
        }
    }
    // Halfway cases of the rounding to 24 bits.
    for k in 1..8 {
        for q in [0x80_0000i64, 0x80_0001, 0xff_fffe, 0xff_ffff] {
            let half = 1i64 << (k - 1);
            for d in [-1i64, 0, 1] {
                let v = (q << k) + half + d;
                if v <= i32::MAX as i64 {
                    out.push(v as i32);
                    out.push(-v as i32);
                }
            }
        }
    }
    let mut state = 7u64;
    for _ in 0..100_000 {
        out.push(pseudo_random(&mut state) as i32);
    }
    out
}

#[test]
fn float_to_sample_agrees_with_machine() {
    for bits in interesting_bits() {
        let f = f32::from_bits(bits);
        let expected = (f.clamp(-1.0, 1.0) * 2147483647.0) as i32;
        assert_eq!(float_bits::float_to_sample(bits), expected, "{:#x}", bits);
    }
}

#[test]
fn sample_to_float_agrees_with_machine() {
    for s in interesting_samples() {
        let f = (s as f32 / 2147483647.0).clamp(-1.0, 1.0);
        assert_eq!(float_bits::sample_to_float(s), f.to_bits(), "{}", s);
    }
}

#[test]
fn scaling_agrees_with_machine() {
    for gain in [0u16, 1, 2, 3, 100, 127, 128, 255, 257, 300, 511, 512, 1000, 1024, 0x7fff, 0xffff] {
        let vol = gain as f32 / 256.0;
        for s in interesting_samples() {
            let expected = (s as f32 * vol) as i32;
            assert_eq!(float_bits::scale_sample(s, gain), expected, "{} * {}/256", s, gain);
        }
    }
}

#[test]
fn mixer_agrees_with_machine() {
    let samples = interesting_samples();
    for volume in [0u16, 64, 255, 256, 257, 700, 1024, 0xffff] {
        let mixer = ChannelMixerState { volume, mute: false };
        let mut buf = samples.clone();
        apply_mixer(&mut buf, &mixer);
        let vol = volume as f32 / 256.0;
        for (out, s) in buf.iter().zip(samples.iter()) {
            let expected = if (vol - 1.0).abs() > f32::EPSILON {
                (*s as f32 * vol) as i32
            } else {
                *s
            };
            assert_eq!(*out, expected);
        }
    }
}

#[test]
fn volume_agrees_with_machine() {
    for raw in 0..=0xffffu16 {
        let mixer = ChannelMixerState { volume: raw, mute: false };
        assert_eq!(f32::from_bits(mixer.volume_f32()), raw as f32 / 256.0);
    }
    for bits in interesting_bits() {
        let v = f32::from_bits(bits);
        let mut mixer = ChannelMixerState::default();
        mixer.set_volume_f32(bits);
        assert_eq!(mixer.volume, (v.clamp(0.0, 4.0) * 256.0) as u16, "{:#x}", bits);
    }
}

#[test]
fn volume_round_trip() {
    for raw in 0..=1024u16 {
        let mut mixer = ChannelMixerState { volume: raw, mute: true };
        let bits = mixer.volume_f32();
        mixer.set_volume_f32(bits);
        assert_eq!(mixer, ChannelMixerState { volume: raw, mute: true });
    }
}

#[test]
fn percentage_agrees_with_machine() {
    for v in (-1000..=1000).chain([i32::MIN, i32::MIN + 1, i32::MAX - 1, i32::MAX]) {
        let linear = v as f32 / 100.0;
        let expected = (linear.clamp(0.0, 4.0) * 256.0) as u16;
        let mut mixer = ChannelMixerState::default();
        mixer.set_volume_percent(v);
        assert_eq!(mixer.volume, expected, "{} %", v);
    }
}

#[test]
fn order_agrees_with_machine() {
    let mut all: Vec<u32> = Vec::new();
    for e in [0u32, 1, 2, 126, 127, 128, 254, 255] {
        for f in [0u32, 1, 0x40_0000, 0x7f_ffff] {
            all.push(e << 23 | f);
            all.push(1 << 31 | e << 23 | f);
        }
    }
    for &a in &all {
        for &b in &all {
            let expected = f32::from_bits(a) < f32::from_bits(b);
            assert_eq!(float_bits::is_less(a, b), expected, "{:#x} < {:#x}", a, b);
        }
    }
}

#[test]
fn float_stream_round_trip() {
    let format = AudioFormat { sample_rate: 48000, channels: 1, format: SampleFormat::FloatLE };
    let samples: Vec<i32> = vec![0, 1, -1, 1 << 24, -(1 << 24), (1 << 24) + 1, i32::MAX, i32::MIN];
    let bytes = format.i32_to_bytes(&samples);
    let back = format.bytes_to_i32(&bytes);
    assert_eq!(back, vec![0, 1, -1, 1 << 24, -(1 << 24), 1 << 24, i32::MAX, i32::MIN]);
    let floats: Vec<f32> = vec![0.0, 0.5, -0.25, 1.0, -1.0, 0.75];
    let mut raw: Vec<u8> = Vec::new();
    for f in &floats {
        raw.extend_from_slice(&f.to_le_bytes());
    }
    assert_eq!(format.i32_to_bytes(&format.bytes_to_i32(&raw)), raw);
    assert_eq!(
        format.bytes_to_i32(&raw),
        vec![0, 1 << 30, -(1 << 29), i32::MAX, i32::MIN, 3 << 29],
    );
}
