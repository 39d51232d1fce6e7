use rodecaster_vad::audio_format::{
    AlsaFormat, AudioFormat, HardwareParams, SampleFormat, SoftwareParams, UnsupportedFormat,
};

fn mono(format: SampleFormat) -> AudioFormat {
    AudioFormat { sample_rate: 48000, channels: 1, format }
}

const ALL: [SampleFormat; 4] =
    [SampleFormat::S16LE, SampleFormat::S24LE, SampleFormat::S32LE, SampleFormat::FloatLE];

#[test]
fn sizes() {
    assert_eq!(ALL.map(|f| f.bytes_per_sample()), [2, 3, 4, 4]);
    let stereo = AudioFormat::default_stereo();
    assert_eq!(stereo.sample_rate, 48000);
    assert_eq!(stereo.channels, 2);
    assert_eq!(stereo.format, SampleFormat::S32LE);
    assert_eq!(stereo.frame_bytes(), 8);
    let surround = AudioFormat { sample_rate: 44100, channels: 8, format: SampleFormat::S24LE };
    assert_eq!(surround.frame_bytes(), 24);
}

#[test]
fn alsa_formats() {
    for f in ALL {
        assert_eq!(SampleFormat::from_alsa_format(f.to_alsa_format()), Ok(f));
    }
    assert_eq!(SampleFormat::S24LE.to_alsa_format(), AlsaFormat::S243LE);
    let other = AlsaFormat::Other(6);
    assert_eq!(
        SampleFormat::from_alsa_format(other),
        Err(UnsupportedFormat { format: other }),
    );
}

#[test]
fn decode_16_bit() {
    let f = mono(SampleFormat::S16LE);
    assert_eq!(
        f.bytes_to_i32(&[0x00, 0x00, 0x01, 0x00, 0xff, 0xff, 0xff, 0x7f, 0x00, 0x80]),
        vec![0, 65536, -65536, 32767 * 65536, i32::MIN],
    );
    assert_eq!(f.bytes_to_i32(&[0x01, 0x00, 0x02]), vec![65536]);
    assert_eq!(f.bytes_to_i32(&[]), Vec::<i32>::new());
}

#[test]
fn decode_24_bit() {
    let f = mono(SampleFormat::S24LE);
    assert_eq!(
        f.bytes_to_i32(&[1, 0, 0, 0xff, 0xff, 0xff, 0xff, 0xff, 0x7f, 0, 0, 0x80, 9, 9]),
        vec![256, -256, 8388607 * 256, i32::MIN],
    );
    // Half of full scale is half of full scale in every format.
    assert_eq!(f.bytes_to_i32(&[0x00, 0x00, 0x40]), vec![0x4000_0000]);
    assert_eq!(mono(SampleFormat::S16LE).bytes_to_i32(&[0x00, 0x40]), vec![0x4000_0000]);
    assert_eq!(mono(SampleFormat::S32LE).bytes_to_i32(&[0, 0, 0, 0x40]), vec![0x4000_0000]);
    assert_eq!(
        mono(SampleFormat::FloatLE).bytes_to_i32(&0.5f32.to_le_bytes()),
        vec![0x4000_0000],
    );
}

#[test]
fn decode_32_bit() {
    let f = mono(SampleFormat::S32LE);
    assert_eq!(
        f.bytes_to_i32(&[0x78, 0x56, 0x34, 0x12, 0xff, 0xff, 0xff, 0xff, 0, 0, 0, 0x80]),
        vec![0x12345678, -1, i32::MIN],
    );
}

#[test]
fn encode_16_bit() {
    let f = mono(SampleFormat::S16LE);
    assert_eq!(
        f.i32_to_bytes(&[0, 65535, -65535, 65536, -65536, i32::MAX, i32::MIN]),
        vec![0, 0, 0, 0, 0, 0, 1, 0, 0xff, 0xff, 0xff, 0x7f, 0x00, 0x80],
    );
}

#[test]
fn encode_24_bit() {
    let f = mono(SampleFormat::S24LE);
    assert_eq!(
        f.i32_to_bytes(&[0x12345678, 255, -1, i32::MIN]),
        vec![0x56, 0x34, 0x12, 0, 0, 0, 0xff, 0xff, 0xff, 0, 0, 0x80],
    );
}

#[test]
fn encode_32_bit() {
    let f = mono(SampleFormat::S32LE);
    assert_eq!(
        f.i32_to_bytes(&[0x12345678, -2]),
        vec![0x78, 0x56, 0x34, 0x12, 0xfe, 0xff, 0xff, 0xff],
    );
}

#[test]
fn samples_round_trip() {
    let samples: Vec<i32> = vec![0, 1, -1, 300, -300, 65536, -65537, 1234567890, i32::MAX, i32::MIN];
    for format in ALL {
        let f = mono(format);
        let back = f.bytes_to_i32(&f.i32_to_bytes(&samples));
        let expected: Vec<i32> = samples
            .iter()
            .map(|s| match format {
                SampleFormat::S16LE => s / 65536 * 65536,
                SampleFormat::S24LE => s >> 8 << 8,
                SampleFormat::S32LE => *s,
                SampleFormat::FloatLE => *s as f32 as i32,
            })
            .collect();
        assert_eq!(back, expected);
    }
}

#[test]
fn bytes_round_trip() {
    let bytes: Vec<u8> = (0..=255).collect();
    for format in [SampleFormat::S16LE, SampleFormat::S32LE] {
        let f = mono(format);
        assert_eq!(f.i32_to_bytes(&f.bytes_to_i32(&bytes)), bytes);
    }
    let f = mono(SampleFormat::S24LE);
    assert_eq!(f.i32_to_bytes(&f.bytes_to_i32(&bytes[..255])), bytes[..255]);
    assert_eq!(f.i32_to_bytes(&f.bytes_to_i32(&[0, 1, 0])), vec![0, 1, 0]);
    for v in (0u32..0x100_0000).step_by(0x101) {
        let b = &v.to_le_bytes()[..3];
        assert_eq!(f.i32_to_bytes(&f.bytes_to_i32(b)), b);
    }
}

#[test]
fn device_params() {
    let f = AudioFormat { sample_rate: 44100, channels: 2, format: SampleFormat::S24LE };
    assert_eq!(
        f.hardware_params(256, 4),
        HardwareParams {
            format: AlsaFormat::S243LE,
            rate: 44100,
            channels: 2,
            period_size: 256,
            buffer_size: 1024,
            periods: 4,
        },
    );
    assert_eq!(
        f.software_params(256),
        SoftwareParams { start_threshold: 256, avail_min: 256 },
    );
}
