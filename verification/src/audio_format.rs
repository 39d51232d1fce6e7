//! Audio formats and the conversion between raw bytes and samples.
//!
//! A stream is a sequence of interleaved samples. Inside the bridge a sample is an
//! `i32`; on the wire it is 2, 3 or 4 little-endian bytes, depending on the format.

use crate::float_bits;
use vstd::prelude::*;

verus! {

/// Supported audio sample formats.
#[derive(Debug, Clone, Copy, PartialEq, Eq, Structural)]
pub enum SampleFormat {
    /// Signed 16-bit little-endian PCM
    S16LE,
    /// Signed 24-bit little-endian PCM (packed in 3 bytes)
    S24LE,
    /// Signed 32-bit little-endian PCM
    S32LE,
    /// 32-bit float little-endian
    FloatLE,
}

/// The sample formats of ALSA, as far as the bridge tells them apart.
#[derive(Debug, Clone, Copy, PartialEq, Eq, Structural)]
pub enum AlsaFormat {
    /// Signed 16-bit, little endian
    S16LE,
    /// Signed 24-bit, little endian, in 3 bytes
    S243LE,
    /// Signed 32-bit, little endian
    S32LE,
    /// 32-bit float, little endian
    FloatLE,
    /// Any other format, by its ALSA number
    Other(i32),
}

/// A format of ALSA that the bridge cannot carry.
#[derive(Debug, Clone, Copy, PartialEq, Eq, Structural)]
pub struct UnsupportedFormat {
    pub format: AlsaFormat,
}

/// Audio stream configuration for a single PCM device.
#[derive(Debug, Clone)]
pub struct AudioFormat {
    pub sample_rate: u32,
    pub channels: u16,
    pub format: SampleFormat,
}

/// Hardware parameters that a PCM device is opened with. Access is interleaved and
/// resampling is off.
#[derive(Debug, Clone, Copy, PartialEq, Eq, Structural)]
pub struct HardwareParams {
    pub format: AlsaFormat,
    pub rate: u32,
    pub channels: u32,
    /// Frames per period
    pub period_size: usize,
    /// Frames in the whole buffer
    pub buffer_size: usize,
    pub periods: u32,
}

/// Software parameters of a PCM device.
#[derive(Debug, Clone, Copy, PartialEq, Eq, Structural)]
pub struct SoftwareParams {
    /// The stream starts once this many frames are queued
    pub start_threshold: usize,
    /// The device wakes its user once this many frames can be moved
    pub avail_min: usize,
}

// ---------------------------------------------------------------------------
// Samples as bytes
// ---------------------------------------------------------------------------

/// The number that two little-endian bytes stand for.
pub open spec fn le16(b: Seq<u8>) -> int {
    b[0] + 0x100 * b[1]
}

/// The number that three little-endian bytes stand for.
pub open spec fn le24(b: Seq<u8>) -> int {
    b[0] + 0x100 * b[1] + 0x1_0000 * b[2]
}

/// The number that four little-endian bytes stand for.
pub open spec fn le32(b: Seq<u8>) -> int {
    b[0] + 0x100 * b[1] + 0x1_0000 * b[2] + 0x100_0000 * b[3]
}

/// `v`, in `0..modulus`, read as a two's complement number.
pub open spec fn signed(v: int, modulus: int) -> int {
    if 2 * v >= modulus {
        v - modulus
    } else {
        v
    }
}

/// Byte `i` of the two's complement notation of `v`, the lowest first.
pub open spec fn byte_of(v: int, i: int) -> u8 {
    if i == 0 {
        (v % 0x100) as u8
    } else if i == 1 {
        ((v / 0x100) % 0x100) as u8
    } else if i == 2 {
        ((v / 0x1_0000) % 0x100) as u8
    } else {
        ((v / 0x100_0000) % 0x100) as u8
    }
}

/// `n / d`, rounded towards zero.
pub open spec fn truncated_quotient(n: int, d: int) -> int {
    if n < 0 {
        -((-n) / d)
    } else {
        n / d
    }
}

impl SampleFormat {
    /// Bytes that one sample takes.
    pub open spec fn width(&self) -> int {
        match self {
            SampleFormat::S16LE => 2,
            SampleFormat::S24LE => 3,
            SampleFormat::S32LE => 4,
            SampleFormat::FloatLE => 4,
        }
    }

    /// The sample that `width` bytes stand for, in the normalized internal format: in every
    /// format full scale is the whole range of an `i32`.
    pub open spec fn decoded_sample(&self, b: Seq<u8>) -> int {
        match self {
            SampleFormat::S16LE => signed(le16(b), 0x1_0000) * 0x1_0000,
            SampleFormat::S24LE => signed(le24(b), 0x100_0000) * 0x100,
            SampleFormat::S32LE => signed(le32(b), 0x1_0000_0000),
            SampleFormat::FloatLE => float_bits::float_sample(le32(b) as u32),
        }
    }

    /// The number whose `width` low bytes a full-scale sample is sent as.
    pub open spec fn wire_number(&self, s: i32) -> int {
        match self {
            SampleFormat::S16LE => truncated_quotient(s as int, 0x1_0000),
            SampleFormat::S24LE => s as int / 0x100,
            SampleFormat::S32LE => s as int,
            SampleFormat::FloatLE => float_bits::sample_float(s),
        }
    }

    /// The samples in a byte buffer; bytes after the last whole sample are not read.
    pub open spec fn decoded(&self, b: Seq<u8>) -> Seq<i32> {
        Seq::new(
            (b.len() as int / self.width()) as nat,
            |i: int|
                self.decoded_sample(b.subrange(i * self.width(), (i + 1) * self.width())) as i32,
        )
    }

    /// The bytes that a sequence of samples is sent as.
    pub open spec fn encoded(&self, s: Seq<i32>) -> Seq<u8> {
        Seq::new(
            (s.len() * self.width()) as nat,
            |j: int| byte_of(self.wire_number(s[j / self.width()]), j % self.width()),
        )
    }

    /// The ALSA format that carries this one.
    pub open spec fn alsa_format(&self) -> AlsaFormat {
        match self {
            SampleFormat::S16LE => AlsaFormat::S16LE,
            SampleFormat::S24LE => AlsaFormat::S243LE,
            SampleFormat::S32LE => AlsaFormat::S32LE,
            SampleFormat::FloatLE => AlsaFormat::FloatLE,
        }
    }

    /// Bytes per sample (per channel)
    pub fn bytes_per_sample(&self) -> (r: usize)
        ensures
            r == self.width(),
    {
        match self {
            SampleFormat::S16LE => 2,
            SampleFormat::S24LE => 3,
            SampleFormat::S32LE => 4,
            SampleFormat::FloatLE => 4,
        }
    }

    /// Convert to ALSA format constant
    pub fn to_alsa_format(&self) -> (r: AlsaFormat)
        ensures
            r == self.alsa_format(),
    {
        match self {
            SampleFormat::S16LE => AlsaFormat::S16LE,
            SampleFormat::S24LE => AlsaFormat::S243LE,
            SampleFormat::S32LE => AlsaFormat::S32LE,
            SampleFormat::FloatLE => AlsaFormat::FloatLE,
        }
    }

    /// The sample format that an ALSA format carries, or the format itself as an error.
    pub fn from_alsa_format(f: AlsaFormat) -> (r: Result<SampleFormat, UnsupportedFormat>)
        ensures
            match r {
                Ok(s) => s.alsa_format() == f,
                Err(e) => f is Other && e.format == f,
            },
    {
        match f {
            AlsaFormat::S16LE => Ok(SampleFormat::S16LE),
            AlsaFormat::S243LE => Ok(SampleFormat::S24LE),
            AlsaFormat::S32LE => Ok(SampleFormat::S32LE),
            AlsaFormat::FloatLE => Ok(SampleFormat::FloatLE),
            AlsaFormat::Other(_) => Err(UnsupportedFormat { format: f }),
        }
    }
}

/// The number that four little-endian bytes at `at` stand for.
pub(crate) fn read_le32(b: &[u8], at: usize) -> (r: u32)
    requires
        at + 4 <= b@.len(),
    ensures
        r == le32(b@.subrange(at as int, at + 4)),
{
    b[at] as u32 + 0x100 * b[at + 1] as u32 + 0x1_0000 * b[at + 2] as u32 + 0x100_0000 * b[at
        + 3] as u32
}

/// The two's complement number that the `u32` with the same bits stands for.
fn to_signed(v: u32) -> (r: i32)
    ensures
        r == signed(v as int, 0x1_0000_0000),
{
    if v >= 0x8000_0000 {
        (v as i64 - 0x1_0000_0000) as i32
    } else {
        v as i32
    }
}

/// The `u32` with the same bits as a two's complement number.
fn to_unsigned(s: i32) -> (r: u32)
    ensures
        r == s as int % 0x1_0000_0000,
{
    if s < 0 {
        (s as i64 + 0x1_0000_0000) as u32
    } else {
        s as u32
    }
}

impl AudioFormat {
    /// Bytes that one frame, a sample of every channel, takes.
    pub open spec fn frame_width(&self) -> int {
        self.channels * self.format.width()
    }

    /// Default format matching the hardware's primary mode
    pub fn default_stereo() -> (r: Self)
        ensures
            r.sample_rate == 48000,
            r.channels == 2,
            r.format == SampleFormat::S32LE,
    {
        Self { sample_rate: 48000, channels: 2, format: SampleFormat::S32LE }
    }

    /// Frame size in bytes (= channels * bytes_per_sample)
    pub fn frame_bytes(&self) -> (r: usize)
        ensures
            r == self.frame_width(),
            r <= 0x3_fffc,
    {
        let bps: usize = self.format.bytes_per_sample();
        assert(self.channels * bps <= 0xffff * 4) by (nonlinear_arith)
            requires
                self.channels <= 0xffff,
                bps <= 4,
        ;
        self.channels as usize * bps
    }

    /// The hardware parameters that a PCM device carrying this format is opened with.
    pub open spec fn device_params(&self, period_frames: int, num_periods: int) -> HardwareParams {
        HardwareParams {
            format: self.format.alsa_format(),
            rate: self.sample_rate,
            channels: self.channels as u32,
            period_size: period_frames as usize,
            buffer_size: (period_frames * num_periods) as usize,
            periods: num_periods as u32,
        }
    }

    /// The hardware parameters that a PCM device carrying this format is opened with.
    pub fn hardware_params(&self, period_frames: usize, num_periods: u32) -> (r: HardwareParams)
        requires
            period_frames * num_periods <= usize::MAX,
        ensures
            r == self.device_params(period_frames as int, num_periods as int),
            r == (HardwareParams {
                format: self.format.alsa_format(),
                rate: self.sample_rate,
                channels: self.channels as u32,
                period_size: period_frames,
                buffer_size: (period_frames * num_periods) as usize,
                periods: num_periods,
            }),
    {
        HardwareParams {
            format: self.format.to_alsa_format(),
            rate: self.sample_rate,
            channels: self.channels as u32,
            period_size: period_frames,
            buffer_size: period_frames * num_periods as usize,
            periods: num_periods,
        }
    }

    /// The software parameters of a PCM device: it starts as soon as one period is
    /// available.
    pub fn software_params(&self, period_frames: usize) -> (r: SoftwareParams)
        ensures
            r == (SoftwareParams { start_threshold: period_frames, avail_min: period_frames }),
    {
        SoftwareParams { start_threshold: period_frames, avail_min: period_frames }
    }

    /// Convert raw byte buffer to interleaved i32 samples (normalized internal format)
    pub fn bytes_to_i32(&self, bytes: &[u8]) -> (r: Vec<i32>)
        ensures
            r@ == self.format.decoded(bytes@),
    {
        let bps: usize = self.format.bytes_per_sample();
        let len: usize = bytes.len();
        let num_samples: usize = len / bps;
        let mut samples: Vec<i32> = Vec::with_capacity(num_samples);
        let mut at: usize = 0;
        while samples.len() < num_samples
            invariant
                bps == self.format.width(),
                len == bytes@.len(),
                num_samples == bytes@.len() as int / bps as int,
                samples@.len() <= num_samples,
                at == samples@.len() * bps,
                forall|i: int|
                    0 <= i < samples@.len() ==> #[trigger] samples@[i] == self.format.decoded(
                        bytes@,
                    )[i],
            decreases num_samples - samples@.len(),
        {
            let ghost n = samples@.len() as int;
            proof {
                assert(at + bps <= bytes@.len() && at + bps == (n + 1) * bps) by (nonlinear_arith)
                    requires
                        at == n * bps,
                        n + 1 <= num_samples,
                        num_samples == bytes@.len() as int / bps as int,
                        2 <= bps <= 4,
                ;
            }
            let ghost chunk = bytes@.subrange(n * bps, (n + 1) * bps);
            let s: i32 = match self.format {
                SampleFormat::S16LE => {
                    let v: i32 = bytes[at] as i32 + 0x100 * bytes[at + 1] as i32;
                    if v >= 0x8000 {
                        (v - 0x1_0000) * 0x1_0000
                    } else {
                        v * 0x1_0000
                    }
                },
                SampleFormat::S24LE => {
                    let v: i32 = bytes[at] as i32 + 0x100 * bytes[at + 1] as i32 + 0x1_0000
                        * bytes[at + 2] as i32;
                    if v >= 0x80_0000 {
                        (v - 0x100_0000) * 0x100
                    } else {
                        v * 0x100
                    }
                },
                SampleFormat::S32LE => to_signed(read_le32(bytes, at)),
                SampleFormat::FloatLE => float_bits::float_to_sample(read_le32(bytes, at)),
            };
            assert(s == self.format.decoded_sample(chunk));
            samples.push(s);
            at = at + bps;
        }
        assert(samples@ =~= self.format.decoded(bytes@));
        samples
    }

    /// Convert interleaved i32 samples back to raw bytes in this format
    pub fn i32_to_bytes(&self, samples: &[i32]) -> (r: Vec<u8>)
        ensures
            r@ == self.format.encoded(samples@),
    {
        let bps: usize = self.format.bytes_per_sample();
        let mut bytes: Vec<u8> = Vec::new();
        let mut i: usize = 0;
        while i < samples.len()
            invariant
                bps == self.format.width(),
                i <= samples@.len(),
                bytes@.len() == i * bps,
                bytes@ == self.format.encoded(samples@).take(i * bps),
                i * bps <= samples@.len() * bps,
            decreases samples@.len() - i,
        {
            let v: u32 = self.format.wire_bits(samples[i]);
            let ghost full = self.format.encoded(samples@);
            let ghost base = bytes@.len() as int;
            proof {
                assert((i + 1) * bps <= samples@.len() * bps && (i + 1) * bps == i * bps + bps)
                    by (nonlinear_arith)
                    requires
                        i + 1 <= samples@.len(),
                        bps >= 0,
                ;
                assert forall|k: int| 0 <= k < bps implies #[trigger] full[base + k] == byte_of(
                    v as int,
                    k,
                ) by {
                    vstd::arithmetic::div_mod::lemma_fundamental_div_mod_converse(
                        base + k,
                        bps as int,
                        i as int,
                        k,
                    );
                }
            }
            bytes.push((v % 0x100) as u8);
            bytes.push(((v / 0x100) % 0x100) as u8);
            if bps > 2 {
                bytes.push(((v / 0x1_0000) % 0x100) as u8);
            }
            if bps > 3 {
                bytes.push(((v / 0x100_0000) % 0x100) as u8);
            }
            proof {
                assert(full[base + 0] == byte_of(v as int, 0));
                assert(full[base + 1] == byte_of(v as int, 1));
                if bps > 2 {
                    assert(full[base + 2] == byte_of(v as int, 2));
                }
                if bps > 3 {
                    assert(full[base + 3] == byte_of(v as int, 3));
                }
                assert(bytes@ =~= full.take((i + 1) * bps));
            }
            i = i + 1;
        }
        assert(bytes@ =~= self.format.encoded(samples@));
        bytes
    }
}

/// The digit at weight `d` does not depend on what lies above it.
proof fn lemma_digit_below(v: int, w: int, c: int, d: nat)
    requires
        d > 0,
        v == w + (0x100 * c) * d,
    ensures
        (v / d as int) % 0x100 == (w / d as int) % 0x100,
{
    vstd::arithmetic::div_mod::lemma_hoist_over_denominator(w, 0x100 * c, d);
    vstd::arithmetic::div_mod::lemma_mod_multiples_vanish(c, w / d as int, 0x100);
}

/// Byte `i` of a number does not depend on what lies above it.
proof fn lemma_byte_below(v: int, w: int, c: int)
    ensures
        v == w + 0x100 * c ==> byte_of(v, 0) == byte_of(w, 0),
        v == w + 0x1_0000 * c ==> byte_of(v, 1) == byte_of(w, 1),
        v == w + 0x100_0000 * c ==> byte_of(v, 2) == byte_of(w, 2),
        v == w + 0x1_0000_0000 * c ==> byte_of(v, 3) == byte_of(w, 3),
{
    if v == w + 0x100 * c {
        lemma_digit_below(v, w, c, 1);
        assert(v / 1 == v && w / 1 == w);
    }
    if v == w + 0x1_0000 * c {
        lemma_digit_below(v, w, c, 0x100);
    }
    if v == w + 0x100_0000 * c {
        lemma_digit_below(v, w, c, 0x1_0000);
    }
    if v == w + 0x1_0000_0000 * c {
        lemma_digit_below(v, w, c, 0x100_0000);
    }
}

/// Numbers that agree modulo `2^(8 * width)` agree in their `width` low bytes.
proof fn lemma_low_bytes(width: int, v: int, w: int, c: int)
    requires
        width == 2 || width == 3 || width == 4,
        width == 2 ==> v == w + 0x1_0000 * c,
        width == 3 ==> v == w + 0x100_0000 * c,
        width == 4 ==> v == w + 0x1_0000_0000 * c,
    ensures
        forall|k: int| 0 <= k < width ==> byte_of(v, k) == #[trigger] byte_of(w, k),
{
    lemma_byte_below(v, w, c);
    lemma_byte_below(v, w, 0x100 * c);
    lemma_byte_below(v, w, 0x1_0000 * c);
    lemma_byte_below(v, w, 0x100_0000 * c);
}

impl SampleFormat {
    /// A number with the same `width` low bytes as the one that a sample is sent as.
    fn wire_bits(&self, s: i32) -> (r: u32)
        ensures
            forall|k: int|
                0 <= k < self.width() ==> byte_of(r as int, k) == #[trigger] byte_of(
                    self.wire_number(s),
                    k,
                ),
    {
        match self {
            SampleFormat::S16LE => {
                let q: u32 = float_bits::sample_magnitude(s) / 0x1_0000;
                if s < 0 {
                    proof {
                        lemma_low_bytes(2, 0x1_0000 - q, self.wire_number(s), 1);
                    }
                    0x1_0000 - q
                } else {
                    q
                }
            },
            SampleFormat::S24LE => {
                let u: u32 = to_unsigned(s);
                proof {
                    if s < 0 {
                        assert(u as int / 0x100 == s as int / 0x100 + 0x100_0000);
                        lemma_low_bytes(3, u as int / 0x100, self.wire_number(s), 1);
                    }
                }
                u / 0x100
            },
            SampleFormat::S32LE => {
                let u: u32 = to_unsigned(s);
                proof {
                    if s < 0 {
                        lemma_low_bytes(4, u as int, self.wire_number(s), 1);
                    }
                }
                u
            },
            SampleFormat::FloatLE => float_bits::sample_to_float(s),
        }
    }
}

// ---------------------------------------------------------------------------
// Laws
// ---------------------------------------------------------------------------

/// The sample that arrives when `s` is sent in a format and read back.
pub open spec fn carried(format: SampleFormat, s: i32) -> int {
    match format {
        SampleFormat::S16LE => truncated_quotient(s as int, 0x1_0000) * 0x1_0000,
        SampleFormat::S24LE => (s as int / 0x100) * 0x100,
        SampleFormat::S32LE => s as int,
        SampleFormat::FloatLE => float_bits::saturated(
            s < 0,
            float_bits::round24(float_bits::magnitude(s)),
        ),
    }
}

/// The low bytes of a number, read back, give the number modulo a power of 256.
proof fn lemma_bytes_of(w: int)
    ensures
        byte_of(w, 0) + 0x100 * byte_of(w, 1) == w % 0x1_0000,
        byte_of(w, 0) + 0x100 * byte_of(w, 1) + 0x1_0000 * byte_of(w, 2) == w % 0x100_0000,
        byte_of(w, 0) + 0x100 * byte_of(w, 1) + 0x1_0000 * byte_of(w, 2) + 0x100_0000 * byte_of(
            w,
            3,
        ) == w % 0x1_0000_0000,
{
    let a = w / 0x100;
    let b = w / 0x1_0000;
    let c = w / 0x100_0000;
    assert(b == a / 0x100);
    assert(c == b / 0x100);
    assert(w == w % 0x100 + 0x100 * a);
    assert(a == a % 0x100 + 0x100 * b);
    assert(b == b % 0x100 + 0x100 * c);
    assert(c == c % 0x100 + 0x100 * (c / 0x100));
    assert(w % 0x1_0000 == w % 0x100 + 0x100 * (a % 0x100));
    assert(w % 0x100_0000 == w % 0x100 + 0x100 * (a % 0x100) + 0x1_0000 * (b % 0x100));
    assert(w % 0x1_0000_0000 == w % 0x100 + 0x100 * (a % 0x100) + 0x1_0000 * (b % 0x100)
        + 0x100_0000 * (c % 0x100));
}

/// Sample `i` of an encoded stream occupies the `width` bytes from `i * width`.
proof fn lemma_encoded_chunk(format: SampleFormat, s: Seq<i32>, i: int)
    requires
        0 <= i < s.len(),
    ensures
        0 <= i * format.width(),
        (i + 1) * format.width() <= format.encoded(s).len(),
        format.encoded(s).subrange(i * format.width(), (i + 1) * format.width()) == Seq::new(
            format.width() as nat,
            |k: int| byte_of(format.wire_number(s[i]), k),
        ),
{
    let w = format.width();
    assert((i + 1) * w <= s.len() * w && (i + 1) * w == i * w + w && 0 <= i * w)
        by (nonlinear_arith)
        requires
            0 <= i,
            i + 1 <= s.len(),
            w > 0,
    ;
    assert forall|k: int| 0 <= k < w implies #[trigger] format.encoded(s)[i * w + k] == byte_of(
        format.wire_number(s[i]),
        k,
    ) by {
        vstd::arithmetic::div_mod::lemma_fundamental_div_mod_converse(i * w + k, w, i, k);
    }
    let chunk = format.encoded(s).subrange(i * w, (i + 1) * w);
    assert forall|k: int| 0 <= k < w implies chunk[k] == byte_of(format.wire_number(s[i]), k) by {
        assert(chunk[k] == format.encoded(s)[i * w + k]);
    }
    assert(chunk =~= Seq::new(w as nat, |k: int| byte_of(format.wire_number(s[i]), k)));
}

/// A number in a two's complement range is recovered from its remainder.
proof fn lemma_signed(n: int)
    ensures
        -0x8000 <= n < 0x8000 ==> signed(n % 0x1_0000, 0x1_0000) == n,
        -0x80_0000 <= n < 0x80_0000 ==> signed(n % 0x100_0000, 0x100_0000) == n,
        -0x8000_0000 <= n < 0x8000_0000 ==> signed(n % 0x1_0000_0000, 0x1_0000_0000) == n,
{
}

/// One sample, sent and read back.
proof fn lemma_carried(format: SampleFormat, s: i32, chunk: Seq<u8>)
    requires
        chunk == Seq::new(format.width() as nat, |k: int| byte_of(format.wire_number(s), k)),
    ensures
        format.decoded_sample(chunk) == carried(format, s),
        i32::MIN <= carried(format, s) <= i32::MAX,
{
    let n = format.wire_number(s);
    lemma_bytes_of(n);
    lemma_signed(n);
    match format {
        SampleFormat::FloatLE => {
            float_bits::lemma_sample_float_fits(s);
            assert(n % 0x1_0000_0000 == n);
            float_bits::law_float_round_trip(s, n as u32);
        },
        SampleFormat::S16LE => {
            assert(-0x8000 <= n < 0x8000);
        },
        SampleFormat::S24LE => {},
        SampleFormat::S32LE => {},
    }
}

/// Samples that are sent in a format and read back arrive in the same number and order,
/// each as `carried` says: exactly in 32-bit PCM, cut to 16 bits towards zero in 16-bit
/// PCM, cut to 24 bits downwards in 24-bit PCM, and rounded to 24 significant bits as a
/// float.
pub proof fn law_samples_round_trip(format: SampleFormat, s: Seq<i32>)
    ensures
        format.decoded(format.encoded(s)).len() == s.len(),
        forall|i: int|
            0 <= i < s.len() ==> #[trigger] format.decoded(format.encoded(s))[i] == carried(
                format,
                s[i],
            ),
{
    let w = format.width();
    vstd::arithmetic::div_mod::lemma_div_by_multiple(s.len() as int, w);
    assert forall|i: int| 0 <= i < s.len() implies #[trigger] format.decoded(format.encoded(s))[i]
        == carried(format, s[i]) by {
        lemma_encoded_chunk(format, s, i);
        lemma_carried(format, s[i], format.encoded(s).subrange(i * w, (i + 1) * w));
    }
}

/// The bytes that `b` turns into when it is decoded and encoded again.
pub open spec fn recoded(format: SampleFormat, b: Seq<u8>) -> Seq<u8> {
    format.encoded(format.decoded(b))
}

/// The bytes of one sample that come back unchanged: all in PCM; as floats, those that are
/// a whole number of sample steps.
pub open spec fn recodable(format: SampleFormat, chunk: Seq<u8>) -> bool {
    match format {
        SampleFormat::S16LE => true,
        SampleFormat::S24LE => true,
        SampleFormat::S32LE => true,
        SampleFormat::FloatLE => float_bits::on_grid(le32(chunk) as u32),
    }
}

/// One sample, decoded and encoded again.
proof fn lemma_recoded_sample(format: SampleFormat, chunk: Seq<u8>)
    requires
        chunk.len() == format.width(),
        recodable(format, chunk),
    ensures
        forall|k: int|
            0 <= k < format.width() ==> byte_of(
                #[trigger] format.wire_number(format.decoded_sample(chunk) as i32),
                k,
            ) == chunk[k],
{
    let n = format.wire_number(format.decoded_sample(chunk) as i32);
    match format {
        SampleFormat::S16LE => {
            let v = le16(chunk);
            assert(n == signed(v, 0x1_0000));
            lemma_low_bytes(2, v, n, if n < 0 { 1 } else { 0 });
            assert(byte_of(v, 0) == chunk[0] && byte_of(v, 1) == chunk[1]);
        },
        SampleFormat::S24LE => {
            let v = le24(chunk);
            assert(n == signed(v, 0x100_0000));
            lemma_low_bytes(3, v, n, if n < 0 { 1 } else { 0 });
            assert(byte_of(v, 0) == chunk[0] && byte_of(v, 1) == chunk[1] && byte_of(v, 2)
                == chunk[2]);
        },
        SampleFormat::S32LE => {
            lemma_low_bytes(4, le32(chunk), n, if n < 0 { 1 } else { 0 });
            lemma_bytes_of_le32(chunk);
        },
        SampleFormat::FloatLE => {
            float_bits::law_grid_round_trip(le32(chunk) as u32);
            lemma_bytes_of_le32(chunk);
        },
    }
}

/// Bytes that are decoded and encoded again come back unchanged, where the format can
/// represent what was decoded.
pub proof fn law_bytes_round_trip(format: SampleFormat, b: Seq<u8>)
    requires
        b.len() as int % format.width() == 0,
        forall|i: int|
            0 <= i < b.len() as int / format.width() ==> recodable(
                format,
                #[trigger] b.subrange(i * format.width(), (i + 1) * format.width()),
            ),
    ensures
        recoded(format, b) == b,
{
    let w = format.width();
    let d = format.decoded(b);
    vstd::arithmetic::div_mod::lemma_fundamental_div_mod(b.len() as int, w);
    vstd::arithmetic::mul::lemma_mul_is_commutative(w, d.len() as int);
    assert forall|j: int| 0 <= j < b.len() implies #[trigger] recoded(format, b)[j] == b[j] by {
        let i = j / w;
        let k = j % w;
        vstd::arithmetic::div_mod::lemma_fundamental_div_mod(j, w);
        vstd::arithmetic::mul::lemma_mul_is_commutative(w, i);
        assert(0 <= i < d.len() && (i + 1) * w == i * w + w && i * w >= 0 && (i + 1) * w
            <= b.len()) by (nonlinear_arith)
            requires
                w > 0,
                0 <= j < b.len(),
                j == i * w + k,
                0 <= k < w,
                b.len() == d.len() * w,
        ;
        let chunk = b.subrange(i * w, (i + 1) * w);
        assert(chunk[k] == b[j]);
        lemma_recoded_sample(format, chunk);
    }
    assert(recoded(format, b) =~= b);
}

/// The bytes of a little-endian number are the bytes it was read from.
proof fn lemma_bytes_of_le32(b: Seq<u8>)
    requires
        b.len() == 4,
    ensures
        forall|k: int| 0 <= k < 4 ==> #[trigger] byte_of(le32(b), k) == b[k],
{
    let v = le32(b);
    assert(v % 0x100 == b[0]);
    assert(v / 0x100 == b[1] + 0x100 * b[2] + 0x1_0000 * b[3]);
    assert(v / 0x1_0000 == b[2] + 0x100 * b[3]);
    assert(v / 0x100_0000 == b[3]);
}

/// A stream of `n` samples takes `2 n` bytes in 16-bit PCM, `3 n` in 24-bit PCM and `4 n` in
/// the others, and a byte buffer holds as many samples as fit in it. A frame takes a sample
/// of every channel.
pub proof fn law_stream_sizes(format: SampleFormat, s: Seq<i32>, b: Seq<u8>, channels: u16, rate: u32)
    ensures
        ({
            let width = match format {
                SampleFormat::S16LE => 2int,
                SampleFormat::S24LE => 3,
                SampleFormat::S32LE => 4,
                SampleFormat::FloatLE => 4,
            };
            let n = format.decoded(b).len();
            &&& format.encoded(s).len() == width * s.len()
            &&& width * n <= b.len() < width * (n + 1)
            &&& (AudioFormat { sample_rate: rate, channels, format }).frame_width() == width
                * channels
        }),
{
    let w = format.width();
    vstd::arithmetic::mul::lemma_mul_is_commutative(w, s.len() as int);
    vstd::arithmetic::mul::lemma_mul_is_commutative(w, channels as int);
    vstd::arithmetic::div_mod::lemma_fundamental_div_mod(b.len() as int, w);
    let n = format.decoded(b).len() as int;
    assert(w * (n + 1) == w * n + w) by (nonlinear_arith);
}

/// Sample `i` of a byte buffer is decoded from the `width` bytes from `i * width` on.
proof fn lemma_decoded_at(format: SampleFormat, b: Seq<u8>, i: int)
    requires
        0 <= i < format.decoded(b).len(),
    ensures
        ({
            let w = format.width();
            let chunk = b.subrange(i * w, (i + 1) * w);
            &&& 0 <= i * w
            &&& (i + 1) * w == i * w + w
            &&& (i + 1) * w <= b.len()
            &&& chunk.len() == w
            &&& forall|k: int| 0 <= k < w ==> #[trigger] chunk[k] == b[i * w + k]
            &&& format.decoded(b)[i] == format.decoded_sample(chunk) as i32
        }),
{
    let w = format.width();
    let n = format.decoded(b).len() as int;
    vstd::arithmetic::div_mod::lemma_fundamental_div_mod(b.len() as int, w);
    assert(0 <= i * w && (i + 1) * w == i * w + w && (i + 1) * w <= w * n) by (nonlinear_arith)
        requires
            0 <= i,
            i + 1 <= n,
            w > 0,
    ;
}

/// The sample that PCM bytes stand for is their little-endian two's complement number, at
/// full scale: in 32-bit PCM it has these very bits; in 24-bit and 16-bit PCM it is a
/// multiple of `2^8` or `2^16`, with these bits above.
pub proof fn law_pcm_decoding(format: SampleFormat, b: Seq<u8>, i: int)
    requires
        0 <= i < format.decoded(b).len(),
    ensures
        ({
            let s = format.decoded(b)[i] as int;
            &&& format is S16LE ==> s % 0x1_0000 == 0 && (s / 0x1_0000 - (b[2 * i] + 0x100 * b[2 * i
                + 1])) % 0x1_0000 == 0
            &&& format is S24LE ==> s % 0x100 == 0 && (s / 0x100 - (b[3 * i] + 0x100 * b[3 * i + 1]
                + 0x1_0000 * b[3 * i + 2])) % 0x100_0000 == 0
            &&& format is S32LE ==> (s - (b[4 * i] + 0x100 * b[4 * i + 1] + 0x1_0000 * b[4 * i + 2]
                + 0x100_0000 * b[4 * i + 3])) % 0x1_0000_0000 == 0
        }),
{
    lemma_decoded_at(format, b, i);
    let w = format.width();
    let chunk = b.subrange(i * w, (i + 1) * w);
    assert(chunk[0] == b[i * w + 0] && chunk[1] == b[i * w + 1]);
    match format {
        SampleFormat::S16LE => {},
        SampleFormat::S24LE => {
            assert(chunk[2] == b[i * w + 2]);
        },
        _ => {
            assert(chunk[2] == b[i * w + 2] && chunk[3] == b[i * w + 3]);
        },
    }
}

/// The sample that the four bytes of a float stand for is, in magnitude, the whole part of
/// `|x| * 2^31`, with the sign of `x`; from `|x| == 1` on it is the end of the range, and
/// what is not a number is silence. Here `|x| == m * 2^(w - 150)`.
pub proof fn law_float_decoding(b: Seq<u8>, i: int)
    requires
        0 <= i < SampleFormat::FloatLE.decoded(b).len(),
    ensures
        ({
            let s = SampleFormat::FloatLE.decoded(b)[i] as int;
            let bits = b[4 * i] + 0x100 * b[4 * i + 1] + 0x1_0000 * b[4 * i + 2] + 0x100_0000 * b[4
                * i + 3];
            let e = (bits / 0x80_0000) % 256;
            let f = bits % 0x80_0000;
            let m = if e == 0 { f } else { f + 0x80_0000 };
            let w = if e == 0 { 1 } else { e };
            let size = if s < 0 { -s } else { s };
            &&& e == 255 && f != 0 ==> s == 0
            &&& e >= 127 && !(e == 255 && f != 0) ==> s == if bits >= 0x8000_0000 {
                i32::MIN as int
            } else {
                i32::MAX as int
            }
            &&& e < 127 && bits >= 0x8000_0000 ==> s <= 0
            &&& e < 127 && bits < 0x8000_0000 ==> s >= 0
            &&& 119 <= w < 127 ==> size == m * vstd::arithmetic::power2::pow2((w - 119) as nat)
            &&& w < 119 ==> {
                let u = vstd::arithmetic::power2::pow2((119 - w) as nat);
                size * u <= m && m < (size + 1) * u
            }
        }),
{
    let format = SampleFormat::FloatLE;
    lemma_decoded_at(format, b, i);
    let chunk = b.subrange(i * 4, (i + 1) * 4);
    assert(chunk[0] == b[i * 4 + 0] && chunk[1] == b[i * 4 + 1] && chunk[2] == b[i * 4 + 2]
        && chunk[3] == b[i * 4 + 3]);
    float_bits::law_float_to_sample(le32(chunk) as u32);
}

/// The bytes that a sample is sent as in PCM make up, as a little-endian two's complement
/// number: in 32-bit PCM the sample; in 24-bit PCM the sample over `2^8`, rounded down; in
/// 16-bit PCM the sample over `2^16`, rounded towards zero.
pub proof fn law_pcm_encoding(format: SampleFormat, s: Seq<i32>, i: int)
    requires
        0 <= i < s.len(),
    ensures
        ({
            let e = format.encoded(s);
            let n16 = e[2 * i] + 0x100 * e[2 * i + 1];
            let n24 = e[3 * i] + 0x100 * e[3 * i + 1] + 0x1_0000 * e[3 * i + 2];
            let n32 = e[4 * i] + 0x100 * e[4 * i + 1] + 0x1_0000 * e[4 * i + 2] + 0x100_0000 * e[4
                * i + 3];
            &&& format is S16LE && s[i] >= 0 ==> (s[i] - 0x1_0000 * n16) % 0x1_0000_0000 < 0x1_0000
            &&& format is S16LE && s[i] < 0 ==> (0x1_0000 * n16 - s[i]) % 0x1_0000_0000 < 0x1_0000
            &&& format is S24LE ==> (s[i] - 0x100 * n24) % 0x1_0000_0000 < 0x100
            &&& format is S32LE ==> (s[i] - n32) % 0x1_0000_0000 == 0
        }),
{
    let w = format.width();
    let e = format.encoded(s);
    lemma_encoded_chunk(format, s, i);
    let chunk = e.subrange(i * w, (i + 1) * w);
    let n = format.wire_number(s[i]);
    lemma_bytes_of(n);
    assert(chunk[0] == e[i * w + 0] && chunk[1] == e[i * w + 1]);
    match format {
        SampleFormat::S16LE => {
            let n16 = e[2 * i] + 0x100 * e[2 * i + 1];
            assert(n16 == n % 0x1_0000);
            assert(n16 == n || n16 == n + 0x1_0000);
        },
        SampleFormat::S24LE => {
            assert(chunk[2] == e[i * w + 2]);
            let n24 = e[3 * i] + 0x100 * e[3 * i + 1] + 0x1_0000 * e[3 * i + 2];
            assert(n24 == n % 0x100_0000);
            assert(n24 == n || n24 == n + 0x100_0000);
        },
        SampleFormat::S32LE => {
            assert(chunk[2] == e[i * w + 2] && chunk[3] == e[i * w + 3]);
        },
        SampleFormat::FloatLE => {},
    }
}

/// The four bytes that a sample is sent as in float make up the pattern with its sign that
/// stands for its magnitude, rounded to 24 significant bits, over `2^31`: with
/// `|x| == m * 2^(e - 150)`, `m * 2^(e - 119)` is the rounded magnitude.
pub proof fn law_float_encoding(s: Seq<i32>, i: int)
    requires
        0 <= i < s.len(),
    ensures
        ({
            let b = SampleFormat::FloatLE.encoded(s);
            let bits = b[4 * i] + 0x100 * b[4 * i + 1] + 0x1_0000 * b[4 * i + 2] + 0x100_0000 * b[4
                * i + 3];
            let e = (bits / 0x80_0000) % 256;
            let m = bits % 0x80_0000 + 0x80_0000;
            let n = float_bits::round24((if s[i] < 0 { -s[i] } else { s[i] as int }) as nat);
            &&& s[i] == 0 <==> bits == 0
            &&& s[i] != 0 ==> {
                &&& bits >= 0x8000_0000 <==> s[i] < 0
                &&& 96 <= e <= 127
                &&& e >= 119 ==> m * vstd::arithmetic::power2::pow2((e - 119) as nat) == n
                &&& e < 119 ==> m == n * vstd::arithmetic::power2::pow2((119 - e) as nat)
            }
        }),
{
    let format = SampleFormat::FloatLE;
    let e = format.encoded(s);
    lemma_encoded_chunk(format, s, i);
    let chunk = e.subrange(i * 4, (i + 1) * 4);
    let n = format.wire_number(s[i]);
    lemma_bytes_of(n);
    float_bits::lemma_sample_float_fits(s[i]);
    assert(chunk[0] == e[i * 4 + 0] && chunk[1] == e[i * 4 + 1] && chunk[2] == e[i * 4 + 2]
        && chunk[3] == e[i * 4 + 3]);
    assert(n % 0x1_0000_0000 == n);
    float_bits::law_sample_to_float(s[i], n as u32);
}

/// The ALSA format of a sample format has the same encoding: 16-bit, packed 24-bit and
/// 32-bit PCM are carried by just these, and floats by floats. What is carried by a format
/// that the bridge does not tell apart is none of them.
pub proof fn law_alsa_format_same_encoding(f: SampleFormat)
    ensures
        f is S16LE <==> f.alsa_format() is S16LE,
        f is S24LE <==> f.alsa_format() is S243LE,
        f is S32LE <==> f.alsa_format() is S32LE,
        f is FloatLE <==> f.alsa_format() is FloatLE,
        f.alsa_format() !is Other,
{
}

/// Different sample formats are carried by different ALSA formats, so the way to ALSA
/// and back gives the same format.
pub proof fn law_alsa_format_injective(a: SampleFormat, b: SampleFormat)
    requires
        a.alsa_format() == b.alsa_format(),
    ensures
        a == b,
{
}

/// A PCM device is opened for the encoding, the rate and the channels of the format, with a
/// buffer of as many periods, each of as many frames, as asked for.
pub proof fn law_device_params(f: AudioFormat, period_frames: usize, num_periods: u32)
    requires
        period_frames * num_periods <= usize::MAX,
    ensures
        ({
            let p = f.device_params(period_frames as int, num_periods as int);
            &&& f.format is S16LE <==> p.format is S16LE
            &&& f.format is S24LE <==> p.format is S243LE
            &&& f.format is S32LE <==> p.format is S32LE
            &&& f.format is FloatLE <==> p.format is FloatLE
            &&& p.rate == f.sample_rate
            &&& p.channels == f.channels
            &&& p.period_size == period_frames
            &&& p.periods == num_periods
            &&& p.buffer_size == p.period_size * p.periods
        }),
{
    assert(0 <= period_frames * num_periods) by (nonlinear_arith)
        requires
            period_frames >= 0,
            num_periods >= 0,
    ;
}

} // verus!
