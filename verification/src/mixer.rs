//! Mixer controls: volume and mute per virtual audio channel.
//!
//! Each channel passes its samples through a volume and a mute control, which follow the
//! mixer elements of the ALSA loopback card. Floating-point volumes are IEEE 754 binary32
//! bit patterns, as `f32::to_bits` gives them.

use crate::config::ChannelConfig;
use crate::config::VadConfig;
use crate::float_bits;
use crate::text;
use vstd::prelude::*;

verus! {

/// Volume of an unchanged signal
pub const UNITY: u16 = 256;

/// Largest volume that can be set
pub const MAX_VOLUME: u16 = 1024;

/// Per-channel mixer state
#[derive(Debug, Clone, Copy, PartialEq, Eq, Structural)]
pub struct ChannelMixerState {
    /// Volume as linear multiplier (0.0 = silent, 1.0 = unity, >1.0 = boost)
    /// Stored as fixed-point: value * 256 as u16
    pub volume: u16,
    /// Mute flag
    pub mute: bool,
}

/// What was read from the mixer elements of a channel, where they could be read
#[derive(Debug, Clone, Copy, PartialEq, Eq, Structural)]
pub struct ControlReading {
    /// Volume in percent
    pub volume: Option<i32>,
    /// Mute switch
    pub mute: Option<bool>,
}

/// Set of mixer states for all channels
pub struct MixerState {
    pub capture_mixers: Vec<ChannelMixerState>,
    pub playback_mixers: Vec<ChannelMixerState>,
}

/// The fixed-point volume of a float: limited to `0.0..=4.0`, times 256, truncated. What is
/// not a number is silence.
pub open spec fn volume_of_float(bits: u32) -> int {
    if float_bits::is_nan(bits) || float_bits::negative(bits) {
        0
    } else if float_bits::exponent(bits) >= 129 {
        MAX_VOLUME as int
    } else {
        float_bits::scaled_floor(bits, 8) as int
    }
}

/// The fixed-point volume of a percentage: limited to `0..=400`, times 2.56, truncated.
pub open spec fn volume_of_percent(v: i32) -> int {
    if v <= 0 {
        0
    } else if v >= 400 {
        MAX_VOLUME as int
    } else {
        v * 256 / 100
    }
}

impl ChannelMixerState {
    /// The sample that comes out for a sample that goes in.
    pub open spec fn mixed(&self, s: i32) -> int {
        if self.mute {
            0
        } else if self.volume == UNITY {
            s as int
        } else {
            float_bits::scaled_sample(s, self.volume)
        }
    }

    /// The state after a reading: what could be read is taken over.
    pub open spec fn updated(&self, reading: ControlReading) -> ChannelMixerState {
        ChannelMixerState {
            volume: match reading.volume {
                Some(v) => volume_of_percent(v) as u16,
                None => self.volume,
            },
            mute: match reading.mute {
                Some(m) => m,
                None => self.mute,
            },
        }
    }

    /// Get volume as a linear float multiplier
    pub fn volume_f32(&self) -> (r: u32)
        ensures
            r == float_bits::pattern(false, self.volume as nat, 8),
    {
        float_bits::encode(false, self.volume as u32, 8)
    }

    /// Set volume as linear float multiplier
    pub fn set_volume_f32(&mut self, v: u32)
        ensures
            final(self).volume == volume_of_float(v),
            final(self).mute == old(self).mute,
    {
        self.volume = float_volume(v);
    }

    /// Set volume in percent
    pub fn set_volume_percent(&mut self, v: i32)
        ensures
            final(self).volume == volume_of_percent(v),
            final(self).mute == old(self).mute,
    {
        self.volume = if v <= 0 {
            0
        } else if v >= 400 {
            MAX_VOLUME
        } else {
            (v * 256 / 100) as u16
        };
    }

    pub fn is_muted(&self) -> (r: bool)
        ensures
            r == self.mute,
    {
        self.mute
    }

    /// Takes over what could be read from the mixer elements of the channel.
    pub fn apply_reading(&mut self, reading: &ControlReading)
        ensures
            *final(self) == old(self).updated(*reading),
    {
        if let Some(v) = reading.volume {
            self.set_volume_percent(v);
        }
        if let Some(m) = reading.mute {
            self.mute = m;
        }
    }
}

/// The fixed-point volume of a float.
fn float_volume(bits: u32) -> (r: u16)
    ensures
        r == volume_of_float(bits),
{
    if float_bits::is_not_a_number(bits) || bits >= float_bits::TWO_31 {
        return 0;
    }
    let e: u32 = (bits / float_bits::TWO_23) % 256;
    if e >= 129 {
        return MAX_VOLUME;
    }
    proof {
        float_bits::lemma_scaled_floor_bound(bits);
    }
    float_bits::floor_scaled(bits, 8) as u16
}

impl Default for ChannelMixerState {
    fn default() -> (r: Self)
        ensures
            r == (ChannelMixerState { volume: UNITY, mute: false }),
    {
        Self { volume: UNITY, mute: false }
    }
}

/// `n` channels at unity volume, not muted.
pub open spec fn at_unity(mixers: Seq<ChannelMixerState>, n: nat) -> bool {
    &&& mixers.len() == n
    &&& forall|i: int|
        0 <= i < n ==> #[trigger] mixers[i] == (ChannelMixerState { volume: UNITY, mute: false })
}

/// The states after readings, as far as there are readings.
pub open spec fn all_updated(
    mixers: Seq<ChannelMixerState>,
    readings: Seq<ControlReading>,
) -> Seq<ChannelMixerState> {
    Seq::new(
        mixers.len(),
        |i: int|
            if i < readings.len() {
                mixers[i].updated(readings[i])
            } else {
                mixers[i]
            },
    )
}

/// Takes over readings one by one.
fn update_all(mixers: &mut Vec<ChannelMixerState>, readings: &[ControlReading])
    ensures
        final(mixers)@ == all_updated(old(mixers)@, readings@),
{
    let mut i: usize = 0;
    while i < mixers.len() && i < readings.len()
        invariant
            i <= mixers@.len(),
            i <= readings@.len(),
            mixers@.len() == old(mixers)@.len(),
            forall|k: int| 0 <= k < i ==> #[trigger] mixers@[k] == old(mixers)@[k].updated(readings@[k]),
            forall|k: int| i <= k < mixers@.len() ==> #[trigger] mixers@[k] == old(mixers)@[k],
        decreases mixers@.len() - i,
    {
        mixers[i].apply_reading(&readings[i]);
        i = i + 1;
    }
    assert(mixers@ =~= all_updated(old(mixers)@, readings@));
}

/// `n` channels at unity volume, not muted.
fn unity_mixers(n: usize) -> (r: Vec<ChannelMixerState>)
    ensures
        at_unity(r@, n as nat),
{
    let mut r: Vec<ChannelMixerState> = Vec::new();
    while r.len() < n
        invariant
            r@.len() <= n,
            at_unity(r@, r@.len()),
        decreases n - r@.len(),
    {
        r.push(ChannelMixerState { volume: UNITY, mute: false });
    }
    r
}

impl MixerState {
    pub fn new(cfg: &VadConfig) -> (r: Self)
        ensures
            at_unity(r.capture_mixers@, cfg.capture_channels@.len()),
            at_unity(r.playback_mixers@, cfg.playback_channels@.len()),
    {
        Self {
            capture_mixers: unity_mixers(cfg.capture_channels.len()),
            playback_mixers: unity_mixers(cfg.playback_channels.len()),
        }
    }

    /// Takes over what could be read from the mixer elements of the channels.
    pub fn apply_readings(&mut self, capture: &[ControlReading], playback: &[ControlReading])
        ensures
            final(self).capture_mixers@ == all_updated(old(self).capture_mixers@, capture@),
            final(self).playback_mixers@ == all_updated(old(self).playback_mixers@, playback@),
    {
        update_all(&mut self.capture_mixers, capture);
        update_all(&mut self.playback_mixers, playback);
    }
}

/// Apply volume and mute to a buffer of interleaved i32 samples in-place
pub fn apply_mixer(buf: &mut [i32], mixer: &ChannelMixerState)
    ensures
        final(buf)@.len() == old(buf)@.len(),
        forall|i: int|
            0 <= i < old(buf)@.len() ==> #[trigger] final(buf)@[i] == mixer.mixed(old(buf)@[i]),
{
    let mut i: usize = 0;
    while i < buf.len()
        invariant
            i <= buf@.len(),
            buf@.len() == old(buf)@.len(),
            forall|k: int| 0 <= k < i ==> #[trigger] buf@[k] == mixer.mixed(old(buf)@[k]),
            forall|k: int| i <= k < buf@.len() ==> #[trigger] buf@[k] == old(buf)@[k],
        decreases buf@.len() - i,
    {
        let s: i32 = buf[i];
        let out: i32 = if mixer.is_muted() {
            0
        } else if mixer.volume == UNITY {
            s
        } else {
            float_bits::scale_sample(s, mixer.volume)
        };
        buf[i] = out;
        i = i + 1;
    }
}

// ---------------------------------------------------------------------------
// Mixer elements
// ---------------------------------------------------------------------------

/// The card is the loopback card.
pub open spec fn names_loopback(card: Seq<char>) -> bool {
    text::occurs(card, "Loopback"@)
}

/// The card may have mixer elements for the channels.
pub open spec fn names_audio_card(card: Seq<char>) -> bool {
    names_loopback(card) || text::occurs(card, "RODECaster"@)
}

/// Tells the loopback card by its name.
pub fn is_loopback_card(card: &str) -> (r: bool)
    ensures
        r == names_loopback(card@),
{
    text::contains(card, "Loopback")
}

/// Tells the cards of the virtual device by their name.
pub fn is_audio_card(card: &str) -> (r: bool)
    ensures
        r == names_audio_card(card@),
{
    text::contains(card, "Loopback") || text::contains(card, "RODECaster")
}

/// The card with this name, where it is known, may have mixer elements for the channels.
pub open spec fn may_have_elements(name: Option<String>) -> bool {
    match name {
        Some(n) => names_audio_card(n@),
        None => false,
    }
}

/// The card with this name, where it is known, is the loopback card.
pub open spec fn is_known_loopback(name: Option<String>) -> bool {
    match name {
        Some(n) => names_loopback(n@),
        None => false,
    }
}

/// The cards on which to look for mixer elements, in the order of their indices, from the
/// names of all cards, where they are known.
pub fn audio_cards(names: &[Option<String>]) -> (r: Vec<usize>)
    ensures
        forall|k: int| 0 <= k < r@.len() ==> (#[trigger] r@[k]) < names@.len(),
        forall|k: int, l: int| 0 <= k < l < r@.len() ==> (#[trigger] r@[k]) < (#[trigger] r@[l]),
        forall|i: usize|
            #![trigger names@[i as int]]
            i < names@.len() ==> (r@.contains(i) <==> may_have_elements(names@[i as int])),
{
    let mut r: Vec<usize> = Vec::new();
    let mut i: usize = 0;
    while i < names.len()
        invariant
            i <= names@.len(),
            forall|k: int| 0 <= k < r@.len() ==> (#[trigger] r@[k]) < i,
            forall|k: int, l: int|
                0 <= k < l < r@.len() ==> (#[trigger] r@[k]) < (#[trigger] r@[l]),
            forall|j: usize|
                #![trigger names@[j as int]]
                j < i ==> (r@.contains(j) <==> may_have_elements(names@[j as int])),
        decreases names@.len() - i,
    {
        let found: bool = match &names[i] {
            Some(name) => is_audio_card(name.as_str()),
            None => false,
        };
        let ghost before = r@;
        if found {
            r.push(i);
            proof {
                assert(r@[before.len() as int] == i);
                assert forall|j: usize| j < i implies (r@.contains(j) <==> before.contains(j)) by {
                    if before.contains(j) {
                        let k = choose|k: int| 0 <= k < before.len() && before[k] == j;
                        assert(r@[k] == j);
                    }
                }
            }
        }
        i = i + 1;
    }
    r
}

/// The index of the loopback card: the first one that has such a name.
pub fn loopback_card(names: &[Option<String>]) -> (r: Option<usize>)
    ensures
        match r {
            Some(i) => {
                &&& i < names@.len()
                &&& is_known_loopback(names@[i as int])
                &&& forall|j: int| 0 <= j < i ==> !is_known_loopback(#[trigger] names@[j])
            },
            None => forall|j: int|
                0 <= j < names@.len() ==> !is_known_loopback(#[trigger] names@[j]),
        },
{
    let mut i: usize = 0;
    while i < names.len()
        invariant
            i <= names@.len(),
            forall|j: int| 0 <= j < i ==> !is_known_loopback(#[trigger] names@[j]),
        decreases names@.len() - i,
    {
        if let Some(name) = &names[i] {
            if is_loopback_card(name.as_str()) {
                return Some(i);
            }
        }
        i = i + 1;
    }
    None
}

/// The names of the volume and the mute element of a channel; none if the name of the
/// channel cannot be part of a C string.
pub fn control_names(ch: &ChannelConfig) -> (r: Option<(String, String)>)
    ensures
        match r {
            Some((volume, mute)) => {
                &&& !ch.name@.contains('\0')
                &&& volume@ == ch.name@ + " Volume"@
                &&& mute@ == ch.name@ + " Switch"@
            },
            None => ch.name@.contains('\0'),
        },
{
    if text::has_nul(ch.name.as_str()) {
        None
    } else {
        Some((text::join(ch.name.as_str(), " Volume"), text::join(ch.name.as_str(), " Switch")))
    }
}

// ---------------------------------------------------------------------------
// Laws
// ---------------------------------------------------------------------------

/// A muted channel is silent whatever its volume, a channel at volume 0 is silent, and a
/// channel at unity volume that is not muted changes nothing.
pub proof fn law_mute_and_unity(mixer: ChannelMixerState, s: i32)
    ensures
        mixer.mute ==> mixer.mixed(s) == 0,
        mixer.volume == 0 ==> mixer.mixed(s) == 0,
        !mixer.mute && mixer.volume == UNITY ==> mixer.mixed(s) == s,
        mixer.mixed(0) == 0,
{
    float_bits::law_scaling_zero(s, mixer.volume);
}

/// As long as the product needs no rounding, volume is multiplication by `volume / 256`,
/// truncated towards zero.
pub proof fn law_small_products_exact(mixer: ChannelMixerState, s: i32)
    requires
        !mixer.mute,
        float_bits::magnitude(s) <= float_bits::TWO_24,
        float_bits::magnitude(s) * mixer.volume <= float_bits::TWO_24,
    ensures
        mixer.mixed(s) == crate::audio_format::truncated_quotient(s * mixer.volume, 256),
{
    float_bits::law_scaling_exact(s, mixer.volume);
    let m = float_bits::magnitude(s);
    assert(s * mixer.volume == if s < 0 {
        -(m * mixer.volume)
    } else {
        m * mixer.volume
    }) by (nonlinear_arith)
        requires
            m == if s < 0 {
                -s
            } else {
                s as int
            },
    ;
    if mixer.volume == UNITY {
        assert(s * 256 / 256 == s);
    }
}

/// A volume that can be set is got back as the float that sets it.
pub proof fn law_volume_round_trip(volume: u16, bits: u32)
    requires
        volume <= MAX_VOLUME,
        bits == float_bits::pattern(false, volume as nat, 8),
    ensures
        volume_of_float(bits) == volume,
{
    float_bits::law_exact_round_trip(volume as nat, 8, bits);
}

/// Every volume that is set lies in `0..=MAX_VOLUME`.
pub proof fn law_volume_range(bits: u32, percent: i32)
    ensures
        0 <= volume_of_float(bits) <= MAX_VOLUME,
        0 <= volume_of_percent(percent) <= MAX_VOLUME,
{
    if float_bits::exponent(bits) < 129 {
        float_bits::lemma_scaled_floor_bound(bits);
    }
}

/// The sample that comes out of a mixer has the sign of the one that goes in, and is the
/// rounded product over 256, cut towards zero and limited to the range of samples: 256 times
/// its magnitude is at most the product, and 256 times the next one is above, unless the
/// range ends there.
pub proof fn law_mixed_value(mixer: ChannelMixerState, s: i32)
    requires
        !mixer.mute,
        mixer.volume != 256,
    ensures
        ({
            let out = mixer.mixed(s);
            let size = if s < 0 { -s } else { s as int };
            let out_size = if out < 0 { -out } else { out };
            let product = float_bits::round24(
                float_bits::round24(size as nat) * mixer.volume as nat,
            );
            &&& s >= 0 ==> out >= 0
            &&& s <= 0 ==> out <= 0
            &&& 256 * out_size <= product
            &&& 256 * (out_size + 1) > product || out == i32::MAX || out == i32::MIN
            &&& i32::MIN <= out <= i32::MAX
        }),
{
    if s == 0 {
        float_bits::law_scaling_zero(s, mixer.volume);
    }
}

/// What two roundings can make of a product.
proof fn lemma_product_error(size: nat, volume: nat)
    requires
        volume <= 0xffff,
    ensures
        ({
            let p = float_bits::round24(float_bits::round24(size) * volume);
            &&& p * 0x40_0000 <= size * volume * 0x40_0001
            &&& p * 0x40_0000 >= size * volume * 0x3f_ffff
        }),
{
    let r = float_bits::round24(size);
    let q = r * volume;
    let p = float_bits::round24(q);
    let x = size * volume;
    float_bits::law_round24_error(size);
    float_bits::law_round24_error(q);
    assert(q * 0x100_0000 <= x * 0x100_0001 && q * 0x100_0000 >= x * 0xff_ffff) by (nonlinear_arith)
        requires
            r * 0x100_0000 <= size * 0x100_0001,
            r * 0x100_0000 >= size * 0xff_ffff,
            q == r * volume,
            x == size * volume,
            volume >= 0,
    ;
    assert(p * 0x100_0000 <= q * 0x100_0001 && p * 0x100_0000 >= q * 0xff_ffff);
    assert(x >= 0 && q >= 0);
    assert(p * 0x100_0000 * 0x100_0000 <= x * 0x100_0001 * 0x100_0001);
    assert(p * 0x100_0000 * 0x100_0000 >= x * 0xff_ffff * 0xff_ffff);
}

/// Volume is multiplication by `volume / 256`, for every sample: what comes out differs from
/// that by less than one step for the cut towards zero and one part in `2^22` for the
/// rounding, unless the range of samples ends before; and then too it is not larger than
/// that, but for the rounding.
pub proof fn law_volume_scales(mixer: ChannelMixerState, s: i32)
    requires
        !mixer.mute,
    ensures
        ({
            let out = mixer.mixed(s);
            let exact = s * mixer.volume;
            let size = if exact < 0 { -exact } else { exact };
            let out_size = if out < 0 { -out } else { out };
            let error = if 256 * out >= exact { 256 * out - exact } else { exact - 256 * out };
            &&& 256 * out_size * 0x40_0000 <= size * 0x40_0001
            &&& i32::MIN < out < i32::MAX ==> error * 0x40_0000 <= size + 256 * 0x40_0000
            &&& s >= 0 ==> out >= 0
            &&& s <= 0 ==> out <= 0
        }),
{
    let v = mixer.volume as nat;
    let m = float_bits::magnitude(s);
    assert(s * mixer.volume == if s < 0 {
        -(m * v)
    } else {
        (m * v) as int
    }) by (nonlinear_arith)
        requires
            m == if s < 0 {
                -s
            } else {
                s as int
            },
            v == mixer.volume,
    ;
    assert(m * v >= 0) by (nonlinear_arith)
        requires
            m >= 0,
            v >= 0,
    ;
    if mixer.volume == UNITY {
        assert(m * v == 256 * m) by (nonlinear_arith)
            requires
                v == 256,
        ;
    } else {
        law_mixed_value(mixer, s);
        lemma_product_error(m, v);
    }
}

/// Up to unity volume no sample becomes larger.
pub proof fn law_attenuation(mixer: ChannelMixerState, s: i32)
    requires
        mixer.volume <= 256,
    ensures
        s >= 0 ==> 0 <= mixer.mixed(s) <= s,
        s <= 0 ==> s <= mixer.mixed(s) <= 0,
{
    if !mixer.mute && mixer.volume != UNITY {
        let m = float_bits::magnitude(s);
        law_mixed_value(mixer, s);
        lemma_product_error(m, mixer.volume as nat);
        assert(m * mixer.volume <= m * 255) by (nonlinear_arith)
            requires
                mixer.volume <= 255,
                m >= 0,
        ;
    }
}

/// A louder sample does not come out as a quieter one: the mixer keeps the order of samples.
pub proof fn law_mixing_monotone(mixer: ChannelMixerState, a: i32, b: i32)
    requires
        a <= b,
    ensures
        mixer.mixed(a) <= mixer.mixed(b),
{
    if !mixer.mute && mixer.volume != UNITY {
        law_mixed_value(mixer, a);
        law_mixed_value(mixer, b);
        if a >= 0 {
            lemma_scaling_monotone(float_bits::magnitude(a), float_bits::magnitude(b), mixer.volume as nat);
        } else if b <= 0 {
            lemma_scaling_monotone(float_bits::magnitude(b), float_bits::magnitude(a), mixer.volume as nat);
        }
    }
}

/// Rounded products keep the order of their factors.
proof fn lemma_scaling_monotone(a: nat, b: nat, volume: nat)
    requires
        a <= b,
    ensures
        float_bits::round24(float_bits::round24(a) * volume) <= float_bits::round24(
            float_bits::round24(b) * volume,
        ),
{
    float_bits::law_round24_monotone(a, b);
    let x = float_bits::round24(a);
    let y = float_bits::round24(b);
    assert(x * volume <= y * volume) by (nonlinear_arith)
        requires
            x <= y,
            volume >= 0,
    ;
    float_bits::law_round24_monotone(x * volume, y * volume);
}

/// Signals above and below zero are treated alike: a sample and its negative come out as
/// each other's negatives, unless the range of samples ends between them.
pub proof fn law_mixing_symmetric(mixer: ChannelMixerState, s: i32)
    requires
        s != i32::MIN,
    ensures
        mixer.mixed((-s) as i32) == -mixer.mixed(s) || mixer.mixed(s) == i32::MAX || mixer.mixed(s)
            == i32::MIN,
{
    assert(float_bits::magnitude((-s) as i32) == float_bits::magnitude(s));
    if s == 0 {
        float_bits::law_scaling_zero(s, mixer.volume);
    }
}

/// A volume in percent is stored as `256 / 100` of it, cut to a whole number; below 0 it is
/// silence, and above 400 the largest volume.
pub proof fn law_percent_volume(v: i32)
    ensures
        v < 0 ==> volume_of_percent(v) == 0,
        v > 400 ==> volume_of_percent(v) == 1024,
        0 <= v <= 400 ==> 100 * volume_of_percent(v) <= 256 * v < 100 * (volume_of_percent(v) + 1),
{
}

/// A float volume is stored as 256 times its value, cut to a whole number: with the value
/// `m * 2^(w - 150)`, the stored volume times `2^(142 - w)` is at most `m`, and the next one
/// is above. From 4.0 on it is the largest volume; below zero, and for what is not a number,
/// it is silence.
pub proof fn law_float_volume(bits: u32)
    ensures
        ({
            let v = volume_of_float(bits);
            let e = (bits as int / 0x80_0000) % 256;
            let f = bits as int % 0x80_0000;
            let m = if e == 0 { f } else { f + 0x80_0000 };
            let w = if e == 0 { 1 } else { e };
            let u = vstd::arithmetic::power2::pow2((142 - w) as nat);
            &&& bits >= 0x8000_0000 || bits > 0x7f80_0000 ==> v == 0
            &&& 0x4080_0000 <= bits <= 0x7f80_0000 ==> v == 1024
            &&& bits < 0x4080_0000 ==> v * u <= m && m < (v + 1) * u
        }),
{
    float_bits::lemma_fields(bits);
    if bits < 0x4080_0000 {
        let w = float_bits::weight(bits);
        let m = float_bits::significand(bits);
        let u = vstd::arithmetic::power2::pow2((142 - w) as nat);
        vstd::arithmetic::power2::lemma_pow2_pos((142 - w) as nat);
        vstd::arithmetic::div_mod::lemma_fundamental_div_mod(m as int, u as int);
        let q = m as int / u as int;
        assert(q * u <= m && m < (q + 1) * u) by (nonlinear_arith)
            requires
                m == u * q + m as int % u as int,
                0 <= m as int % (u as int) < u,
        ;
    }
}

/// The float of a volume stands for exactly `volume / 256`: with the value
/// `m * 2^(e - 150)`, `m` is the volume times `2^(142 - e)`. Volume 0 is the positive zero.
pub proof fn law_volume_as_float(volume: u16, bits: u32)
    requires
        bits == float_bits::pattern(false, volume as nat, 8),
    ensures
        volume == 0 <==> bits == 0,
        volume != 0 ==> {
            let e = (bits as int / 0x80_0000) % 256;
            let m = bits as int % 0x80_0000 + 0x80_0000;
            &&& bits < 0x8000_0000
            &&& 0 < e <= 142
            &&& m == volume * vstd::arithmetic::power2::pow2((142 - e) as nat)
        },
{
    if volume != 0 {
        float_bits::lemma_pattern_is_exact(volume as nat, 8, bits);
    }
}

/// A reading sets what could be read, the volume in percent, and leaves what could not.
pub proof fn law_readings(state: ChannelMixerState, reading: ControlReading)
    ensures
        reading.mute matches Some(m) ==> state.updated(reading).mute == m,
        reading.mute is None ==> state.updated(reading).mute == state.mute,
        reading.volume is None ==> state.updated(reading).volume == state.volume,
        reading.volume matches Some(v) ==> {
            let out = state.updated(reading).volume;
            &&& v < 0 ==> out == 0
            &&& v > 400 ==> out == 1024
            &&& 0 <= v <= 400 ==> 100 * out <= 256 * v < 100 * (out + 1)
        },
{
}

/// Readings go to the channels in order; a channel without one stays as it is.
pub proof fn law_readings_in_order(
    mixers: Seq<ChannelMixerState>,
    readings: Seq<ControlReading>,
    i: int,
)
    requires
        0 <= i < mixers.len(),
    ensures
        all_updated(mixers, readings).len() == mixers.len(),
        i < readings.len() ==> all_updated(mixers, readings)[i] == mixers[i].updated(readings[i]),
        i >= readings.len() ==> all_updated(mixers, readings)[i] == mixers[i],
{
}

/// A new mixer has a channel for each one asked for, all of which leave samples unchanged.
pub proof fn law_new_mixers(mixers: Seq<ChannelMixerState>, n: nat, i: int, s: i32)
    requires
        at_unity(mixers, n),
        0 <= i < n || 0 <= i < mixers.len(),
    ensures
        mixers.len() == n,
        mixers[i].volume == 256,
        !mixers[i].mute,
        mixers[i].mixed(s) == s,
{
}

/// A card has mixer elements for the channels if its name is known and tells of the loopback
/// or the hardware, before and behind which anything may stand; and it is the loopback card
/// if it tells of that.
pub proof fn law_card_names(name: String, before: Seq<char>, behind: Seq<char>)
    ensures
        !may_have_elements(None),
        !is_known_loopback(None),
        name@ == before + "Loopback"@ + behind ==> is_known_loopback(Some(name))
            && may_have_elements(Some(name)),
        name@ == before + "RODECaster"@ + behind ==> may_have_elements(Some(name)),
        is_known_loopback(Some(name)) ==> text::occurs(name@, "Loopback"@),
        may_have_elements(Some(name)) ==> text::occurs(name@, "Loopback"@) || text::occurs(
            name@,
            "RODECaster"@,
        ),
{
    text::law_occurs(name@, "Loopback"@, before, behind);
    text::law_occurs(name@, "RODECaster"@, before, behind);
}

} // verus!
