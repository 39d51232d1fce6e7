//! USB Audio Class 2.0 descriptor parser.
//!
//! Reads USB interface descriptors to discover the audio streaming topology (endpoint
//! addresses, sample rates, channel counts) at runtime.
//!
//! Based on USB Device Class Definition for Audio Devices 2.0
//! (USB-IF, May 31, 2006, Revision 2.0).

use crate::audio_format;
use crate::text;
use vstd::prelude::*;

verus! {

/// Interface class of audio devices
pub const CLASS_AUDIO: u8 = 0x01;

/// Interface class of vendor-specific extensions
pub const CLASS_VENDOR: u8 = 0xFF;

/// Interface subclass of audio streams
pub const AUDIOSTREAMING: u8 = 0x03;

/// Descriptor type of class-specific interface descriptors
pub const CS_INTERFACE: u8 = 0x24;

/// Descriptor subtype of format descriptors
pub const FORMAT_TYPE: u8 = 0x02;

/// A USB endpoint, as its descriptor gives it
#[derive(Debug, Clone, Copy, PartialEq, Eq, Structural)]
pub struct EndpointDescriptor {
    /// USB endpoint address (0x8X = IN, 0x0X = OUT)
    pub address: u8,
    /// Maximum packet size (in bytes)
    pub max_packet_size: u16,
}

/// One alternate setting of a USB interface, as its descriptor gives it
#[derive(Debug, Clone)]
pub struct InterfaceDescriptor {
    pub class_code: u8,
    pub sub_class_code: u8,
    pub interface_number: u8,
    pub setting_number: u8,
    pub endpoints: Vec<EndpointDescriptor>,
    /// Class-specific descriptors that follow the interface descriptor
    pub extra: Vec<u8>,
    /// String of the terminal that the interface is linked to, where it is available
    pub terminal_name: Option<String>,
}

/// A parsed USB audio streaming endpoint
#[derive(Debug, Clone)]
pub struct AudioEndpoint {
    /// USB endpoint address (0x8X = IN, 0x0X = OUT)
    pub endpoint_address: u8,
    /// Maximum packet size (in bytes)
    pub max_packet_size: u16,
    /// Sample rate supported by this endpoint
    pub sample_rates: Vec<u32>,
    /// Audio channels per sample
    pub channels: u8,
    /// Bit resolution (16, 24, 32)
    pub bit_resolution: u8,
    /// Subslot size (bytes per audio subslot)
    pub subslot_size: u8,
}

/// A parsed USB audio streaming interface
#[derive(Debug, Clone)]
pub struct AudioStreamingInterface {
    /// Interface number
    pub interface_number: u8,
    /// Alternate setting that carries the active stream
    pub alt_setting: u8,
    /// Direction: "capture" (IN) or "playback" (OUT)
    pub direction: String,
    /// Is this a vendor-specific extension?
    pub is_vendor_specific: bool,
    /// Parsed audio endpoints on this interface
    pub endpoints: Vec<AudioEndpoint>,
}

/// Topology for one virtual audio channel discovered from USB descriptors
#[derive(Debug, Clone)]
pub struct DiscoveredChannel {
    /// Friendly name (derived from terminal descriptor strings if available)
    pub name: String,
    /// Direction: "capture" or "playback"
    pub direction: String,
    /// USB endpoint address for this channel
    pub endpoint_address: u8,
    /// Audio channels (1=mono, 2=stereo)
    pub audio_channels: u8,
    /// Supported sample rates
    pub sample_rates: Vec<u32>,
    /// Bit resolution
    pub bit_resolution: u8,
    /// Associated interface number
    pub interface_number: u8,
    /// Alternate setting for active streaming
    pub alt_setting: u8,
}

// ---------------------------------------------------------------------------
// Format descriptors
// ---------------------------------------------------------------------------

/// What a format descriptor says of a stream.
pub struct StreamFormat {
    pub sample_rates: Seq<u32>,
    pub channels: u8,
    pub bit_resolution: u8,
    pub subslot_size: u8,
}

/// The format of a stream whose descriptors do not tell it: stereo 48kHz 32-bit.
pub open spec fn default_stream_format() -> StreamFormat {
    StreamFormat { sample_rates: seq![48000], channels: 2, bit_resolution: 32, subslot_size: 4 }
}

/// The descriptor at `pos` is a format descriptor that is long enough to be read.
pub open spec fn is_format_at(extra: Seq<u8>, pos: int) -> bool {
    &&& extra[pos] >= 6
    &&& extra[pos + 1] == CS_INTERFACE
    &&& extra[pos + 2] == FORMAT_TYPE
}

/// Where the first format descriptor starts, in the chain of descriptors from `pos` on.
/// Each descriptor starts with its length; the chain ends where that is zero or leads
/// past the end.
pub open spec fn find_format(extra: Seq<u8>, pos: int) -> Option<int>
    decreases extra.len() - pos,
{
    if pos < 0 || pos + 3 > extra.len() {
        None
    } else if extra[pos] == 0 || pos + extra[pos] > extra.len() {
        None
    } else if is_format_at(extra, pos) {
        Some(pos)
    } else {
        find_format(extra, pos + extra[pos])
    }
}

/// The 32-bit number at `at`.
pub open spec fn rate_at(extra: Seq<u8>, at: int) -> u32 {
    audio_format::le32(extra.subrange(at, at + 4)) as u32
}

/// How many sample rates are listed in the format descriptor at `pos`: as many as it
/// announces, as far as they fit in it.
pub open spec fn listed_rates(extra: Seq<u8>, pos: int) -> int {
    let length = extra[pos] as int;
    if length < 8 {
        0
    } else if extra[pos + 7] as int <= (length - 8) / 4 {
        extra[pos + 7] as int
    } else {
        (length - 8) / 4
    }
}

/// The sample rates of the format descriptor at `pos`: those listed; else a single one, if
/// there are three bytes more for it; else 48kHz.
pub open spec fn rates_at(extra: Seq<u8>, pos: int) -> Seq<u32> {
    let n = listed_rates(extra, pos);
    if n > 0 {
        Seq::new(n as nat, |i: int| rate_at(extra, pos + 8 + 4 * i))
    } else if extra[pos] >= 11 {
        seq![rate_at(extra, pos + 8)]
    } else {
        seq![48000]
    }
}

/// The subslot size of the format descriptor at `pos`.
pub open spec fn subslot_at(extra: Seq<u8>, pos: int) -> u8 {
    if extra[pos] >= 7 {
        extra[pos + 5]
    } else {
        4
    }
}

/// What the format descriptor at `pos` says.
pub open spec fn format_at(extra: Seq<u8>, pos: int) -> StreamFormat {
    StreamFormat {
        sample_rates: rates_at(extra, pos),
        channels: extra[pos + 4],
        bit_resolution: if extra[pos] >= 8 {
            extra[pos + 6]
        } else {
            (subslot_at(extra, pos) * 8) as u8
        },
        subslot_size: subslot_at(extra, pos),
    }
}

/// What the class-specific descriptors of an interface say of its stream.
pub open spec fn stream_format(extra: Seq<u8>) -> StreamFormat {
    match find_format(extra, 0) {
        Some(pos) => format_at(extra, pos),
        None => default_stream_format(),
    }
}

/// The first format descriptor can be read: a resolution that has to be told from the
/// subslot size fits in a byte, and a single rate of which the descriptor holds three
/// bytes has a fourth.
pub open spec fn readable_descriptors(extra: Seq<u8>) -> bool {
    match find_format(extra, 0) {
        Some(pos) => {
            &&& extra[pos] == 7 ==> extra[pos + 5] < 32
            &&& extra[pos] == 11 ==> pos + 12 <= extra.len()
        },
        None => true,
    }
}

/// A format descriptor that is found lies within the bytes.
proof fn lemma_found_within(extra: Seq<u8>, pos: int)
    requires
        0 <= pos,
        find_format(extra, pos) is Some,
    ensures
        ({
            let p = find_format(extra, pos)->Some_0;
            pos <= p && p + 3 <= extra.len() && p + extra[p] <= extra.len() && is_format_at(
                extra,
                p,
            )
        }),
    decreases extra.len() - pos,
{
    if !is_format_at(extra, pos) {
        lemma_found_within(extra, pos + extra[pos]);
    }
}

/// Where the first format descriptor starts.
fn locate_format(extra: &[u8]) -> (r: Option<usize>)
    ensures
        match r {
            Some(p) => find_format(extra@, 0) == Some(p as int),
            None => find_format(extra@, 0) is None,
        },
{
    let len: usize = extra.len();
    let mut pos: usize = 0;
    while len >= 3 && pos <= len - 3
        invariant
            len == extra@.len(),
            pos <= len,
            find_format(extra@, 0) == find_format(extra@, pos as int),
        decreases len - pos,
    {
        let length: usize = extra[pos] as usize;
        if length == 0 || length > len - pos {
            return None;
        }
        if extra[pos + 1] == CS_INTERFACE && extra[pos + 2] == FORMAT_TYPE && length >= 6 {
            return Some(pos);
        }
        pos = pos + length;
    }
    None
}

/// Tells whether the first format descriptor can be read.
pub fn has_readable_descriptors(extra: &[u8]) -> (r: bool)
    ensures
        r == readable_descriptors(extra@),
{
    match locate_format(extra) {
        None => true,
        Some(pos) => {
            proof {
                lemma_found_within(extra@, 0);
            }
            let len: usize = extra.len();
            if extra[pos] == 7 && extra[pos + 5] >= 32 {
                false
            } else {
                extra[pos] != 11 || len - pos >= 12
            }
        },
    }
}

/// Parse the USB Audio 2.0 Type I Format Descriptor from extra bytes
/// Returns (sample_rates, channels, bit_resolution, subslot_size)
pub fn parse_format_descriptor(extra: &[u8]) -> (r: (Vec<u32>, u8, u8, u8))
    requires
        readable_descriptors(extra@),
    ensures
        (StreamFormat {
            sample_rates: r.0@,
            channels: r.1,
            bit_resolution: r.2,
            subslot_size: r.3,
        }) == stream_format(extra@),
{
    match locate_format(extra) {
        None => {
            // Default to stereo 48kHz 32-bit if we can't parse
            let rates: Vec<u32> = vec![48000];
            assert(rates@ =~= seq![48000u32]);
            (rates, 2, 32, 4)
        },
        Some(pos) => {
            proof {
                lemma_found_within(extra@, 0);
            }
            let len: usize = extra.len();
            let length: usize = extra[pos] as usize;
            let channels: u8 = extra[pos + 4];
            let subslot_size: u8 = if length >= 7 {
                extra[pos + 5]
            } else {
                4
            };
            let bit_resolution: u8 = if length >= 8 {
                extra[pos + 6]
            } else {
                subslot_size * 8
            };
            let sample_rates: Vec<u32> = parse_rates(extra, pos);
            (sample_rates, channels, bit_resolution, subslot_size)
        },
    }
}

/// The sample rates of the format descriptor at `pos`.
fn parse_rates(extra: &[u8], pos: usize) -> (r: Vec<u32>)
    requires
        pos + 6 <= extra@.len(),
        pos + extra@[pos as int] <= extra@.len(),
        extra@[pos as int] == 11 ==> pos + 12 <= extra@.len(),
    ensures
        r@ == rates_at(extra@, pos as int),
{
    let len: usize = extra.len();
    let length: usize = extra[pos] as usize;
    let mut sample_rates: Vec<u32> = Vec::new();
    if length >= 8 {
        let num_rates: usize = extra[pos + 7] as usize;
        let end: usize = pos + length;
        let mut data_pos: usize = pos + 8;
        while sample_rates.len() < num_rates && end - data_pos >= 4
            invariant
                len == extra@.len(),
                end == pos + length,
                end <= len,
                length == extra@[pos as int],
                length >= 8,
                num_rates == extra@[pos + 7],
                sample_rates@.len() <= num_rates,
                data_pos == pos + 8 + 4 * sample_rates@.len(),
                data_pos <= end,
                forall|i: int|
                    0 <= i < sample_rates@.len() ==> #[trigger] sample_rates@[i] == rate_at(
                        extra@,
                        pos + 8 + 4 * i,
                    ),
            decreases end - data_pos,
        {
            sample_rates.push(audio_format::read_le32(extra, data_pos));
            data_pos = data_pos + 4;
        }
        assert(sample_rates@.len() == listed_rates(extra@, pos as int));
        if sample_rates.len() == 0 && length >= 11 {
            // Single fixed rate
            sample_rates.push(audio_format::read_le32(extra, pos + 8));
        }
    }
    if sample_rates.len() == 0 {
        sample_rates.push(48000);
    }
    assert(sample_rates@ =~= rates_at(extra@, pos as int));
    sample_rates
}

// ---------------------------------------------------------------------------
// Topology
// ---------------------------------------------------------------------------

/// A discovered channel, with its texts and rates as sequences.
pub struct ChannelTopology {
    pub name: Seq<char>,
    pub direction: Seq<char>,
    pub endpoint_address: u8,
    pub audio_channels: u8,
    pub sample_rates: Seq<u32>,
    pub bit_resolution: u8,
    pub interface_number: u8,
    pub alt_setting: u8,
}

impl View for DiscoveredChannel {
    type V = ChannelTopology;

    open spec fn view(&self) -> ChannelTopology {
        ChannelTopology {
            name: self.name@,
            direction: self.direction@,
            endpoint_address: self.endpoint_address,
            audio_channels: self.audio_channels,
            sample_rates: self.sample_rates@,
            bit_resolution: self.bit_resolution,
            interface_number: self.interface_number,
            alt_setting: self.alt_setting,
        }
    }
}

/// The endpoint moves data from the device to the host.
pub open spec fn is_in_endpoint(address: u8) -> bool {
    address >= 0x80
}

/// The interface carries audio streams: it is of the audio class, or a vendor-specific
/// extension, and of the streaming subclass.
pub open spec fn streams_audio(d: InterfaceDescriptor) -> bool {
    (d.class_code == CLASS_AUDIO || d.class_code == CLASS_VENDOR) && d.sub_class_code
        == AUDIOSTREAMING
}

/// The name of a channel: the string of its terminal, where that is available, else one
/// made of its direction and endpoint address.
pub open spec fn channel_name(terminal_name: Option<String>, address: u8) -> Seq<char> {
    match terminal_name {
        Some(name) => name@,
        None => (if is_in_endpoint(address) {
            "Capture "@
        } else {
            "Playback "@
        }) + text::hex2(address),
    }
}

/// The channel that an endpoint of a streaming interface stands for.
pub open spec fn channel_of(d: InterfaceDescriptor, ep: EndpointDescriptor) -> ChannelTopology {
    let format = stream_format(d.extra@);
    ChannelTopology {
        name: channel_name(d.terminal_name, ep.address),
        direction: if is_in_endpoint(ep.address) {
            "capture"@
        } else {
            "playback"@
        },
        endpoint_address: ep.address,
        audio_channels: format.channels,
        sample_rates: format.sample_rates,
        bit_resolution: format.bit_resolution,
        interface_number: d.interface_number,
        alt_setting: d.setting_number,
    }
}

/// The channels of one interface, an endpoint each.
pub open spec fn channels_of(d: InterfaceDescriptor) -> Seq<ChannelTopology> {
    if streams_audio(d) {
        Seq::new(d.endpoints@.len(), |k: int| channel_of(d, d.endpoints@[k]))
    } else {
        Seq::empty()
    }
}

/// The channels of all interfaces, in the order of the interfaces.
pub open spec fn topology(interfaces: Seq<InterfaceDescriptor>) -> Seq<ChannelTopology>
    decreases interfaces.len(),
{
    if interfaces.len() == 0 {
        Seq::empty()
    } else {
        topology(interfaces.drop_last()) + channels_of(interfaces.last())
    }
}

/// The descriptors of an interface can be read, as far as its endpoints need them.
pub open spec fn readable_interface(d: InterfaceDescriptor) -> bool {
    streams_audio(d) && d.endpoints@.len() > 0 ==> readable_descriptors(d.extra@)
}

/// Tells whether the descriptors of an interface can be read, as far as needed.
pub fn is_readable_interface(d: &InterfaceDescriptor) -> (r: bool)
    ensures
        r == readable_interface(*d),
{
    !is_audio_streaming(d) || d.endpoints.len() == 0 || has_readable_descriptors(
        d.extra.as_slice(),
    )
}

/// Tells whether the interface carries audio streams.
pub fn is_audio_streaming(d: &InterfaceDescriptor) -> (r: bool)
    ensures
        r == streams_audio(*d),
{
    (d.class_code == CLASS_AUDIO || d.class_code == CLASS_VENDOR) && d.sub_class_code
        == AUDIOSTREAMING
}

/// What is known of an endpoint of a streaming interface.
pub fn audio_endpoint(d: &InterfaceDescriptor, ep: &EndpointDescriptor) -> (r: AudioEndpoint)
    requires
        readable_descriptors(d.extra@),
    ensures
        r.endpoint_address == ep.address,
        r.max_packet_size == ep.max_packet_size,
        (StreamFormat {
            sample_rates: r.sample_rates@,
            channels: r.channels,
            bit_resolution: r.bit_resolution,
            subslot_size: r.subslot_size,
        }) == stream_format(d.extra@),
{
    let (sample_rates, channels, bit_resolution, subslot_size) = parse_format_descriptor(
        d.extra.as_slice(),
    );
    AudioEndpoint {
        endpoint_address: ep.address,
        max_packet_size: ep.max_packet_size,
        sample_rates,
        channels,
        bit_resolution,
        subslot_size,
    }
}

/// The channel that an endpoint of a streaming interface stands for.
fn discovered_channel(d: &InterfaceDescriptor, ep: AudioEndpoint) -> (r: DiscoveredChannel)
    requires
        (StreamFormat {
            sample_rates: ep.sample_rates@,
            channels: ep.channels,
            bit_resolution: ep.bit_resolution,
            subslot_size: ep.subslot_size,
        }) == stream_format(d.extra@),
    ensures
        r@ == channel_of(
            *d,
            EndpointDescriptor {
                address: ep.endpoint_address,
                max_packet_size: ep.max_packet_size,
            },
        ),
{
    // IN endpoint: device to host; OUT endpoint: host to device
    let is_in: bool = ep.endpoint_address >= 0x80;
    let name: String = match &d.terminal_name {
        Some(name) => name.clone(),
        None => {
            let mut name: String = (if is_in {
                "Capture "
            } else {
                "Playback "
            }).to_owned();
            text::append_hex2(&mut name, ep.endpoint_address);
            name
        },
    };
    DiscoveredChannel {
        name,
        direction: (if is_in {
            "capture"
        } else {
            "playback"
        }).to_owned(),
        endpoint_address: ep.endpoint_address,
        audio_channels: ep.channels,
        sample_rates: ep.sample_rates,
        bit_resolution: ep.bit_resolution,
        interface_number: d.interface_number,
        alt_setting: d.setting_number,
    }
}

/// The channels have the views in `model`, one by one.
pub open spec fn views_are(
    channels: Seq<DiscoveredChannel>,
    model: Seq<ChannelTopology>,
) -> bool {
    &&& channels.len() == model.len()
    &&& forall|i: int| 0 <= i < model.len() ==> (#[trigger] channels[i])@ == model[i]
}

/// Parse all audio streaming interfaces of a USB device
pub fn parse_audio_topology(interfaces: &[InterfaceDescriptor]) -> (r: Vec<DiscoveredChannel>)
    requires
        forall|i: int|
            0 <= i < interfaces@.len() ==> readable_interface(#[trigger] interfaces@[i]),
    ensures
        views_are(r@, topology(interfaces@)),
{
    let mut channels: Vec<DiscoveredChannel> = Vec::new();
    let mut i: usize = 0;
    while i < interfaces.len()
        invariant
            i <= interfaces@.len(),
            forall|k: int|
                0 <= k < interfaces@.len() ==> readable_interface(#[trigger] interfaces@[k]),
            views_are(channels@, topology(interfaces@.take(i as int))),
        decreases interfaces@.len() - i,
    {
        let d: &InterfaceDescriptor = &interfaces[i];
        let ghost before = topology(interfaces@.take(i as int));
        proof {
            assert(interfaces@.take(i + 1).drop_last() =~= interfaces@.take(i as int));
            assert(interfaces@.take(i + 1).last() == *d);
        }
        if is_audio_streaming(d) {
            let mut k: usize = 0;
            assert(before + channels_of(*d).take(0) =~= before);
            while k < d.endpoints.len()
                invariant
                    k <= d.endpoints@.len(),
                    streams_audio(*d),
                    readable_interface(*d),
                    views_are(channels@, before + channels_of(*d).take(k as int)),
                decreases d.endpoints@.len() - k,
            {
                let ep: AudioEndpoint = audio_endpoint(d, &d.endpoints[k]);
                channels.push(discovered_channel(d, ep));
                proof {
                    let c = channels_of(*d);
                    assert(before + c.take(k + 1) =~= (before + c.take(k as int)).push(c[k as int]));
                    assert(channels@.last()@ == c[k as int]);
                }
                k = k + 1;
            }
            assert(channels_of(*d).take(k as int) =~= channels_of(*d));
        } else {
            assert(before + channels_of(*d) =~= before);
        }
        i = i + 1;
    }
    assert(interfaces@.take(i as int) =~= interfaces@);
    channels
}

// ---------------------------------------------------------------------------
// Laws
// ---------------------------------------------------------------------------

/// Every discovered channel supports at least one sample rate, and is a capture channel
/// exactly when its endpoint is an IN endpoint.
pub proof fn law_discovered_channels(interfaces: Seq<InterfaceDescriptor>, i: int)
    requires
        0 <= i < topology(interfaces).len(),
    ensures
        topology(interfaces)[i].sample_rates.len() > 0,
        topology(interfaces)[i].direction == "capture"@ <==> is_in_endpoint(
            topology(interfaces)[i].endpoint_address,
        ),
        topology(interfaces)[i].direction == "playback"@ <==> !is_in_endpoint(
            topology(interfaces)[i].endpoint_address,
        ),
    decreases interfaces.len(),
{
    reveal_strlit("capture");
    reveal_strlit("playback");
    assert("capture"@.len() != "playback"@.len());
    let rest = interfaces.drop_last();
    if i < topology(rest).len() {
        law_discovered_channels(rest, i);
    } else {
        let d = interfaces.last();
        let k = i - topology(rest).len();
        assert(topology(interfaces)[i] == channel_of(d, d.endpoints@[k]));
        if find_format(d.extra@, 0) is Some {
            lemma_found_within(d.extra@, 0);
        }
    }
}

/// How many endpoints the streaming interfaces have.
pub open spec fn streaming_endpoints(interfaces: Seq<InterfaceDescriptor>) -> nat
    decreases interfaces.len(),
{
    if interfaces.len() == 0 {
        0
    } else {
        streaming_endpoints(interfaces.drop_last()) + if streams_audio(interfaces.last()) {
            interfaces.last().endpoints@.len()
        } else {
            0
        }
    }
}

/// There is one channel for every endpoint of every streaming interface, and none
/// otherwise.
pub proof fn law_channel_per_endpoint(interfaces: Seq<InterfaceDescriptor>)
    ensures
        topology(interfaces).len() == streaming_endpoints(interfaces),
    decreases interfaces.len(),
{
    if interfaces.len() > 0 {
        law_channel_per_endpoint(interfaces.drop_last());
    }
}

/// Where no descriptor can be read, because fewer than three bytes are there or the first one
/// has no length or leads past the end, the stream is taken for stereo, 48kHz, 32-bit.
pub proof fn law_no_descriptor(extra: Seq<u8>)
    requires
        extra.len() < 3 || extra[0] == 0 || extra[0] > extra.len(),
    ensures
        stream_format(extra).sample_rates == seq![48000u32],
        stream_format(extra).channels == 2,
        stream_format(extra).bit_resolution == 32,
        stream_format(extra).subslot_size == 4,
        readable_descriptors(extra),
{
}

/// The format descriptor that is found behind some bytes is found at its place among what
/// follows them.
proof fn lemma_find_behind(extra: Seq<u8>, by: int, pos: int)
    requires
        0 <= by <= extra.len(),
        pos >= 0,
    ensures
        match find_format(extra.skip(by), pos) {
            Some(p) => find_format(extra, by + pos) == Some(by + p),
            None => find_format(extra, by + pos) is None,
        },
    decreases extra.len() - pos,
{
    let rest = extra.skip(by);
    if pos + 3 <= rest.len() {
        assert(rest[pos] == extra[by + pos]);
        assert(rest[pos + 1] == extra[by + pos + 1]);
        assert(rest[pos + 2] == extra[by + pos + 2]);
        if rest[pos] != 0 && pos + rest[pos] <= rest.len() && !is_format_at(rest, pos) {
            lemma_find_behind(extra, by, pos + rest[pos]);
        }
    }
}

/// A descriptor that is not a format descriptor, or too short for one, is passed over: the
/// bytes behind it tell the format.
pub proof fn law_other_descriptors_are_skipped(extra: Seq<u8>)
    requires
        extra.len() >= 3,
        0 < extra[0] <= extra.len(),
        !(extra[0] >= 6 && extra[1] == 0x24 && extra[2] == 0x02),
    ensures
        readable_descriptors(extra) == readable_descriptors(extra.skip(extra[0] as int)),
        readable_descriptors(extra) ==> stream_format(extra) == stream_format(
            extra.skip(extra[0] as int),
        ),
{
    let by = extra[0] as int;
    let rest = extra.skip(by);
    lemma_find_behind(extra, by, 0);
    assert(find_format(extra, 0) == find_format(extra, by));
    if let Some(p) = find_format(rest, 0) {
        lemma_found_within(rest, 0);
        let q = by + p;
        let length = rest[p] as int;
        assert forall|k: int| 0 <= k && p + k < rest.len() implies #[trigger] rest[p + k] == extra[q
            + k] by {}
        assert(rest[p + 0] == extra[q + 0]);
        assert(rest[p + 4] == extra[q + 4] && rest[p + 5] == extra[q + 5]);
        if length >= 8 {
            assert(rest[p + 6] == extra[q + 6] && rest[p + 7] == extra[q + 7]);
        }
        if readable_descriptors(extra) {
            let n = listed_rates(rest, p);
            assert(n == listed_rates(extra, q));
            assert forall|i: int| 0 <= i < n implies rate_at(rest, #[trigger] (p + 8 + 4 * i)) == rate_at(
                extra,
                q + 8 + 4 * i,
            ) by {
                let at = p + 8 + 4 * i;
                assert(at + 4 <= p + length);
                assert(rest.subrange(at, at + 4) =~= extra.subrange(by + at, by + at + 4));
            }
            if n == 0 && length >= 11 {
                let at = p + 8;
                assert(rest.subrange(at, at + 4) =~= extra.subrange(by + at, by + at + 4));
            }
            assert(rates_at(rest, p) =~= rates_at(extra, q));
        }
    }
}

/// A format descriptor of six bytes or more tells the channels in its fifth byte, the subslot
/// size in its sixth and the resolution in its seventh, as far as it is long enough for these
/// and one byte more; else the subslot is 4 bytes, and the resolution that of the subslot.
pub proof fn law_format_descriptor(extra: Seq<u8>)
    requires
        extra.len() >= 3,
        6 <= extra[0] <= extra.len(),
        extra[1] == 0x24,
        extra[2] == 0x02,
        readable_descriptors(extra),
    ensures
        ({
            let f = stream_format(extra);
            let length = extra[0];
            &&& f.channels == extra[4]
            &&& f.subslot_size == if length >= 7 {
                extra[5]
            } else {
                4
            }
            &&& length >= 8 ==> f.bit_resolution == extra[6]
            &&& length == 7 ==> f.bit_resolution == 8 * extra[5]
            &&& length == 6 ==> f.bit_resolution == 32
        }),
{
    assert(find_format(extra, 0) == Some(0int));
}

/// The sample rates of a format descriptor are all that it lists: as many as its eighth byte
/// announces, or, where it ends before, as many as fit in it. `count` is that number; rate
/// `i` is the little-endian number in the four bytes from `8 + 4 i` on. Where none is listed
/// there is a single rate in the same place, if three bytes are left for it, and else it is
/// 48kHz.
pub proof fn law_all_listed_rates(extra: Seq<u8>, count: int)
    requires
        extra.len() >= 3,
        6 <= extra[0] <= extra.len(),
        extra[1] == 0x24,
        extra[2] == 0x02,
        readable_descriptors(extra),
        count >= 0,
        extra[0] < 8 ==> count == 0,
        extra[0] >= 8 ==> {
            &&& count <= extra[7]
            &&& 8 + 4 * count <= extra[0]
            &&& count == extra[7] || extra[0] < 12 + 4 * count
        },
    ensures
        count > 0 ==> {
            &&& stream_format(extra).sample_rates.len() == count
            &&& forall|i: int|
                0 <= i < count ==> #[trigger] stream_format(extra).sample_rates[i] == extra[8 + 4
                    * i] + 0x100 * extra[9 + 4 * i] + 0x1_0000 * extra[10 + 4 * i] + 0x100_0000
                    * extra[11 + 4 * i]
        },
        count == 0 && extra[0] >= 11 ==> {
            &&& stream_format(extra).sample_rates.len() == 1
            &&& stream_format(extra).sample_rates[0] == extra[8] + 0x100 * extra[9] + 0x1_0000
                * extra[10] + 0x100_0000 * extra[11]
        },
        count == 0 && extra[0] < 11 ==> stream_format(extra).sample_rates == seq![48000u32],
{
    assert(find_format(extra, 0) == Some(0int));
    assert(listed_rates(extra, 0) == count);
    let rates = stream_format(extra).sample_rates;
    assert(rates == rates_at(extra, 0));
    if count > 0 {
        assert forall|i: int| 0 <= i < count implies #[trigger] rates[i] == extra[8 + 4 * i] + 0x100
            * extra[9 + 4 * i] + 0x1_0000 * extra[10 + 4 * i] + 0x100_0000 * extra[11 + 4 * i] by {
            assert(rates[i] == rate_at(extra, 8 + 4 * i));
            let b = extra.subrange(8 + 4 * i, 8 + 4 * i + 4);
            assert(b[0] == extra[8 + 4 * i] && b[1] == extra[9 + 4 * i] && b[2] == extra[10 + 4 * i]
                && b[3] == extra[11 + 4 * i]);
        }
    } else if extra[0] >= 11 {
        let b = extra.subrange(8, 12);
        assert(rates[0] == rate_at(extra, 8));
        assert(b[0] == extra[8] && b[1] == extra[9] && b[2] == extra[10] && b[3] == extra[11]);
    }
}

/// The channels of two groups of interfaces are those of the one followed by those of the
/// other.
pub proof fn law_topology_in_order(a: Seq<InterfaceDescriptor>, b: Seq<InterfaceDescriptor>)
    ensures
        topology(a + b) == topology(a) + topology(b),
        topology(Seq::<InterfaceDescriptor>::empty()).len() == 0,
    decreases b.len(),
{
    if b.len() == 0 {
        assert(a + b =~= a);
        assert(topology(a) + topology(b) =~= topology(a));
    } else {
        law_topology_in_order(a, b.drop_last());
        assert((a + b).drop_last() =~= a + b.drop_last());
        assert((a + b).last() == b.last());
        assert(topology(a + b) =~= topology(a) + topology(b));
    }
}

/// An interface of the audio class, or a vendor-specific one, with the streaming subclass has
/// a channel for each of its endpoints, and any other interface has none. The channel takes
/// its direction from the highest bit of the endpoint address, its format from the
/// descriptors of the interface, and its name from the terminal where that has one.
pub proof fn law_interface_channels(d: InterfaceDescriptor, k: int)
    ensures
        ({
            let t = topology(seq![d]);
            let streaming = (d.class_code == 0x01 || d.class_code == 0xff) && d.sub_class_code == 0x03;
            &&& !streaming ==> t.len() == 0
            &&& streaming ==> t.len() == d.endpoints@.len()
            &&& streaming && 0 <= k < d.endpoints@.len() ==> {
                let address = d.endpoints@[k].address;
                let c = t[k];
                &&& c.endpoint_address == address
                &&& c.interface_number == d.interface_number
                &&& c.alt_setting == d.setting_number
                &&& c.audio_channels == stream_format(d.extra@).channels
                &&& c.sample_rates == stream_format(d.extra@).sample_rates
                &&& c.bit_resolution == stream_format(d.extra@).bit_resolution
                &&& address >= 0x80 ==> c.direction == "capture"@
                &&& address < 0x80 ==> c.direction == "playback"@
                &&& d.terminal_name matches Some(n) ==> c.name == n@
                &&& d.terminal_name is None && address >= 0x80 ==> c.name == "Capture "@
                    + text::hex2(address)
                &&& d.terminal_name is None && address < 0x80 ==> c.name == "Playback "@
                    + text::hex2(address)
            }
        }),
{
    reveal_with_fuel(topology, 2);
    let s = seq![d];
    assert(s.drop_last() =~= Seq::<InterfaceDescriptor>::empty());
    assert(s.last() == d);
    assert(topology(s) =~= channels_of(d));
}

/// What is said of discovered channels is said of their own fields, one by one.
pub proof fn law_channel_fields(
    channels: Seq<DiscoveredChannel>,
    model: Seq<ChannelTopology>,
    i: int,
)
    requires
        views_are(channels, model),
        0 <= i < channels.len() || 0 <= i < model.len(),
    ensures
        channels.len() == model.len(),
        channels[i].name@ == model[i].name,
        channels[i].direction@ == model[i].direction,
        channels[i].endpoint_address == model[i].endpoint_address,
        channels[i].audio_channels == model[i].audio_channels,
        channels[i].sample_rates@ == model[i].sample_rates,
        channels[i].bit_resolution == model[i].bit_resolution,
        channels[i].interface_number == model[i].interface_number,
        channels[i].alt_setting == model[i].alt_setting,
{
    assert(channels[i]@ == model[i]);
}

/// A format descriptor can be read unless it has seven bytes and a subslot of 32 bytes or
/// more, or eleven bytes and nothing behind it. Descriptors are read only of interfaces that
/// carry audio streams and have endpoints.
pub proof fn law_readable(extra: Seq<u8>, d: InterfaceDescriptor)
    ensures
        extra.len() >= 3 && 6 <= extra[0] <= extra.len() && extra[1] == 0x24 && extra[2] == 0x02
            ==> (readable_descriptors(extra) <==> !(extra[0] == 7 && extra[5] >= 32) && !(extra[0]
            == 11 && extra.len() == 11)),
        d.endpoints@.len() == 0 ==> readable_interface(d),
        d.sub_class_code != 0x03 ==> readable_interface(d),
        d.class_code != 0x01 && d.class_code != 0xff ==> readable_interface(d),
        readable_descriptors(d.extra@) ==> readable_interface(d),
{
}

} // verus!
