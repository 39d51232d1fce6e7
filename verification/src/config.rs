//! Configuration for the RODECaster Virtual Audio Device.
//!
//! Describes the capture and playback channels of the hardware as ALSA PCM devices.

use vstd::prelude::*;

verus! {

/// Top-level daemon configuration
#[derive(Debug, Clone)]
pub struct VadConfig {
    /// Number of audio frames per period (pull-mode equivalent)
    pub period_frames: u32,
    /// Number of periods in the ring buffer
    pub num_periods: u32,
    /// Default sample rate
    pub sample_rate: u32,
    /// RODE USB vendor ID
    pub rode_vendor_id: u16,
    /// Capture (input) channel definitions
    pub capture_channels: Vec<ChannelConfig>,
    /// Playback (output) channel definitions
    pub playback_channels: Vec<ChannelConfig>,
    /// ALSA device name prefix for virtual devices
    pub alsa_device_prefix: String,
    /// Shared memory directory
    pub shm_dir: String,
}

/// Per-channel audio configuration
#[derive(Debug, Clone)]
pub struct ChannelConfig {
    /// Human-readable name (e.g., "System In", "Music Out")
    pub name: String,
    /// ALSA PCM ID (unique per direction, e.g., "System", "Music")
    pub alsa_id: String,
    /// Number of audio channels (1=mono, 2=stereo)
    pub channels: u16,
    /// Direction: capture or playback
    pub direction: ChannelDirection,
}

#[derive(Debug, Clone, Copy, PartialEq, Eq, Structural)]
pub enum ChannelDirection {
    Capture,
    Playback,
}

// ---------------------------------------------------------------------------
// Default values
// ---------------------------------------------------------------------------

pub fn default_period_frames() -> (r: u32)
    ensures
        r == 256,
{
    256
}

pub fn default_num_periods() -> (r: u32)
    ensures
        r == 4,
{
    4
}

pub fn default_sample_rate() -> (r: u32)
    ensures
        r == 48000,
{
    48000
}

/// RODE Microphones
pub fn default_vendor_id() -> (r: u16)
    ensures
        r == 0x19F7,
{
    0x19F7
}

pub fn default_alsa_prefix() -> (r: String)
    ensures
        r@ == "RODECaster"@,
{
    "RODECaster".to_owned()
}

pub fn default_shm_dir() -> (r: String)
    ensures
        r@ == "/dev/shm"@,
{
    "/dev/shm".to_owned()
}

pub fn default_channels() -> (r: u16)
    ensures
        r == 2,
{
    2
}

// ---------------------------------------------------------------------------
// Channels
// ---------------------------------------------------------------------------

/// Name and ALSA PCM ID of each capture channel, in order.
pub open spec fn capture_table() -> Seq<(Seq<char>, Seq<char>)> {
    seq![
        ("System In"@, "System"@),
        ("Combo 1 In"@, "Combo1"@),
        ("Combo 2 In"@, "Combo2"@),
        ("Combo 3 In"@, "Combo3"@),
        ("Combo 4 In"@, "Combo4"@),
        ("Bluetooth In"@, "Bluetooth"@),
        ("Smart Pads In"@, "SmartPads"@),
        ("USB1 Main In"@, "USB1Main"@),
        ("USB1 Chat In"@, "USB1Chat"@),
        ("USB2 In"@, "USB2"@),
        ("Headset In"@, "Headset"@),
    ]
}

/// Name and ALSA PCM ID of each playback channel, in order.
pub open spec fn playback_table() -> Seq<(Seq<char>, Seq<char>)> {
    seq![
        ("System Out"@, "System"@),
        ("Music Out"@, "Music"@),
        ("Game Out"@, "Game"@),
        ("Virtual A Out"@, "VirtualA"@),
        ("Virtual B Out"@, "VirtualB"@),
    ]
}

/// The channels are those of the table, in its order, all stereo and in one direction.
pub open spec fn is_channel_set(
    channels: Seq<ChannelConfig>,
    table: Seq<(Seq<char>, Seq<char>)>,
    direction: ChannelDirection,
) -> bool {
    &&& channels.len() == table.len()
    &&& forall|i: int|
        0 <= i < table.len() ==> {
            &&& (#[trigger] channels[i]).name@ == table[i].0
            &&& channels[i].alsa_id@ == table[i].1
            &&& channels[i].channels == 2
            &&& channels[i].direction == direction
        }
}

/// A stereo channel.
fn channel(name: &str, alsa_id: &str, direction: ChannelDirection) -> (r: ChannelConfig)
    ensures
        r.name@ == name@,
        r.alsa_id@ == alsa_id@,
        r.channels == 2,
        r.direction == direction,
{
    ChannelConfig { name: name.to_owned(), alsa_id: alsa_id.to_owned(), channels: 2, direction }
}

/// Build the 11 capture channel definitions
pub fn build_capture_channels() -> (r: Vec<ChannelConfig>)
    ensures
        is_channel_set(r@, capture_table(), ChannelDirection::Capture),
{
    let mut r: Vec<ChannelConfig> = Vec::new();
    r.push(channel("System In", "System", ChannelDirection::Capture));
    r.push(channel("Combo 1 In", "Combo1", ChannelDirection::Capture));
    r.push(channel("Combo 2 In", "Combo2", ChannelDirection::Capture));
    r.push(channel("Combo 3 In", "Combo3", ChannelDirection::Capture));
    r.push(channel("Combo 4 In", "Combo4", ChannelDirection::Capture));
    r.push(channel("Bluetooth In", "Bluetooth", ChannelDirection::Capture));
    r.push(channel("Smart Pads In", "SmartPads", ChannelDirection::Capture));
    r.push(channel("USB1 Main In", "USB1Main", ChannelDirection::Capture));
    r.push(channel("USB1 Chat In", "USB1Chat", ChannelDirection::Capture));
    r.push(channel("USB2 In", "USB2", ChannelDirection::Capture));
    r.push(channel("Headset In", "Headset", ChannelDirection::Capture));
    r
}

/// Build the 5 playback channel definitions
pub fn build_playback_channels() -> (r: Vec<ChannelConfig>)
    ensures
        is_channel_set(r@, playback_table(), ChannelDirection::Playback),
{
    let mut r: Vec<ChannelConfig> = Vec::new();
    r.push(channel("System Out", "System", ChannelDirection::Playback));
    r.push(channel("Music Out", "Music", ChannelDirection::Playback));
    r.push(channel("Game Out", "Game", ChannelDirection::Playback));
    r.push(channel("Virtual A Out", "VirtualA", ChannelDirection::Playback));
    r.push(channel("Virtual B Out", "VirtualB", ChannelDirection::Playback));
    r
}

impl VadConfig {
    /// The built-in configuration.
    pub open spec fn is_default(&self) -> bool {
        &&& self.period_frames == 256
        &&& self.num_periods == 4
        &&& self.sample_rate == 48000
        &&& self.rode_vendor_id == 0x19F7
        &&& is_channel_set(
            self.capture_channels@,
            capture_table(),
            ChannelDirection::Capture,
        )
        &&& is_channel_set(
            self.playback_channels@,
            playback_table(),
            ChannelDirection::Playback,
        )
        &&& self.alsa_device_prefix@ == "RODECaster"@
        &&& self.shm_dir@ == "/dev/shm"@
    }

    /// What `populate_channels` makes of a configuration.
    pub open spec fn populated_from(&self, before: &VadConfig) -> bool {
        &&& self.period_frames == before.period_frames
        &&& self.num_periods == before.num_periods
        &&& self.sample_rate == before.sample_rate
        &&& self.rode_vendor_id == before.rode_vendor_id
        &&& self.alsa_device_prefix == before.alsa_device_prefix
        &&& self.shm_dir == before.shm_dir
        &&& if before.capture_channels@.len() == 0 {
            is_channel_set(self.capture_channels@, capture_table(), ChannelDirection::Capture)
        } else {
            self.capture_channels == before.capture_channels
        }
        &&& if before.playback_channels@.len() == 0 {
            is_channel_set(self.playback_channels@, playback_table(), ChannelDirection::Playback)
        } else {
            self.playback_channels == before.playback_channels
        }
    }

    /// Ensure channels are populated: a direction without channels gets the built-in ones.
    pub fn populate_channels(&mut self)
        ensures
            final(self).populated_from(old(self)),
    {
        if self.capture_channels.is_empty() {
            self.capture_channels = build_capture_channels();
        }
        if self.playback_channels.is_empty() {
            self.playback_channels = build_playback_channels();
        }
    }
}

impl Default for VadConfig {
    fn default() -> (r: Self)
        ensures
            r.is_default(),
    {
        Self {
            period_frames: default_period_frames(),
            num_periods: default_num_periods(),
            sample_rate: default_sample_rate(),
            rode_vendor_id: default_vendor_id(),
            capture_channels: build_capture_channels(),
            playback_channels: build_playback_channels(),
            alsa_device_prefix: default_alsa_prefix(),
            shm_dir: default_shm_dir(),
        }
    }
}

// ---------------------------------------------------------------------------
// Laws
// ---------------------------------------------------------------------------

/// No two channels of a sequence share their ALSA PCM ID.
pub open spec fn distinct_ids(channels: Seq<ChannelConfig>) -> bool {
    forall|i: int, j: int|
        0 <= i < j < channels.len() ==> (#[trigger] channels[i]).alsa_id@ != (
        #[trigger] channels[j]).alsa_id@
}

/// The hardware has 11 capture and 5 playback channels, and within a direction the ALSA
/// PCM IDs are unique.
pub proof fn law_built_in_channels(capture: Seq<ChannelConfig>, playback: Seq<ChannelConfig>)
    requires
        is_channel_set(capture, capture_table(), ChannelDirection::Capture),
        is_channel_set(playback, playback_table(), ChannelDirection::Playback),
    ensures
        capture.len() == 11,
        playback.len() == 5,
        distinct_ids(capture),
        distinct_ids(playback),
{
    assert forall|i: int, j: int| 0 <= i < j < capture.len() implies (#[trigger] capture[i]).alsa_id@
        != (#[trigger] capture[j]).alsa_id@ by {
        lemma_capture_ids(i, j);
    }
    assert forall|i: int, j: int| 0 <= i < j < playback.len() implies (#[trigger] playback[i]).alsa_id@
        != (#[trigger] playback[j]).alsa_id@ by {
        lemma_playback_ids(i, j);
    }
}

/// The ALSA PCM IDs in the capture table differ pairwise.
proof fn lemma_capture_ids(i: int, j: int)
    requires
        0 <= i < j < 11,
    ensures
        capture_table().len() == 11,
        capture_table()[i].1 != capture_table()[j].1,
{
    reveal_strlit("System");
    reveal_strlit("Combo1");
    reveal_strlit("Combo2");
    reveal_strlit("Combo3");
    reveal_strlit("Combo4");
    reveal_strlit("Bluetooth");
    reveal_strlit("SmartPads");
    reveal_strlit("USB1Main");
    reveal_strlit("USB1Chat");
    reveal_strlit("USB2");
    reveal_strlit("Headset");
    let t = capture_table();
    assert(t[0].1.len() == 6 && t[0].1[0] == 'S' && t[0].1[5] == 'm');
    assert(t[1].1.len() == 6 && t[1].1[0] == 'C' && t[1].1[5] == '1');
    assert(t[2].1.len() == 6 && t[2].1[0] == 'C' && t[2].1[5] == '2');
    assert(t[3].1.len() == 6 && t[3].1[0] == 'C' && t[3].1[5] == '3');
    assert(t[4].1.len() == 6 && t[4].1[0] == 'C' && t[4].1[5] == '4');
    assert(t[5].1.len() == 9 && t[5].1[0] == 'B' && t[5].1[8] == 'h');
    assert(t[6].1.len() == 9 && t[6].1[0] == 'S' && t[6].1[8] == 's');
    assert(t[7].1.len() == 8 && t[7].1[0] == 'U' && t[7].1[7] == 'n');
    assert(t[8].1.len() == 8 && t[8].1[0] == 'U' && t[8].1[7] == 't');
    assert(t[9].1.len() == 4 && t[9].1[0] == 'U' && t[9].1[3] == '2');
    assert(t[10].1.len() == 7 && t[10].1[0] == 'H' && t[10].1[6] == 't');
}

/// The ALSA PCM IDs in the playback table differ pairwise.
proof fn lemma_playback_ids(i: int, j: int)
    requires
        0 <= i < j < 5,
    ensures
        playback_table().len() == 5,
        playback_table()[i].1 != playback_table()[j].1,
{
    reveal_strlit("System");
    reveal_strlit("Music");
    reveal_strlit("Game");
    reveal_strlit("VirtualA");
    reveal_strlit("VirtualB");
    let t = playback_table();
    assert(t[0].1.len() == 6 && t[0].1[0] == 'S' && t[0].1[5] == 'm');
    assert(t[1].1.len() == 5 && t[1].1[0] == 'M' && t[1].1[4] == 'c');
    assert(t[2].1.len() == 4 && t[2].1[0] == 'G' && t[2].1[3] == 'e');
    assert(t[3].1.len() == 8 && t[3].1[0] == 'V' && t[3].1[7] == 'A');
    assert(t[4].1.len() == 8 && t[4].1[0] == 'V' && t[4].1[7] == 'B');
}

/// After `populate_channels` no direction is without channels, and doing it again changes
/// nothing.
pub proof fn law_populate_idempotent(before: VadConfig, once: VadConfig, twice: VadConfig)
    requires
        once.populated_from(&before),
        twice.populated_from(&once),
    ensures
        once.capture_channels@.len() > 0,
        once.playback_channels@.len() > 0,
        twice == once,
{
}

/// Populating changes nothing but the channels of a direction that has none, which become
/// the built-in ones.
pub proof fn law_populate_keeps(before: VadConfig, after: VadConfig)
    requires
        after.populated_from(&before),
    ensures
        after.period_frames == before.period_frames,
        after.num_periods == before.num_periods,
        after.sample_rate == before.sample_rate,
        after.rode_vendor_id == before.rode_vendor_id,
        after.alsa_device_prefix == before.alsa_device_prefix,
        after.shm_dir == before.shm_dir,
        before.capture_channels@.len() > 0 ==> after.capture_channels == before.capture_channels,
        before.playback_channels@.len() > 0 ==> after.playback_channels == before.playback_channels,
        before.capture_channels@.len() == 0 ==> is_channel_set(
            after.capture_channels@,
            capture_table(),
            ChannelDirection::Capture,
        ),
        before.playback_channels@.len() == 0 ==> is_channel_set(
            after.playback_channels@,
            playback_table(),
            ChannelDirection::Playback,
        ),
{
}

/// The built-in channels are stereo, in their direction, and have the names and IDs of the
/// hardware: 11 inputs and 5 outputs.
pub proof fn law_built_in_names(capture: Seq<ChannelConfig>, playback: Seq<ChannelConfig>, i: int)
    requires
        is_channel_set(capture, capture_table(), ChannelDirection::Capture),
        is_channel_set(playback, playback_table(), ChannelDirection::Playback),
    ensures
        0 <= i < 11 ==> capture[i].channels == 2 && capture[i].direction is Capture,
        0 <= i < 5 ==> playback[i].channels == 2 && playback[i].direction is Playback,
        capture[0].name@ == "System In"@ && capture[0].alsa_id@ == "System"@,
        capture[1].name@ == "Combo 1 In"@ && capture[1].alsa_id@ == "Combo1"@,
        capture[2].name@ == "Combo 2 In"@ && capture[2].alsa_id@ == "Combo2"@,
        capture[3].name@ == "Combo 3 In"@ && capture[3].alsa_id@ == "Combo3"@,
        capture[4].name@ == "Combo 4 In"@ && capture[4].alsa_id@ == "Combo4"@,
        capture[5].name@ == "Bluetooth In"@ && capture[5].alsa_id@ == "Bluetooth"@,
        capture[6].name@ == "Smart Pads In"@ && capture[6].alsa_id@ == "SmartPads"@,
        capture[7].name@ == "USB1 Main In"@ && capture[7].alsa_id@ == "USB1Main"@,
        capture[8].name@ == "USB1 Chat In"@ && capture[8].alsa_id@ == "USB1Chat"@,
        capture[9].name@ == "USB2 In"@ && capture[9].alsa_id@ == "USB2"@,
        capture[10].name@ == "Headset In"@ && capture[10].alsa_id@ == "Headset"@,
        playback[0].name@ == "System Out"@ && playback[0].alsa_id@ == "System"@,
        playback[1].name@ == "Music Out"@ && playback[1].alsa_id@ == "Music"@,
        playback[2].name@ == "Game Out"@ && playback[2].alsa_id@ == "Game"@,
        playback[3].name@ == "Virtual A Out"@ && playback[3].alsa_id@ == "VirtualA"@,
        playback[4].name@ == "Virtual B Out"@ && playback[4].alsa_id@ == "VirtualB"@,
{
}

} // verus!
