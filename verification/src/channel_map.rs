//! Channel mapping: maps RODE USB audio channels to virtual ALSA channels.
//!
//! Each USB capture or playback endpoint stands for one virtual ALSA channel.

use vstd::prelude::*;

verus! {

/// Channel mapping: USB endpoint address to virtual ALSA channel index
#[derive(Debug, Clone)]
pub struct ChannelMap {
    /// Capture mappings: (USB IN endpoint addr, ALSA capture channel index, friendly name)
    pub capture_map: Vec<(u8, usize, String)>,
    /// Playback mappings: (USB OUT endpoint addr, ALSA playback channel index, friendly name)
    pub playback_map: Vec<(u8, usize, String)>,
}

/// Friendly names of the capture channels, by index.
pub open spec fn capture_names() -> Seq<Seq<char>> {
    seq![
        "System In"@,
        "Combo1 In"@,
        "Combo2 In"@,
        "Combo3 In"@,
        "Combo4 In"@,
        "Bluetooth In"@,
        "SmartPads In"@,
        "USB1 Main In"@,
        "USB1 Chat In"@,
        "USB2 In"@,
        "Headset In"@,
    ]
}

/// Friendly names of the playback channels, by index.
pub open spec fn playback_names() -> Seq<Seq<char>> {
    seq![
        "System Out"@,
        "Music Out"@,
        "Game Out"@,
        "Virtual A Out"@,
        "Virtual B Out"@,
    ]
}

/// Entry `i` of the map stands for channel `i`, at the `i`-th endpoint address from
/// `first` on, and has the `i`-th name.
pub open spec fn maps_in_order(map: Seq<(u8, usize, String)>, first: int, names: Seq<Seq<char>>) -> bool {
    &&& map.len() == names.len()
    &&& forall|i: int|
        0 <= i < names.len() ==> {
            &&& (#[trigger] map[i]).0 == first + i
            &&& map[i].1 == i
            &&& map[i].2@ == names[i]
        }
}

impl Default for ChannelMap {
    /// The endpoint addresses depend on the USB descriptor topology of the hardware; these
    /// are used where that is not known.
    fn default() -> (r: Self)
        ensures
            maps_in_order(r.capture_map@, 0x81, capture_names()),
            maps_in_order(r.playback_map@, 0x01, playback_names()),
    {
        let mut capture_map: Vec<(u8, usize, String)> = Vec::new();
        capture_map.push((0x81, 0, "System In".to_owned()));
        capture_map.push((0x82, 1, "Combo1 In".to_owned()));
        capture_map.push((0x83, 2, "Combo2 In".to_owned()));
        capture_map.push((0x84, 3, "Combo3 In".to_owned()));
        capture_map.push((0x85, 4, "Combo4 In".to_owned()));
        capture_map.push((0x86, 5, "Bluetooth In".to_owned()));
        capture_map.push((0x87, 6, "SmartPads In".to_owned()));
        capture_map.push((0x88, 7, "USB1 Main In".to_owned()));
        capture_map.push((0x89, 8, "USB1 Chat In".to_owned()));
        capture_map.push((0x8a, 9, "USB2 In".to_owned()));
        capture_map.push((0x8b, 10, "Headset In".to_owned()));
        let mut playback_map: Vec<(u8, usize, String)> = Vec::new();
        playback_map.push((0x01, 0, "System Out".to_owned()));
        playback_map.push((0x02, 1, "Music Out".to_owned()));
        playback_map.push((0x03, 2, "Game Out".to_owned()));
        playback_map.push((0x04, 3, "Virtual A Out".to_owned()));
        playback_map.push((0x05, 4, "Virtual B Out".to_owned()));
        Self { capture_map, playback_map }
    }
}

/// In the default map there is an IN endpoint for each of 11 capture channels and an OUT
/// endpoint for each of 5 playback channels, and no address is used twice.
pub proof fn law_default_endpoints(map: ChannelMap)
    requires
        maps_in_order(map.capture_map@, 0x81, capture_names()),
        maps_in_order(map.playback_map@, 0x01, playback_names()),
    ensures
        map.capture_map@.len() == 11,
        map.playback_map@.len() == 5,
        forall|i: int| 0 <= i < 11 ==> (#[trigger] map.capture_map@[i]).0 >= 0x80,
        forall|i: int| 0 <= i < 5 ==> (#[trigger] map.playback_map@[i]).0 < 0x80,
        forall|i: int, j: int|
            0 <= i < j < 11 ==> (#[trigger] map.capture_map@[i]).0 != (
            #[trigger] map.capture_map@[j]).0,
        forall|i: int, j: int|
            0 <= i < j < 5 ==> (#[trigger] map.playback_map@[i]).0 != (
            #[trigger] map.playback_map@[j]).0,
{
}

/// The entries of the default map stand for the channels of the hardware, by their names: in
/// each direction in the order of the endpoint addresses, from the first one on.
pub proof fn law_default_names(map: ChannelMap, i: int)
    requires
        maps_in_order(map.capture_map@, 0x81, capture_names()),
        maps_in_order(map.playback_map@, 0x01, playback_names()),
    ensures
        0 <= i < 11 ==> map.capture_map@[i].0 == 0x81 + i && map.capture_map@[i].1 == i,
        0 <= i < 5 ==> map.playback_map@[i].0 == 0x01 + i && map.playback_map@[i].1 == i,
        map.capture_map@[0].2@ == "System In"@,
        map.capture_map@[1].2@ == "Combo1 In"@,
        map.capture_map@[2].2@ == "Combo2 In"@,
        map.capture_map@[3].2@ == "Combo3 In"@,
        map.capture_map@[4].2@ == "Combo4 In"@,
        map.capture_map@[5].2@ == "Bluetooth In"@,
        map.capture_map@[6].2@ == "SmartPads In"@,
        map.capture_map@[7].2@ == "USB1 Main In"@,
        map.capture_map@[8].2@ == "USB1 Chat In"@,
        map.capture_map@[9].2@ == "USB2 In"@,
        map.capture_map@[10].2@ == "Headset In"@,
        map.playback_map@[0].2@ == "System Out"@,
        map.playback_map@[1].2@ == "Music Out"@,
        map.playback_map@[2].2@ == "Game Out"@,
        map.playback_map@[3].2@ == "Virtual A Out"@,
        map.playback_map@[4].2@ == "Virtual B Out"@,
{
}

} // verus!
