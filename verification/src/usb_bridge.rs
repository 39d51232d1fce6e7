//! USB Bridge: RODE hardware discovery and audio streaming.
//!
//! Tells RODE USB audio devices by their descriptors, and serves the ring buffers on
//! behalf of the hardware.

use crate::config::VadConfig;
use crate::ring_buffer::RingBufHeader;
use crate::ring_buffer::RingBuffer;
use crate::ring_buffer::RingBufferSet;
use crate::ring_buffer::RingGeometry;
use crate::text;
use vstd::prelude::*;

verus! {

/// A discovered RODE USB audio device
#[derive(Debug, Clone)]
pub struct RodeUsbDevice {
    /// Product name derived from USB descriptor
    pub name: String,
    /// USB bus number
    pub bus: u8,
    /// USB device address
    pub address: u8,
    /// Vendor ID
    pub vendor_id: u16,
    /// Product ID
    pub product_id: u16,
}

/// Audio transfer direction for USB isochronous streams
#[derive(Debug, Clone, Copy, PartialEq, Eq, Structural)]
pub enum TransferDirection {
    /// Device to Host (capture/microphone)
    In,
    /// Host to Device (playback/speaker)
    Out,
}

/// The name of a known RODE USB product.
pub open spec fn known_product(product_id: u16) -> Option<Seq<char>> {
    if product_id == 0x0011 {
        Some("RODECaster Pro"@)
    } else if product_id == 0x0012 {
        Some("RODECaster Pro II (2026)"@)
    } else if product_id == 0x0013 {
        Some("RODECaster Duo (2026)"@)
    } else if product_id == 0x0040 {
        Some("RØDE AI-1"@)
    } else if product_id == 0x0041 {
        Some("RØDE NT-USB"@)
    } else {
        None
    }
}

/// The name of a product: that of a known one, else one made of its IDs.
pub open spec fn product_name_of(vendor_id: u16, product_id: u16) -> Seq<char> {
    match known_product(product_id) {
        Some(name) => name,
        None => "Unknown RODE Device ("@ + text::hex4(vendor_id) + ":"@ + text::hex4(product_id)
            + ")"@,
    }
}

/// The name of a product.
pub fn product_name(vendor_id: u16, product_id: u16) -> (r: String)
    ensures
        r@ == product_name_of(vendor_id, product_id),
{
    if product_id == 0x0011 {
        "RODECaster Pro".to_owned()
    } else if product_id == 0x0012 {
        "RODECaster Pro II (2026)".to_owned()
    } else if product_id == 0x0013 {
        "RODECaster Duo (2026)".to_owned()
    } else if product_id == 0x0040 {
        "RØDE AI-1".to_owned()
    } else if product_id == 0x0041 {
        "RØDE NT-USB".to_owned()
    } else {
        let mut name: String = "Unknown RODE Device (".to_owned();
        text::append_hex4(&mut name, vendor_id);
        name.append(":");
        text::append_hex4(&mut name, product_id);
        name.append(")");
        name
    }
}

impl RodeUsbDevice {
    /// The device with these IDs at this place on the bus, if it is of the vendor looked for.
    pub fn identify(
        wanted_vendor: u16,
        vendor_id: u16,
        product_id: u16,
        bus: u8,
        address: u8,
    ) -> (r: Option<RodeUsbDevice>)
        ensures
            match r {
                Some(d) => {
                    &&& vendor_id == wanted_vendor
                    &&& d.name@ == product_name_of(vendor_id, product_id)
                    &&& d.bus == bus
                    &&& d.address == address
                    &&& d.vendor_id == vendor_id
                    &&& d.product_id == product_id
                },
                None => vendor_id != wanted_vendor,
            },
    {
        if vendor_id != wanted_vendor {
            return None;
        }
        Some(
            RodeUsbDevice {
                name: product_name(vendor_id, product_id),
                bus,
                address,
                vendor_id,
                product_id,
            },
        )
    }
}

// ---------------------------------------------------------------------------
// Serving the ring buffers
// ---------------------------------------------------------------------------

/// Size of one period of audio in bytes (stereo S32LE = 8 bytes per frame).
pub fn period_bytes(cfg: &VadConfig) -> (r: usize)
    requires
        cfg.period_frames * 8 <= usize::MAX,
    ensures
        r == cfg.period_frames * 8,
{
    cfg.period_frames as usize * 8
}

/// Silence is written to a capture buffer that runs and is empty, to indicate that the
/// bridge is alive. Tells whether the buffer with this header is one.
pub fn needs_silence(header: &RingBufHeader, ring: &RingGeometry) -> (r: bool)
    requires
        header.runs() ==> ring.comparable(header.write_index, header.read_index),
    ensures
        r == (header.runs() && frames_pending(*header, *ring) == 0),
{
    header.is_running() && ring.used(header.write_index, header.read_index) == 0
}

/// Frames that wait in the ring with this header.
pub open spec fn frames_pending(header: RingBufHeader, ring: RingGeometry) -> int {
    crate::ring_buffer::frames_between(
        header.write_index,
        header.read_index,
        ring.buffer_frames,
    )
}

/// The ring runs.
pub open spec fn runs(rb: RingBuffer) -> bool {
    rb.head().runs()
}

/// The ring runs and no frame is waiting in it.
pub open spec fn starved(rb: RingBuffer) -> bool {
    runs(rb) && rb.pending_frames() == 0
}

/// The ring can be checked, and a block of `len` bytes be written to it if it is starved.
pub open spec fn can_feed(rb: RingBuffer, len: int) -> bool {
    &&& rb.wf()
    &&& runs(rb) ==> rb.ring().comparable(rb.head().write_index, rb.head().read_index)
    &&& starved(rb) ==> rb.can_write(len)
    &&& starved(rb) ==> rb.head().write_index + rb.writable(len) <= u64::MAX
}

/// What serving does to a capture ring: a starved one gets a block of silence.
pub open spec fn fed(after: RingBuffer, before: RingBuffer, silence: Seq<u8>) -> bool {
    if starved(before) {
        after.written_from(&before, silence, before.writable(silence.len() as int))
    } else {
        after == before
    }
}

/// A block of up to `len` bytes can be read from the ring if it runs.
pub open spec fn can_drain(rb: RingBuffer, len: int) -> bool {
    runs(rb) ==> {
        &&& rb.wf()
        &&& rb.can_read(len)
        &&& rb.head().read_index + rb.readable(len) <= u64::MAX
    }
}

/// What serving does to a playback ring: from one that runs up to one block is read.
pub open spec fn drained(after: RingBuffer, before: RingBuffer, len: int) -> bool {
    if runs(before) {
        after.read_from(&before, before.readable(len))
    } else {
        after == before
    }
}

/// Writes silence to the capture rings that run and are empty.
fn feed_capture(rings: &mut Vec<RingBuffer>, silence: &[u8])
    requires
        forall|i: int|
            0 <= i < old(rings)@.len() ==> can_feed(
                #[trigger] old(rings)@[i],
                silence@.len() as int,
            ),
    ensures
        final(rings)@.len() == old(rings)@.len(),
        forall|i: int|
            0 <= i < old(rings)@.len() ==> fed(
                #[trigger] final(rings)@[i],
                old(rings)@[i],
                silence@,
            ),
{
    let mut i: usize = 0;
    while i < rings.len()
        invariant
            i <= rings@.len(),
            rings@.len() == old(rings)@.len(),
            forall|k: int|
                i <= k < rings@.len() ==> can_feed(#[trigger] rings@[k], silence@.len() as int),
            forall|k: int| i <= k < rings@.len() ==> #[trigger] rings@[k] == old(rings)@[k],
            forall|k: int|
                0 <= k < i ==> fed(#[trigger] rings@[k], old(rings)@[k], silence@),
        decreases rings@.len() - i,
    {
        let header: RingBufHeader = rings[i].snapshot();
        let ring: RingGeometry = rings[i].geometry();
        if needs_silence(&header, &ring) {
            let _ = rings[i].write(silence);
        }
        i = i + 1;
    }
}

/// Reads a block from each playback ring that runs and discards it.
fn drain_playback(rings: &mut Vec<RingBuffer>, len: usize)
    requires
        forall|i: int|
            0 <= i < old(rings)@.len() ==> can_drain(#[trigger] old(rings)@[i], len as int),
    ensures
        final(rings)@.len() == old(rings)@.len(),
        forall|i: int|
            0 <= i < old(rings)@.len() ==> drained(
                #[trigger] final(rings)@[i],
                old(rings)@[i],
                len as int,
            ),
{
    let mut i: usize = 0;
    while i < rings.len()
        invariant
            i <= rings@.len(),
            rings@.len() == old(rings)@.len(),
            forall|k: int|
                i <= k < rings@.len() ==> can_drain(#[trigger] rings@[k], len as int),
            forall|k: int| i <= k < rings@.len() ==> #[trigger] rings@[k] == old(rings)@[k],
            forall|k: int|
                0 <= k < i ==> drained(#[trigger] rings@[k], old(rings)@[k], len as int),
        decreases rings@.len() - i,
    {
        if rings[i].is_running() {
            let mut discard: Vec<u8> = vec![0u8; len];
            let _ = rings[i].read(discard.as_mut_slice());
        }
        i = i + 1;
    }
}

/// `n` bytes of silence.
pub open spec fn silence(n: int) -> Seq<u8> {
    Seq::new(n as nat, |i: int| 0u8)
}

/// One round of the USB bridge: capture rings that run dry get a period of silence, and
/// from playback rings a period goes to the hardware.
pub fn serve_rings(ring_buffers: &mut RingBufferSet, period_bytes: usize)
    requires
        forall|i: int|
            0 <= i < old(ring_buffers).capture@.len() ==> can_feed(
                #[trigger] old(ring_buffers).capture@[i],
                period_bytes as int,
            ),
        forall|i: int|
            0 <= i < old(ring_buffers).playback@.len() ==> can_drain(
                #[trigger] old(ring_buffers).playback@[i],
                period_bytes as int,
            ),
    ensures
        final(ring_buffers).capture@.len() == old(ring_buffers).capture@.len(),
        final(ring_buffers).playback@.len() == old(ring_buffers).playback@.len(),
        forall|i: int|
            0 <= i < old(ring_buffers).capture@.len() ==> fed(
                #[trigger] final(ring_buffers).capture@[i],
                old(ring_buffers).capture@[i],
                silence(period_bytes as int),
            ),
        forall|i: int|
            0 <= i < old(ring_buffers).playback@.len() ==> drained(
                #[trigger] final(ring_buffers).playback@[i],
                old(ring_buffers).playback@[i],
                period_bytes as int,
            ),
{
    let audio_buf: Vec<u8> = vec![0u8; period_bytes];
    assert(audio_buf@ =~= silence(period_bytes as int));
    feed_capture(&mut ring_buffers.capture, audio_buf.as_slice());
    drain_playback(&mut ring_buffers.playback, period_bytes);
}

// ---------------------------------------------------------------------------
// Laws
// ---------------------------------------------------------------------------

/// A ring that runs dry, and has room for a frame, holds nothing but silence once it was
/// served, and is no longer starved.
pub proof fn law_starved_ring_is_fed(before: RingBuffer, after: RingBuffer, period_bytes: int)
    requires
        can_feed(before, period_bytes),
        starved(before),
        before.ring().buffer_frames >= 2,
        period_bytes > 0,
        period_bytes >= before.ring().frame_bytes,
        fed(after, before, silence(period_bytes)),
    ensures
        !starved(after),
        forall|j: int| 0 <= j < after@.len() ==> #[trigger] after@[j] == 0,
{
    let fb = before.ring().frame_bytes as int;
    assert(before.pending_frames() * fb == 0) by (nonlinear_arith)
        requires
            before.pending_frames() == 0,
    ;
    assert(before@ =~= Seq::<u8>::empty());
    vstd::arithmetic::div_mod::lemma_div_is_ordered(fb, period_bytes, fb);
    vstd::arithmetic::div_mod::lemma_div_by_self(fb);
    let n = before.writable(period_bytes);
    assert(n >= 1);
    vstd::arithmetic::div_mod::lemma_fundamental_div_mod(period_bytes, fb);
    assert(0 <= n * fb <= fb * (period_bytes / fb)) by (nonlinear_arith)
        requires
            0 <= n <= period_bytes / fb,
            fb > 0,
    ;
    assert(after@ =~= silence(period_bytes).take(n * fb));
}

/// The known products have their names, and any other one a name that tells its IDs in
/// hexadecimal digits.
pub proof fn law_product_names(vendor_id: u16, product_id: u16)
    ensures
        ({
            let name = product_name_of(vendor_id, product_id);
            &&& product_id == 0x0011 ==> name == "RODECaster Pro"@
            &&& product_id == 0x0012 ==> name == "RODECaster Pro II (2026)"@
            &&& product_id == 0x0013 ==> name == "RODECaster Duo (2026)"@
            &&& product_id == 0x0040 ==> name == "RØDE AI-1"@
            &&& product_id == 0x0041 ==> name == "RØDE NT-USB"@
            &&& !(0x0011 <= product_id <= 0x0013 || 0x0040 <= product_id <= 0x0041) ==> name
                == "Unknown RODE Device ("@ + text::hex4(vendor_id) + ":"@ + text::hex4(product_id)
                + ")"@
        }),
{
}

/// A round of the bridge changes nothing of a capture ring that does not run or in which
/// frames wait; in one that runs dry the write position moves on by the frames of silence
/// that fit in it.
pub proof fn law_capture_round(before: RingBuffer, after: RingBuffer, period_bytes: int)
    requires
        period_bytes >= 0,
        fed(after, before, silence(period_bytes)),
    ensures
        before.head().flags != 1 ==> after == before,
        before.pending_frames() != 0 ==> after == before,
        before.head().flags == 1 && before.pending_frames() == 0 ==> {
            &&& after.head().write_index == before.head().write_index + before.writable(
                period_bytes,
            )
            &&& after.head().read_index == before.head().read_index
            &&& after.same_ring(&before)
        },
        silence(period_bytes).len() == period_bytes,
        forall|j: int| 0 <= j < period_bytes ==> #[trigger] silence(period_bytes)[j] == 0,
{
}

/// A round of the bridge takes a block of frames, the oldest ones, from a playback ring that
/// runs, and changes nothing of another.
pub proof fn law_playback_round(before: RingBuffer, after: RingBuffer, period_bytes: int)
    requires
        drained(after, before, period_bytes),
    ensures
        before.head().flags != 1 ==> after == before,
        before.head().flags == 1 ==> {
            &&& after.head().read_index == before.head().read_index + before.readable(period_bytes)
            &&& after.head().write_index == before.head().write_index
            &&& after.storage() == before.storage()
            &&& after.same_ring(&before)
            &&& before.consistent() ==> after@ == before@.skip(
                before.readable(period_bytes) * before.ring().frame_bytes,
            )
        },
{
}

} // verus!
