//! ALSA Bridge: virtual PCM device I/O layer.
//!
//! - Decides which PCM devices to try for a channel, and which to take
//! - Turns audio from capture ring buffers into samples for ALSA capture PCMs
//! - Turns samples from ALSA playback PCMs into audio for playback ring buffers
//! - Paces the bridge to one period of audio per tick

use crate::audio_format::AudioFormat;
use crate::mixer;
use crate::ring_buffer::RingBuffer;
use crate::text;
use vstd::prelude::*;

verus! {

// ---------------------------------------------------------------------------
// Finding a PCM device
// ---------------------------------------------------------------------------

/// Names to try for a device come first; this many cards are tried by index after them.
pub const CARDS: usize = 8;

/// How many names are tried for a device
pub const CANDIDATES: usize = 12;

/// The naming conventions for a device.
pub open spec fn conventions(device: Seq<char>) -> Seq<Seq<char>> {
    seq![
        "hw:"@ + device,
        "hw:CARD="@ + device + ",DEV=0"@,
        "plughw:"@ + device,
        "default:"@ + device,
    ]
}

/// A name with the prefix of the virtual device.
pub open spec fn with_prefix(name: Seq<char>) -> Seq<char> {
    "hw:RODECaster_"@ + name
}

/// The names to try for a device: those by convention, then each of these again, as it is
/// and with a prefix.
pub open spec fn candidate(device: Seq<char>, i: int) -> Seq<char> {
    if i < 4 {
        conventions(device)[i]
    } else if (i - 4) % 2 == 0 {
        conventions(device)[(i - 4) / 2]
    } else {
        with_prefix(conventions(device)[(i - 4) / 2])
    }
}

/// The first device of a card.
pub open spec fn card_device(card: int) -> Seq<char> {
    "hw:"@ + seq![text::hex_digit(card)] + ",0"@
}

/// A PCM device to be tried.
#[derive(Debug, Clone)]
pub struct PcmAttempt {
    /// Name to open
    pub name: String,
    /// The card it is on, where the name of the card has to be checked
    pub card: Option<usize>,
}

/// What comes next in the search for a PCM device.
pub enum PcmStep {
    /// Try this device
    Attempt(PcmAttempt),
    /// No device was found
    GiveUp,
}

/// A search for the PCM device of a channel. Each step is an attempt to open a device;
/// what became of it is reported, and the search is over or has moved to the next step.
pub struct PcmSearch {
    device: String,
    tried: usize,
}

/// The names of the device by convention, in order.
pub fn pcm_candidates(device_name: &str) -> (r: Vec<String>)
    ensures
        r@.len() == CANDIDATES,
        forall|i: int| 0 <= i < CANDIDATES ==> (#[trigger] r@[i])@ == candidate(device_name@, i),
{
    let mut r: Vec<String> = Vec::new();
    let a: String = text::join("hw:", device_name);
    let b: String = text::join3("hw:CARD=", device_name, ",DEV=0");
    let c: String = text::join("plughw:", device_name);
    let d: String = text::join("default:", device_name);
    let pa: String = text::join("hw:RODECaster_", a.as_str());
    let pb: String = text::join("hw:RODECaster_", b.as_str());
    let pc: String = text::join("hw:RODECaster_", c.as_str());
    let pd: String = text::join("hw:RODECaster_", d.as_str());
    r.push(a.clone());
    r.push(b.clone());
    r.push(c.clone());
    r.push(d.clone());
    r.push(a);
    r.push(pa);
    r.push(b);
    r.push(pb);
    r.push(c);
    r.push(pc);
    r.push(d);
    r.push(pd);
    r
}

impl PcmSearch {
    /// The device that is looked for.
    pub closed spec fn target(&self) -> Seq<char> {
        self.device@
    }

    /// How many attempts have failed.
    pub closed spec fn failures(&self) -> int {
        self.tried as int
    }

    /// Starts a search.
    pub fn new(device_name: &str) -> (r: Self)
        ensures
            r.target() == device_name@,
            r.failures() == 0,
    {
        PcmSearch { device: device_name.to_owned(), tried: 0 }
    }

    /// The next step: the candidates in order, then the first device of each card.
    pub fn step(&self) -> (r: PcmStep)
        ensures
            match r {
                PcmStep::Attempt(a) => {
                    let n = self.failures();
                    &&& 0 <= n < CANDIDATES + CARDS
                    &&& a.name@ == if n < CANDIDATES {
                        candidate(self.target(), n)
                    } else {
                        card_device(n - CANDIDATES)
                    }
                    &&& a.card == if n < CANDIDATES {
                        None
                    } else {
                        Some((n - CANDIDATES) as usize)
                    }
                },
                PcmStep::GiveUp => self.failures() >= CANDIDATES + CARDS,
            },
    {
        if self.tried < CANDIDATES {
            let names: Vec<String> = pcm_candidates(self.device.as_str());
            PcmStep::Attempt(PcmAttempt { name: names[self.tried].clone(), card: None })
        } else if self.tried < CANDIDATES + CARDS {
            let card: usize = self.tried - CANDIDATES;
            let mut name: String = "hw:".to_owned();
            text::append_hex_digit(&mut name, card as u8);
            name.append(",0");
            assert(name@ =~= card_device(card as int));
            PcmStep::Attempt(PcmAttempt { name, card: Some(card) })
        } else {
            PcmStep::GiveUp
        }
    }

    /// Whether a device that could be opened is taken: one found by its name is, one found
    /// by its card only if the card can be told to be one of the virtual device.
    pub open spec fn takes(&self, card_name: Option<Seq<char>>) -> bool {
        self.failures() < CANDIDATES || match card_name {
            Some(name) => mixer::names_audio_card(name),
            None => false,
        }
    }

    /// Reports that the device of this step could not be opened.
    pub fn failed(&mut self)
        ensures
            final(self).target() == old(self).target(),
            final(self).failures() == if old(self).failures() < CANDIDATES + CARDS {
                old(self).failures() + 1
            } else {
                old(self).failures()
            },
    {
        if self.tried < CANDIDATES + CARDS {
            self.tried = self.tried + 1;
        }
    }

    /// Reports that the device of this step was opened, on a card with this name, where it
    /// is known. Returns whether it is taken; if not, the search has moved on.
    pub fn opened(&mut self, card_name: Option<&str>) -> (r: bool)
        ensures
            r == old(self).takes(
                match card_name {
                    Some(name) => Some(name@),
                    None => None,
                },
            ),
            final(self).target() == old(self).target(),
            final(self).failures() == if !r && old(self).failures() < CANDIDATES + CARDS {
                old(self).failures() + 1
            } else {
                old(self).failures()
            },
    {
        let taken: bool = if self.tried < CANDIDATES {
            true
        } else {
            match card_name {
                Some(name) => mixer::is_audio_card(name),
                None => false,
            }
        };
        if !taken {
            self.failed();
        }
        taken
    }
}

/// What became of the PCM device of a channel when the bridge was started.
#[derive(Debug, Clone, Copy, PartialEq, Eq, Structural)]
pub enum PcmEvent {
    /// No device was found
    NotFound,
    /// The device does not take the hardware parameters
    HardwareRefused,
    /// The device does not take the software parameters
    SoftwareRefused,
    /// The device could not be started
    NotStarted,
    /// The device was started
    Started,
}

/// What the bridge does about it.
#[derive(Debug, Clone, Copy, PartialEq, Eq, Structural)]
pub enum PcmOutcome {
    /// Go on without the channel
    Skip,
    /// End with an error
    Fail,
    /// Use the device
    Use,
}

/// A channel without a device that takes its format is skipped; a device that takes it
/// must work.
pub fn pcm_outcome(e: PcmEvent) -> (r: PcmOutcome)
    ensures
        r is Skip <==> (e is NotFound || e is HardwareRefused),
        r is Fail <==> (e is SoftwareRefused || e is NotStarted),
        r is Use <==> e is Started,
{
    match e {
        PcmEvent::NotFound => PcmOutcome::Skip,
        PcmEvent::HardwareRefused => PcmOutcome::Skip,
        PcmEvent::SoftwareRefused => PcmOutcome::Fail,
        PcmEvent::NotStarted => PcmOutcome::Fail,
        PcmEvent::Started => PcmOutcome::Use,
    }
}

// ---------------------------------------------------------------------------
// Moving audio
// ---------------------------------------------------------------------------

/// A period of silence.
pub open spec fn silent_samples(n: int) -> Seq<i32> {
    Seq::new(n as nat, |i: int| 0i32)
}

/// The samples for a capture PCM: those of the `frames` frames that were read, or a period
/// of silence if there were none.
pub open spec fn capture_output(
    format: AudioFormat,
    period_frames: int,
    bytes: Seq<u8>,
    frames: int,
) -> Seq<i32> {
    if frames == 0 {
        silent_samples(period_frames * format.channels)
    } else {
        format.format.decoded(bytes.take(frames * format.frame_width()))
    }
}

/// The samples for a capture PCM, of which `frames` frames were read into `bytes`.
pub fn capture_samples(
    format: &AudioFormat,
    period_frames: usize,
    bytes: &[u8],
    frames: usize,
) -> (r: Vec<i32>)
    requires
        frames * format.frame_width() <= bytes@.len(),
        frames == 0 ==> period_frames * format.channels <= usize::MAX,
    ensures
        r@ == capture_output(*format, period_frames as int, bytes@, frames as int),
{
    if frames == 0 {
        // No data available yet, write silence
        let r: Vec<i32> = vec![0i32; period_frames * format.channels as usize];
        assert(r@ =~= silent_samples(period_frames * format.channels));
        r
    } else {
        let frame_bytes: usize = format.frame_bytes();
        let len: usize = bytes.len();
        assert(frames * frame_bytes <= len);
        let bytes_read: usize = frames * frame_bytes;
        let read: &[u8] = vstd::slice::slice_subrange(bytes, 0, bytes_read);
        assert(read@ =~= bytes@.take(frames * format.frame_width()));
        format.bytes_to_i32(read)
    }
}

/// The bytes for a playback ring, of the first `frames` frames of `samples`.
pub fn playback_bytes(format: &AudioFormat, samples: &[i32], frames: usize) -> (r: Vec<u8>)
    requires
        frames * format.channels <= samples@.len(),
    ensures
        r@ == format.format.encoded(samples@.take(frames * format.channels)),
{
    let len: usize = samples.len();
    assert(frames * format.channels <= len);
    let n: usize = frames * format.channels as usize;
    let read: &[i32] = vstd::slice::slice_subrange(samples, 0, n);
    assert(read@ =~= samples@.take(frames * format.channels));
    format.i32_to_bytes(read)
}

/// Audio that goes to a capture PCM in one tick.
pub struct CaptureBlock {
    /// Frames that were taken from the ring
    pub frames: usize,
    /// Samples to write
    pub samples: Vec<i32>,
}

/// One tick in the capture direction: up to a buffer of frames is taken from a ring that
/// runs, and turned into samples. Nothing happens to a ring that does not run.
pub fn capture_tick(
    rb: &mut RingBuffer,
    format: &AudioFormat,
    period_frames: usize,
    buf: &mut [u8],
) -> (r: Option<CaptureBlock>)
    requires
        crate::usb_bridge::can_drain(*old(rb), old(buf)@.len() as int),
        crate::usb_bridge::runs(*old(rb)) ==> old(rb).ring().frame_bytes == format.frame_width(),
        period_frames * format.channels <= usize::MAX,
    ensures
        final(buf)@.len() == old(buf)@.len(),
        match r {
            None => {
                &&& !crate::usb_bridge::runs(*old(rb))
                &&& *final(rb) == *old(rb)
                &&& final(buf)@ == old(buf)@
            },
            Some(block) => {
                &&& crate::usb_bridge::runs(*old(rb))
                &&& block.frames == old(rb).readable(old(buf)@.len() as int)
                &&& final(rb).read_from(old(rb), block.frames as int)
                &&& block.samples@ == capture_output(
                    *format,
                    period_frames as int,
                    old(rb)@,
                    block.frames as int,
                )
                &&& final(buf)@ == if block.frames == 0 {
                    crate::usb_bridge::silence(old(buf)@.len() as int)
                } else {
                    old(rb)@.take(block.frames * format.frame_width()) + old(buf)@.skip(
                        block.frames * format.frame_width(),
                    )
                }
            },
        },
{
    if !rb.is_running() {
        return None;
    }
    let frames: usize = match rb.read(buf) {
        Ok(n) => n,
        Err(_) => 0,
    };
    proof {
        let fb = format.frame_width();
        let n = frames * fb;
        if frames > 0 {
            lemma_frames_fit(
                frames as int,
                old(buf)@.len() as int,
                fb,
                old(rb).pending_frames(),
            );
            assert(buf@.take(n) =~= old(rb)@.take(n));
        } else {
            assert(0 * fb == 0);
        }
    }
    let samples: Vec<i32> = capture_samples(format, period_frames, buf, frames);
    if frames == 0 {
        fill_silence(buf);
    }
    Some(CaptureBlock { frames, samples })
}

/// Whole frames of a buffer and of a ring lie within both.
proof fn lemma_frames_fit(n: int, len: int, frame_bytes: int, pending: int)
    requires
        frame_bytes > 0,
        len >= 0,
        0 <= n <= len / frame_bytes,
        n <= pending,
    ensures
        0 <= n * frame_bytes <= len,
        n * frame_bytes <= pending * frame_bytes,
{
    vstd::arithmetic::div_mod::lemma_fundamental_div_mod(len, frame_bytes);
    assert(0 <= n * frame_bytes <= frame_bytes * (len / frame_bytes) && n * frame_bytes <= pending
        * frame_bytes) by (nonlinear_arith)
        requires
            0 <= n <= len / frame_bytes,
            n <= pending,
            frame_bytes > 0,
    ;
}

/// Fills a buffer with silence.
fn fill_silence(buf: &mut [u8])
    ensures
        final(buf)@ == crate::usb_bridge::silence(old(buf)@.len() as int),
{
    let mut i: usize = 0;
    while i < buf.len()
        invariant
            i <= buf@.len(),
            buf@.len() == old(buf)@.len(),
            forall|k: int| 0 <= k < i ==> #[trigger] buf@[k] == 0,
        decreases buf@.len() - i,
    {
        buf[i] = 0;
        i = i + 1;
    }
    assert(buf@ =~= crate::usb_bridge::silence(old(buf)@.len() as int));
}

/// One tick in the playback direction: the `frames` frames that were read from a PCM are
/// written to a ring that runs, as far as there is room. Nothing happens to a ring that
/// does not run.
pub fn playback_tick(
    rb: &mut RingBuffer,
    format: &AudioFormat,
    samples: &[i32],
    frames: usize,
) -> (r: usize)
    requires
        frames * format.channels <= samples@.len(),
        crate::usb_bridge::runs(*old(rb)) && frames > 0 ==> {
            let len = frames * format.channels * format.format.width();
            &&& old(rb).wf()
            &&& old(rb).can_write(len)
            &&& old(rb).head().write_index + old(rb).writable(len) <= u64::MAX
        },
    ensures
        if crate::usb_bridge::runs(*old(rb)) && frames > 0 {
            let data = format.format.encoded(samples@.take(frames * format.channels));
            &&& r == old(rb).writable(data.len() as int)
            &&& final(rb).written_from(old(rb), data, r as int)
        } else {
            r == 0 && *final(rb) == *old(rb)
        },
{
    if !rb.is_running() || frames == 0 {
        return 0;
    }
    let audio_data: Vec<u8> = playback_bytes(format, samples, frames);
    match rb.write(audio_data.as_slice()) {
        Ok(n) => n,
        Err(_) => 0,
    }
}

// ---------------------------------------------------------------------------
// Pacing
// ---------------------------------------------------------------------------

/// Schedule of the bridge: one tick per period. Times are in nanoseconds since the bridge
/// was started.
#[derive(Debug, Clone, Copy, PartialEq, Eq, Structural)]
pub struct TickSchedule {
    /// Time between ticks
    pub interval: u64,
    /// When the next tick is due
    pub next_tick: u64,
}

impl TickSchedule {
    /// This is the other schedule after a tick that ended at `now`, with a sleep to follow.
    pub open spec fn advanced_from(&self, other: TickSchedule, now: u64, sleep: u64) -> bool {
        let due = other.next_tick + other.interval;
        &&& self.interval == other.interval
        &&& if due > now {
            self.next_tick == due && sleep == due - now
        } else {
            self.next_tick == now + other.interval && sleep == 0
        }
    }

    /// Rate-limit to the period interval: the next tick is due an interval after this one
    /// was; if that time has passed, the schedule starts anew from now. Returns how long to
    /// sleep.
    pub fn advance(&mut self, now: u64) -> (sleep: u64)
        requires
            old(self).next_tick + old(self).interval <= u64::MAX,
            now + old(self).interval <= u64::MAX,
        ensures
            final(self).advanced_from(*old(self), now, sleep),
    {
        self.next_tick = self.next_tick + self.interval;
        if self.next_tick > now {
            self.next_tick - now
        } else {
            // We're falling behind, reset tick
            self.next_tick = now + self.interval;
            0
        }
    }
}

// ---------------------------------------------------------------------------
// Laws
// ---------------------------------------------------------------------------

/// Audio passes unchanged: samples that are put into an empty ring, in the format of the
/// bridge and fewer frames than the ring holds, are the samples that a reader with room
/// for them gets out of it.
pub proof fn law_audio_passes_unchanged(
    sample_rate: u32,
    samples: Seq<i32>,
    before: RingBuffer,
    written: RingBuffer,
    room: Seq<u8>,
    after: RingBuffer,
    period_frames: int,
)
    requires
        before.wf(),
        before.consistent(),
        before.pending_frames() == 0,
        before.ring().frame_bytes == 8,
        samples.len() > 0,
        samples.len() % 2 == 0,
        samples.len() / 2 < before.ring().buffer_frames,
        ({
            let format = crate::ring_buffer::bridge_format_of(sample_rate);
            let data = format.format.encoded(samples);
            &&& written.written_from(&before, data, before.writable(data.len() as int))
            &&& room.len() >= data.len()
            &&& after.read_from(&written, written.readable(room.len() as int))
        }),
    ensures
        capture_output(
            crate::ring_buffer::bridge_format_of(sample_rate),
            period_frames,
            written@,
            written.readable(room.len() as int),
        ) == samples,
        after@ == Seq::<u8>::empty(),
{
    let format = crate::ring_buffer::bridge_format_of(sample_rate);
    let data = format.format.encoded(samples);
    let n = before.writable(data.len() as int);
    let m = written.readable(room.len() as int);
    let width = format.format.width();
    assert(samples.len() * width == 4 * samples.len()) by (nonlinear_arith)
        requires
            width == 4,
    ;
    assert(data.len() == 4 * samples.len());
    crate::ring_buffer::law_read_returns_written(before, data, n, written, room, m, after);
    assert(m * 8 == data.len());
    let got = written@.take(m * 8);
    assert(written@.len() >= m * 8);
    assert((got + room.skip(m * 8)).take(m * 8) =~= got);
    assert((data + room.skip(data.len() as int)).take(m * 8) =~= data);
    crate::audio_format::law_samples_round_trip(format.format, samples);
    assert(format.format.decoded(data) =~= samples);
}

/// However late a tick is, the next one is due after it, at least an interval after the
/// one before was, and at most an interval after the later of that time and now. The sleep,
/// if there is one, ends when the next tick is due. A tick that is in time keeps the beat, and
/// one that is late starts it anew, without a sleep.
pub proof fn law_schedule_keeps_up(before: TickSchedule, now: u64, after: TickSchedule, sleep: u64)
    requires
        before.interval > 0,
        after.advanced_from(before, now, sleep),
    ensures
        after.next_tick > now,
        after.next_tick >= before.next_tick + before.interval,
        after.next_tick <= before.interval + if before.next_tick >= now {
            before.next_tick
        } else {
            now
        },
        sleep > 0 ==> now + sleep == after.next_tick,
        after.interval == before.interval,
        before.next_tick + before.interval > now ==> {
            &&& after.next_tick == before.next_tick + before.interval
            &&& now + sleep == after.next_tick
        },
        before.next_tick + before.interval <= now ==> {
            &&& after.next_tick == now + before.interval
            &&& sleep == 0
        },
{
}

/// A device is looked for by four names, in this order; then by each of these again, as it
/// is and behind a prefix.
pub proof fn law_candidate_names(device: Seq<char>, k: int)
    requires
        0 <= k < 4,
    ensures
        candidate(device, 0) == "hw:"@ + device,
        candidate(device, 1) == "hw:CARD="@ + device + ",DEV=0"@,
        candidate(device, 2) == "plughw:"@ + device,
        candidate(device, 3) == "default:"@ + device,
        candidate(device, 4 + 2 * k) == candidate(device, k),
        candidate(device, 5 + 2 * k) == "hw:RODECaster_"@ + candidate(device, k),
{
    assert((4 + 2 * k - 4) % 2 == 0 && (4 + 2 * k - 4) / 2 == k);
    assert((5 + 2 * k - 4) % 2 == 1 && (5 + 2 * k - 4) / 2 == k);
}

/// The first device of card `c` is `hw:c,0`.
pub proof fn law_card_devices(c: int)
    requires
        0 <= c < 8,
    ensures
        card_device(c).len() == 6,
        card_device(c) == "hw:"@ + seq!["01234567"@[c]] + ",0"@,
{
    reveal_strlit("01234567");
    reveal_strlit("hw:");
    reveal_strlit(",0");
}

/// A device that could be opened by one of the names is taken. One that was opened by its
/// card is taken exactly if the name of the card is known and tells of the loopback or the
/// hardware.
pub proof fn law_devices_taken(search: PcmSearch, name: Seq<char>, before: Seq<char>, behind: Seq<char>)
    ensures
        search.failures() < 12 ==> search.takes(Some(name)) && search.takes(None),
        search.failures() >= 12 ==> {
            &&& !search.takes(None)
            &&& name == before + "Loopback"@ + behind ==> search.takes(Some(name))
            &&& name == before + "RODECaster"@ + behind ==> search.takes(Some(name))
            &&& search.takes(Some(name)) ==> text::occurs(name, "Loopback"@) || text::occurs(
                name,
                "RODECaster"@,
            )
        },
{
    text::law_occurs(name, "Loopback"@, before, behind);
    text::law_occurs(name, "RODECaster"@, before, behind);
}

/// What goes to a capture PCM are the samples of the frames that were read, all of them and
/// in order, and a whole period of silence where none was read.
pub proof fn law_capture_output(
    format: AudioFormat,
    period_frames: int,
    bytes: Seq<u8>,
    frames: int,
    i: int,
)
    requires
        period_frames >= 0,
        0 <= frames * format.frame_width() <= bytes.len(),
    ensures
        frames == 0 ==> {
            let out = capture_output(format, period_frames, bytes, frames);
            &&& out.len() == period_frames * format.channels
            &&& 0 <= i < out.len() ==> out[i] == 0
        },
        frames != 0 ==> capture_output(format, period_frames, bytes, frames)
            == format.format.decoded(bytes.subrange(0, frames * format.frame_width())),
{
    assert(period_frames * format.channels >= 0) by (nonlinear_arith)
        requires
            period_frames >= 0,
            format.channels >= 0,
    ;
    assert(bytes.take(frames * format.frame_width()) =~= bytes.subrange(
        0,
        frames * format.frame_width(),
    ));
}

} // verus!
