//! Ring buffer for audio data: a bounded queue of frames per channel, with any number of
//! producers, one at a time, and a single consumer.
//!
//! Layout of a region:
//! ```text
//! [RingBufHeader (64 bytes)] [audio data ring... (buffer_frames * frame_bytes)]
//! ```
//!
//! The two positions in the header count frames from the start of the stream; a frame
//! lies in the ring at its position modulo the capacity. One slot stays free, so that a
//! full ring is told from an empty one.
//!
//! [`RingGeometry`] decides how many frames a request moves and where in the ring their
//! bytes lie; it holds no memory, so that a region that other processes share can be
//! served by it. [`RingBuffer`] is such a ring together with its memory.

use crate::audio_format::AudioFormat;
use crate::audio_format::SampleFormat;
use crate::config::ChannelConfig;
use crate::config::VadConfig;
use crate::text;
use vstd::prelude::*;

verus! {

/// Magic identifier for validation ("RODE")
pub const RINGBUF_MAGIC: u32 = 0x524F4445;

/// Size of the header at the start of a region
pub const HEADER_BYTES: usize = 64;

/// Value of the state flags while a buffer runs
pub const FLAG_RUNNING: u32 = 1;

/// Value of the state flags while a buffer is stopped
pub const FLAG_STOPPED: u32 = 0;

/// Header at the start of each region
#[derive(Debug, Clone, Copy, PartialEq, Eq, Structural)]
pub struct RingBufHeader {
    /// Magic number for validation (0x524F4445 = "RODE")
    pub magic: u32,
    /// Protocol version
    pub version: u32,
    /// Frame size in bytes (= channels * bytes_per_sample)
    pub frame_bytes: u32,
    /// Number of audio channels per frame
    pub channels: u32,
    /// Current sample rate in Hz
    pub sample_rate: u32,
    /// Producer write position (frames from start)
    pub write_index: u64,
    /// Consumer read position (frames from start)
    pub read_index: u64,
    /// Total buffer capacity in frames
    pub buffer_frames: u32,
    /// State flags (0=stopped, 1=running, 2=paused)
    pub flags: u32,
}

/// What can be wrong with a region or its name.
#[derive(Debug, Clone, Copy, PartialEq, Eq, Structural)]
pub enum RingBufError {
    /// Invalid ring buffer magic number
    InvalidMagic,
    /// The name has a NUL character, which no name of a region can hold
    InvalidName,
    /// There is a region with this name already
    NameInUse,
}

impl RingBufHeader {
    /// The header of an empty, stopped buffer.
    pub open spec fn initial(format: AudioFormat, buffer_frames: u32) -> RingBufHeader {
        RingBufHeader {
            magic: RINGBUF_MAGIC,
            version: 1,
            frame_bytes: format.frame_width() as u32,
            channels: format.channels as u32,
            sample_rate: format.sample_rate,
            write_index: 0,
            read_index: 0,
            buffer_frames,
            flags: FLAG_STOPPED,
        }
    }

    pub fn new(format: &AudioFormat, buffer_frames: u32) -> (r: Self)
        ensures
            r == Self::initial(*format, buffer_frames),
            r.frame_bytes == format.frame_width(),
    {
        let frame_bytes: usize = format.frame_bytes();
        Self {
            magic: RINGBUF_MAGIC,
            version: 1,
            frame_bytes: frame_bytes as u32,
            channels: format.channels as u32,
            sample_rate: format.sample_rate,
            write_index: 0,
            read_index: 0,
            buffer_frames,
            flags: FLAG_STOPPED,
        }
    }

    /// The flags say that the buffer runs.
    pub open spec fn runs(&self) -> bool {
        self.flags == FLAG_RUNNING
    }

    /// Check if the flags say that the buffer runs
    pub fn is_running(&self) -> (r: bool)
        ensures
            r == self.runs(),
    {
        self.flags == FLAG_RUNNING
    }

    /// Accepts exactly the headers that carry the magic number.
    pub fn validate(&self) -> (r: Result<(), RingBufError>)
        ensures
            r == (if self.magic == RINGBUF_MAGIC {
                Ok(())
            } else {
                Err(RingBufError::InvalidMagic)
            }),
    {
        if self.magic != RINGBUF_MAGIC {
            return Err(RingBufError::InvalidMagic);
        }
        Ok(())
    }
}

// ---------------------------------------------------------------------------
// Positions
// ---------------------------------------------------------------------------

/// Frames between the read and the write position. Where the write position is the lower
/// one it has wrapped around the capacity.
pub open spec fn frames_between(write_index: u64, read_index: u64, capacity: u32) -> int {
    if write_index >= read_index {
        write_index - read_index
    } else {
        capacity - read_index + write_index
    }
}

/// Frames that can be added without filling the last slot.
pub open spec fn frames_free(used: int, capacity: u32) -> int {
    if capacity > used {
        capacity - used - 1
    } else {
        0
    }
}

/// The smaller of two numbers.
pub open spec fn min(a: int, b: int) -> int {
    if a <= b {
        a
    } else {
        b
    }
}

/// Where the `j`-th byte after `start` lies in a ring of `size` bytes.
pub open spec fn ring_position(start: int, j: int, size: int) -> int {
    if start + j < size {
        start + j
    } else {
        start + j - size
    }
}

/// A block of frames to be moved into or out of a ring: `first` bytes at `offset`, then
/// `second` bytes at the start of the ring.
#[derive(Debug, Clone, Copy, PartialEq, Eq, Structural)]
pub struct Transfer {
    pub frames: usize,
    pub offset: usize,
    pub first: usize,
    pub second: usize,
}

impl Transfer {
    /// The byte at this place of the ring belongs to the block.
    pub open spec fn covers(&self, i: int) -> bool {
        0 <= i < self.second || self.offset <= i < self.offset + self.first
    }
}

/// Size of a ring and of the frames in it.
#[derive(Debug, Clone, Copy, PartialEq, Eq, Structural)]
pub struct RingGeometry {
    /// Frame size in bytes
    pub frame_bytes: usize,
    /// Buffer capacity in frames
    pub buffer_frames: u32,
}

impl RingGeometry {
    /// Size of the ring in bytes.
    pub open spec fn size(&self) -> int {
        self.buffer_frames * self.frame_bytes
    }

    /// The ring can be addressed.
    pub open spec fn wf(&self) -> bool {
        self.size() <= usize::MAX
    }

    /// Byte offset in the ring of the frame at a position.
    pub open spec fn offset_of(&self, index: u64) -> int {
        (index as int % self.buffer_frames as int) * self.frame_bytes
    }

    /// The distance between the positions can be told.
    pub open spec fn comparable(&self, write_index: u64, read_index: u64) -> bool {
        frames_between(write_index, read_index, self.buffer_frames) >= 0
    }

    /// The positions enclose at most as many frames as the ring holds.
    pub open spec fn consistent(&self, write_index: u64, read_index: u64) -> bool {
        0 <= frames_between(write_index, read_index, self.buffer_frames) <= self.buffer_frames
    }

    /// A buffer of `len` bytes holds at least one frame.
    pub open spec fn holds_frame(&self, len: int) -> bool {
        len > 0 && len >= self.frame_bytes
    }

    /// Frames that a write of `len` bytes moves.
    pub open spec fn writable(&self, write_index: u64, read_index: u64, len: int) -> int {
        if !self.holds_frame(len) {
            0
        } else {
            min(
                len / self.frame_bytes as int,
                frames_free(
                    frames_between(write_index, read_index, self.buffer_frames),
                    self.buffer_frames,
                ),
            )
        }
    }

    /// Frames that a read of up to `len` bytes moves.
    pub open spec fn readable(&self, write_index: u64, read_index: u64, len: int) -> int {
        if !self.holds_frame(len) {
            0
        } else {
            min(
                len / self.frame_bytes as int,
                frames_between(write_index, read_index, self.buffer_frames),
            )
        }
    }

    /// A block of `len` bytes can be divided into frames and compared with the free space.
    pub open spec fn can_write(&self, write_index: u64, read_index: u64, len: int) -> bool {
        &&& len > 0 ==> self.frame_bytes > 0
        &&& self.holds_frame(len) ==> self.comparable(write_index, read_index)
    }

    /// A block of up to `len` bytes can be divided into frames, and what is read of it lies
    /// within the ring.
    pub open spec fn can_read(&self, write_index: u64, read_index: u64, len: int) -> bool {
        &&& len > 0 ==> self.frame_bytes > 0
        &&& self.holds_frame(len) ==> self.comparable(write_index, read_index)
        &&& self.readable(write_index, read_index, len) <= self.buffer_frames
    }

    /// The block of `frames` frames from the position `index` on.
    pub open spec fn block(&self, index: u64, frames: int) -> Transfer {
        if frames == 0 {
            Transfer { frames: 0, offset: 0, first: 0, second: 0 }
        } else {
            let offset = self.offset_of(index);
            let bytes = frames * self.frame_bytes;
            let first = min(bytes, self.size() - offset);
            Transfer {
                frames: frames as usize,
                offset: offset as usize,
                first: first as usize,
                second: (bytes - first) as usize,
            }
        }
    }

    /// Size of a region in bytes, header and ring, if that can be addressed.
    pub fn region_size(&self) -> (r: Option<usize>)
        ensures
            match r {
                Some(n) => n == HEADER_BYTES + self.size(),
                None => HEADER_BYTES + self.size() > usize::MAX,
            },
    {
        assert(self.frame_bytes * self.buffer_frames == self.size()) by (nonlinear_arith);
        match self.frame_bytes.checked_mul(self.buffer_frames as usize) {
            Some(size) => size.checked_add(HEADER_BYTES),
            None => None,
        }
    }

    /// Tells whether the positions enclose at most as many frames as the ring holds.
    pub fn is_consistent(&self, write_index: u64, read_index: u64) -> (r: bool)
        ensures
            r == self.consistent(write_index, read_index),
    {
        if write_index >= read_index {
            write_index - read_index <= self.buffer_frames as u64
        } else {
            self.is_comparable(write_index, read_index)
        }
    }

    /// Tells whether the distance between the positions can be told.
    pub fn is_comparable(&self, write_index: u64, read_index: u64) -> (r: bool)
        ensures
            r == self.comparable(write_index, read_index),
    {
        write_index >= read_index || read_index - write_index <= self.buffer_frames as u64
    }

    /// Tells whether a block of `len` bytes can be written.
    pub fn is_writable(&self, write_index: u64, read_index: u64, len: usize) -> (r: bool)
        ensures
            r == self.can_write(write_index, read_index, len as int),
    {
        len == 0 || (self.frame_bytes > 0 && (len < self.frame_bytes || self.is_comparable(
            write_index,
            read_index,
        )))
    }

    /// Tells whether a block of up to `len` bytes can be read.
    pub fn is_readable(&self, write_index: u64, read_index: u64, len: usize) -> (r: bool)
        ensures
            r == self.can_read(write_index, read_index, len as int),
    {
        if len == 0 {
            true
        } else if self.frame_bytes == 0 {
            false
        } else if len < self.frame_bytes {
            true
        } else {
            self.is_comparable(write_index, read_index) && (len / self.frame_bytes
                <= self.buffer_frames as usize || self.used(write_index, read_index)
                <= self.buffer_frames as u64)
        }
    }

    /// Get the number of frames between the positions
    pub fn used(&self, write_index: u64, read_index: u64) -> (r: u64)
        requires
            self.comparable(write_index, read_index),
        ensures
            r == frames_between(write_index, read_index, self.buffer_frames),
    {
        if write_index >= read_index {
            write_index - read_index
        } else {
            self.buffer_frames as u64 - (read_index - write_index)
        }
    }

    /// The block of `frames` frames from the position `index` on.
    fn locate(&self, index: u64, frames: usize) -> (t: Transfer)
        requires
            self.wf(),
            frames <= self.buffer_frames,
        ensures
            t == self.block(index, frames as int),
            t.frames == frames,
            t.first + t.second == frames * self.frame_bytes,
            t.offset + t.first <= self.size(),
            t.second <= t.offset,
            frames > 0 ==> t.offset == self.offset_of(index),
    {
        if frames == 0 {
            return Transfer { frames: 0, offset: 0, first: 0, second: 0 };
        }
        let slot: usize = (index % self.buffer_frames as u64) as usize;
        let fb: usize = self.frame_bytes;
        let cap: usize = self.buffer_frames as usize;
        proof {
            assert(slot * fb + fb <= cap * fb && frames * fb <= cap * fb && slot * fb >= 0)
                by (nonlinear_arith)
                requires
                    slot + 1 <= cap,
                    frames <= cap,
                    slot >= 0,
                    fb >= 0,
            ;
        }
        let size: usize = cap * fb;
        let offset: usize = slot * fb;
        let bytes: usize = frames * fb;
        let first: usize = if bytes <= size - offset {
            bytes
        } else {
            size - offset
        };
        Transfer { frames, offset, first, second: bytes - first }
    }

    /// The block that a write of `len` bytes fills.
    pub fn plan_write(&self, write_index: u64, read_index: u64, len: usize) -> (t: Transfer)
        requires
            self.wf(),
            self.can_write(write_index, read_index, len as int),
        ensures
            t == self.block(write_index, self.writable(write_index, read_index, len as int)),
            t.frames == self.writable(write_index, read_index, len as int),
            t.frames < self.buffer_frames || t.frames == 0,
            t.first + t.second == t.frames * self.frame_bytes,
            t.first + t.second <= len,
            t.offset + t.first <= self.size(),
            t.second <= t.offset,
    {
        if len == 0 || len < self.frame_bytes {
            return self.locate(write_index, 0);
        }
        let frame_count: usize = len / self.frame_bytes;
        let used: u64 = self.used(write_index, read_index);
        let capacity: u64 = self.buffer_frames as u64;
        // One slot is left free to avoid full==empty ambiguity.
        let free: u64 = if capacity > used {
            capacity - used - 1
        } else {
            0
        };
        let frames: usize = if frame_count as u64 <= free {
            frame_count
        } else {
            free as usize
        };
        proof {
            lemma_whole_frames(frames as int, len as int, self.frame_bytes as int);
        }
        self.locate(write_index, frames)
    }

    /// The block that a read of up to `len` bytes empties.
    pub fn plan_read(&self, write_index: u64, read_index: u64, len: usize) -> (t: Transfer)
        requires
            self.wf(),
            self.can_read(write_index, read_index, len as int),
        ensures
            t == self.block(read_index, self.readable(write_index, read_index, len as int)),
            t.frames == self.readable(write_index, read_index, len as int),
            t.first + t.second == t.frames * self.frame_bytes,
            t.first + t.second <= len,
            t.offset + t.first <= self.size(),
            t.second <= t.offset,
    {
        if len == 0 || len < self.frame_bytes {
            return self.locate(read_index, 0);
        }
        let max_frames: usize = len / self.frame_bytes;
        let available: u64 = self.used(write_index, read_index);
        let frames: usize = if max_frames as u64 <= available {
            max_frames
        } else {
            available as usize
        };
        proof {
            lemma_whole_frames(frames as int, len as int, self.frame_bytes as int);
        }
        self.locate(read_index, frames)
    }
}

/// Whole frames of a buffer lie within it.
proof fn lemma_whole_frames(n: int, len: int, frame_bytes: int)
    requires
        frame_bytes > 0,
        len >= 0,
        0 <= n <= len / frame_bytes,
    ensures
        0 <= n * frame_bytes <= len,
{
    vstd::arithmetic::div_mod::lemma_fundamental_div_mod(len, frame_bytes);
    assert(0 <= n * frame_bytes <= frame_bytes * (len / frame_bytes)) by (nonlinear_arith)
        requires
            0 <= n <= len / frame_bytes,
            frame_bytes > 0,
    ;
}

// ---------------------------------------------------------------------------
// A ring with its memory
// ---------------------------------------------------------------------------

/// A single audio ring buffer
pub struct RingBuffer {
    name: String,
    header: RingBufHeader,
    data: Vec<u8>,
    geometry: RingGeometry,
}

impl View for RingBuffer {
    type V = Seq<u8>;

    /// The bytes of the frames that were written and not read yet, the oldest first.
    open spec fn view(&self) -> Seq<u8> {
        Seq::new(
            (self.pending_frames() * self.ring().frame_bytes) as nat,
            |j: int|
                self.storage()[ring_position(
                    self.ring().offset_of(self.head().read_index),
                    j,
                    self.ring().size(),
                )],
        )
    }
}

impl RingBuffer {
    /// The header.
    pub closed spec fn head(&self) -> RingBufHeader {
        self.header
    }

    /// The bytes of the ring.
    pub closed spec fn storage(&self) -> Seq<u8> {
        self.data@
    }

    /// The size of the ring.
    pub closed spec fn ring(&self) -> RingGeometry {
        self.geometry
    }

    /// The name of the region.
    pub closed spec fn region(&self) -> Seq<char> {
        self.name@
    }

    /// Frames between the positions.
    pub open spec fn pending_frames(&self) -> int {
        frames_between(
            self.head().write_index,
            self.head().read_index,
            self.ring().buffer_frames,
        )
    }

    /// The memory holds the ring.
    pub open spec fn wf(&self) -> bool {
        &&& self.ring().wf()
        &&& self.storage().len() >= self.ring().size()
    }

    /// The positions enclose at most as many frames as the ring holds.
    pub open spec fn consistent(&self) -> bool {
        self.ring().consistent(self.head().write_index, self.head().read_index)
    }

    /// The read position has not passed the write position.
    pub open spec fn in_order(&self) -> bool {
        self.head().read_index <= self.head().write_index
    }

    /// All but the positions and the frames is the same in both.
    pub open spec fn same_ring(&self, other: &RingBuffer) -> bool {
        &&& self.ring() == other.ring()
        &&& self.region() == other.region()
        &&& self.storage().len() == other.storage().len()
        &&& self.head() == (RingBufHeader {
            write_index: self.head().write_index,
            read_index: self.head().read_index,
            ..other.head()
        })
    }

    /// This is the other ring after the first `n` frames of `data` were written to it. The
    /// frames go behind those that are waiting, none of which is touched.
    pub open spec fn written_from(&self, other: &RingBuffer, data: Seq<u8>, n: int) -> bool {
        &&& self.wf()
        &&& self.same_ring(other)
        &&& self.head().read_index == other.head().read_index
        &&& self.head().write_index == other.head().write_index + n
        &&& n == 0 ==> self.storage() == other.storage()
        &&& forall|i: int|
            0 <= i < other.storage().len() && !other.ring().block(
                other.head().write_index,
                n,
            ).covers(i) ==> #[trigger] self.storage()[i] == other.storage()[i]
        &&& other.in_order() ==> self.in_order()
        &&& other.consistent() ==> {
            &&& self.consistent()
            &&& self.pending_frames() == other.pending_frames() + n
            &&& self@ == other@ + data.take(n * other.ring().frame_bytes)
        }
    }

    /// This is the other ring after its `n` oldest frames were read.
    pub open spec fn read_from(&self, other: &RingBuffer, n: int) -> bool {
        &&& self.wf()
        &&& self.same_ring(other)
        &&& self.storage() == other.storage()
        &&& self.head().write_index == other.head().write_index
        &&& self.head().read_index == other.head().read_index + n
        &&& other.in_order() ==> self.in_order()
        &&& other.consistent() ==> {
            &&& self.consistent()
            &&& self.pending_frames() == other.pending_frames() - n
            &&& self@ == other@.skip(n * other.ring().frame_bytes)
        }
    }

    /// This is the other ring, set to run or to stop.
    pub open spec fn switched_from(&self, other: &RingBuffer, running: bool) -> bool {
        &&& self.head() == (RingBufHeader {
            flags: if running {
                FLAG_RUNNING
            } else {
                FLAG_STOPPED
            },
            ..other.head()
        })
        &&& self.storage() == other.storage()
        &&& self.ring() == other.ring()
        &&& self.region() == other.region()
    }

    /// An empty, stopped ring.
    pub open spec fn is_new(&self, name: Seq<char>, format: AudioFormat, buffer_frames: u32) -> bool {
        &&& self.wf()
        &&& self.consistent()
        &&& self.in_order()
        &&& self@ == Seq::<u8>::empty()
        &&& self.region() == name
        &&& self.head() == RingBufHeader::initial(format, buffer_frames)
        &&& self.ring().frame_bytes == format.frame_width()
        &&& self.ring().buffer_frames == buffer_frames
        &&& self.storage() == Seq::new(self.ring().size() as nat, |i: int| 0u8)
    }

    /// Frames that a write of `len` bytes moves.
    pub open spec fn writable(&self, len: int) -> int {
        self.ring().writable(self.head().write_index, self.head().read_index, len)
    }

    /// A block of `len` bytes can be written.
    pub open spec fn can_write(&self, len: int) -> bool {
        self.ring().can_write(self.head().write_index, self.head().read_index, len)
    }

    /// A block of up to `len` bytes can be read.
    pub open spec fn can_read(&self, len: int) -> bool {
        self.ring().can_read(self.head().write_index, self.head().read_index, len)
    }

    /// Frames that a read of up to `len` bytes moves.
    pub open spec fn readable(&self, len: int) -> int {
        self.ring().readable(self.head().write_index, self.head().read_index, len)
    }

    /// Create a new, empty ring buffer. Fails exactly if the name has a NUL character.
    pub fn create(name: &str, format: &AudioFormat, buffer_frames: u32) -> (r: Result<
        Self,
        RingBufError,
    >)
        requires
            HEADER_BYTES + buffer_frames * format.frame_width() <= usize::MAX,
        ensures
            match r {
                Ok(rb) => !name@.contains('\0') && rb.is_new(name@, *format, buffer_frames),
                Err(e) => name@.contains('\0') && e == RingBufError::InvalidName,
            },
    {
        if text::has_nul(name) {
            return Err(RingBufError::InvalidName);
        }
        let frame_bytes: usize = format.frame_bytes();
        let data_size: usize = buffer_frames as usize * frame_bytes;
        let data: Vec<u8> = vec![0u8; data_size];
        let rb = Self {
            name: name.to_owned(),
            header: RingBufHeader::new(format, buffer_frames),
            data,
            geometry: RingGeometry { frame_bytes, buffer_frames },
        };
        assert(rb.pending_frames() * rb.ring().frame_bytes == 0) by (nonlinear_arith)
            requires
                rb.pending_frames() == 0,
        ;
        assert(rb@ =~= Seq::<u8>::empty());
        assert(rb.storage() =~= Seq::new(rb.ring().size() as nat, |i: int| 0u8));
        Ok(rb)
    }

    /// Open an existing ring buffer from the header and the memory of its region. Fails
    /// exactly if the name has a NUL character or the magic number is wrong.
    pub fn open(name: &str, header: RingBufHeader, data: Vec<u8>) -> (r: Result<Self, RingBufError>)
        requires
            header.magic == RINGBUF_MAGIC ==> header.buffer_frames * header.frame_bytes
                <= data@.len(),
        ensures
            match r {
                Ok(rb) => {
                    &&& !name@.contains('\0')
                    &&& header.magic == RINGBUF_MAGIC
                    &&& rb.wf()
                    &&& rb.region() == name@
                    &&& rb.head() == header
                    &&& rb.storage() == data@
                    &&& rb.ring() == (RingGeometry {
                        frame_bytes: header.frame_bytes as usize,
                        buffer_frames: header.buffer_frames,
                    })
                },
                Err(e) => if name@.contains('\0') {
                    e == RingBufError::InvalidName
                } else {
                    header.magic != RINGBUF_MAGIC && e == RingBufError::InvalidMagic
                },
            },
    {
        if text::has_nul(name) {
            return Err(RingBufError::InvalidName);
        }
        match header.validate() {
            Err(e) => Err(e),
            Ok(_) => {
                let len: usize = data.len();
                assert(header.buffer_frames * header.frame_bytes <= len);
                Ok(
                    Self {
                        name: name.to_owned(),
                        header,
                        data,
                        geometry: RingGeometry {
                            frame_bytes: header.frame_bytes as usize,
                            buffer_frames: header.buffer_frames,
                        },
                    },
                )
            },
        }
    }

    /// Check if buffer is in running state
    pub fn is_running(&self) -> (r: bool)
        ensures
            r == self.head().runs(),
    {
        self.header.is_running()
    }

    /// The header as it is now
    pub fn snapshot(&self) -> (r: RingBufHeader)
        ensures
            r == self.head(),
    {
        self.header
    }

    /// The size of the ring and of its frames
    pub fn geometry(&self) -> (r: RingGeometry)
        ensures
            r == self.ring(),
    {
        self.geometry
    }

    /// Set running state
    pub fn set_running(&mut self, running: bool)
        ensures
            final(self).switched_from(old(self), running),
            final(self)@ == old(self)@,
    {
        self.header.flags = if running {
            FLAG_RUNNING
        } else {
            FLAG_STOPPED
        };
        assert(self@ =~= old(self)@);
    }

    /// Get available frame count for reading
    pub fn available_frames(&self) -> (r: usize)
        requires
            self.ring().comparable(self.head().write_index, self.head().read_index),
            self.pending_frames() <= usize::MAX,
        ensures
            r == self.pending_frames(),
    {
        self.geometry.used(self.header.write_index, self.header.read_index) as usize
    }

    /// Get the frame size in bytes
    pub fn frame_bytes(&self) -> (r: usize)
        ensures
            r == self.ring().frame_bytes,
    {
        self.geometry.frame_bytes
    }

    /// Reset the buffer (clear read/write indices)
    pub fn reset(&mut self)
        ensures
            final(self).same_ring(old(self)),
            final(self).storage() == old(self).storage(),
            final(self).head().write_index == 0,
            final(self).head().read_index == 0,
            final(self).consistent(),
            final(self)@ == Seq::<u8>::empty(),
    {
        self.header.write_index = 0;
        self.header.read_index = 0;
        assert(self.pending_frames() * self.ring().frame_bytes == 0) by (nonlinear_arith)
            requires
                self.pending_frames() == 0,
        ;
        assert(self@ =~= Seq::<u8>::empty());
    }
}

/// Moving a position on by at most the capacity moves its slot on by as much, around the
/// end of the ring.
proof fn lemma_slot_advance(index: int, by: int, to: int, capacity: int)
    requires
        capacity > 0,
        index >= 0,
        0 <= by <= capacity,
        to == index + by || to == index + by - capacity,
    ensures
        to % capacity == ring_position(index % capacity, by, capacity),
{
    let q = index / capacity;
    let m = index % capacity;
    vstd::arithmetic::div_mod::lemma_fundamental_div_mod(index, capacity);
    vstd::arithmetic::mul::lemma_mul_is_commutative(q, capacity);
    assert((q + 1) * capacity == q * capacity + capacity) by (nonlinear_arith);
    assert((q - 1) * capacity == q * capacity - capacity) by (nonlinear_arith);
    let k = if to == index + by {
        q
    } else {
        q - 1
    };
    if m + by < capacity {
        vstd::arithmetic::div_mod::lemma_fundamental_div_mod_converse(to, capacity, k, m + by);
    } else {
        assert((k + 1) * capacity == k * capacity + capacity) by (nonlinear_arith);
        vstd::arithmetic::div_mod::lemma_fundamental_div_mod_converse(
            to,
            capacity,
            k + 1,
            m + by - capacity,
        );
    }
}

/// The byte offset of a position that is moved on by at most the capacity.
proof fn lemma_offset_advance(g: RingGeometry, index: u64, by: int, to: u64)
    requires
        g.buffer_frames > 0,
        0 <= by <= g.buffer_frames,
        to == index + by || to == index + by - g.buffer_frames,
    ensures
        g.offset_of(to) == ring_position(g.offset_of(index), by * g.frame_bytes, g.size()),
        0 <= g.offset_of(index) <= g.size(),
        g.frame_bytes > 0 ==> g.offset_of(index) < g.size(),
        0 <= by * g.frame_bytes <= g.size(),
{
    let cap = g.buffer_frames as int;
    let fb = g.frame_bytes as int;
    let m = index as int % cap;
    lemma_slot_advance(index as int, by, to as int, cap);
    assert((m + by) * fb == m * fb + by * fb) by (nonlinear_arith);
    assert((m + by - cap) * fb == m * fb + by * fb - cap * fb) by (nonlinear_arith);
    assert(0 <= m * fb && m * fb + fb <= cap * fb && 0 <= by * fb <= cap * fb) by (nonlinear_arith)
        requires
            0 <= m,
            m + 1 <= cap,
            0 <= by <= cap,
            fb >= 0,
    ;
    if m + by < cap {
        assert((m + by) * fb <= (cap - 1) * fb && (cap - 1) * fb == cap * fb - fb)
            by (nonlinear_arith)
            requires
                m + by <= cap - 1,
                fb >= 0,
        ;
        if fb == 0 {
            assert(m * fb == 0 && by * fb == 0 && cap * fb == 0) by (nonlinear_arith)
                requires
                    fb == 0,
            ;
        }
    } else {
        assert((m + by) * fb >= cap * fb) by (nonlinear_arith)
            requires
                m + by >= cap,
                fb >= 0,
        ;
    }
}

/// Copies `n` bytes from `src[from..]` to `dst[at..]`.
fn copy_bytes(dst: &mut Vec<u8>, at: usize, src: &[u8], from: usize, n: usize)
    requires
        at + n <= old(dst)@.len(),
        from + n <= src@.len(),
    ensures
        final(dst)@.len() == old(dst)@.len(),
        forall|i: int|
            0 <= i < final(dst)@.len() ==> #[trigger] final(dst)@[i] == if at <= i < at + n {
                src@[from + i - at]
            } else {
                old(dst)@[i]
            },
{
    let dst_len: usize = dst.len();
    let src_len: usize = src.len();
    let mut k: usize = 0;
    while k < n
        invariant
            k <= n,
            at + n <= dst_len,
            from + n <= src_len,
            dst_len == dst@.len(),
            src_len == src@.len(),
            dst@.len() == old(dst)@.len(),
            forall|i: int|
                0 <= i < dst@.len() ==> #[trigger] dst@[i] == if at <= i < at + k {
                    src@[from + i - at]
                } else {
                    old(dst)@[i]
                },
        decreases n - k,
    {
        dst.set(at + k, src[from + k]);
        k = k + 1;
    }
}

/// Copies `n` bytes from `src[from..]` to `dst[at..]`.
fn copy_to_slice(dst: &mut [u8], at: usize, src: &Vec<u8>, from: usize, n: usize)
    requires
        at + n <= old(dst)@.len(),
        from + n <= src@.len(),
    ensures
        final(dst)@.len() == old(dst)@.len(),
        forall|i: int|
            0 <= i < final(dst)@.len() ==> #[trigger] final(dst)@[i] == if at <= i < at + n {
                src@[from + i - at]
            } else {
                old(dst)@[i]
            },
{
    let dst_len: usize = dst.len();
    let src_len: usize = src.len();
    let mut k: usize = 0;
    while k < n
        invariant
            k <= n,
            at + n <= dst_len,
            from + n <= src_len,
            dst_len == dst@.len(),
            src_len == src@.len(),
            dst@.len() == old(dst)@.len(),
            forall|i: int|
                0 <= i < dst@.len() ==> #[trigger] dst@[i] == if at <= i < at + k {
                    src@[from + i - at]
                } else {
                    old(dst)@[i]
                },
        decreases n - k,
    {
        dst[at + k] = src[from + k];
        k = k + 1;
    }
}

impl RingBuffer {
    /// Write audio frames to the ring buffer (producer side)
    /// Returns number of frames actually written
    pub fn write(&mut self, data: &[u8]) -> (r: Result<usize, RingBufError>)
        requires
            old(self).wf(),
            old(self).can_write(data@.len() as int),
            old(self).head().write_index + old(self).writable(data@.len() as int) <= u64::MAX,
        ensures
            r is Ok,
            r->Ok_0 == old(self).writable(data@.len() as int),
            final(self).written_from(old(self), data@, r->Ok_0 as int),
    {
        let t: Transfer = self.geometry.plan_write(
            self.header.write_index,
            self.header.read_index,
            data.len(),
        );
        let ghost before = *self;
        if t.frames == 0 {
            assert(data@.take(0 * old(self).ring().frame_bytes) =~= Seq::<u8>::empty());
            assert(self@ =~= old(self)@ + data@.take(0 * old(self).ring().frame_bytes));
            return Ok(0);
        }
        copy_bytes(&mut self.data, t.offset, data, 0, t.first);
        copy_bytes(&mut self.data, 0, data, t.first, t.second);
        self.header.write_index = self.header.write_index + t.frames as u64;
        proof {
            if before.consistent() {
                lemma_written(before, *self, data@, t);
            }
        }
        Ok(t.frames)
    }
}

/// Frames that are copied behind those in the ring are appended to them.
proof fn lemma_written(before: RingBuffer, after: RingBuffer, data: Seq<u8>, t: Transfer)
    requires
        before.wf(),
        before.consistent(),
        before.ring().frame_bytes > 0,
        0 < t.frames <= frames_free(before.pending_frames(), before.ring().buffer_frames),
        t == before.ring().block(before.head().write_index, t.frames as int),
        t.first + t.second == t.frames * before.ring().frame_bytes,
        t.first + t.second <= data.len(),
        t.offset + t.first <= before.ring().size(),
        t.second <= t.offset,
        after.ring() == before.ring(),
        after.head() == (RingBufHeader {
            write_index: after.head().write_index,
            ..before.head()
        }),
        after.head().write_index == before.head().write_index + t.frames,
        after.storage().len() == before.storage().len(),
        forall|i: int|
            0 <= i < after.storage().len() ==> #[trigger] after.storage()[i] == if 0 <= i
                < t.second {
                data[t.first + i]
            } else if t.offset <= i < t.offset + t.first {
                data[i - t.offset]
            } else {
                before.storage()[i]
            },
    ensures
        after.consistent(),
        after@ == before@ + data.take(t.frames * before.ring().frame_bytes),
{
    let g = before.ring();
    let used = before.pending_frames();
    let fb = g.frame_bytes as int;
    let size = g.size();
    let start = g.offset_of(before.head().read_index);
    lemma_offset_advance(g, before.head().read_index, used, before.head().write_index);
    let used_bytes = used * fb;
    let new_bytes = t.frames * fb;
    assert((used + t.frames) * fb == used_bytes + new_bytes) by (nonlinear_arith)
        requires
            used_bytes == used * fb,
            new_bytes == t.frames * fb,
    ;
    assert(used_bytes + new_bytes < size && new_bytes > 0) by (nonlinear_arith)
        requires
            used_bytes + new_bytes == (used + t.frames) * fb,
            used + t.frames + 1 <= g.buffer_frames,
            used >= 0,
            t.frames > 0,
            fb > 0,
            size == g.buffer_frames * fb,
            new_bytes == t.frames * fb,
    ;
    assert(after.pending_frames() == used + t.frames);
    assert(t.offset == ring_position(start, used_bytes, size));
    assert(t.first == min(new_bytes, size - t.offset));
    let expected = before@ + data.take(new_bytes);
    assert forall|j: int| 0 <= j < used_bytes + new_bytes implies #[trigger] after@[j]
        == expected[j] by {
        let p = ring_position(start, j, size);
        assert(after@[j] == after.storage()[p]);
        if j < used_bytes {
            assert(expected[j] == before@[j]);
            assert(before@[j] == before.storage()[p]);
        } else {
            assert(expected[j] == data[j - used_bytes]);
        }
    }
    assert(after@ =~= expected);
}

impl RingBuffer {
    /// Read audio frames from the ring buffer (consumer side)
    /// Returns number of frames actually read
    pub fn read(&mut self, buf: &mut [u8]) -> (r: Result<usize, RingBufError>)
        requires
            old(self).wf(),
            old(self).can_read(old(buf)@.len() as int),
            old(self).head().read_index + old(self).readable(old(buf)@.len() as int) <= u64::MAX,
        ensures
            r is Ok,
            r->Ok_0 == old(self).readable(old(buf)@.len() as int),
            final(self).read_from(old(self), r->Ok_0 as int),
            final(buf)@ == old(self)@.take(r->Ok_0 * old(self).ring().frame_bytes) + old(
                buf,
            )@.skip(r->Ok_0 * old(self).ring().frame_bytes),
    {
        let t: Transfer = self.geometry.plan_read(
            self.header.write_index,
            self.header.read_index,
            buf.len(),
        );
        let ghost fb = self.geometry.frame_bytes as int;
        if t.frames == 0 {
            assert(0 * fb == 0);
            assert(buf@ =~= old(self)@.take(0 * fb) + old(buf)@.skip(0 * fb));
            assert(self@ =~= old(self)@.skip(0 * fb));
            return Ok(0);
        }
        copy_to_slice(buf, 0, &self.data, t.offset, t.first);
        copy_to_slice(buf, t.first, &self.data, 0, t.second);
        self.header.read_index = self.header.read_index + t.frames as u64;
        proof {
            let n = t.frames * fb;
            let used = old(self).pending_frames();
            assert(n <= used * fb) by (nonlinear_arith)
                requires
                    n == t.frames * fb,
                    t.frames <= used,
                    fb >= 0,
            ;
            let g = old(self).ring();
            let start = g.offset_of(old(self).head().read_index);
            lemma_offset_advance(
                g,
                old(self).head().read_index,
                t.frames as int,
                self.head().read_index,
            );
            assert(start == t.offset);
            assert(t.first == min(n, g.size() - start));
            assert forall|j: int| 0 <= j < n implies #[trigger] buf@[j] == old(self)@[j] by {
                assert(old(self)@[j] == old(self).storage()[ring_position(start, j, g.size())]);
            }
            assert(buf@ =~= old(self)@.take(n) + old(buf)@.skip(n));
            if old(self).consistent() {
                assert(self.pending_frames() == used - t.frames);
                assert((used - t.frames) * fb == used * fb - n) by (nonlinear_arith)
                    requires
                        n == t.frames * fb,
                ;
                lemma_offset_advance(
                    g,
                    old(self).head().read_index,
                    used,
                    old(self).head().write_index,
                );
                assert forall|j: int| 0 <= j < used * fb - n implies #[trigger] self@[j] == old(
                    self,
                )@.skip(n)[j] by {
                    assert(old(self)@.skip(n)[j] == old(self)@[j + n]);
                    let next = ring_position(start, n, g.size());
                    assert(ring_position(next, j, g.size()) == ring_position(
                        start,
                        j + n,
                        g.size(),
                    ));
                }
                assert(self@ =~= old(self)@.skip(n));
            }
        }
        Ok(t.frames)
    }
}

// ---------------------------------------------------------------------------
// One ring per channel
// ---------------------------------------------------------------------------

/// Set of ring buffers: one per virtual audio channel
pub struct RingBufferSet {
    /// Capture ring buffers (USB hardware to virtual ALSA input)
    pub capture: Vec<RingBuffer>,
    /// Playback ring buffers (virtual ALSA output to USB hardware)
    pub playback: Vec<RingBuffer>,
}

/// The format of the frames in the ring buffers: stereo, 32-bit.
pub open spec fn bridge_format_of(sample_rate: u32) -> AudioFormat {
    AudioFormat { sample_rate, channels: 2, format: SampleFormat::S32LE }
}

/// Prefix of the region names of capture channels.
pub open spec fn capture_prefix() -> Seq<char> {
    "rodecaster_vad_cap_"@
}

/// Prefix of the region names of playback channels.
pub open spec fn playback_prefix() -> Seq<char> {
    "rodecaster_vad_pb_"@
}

/// There is a new ring for each channel, named after it.
pub open spec fn rings_for(
    rings: Seq<RingBuffer>,
    channels: Seq<ChannelConfig>,
    prefix: Seq<char>,
    format: AudioFormat,
    frames: u32,
) -> bool {
    &&& rings.len() == channels.len()
    &&& forall|i: int|
        0 <= i < channels.len() ==> (#[trigger] rings[i]).is_new(
            prefix + channels[i].alsa_id@,
            format,
            frames,
        )
}

/// All IDs can be part of the name of a region.
pub open spec fn usable_ids(channels: Seq<ChannelConfig>) -> bool {
    forall|i: int| 0 <= i < channels.len() ==> !(#[trigger] channels[i]).alsa_id@.contains('\0')
}

/// One of the channels has this ID.
pub open spec fn id_taken(channels: Seq<ChannelConfig>, id: Seq<char>) -> bool {
    exists|i: int| 0 <= i < channels.len() && (#[trigger] channels[i]).alsa_id@ == id
}

/// Why there cannot be a ring for each of the channels, each in a region of its own: the
/// first channel for which there cannot be one has an ID that cannot be part of a name, or
/// that of a channel before it.
pub open spec fn region_conflict(channels: Seq<ChannelConfig>) -> Option<RingBufError>
    decreases channels.len(),
{
    if channels.len() == 0 {
        None
    } else if region_conflict(channels.drop_last()) is Some {
        region_conflict(channels.drop_last())
    } else if channels.last().alsa_id@.contains('\0') {
        Some(RingBufError::InvalidName)
    } else if id_taken(channels.drop_last(), channels.last().alsa_id@) {
        Some(RingBufError::NameInUse)
    } else {
        None
    }
}

/// A conflict among the first channels is one among all.
proof fn lemma_conflict_stays(channels: Seq<ChannelConfig>, n: int)
    requires
        0 <= n <= channels.len(),
        region_conflict(channels.take(n)) is Some,
    ensures
        region_conflict(channels) == region_conflict(channels.take(n)),
    decreases channels.len() - n,
{
    if n == channels.len() {
        assert(channels.take(n) =~= channels);
    } else {
        assert(channels.take(n + 1).drop_last() =~= channels.take(n));
        lemma_conflict_stays(channels, n + 1);
    }
}

/// There is no conflict exactly if all IDs can be used and no two channels share one.
pub proof fn lemma_no_conflict(channels: Seq<ChannelConfig>)
    ensures
        region_conflict(channels) is None <==> usable_ids(channels)
            && crate::config::distinct_ids(channels),
    decreases channels.len(),
{
    if channels.len() > 0 {
        let rest = channels.drop_last();
        let last = channels.last();
        let n = channels.len() - 1;
        lemma_no_conflict(rest);
        assert forall|i: int| 0 <= i < n implies #[trigger] rest[i] == channels[i] by {}
        if region_conflict(channels) is None {
            assert forall|i: int| 0 <= i < channels.len() implies !(
            #[trigger] channels[i]).alsa_id@.contains('\0') by {
                if i < n {
                    assert(!rest[i].alsa_id@.contains('\0'));
                }
            }
            assert forall|i: int, j: int| 0 <= i < j < channels.len() implies (
            #[trigger] channels[i]).alsa_id@ != (#[trigger] channels[j]).alsa_id@ by {
                assert(rest[i] == channels[i]);
                if j < n {
                    assert(rest[j] == channels[j]);
                }
            }
        }
        if usable_ids(channels) && crate::config::distinct_ids(channels) {
            assert(usable_ids(rest)) by {
                assert forall|i: int| 0 <= i < rest.len() implies !(
                #[trigger] rest[i]).alsa_id@.contains('\0') by {
                    assert(!channels[i].alsa_id@.contains('\0'));
                }
            }
            assert(crate::config::distinct_ids(rest)) by {
                assert forall|i: int, j: int| 0 <= i < j < rest.len() implies (
                #[trigger] rest[i]).alsa_id@ != (#[trigger] rest[j]).alsa_id@ by {
                    assert(channels[i].alsa_id@ != channels[j].alsa_id@);
                }
            }
            assert(!id_taken(rest, last.alsa_id@)) by {
                if id_taken(rest, last.alsa_id@) {
                    let i = choose|i: int|
                        0 <= i < rest.len() && (#[trigger] rest[i]).alsa_id@ == last.alsa_id@;
                    assert(channels[i].alsa_id@ != channels[n].alsa_id@);
                }
            }
        }
    }
}

/// Tells whether one of the first `n` channels has the ID of the channel at `n`.
fn is_repeated(channels: &Vec<ChannelConfig>, n: usize) -> (r: bool)
    requires
        n < channels@.len(),
    ensures
        r == id_taken(channels@.take(n as int), channels@[n as int].alsa_id@),
{
    let ghost before = channels@.take(n as int);
    let mut i: usize = 0;
    while i < n
        invariant
            i <= n,
            n < channels@.len(),
            before == channels@.take(n as int),
            forall|k: int|
                0 <= k < i ==> (#[trigger] before[k]).alsa_id@ != channels@[n as int].alsa_id@,
        decreases n - i,
    {
        if text::same(channels[i].alsa_id.as_str(), channels[n].alsa_id.as_str()) {
            assert(before[i as int].alsa_id@ == channels@[n as int].alsa_id@);
            return true;
        }
        assert(before[i as int] == channels@[i as int]);
        i = i + 1;
    }
    false
}

/// Each ring is the one at the same place, set to run or to stop.
pub open spec fn all_switched(after: Seq<RingBuffer>, before: Seq<RingBuffer>, running: bool) -> bool {
    &&& after.len() == before.len()
    &&& forall|i: int|
        0 <= i < before.len() ==> (#[trigger] after[i]).switched_from(&before[i], running)
}

/// The format of the frames in the ring buffers.
pub fn bridge_format(cfg: &VadConfig) -> (r: AudioFormat)
    ensures
        r == bridge_format_of(cfg.sample_rate),
        r.frame_width() == 8,
{
    AudioFormat { sample_rate: cfg.sample_rate, channels: 2, format: SampleFormat::S32LE }
}

/// The name of the region of a capture channel.
pub fn capture_region(ch: &ChannelConfig) -> (r: String)
    ensures
        r@ == capture_prefix() + ch.alsa_id@,
{
    text::join("rodecaster_vad_cap_", ch.alsa_id.as_str())
}

/// The name of the region of a playback channel.
pub fn playback_region(ch: &ChannelConfig) -> (r: String)
    ensures
        r@ == playback_prefix() + ch.alsa_id@,
{
    text::join("rodecaster_vad_pb_", ch.alsa_id.as_str())
}

/// The prefixes of region names have no NUL characters.
proof fn lemma_prefixes_usable()
    ensures
        !capture_prefix().contains('\0'),
        !playback_prefix().contains('\0'),
{
    reveal_strlit("rodecaster_vad_cap_");
    reveal_strlit("rodecaster_vad_pb_");
}

/// A prefix without NUL characters adds none.
proof fn lemma_contains_behind(p: Seq<char>, a: Seq<char>)
    requires
        !p.contains('\0'),
    ensures
        (p + a).contains('\0') <==> a.contains('\0'),
{
    if (p + a).contains('\0') {
        let i = choose|i: int| 0 <= i < (p + a).len() && (p + a)[i] == '\0';
        if i < p.len() {
            assert(p[i] == '\0');
        }
        assert(a[i - p.len()] == '\0');
    }
    if a.contains('\0') {
        let i = choose|i: int| 0 <= i < a.len() && a[i] == '\0';
        assert((p + a)[p.len() + i] == '\0');
    }
}

/// Sets all rings to run or to stop.
fn switch_all(rings: &mut Vec<RingBuffer>, running: bool)
    ensures
        all_switched(final(rings)@, old(rings)@, running),
{
    let mut i: usize = 0;
    while i < rings.len()
        invariant
            i <= rings@.len(),
            rings@.len() == old(rings)@.len(),
            forall|k: int|
                0 <= k < i ==> (#[trigger] rings@[k]).switched_from(&old(rings)@[k], running),
            forall|k: int| i <= k < rings@.len() ==> #[trigger] rings@[k] == old(rings)@[k],
        decreases rings@.len() - i,
    {
        rings[i].set_running(running);
        i = i + 1;
    }
}

/// Creates a ring for each channel, in the region with this prefix and the ID of the
/// channel in its name.
fn create_rings(
    channels: &Vec<ChannelConfig>,
    prefix: &str,
    format: &AudioFormat,
    frames: u32,
) -> (r: Result<Vec<RingBuffer>, RingBufError>)
    requires
        !prefix@.contains('\0'),
        HEADER_BYTES + frames * format.frame_width() <= usize::MAX,
    ensures
        match r {
            Ok(rings) => {
                &&& region_conflict(channels@) is None
                &&& rings_for(rings@, channels@, prefix@, *format, frames)
            },
            Err(e) => region_conflict(channels@) == Some(e),
        },
{
    let mut rings: Vec<RingBuffer> = Vec::new();
    let mut i: usize = 0;
    while i < channels.len()
        invariant
            i <= channels@.len(),
            !prefix@.contains('\0'),
            HEADER_BYTES + frames * format.frame_width() <= usize::MAX,
            region_conflict(channels@.take(i as int)) is None,
            rings_for(rings@, channels@.take(i as int), prefix@, *format, frames),
        decreases channels@.len() - i,
    {
        let name: String = text::join(prefix, channels[i].alsa_id.as_str());
        let ghost next = channels@.take(i + 1);
        proof {
            assert(next.drop_last() =~= channels@.take(i as int));
            assert(next.last() == channels@[i as int]);
            lemma_contains_behind(prefix@, next.last().alsa_id@);
        }
        match RingBuffer::create(name.as_str(), format, frames) {
            Ok(rb) => {
                if is_repeated(channels, i) {
                    proof {
                        lemma_conflict_stays(channels@, i + 1);
                    }
                    return Err(RingBufError::NameInUse);
                }
                rings.push(rb);
            },
            Err(e) => {
                proof {
                    lemma_conflict_stays(channels@, i + 1);
                }
                return Err(e);
            },
        }
        i = i + 1;
    }
    assert(channels@.take(i as int) =~= channels@);
    Ok(rings)
}

impl RingBufferSet {
    /// Create all ring buffers, each in a region of its own. Fails exactly if the ID of a
    /// channel has a NUL character or is that of another channel in the same direction.
    pub fn new(cfg: &VadConfig) -> (r: Result<Self, RingBufError>)
        requires
            cfg.period_frames * cfg.num_periods <= u32::MAX,
            HEADER_BYTES + cfg.period_frames * cfg.num_periods * 8 <= usize::MAX,
        ensures
            r is Ok <==> {
                &&& usable_ids(cfg.capture_channels@)
                &&& crate::config::distinct_ids(cfg.capture_channels@)
                &&& usable_ids(cfg.playback_channels@)
                &&& crate::config::distinct_ids(cfg.playback_channels@)
            },
            match r {
                Ok(set) => {
                    let frames = (cfg.period_frames * cfg.num_periods) as u32;
                    let format = bridge_format_of(cfg.sample_rate);
                    &&& rings_for(
                        set.capture@,
                        cfg.capture_channels@,
                        capture_prefix(),
                        format,
                        frames,
                    )
                    &&& rings_for(
                        set.playback@,
                        cfg.playback_channels@,
                        playback_prefix(),
                        format,
                        frames,
                    )
                },
                Err(e) => if region_conflict(cfg.capture_channels@) is Some {
                    region_conflict(cfg.capture_channels@) == Some(e)
                } else {
                    region_conflict(cfg.playback_channels@) == Some(e)
                },
            },
    {
        let format = bridge_format(cfg);
        let total_frames: u32 = cfg.period_frames * cfg.num_periods;
        proof {
            lemma_prefixes_usable();
            lemma_no_conflict(cfg.capture_channels@);
            lemma_no_conflict(cfg.playback_channels@);
        }
        let capture: Vec<RingBuffer> = match create_rings(
            &cfg.capture_channels,
            "rodecaster_vad_cap_",
            &format,
            total_frames,
        ) {
            Ok(rings) => rings,
            Err(e) => return Err(e),
        };
        let playback: Vec<RingBuffer> = match create_rings(
            &cfg.playback_channels,
            "rodecaster_vad_pb_",
            &format,
            total_frames,
        ) {
            Ok(rings) => rings,
            Err(e) => return Err(e),
        };
        Ok(Self { capture, playback })
    }

    /// Set all buffers to running
    pub fn set_all_running(&mut self)
        ensures
            all_switched(final(self).capture@, old(self).capture@, true),
            all_switched(final(self).playback@, old(self).playback@, true),
    {
        switch_all(&mut self.capture, true);
        switch_all(&mut self.playback, true);
    }

    /// Stop all buffers
    pub fn stop_all(&mut self)
        ensures
            all_switched(final(self).capture@, old(self).capture@, false),
            all_switched(final(self).playback@, old(self).playback@, false),
    {
        switch_all(&mut self.capture, false);
        switch_all(&mut self.playback, false);
    }
}

// ---------------------------------------------------------------------------
// Laws
// ---------------------------------------------------------------------------

/// What is read are the oldest frames of those that were written, in their order: after a
/// write, a read of `m` frames gives the first `m` of the frames that were waiting before
/// followed by those that were written, and leaves the rest.
pub proof fn law_first_in_first_out(
    before: RingBuffer,
    data: Seq<u8>,
    n: int,
    written: RingBuffer,
    m: int,
    after: RingBuffer,
)
    requires
        before.wf(),
        before.consistent(),
        before.ring().frame_bytes > 0,
        n == before.writable(data.len() as int),
        written.written_from(&before, data, n),
        0 <= m <= written.pending_frames(),
        after.read_from(&written, m),
    ensures
        ({
            let fb = before.ring().frame_bytes;
            let stream = before@ + data.take(n * fb);
            &&& stream == written@.take(m * fb) + after@
            &&& after.pending_frames() == before.pending_frames() + n - m
        }),
{
    let fb = before.ring().frame_bytes as int;
    assert(0 <= m * fb <= written.pending_frames() * fb) by (nonlinear_arith)
        requires
            0 <= m <= written.pending_frames(),
            fb > 0,
    ;
    assert(written@.take(m * fb) + written@.skip(m * fb) =~= written@);
}

/// A block of whole frames that is shorter than the capacity, written to an empty ring, is
/// read back as it was written, and the ring is empty again.
pub proof fn law_read_returns_written(
    before: RingBuffer,
    data: Seq<u8>,
    n: int,
    written: RingBuffer,
    room: Seq<u8>,
    m: int,
    after: RingBuffer,
)
    requires
        before.wf(),
        before.consistent(),
        before.pending_frames() == 0,
        before.ring().frame_bytes > 0,
        data.len() as int % before.ring().frame_bytes as int == 0,
        data.len() as int / (before.ring().frame_bytes as int) < before.ring().buffer_frames,
        n == before.writable(data.len() as int),
        written.written_from(&before, data, n),
        room.len() >= data.len(),
        m == written.readable(room.len() as int),
        after.read_from(&written, m),
    ensures
        n == data.len() as int / before.ring().frame_bytes as int,
        m == n,
        written@.take(m * before.ring().frame_bytes) + room.skip(m * before.ring().frame_bytes)
            == data + room.skip(data.len() as int),
        after@ == Seq::<u8>::empty(),
{
    let fb = before.ring().frame_bytes as int;
    let k = data.len() as int / fb;
    vstd::arithmetic::div_mod::lemma_fundamental_div_mod(data.len() as int, fb);
    vstd::arithmetic::mul::lemma_mul_is_commutative(fb, k);
    vstd::arithmetic::div_mod::lemma_div_is_ordered(data.len() as int, room.len() as int, fb);
    assert(before.pending_frames() * fb == 0) by (nonlinear_arith)
        requires
            before.pending_frames() == 0,
    ;
    assert(before@ =~= Seq::<u8>::empty());
    if data.len() > 0 {
        assert(data.len() >= fb) by (nonlinear_arith)
            requires
                data.len() == k * fb,
                data.len() > 0,
                fb > 0,
        ;
    }
    assert(n == k) by {
        if data.len() == 0 {
            assert(k == 0) by (nonlinear_arith)
                requires
                    k * fb == 0,
                    fb > 0,
            ;
        }
    }
    assert(data.take(n * fb) =~= data);
    assert(written@ =~= data);
    assert(written.pending_frames() == k);
    assert(m == k);
    assert(data.take(m * fb) =~= data);
    assert(after@ =~= Seq::<u8>::empty());
}

/// A ring that holds fewer frames than its capacity keeps doing so: a write leaves one
/// slot free, and one that is cut short has filled all others.
pub proof fn law_never_full(before: RingBuffer, data: Seq<u8>, n: int, after: RingBuffer)
    requires
        before.consistent(),
        before.pending_frames() < before.ring().buffer_frames,
        n == before.writable(data.len() as int),
        after.written_from(&before, data, n),
    ensures
        after.pending_frames() < after.ring().buffer_frames,
        data.len() as int / (before.ring().frame_bytes as int) > n && before.ring().holds_frame(
            data.len() as int,
        ) ==> after.pending_frames() == after.ring().buffer_frames - 1,
{
}

/// A ring opened from the region of a new one is empty and has the same geometry.
pub proof fn law_open_new(
    new: RingBuffer,
    opened: RingBuffer,
    name: Seq<char>,
    format: AudioFormat,
    frames: u32,
)
    requires
        new.is_new(name, format, frames),
        opened.head() == new.head(),
        opened.storage() == new.storage(),
        opened.ring() == (RingGeometry {
            frame_bytes: opened.head().frame_bytes as usize,
            buffer_frames: opened.head().buffer_frames,
        }),
    ensures
        opened.head().magic == RINGBUF_MAGIC,
        opened.ring() == new.ring(),
        opened.consistent(),
        opened@ == Seq::<u8>::empty(),
{
    let w = format.format.width();
    assert(0 <= format.channels * w <= 0xffff * 4) by (nonlinear_arith)
        requires
            0 <= format.channels <= 0xffff,
            2 <= w <= 4,
    ;
    assert(opened@ =~= new@);
}

/// The regions of all channels have different names, if the channels of each direction
/// have different IDs.
pub proof fn law_region_names(capture: Seq<ChannelConfig>, playback: Seq<ChannelConfig>)
    requires
        crate::config::distinct_ids(capture),
        crate::config::distinct_ids(playback),
    ensures
        forall|i: int, j: int|
            0 <= i < j < capture.len() ==> capture_prefix() + (#[trigger] capture[i]).alsa_id@
                != capture_prefix() + (#[trigger] capture[j]).alsa_id@,
        forall|i: int, j: int|
            0 <= i < j < playback.len() ==> playback_prefix() + (#[trigger] playback[i]).alsa_id@
                != playback_prefix() + (#[trigger] playback[j]).alsa_id@,
        forall|i: int, j: int|
            0 <= i < capture.len() && 0 <= j < playback.len() ==> capture_prefix() + (
            #[trigger] capture[i]).alsa_id@ != playback_prefix() + (
            #[trigger] playback[j]).alsa_id@,
{
    reveal_strlit("rodecaster_vad_cap_");
    reveal_strlit("rodecaster_vad_pb_");
    assert forall|i: int, j: int| 0 <= i < j < capture.len() implies capture_prefix() + (
    #[trigger] capture[i]).alsa_id@ != capture_prefix() + (#[trigger] capture[j]).alsa_id@ by {
        lemma_same_prefix(capture_prefix(), capture[i].alsa_id@, capture[j].alsa_id@);
    }
    assert forall|i: int, j: int| 0 <= i < j < playback.len() implies playback_prefix() + (
    #[trigger] playback[i]).alsa_id@ != playback_prefix() + (
    #[trigger] playback[j]).alsa_id@ by {
        lemma_same_prefix(playback_prefix(), playback[i].alsa_id@, playback[j].alsa_id@);
    }
    assert forall|i: int, j: int| 0 <= i < capture.len() && 0 <= j < playback.len() implies
        capture_prefix() + (#[trigger] capture[i]).alsa_id@ != playback_prefix() + (
    #[trigger] playback[j]).alsa_id@ by {
        let a = capture_prefix() + capture[i].alsa_id@;
        let b = playback_prefix() + playback[j].alsa_id@;
        assert(a[15] == 'c' && b[15] == 'p');
    }
}

/// Whole frames in a buffer, as the quotient of the lengths.
proof fn lemma_whole_frames_are(len: int, frame_bytes: int, b: int)
    requires
        frame_bytes > 0,
        b >= 0,
        b * frame_bytes <= len < (b + 1) * frame_bytes,
    ensures
        len / frame_bytes == b,
        len < frame_bytes <==> b == 0,
{
    assert((b + 1) * frame_bytes == b * frame_bytes + frame_bytes) by (nonlinear_arith);
    vstd::arithmetic::div_mod::lemma_fundamental_div_mod_converse(
        len,
        frame_bytes,
        b,
        len - b * frame_bytes,
    );
    if b > 0 {
        assert(b * frame_bytes >= frame_bytes) by (nonlinear_arith)
            requires
                b >= 1,
                frame_bytes > 0,
        ;
    }
}

/// A read moves as many frames as wait in the ring and fit in the buffer: with `p` frames
/// waiting, and room for `b` whole frames, exactly `b` if these are no more than `p`, and
/// exactly `p` otherwise.
pub proof fn law_read_moves_what_fits(rb: RingBuffer, len: int, b: int, p: int)
    requires
        rb.ring().frame_bytes > 0,
        b >= 0,
        b * rb.ring().frame_bytes <= len < (b + 1) * rb.ring().frame_bytes,
        p >= 0,
        p == rb.head().write_index - rb.head().read_index + if rb.head().write_index
            >= rb.head().read_index {
            0
        } else {
            rb.ring().buffer_frames as int
        },
    ensures
        rb.readable(len) == if b <= p {
            b
        } else {
            p
        },
        rb.readable(len) == 0 <==> b == 0 || p == 0,
{
    lemma_whole_frames_are(len, rb.ring().frame_bytes as int, b);
}

/// A write moves as many frames as are in the buffer and fit in the ring with one slot left
/// free: with `p` frames waiting and `b` whole frames in the buffer, exactly `b` if these and
/// one more fit beside the `p`, and otherwise as many as do.
pub proof fn law_write_moves_what_fits(rb: RingBuffer, len: int, b: int, p: int)
    requires
        rb.ring().frame_bytes > 0,
        b >= 0,
        b * rb.ring().frame_bytes <= len < (b + 1) * rb.ring().frame_bytes,
        p >= 0,
        p == rb.head().write_index - rb.head().read_index + if rb.head().write_index
            >= rb.head().read_index {
            0
        } else {
            rb.ring().buffer_frames as int
        },
    ensures
        p + b + 1 <= rb.ring().buffer_frames ==> rb.writable(len) == b,
        p + b + 1 > rb.ring().buffer_frames && p + 1 <= rb.ring().buffer_frames ==> rb.writable(len)
            == rb.ring().buffer_frames - 1 - p,
        p + 1 > rb.ring().buffer_frames ==> rb.writable(len) == 0,
{
    lemma_whole_frames_are(len, rb.ring().frame_bytes as int, b);
}

/// No frame is moved for a buffer without bytes, or with fewer than a frame takes.
pub proof fn law_short_buffers_move_nothing(rb: RingBuffer, len: int)
    requires
        len <= 0 || len < rb.ring().frame_bytes,
    ensures
        rb.readable(len) == 0,
        rb.writable(len) == 0,
{
}

/// The positions are consistent exactly if the write position is ahead of the read position
/// by at most the capacity, or has wrapped and lies behind it by at most the capacity. The
/// frames between them are those that wait.
pub proof fn law_positions(rb: RingBuffer)
    ensures
        ({
            let w = rb.head().write_index;
            let r = rb.head().read_index;
            let capacity = rb.ring().buffer_frames;
            &&& rb.consistent() <==> (w >= r && w - r <= capacity) || (w < r && r - w <= capacity)
            &&& rb.ring().comparable(w, r) <==> w >= r || r - w <= capacity
            &&& w >= r ==> rb.pending_frames() == w - r
            &&& w < r ==> rb.pending_frames() == capacity - (r - w)
        }),
{
}

/// Where in a ring the byte `j` of the frame `k` frames after a position lies.
proof fn lemma_frame_position(g: RingGeometry, index: u64, k: int, j: int)
    requires
        0 <= k <= g.buffer_frames,
        0 <= j < g.frame_bytes,
        g.buffer_frames > 0,
    ensures
        ring_position(g.offset_of(index), k * g.frame_bytes + j, g.size()) == ((index + k)
            % g.buffer_frames as int) * g.frame_bytes + j,
{
    let cap = g.buffer_frames as int;
    let fb = g.frame_bytes as int;
    let m = index as int % cap;
    lemma_slot_advance(index as int, k, index + k, cap);
    if m + k < cap {
        assert((m + k) * fb == m * fb + k * fb && (m + k) * fb + fb <= cap * fb)
            by (nonlinear_arith)
            requires
                m + k + 1 <= cap,
                fb >= 0,
        ;
    } else {
        assert((m + k - cap) * fb == m * fb + k * fb - cap * fb && m * fb + k * fb >= cap * fb)
            by (nonlinear_arith)
            requires
                m + k >= cap,
                fb >= 0,
        ;
    }
}

/// What waits in a ring are the frames from the read position up to the write position, in
/// this order; the frame at a position lies in the slot of that position modulo the capacity.
pub proof fn law_pending_frames_in_storage(rb: RingBuffer, k: int, j: int)
    requires
        rb.wf(),
        0 <= k < rb.pending_frames(),
        k < rb.ring().buffer_frames,
        0 <= j < rb.ring().frame_bytes,
    ensures
        ({
            let fb = rb.ring().frame_bytes as int;
            let slot = (rb.head().read_index + k) % rb.ring().buffer_frames as int;
            &&& rb@.len() == rb.pending_frames() * fb
            &&& 0 <= k * fb + j < rb@.len()
            &&& rb@[k * fb + j] == rb.storage()[slot * fb + j]
        }),
{
    let fb = rb.ring().frame_bytes as int;
    let p = rb.pending_frames();
    assert(0 <= k * fb && k * fb + fb <= p * fb) by (nonlinear_arith)
        requires
            0 <= k,
            k + 1 <= p,
            fb > 0,
    ;
    lemma_frame_position(rb.ring(), rb.head().read_index, k, j);
}

/// The block of `frames` frames from a position on holds just these: byte `j` of its frame
/// `k` lies in the slot of that frame's position modulo the capacity.
pub proof fn law_block_positions(g: RingGeometry, index: u64, frames: int, k: int, j: int)
    requires
        g.wf(),
        0 < frames <= g.buffer_frames,
        0 <= k < frames,
        0 <= j < g.frame_bytes,
    ensures
        ({
            let t = g.block(index, frames);
            let fb = g.frame_bytes as int;
            let n = k * fb + j;
            &&& t.frames == frames
            &&& t.first + t.second == frames * fb
            &&& t.offset + t.first <= g.buffer_frames * fb
            &&& (if n < t.first {
                t.offset + n
            } else {
                n - t.first
            }) == ((index + k) % g.buffer_frames as int) * fb + j
            &&& t.covers(((index + k) % g.buffer_frames as int) * fb + j)
        }),
{
    let fb = g.frame_bytes as int;
    let cap = g.buffer_frames as int;
    let m = index as int % cap;
    assert(0 <= m * fb && m * fb + fb <= cap * fb && 0 <= frames * fb <= cap * fb && 0 <= k * fb && k
        * fb + fb <= frames * fb) by (nonlinear_arith)
        requires
            0 <= m,
            m + 1 <= cap,
            0 <= k,
            k + 1 <= frames,
            frames <= cap,
            fb > 0,
    ;
    lemma_frame_position(g, index, k, j);
}

/// An empty block moves nothing.
pub proof fn law_empty_block(g: RingGeometry, index: u64)
    ensures
        g.block(index, 0).frames == 0,
        g.block(index, 0).first == 0,
        g.block(index, 0).second == 0,
        forall|i: int| !#[trigger] g.block(index, 0).covers(i),
{
}

/// A new header is valid, has the version and the frame size of the format, and is that of
/// a stopped buffer with no frames in it.
pub proof fn law_new_header(format: AudioFormat, buffer_frames: u32)
    ensures
        ({
            let h = RingBufHeader::initial(format, buffer_frames);
            let width = match format.format {
                SampleFormat::S16LE => 2int,
                SampleFormat::S24LE => 3,
                SampleFormat::S32LE => 4,
                SampleFormat::FloatLE => 4,
            };
            &&& h.magic == 0x524F4445
            &&& h.version == 1
            &&& h.frame_bytes == format.channels * width
            &&& h.channels == format.channels
            &&& h.sample_rate == format.sample_rate
            &&& h.write_index == 0
            &&& h.read_index == 0
            &&& h.buffer_frames == buffer_frames
            &&& h.flags == 0
            &&& !h.runs()
        }),
{
    let w = format.format.width();
    assert(0 <= format.channels * w <= 0xffff * 4) by (nonlinear_arith)
        requires
            0 <= format.channels <= 0xffff,
            2 <= w <= 4,
    ;
}

/// A new ring is empty, has the capacity and the frames that were asked for, and all its
/// bytes are zero. What is read of it is nothing, whatever the room.
pub proof fn law_new_ring(rb: RingBuffer, name: Seq<char>, format: AudioFormat, frames: u32, len: int)
    requires
        rb.is_new(name, format, frames),
    ensures
        rb.region() == name,
        rb.head() == RingBufHeader::initial(format, frames),
        rb.ring().buffer_frames == frames,
        rb.ring().frame_bytes == rb.head().frame_bytes,
        rb@.len() == 0,
        rb.pending_frames() == 0,
        rb.readable(len) <= 0,
        rb.storage().len() == frames * rb.ring().frame_bytes,
        forall|i: int| 0 <= i < rb.storage().len() ==> #[trigger] rb.storage()[i] == 0,
{
    law_new_header(format, frames);
    let fb = rb.ring().frame_bytes as int;
    if rb.ring().holds_frame(len) && fb > 0 {
        vstd::arithmetic::div_mod::lemma_div_pos_is_pos(len, fb);
    }
    assert(frames * fb >= 0) by (nonlinear_arith)
        requires
            frames >= 0,
            fb >= 0,
    ;
}

/// A ring that was set to run runs, one that was set to stop does not, whatever state it
/// was in; the flags are 1 or 0, and neither the frames nor anything else changes.
pub proof fn law_switching(before: RingBuffer, after: RingBuffer, running: bool)
    requires
        after.switched_from(&before, running),
    ensures
        after.head().runs() == running,
        after.head().flags == if running {
            1u32
        } else {
            0u32
        },
        after@ == before@,
        after.pending_frames() == before.pending_frames(),
        after.storage() == before.storage(),
        after.region() == before.region(),
        after.ring() == before.ring(),
        after.head().write_index == before.head().write_index,
        after.head().read_index == before.head().read_index,
        after.head().magic == before.head().magic,
        after.head().version == before.head().version,
        after.head().frame_bytes == before.head().frame_bytes,
        after.head().channels == before.head().channels,
        after.head().sample_rate == before.head().sample_rate,
        after.head().buffer_frames == before.head().buffer_frames,
{
    assert(after@ =~= before@);
}

/// What stands in the way of a ring for each channel is found at the first channel for which
/// it does: all channels before have usable IDs of their own; this one has an ID with a NUL
/// character, and then the name is invalid, or else that of a channel before, and then the
/// name is in use.
pub proof fn law_region_conflict(channels: Seq<ChannelConfig>)
    ensures
        region_conflict(channels) is None <==> usable_ids(channels)
            && crate::config::distinct_ids(channels),
        region_conflict(channels) matches Some(e) ==> exists|i: int|
            0 <= i < channels.len() && {
                let id = (#[trigger] channels[i]).alsa_id@;
                &&& usable_ids(channels.take(i))
                &&& crate::config::distinct_ids(channels.take(i))
                &&& id.contains('\0') || exists|j: int|
                    0 <= j < i && (#[trigger] channels[j]).alsa_id@ == id
                &&& e == if id.contains('\0') {
                    RingBufError::InvalidName
                } else {
                    RingBufError::NameInUse
                }
            },
    decreases channels.len(),
{
    lemma_no_conflict(channels);
    if region_conflict(channels) is Some {
        let rest = channels.drop_last();
        let e = region_conflict(channels)->Some_0;
        if region_conflict(rest) is Some {
            law_region_conflict(rest);
            let i = choose|i: int|
                0 <= i < rest.len() && {
                    let id = (#[trigger] rest[i]).alsa_id@;
                    &&& usable_ids(rest.take(i))
                    &&& crate::config::distinct_ids(rest.take(i))
                    &&& id.contains('\0') || exists|j: int|
                        0 <= j < i && (#[trigger] rest[j]).alsa_id@ == id
                    &&& e == if id.contains('\0') {
                        RingBufError::InvalidName
                    } else {
                        RingBufError::NameInUse
                    }
                };
            assert(rest.take(i) =~= channels.take(i));
            assert(rest[i] == channels[i]);
            if !channels[i].alsa_id@.contains('\0') {
                let j = choose|j: int| 0 <= j < i && (#[trigger] rest[j]).alsa_id@ == rest[i].alsa_id@;
                assert(channels[j] == rest[j]);
            }
        } else {
            let i = channels.len() - 1;
            lemma_no_conflict(rest);
            assert(channels.take(i) =~= rest);
            assert(channels[i] == channels.last());
            if !channels[i].alsa_id@.contains('\0') {
                let j = choose|j: int|
                    0 <= j < rest.len() && (#[trigger] rest[j]).alsa_id@ == channels[i].alsa_id@;
                assert(channels[j] == rest[j]);
            }
        }
    }
}

/// There is one ring for each channel, in order: new, with the name of its direction and
/// channel, of the capacity that is asked for.
pub proof fn law_rings_for_channels(
    rings: Seq<RingBuffer>,
    channels: Seq<ChannelConfig>,
    prefix: Seq<char>,
    format: AudioFormat,
    frames: u32,
    i: int,
)
    requires
        rings_for(rings, channels, prefix, format, frames),
        0 <= i < channels.len() || 0 <= i < rings.len(),
    ensures
        rings.len() == channels.len(),
        rings[i].region() == prefix + channels[i].alsa_id@,
        rings[i].pending_frames() == 0,
        rings[i].ring().buffer_frames == frames,
        rings[i].head() == RingBufHeader::initial(format, frames),
{
    assert(rings[i].is_new(prefix + channels[i].alsa_id@, format, frames));
}

/// A buffer runs exactly while its flags are 1; stopped and paused ones do not.
pub proof fn law_running_flag(h: RingBufHeader)
    ensures
        h.runs() <==> h.flags == 1,
{
}

/// Setting all rings to run or to stop does so to each.
pub proof fn law_switching_all(
    before: Seq<RingBuffer>,
    after: Seq<RingBuffer>,
    running: bool,
    i: int,
)
    requires
        all_switched(after, before, running),
        0 <= i < before.len() || 0 <= i < after.len(),
    ensures
        after.len() == before.len(),
        after[i].head().runs() == running,
        after[i]@ == before[i]@,
        after[i].head().write_index == before[i].head().write_index,
        after[i].head().read_index == before[i].head().read_index,
{
    law_switching(before[i], after[i], running);
}

/// The frames in the rings are stereo, of 32-bit samples: 8 bytes each.
pub proof fn law_bridge_format(sample_rate: u32)
    ensures
        bridge_format_of(sample_rate).sample_rate == sample_rate,
        bridge_format_of(sample_rate).channels == 2,
        bridge_format_of(sample_rate).format is S32LE,
        bridge_format_of(sample_rate).frame_width() == 8,
{
}

/// The bytes of a block are the only ones that a write touches.
pub proof fn law_write_touches_its_block(
    before: RingBuffer,
    data: Seq<u8>,
    n: int,
    after: RingBuffer,
    i: int,
)
    requires
        after.written_from(&before, data, n),
        0 <= i < before.storage().len(),
        !before.ring().block(before.head().write_index, n).covers(i),
    ensures
        after.storage().len() == before.storage().len(),
        after.storage()[i] == before.storage()[i],
{
}

/// The rings of the built-in configuration can be created: they hold 4 periods of 256
/// frames, and each of the 16 channels gives its region a name that can be used and that no
/// other one has.
pub proof fn law_built_in_rings(cfg: VadConfig)
    requires
        cfg.is_default(),
    ensures
        cfg.period_frames * cfg.num_periods == 1024,
        usable_ids(cfg.capture_channels@),
        usable_ids(cfg.playback_channels@),
        crate::config::distinct_ids(cfg.capture_channels@),
        crate::config::distinct_ids(cfg.playback_channels@),
        cfg.capture_channels@.len() + cfg.playback_channels@.len() == 16,
{
    reveal_strlit("System");
    reveal_strlit("Combo1");
    reveal_strlit("Combo2");
    reveal_strlit("Combo3");
    reveal_strlit("Combo4");
    reveal_strlit("Bluetooth");
    reveal_strlit("SmartPads");
    reveal_strlit("USB1Main");
    reveal_strlit("USB1Chat");
    reveal_strlit("USB2");
    reveal_strlit("Headset");
    reveal_strlit("Music");
    reveal_strlit("Game");
    reveal_strlit("VirtualA");
    reveal_strlit("VirtualB");
    crate::config::law_built_in_channels(cfg.capture_channels@, cfg.playback_channels@);
}

/// What follows a common prefix is told from the whole.
proof fn lemma_same_prefix(p: Seq<char>, a: Seq<char>, b: Seq<char>)
    ensures
        p + a == p + b ==> a == b,
{
    if p + a == p + b {
        assert((p + a).skip(p.len() as int) =~= a);
        assert((p + b).skip(p.len() as int) =~= b);
    }
}

} // verus!
