//! Drift compensation: monitors ring buffer fill levels to detect clock drift between
//! USB and ALSA subsystems.
//!
//! When the USB hardware runs at a slightly different sample rate than the virtual ALSA
//! devices, the ring buffers will slowly fill or drain. This module provides metrics and
//! diagnostics.
//!
//! All levels, rates and ratios are floating-point numbers, given as IEEE 754 binary32 bit
//! patterns (`f32::to_bits`). They are measured elsewhere; what they mean is decided here.
//! Times are in nanoseconds since the daemon was started.

use crate::float_bits;
use vstd::prelude::*;

verus! {

/// 0.01: below this level a buffer is empty
pub const EMPTY_LEVEL: u32 = 0x3c23_d70a;

/// 0.99: above this level a buffer is full
pub const FULL_LEVEL: u32 = 0x3f7d_70a4;

/// 0.3: lower end of the target range, 20% below half-full
pub const TARGET_LOW: u32 = 0x3e99_999a;

/// 0.7: upper end of the target range, 20% above half-full
pub const TARGET_HIGH: u32 = 0x3f33_3333;

/// 0.02 per second: a buffer that gains more is filling
pub const FILLING_RATE: u32 = 0x3ca3_d70a;

/// -0.02 per second: a buffer that loses more is draining
pub const DRAINING_RATE: u32 = 0xbca3_d70a;

/// 0.9995: slow down consumer slightly
pub const SLOW_DOWN: u32 = 0x3f7f_df3b;

/// 1.0005: speed up consumer slightly
pub const SPEED_UP: u32 = 0x3f80_1062;

/// 1.0: no change
pub const NO_CHANGE: u32 = 0x3f80_0000;

/// What was measured of a ring buffer
#[derive(Debug, Clone, Copy, PartialEq, Eq, Structural)]
pub struct FillLevel {
    /// Share of the capacity that is in use
    pub fill: u32,
    /// The same in percent
    pub fill_pct: u32,
    /// Change of `fill` per second
    pub rate: u32,
}

/// Drift status for a single channel's ring buffer
#[derive(Debug, Clone, Copy, PartialEq, Eq, Structural)]
pub enum DriftStatus {
    /// Buffer fill is within target range (±20% of half-full)
    Nominal { fill_pct: u32 },
    /// Buffer is draining (consumer faster than producer)
    Underflowing { fill_pct: u32, rate: u32 },
    /// Buffer is filling (producer faster than consumer)
    Overflowing { fill_pct: u32, rate: u32 },
    /// Buffer full: audio dropouts likely
    Full,
    /// Buffer empty: silence being played
    Empty,
}

impl FillLevel {
    /// As good as nothing is in the buffer. That a level is not a number means that there
    /// is no room for anything.
    pub open spec fn is_empty(&self) -> bool {
        float_bits::is_nan(self.fill) || float_bits::less(self.fill, EMPTY_LEVEL)
    }

    /// As good as no room is left in the buffer.
    pub open spec fn is_full(&self) -> bool {
        float_bits::less(FULL_LEVEL, self.fill)
    }

    /// The fill is within the target range.
    pub open spec fn on_target(&self) -> bool {
        float_bits::at_most(TARGET_LOW, self.fill) && float_bits::at_most(self.fill, TARGET_HIGH)
    }

    /// The buffer is filling: the producer is faster than the consumer.
    pub open spec fn is_filling(&self) -> bool {
        float_bits::less(FILLING_RATE, self.rate)
    }

    /// The buffer is draining: the consumer is faster than the producer.
    pub open spec fn is_draining(&self) -> bool {
        float_bits::less(self.rate, DRAINING_RATE)
    }

    /// The buffer does neither.
    pub open spec fn is_steady(&self) -> bool {
        !self.is_filling() && !self.is_draining()
    }
}

impl DriftStatus {
    /// The status of a buffer of which this was measured. Outside the target range it goes
    /// by the direction in which the level moves, and where that is steady by the side on
    /// which it lies.
    pub open spec fn of(level: FillLevel) -> DriftStatus {
        if level.is_empty() {
            DriftStatus::Empty
        } else if level.is_full() {
            DriftStatus::Full
        } else if level.on_target() {
            DriftStatus::Nominal { fill_pct: level.fill_pct }
        } else if level.is_filling() || (level.is_steady() && float_bits::less(
            TARGET_HIGH,
            level.fill,
        )) {
            DriftStatus::Overflowing { fill_pct: level.fill_pct, rate: level.rate }
        } else {
            DriftStatus::Underflowing { fill_pct: level.fill_pct, rate: level.rate }
        }
    }

    /// The ratio by which consumption is to change.
    pub open spec fn ratio(&self) -> u32 {
        match self {
            DriftStatus::Underflowing { .. } => SLOW_DOWN,
            DriftStatus::Overflowing { .. } => SPEED_UP,
            _ => NO_CHANGE,
        }
    }

    /// The status of a ring buffer, from what was measured of it.
    pub fn from_ring_buffer(level: &FillLevel) -> (r: Self)
        ensures
            r == Self::of(*level),
    {
        if float_bits::is_not_a_number(level.fill) || float_bits::is_less(level.fill, EMPTY_LEVEL) {
            return DriftStatus::Empty;
        }
        if float_bits::is_less(FULL_LEVEL, level.fill) {
            return DriftStatus::Full;
        }
        let below: bool = float_bits::is_less(level.fill, TARGET_LOW);
        let above: bool = float_bits::is_less(TARGET_HIGH, level.fill);
        if !below && !above {
            return DriftStatus::Nominal { fill_pct: level.fill_pct };
        }
        let overflowing: bool = if float_bits::is_less(FILLING_RATE, level.rate) {
            true
        } else if float_bits::is_less(level.rate, DRAINING_RATE) {
            false
        } else {
            above
        };
        if overflowing {
            DriftStatus::Overflowing { fill_pct: level.fill_pct, rate: level.rate }
        } else {
            DriftStatus::Underflowing { fill_pct: level.fill_pct, rate: level.rate }
        }
    }

    /// Returns true if corrective action may be needed
    pub fn needs_correction(&self) -> (r: bool)
        ensures
            r == (self is Underflowing || self is Overflowing),
    {
        match self {
            DriftStatus::Underflowing { .. } => true,
            DriftStatus::Overflowing { .. } => true,
            _ => false,
        }
    }

    /// Suggested resampling ratio adjustment.
    /// 1.0 = no change, >1.0 = speed up consumption, <1.0 = slow down.
    pub fn correction_ratio(&self) -> (r: u32)
        ensures
            r == self.ratio(),
    {
        match self {
            DriftStatus::Underflowing { .. } => SLOW_DOWN,
            DriftStatus::Overflowing { .. } => SPEED_UP,
            _ => NO_CHANGE,
        }
    }
}

/// Drift monitor for a full set of ring buffers
pub struct DriftMonitor {
    /// Levels of the capture buffers at the last check
    pub capture_fill_prev: Vec<u32>,
    /// Levels of the playback buffers at the last check
    pub playback_fill_prev: Vec<u32>,
    /// When the capture buffers were checked last, or the timer was restarted
    pub last_check: u64,
}

/// The statuses of the buffers that are both measured and monitored.
pub open spec fn statuses(levels: Seq<FillLevel>, monitored: nat) -> Seq<DriftStatus> {
    Seq::new(
        if levels.len() <= monitored {
            levels.len()
        } else {
            monitored
        },
        |i: int| DriftStatus::of(levels[i]),
    )
}

/// The levels to compare with at the next check: those that were measured, the others as
/// they were.
pub open spec fn remembered(prev: Seq<u32>, levels: Seq<FillLevel>) -> Seq<u32> {
    Seq::new(
        prev.len(),
        |i: int|
            if i < levels.len() {
                levels[i].fill
            } else {
                prev[i]
            },
    )
}

/// Checks the buffers one by one.
fn check(prev: &mut Vec<u32>, levels: &[FillLevel]) -> (r: Vec<DriftStatus>)
    ensures
        r@ == statuses(levels@, old(prev)@.len()),
        final(prev)@ == remembered(old(prev)@, levels@),
{
    let mut out: Vec<DriftStatus> = Vec::new();
    let mut i: usize = 0;
    while i < levels.len() && i < prev.len()
        invariant
            i <= levels@.len(),
            i <= prev@.len(),
            prev@.len() == old(prev)@.len(),
            out@.len() == i,
            forall|k: int| 0 <= k < i ==> #[trigger] out@[k] == DriftStatus::of(levels@[k]),
            forall|k: int| 0 <= k < i ==> #[trigger] prev@[k] == levels@[k].fill,
            forall|k: int| i <= k < prev@.len() ==> #[trigger] prev@[k] == old(prev)@[k],
        decreases levels@.len() - i,
    {
        out.push(DriftStatus::from_ring_buffer(&levels[i]));
        prev.set(i, levels[i].fill);
        i = i + 1;
    }
    assert(out@ =~= statuses(levels@, old(prev)@.len()));
    assert(prev@ =~= remembered(old(prev)@, levels@));
    out
}

impl DriftMonitor {
    /// The time that has passed since the last check, over which rates are measured.
    pub open spec fn span(&self, now: u64) -> int {
        if now >= self.last_check {
            now - self.last_check
        } else {
            0
        }
    }

    /// This is the other monitor, with its timer restarted at `now`.
    pub open spec fn restarted_from(&self, other: &DriftMonitor, now: u64) -> bool {
        &&& self.last_check == now
        &&& self.capture_fill_prev == other.capture_fill_prev
        &&& self.playback_fill_prev == other.playback_fill_prev
    }

    pub fn new(num_capture: usize, num_playback: usize, now: u64) -> (r: Self)
        ensures
            r.capture_fill_prev@ == Seq::new(num_capture as nat, |i: int| 0u32),
            r.playback_fill_prev@ == Seq::new(num_playback as nat, |i: int| 0u32),
            r.last_check == now,
    {
        let r = Self {
            capture_fill_prev: vec![0u32; num_capture],
            playback_fill_prev: vec![0u32; num_playback],
            last_check: now,
        };
        assert(r.capture_fill_prev@ =~= Seq::new(num_capture as nat, |i: int| 0u32));
        assert(r.playback_fill_prev@ =~= Seq::new(num_playback as nat, |i: int| 0u32));
        r
    }

    /// The time that has passed since the last check; none if that is yet to come.
    pub fn elapsed(&self, now: u64) -> (r: u64)
        ensures
            r == self.span(now),
    {
        if now >= self.last_check {
            now - self.last_check
        } else {
            0
        }
    }

    /// Check all capture buffers for drift, with rates over the time that has elapsed at
    /// `now`. The timer restarts.
    pub fn check_capture(&mut self, levels: &[FillLevel], now: u64) -> (r: Vec<DriftStatus>)
        ensures
            r@ == statuses(levels@, old(self).capture_fill_prev@.len()),
            final(self).capture_fill_prev@ == remembered(old(self).capture_fill_prev@, levels@),
            final(self).playback_fill_prev == old(self).playback_fill_prev,
            final(self).last_check == now,
    {
        self.last_check = now;
        check(&mut self.capture_fill_prev, levels)
    }

    /// Check all playback buffers for drift. The timer goes on.
    pub fn check_playback(&mut self, levels: &[FillLevel]) -> (r: Vec<DriftStatus>)
        ensures
            r@ == statuses(levels@, old(self).playback_fill_prev@.len()),
            final(self).playback_fill_prev@ == remembered(old(self).playback_fill_prev@, levels@),
            final(self).capture_fill_prev == old(self).capture_fill_prev,
            final(self).last_check == old(self).last_check,
    {
        check(&mut self.playback_fill_prev, levels)
    }

    /// Restarts the last check timer. The levels of the last check stay.
    pub fn restart(&mut self, now: u64)
        ensures
            final(self).restarted_from(old(self), now),
    {
        self.last_check = now;
    }
}

/// Re-silence the last check timer (use when resuming from suspend)
pub fn reset_drift_timer(monitor: &mut DriftMonitor, now: u64)
    ensures
        final(monitor).restarted_from(old(monitor), now),
{
    // drift monitoring restarts after autosuspend
    monitor.restart(now);
}

// ---------------------------------------------------------------------------
// Laws
// ---------------------------------------------------------------------------

/// The status is nominal exactly if the fill is within the target range, 0.3 to 0.7,
/// whatever the rate.
pub proof fn law_nominal_is_on_target(level: FillLevel)
    ensures
        DriftStatus::of(level) is Nominal <==> level.on_target(),
{
}

/// Outside the target range, unless it is empty or full, a buffer that is filling
/// overflows, one that is draining underflows, and a steady one overflows above the range
/// and underflows below it.
pub proof fn law_off_target(level: FillLevel)
    requires
        !level.on_target(),
        !level.is_empty(),
        !level.is_full(),
    ensures
        level.is_filling() ==> DriftStatus::of(level) is Overflowing,
        level.is_draining() ==> DriftStatus::of(level) is Underflowing,
        level.is_steady() && float_bits::less(TARGET_HIGH, level.fill) ==> DriftStatus::of(
            level,
        ) is Overflowing,
        level.is_steady() && float_bits::less(level.fill, TARGET_LOW) ==> DriftStatus::of(
            level,
        ) is Underflowing,
        float_bits::less(TARGET_HIGH, level.fill) || float_bits::less(level.fill, TARGET_LOW),
{
}

/// A buffer that is filling never underflows, and one that is draining never overflows;
/// both keep what was measured.
pub proof fn law_status_follows_rate(level: FillLevel)
    ensures
        DriftStatus::of(level) matches DriftStatus::Overflowing { fill_pct, rate } ==> {
            &&& !level.is_draining()
            &&& !level.on_target()
            &&& fill_pct == level.fill_pct
            &&& rate == level.rate
        },
        DriftStatus::of(level) matches DriftStatus::Underflowing { fill_pct, rate } ==> {
            &&& !level.is_filling()
            &&& !level.on_target()
            &&& fill_pct == level.fill_pct
            &&& rate == level.rate
        },
{
}

/// An overflowing buffer is consumed faster, an underflowing one is consumed more slowly,
/// and otherwise the rate of consumption stays.
pub proof fn law_correction_direction(status: DriftStatus)
    ensures
        float_bits::less(NO_CHANGE, status.ratio()) <==> status is Overflowing,
        float_bits::less(status.ratio(), NO_CHANGE) <==> status is Underflowing,
        status.ratio() == NO_CHANGE <==> !(status is Overflowing || status is Underflowing),
        status is Overflowing ==> status.ratio() == 0x3f80_1062,
        status is Underflowing ==> status.ratio() == 0x3f7f_df3b,
        !(status is Overflowing || status is Underflowing) ==> status.ratio() == 0x3f80_0000,
{
}

/// After a restart the time over which rates are measured counts from the restart, however
/// long ago the last check was.
pub proof fn law_timer_restarts(before: DriftMonitor, at: u64, after: DriftMonitor, now: u64)
    requires
        after.restarted_from(&before, at),
        now >= at,
    ensures
        after.span(now) == now - at,
{
}

/// The status follows from the patterns of level and rate. Patterns of positive numbers are
/// ordered as the numbers, so the levels are: not a number, negative or below 0.01, empty;
/// above 0.99, full; 0.3 to 0.7, nominal. Any other level overflows where it gains more than
/// 0.02 per second, or loses no more than that and lies above 0.7, and else it underflows.
pub proof fn law_status_of_patterns(level: FillLevel)
    ensures
        ({
            let status = DriftStatus::of(level);
            let fill = level.fill;
            let rate = level.rate;
            let gains = 0x3ca3_d70a < rate <= 0x7f80_0000;
            let loses = 0xbca3_d70a < rate <= 0xff80_0000;
            &&& status is Empty <==> fill < 0x3c23_d70a || fill > 0x7f80_0000
            &&& status is Full <==> 0x3f7d_70a4 < fill <= 0x7f80_0000
            &&& status is Nominal <==> 0x3e99_999a <= fill <= 0x3f33_3333
            &&& status is Overflowing <==> {
                ||| 0x3c23_d70a <= fill < 0x3e99_999a && gains
                ||| 0x3f33_3333 < fill <= 0x3f7d_70a4 && !loses
            }
            &&& status is Underflowing <==> {
                ||| 0x3c23_d70a <= fill < 0x3e99_999a && !gains
                ||| 0x3f33_3333 < fill <= 0x3f7d_70a4 && loses
            }
            &&& status matches DriftStatus::Nominal { fill_pct } ==> fill_pct == level.fill_pct
            &&& status matches DriftStatus::Overflowing { fill_pct, rate: r } ==> fill_pct
                == level.fill_pct && r == rate
            &&& status matches DriftStatus::Underflowing { fill_pct, rate: r } ==> fill_pct
                == level.fill_pct && r == rate
        }),
{
}

/// Each buffer that is both measured and monitored gets its status, in order, and its level
/// is what the next check compares with; a level that was not measured stays.
pub proof fn law_check_in_order(levels: Seq<FillLevel>, prev: Seq<u32>, i: int)
    requires
        0 <= i < prev.len(),
    ensures
        statuses(levels, prev.len()).len() <= prev.len(),
        statuses(levels, prev.len()).len() <= levels.len(),
        statuses(levels, prev.len()).len() == prev.len() || statuses(levels, prev.len()).len()
            == levels.len(),
        i < levels.len() ==> statuses(levels, prev.len())[i] == DriftStatus::of(levels[i]),
        remembered(prev, levels).len() == prev.len(),
        i < levels.len() ==> remembered(prev, levels)[i] == levels[i].fill,
        i >= levels.len() ==> remembered(prev, levels)[i] == prev[i],
{
}

/// The time since the last check is that between the two times, and none where the clock is
/// behind the check.
pub proof fn law_time_since_check(monitor: DriftMonitor, now: u64)
    ensures
        now >= monitor.last_check ==> monitor.last_check + monitor.span(now) == now,
        now < monitor.last_check ==> monitor.span(now) == 0,
{
}

} // verus!
