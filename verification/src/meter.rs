//! Level meters: peak hold, ballistics and what is drawn of them.
//!
//! Levels are linear amplitudes; where a step needs a logarithm or an
//! exponential the caller brings its outcome, and what becomes of it is decided
//! here.
use crate::bits::{
    bits_abs, bits_clamp, bits_le, bits_lt, bits_max, clamped, is_nan, larger, le, lt, magnitude,
};
use crate::patch::{BITS_NEG_INFINITY, BITS_ONE, BITS_ZERO, Bits};
use vstd::prelude::*;

verus! {

/// Bottom of the dB scale: -60 dBFS.
pub const METER_DB_FLOOR: Bits = 0xC270_0000;

/// How long the peak-hold cap hangs before it falls: 1.5 seconds.
pub const PEAK_HOLD_TIME: Bits = 0x3FC0_0000;

/// Loudest level a meter takes: 1.5 times full scale.
pub const METER_MAX: Bits = 0x3FC0_0000;

/// Level above which a meter is still moving: 0.0001.
pub const METER_STILL: Bits = 0x38D1_B717;

/// Share of the bar above which something is drawn: 0.001.
pub const METER_VISIBLE: Bits = 0x3A83_126F;

/// Marks of the dB scale, from 0 dBFS down: 0, -6, -12, -18, -24, -36 and -48.
pub const DB_MARKS: [Bits; 7] = [
    0,
    0xC0C0_0000,
    0xC140_0000,
    0xC190_0000,
    0xC1C0_0000,
    0xC210_0000,
    0xC240_0000,
];

/// Number of segments of a gain reduction meter.
pub const SEGMENT_COUNT: usize = 16;

/// Where the segments of a gain reduction meter start, in sixteenths from the
/// top.
pub const SEGMENT_STARTS: [Bits; 16] = [
    0,
    0x3D80_0000,
    0x3E00_0000,
    0x3E40_0000,
    0x3E80_0000,
    0x3EA0_0000,
    0x3EC0_0000,
    0x3EE0_0000,
    0x3F00_0000,
    0x3F10_0000,
    0x3F20_0000,
    0x3F30_0000,
    0x3F40_0000,
    0x3F50_0000,
    0x3F60_0000,
    0x3F70_0000,
];

/// What a meter keeps from frame to frame.
#[derive(Clone, Copy, Debug, PartialEq, Eq, Structural)]
pub struct MeterState {
    /// RMS level with ballistics.
    pub smoothed_rms: Bits,
    /// The falling cap.
    pub peak_hold: Bits,
    /// Seconds since the cap was last pushed up.
    pub hold_age: Bits,
    /// Highest peak since the last reset, in dBFS.
    pub max_peak_db: Bits,
}

/// What a frame computes for a meter.
#[derive(Clone, Copy, Debug, PartialEq, Eq, Structural)]
pub struct MeterStep {
    /// The RMS level, moved toward its target.
    pub smoothed_rms: Bits,
    /// The age of the cap, with the frame added.
    pub aged: Bits,
    /// Where the cap stands if it falls in this frame.
    pub fallen: Bits,
    /// The peak of the frame in dBFS.
    pub peak_db: Bits,
}

impl Default for MeterState {
    fn default() -> (s: Self)
        ensures
            s == (MeterState {
                smoothed_rms: BITS_ZERO,
                peak_hold: BITS_ZERO,
                hold_age: BITS_ZERO,
                max_peak_db: BITS_NEG_INFINITY,
            }),
    {
        MeterState {
            smoothed_rms: BITS_ZERO,
            peak_hold: BITS_ZERO,
            hold_age: BITS_ZERO,
            max_peak_db: BITS_NEG_INFINITY,
        }
    }
}

/// A meter after a frame. A peak as high as the cap pushes it up; otherwise the
/// cap ages, and falls once it is old. The held maximum only rises.
pub open spec fn advanced(s: MeterState, peak: Bits, step: MeterStep) -> MeterState {
    let max_peak_db = if lt(s.max_peak_db, step.peak_db) {
        step.peak_db
    } else {
        s.max_peak_db
    };
    if le(s.peak_hold, peak) {
        MeterState {
            smoothed_rms: step.smoothed_rms,
            peak_hold: peak,
            hold_age: BITS_ZERO,
            max_peak_db,
        }
    } else {
        MeterState {
            smoothed_rms: step.smoothed_rms,
            peak_hold: if lt(PEAK_HOLD_TIME, step.aged) {
                step.fallen
            } else {
                s.peak_hold
            },
            hold_age: step.aged,
            max_peak_db,
        }
    }
}

impl MeterState {
    /// Whether the RMS level rises toward `rms`, which is fast; it falls slowly.
    pub fn rises(&self, rms: Bits) -> (r: bool)
        ensures
            r == lt(self.smoothed_rms, rms),
    {
        bits_lt(self.smoothed_rms, rms)
    }

    /// Advance by a frame.
    pub fn advance(&mut self, peak: Bits, step: MeterStep)
        ensures
            *final(self) == advanced(*old(self), peak, step),
    {
        self.smoothed_rms = step.smoothed_rms;
        if bits_le(self.peak_hold, peak) {
            self.peak_hold = peak;
            self.hold_age = BITS_ZERO;
        } else {
            self.hold_age = step.aged;
            if bits_lt(PEAK_HOLD_TIME, step.aged) {
                self.peak_hold = step.fallen;
            }
        }
        if bits_lt(self.max_peak_db, step.peak_db) {
            self.max_peak_db = step.peak_db;
        }
    }

    /// Forget the held maximum.
    pub fn reset_readout(&mut self)
        ensures
            *final(self) == (MeterState { max_peak_db: BITS_NEG_INFINITY, ..*old(self) }),
    {
        self.max_peak_db = BITS_NEG_INFINITY;
    }

    /// Whether the meter is still moving, so that it has to be drawn again.
    pub fn animating(&self) -> (r: bool)
        ensures
            r == (lt(METER_STILL, self.peak_hold) || lt(METER_STILL, self.smoothed_rms)),
    {
        bits_lt(METER_STILL, self.peak_hold) || bits_lt(METER_STILL, self.smoothed_rms)
    }
}

/// The held maximum never falls from frame to frame, and is no lower than the
/// frame's peak.
pub proof fn maximum_is_latched(s: MeterState, peak: Bits, step: MeterStep)
    requires
        !is_nan(s.max_peak_db),
    ensures
        le(s.max_peak_db, advanced(s, peak, step).max_peak_db),
        !is_nan(step.peak_db) ==> le(step.peak_db, advanced(s, peak, step).max_peak_db),
{
}

/// While the hold time runs the cap does not fall, and stands no lower than the
/// frame's peak.
pub proof fn cap_is_held(s: MeterState, peak: Bits, step: MeterStep)
    requires
        !is_nan(s.peak_hold),
        !is_nan(peak),
        !lt(PEAK_HOLD_TIME, step.aged),
    ensures
        le(s.peak_hold, advanced(s, peak, step).peak_hold),
        le(peak, advanced(s, peak, step).peak_hold),
{
}

/// The marks of the dB scale descend.
pub proof fn marks_descend(i: int, j: int)
    requires
        0 <= i < j < DB_MARKS@.len(),
    ensures
        lt(DB_MARKS@[j], DB_MARKS@[i]),
{
}

/// A level meter.
#[derive(Debug)]
pub struct LevelMeter {
    /// Peak level.
    pub peak: Bits,
    /// RMS level.
    pub rms: Bits,
    /// Text below the meter; none if empty.
    pub label: String,
    /// Width of the bar box in pixels.
    pub width: Bits,
    /// Height of the bar box in pixels.
    pub height: Bits,
    /// Whether the bar fills from left to right.
    pub horizontal: bool,
}

/// What is drawn of a level meter.
#[derive(Clone, Copy, Debug, PartialEq, Eq, Structural)]
pub struct MeterPaint {
    /// The band from the RMS level up to the peak.
    pub band: bool,
    /// The RMS bar.
    pub bar: bool,
    /// The peak-hold cap.
    pub cap: bool,
    /// The cap is over full scale, and red.
    pub cap_over: bool,
    /// The readout is over full scale, and red.
    pub readout_over: bool,
}

/// Whether the bits are those of a finite number.
pub open spec fn finite(b: Bits) -> bool {
    magnitude(b) < 0x7F80_0000
}

impl LevelMeter {
    /// A meter at some levels, held between 0 and 1.5: 24 by 120 pixels, vertical,
    /// without a label.
    pub fn new(peak: Bits, rms: Bits) -> (m: Self)
        ensures
            m.peak == clamped(peak, BITS_ZERO, METER_MAX),
            m.rms == clamped(rms, BITS_ZERO, METER_MAX),
            m.label@.len() == 0,
            m.width == 0x41C0_0000,
            m.height == 0x42F0_0000,
            !m.horizontal,
    {
        LevelMeter {
            peak: bits_clamp(peak, BITS_ZERO, METER_MAX),
            rms: bits_clamp(rms, BITS_ZERO, METER_MAX),
            label: String::new(),
            width: 0x41C0_0000,
            height: 0x42F0_0000,
            horizontal: false,
        }
    }

    /// Set the label.
    pub fn label(self, label: String) -> (m: Self)
        ensures
            m == (LevelMeter { label, ..self }),
    {
        let mut m = self;
        m.label = label;
        m
    }

    /// Set the size of the bar box.
    pub fn size(self, width: Bits, height: Bits) -> (m: Self)
        ensures
            m == (LevelMeter { width, height, ..self }),
    {
        let mut m = self;
        m.width = width;
        m.height = height;
        m
    }

    /// Fill from left to right instead of upward.
    pub fn horizontal(self) -> (m: Self)
        ensures
            m == (LevelMeter { horizontal: true, ..self }),
    {
        let mut m = self;
        m.horizontal = true;
        m
    }

    /// The readout for a held maximum: `formatted`, or minus infinity at the bottom
    /// of the scale.
    pub fn readout_text(max_peak_db: Bits, formatted: String) -> (s: String)
        ensures
            s@ == (if !finite(max_peak_db) || le(max_peak_db, METER_DB_FLOOR) {
                "-∞"@
            } else {
                formatted@
            }),
    {
        if bits_abs(max_peak_db) >= 0x7F80_0000 || bits_le(max_peak_db, METER_DB_FLOOR) {
            "-∞".to_owned()
        } else {
            formatted
        }
    }

    /// What is drawn, given the heights of the peak, the RMS level and the cap as
    /// shares of the bar.
    pub fn paint(&self, state: &MeterState, peak_norm: Bits, rms_norm: Bits, hold_norm: Bits) -> (p:
        MeterPaint)
        ensures
            p == (MeterPaint {
                band: lt(METER_VISIBLE, peak_norm),
                bar: lt(METER_VISIBLE, rms_norm),
                cap: lt(METER_VISIBLE, hold_norm),
                cap_over: lt(BITS_ONE, state.peak_hold),
                readout_over: lt(BITS_ZERO, state.max_peak_db),
            }),
    {
        MeterPaint {
            band: bits_lt(METER_VISIBLE, peak_norm),
            bar: bits_lt(METER_VISIBLE, rms_norm),
            cap: bits_lt(METER_VISIBLE, hold_norm),
            cap_over: bits_lt(BITS_ONE, state.peak_hold),
            readout_over: bits_lt(BITS_ZERO, state.max_peak_db),
        }
    }
}

/// Whether a mark of the scale at height `y` lies on the bar.
pub fn mark_shows(y: Bits, top: Bits, bottom: Bits) -> (r: bool)
    ensures
        r == (le(top, y) && le(y, bottom)),
{
    bits_le(top, y) && bits_le(y, bottom)
}

/// A gain reduction meter.
#[derive(Clone, Copy, Debug, PartialEq, Eq, Structural)]
pub struct GainReductionMeter {
    /// Gain reduction in dB.
    pub reduction_db: Bits,
    /// Reduction that fills the meter, in dB.
    pub max_reduction: Bits,
    /// Width in pixels.
    pub width: Bits,
    /// Height in pixels.
    pub height: Bits,
}

impl GainReductionMeter {
    /// A meter for a reduction, at least 0 dB: 24 by 80 pixels, full at 20 dB.
    pub fn new(reduction_db: Bits) -> (m: Self)
        ensures
            m == (GainReductionMeter {
                reduction_db: larger(reduction_db, BITS_ZERO),
                max_reduction: 0x41A0_0000,
                width: 0x41C0_0000,
                height: 0x42A0_0000,
            }),
    {
        GainReductionMeter {
            reduction_db: bits_max(reduction_db, BITS_ZERO),
            max_reduction: 0x41A0_0000,
            width: 0x41C0_0000,
            height: 0x42A0_0000,
        }
    }

    /// Set the reduction that fills the meter.
    pub fn max_reduction(self, max: Bits) -> (m: Self)
        ensures
            m == (GainReductionMeter { max_reduction: max, ..self }),
    {
        GainReductionMeter { max_reduction: max, ..self }
    }

    /// Set the size.
    pub fn size(self, width: Bits, height: Bits) -> (m: Self)
        ensures
            m == (GainReductionMeter { width, height, ..self }),
    {
        GainReductionMeter { width, height, ..self }
    }
}

/// How many segments a gain reduction meter lights from the top, for a reduction
/// given as a share of the meter: those that start below it.
pub fn segments_lit(normalized: Bits) -> (n: usize)
    ensures
        n <= SEGMENT_COUNT,
        forall|i: int|
            0 <= i < SEGMENT_COUNT ==> (i < n <==> lt(#[trigger] SEGMENT_STARTS@[i], normalized)),
{
    let starts = SEGMENT_STARTS;
    let mut n: usize = 0;
    while n < SEGMENT_COUNT && bits_lt(starts[n], normalized)
        invariant
            n <= SEGMENT_COUNT,
            starts@ == SEGMENT_STARTS@,
            forall|i: int| 0 <= i < n ==> lt(#[trigger] SEGMENT_STARTS@[i], normalized),
        decreases SEGMENT_COUNT - n,
    {
        n = n + 1;
    }
    proof {
        assert forall|i: int| n <= i < SEGMENT_COUNT implies !lt(
            #[trigger] SEGMENT_STARTS@[i],
            normalized,
        ) by {
            assert(!lt(SEGMENT_STARTS@[n as int], normalized));
            segments_ascend(n as int, i);
        }
    }
    n
}

/// Segments start one below the other.
proof fn segments_ascend(i: int, j: int)
    requires
        0 <= i <= j < SEGMENT_COUNT,
    ensures
        le(SEGMENT_STARTS@[i], SEGMENT_STARTS@[j]),
        !is_nan(SEGMENT_STARTS@[i]),
{
}

/// What a frame does to a meter: a peak as high as the cap takes it along and starts
/// its time anew; below it the cap gets older, and falls only when it is older than
/// its time, which is one second and a half. The maximum is replaced by a higher
/// peak only, and the level is the one computed.
pub proof fn what_a_frame_does(s: MeterState, peak: Bits, step: MeterStep)
    ensures
        ({
            let after = advanced(s, peak, step);
            &&& after.smoothed_rms == step.smoothed_rms
            &&& le(s.peak_hold, peak) ==> after.peak_hold == peak && after.hold_age == 0
            &&& !le(s.peak_hold, peak) ==> after.hold_age == step.aged
            &&& !le(s.peak_hold, peak) && step.aged <= 0x3FC0_0000 ==> after.peak_hold
                == s.peak_hold
            &&& !le(s.peak_hold, peak) && 0x3FC0_0000 < step.aged <= 0x7F80_0000
                ==> after.peak_hold == step.fallen
            &&& lt(s.max_peak_db, step.peak_db) ==> after.max_peak_db == step.peak_db
            &&& !lt(s.max_peak_db, step.peak_db) ==> after.max_peak_db == s.max_peak_db
        }),
{
}

/// The segments of a gain reduction meter start a sixteenth apart.
pub proof fn segments_are_a_sixteenth_apart()
    ensures
        SEGMENT_STARTS@.len() == 16,
        SEGMENT_STARTS@[0] == 0,
        SEGMENT_STARTS@[1] == 0x3D80_0000,
        SEGMENT_STARTS@[2] == 0x3E00_0000,
        SEGMENT_STARTS@[4] == 0x3E80_0000,
        SEGMENT_STARTS@[8] == 0x3F00_0000,
        SEGMENT_STARTS@[12] == 0x3F40_0000,
        SEGMENT_STARTS@[15] == 0x3F70_0000,
{
}

} // verus!
