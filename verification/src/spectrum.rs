//! The spectrum analyzer: columns with peak hold.
use crate::bits::{bits_lt, bits_max, is_nan, larger, le, lt};
use crate::patch::{BITS_ZERO, Bits};
use vstd::prelude::*;

verus! {

/// Level above which a bar is red: 0.95.
pub const LEVEL_RED: Bits = 0x3F73_3333;

/// Level above which a bar is yellow: 0.7.
pub const LEVEL_YELLOW: Bits = 0x3F33_3333;

/// Level from which a column is drawn: 0.001.
pub const LEVEL_VISIBLE: Bits = 0x3A83_126F;

/// Level above which a peak line is drawn: 0.01.
pub const PEAK_VISIBLE: Bits = 0x3C23_D70A;

/// Pixels above which a bar is filled: one half.
pub const BAR_VISIBLE: Bits = 0x3F00_0000;

/// Smoothed magnitudes and peaks per display column, as shares of the height.
#[derive(Clone, Debug)]
pub struct SpectrumState {
    smoothed: Vec<Bits>,
    peaks: Vec<Bits>,
}

/// The mathematical value of a [`SpectrumState`].
#[verifier::ext_equal]
pub struct SpectrumModel {
    pub smoothed: Seq<Bits>,
    pub peaks: Seq<Bits>,
}

impl View for SpectrumState {
    type V = SpectrumModel;

    closed spec fn view(&self) -> SpectrumModel {
        SpectrumModel { smoothed: self.smoothed@, peaks: self.peaks@ }
    }
}

/// Every column at zero.
pub open spec fn silent(columns: nat) -> SpectrumModel {
    SpectrumModel {
        smoothed: Seq::new(columns, |i: int| BITS_ZERO),
        peaks: Seq::new(columns, |i: int| BITS_ZERO),
    }
}

/// The largest of some magnitudes, at least zero.
pub open spec fn loudest(mags: Seq<Bits>) -> Bits
    decreases mags.len(),
{
    if mags.len() == 0 {
        BITS_ZERO
    } else {
        larger(loudest(mags.drop_last()), mags.last())
    }
}

/// A number held to a range.
pub open spec fn held_to(v: int, lo: int, hi: int) -> int {
    if v < lo {
        lo
    } else if v > hi {
        hi
    } else {
        v
    }
}

/// The bins of a column, first and last, that reaches from bin `lo` to bin `hi`,
/// of a spectrum of `bins` bins.
pub open spec fn bin_range(lo: int, hi: int, bins: int) -> (int, int) {
    let first = held_to(lo, 0, bins - 1);
    (first, held_to(hi, first, bins - 1))
}

/// The peak magnitude over the bins of a column. `lo` and `hi` are the bins at its
/// lower and upper frequency, which need not exist.
pub fn column_magnitude(magnitudes: &[Bits], lo: usize, hi: usize) -> (m: Bits)
    requires
        magnitudes@.len() > 0,
    ensures
        ({
            let (first, last) = bin_range(lo as int, hi as int, magnitudes@.len() as int);
            m == loudest(magnitudes@.subrange(first, last + 1))
        }),
{
    let top: usize = magnitudes.len() - 1;
    let first: usize = if lo > top {
        top
    } else {
        lo
    };
    let last: usize = if hi < first {
        first
    } else if hi > top {
        top
    } else {
        hi
    };
    let mut m: Bits = BITS_ZERO;
    let mut i: usize = first;
    assert(magnitudes@.subrange(first as int, first as int) =~= Seq::empty());
    while i <= last
        invariant
            first <= i <= last + 1,
            last < magnitudes@.len(),
            m == loudest(magnitudes@.subrange(first as int, i as int)),
        decreases last + 1 - i,
    {
        m = bits_max(m, magnitudes[i]);
        assert(magnitudes@.subrange(first as int, i as int + 1).drop_last()
            =~= magnitudes@.subrange(first as int, i as int));
        i = i + 1;
    }
    m
}

/// What a frame computes for a column.
#[derive(Clone, Copy, Debug, PartialEq, Eq, Structural)]
pub struct ColumnStep {
    /// The column's level in this frame.
    pub normalized: Bits,
    /// The larger of the smoothed level and that level, decayed.
    pub decayed: Bits,
    /// The peak, decayed.
    pub decayed_peak: Bits,
}

/// A spectrum after a column took in a frame: the level rises at once and falls
/// slowly, and so does the peak.
pub open spec fn settled(s: SpectrumModel, col: int, step: ColumnStep) -> SpectrumModel {
    SpectrumModel {
        smoothed: s.smoothed.update(col, larger(step.decayed, step.normalized)),
        peaks: s.peaks.update(
            col,
            if lt(s.peaks[col], step.normalized) {
                step.normalized
            } else {
                step.decayed_peak
            },
        ),
    }
}

impl SpectrumState {
    /// There is a level and a peak for each column.
    pub open spec fn wf(&self) -> bool {
        self@.smoothed.len() == self@.peaks.len()
    }

    /// A silent spectrum.
    pub fn new(columns: usize) -> (s: Self)
        ensures
            s.wf(),
            s@ == silent(columns as nat),
    {
        let s = SpectrumState { smoothed: vec![BITS_ZERO; columns], peaks: vec![BITS_ZERO; columns] };
        assert(s@ =~= silent(columns as nat));
        s
    }

    /// Whether there is anything to update: columns, and bins to take them from.
    pub fn updates(&self, bin_count: usize) -> (r: bool)
        ensures
            r == (bin_count > 0 && self@.smoothed.len() > 0),
    {
        bin_count != 0 && self.smoothed.len() != 0
    }

    /// Take in a frame for one column.
    pub fn settle(&mut self, col: usize, step: ColumnStep)
        requires
            old(self).wf(),
            col < old(self)@.smoothed.len(),
        ensures
            final(self).wf(),
            final(self)@ == settled(old(self)@, col as int, step),
    {
        self.smoothed.set(col, bits_max(step.decayed, step.normalized));
        if bits_lt(self.peaks[col], step.normalized) {
            self.peaks.set(col, step.normalized);
        } else {
            self.peaks.set(col, step.decayed_peak);
        }
    }

    /// Silence all columns.
    pub fn reset(&mut self)
        requires
            old(self).wf(),
        ensures
            final(self).wf(),
            final(self)@ == silent(old(self)@.smoothed.len()),
    {
        let columns: usize = self.smoothed.len();
        self.smoothed = vec![BITS_ZERO; columns];
        self.peaks = vec![BITS_ZERO; columns];
        assert(self@ =~= silent(columns as nat));
    }

    /// Number of display columns.
    pub fn columns(&self) -> (n: usize)
        ensures
            n == self@.smoothed.len(),
    {
        self.smoothed.len()
    }

    /// The smoothed levels.
    pub fn smoothed(&self) -> (levels: &[Bits])
        ensures
            levels@ == self@.smoothed,
    {
        self.smoothed.as_slice()
    }

    /// The held peaks.
    pub fn peaks(&self) -> (levels: &[Bits])
        ensures
            levels@ == self@.peaks,
    {
        self.peaks.as_slice()
    }
}

/// The level of a column is never below that of the frame just taken in, nor is
/// its peak.
pub proof fn columns_rise_at_once(s: SpectrumModel, col: int, step: ColumnStep)
    requires
        0 <= col < s.smoothed.len(),
        s.smoothed.len() == s.peaks.len(),
        !is_nan(step.normalized),
        lt(s.peaks[col], step.normalized),
    ensures
        le(step.normalized, settled(s, col, step).smoothed[col]),
        settled(s, col, step).peaks[col] == step.normalized,
{
}

/// The loudest bin is at least as loud as every bin that holds a number.
pub proof fn loudest_is_largest(mags: Seq<Bits>, i: int)
    requires
        0 <= i < mags.len(),
        !is_nan(mags[i]),
    ensures
        le(mags[i], loudest(mags)),
    decreases mags.len(),
{
    loudest_is_a_number(mags.drop_last());
    if i < mags.len() - 1 {
        loudest_is_largest(mags.drop_last(), i);
    }
}

proof fn loudest_is_a_number(mags: Seq<Bits>)
    ensures
        !is_nan(loudest(mags)),
    decreases mags.len(),
{
    if mags.len() > 0 {
        loudest_is_a_number(mags.drop_last());
    }
}

/// Colour of a level.
#[derive(Clone, Copy, Debug, PartialEq, Eq, Structural)]
pub enum LevelColor {
    /// Near the top.
    Red,
    /// High.
    Yellow,
    /// Ordinary.
    Green,
}

/// The colour of a level.
pub open spec fn color_of(level: Bits) -> LevelColor {
    if lt(LEVEL_RED, level) {
        LevelColor::Red
    } else if lt(LEVEL_YELLOW, level) {
        LevelColor::Yellow
    } else {
        LevelColor::Green
    }
}

/// The colour of a level.
pub fn level_color(level: Bits) -> (c: LevelColor)
    ensures
        c == color_of(level),
{
    if bits_lt(LEVEL_RED, level) {
        LevelColor::Red
    } else if bits_lt(LEVEL_YELLOW, level) {
        LevelColor::Yellow
    } else {
        LevelColor::Green
    }
}

/// What is drawn of a column: the colours of its bar and of its peak line.
#[derive(Clone, Copy, Debug, PartialEq, Eq, Structural)]
pub struct ColumnPaint {
    /// The bar, if it is drawn.
    pub bar: Option<LevelColor>,
    /// The peak line, if it is drawn.
    pub peak: Option<LevelColor>,
}

/// What is drawn of a column whose bar would be `bar_height` pixels high. A column
/// at rest is left out.
pub fn column_paint(level: Bits, peak: Bits, bar_height: Bits) -> (p: ColumnPaint)
    ensures
        ({
            let rests = lt(level, LEVEL_VISIBLE) && lt(peak, LEVEL_VISIBLE);
            p == (ColumnPaint {
                bar: if !rests && lt(BAR_VISIBLE, bar_height) {
                    Some(color_of(level))
                } else {
                    None
                },
                peak: if !rests && lt(PEAK_VISIBLE, peak) {
                    Some(color_of(peak))
                } else {
                    None
                },
            })
        }),
{
    if bits_lt(level, LEVEL_VISIBLE) && bits_lt(peak, LEVEL_VISIBLE) {
        return ColumnPaint { bar: None, peak: None };
    }
    let bar = if bits_lt(BAR_VISIBLE, bar_height) {
        Some(level_color(level))
    } else {
        None
    };
    let line = if bits_lt(PEAK_VISIBLE, peak) {
        Some(level_color(peak))
    } else {
        None
    };
    ColumnPaint { bar, peak: line }
}

/// What a frame does to a column: its level becomes the louder of the frame's and the
/// decayed one, its peak the frame's level where that is higher and else the decayed
/// peak. No other column changes.
pub proof fn what_a_frame_does(s: SpectrumModel, col: int, step: ColumnStep, other: int)
    requires
        0 <= col < s.smoothed.len(),
        s.smoothed.len() == s.peaks.len(),
        0 <= other < s.smoothed.len(),
    ensures
        ({
            let after = settled(s, col, step);
            &&& after.smoothed.len() == s.smoothed.len() && after.peaks.len() == s.peaks.len()
            &&& step.decayed < step.normalized <= 0x7F80_0000 ==> after.smoothed[col]
                == step.normalized
            &&& step.normalized <= step.decayed <= 0x7F80_0000 ==> after.smoothed[col]
                == step.decayed
            &&& lt(s.peaks[col], step.normalized) ==> after.peaks[col] == step.normalized
            &&& !lt(s.peaks[col], step.normalized) ==> after.peaks[col] == step.decayed_peak
            &&& other != col ==> after.smoothed[other] == s.smoothed[other] && after.peaks[other]
                == s.peaks[other]
        }),
{
}

/// The loudest of some bins is one of them, or silence.
pub proof fn the_loudest_is_a_bin(mags: Seq<Bits>)
    ensures
        loudest(mags) == 0 || mags.contains(loudest(mags)),
    decreases mags.len(),
{
    if mags.len() > 0 {
        let front = mags.drop_last();
        the_loudest_is_a_bin(front);
        if front.contains(loudest(front)) {
            let i = front.index_of(loudest(front));
            assert(mags[i] == loudest(front));
        }
        assert(mags[mags.len() - 1] == mags.last());
    }
}

/// A column takes its magnitude from the bins that it reaches over, as far as there
/// are such bins, and from one at least.
pub proof fn a_column_has_its_bins(lo: int, hi: int, bins: int)
    requires
        0 <= lo,
        0 <= hi,
        0 < bins,
    ensures
        ({
            let (first, last) = bin_range(lo, hi, bins);
            &&& 0 <= first <= last < bins
            &&& lo < bins ==> first == lo
            &&& lo >= bins ==> first == bins - 1
            &&& first <= hi < bins ==> last == hi
            &&& hi >= bins ==> last == bins - 1
            &&& hi < first ==> last == first
        }),
{
}

/// Levels above 0.95 are red, those above 0.7 yellow, and all others green.
pub proof fn what_colour_a_level_has(level: Bits)
    ensures
        0x3F73_3333 < level <= 0x7F80_0000 ==> color_of(level) == LevelColor::Red,
        0x3F33_3333 < level <= 0x3F73_3333 ==> color_of(level) == LevelColor::Yellow,
        level <= 0x3F33_3333 ==> color_of(level) == LevelColor::Green,
{
}

} // verus!
