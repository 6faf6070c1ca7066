//! Wavetables: which samples a table is made and read from.
//!
//! A table holds up to eight frames of one cycle each. Every frame is kept at
//! eight bandwidths, each level half as wide as the one before and stretched back
//! to the full number of samples.
use vstd::arithmetic::div_mod::{lemma_mod_self_0, lemma_small_mod};
use crate::bits::{bits_le, le};
use crate::patch::{BITS_ONE, BITS_ZERO, Bits};
use vstd::prelude::*;

verus! {

/// Number of samples in one cycle.
pub const WAVE_SIZE: usize = 256;

/// Number of bandwidths.
pub const MIP_LEVELS: usize = 8;

/// Most frames a table holds.
pub const MAX_FRAMES: usize = 8;

/// A point between two samples: how far from the one to the other, in 256ths.
#[derive(Clone, Copy, Debug, PartialEq, Eq, Structural)]
pub struct Between {
    /// Sample before the point.
    pub lo: usize,
    /// Sample behind the point.
    pub hi: usize,
    /// Distance from `lo`, in 256ths of the distance to `hi`.
    pub part: usize,
}

/// How many distinct samples a level has: each has half of those of the one
/// before.
pub open spec fn level_size(mip: nat) -> nat
    decreases mip,
{
    if mip == 0 {
        WAVE_SIZE as nat
    } else {
        level_size((mip - 1) as nat) / 2
    }
}

/// Whether a table can hold this many frames: between one and eight.
pub fn frames_fit(count: usize) -> (r: bool)
    ensures
        r == (1 <= count <= MAX_FRAMES),
{
    count != 0 && count <= MAX_FRAMES
}

/// How many distinct samples a level has.
pub fn mip_size(mip: usize) -> (n: usize)
    requires
        mip < MIP_LEVELS,
    ensures
        n == level_size(mip as nat),
        2 <= n <= WAVE_SIZE,
{
    proof {
        level_sizes(mip as nat);
    }
    match mip {
        0 => 256,
        1 => 128,
        2 => 64,
        3 => 32,
        4 => 16,
        5 => 8,
        6 => 4,
        _ => 2,
    }
}

proof fn level_sizes(mip: nat)
    requires
        mip < MIP_LEVELS,
    ensures
        level_size(mip) == (if mip == 0 {
            256nat
        } else if mip == 1 {
            128
        } else if mip == 2 {
            64
        } else if mip == 3 {
            32
        } else if mip == 4 {
            16
        } else if mip == 5 {
            8
        } else if mip == 6 {
            4
        } else {
            2
        }),
{
    reveal_with_fuel(level_size, 9);
}

/// The two samples of a level whose average is sample `i` of the next one.
pub fn downsample_pair(i: usize) -> (r: (usize, usize))
    requires
        2 * i < WAVE_SIZE,
    ensures
        r.0 == 2 * i,
        r.1 == 2 * i + 1,
        r.1 < WAVE_SIZE,
{
    (i * 2, (i * 2 + 1) % WAVE_SIZE)
}

/// The point of a cycle of `size` samples that sample `i` of a full cycle falls on.
pub open spec fn stretched(i: int, size: int) -> Between {
    Between {
        lo: ((i * size) / 256) as usize,
        hi: (((i * size) / 256 + 1) % size) as usize,
        part: ((i * size) % 256) as usize,
    }
}

/// The point of level `mip`, before it is stretched, that sample `i` is read from.
pub fn upsample_point(mip: usize, i: usize) -> (p: Between)
    requires
        mip < MIP_LEVELS,
        i < WAVE_SIZE,
    ensures
        p == stretched(i as int, level_size(mip as nat) as int),
        p.lo < level_size(mip as nat),
        p.hi < level_size(mip as nat),
        p.part < 256,
{
    let size: usize = mip_size(mip);
    assert(i * size <= 255 * 256 && (i * size) / 256 < size) by (nonlinear_arith)
        requires
            i < 256,
            2 <= size <= 256,
    ;
    let at: usize = i * size;
    let lo: usize = at / WAVE_SIZE;
    let hi: usize = (lo + 1) % size;
    Between { lo, hi, part: at % WAVE_SIZE }
}

/// The two samples around a position in a cycle, given by its whole part. A cycle
/// follows upon itself.
pub fn read_pair(pos: usize) -> (r: (usize, usize))
    ensures
        r.0 == pos % 256,
        r.1 == (pos % 256 + 1) % 256,
        r.0 < WAVE_SIZE && r.1 < WAVE_SIZE,
{
    let lo: usize = pos % WAVE_SIZE;
    (lo, (lo + 1) % WAVE_SIZE)
}

/// The frame behind `frame`, or `frame` itself where it is the last.
pub fn next_frame(frame: usize, frame_count: usize) -> (r: usize)
    requires
        frame < frame_count <= MAX_FRAMES,
    ensures
        r == (if frame + 1 < frame_count {
            frame + 1
        } else {
            frame as int
        }),
        r < frame_count,
{
    if frame + 1 < frame_count {
        frame + 1
    } else {
        frame_count - 1
    }
}

/// The level for a frequency. `ratio` is the frequency over the highest that can
/// be played, `octaves` the whole number of octaves between them. Silence and what
/// cannot be played take the narrowest level.
pub fn mip_level(frequency: Bits, ratio: Bits, octaves: usize) -> (mip: usize)
    ensures
        mip < MIP_LEVELS,
        mip == (if le(frequency, BITS_ZERO) || le(BITS_ONE, ratio) || octaves >= MIP_LEVELS {
            MIP_LEVELS - 1
        } else {
            octaves as int
        }),
{
    if bits_le(frequency, BITS_ZERO) {
        return MIP_LEVELS - 1;
    }
    if bits_le(BITS_ONE, ratio) {
        return MIP_LEVELS - 1;
    }
    if octaves < MIP_LEVELS {
        octaves
    } else {
        MIP_LEVELS - 1
    }
}

/// A level that keeps all samples is read as it is: stretching a full cycle leaves
/// every sample in place.
pub proof fn full_cycles_stay(i: int)
    requires
        0 <= i < WAVE_SIZE,
    ensures
        stretched(i, WAVE_SIZE as int).lo == i,
        stretched(i, WAVE_SIZE as int).part == 0,
{
}

/// Stretching goes through the samples in order.
pub proof fn stretching_keeps_order(i: int, j: int, mip: nat)
    requires
        0 <= i <= j < WAVE_SIZE,
        mip < MIP_LEVELS,
    ensures
        stretched(i, level_size(mip) as int).lo <= stretched(j, level_size(mip) as int).lo,
        stretched(j, level_size(mip) as int).lo < level_size(mip),
{
    level_sizes(mip);
    let size = level_size(mip) as int;
    assert(i * size <= j * size && j * size < 256 * size) by (nonlinear_arith)
        requires
            0 <= i <= j < 256,
            size >= 2,
    ;
}

/// A level has half of the samples of the one before, from 256 on.
pub proof fn levels_halve(mip: nat)
    ensures
        level_size(0) == 256,
        level_size(mip + 1) == level_size(mip) / 2,
{
}

/// A sample is read from its share of the way through the cycle, between two
/// neighbours, the last of which has the first as its neighbour.
pub proof fn a_point_is_its_share_of_the_way(i: int, mip: nat)
    requires
        0 <= i < 256,
        mip < 8,
    ensures
        ({
            let size = level_size(mip) as int;
            let p = stretched(i, size);
            &&& 256 * p.lo + p.part == i * size
            &&& p.part < 256
            &&& p.lo < size
            &&& p.lo + 1 < size ==> p.hi == p.lo + 1
            &&& p.lo + 1 == size ==> p.hi == 0
        }),
{
    level_sizes(mip);
    let size = level_size(mip) as int;
    assert(0 <= i * size && i * size < 256 * size) by (nonlinear_arith)
        requires
            0 <= i < 256,
            size >= 2,
    ;
    let x = i * size;
    let lo = x / 256;
    assert(256 * lo + x % 256 == x);
    assert(0 <= lo < size);
    if lo + 1 < size {
        lemma_small_mod((lo + 1) as nat, size as nat);
    } else {
        lemma_mod_self_0(size);
    }
}

} // verus!
