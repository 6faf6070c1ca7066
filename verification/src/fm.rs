//! FM synthesis: the settings of an operator and how four of them are wired.
//!
//! Operators are numbered from the output: A is 0, then B and C, and D, the
//! deepest modulator, is 3. The sound itself is computed by whoever runs the
//! operators.
use crate::bits::{bits_clamp, bits_unit_clamp, clamped, unit_clamped};
use crate::patch::{BITS_ONE, BITS_ZERO, Bits};
use crate::seqs::push_contains_iff;
use vstd::prelude::*;

verus! {

/// Smallest frequency ratio: a quarter.
pub const RATIO_MIN: Bits = 0x3E80_0000;

/// Largest frequency ratio: 16.
pub const RATIO_MAX: Bits = 0x4180_0000;

/// Largest modulation index: 20.
pub const MOD_INDEX_MAX: Bits = 0x41A0_0000;

/// Number of operators of the larger engine.
pub const NUM_OPERATORS: usize = 4;

/// The settings of an FM operator.
#[derive(Clone, Copy, Debug, PartialEq, Eq, Structural)]
pub struct OperatorSettings {
    /// Frequency multiplier relative to the base frequency.
    pub ratio: Bits,
    /// Modulation depth.
    pub mod_index: Bits,
    /// Output amplitude.
    pub output_level: Bits,
}

impl OperatorSettings {
    /// Unison, with modulation index and level at 1.
    pub fn new() -> (s: Self)
        ensures
            s == (OperatorSettings {
                ratio: BITS_ONE,
                mod_index: BITS_ONE,
                output_level: BITS_ONE,
            }),
    {
        OperatorSettings { ratio: BITS_ONE, mod_index: BITS_ONE, output_level: BITS_ONE }
    }

    /// Set the frequency ratio, held between 0.25 and 16.
    pub fn set_ratio(&mut self, ratio: Bits)
        ensures
            *final(self) == (OperatorSettings {
                ratio: clamped(ratio, RATIO_MIN, RATIO_MAX),
                ..*old(self)
            }),
            0x3E80_0000 <= ratio <= 0x4180_0000 ==> final(self).ratio == ratio,
            ratio < 0x3E80_0000 ==> final(self).ratio == 0x3E80_0000,
            0x4180_0000 < ratio <= 0x7F80_0000 ==> final(self).ratio == 0x4180_0000,
    {
        self.ratio = bits_clamp(ratio, RATIO_MIN, RATIO_MAX);
    }

    /// Set the modulation index, held between 0 and 20.
    pub fn set_mod_index(&mut self, index: Bits)
        ensures
            *final(self) == (OperatorSettings {
                mod_index: clamped(index, BITS_ZERO, MOD_INDEX_MAX),
                ..*old(self)
            }),
            index <= 0x41A0_0000 ==> final(self).mod_index == index,
            0x41A0_0000 < index <= 0x7F80_0000 ==> final(self).mod_index == 0x41A0_0000,
    {
        self.mod_index = bits_clamp(index, BITS_ZERO, MOD_INDEX_MAX);
    }

    /// Set the output level, held between 0 and 1.
    pub fn set_output_level(&mut self, level: Bits)
        ensures
            *final(self) == (OperatorSettings { output_level: unit_clamped(level), ..*old(self) }),
            level <= 0x3F80_0000 ==> final(self).output_level == level,
            0x3F80_0000 < level <= 0x7F80_0000 ==> final(self).output_level == 0x3F80_0000,
    {
        self.output_level = bits_unit_clamp(level);
    }
}

/// How four operators modulate each other.
#[derive(Clone, Copy, Debug, PartialEq, Eq, Structural)]
pub enum Fm4Algorithm {
    /// D→C→B→A: a serial chain, with the densest sidebands.
    Serial,
    /// (C+D)→B→A: two modulators into B, then serial.
    Parallel2,
    /// (B+C+D)→A: three modulators drive A.
    Parallel3,
    /// D→(C→A + B→A): D drives both C and B, which each modulate A.
    DoubleStack,
    /// (D→C)+(D→B) → A: D feeds two pairs whose average drives A.
    DualSerial,
    /// A+B+C+D, all heard and none modulated.
    Additive,
}

impl Default for Fm4Algorithm {
    fn default() -> (a: Self)
        ensures
            a == Fm4Algorithm::Serial,
    {
        Fm4Algorithm::Serial
    }
}

/// Whether operator `from` modulates operator `to`.
pub open spec fn modulates(a: Fm4Algorithm, from: int, to: int) -> bool {
    match a {
        Fm4Algorithm::Serial => 0 <= to < 3 && from == to + 1,
        Fm4Algorithm::Parallel2 => (to == 1 && (from == 2 || from == 3)) || (to == 0 && from == 1),
        Fm4Algorithm::Parallel3 => to == 0 && 1 <= from <= 3,
        Fm4Algorithm::DoubleStack => ((to == 1 || to == 2) && from == 3) || (to == 0 && (from == 1
            || from == 2)),
        Fm4Algorithm::DualSerial => ((to == 1 || to == 2) && from == 3) || (to == 0 && (from == 1
            || from == 2)),
        Fm4Algorithm::Additive => false,
    }
}

/// Whether an operator is heard.
pub open spec fn heard(a: Fm4Algorithm, op: int) -> bool {
    op == 0 || (a is Additive && 0 <= op < 4)
}

/// The deepest operators first, those that modulate `to` among those from `op`
/// down.
pub open spec fn modulators_of(a: Fm4Algorithm, to: int, op: int) -> Seq<usize>
    decreases 4 - op,
{
    if op < 0 || op >= 4 {
        Seq::empty()
    } else if modulates(a, op, to) {
        modulators_of(a, to, op + 1).push(op as usize)
    } else {
        modulators_of(a, to, op + 1)
    }
}

impl Fm4Algorithm {
    /// Whether operator `from` modulates operator `to`.
    pub fn modulates(self, from: usize, to: usize) -> (r: bool)
        ensures
            r == modulates(self, from as int, to as int),
    {
        match self {
            Fm4Algorithm::Serial => to < 3 && from == to + 1,
            Fm4Algorithm::Parallel2 => (to == 1 && (from == 2 || from == 3)) || (to == 0 && from
                == 1),
            Fm4Algorithm::Parallel3 => to == 0 && 1 <= from && from <= 3,
            Fm4Algorithm::DoubleStack | Fm4Algorithm::DualSerial => ((to == 1 || to == 2) && from
                == 3) || (to == 0 && (from == 1 || from == 2)),
            Fm4Algorithm::Additive => false,
        }
    }

    /// The operators that modulate an operator, the deepest first.
    pub fn modulators(self, to: usize) -> (ops: Vec<usize>)
        ensures
            ops@ == modulators_of(self, to as int, 0),
    {
        let mut ops: Vec<usize> = Vec::new();
        let mut k: usize = NUM_OPERATORS;
        while k > 0
            invariant
                k <= NUM_OPERATORS,
                ops@ == modulators_of(self, to as int, k as int),
            decreases k,
        {
            k = k - 1;
            if self.modulates(k, to) {
                ops.push(k);
            }
        }
        ops
    }

    /// Whether an operator is heard: the carrier A, or all of them.
    pub fn heard(self, op: usize) -> (r: bool)
        ensures
            r == heard(self, op as int),
    {
        match self {
            Fm4Algorithm::Additive => op < NUM_OPERATORS,
            _ => op == 0,
        }
    }

    /// What the modulation of A is divided by: the two stacks are averaged, to keep
    /// the level stable.
    pub fn carrier_divisor(self) -> (n: u32)
        ensures
            n == (if self is DualSerial {
                2
            } else {
                1u32
            }),
    {
        match self {
            Fm4Algorithm::DualSerial => 2,
            _ => 1,
        }
    }

    /// How many operators are heard, by which their sum is divided.
    pub fn heard_count(self) -> (n: u32)
        ensures
            n == (if self is Additive {
                4
            } else {
                1u32
            }),
    {
        match self {
            Fm4Algorithm::Additive => 4,
            _ => 1,
        }
    }
}

/// Modulation only goes toward the output, so running the operators from D to A
/// has every modulator ready when it is needed.
pub proof fn modulation_goes_outward(a: Fm4Algorithm, from: int, to: int)
    requires
        modulates(a, from, to),
    ensures
        0 <= to < from < 4,
{
}

/// Every operator is heard or modulates one that is not left out.
pub proof fn no_operator_is_idle(a: Fm4Algorithm, op: int)
    requires
        0 <= op < 4,
    ensures
        heard(a, op) || exists|to: int| 0 <= to < op && modulates(a, op, to),
{
    assert(modulates(a, op, op - 1) || modulates(a, op, 0) || modulates(a, op, 1) || heard(a, op));
}

/// What is heard is not used to modulate.
pub proof fn carriers_do_not_modulate(a: Fm4Algorithm, op: int, to: int)
    requires
        heard(a, op),
    ensures
        !modulates(a, op, to),
{
}

/// The listed modulators are those that modulate.
pub proof fn modulators_are_listed(a: Fm4Algorithm, to: int, op: int, i: usize)
    requires
        0 <= op <= 4,
    ensures
        modulators_of(a, to, op).contains(i) <==> op <= i < 4 && modulates(a, i as int, to),
    decreases 4 - op,
{
    if op < 4 {
        let deeper = modulators_of(a, to, op + 1);
        modulators_are_listed(a, to, op + 1, i);
        if modulates(a, op, to) {
            push_contains_iff(deeper, op as usize, i);
        }
    }
}

/// Which operator modulates which, for each algorithm.
pub proof fn how_the_operators_are_wired(from: int, to: int)
    requires
        0 <= from < 4,
        0 <= to < 4,
    ensures
        modulates(Fm4Algorithm::Serial, from, to) <==> (from, to) == (3int, 2int) || (from, to) == (
            2int,
            1int,
        ) || (from, to) == (1int, 0int),
        modulates(Fm4Algorithm::Parallel2, from, to) <==> (from, to) == (3int, 1int) || (from, to)
            == (2int, 1int) || (from, to) == (1int, 0int),
        modulates(Fm4Algorithm::Parallel3, from, to) <==> (from, to) == (3int, 0int) || (from, to)
            == (2int, 0int) || (from, to) == (1int, 0int),
        modulates(Fm4Algorithm::DoubleStack, from, to) <==> (from, to) == (3int, 2int) || (from, to)
            == (3int, 1int) || (from, to) == (2int, 0int) || (from, to) == (1int, 0int),
        modulates(Fm4Algorithm::DualSerial, from, to) <==> (from, to) == (3int, 2int) || (from, to)
            == (3int, 1int) || (from, to) == (2int, 0int) || (from, to) == (1int, 0int),
        !modulates(Fm4Algorithm::Additive, from, to),
        heard(Fm4Algorithm::Additive, from),
        heard(Fm4Algorithm::Serial, from) <==> from == 0,
        heard(Fm4Algorithm::Parallel2, from) <==> from == 0,
        heard(Fm4Algorithm::Parallel3, from) <==> from == 0,
        heard(Fm4Algorithm::DoubleStack, from) <==> from == 0,
        heard(Fm4Algorithm::DualSerial, from) <==> from == 0,
{
}

/// Modulators are listed from the deepest.
pub proof fn the_deepest_comes_first(a: Fm4Algorithm, to: int, op: int)
    requires
        0 <= op <= 4,
    ensures
        forall|i: int, j: int|
            0 <= i < j < modulators_of(a, to, op).len() ==> (#[trigger] modulators_of(a, to, op)[i])
                > (#[trigger] modulators_of(a, to, op)[j]),
        forall|i: int|
            0 <= i < modulators_of(a, to, op).len() ==> op <= (#[trigger] modulators_of(
                a,
                to,
                op,
            )[i]) < 4,
    decreases 4 - op,
{
    if op < 4 {
        let deeper = modulators_of(a, to, op + 1);
        let all = modulators_of(a, to, op);
        the_deepest_comes_first(a, to, op + 1);
        assert forall|i: int| 0 <= i < all.len() implies op <= (#[trigger] all[i]) < 4 by {
            if i < deeper.len() {
                assert(all[i] == deeper[i]);
            }
        }
        assert forall|i: int, j: int| 0 <= i < j < all.len() implies (#[trigger] all[i]) > (
        #[trigger] all[j]) by {
            assert(all[i] == deeper[i]);
            if j < deeper.len() {
                assert(all[j] == deeper[j]);
            }
        }
    }
}

} // verus!
