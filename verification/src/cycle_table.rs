//! Per-effect cost table for budgeting CPU and memory on the pedal.
//!
//! The editor uses this to warn, or refuse, before flashing a patch that the
//! pedal cannot run in real time. Keyed by stable effect UID.
//!
//! These are estimates, not measurements, biased high so that validation warns
//! rather than under-reports. Effects missing from the table degrade
//! gracefully: the validator flags the estimate as a lower bound.
use crate::patch::Bits;
use vstd::prelude::*;

verus! {

/// Audio-block cycle budget: 480 MHz over 32 samples at 48 kHz.
pub const CYCLE_BUDGET_PER_BLOCK: u32 = 320_000;

/// Total SDRAM available to effect buffers (64 MB).
pub const SDRAM_BUDGET_BYTES: u32 = 67_108_864;

/// Warn once the estimated cost crosses this fraction of the budget: the bits of
/// `0.70`.
pub const WARN_FRACTION: Bits = 0x3F33_3333;

/// `(effect_uid, estimated_cycles_per_block)` of the eight pedal effects, by
/// rough cost.
pub const EFFECT_CYCLES: [(u16, u32); 8] = [
    (1, 16_000),
    (17, 12_000),
    (18, 14_000),
    (7, 18_000),
    (3, 26_000),
    (5, 30_000),
    (6, 40_000),
    (11, 64_000),
];

/// `(effect_uid, estimated_sdram_bytes)` of the eight pedal effects.
pub const EFFECT_SDRAM: [(u16, u32); 8] = [
    (1, 0),
    (17, 0),
    (18, 0),
    (7, 0),
    (3, 65_536),
    (5, 8_192),
    (6, 786_432),
    (11, 524_288),
];

/// What a table says of a UID: its first entry.
pub open spec fn looked_up(table: Seq<(u16, u32)>, uid: u16) -> Option<u32>
    decreases table.len(),
{
    if table.len() == 0 {
        None
    } else if table[0].0 == uid {
        Some(table[0].1)
    } else {
        looked_up(table.drop_first(), uid)
    }
}

/// What a table says of a UID, if anything.
pub fn lookup(table: &[(u16, u32)], uid: u16) -> (r: Option<u32>)
    ensures
        r == looked_up(table@, uid),
{
    let mut i: usize = 0;
    assert(table@.skip(0) =~= table@);
    while i < table.len()
        invariant
            i <= table@.len(),
            looked_up(table@, uid) == looked_up(table@.skip(i as int), uid),
        decreases table@.len() - i,
    {
        assert(table@.skip(i as int).drop_first() =~= table@.skip(i as int + 1));
        if table[i].0 == uid {
            return Some(table[i].1);
        }
        i = i + 1;
    }
    None
}

/// Estimated cycles per block for an effect UID, or `None` if unmeasured.
pub fn effect_cycles(uid: u16) -> (r: Option<u32>)
    ensures
        r == looked_up(EFFECT_CYCLES@, uid),
{
    lookup(&EFFECT_CYCLES, uid)
}

/// Estimated SDRAM bytes for an effect UID, or `None` if unknown.
pub fn effect_sdram(uid: u16) -> (r: Option<u32>)
    ensures
        r == looked_up(EFFECT_SDRAM@, uid),
{
    lookup(&EFFECT_SDRAM, uid)
}

/// What the tables say of each UID.
proof fn tables_unfold(uid: u16)
    ensures
        looked_up(EFFECT_CYCLES@, uid) == (if uid == 1 {
            Some(16_000u32)
        } else if uid == 17 {
            Some(12_000)
        } else if uid == 18 {
            Some(14_000)
        } else if uid == 7 {
            Some(18_000)
        } else if uid == 3 {
            Some(26_000)
        } else if uid == 5 {
            Some(30_000)
        } else if uid == 6 {
            Some(40_000)
        } else if uid == 11 {
            Some(64_000)
        } else {
            None
        }),
        looked_up(EFFECT_SDRAM@, uid) == (if uid == 1 || uid == 17 || uid == 18 || uid == 7 {
            Some(0u32)
        } else if uid == 3 {
            Some(65_536)
        } else if uid == 5 {
            Some(8_192)
        } else if uid == 6 {
            Some(786_432)
        } else if uid == 11 {
            Some(524_288)
        } else {
            None
        }),
{
    reveal_with_fuel(looked_up, 9);
}

/// Both tables cover the same effects.
pub proof fn tables_cover_the_same_effects(uid: u16)
    ensures
        looked_up(EFFECT_CYCLES@, uid) is Some <==> looked_up(EFFECT_SDRAM@, uid) is Some,
{
    tables_unfold(uid);
}

/// Any single effect fits both budgets, and none costs more cycles than the
/// reverb.
pub proof fn a_single_effect_fits(uid: u16)
    ensures
        looked_up(EFFECT_CYCLES@, uid) matches Some(c) ==> c < CYCLE_BUDGET_PER_BLOCK && c
            <= looked_up(EFFECT_CYCLES@, 11)->Some_0,
        looked_up(EFFECT_SDRAM@, uid) matches Some(b) ==> b < SDRAM_BUDGET_BYTES,
{
    tables_unfold(uid);
    tables_unfold(11);
}

/// A table says of a UID what its first entry for it says, and nothing where it
/// has none.
pub proof fn the_first_entry_is_looked_up(table: Seq<(u16, u32)>, uid: u16, i: int)
    requires
        0 <= i <= table.len(),
        i < table.len() ==> table[i].0 == uid,
        forall|j: int| 0 <= j < i ==> (#[trigger] table[j]).0 != uid,
    ensures
        looked_up(table, uid) == if i < table.len() {
            Some(table[i].1)
        } else {
            None
        },
    decreases table.len(),
{
    if i > 0 {
        let rest = table.drop_first();
        assert(table[0].0 != uid);
        assert forall|j: int| 0 <= j < i - 1 implies (#[trigger] rest[j]).0 != uid by {
            assert(table[j + 1].0 != uid);
        }
        the_first_entry_is_looked_up(rest, uid, i - 1);
    }
}

} // verus!
