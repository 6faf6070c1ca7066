//! Export: check a patch against the pedal, and lay it out for its
//! destinations.
use crate::binary::{PatchError, encode};
use crate::cycle_table::{
    CYCLE_BUDGET_PER_BLOCK, EFFECT_CYCLES, EFFECT_SDRAM, SDRAM_BUDGET_BYTES, WARN_FRACTION,
};
use crate::layout::{HEADER_LEN, decoded, padding, patch_fault, payload_of, sector_of};
use crate::patch::{NUM_MACROS, Patch, PatchModel, SECTOR_SIZE};
use crate::roundtrip::{lossless, lossless_round_trip, sector_reads_back, stored_patch};
use crate::text::{chars_of, decimal, push_decimal, text_between};
use crate::validate::{
    CpuShare, Finding, FindingModel, PedalLimits, any_error, cpu_findings, cycles_of,
    effect_set_findings, findings_view, has_errors, only_if, over_sdram, pedal_findings,
    pedal_refuses_iff, some_unmeasured, sound, structure_errors_iff_unsound, structure_findings,
    summed, unmeasured, validate_for_pedal,
};
use vstd::prelude::*;
use vstd::string::StringExecFns;

verus! {

/// The effects that the pedal can run: exactly those with a cost.
pub open spec fn allowed_uids() -> Seq<u16> {
    EFFECT_CYCLES@.map_values(|e: (u16, u32)| e.0)
}

/// What stands against running a patch on the pedal.
pub open spec fn export_findings(p: PatchModel, share: CpuShare) -> Seq<FindingModel> {
    structure_findings(p) + effect_set_findings(p.nodes, allowed_uids()) + only_if(
        some_unmeasured(p.nodes, EFFECT_CYCLES@),
        unmeasured(),
    ) + cpu_findings(cycles_of(p.nodes, EFFECT_CYCLES@), CYCLE_BUDGET_PER_BLOCK as nat, share)
        + only_if(
        summed(p.nodes, EFFECT_SDRAM@) > SDRAM_BUDGET_BYTES,
        over_sdram(summed(p.nodes, EFFECT_SDRAM@), SDRAM_BUDGET_BYTES as nat),
    )
}

/// Whether a patch may go to the pedal.
pub open spec fn fits_pedal(p: PatchModel) -> bool {
    &&& sound(p)
    &&& forall|i: int|
        0 <= i < p.nodes.len() ==> allowed_uids().contains((#[trigger] p.nodes[i]).effect_uid)
    &&& cycles_of(p.nodes, EFFECT_CYCLES@) <= CYCLE_BUDGET_PER_BLOCK
}

/// UIDs that the pedal can run: exactly the effects with a cost-table entry.
pub fn pedal_allowed_uids() -> (uids: Vec<u16>)
    ensures
        uids@ == allowed_uids(),
{
    let mut uids: Vec<u16> = Vec::new();
    let table = EFFECT_CYCLES;
    let mut i: usize = 0;
    while i < table.len()
        invariant
            i <= table@.len(),
            table@ == EFFECT_CYCLES@,
            uids@ == allowed_uids().take(i as int),
        decreases table@.len() - i,
    {
        uids.push(table[i].0);
        i = i + 1;
        assert(uids@ =~= allowed_uids().take(i as int));
    }
    assert(uids@ =~= allowed_uids());
    uids
}

/// Validate a patch against the pedal's effect set and CPU and memory budgets.
/// `share` says how the patch's estimated cycles compare with the budget.
pub fn validate_patch_for_pedal(patch: &Patch, share: CpuShare) -> (findings: Vec<Finding>)
    ensures
        findings_view(findings@) == export_findings(patch@, share),
{
    let allowed = pedal_allowed_uids();
    let cycles = EFFECT_CYCLES;
    let sdram = EFFECT_SDRAM;
    let limits = PedalLimits {
        allowed_uids: allowed.as_slice(),
        cycle_table: cycles.as_slice(),
        sdram_table: sdram.as_slice(),
        cycle_budget: CYCLE_BUDGET_PER_BLOCK,
        warn_fraction: WARN_FRACTION,
        sdram_budget: SDRAM_BUDGET_BYTES,
    };
    validate_for_pedal(patch, &limits, share)
}

/// Whether a patch is safe to flash to the pedal (no error-level findings).
pub fn can_export_to_pedal(patch: &Patch) -> (r: bool)
    ensures
        r == fits_pedal(patch@),
        forall|share: CpuShare| r == !#[trigger] any_error(export_findings(patch@, share)),
{
    let allowed = pedal_allowed_uids();
    let cycles = EFFECT_CYCLES;
    let sdram = EFFECT_SDRAM;
    let limits = PedalLimits {
        allowed_uids: allowed.as_slice(),
        cycle_table: cycles.as_slice(),
        sdram_table: sdram.as_slice(),
        cycle_budget: CYCLE_BUDGET_PER_BLOCK,
        warn_fraction: WARN_FRACTION,
        sdram_budget: SDRAM_BUDGET_BYTES,
    };
    // Being close to the budget never refuses a patch.
    let share = CpuShare { over_warning: false, percent: 0 };
    let findings = validate_for_pedal(patch, &limits, share);
    proof {
        pedal_refuses_iff(patch@, limits, share);
        assert forall|s: CpuShare| any_error(export_findings(patch@, share)) == #[trigger] any_error(
            export_findings(patch@, s),
        ) by {
            pedal_refuses_iff(patch@, limits, s);
            assert(pedal_findings(patch@, limits, s) == export_findings(patch@, s));
        }
    }
    !has_errors(findings.as_slice())
}

/// Encode a patch into a full zero-padded sector, ready to flash or save.
pub fn encode_patch_sector(patch: &Patch) -> (r: Result<[u8; SECTOR_SIZE], PatchError>)
    ensures
        match r {
            Ok(sector) => {
                &&& patch_fault(patch@) is None
                &&& sector_of(patch@).len() <= SECTOR_SIZE
                &&& sector@ == sector_of(patch@) + padding(
                    (SECTOR_SIZE - sector_of(patch@).len()) as nat,
                )
            },
            Err(e) => match patch_fault(patch@) {
                Some(fault) => e == fault,
                None => sector_of(patch@).len() > SECTOR_SIZE && e == PatchError::BufferTooSmall,
            },
        },
{
    let mut buf: [u8; SECTOR_SIZE] = [0u8; SECTOR_SIZE];
    encode(patch, &mut buf)?;
    assert(buf@ =~= sector_of(patch@) + padding((SECTOR_SIZE - sector_of(patch@).len()) as nat));
    Ok(buf)
}

// File names.

/// A character that a file stem keeps: an ASCII letter or digit, `-` or `_`.
pub open spec fn stem_char(c: char) -> bool {
    ||| 'a' <= c <= 'z'
    ||| 'A' <= c <= 'Z'
    ||| '0' <= c <= '9'
    ||| c == '-'
    ||| c == '_'
}

/// A name with every other character replaced by `_`.
pub open spec fn replaced(name: Seq<char>) -> Seq<char> {
    name.map_values(
        |c: char|
            if stem_char(c) {
                c
            } else {
                '_'
            },
    )
}

/// A text without the underscores at its front.
pub open spec fn front_trimmed(s: Seq<char>) -> Seq<char>
    decreases s.len(),
{
    if s.len() > 0 && s[0] == '_' {
        front_trimmed(s.drop_first())
    } else {
        s
    }
}

/// A text without the underscores at its end.
pub open spec fn end_trimmed(s: Seq<char>) -> Seq<char>
    decreases s.len(),
{
    if s.len() > 0 && s.last() == '_' {
        end_trimmed(s.drop_last())
    } else {
        s
    }
}

/// The file stem for a name.
pub open spec fn file_stem(name: Seq<char>) -> Seq<char> {
    let stem = end_trimmed(front_trimmed(replaced(name)));
    if stem.len() == 0 {
        "patch"@
    } else {
        stem
    }
}

fn is_stem_char(c: char) -> (r: bool)
    ensures
        r == stem_char(c),
{
    ('a' <= c && c <= 'z') || ('A' <= c && c <= 'Z') || ('0' <= c && c <= '9') || c == '-' || c
        == '_'
}

/// Sanitize a patch name into a safe file stem.
pub fn safe_file_stem(name: &str) -> (stem: String)
    ensures
        stem@ == file_stem(name@),
{
    let mut chars = chars_of(name);
    let n: usize = chars.len();
    let ghost all = replaced(name@);
    let mut i: usize = 0;
    while i < n
        invariant
            i <= n,
            n == chars@.len(),
            n == name@.len(),
            all == replaced(name@),
            forall|j: int| 0 <= j < i ==> #[trigger] chars@[j] == all[j],
            forall|j: int| i <= j < n ==> #[trigger] chars@[j] == name@[j],
        decreases n - i,
    {
        if !is_stem_char(chars[i]) {
            chars[i] = '_';
        }
        i = i + 1;
    }
    assert(chars@ =~= all);
    let mut from: usize = 0;
    assert(all.skip(0) =~= all);
    while from < n && chars[from] == '_'
        invariant
            from <= n,
            n == chars@.len(),
            chars@ == all,
            front_trimmed(all) == front_trimmed(all.skip(from as int)),
        decreases n - from,
    {
        assert(all.skip(from as int).drop_first() =~= all.skip(from as int + 1));
        from = from + 1;
    }
    let mut to: usize = n;
    let ghost front = all.skip(from as int);
    assert(all.subrange(from as int, to as int) =~= front);
    while to > from && chars[to - 1] == '_'
        invariant
            from <= to <= n,
            n == chars@.len(),
            chars@ == all,
            end_trimmed(front) == end_trimmed(all.subrange(from as int, to as int)),
        decreases to - from,
    {
        let ghost now = all.subrange(from as int, to as int);
        assert(now.drop_last() =~= all.subrange(from as int, to as int - 1));
        to = to - 1;
    }
    if from == to {
        return "patch".to_owned();
    }
    text_between(&chars, from, to)
}

/// The file name under which a patch is offered to the graph-player plugin.
pub fn clap_file_name(name: &str) -> (file: String)
    ensures
        file@ == file_stem(name@) + ".sonidopatch.json"@,
{
    let mut file = safe_file_stem(name);
    file.append(".sonidopatch.json");
    file
}

/// The file in which a patch slot is staged for flashing.
pub fn slot_file_name(slot: u8) -> (file: String)
    ensures
        file@ == "sonido_patch_slot"@ + decimal(slot as nat) + ".bin"@,
{
    let mut file = "sonido_patch_slot".to_owned();
    push_decimal(&mut file, slot as u128);
    file.append(".bin");
    file
}

/// Which directory the plugin's patches live under.
#[derive(Clone, Copy, Debug, PartialEq, Eq, Structural)]
pub enum DataHome {
    /// `$XDG_DATA_HOME`.
    Xdg,
    /// `.local/share` below `$HOME`.
    HomeShare,
}

/// Where the plugin's patches live: below `$XDG_DATA_HOME` where that is set and
/// not empty, else below the home directory where that is set.
pub fn clap_data_home(xdg: Option<&str>, home: Option<&str>) -> (r: Option<DataHome>)
    ensures
        r == (if xdg matches Some(x) && x@.len() > 0 {
            Some(DataHome::Xdg)
        } else if home is Some {
            Some(DataHome::HomeShare)
        } else {
            None
        }),
{
    match xdg {
        Some(x) => {
            if !x.is_empty() {
                return Some(DataHome::Xdg);
            }
        },
        None => {},
    }
    match home {
        Some(_) => Some(DataHome::HomeShare),
        None => None,
    }
}

// Laws.

proof fn front_trimmed_is_suffix(s: Seq<char>)
    ensures
        front_trimmed(s).len() <= s.len(),
        front_trimmed(s) == s.skip(s.len() - front_trimmed(s).len()),
        front_trimmed(s).len() > 0 ==> front_trimmed(s)[0] != '_',
    decreases s.len(),
{
    if s.len() > 0 && s[0] == '_' {
        front_trimmed_is_suffix(s.drop_first());
        let t = front_trimmed(s);
        assert(s.drop_first().skip(s.len() - 1 - t.len()) =~= s.skip(s.len() - t.len()));
    } else {
        assert(s.skip(0) =~= s);
    }
}

proof fn end_trimmed_is_prefix(s: Seq<char>)
    ensures
        end_trimmed(s).len() <= s.len(),
        end_trimmed(s) == s.take(end_trimmed(s).len() as int),
        end_trimmed(s).len() > 0 ==> end_trimmed(s).last() != '_',
    decreases s.len(),
{
    if s.len() > 0 && s.last() == '_' {
        end_trimmed_is_prefix(s.drop_last());
        let t = end_trimmed(s);
        assert(s.drop_last().take(t.len() as int) =~= s.take(t.len() as int));
    } else {
        assert(s.take(s.len() as int) =~= s);
    }
}

/// A file stem is never empty, holds only safe characters, and neither begins
/// nor ends with an underscore.
pub proof fn file_stem_is_safe(name: Seq<char>)
    ensures
        file_stem(name).len() > 0,
        forall|i: int| 0 <= i < file_stem(name).len() ==> stem_char(#[trigger] file_stem(name)[i]),
        file_stem(name)[0] != '_',
        file_stem(name).last() != '_',
{
    reveal_strlit("patch");
    let all = replaced(name);
    let front = front_trimmed(all);
    let stem = end_trimmed(front);
    front_trimmed_is_suffix(all);
    end_trimmed_is_prefix(front);
    if stem.len() > 0 {
        let skipped = all.len() - front.len();
        assert forall|i: int| 0 <= i < stem.len() implies stem_char(#[trigger] stem[i]) by {
            assert(stem[i] == front[i]);
            assert(front[i] == all[skipped + i]);
        }
        assert(stem[0] == front[0]);
    }
}

/// A file stem is its own file stem.
pub proof fn file_stem_is_stable(name: Seq<char>)
    ensures
        file_stem(file_stem(name)) == file_stem(name),
{
    let stem = file_stem(name);
    file_stem_is_safe(name);
    assert(replaced(stem) =~= stem);
}

/// A sector that was encoded decodes to what it keeps of the patch.
pub proof fn padded_sector_reads_back(p: PatchModel)
    requires
        patch_fault(p) is None,
        p.macros.len() == NUM_MACROS,
        sector_of(p).len() <= SECTOR_SIZE,
    ensures
        decoded(sector_of(p) + padding((SECTOR_SIZE - sector_of(p).len()) as nat)) == Ok::<
            _,
            PatchError,
        >(stored_patch(p)),
{
    assert(sector_of(p).len() == HEADER_LEN + payload_of(p).len());
    sector_reads_back(p, padding((SECTOR_SIZE - sector_of(p).len()) as nat));
}

/// The pedal has eight effects, by their UIDs.
pub proof fn the_pedal_has_eight_effects(uid: u16)
    ensures
        allowed_uids().contains(uid) <==> uid == 1 || uid == 17 || uid == 18 || uid == 7 || uid == 3
            || uid == 5 || uid == 6 || uid == 11,
{
    let us = allowed_uids();
    assert(us.len() == 8);
    assert(us[0] == 1 && us[1] == 17 && us[2] == 18 && us[3] == 7 && us[4] == 3 && us[5] == 5
        && us[6] == 6 && us[7] == 11);
    if us.contains(uid) {
        let i = us.index_of(uid);
        assert(us[i] == uid);
    }
}

/// What fits the pedal: a patch in which nothing is structurally wrong, of effects
/// that the pedal has, that is estimated at no more than 320,000 cycles a block.
pub proof fn what_fits_the_pedal(patch: Patch, structure: Seq<Finding>)
    requires
        findings_view(structure) == structure_findings(patch@),
    ensures
        fits_pedal(patch@) <==> {
            &&& structure.len() == 0
            &&& forall|i: int|
                0 <= i < patch.nodes@.len() ==> {
                    let uid = (#[trigger] patch.nodes@[i]).effect_uid;
                    uid == 1 || uid == 17 || uid == 18 || uid == 7 || uid == 3 || uid == 5 || uid
                        == 6 || uid == 11
                }
            &&& cycles_of(patch@.nodes, EFFECT_CYCLES@) <= 320_000
        },
{
    let p = patch@;
    structure_errors_iff_unsound(p);
    assert(findings_view(structure).len() == structure.len());
    assert forall|uid: u16| #[trigger] allowed_uids().contains(uid) <==> uid == 1 || uid == 17
        || uid == 18 || uid == 7 || uid == 3 || uid == 5 || uid == 6 || uid == 11 by {
        the_pedal_has_eight_effects(uid);
    }
    assert forall|i: int| 0 <= i < p.nodes.len() implies (#[trigger] p.nodes[i]).effect_uid
        == patch.nodes@[i].effect_uid by {}
    if forall|i: int|
        0 <= i < p.nodes.len() ==> allowed_uids().contains((#[trigger] p.nodes[i]).effect_uid) {
        assert forall|i: int| 0 <= i < patch.nodes@.len() implies allowed_uids().contains(
            (#[trigger] patch.nodes@[i]).effect_uid,
        ) by {
            assert(p.nodes[i].effect_uid == patch.nodes@[i].effect_uid);
        }
    }
}

/// Trimming the front takes underscores only.
proof fn front_holds_underscores(s: Seq<char>)
    ensures
        forall|i: int| 0 <= i < s.len() - front_trimmed(s).len() ==> #[trigger] s[i] == '_',
    decreases s.len(),
{
    if s.len() > 0 && s[0] == '_' {
        let rest = s.drop_first();
        front_trimmed_is_suffix(rest);
        front_holds_underscores(rest);
        assert forall|i: int| 0 <= i < s.len() - front_trimmed(s).len() implies #[trigger] s[i]
            == '_' by {
            if i > 0 {
                assert(rest[i - 1] == s[i]);
            }
        }
    }
}

/// Trimming the end takes underscores only.
proof fn end_holds_underscores(s: Seq<char>)
    ensures
        forall|i: int| end_trimmed(s).len() <= i < s.len() ==> #[trigger] s[i] == '_',
    decreases s.len(),
{
    if s.len() > 0 && s.last() == '_' {
        let front = s.drop_last();
        end_trimmed_is_prefix(front);
        end_holds_underscores(front);
        assert forall|i: int| end_trimmed(s).len() <= i < s.len() implies #[trigger] s[i] == '_' by {
            if i < s.len() - 1 {
                assert(front[i] == s[i]);
            }
        }
    }
}

/// A file stem is the name from its first safe character to its last: letters,
/// digits and hyphens stay, everything else in between becomes an underscore, and
/// nothing but what would become one is left out around it. A name without such a
/// character is called `patch`. Returned is where the stem begins in the name.
pub proof fn a_file_stem_is_made_of_the_name(name: Seq<char>) -> (at: int)
    ensures
        (forall|i: int|
            0 <= i < name.len() ==> {
                let c = #[trigger] name[i];
                !('a' <= c <= 'z' || 'A' <= c <= 'Z' || '0' <= c <= '9' || c == '-')
            }) ==> file_stem(name) == "patch"@,
        (exists|i: int|
            0 <= i < name.len() && {
                let c = #[trigger] name[i];
                'a' <= c <= 'z' || 'A' <= c <= 'Z' || '0' <= c <= '9' || c == '-'
            }) ==> {
            let stem = file_stem(name);
            &&& 0 <= at && at + stem.len() <= name.len()
            &&& forall|i: int|
                0 <= i < stem.len() ==> {
                    let c = name[at + i];
                    if 'a' <= c <= 'z' || 'A' <= c <= 'Z' || '0' <= c <= '9' || c == '-' {
                        #[trigger] stem[i] == c
                    } else {
                        stem[i] == '_'
                    }
                }
            &&& forall|i: int|
                0 <= i < name.len() && !(at <= i < at + stem.len()) ==> {
                    let c = #[trigger] name[i];
                    !('a' <= c <= 'z' || 'A' <= c <= 'Z' || '0' <= c <= '9' || c == '-')
                }
        },
{
    let all = replaced(name);
    let front = front_trimmed(all);
    let stem = end_trimmed(front);
    let at = all.len() - front.len();
    front_trimmed_is_suffix(all);
    end_trimmed_is_prefix(front);
    front_holds_underscores(all);
    end_holds_underscores(front);
    assert forall|i: int| 0 <= i < name.len() && !(at <= i < at + stem.len()) implies {
        let c = #[trigger] name[i];
        !('a' <= c <= 'z' || 'A' <= c <= 'Z' || '0' <= c <= '9' || c == '-')
    } by {
        if i >= at {
            assert(front[i - at] == all[i]);
        }
        assert(all[i] == '_');
    }
    assert forall|i: int| 0 <= i < stem.len() implies #[trigger] stem[i] == all[at + i] by {
        assert(stem[i] == front[i]);
        assert(front[i] == all[at + i]);
    }
    if forall|i: int|
        0 <= i < name.len() ==> {
            let c = #[trigger] name[i];
            !('a' <= c <= 'z' || 'A' <= c <= 'Z' || '0' <= c <= '9' || c == '-')
        } {
        if stem.len() > 0 {
            assert(stem[0] == all[at]);
            assert(front[0] == stem[0]);
            let c = name[at];
            assert(false);
        }
    } else {
        let i = choose|i: int|
            0 <= i < name.len() && {
                let c = #[trigger] name[i];
                'a' <= c <= 'z' || 'A' <= c <= 'Z' || '0' <= c <= '9' || c == '-'
            };
        assert(at <= i < at + stem.len());
    }
    at
}

/// A sector that is flashed is the patch: decoding it gives what a sector keeps of
/// the patch, and for a patch that fits its fields the patch itself.
pub proof fn a_flashed_sector_is_the_patch(p: PatchModel, sector: Seq<u8>)
    requires
        patch_fault(p) is None,
        p.macros.len() == NUM_MACROS,
        sector_of(p).len() <= SECTOR_SIZE,
        sector == sector_of(p) + padding((SECTOR_SIZE - sector_of(p).len()) as nat),
    ensures
        sector.len() == 4096,
        lossless(p) ==> decoded(sector) == Ok::<_, PatchError>(p),
{
    assert(sector_of(p).len() == HEADER_LEN + payload_of(p).len());
    if lossless(p) {
        lossless_round_trip(p, padding((SECTOR_SIZE - sector_of(p).len()) as nat));
    }
}

} // verus!
