//! Auto-assign the six performance macros from the effects in the chain.
//!
//! One macro per effect, in chain order: each macro binds to that effect's
//! signature parameter, the first continuous, musical control that it exposes.
//! Because an effect lists its primary knob first, the first candidate lands on
//! the right control without a per-effect table.
//!
//! The macro's range and curve are the parameter's own, and its knob is set to
//! the position that reproduces the current value, so assigning never jumps the
//! sound.
use crate::bits::unit_clamped;
use crate::macros::{MacroMap, MacroMapModel, MacroMapping, exclusive, texts_of};
use crate::params::{ParamInfo, mappable};
use crate::patch::{BITS_ZERO, Bits, MacroTarget, NUM_MACROS};
use vstd::prelude::*;

verus! {

/// A parameter of the live rig.
#[derive(Clone, Debug)]
pub struct SlotParam {
    /// How its effect describes it, where it does.
    pub info: Option<ParamInfo>,
    /// The knob position that reproduces its current value.
    pub position: Bits,
}

/// A freshly seeded macro map and a display name per macro.
#[derive(Debug)]
pub struct AutoAssign {
    /// Up to six single-target bindings, knobs preset.
    pub map: MacroMap,
    /// Per-macro display name; empty for a macro left unbound.
    pub names: [String; NUM_MACROS],
    /// Effects that had a mappable parameter but got no macro because all six
    /// were spoken for.
    pub overflow: usize,
}

/// Whether a parameter can be a signature.
pub open spec fn candidate(p: SlotParam) -> bool {
    p.info matches Some(info) && mappable(info)
}

/// The first candidate at or behind index `i`.
pub open spec fn first_candidate(params: Seq<SlotParam>, i: int) -> Option<int>
    decreases params.len() - i,
{
    if i < 0 || i >= params.len() {
        None
    } else if candidate(params[i]) {
        Some(i)
    } else {
        first_candidate(params, i + 1)
    }
}

/// The slots that have a signature parameter, in order, each with its
/// signature.
pub open spec fn signatures(slots: Seq<Vec<SlotParam>>) -> Seq<(int, int)>
    decreases slots.len(),
{
    if slots.len() == 0 {
        Seq::empty()
    } else {
        let before = signatures(slots.drop_last());
        match first_candidate(slots.last()@, 0) {
            Some(p) => before.push((slots.len() - 1, p)),
            None => before,
        }
    }
}

/// The description of a signature parameter.
pub open spec fn info_at(slots: Seq<Vec<SlotParam>>, at: (int, int)) -> ParamInfo {
    slots[at.0]@[at.1].info->Some_0
}

/// The binding of a signature parameter to macro `k`.
pub open spec fn signature_mapping(slots: Seq<Vec<SlotParam>>, at: (int, int), k: int) -> MacroMapping {
    let info = info_at(slots, at);
    MacroMapping {
        macro_index: k as usize,
        target: MacroTarget::Slot { slot: (at.0 % 256) as u8, param: (at.1 % 256) as u8 },
        min: info.min,
        max: info.max,
        curve: info.curve,
    }
}

/// How many macros are bound.
pub open spec fn bound_count(slots: Seq<Vec<SlotParam>>) -> nat {
    if signatures(slots).len() < NUM_MACROS {
        signatures(slots).len()
    } else {
        NUM_MACROS as nat
    }
}

/// The seeded bindings: one per macro, in chain order.
pub open spec fn seeded_mappings(slots: Seq<Vec<SlotParam>>) -> Seq<MacroMapping> {
    Seq::new(bound_count(slots), |k: int| signature_mapping(slots, signatures(slots)[k], k))
}

/// The seeded knob positions.
pub open spec fn seeded_positions(slots: Seq<Vec<SlotParam>>) -> Seq<Bits> {
    Seq::new(
        NUM_MACROS as nat,
        |k: int|
            if k < bound_count(slots) {
                let (s, p) = signatures(slots)[k];
                unit_clamped(slots[s]@[p].position)
            } else {
                BITS_ZERO
            },
    )
}

/// The seeded names.
pub open spec fn seeded_names(slots: Seq<Vec<SlotParam>>) -> Seq<Seq<char>> {
    Seq::new(
        NUM_MACROS as nat,
        |k: int|
            if k < bound_count(slots) {
                info_at(slots, signatures(slots)[k]).short_name@
            } else {
                Seq::empty()
            },
    )
}

/// The signature parameter of a slot: the first continuous, musical control.
fn signature_param(params: &Vec<SlotParam>) -> (r: Option<usize>)
    ensures
        first_candidate(params@, 0) == (match r {
            Some(p) => Some(p as int),
            None => None,
        }),
        r matches Some(p) ==> p < params@.len() && candidate(params@[p as int]),
{
    let mut p: usize = 0;
    while p < params.len()
        invariant
            p <= params@.len(),
            first_candidate(params@, 0) == first_candidate(params@, p as int),
        decreases params@.len() - p,
    {
        match &params[p].info {
            Some(info) => {
                if info.is_mappable() {
                    return Some(p);
                }
            },
            None => {},
        }
        p = p + 1;
    }
    None
}

/// Build a macro map by binding each effect to its signature parameter.
///
/// Effects with no mappable parameter are skipped without consuming a macro. At
/// most six effects are bound; those beyond are counted in
/// [`AutoAssign::overflow`].
pub fn auto_assign_macros(slots: &Vec<Vec<SlotParam>>) -> (r: AutoAssign)
    ensures
        r.map@ == (MacroMapModel {
            mappings: seeded_mappings(slots@),
            positions: seeded_positions(slots@),
        }),
        texts_of(r.names@) == seeded_names(slots@),
        r.overflow == signatures(slots@).len() - bound_count(slots@),
{
    let mut map = MacroMap::new();
    let mut names = [
        String::new(),
        String::new(),
        String::new(),
        String::new(),
        String::new(),
        String::new(),
    ];
    let mut next: usize = 0;
    let mut overflow: usize = 0;
    let mut s: usize = 0;
    assert(map@.mappings =~= seeded_mappings(slots@.take(0)));
    assert(map@.positions =~= seeded_positions(slots@.take(0)));
    assert(texts_of(names@) =~= seeded_names(slots@.take(0)));
    while s < slots.len()
        invariant
            s <= slots@.len(),
            next == bound_count(slots@.take(s as int)),
            overflow == signatures(slots@.take(s as int)).len() - next,
            overflow <= s,
            map@.mappings == seeded_mappings(slots@.take(s as int)),
            map@.positions == seeded_positions(slots@.take(s as int)),
            texts_of(names@) == seeded_names(slots@.take(s as int)),
        decreases slots@.len() - s,
    {
        let ghost before = slots@.take(s as int);
        let ghost now = slots@.take(s as int + 1);
        let ghost ms = map@.mappings;
        let ghost ps = map@.positions;
        let ghost ns = texts_of(names@);
        assert(now.drop_last() =~= before);
        assert(now.last() == slots@[s as int]);
        proof {
            signatures_name_slots(before);
            assert forall|k: int| 0 <= k < signatures(before).len() implies #[trigger] before[signatures(
                before,
            )[k].0] == now[signatures(before)[k].0] by {}
        }
        let params = &slots[s];
        match signature_param(params) {
            Some(p) => {
                let ghost at = (s as int, p as int);
                assert(signatures(now) == signatures(before).push(at));
                if next >= NUM_MACROS {
                    overflow = overflow + 1;
                    assert(map@.mappings =~= seeded_mappings(now));
                    assert(map@.positions =~= seeded_positions(now));
                    assert(texts_of(names@) =~= seeded_names(now));
                } else {
                    match &params[p].info {
                        Some(info) => {
                            map.add_mapping(
                                MacroMapping {
                                    macro_index: next,
                                    target: MacroTarget::Slot {
                                        slot: (s % 256) as u8,
                                        param: (p % 256) as u8,
                                    },
                                    min: info.min,
                                    max: info.max,
                                    curve: info.curve,
                                },
                            );
                            // Preset the knob so that it reproduces the current value.
                            map.set_position(next, params[p].position);
                            names[next] = info.short_name.clone();
                            assert(map@.mappings =~= seeded_mappings(now));
                            assert(map@.positions =~= seeded_positions(now));
                            assert(texts_of(names@) =~= ns.update(
                                next as int,
                                info.short_name@,
                            ));
                            assert forall|k: int| 0 <= k < NUM_MACROS implies texts_of(names@)[k]
                                == seeded_names(now)[k] by {
                                if k < next {
                                    assert(ns[k] == seeded_names(before)[k]);
                                    assert(signatures(now)[k] == signatures(before)[k]);
                                }
                            }
                            assert(texts_of(names@) =~= seeded_names(now));
                        },
                        None => {},
                    }
                    next = next + 1;
                }
            },
            None => {
                assert(signatures(now) == signatures(before));
                assert(map@.mappings =~= seeded_mappings(now));
                assert(map@.positions =~= seeded_positions(now));
                assert(texts_of(names@) =~= seeded_names(now));
            },
        }
        s = s + 1;
    }
    assert(slots@.take(s as int) =~= slots@);
    AutoAssign { map, names, overflow }
}

/// A signature is a parameter of its slot and a candidate, and slots come in
/// chain order.
pub proof fn signatures_name_slots(slots: Seq<Vec<SlotParam>>)
    ensures
        signatures(slots).len() <= slots.len(),
        forall|k: int|
            #![trigger signatures(slots)[k]]
            0 <= k < signatures(slots).len() ==> {
                let (s, p) = signatures(slots)[k];
                &&& 0 <= s < slots.len()
                &&& 0 <= p < slots[s]@.len()
                &&& candidate(slots[s]@[p])
            },
        forall|k: int, l: int|
            #![trigger signatures(slots)[k], signatures(slots)[l]]
            0 <= k < l < signatures(slots).len() ==> signatures(slots)[k].0 < signatures(slots)[l].0,
    decreases slots.len(),
{
    if slots.len() > 0 {
        let front = slots.drop_last();
        signatures_name_slots(front);
        first_candidate_is_one(slots.last()@, 0);
        assert forall|k: int|
            #![trigger signatures(slots)[k]]
            0 <= k < signatures(slots).len() implies {
            let (s, p) = signatures(slots)[k];
            &&& 0 <= s < slots.len()
            &&& 0 <= p < slots[s]@.len()
            &&& candidate(slots[s]@[p])
        } by {
            if k < signatures(front).len() {
                assert(signatures(slots)[k] == signatures(front)[k]);
                assert(front[signatures(front)[k].0] == slots[signatures(front)[k].0]);
            }
        }
        assert forall|k: int, l: int|
            #![trigger signatures(slots)[k], signatures(slots)[l]]
            0 <= k < l < signatures(slots).len() implies signatures(slots)[k].0 < signatures(
            slots,
        )[l].0 by {
            assert(signatures(slots)[k] == signatures(front)[k]);
            if l < signatures(front).len() {
                assert(signatures(slots)[l] == signatures(front)[l]);
            }
        }
    }
}

/// The first candidate is a candidate, and nothing in front of it is.
pub proof fn first_candidate_is_one(params: Seq<SlotParam>, i: int)
    requires
        0 <= i <= params.len(),
    ensures
        first_candidate(params, i) matches Some(p) ==> i <= p < params.len() && candidate(
            params[p],
        ),
        forall|j: int|
            i <= j < params.len() && (first_candidate(params, i) matches Some(p) ==> j < p)
                ==> !candidate(#[trigger] params[j]),
    decreases params.len() - i,
{
    if i < params.len() && !candidate(params[i]) {
        first_candidate_is_one(params, i + 1);
    }
}

/// A chain of up to 256 effects is seeded with exclusive bindings: no two
/// macros drive one parameter.
pub proof fn seeded_bindings_are_exclusive(slots: Seq<Vec<SlotParam>>)
    requires
        slots.len() <= 256,
    ensures
        exclusive(seeded_mappings(slots)),
{
    signatures_name_slots(slots);
    let ms = seeded_mappings(slots);
    assert forall|i: int, j: int| 0 <= i < j < ms.len() implies (#[trigger] ms[i]).target != (
    #[trigger] ms[j]).target by {
        let a = signatures(slots)[i];
        let b = signatures(slots)[j];
        assert(a.0 < b.0 < 256);
    }
}

/// What assigning does, slot by slot: going through the chain, each slot with a
/// control that can be mapped gets the next of the six macros, as long as there is
/// one; the macro drives the first such control of the slot over its own range, in
/// its own curve, under its own short name, with the knob where the control is.
/// The slots that come too late are counted, and the macros that are left over
/// drive nothing, have no name and stay down. Returned is the slot and the control
/// of each macro.
pub proof fn each_slot_gets_the_next_macro(slots: Seq<Vec<SlotParam>>, r: AutoAssign) -> (at: Seq<
    (int, int),
>)
    requires
        r.map@ == (MacroMapModel {
            mappings: seeded_mappings(slots),
            positions: seeded_positions(slots),
        }),
        texts_of(r.names@) == seeded_names(slots),
        r.overflow == signatures(slots).len() - bound_count(slots),
        slots.len() <= 256,
        forall|s: int| 0 <= s < slots.len() ==> (#[trigger] slots[s])@.len() <= 256,
    ensures
        // Every slot with a control that can be mapped is listed, in chain order.
        forall|k: int, l: int| 0 <= k < l < at.len() ==> (#[trigger] at[k]).0 < (#[trigger] at[l]).0,
        forall|s: int, p: int|
            0 <= s < slots.len() && 0 <= p < slots[s]@.len() && (
            #[trigger] slots[s]@[p].info matches Some(info) && mappable(info)) ==> exists|k: int|
                0 <= k < at.len() && (#[trigger] at[k]).0 == s,
        // What is listed is the first of them.
        forall|k: int|
            #![trigger at[k]]
            0 <= k < at.len() ==> {
                let (s, p) = at[k];
                &&& 0 <= s < slots.len()
                &&& 0 <= p < slots[s]@.len()
                &&& slots[s]@[p].info matches Some(info) && mappable(info)
                &&& forall|q: int|
                    0 <= q < p ==> !(#[trigger] slots[s]@[q].info matches Some(info) && mappable(
                        info,
                    ))
            },
        // The first six get a macro each.
        r.map@.mappings.len() == if at.len() < 6 {
            at.len() as int
        } else {
            6
        },
        r.overflow == if at.len() < 6 {
            0
        } else {
            at.len() - 6
        },
        forall|k: int|
            #![trigger at[k]]
            0 <= k < at.len() && k < 6 ==> {
                let info = slots[at[k].0]@[at[k].1].info->0;
                let m = r.map@.mappings[k];
                let position = slots[at[k].0]@[at[k].1].position;
                &&& m.macro_index == k
                &&& m.target == (MacroTarget::Slot { slot: at[k].0 as u8, param: at[k].1 as u8 })
                &&& m.min == info.min
                &&& m.max == info.max
                &&& m.curve == info.curve
                &&& r.names@[k]@ == info.short_name@
                &&& position <= 0x3F80_0000 ==> r.map@.positions[k] == position
            },
        forall|k: int|
            at.len() <= k < 6 ==> (#[trigger] r.names@[k])@.len() == 0 && r.map@.positions[k] == 0,
{
    let at = signatures(slots);
    signatures_name_slots(slots);
    assert forall|k: int| #![trigger at[k]] 0 <= k < at.len() implies {
        let (s, p) = at[k];
        forall|q: int|
            0 <= q < p ==> !(#[trigger] slots[s]@[q].info matches Some(info) && mappable(info))
    } by {
        signature_is_first(slots, k);
    }
    assert forall|s: int, p: int|
        0 <= s < slots.len() && 0 <= p < slots[s]@.len() && (
        #[trigger] slots[s]@[p].info matches Some(info) && mappable(info)) implies exists|k: int|
        0 <= k < at.len() && (#[trigger] at[k]).0 == s by {
        assert(candidate(slots[s]@[p]));
        signatures_list_all(slots, s, p);
    }
    assert forall|k: int| 0 <= k < 6 implies (#[trigger] r.names@[k])@ == seeded_names(
        slots,
    )[k] by {
        assert(texts_of(r.names@)[k] == r.names@[k]@);
    }
    assert forall|k: int| #![trigger at[k]] 0 <= k < at.len() && k < 6 implies {
        let info = slots[at[k].0]@[at[k].1].info->0;
        let m = r.map@.mappings[k];
        let position = slots[at[k].0]@[at[k].1].position;
        &&& m.macro_index == k
        &&& m.target == (MacroTarget::Slot { slot: at[k].0 as u8, param: at[k].1 as u8 })
        &&& m.min == info.min
        &&& m.max == info.max
        &&& m.curve == info.curve
        &&& r.names@[k]@ == info.short_name@
        &&& position <= 0x3F80_0000 ==> r.map@.positions[k] == position
    } by {
        assert(r.map@.mappings[k] == signature_mapping(slots, at[k], k));
        assert(slots[at[k].0]@.len() <= 256);
        assert(r.names@[k]@ == seeded_names(slots)[k]);
    }
    at
}

proof fn signature_is_first(slots: Seq<Vec<SlotParam>>, k: int)
    requires
        0 <= k < signatures(slots).len(),
    ensures
        ({
            let (s, p) = signatures(slots)[k];
            &&& 0 <= s < slots.len()
            &&& forall|q: int| 0 <= q < p ==> !candidate(#[trigger] slots[s]@[q])
        }),
    decreases slots.len(),
{
    let front = slots.drop_last();
    first_candidate_is_one(slots.last()@, 0);
    if k < signatures(front).len() {
        signature_is_first(front, k);
        assert(signatures(slots)[k] == signatures(front)[k]);
        assert(front[signatures(front)[k].0] == slots[signatures(front)[k].0]);
    } else {
        let (s, p) = signatures(slots)[k];
        assert(slots[s] == slots.last());
    }
}

proof fn signatures_list_all(slots: Seq<Vec<SlotParam>>, s: int, p: int)
    requires
        0 <= s < slots.len(),
        0 <= p < slots[s]@.len(),
        candidate(slots[s]@[p]),
    ensures
        exists|k: int| 0 <= k < signatures(slots).len() && (#[trigger] signatures(slots)[k]).0 == s,
    decreases slots.len(),
{
    let front = slots.drop_last();
    if s < front.len() {
        assert(front[s] == slots[s]);
        signatures_list_all(front, s, p);
        let k = choose|k: int|
            0 <= k < signatures(front).len() && (#[trigger] signatures(front)[k]).0 == s;
        assert(signatures(slots)[k] == signatures(front)[k]);
    } else {
        assert(slots[s] == slots.last());
        first_candidate_is_one(slots.last()@, 0);
        assert(first_candidate(slots.last()@, 0) is Some);
        let k = signatures(front).len() as int;
        assert(signatures(slots)[k].0 == s);
    }
}

} // verus!
