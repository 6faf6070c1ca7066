//! Performance macros: six knobs, each driving parameters in lock-step.
use crate::bits::{bits_unit_clamp, unit_clamped};
use crate::params::ParamInfo;
use crate::patch::{
    BITS_ONE, BITS_ZERO, Bits, MacroDef, MacroMappingSpec, MacroModel, MacroTarget, MorphCurve,
    NUM_MACROS, macros_view,
};
use crate::seqs::{
    filter_contains_iff, filter_empty, filter_keeps_order, filter_step, push_contains_iff,
};
use vstd::prelude::*;

verus! {

/// One binding of a parameter to a macro.
#[derive(Clone, Copy, Debug, PartialEq, Eq, Structural)]
pub struct MacroMapping {
    /// Macro that drives the target, from 0.
    pub macro_index: usize,
    /// Where the mapping writes.
    pub target: MacroTarget,
    /// Value when the knob is at 0.
    pub min: Bits,
    /// Value when the knob is at 1.
    pub max: Bits,
    /// Interpolation curve.
    pub curve: MorphCurve,
}

/// The bindings of the six macros, and where their knobs stand.
#[derive(Debug)]
pub struct MacroMap {
    mappings: Vec<MacroMapping>,
    positions: [Bits; NUM_MACROS],
}

/// The mathematical value of a [`MacroMap`].
#[verifier::ext_equal]
pub struct MacroMapModel {
    pub mappings: Seq<MacroMapping>,
    pub positions: Seq<Bits>,
}

impl View for MacroMap {
    type V = MacroMapModel;

    closed spec fn view(&self) -> MacroMapModel {
        MacroMapModel { mappings: self.mappings@, positions: self.positions@ }
    }
}

/// There is a knob for each macro.
pub proof fn knobs_are_six(map: MacroMap)
    ensures
        map@.positions.len() == NUM_MACROS,
{
}

/// Every knob at 0.
pub open spec fn knobs_down() -> Seq<Bits> {
    Seq::new(NUM_MACROS as nat, |i: int| BITS_ZERO)
}

/// The mappings that write elsewhere than to `target`.
pub open spec fn without_target(ms: Seq<MacroMapping>, target: MacroTarget) -> Seq<MacroMapping> {
    ms.filter(|m: MacroMapping| m.target != target)
}

/// The mappings of other macros than `index`.
pub open spec fn without_macro(ms: Seq<MacroMapping>, index: usize) -> Seq<MacroMapping> {
    ms.filter(|m: MacroMapping| m.macro_index != index)
}

/// The mappings of macro `index`.
pub open spec fn of_macro(ms: Seq<MacroMapping>, index: usize) -> Seq<MacroMapping> {
    ms.filter(|m: MacroMapping| m.macro_index == index)
}

/// The mapping with its range replaced where it writes to `target`.
pub open spec fn with_range(
    m: MacroMapping,
    target: MacroTarget,
    min: Bits,
    max: Bits,
) -> MacroMapping {
    if m.target == target {
        MacroMapping { min, max, ..m }
    } else {
        m
    }
}

/// No two mappings write to one place.
pub open spec fn exclusive(ms: Seq<MacroMapping>) -> bool {
    forall|i: int, j: int|
        0 <= i < j < ms.len() ==> (#[trigger] ms[i]).target != (#[trigger] ms[j]).target
}

impl MacroMap {
    /// No bindings, every knob at 0.
    pub fn new() -> (map: Self)
        ensures
            map@ == (MacroMapModel { mappings: Seq::empty(), positions: knobs_down() }),
    {
        let map = MacroMap {
            mappings: Vec::new(),
            positions: [BITS_ZERO, BITS_ZERO, BITS_ZERO, BITS_ZERO, BITS_ZERO, BITS_ZERO],
        };
        assert(map.positions@ =~= knobs_down());
        map
    }

    /// All bindings, in the order in which they were made.
    pub fn mappings(&self) -> (ms: &[MacroMapping])
        ensures
            ms@ == self@.mappings,
    {
        self.mappings.as_slice()
    }

    /// How many bindings there are.
    pub fn mapping_count(&self) -> (n: usize)
        ensures
            n == self@.mappings.len(),
    {
        self.mappings.len()
    }

    /// Add a binding.
    pub fn add_mapping(&mut self, m: MacroMapping)
        ensures
            final(self)@ == (MacroMapModel {
                mappings: old(self)@.mappings.push(m),
                ..old(self)@
            }),
    {
        self.mappings.push(m);
    }

    /// Where the knob of a macro stands; 0 for a macro that does not exist.
    pub fn position(&self, index: usize) -> (pos: Bits)
        ensures
            pos == (if index < NUM_MACROS {
                self@.positions[index as int]
            } else {
                BITS_ZERO
            }),
    {
        if index < NUM_MACROS {
            self.positions[index]
        } else {
            BITS_ZERO
        }
    }

    /// Turn the knob of a macro, held to its travel. A macro that does not exist
    /// has none.
    pub fn set_position(&mut self, index: usize, pos: Bits)
        ensures
            final(self)@ == (if index < NUM_MACROS {
                MacroMapModel {
                    positions: old(self)@.positions.update(index as int, unit_clamped(pos)),
                    ..old(self)@
                }
            } else {
                old(self)@
            }),
    {
        if index < NUM_MACROS {
            self.positions[index] = bits_unit_clamp(pos);
        }
    }

    /// The bindings of one macro, in order.
    pub fn mappings_for(&self, index: usize) -> (ms: Vec<MacroMapping>)
        ensures
            ms@ == of_macro(self@.mappings, index),
    {
        let mut ms: Vec<MacroMapping> = Vec::new();
        let ghost keep = |m: MacroMapping| m.macro_index == index;
        let mut i: usize = 0;
        proof {
            filter_empty(self.mappings@, keep);
        }
        while i < self.mappings.len()
            invariant
                i <= self.mappings@.len(),
                keep == (|m: MacroMapping| m.macro_index == index),
                ms@ == self.mappings@.take(i as int).filter(keep),
            decreases self.mappings@.len() - i,
        {
            let m = self.mappings[i];
            proof {
                filter_step(self.mappings@, keep, i as int);
            }
            if m.macro_index == index {
                ms.push(m);
            }
            i = i + 1;
        }
        assert(self.mappings@.take(i as int) =~= self.mappings@);
        ms
    }

    /// How many bindings one macro has.
    pub fn mapping_count_for(&self, index: usize) -> (n: usize)
        ensures
            n == of_macro(self@.mappings, index).len(),
    {
        self.mappings_for(index).len()
    }

    /// Remove every binding of a target.
    pub fn clear_target(&mut self, target: MacroTarget)
        ensures
            final(self)@ == (MacroMapModel {
                mappings: without_target(old(self)@.mappings, target),
                ..old(self)@
            }),
    {
        let mut ms: Vec<MacroMapping> = Vec::new();
        let ghost keep = |m: MacroMapping| m.target != target;
        let mut i: usize = 0;
        proof {
            filter_empty(self.mappings@, keep);
        }
        while i < self.mappings.len()
            invariant
                i <= self.mappings@.len(),
                *self == *old(self),
                keep == (|m: MacroMapping| m.target != target),
                ms@ == self.mappings@.take(i as int).filter(keep),
            decreases self.mappings@.len() - i,
        {
            let m = self.mappings[i];
            proof {
                filter_step(self.mappings@, keep, i as int);
            }
            if m.target != target {
                ms.push(m);
            }
            i = i + 1;
        }
        assert(self.mappings@.take(i as int) =~= self.mappings@);
        self.mappings = ms;
    }

    /// Remove every binding of a macro.
    pub fn clear_macro(&mut self, index: usize)
        ensures
            final(self)@ == (MacroMapModel {
                mappings: without_macro(old(self)@.mappings, index),
                ..old(self)@
            }),
    {
        let mut ms: Vec<MacroMapping> = Vec::new();
        let ghost keep = |m: MacroMapping| m.macro_index != index;
        let mut i: usize = 0;
        proof {
            filter_empty(self.mappings@, keep);
        }
        while i < self.mappings.len()
            invariant
                i <= self.mappings@.len(),
                *self == *old(self),
                keep == (|m: MacroMapping| m.macro_index != index),
                ms@ == self.mappings@.take(i as int).filter(keep),
            decreases self.mappings@.len() - i,
        {
            let m = self.mappings[i];
            proof {
                filter_step(self.mappings@, keep, i as int);
            }
            if m.macro_index != index {
                ms.push(m);
            }
            i = i + 1;
        }
        assert(self.mappings@.take(i as int) =~= self.mappings@);
        self.mappings = ms;
    }

    /// Replace the range of every binding of a target.
    pub fn set_target_range(&mut self, target: MacroTarget, min: Bits, max: Bits)
        ensures
            final(self)@ == (MacroMapModel {
                mappings: old(self)@.mappings.map_values(
                    |m: MacroMapping| with_range(m, target, min, max),
                ),
                ..old(self)@
            }),
    {
        let mut ms: Vec<MacroMapping> = Vec::new();
        let mut i: usize = 0;
        while i < self.mappings.len()
            invariant
                i <= self.mappings@.len(),
                *self == *old(self),
                ms@.len() == i,
                forall|j: int|
                    0 <= j < i ==> #[trigger] ms@[j] == with_range(
                        self.mappings@[j],
                        target,
                        min,
                        max,
                    ),
            decreases self.mappings@.len() - i,
        {
            let m = self.mappings[i];
            if m.target == target {
                ms.push(
                    MacroMapping {
                        macro_index: m.macro_index,
                        target: m.target,
                        min,
                        max,
                        curve: m.curve,
                    },
                );
            } else {
                ms.push(m);
            }
            i = i + 1;
        }
        assert(ms@ =~= self.mappings@.map_values(
            |m: MacroMapping| with_range(m, target, min, max),
        ));
        self.mappings = ms;
    }
}

/// A macro-binding action requested from a parameter's menu.
#[derive(Clone, Copy, Debug, PartialEq, Eq, Structural)]
pub enum MacroAction {
    /// Bind parameter `param` of `slot` to macro `macro_index`.
    Bind {
        /// Chain slot index of the parameter's effect.
        slot: usize,
        /// Parameter index within that slot.
        param: usize,
        /// Destination macro, from 0.
        macro_index: usize,
    },
    /// Remove any macro binding of parameter `param` of `slot`.
    Clear {
        /// Chain slot index of the parameter's effect.
        slot: usize,
        /// Parameter index within that slot.
        param: usize,
    },
}

/// The target that an action is about; slot and parameter are stored in a byte
/// each.
pub open spec fn action_target(action: MacroAction) -> MacroTarget {
    let (slot, param) = match action {
        MacroAction::Bind { slot, param, .. } => (slot, param),
        MacroAction::Clear { slot, param } => (slot, param),
    };
    MacroTarget::Slot { slot: (slot % 256) as u8, param: (param % 256) as u8 }
}

/// The range and curve that a new binding gets: those of the parameter, or the
/// unit range where it has no description.
pub open spec fn binding_range(param: Option<ParamInfo>) -> (Bits, Bits, MorphCurve) {
    match param {
        Some(p) => (p.min, p.max, p.curve),
        None => (BITS_ZERO, BITS_ONE, MorphCurve::Linear),
    }
}

/// The bindings after an action.
pub open spec fn after_action(
    ms: Seq<MacroMapping>,
    action: MacroAction,
    param: Option<ParamInfo>,
) -> Seq<MacroMapping> {
    let target = action_target(action);
    let (min, max, curve) = binding_range(param);
    match action {
        MacroAction::Bind { macro_index, .. } => without_target(ms, target).push(
            MacroMapping { macro_index, target, min, max, curve },
        ),
        MacroAction::Clear { .. } => without_target(ms, target),
    }
}

/// Apply an action from a parameter's menu. `param` describes the parameter.
///
/// Binding is exclusive: any earlier binding of the parameter is removed first.
/// The range and curve are the parameter's own. No knob moves.
pub fn handle_macro_action(map: &mut MacroMap, action: MacroAction, param: Option<&ParamInfo>)
    ensures
        final(map)@ == (MacroMapModel {
            mappings: after_action(
                old(map)@.mappings,
                action,
                match param {
                    Some(p) => Some(*p),
                    None => None,
                },
            ),
            ..old(map)@
        }),
{
    match action {
        MacroAction::Bind { slot, param: index, macro_index } => {
            let target = slot_target(slot, index);
            map.clear_target(target);
            let (min, max, curve): (Bits, Bits, MorphCurve) = match param {
                Some(p) => (p.min, p.max, p.curve),
                None => (BITS_ZERO, BITS_ONE, MorphCurve::Linear),
            };
            map.add_mapping(MacroMapping { macro_index, target, min, max, curve });
        },
        MacroAction::Clear { slot, param: index } => {
            map.clear_target(slot_target(slot, index));
        },
    }
}

/// The target for a parameter of a slot.
fn slot_target(slot: usize, param: usize) -> (t: MacroTarget)
    ensures
        t == (MacroTarget::Slot { slot: (slot % 256) as u8, param: (param % 256) as u8 }),
{
    MacroTarget::Slot { slot: (slot % 256) as u8, param: (param % 256) as u8 }
}

/// A parameter drives at most one macro: every action keeps bindings exclusive,
/// a bound parameter is bound to the macro asked for and to no other, and a
/// cleared one to none. Bindings of other parameters stay.
pub proof fn actions_keep_bindings_exclusive(
    ms: Seq<MacroMapping>,
    action: MacroAction,
    param: Option<ParamInfo>,
)
    requires
        exclusive(ms),
    ensures
        exclusive(after_action(ms, action, param)),
        forall|m: MacroMapping|
            m.target != action_target(action) ==> (#[trigger] after_action(
                ms,
                action,
                param,
            ).contains(m) <==> ms.contains(m)),
        forall|m: MacroMapping|
            #[trigger] after_action(ms, action, param).contains(m) && m.target == action_target(
                action,
            ) ==> (action matches MacroAction::Bind { macro_index, .. } && m.macro_index
                == macro_index),
        action is Bind ==> exists|m: MacroMapping|
            #[trigger] after_action(ms, action, param).contains(m) && m.target == action_target(
                action,
            ),
{
    let target = action_target(action);
    let keep = |m: MacroMapping| m.target != target;
    let rest = without_target(ms, target);
    let after = after_action(ms, action, param);
    assert forall|i: int, j: int| 0 <= i < j < rest.len() implies (#[trigger] rest[i]).target
        != (#[trigger] rest[j]).target by {
        let (k, l) = filter_keeps_order(ms, keep, i, j);
        assert(ms[k].target != ms[l].target);
    }
    assert forall|m: MacroMapping| m.target != target implies (#[trigger] after.contains(m)
        <==> ms.contains(m)) by {
        filter_contains_iff(ms, keep, m);
        if action is Bind {
            push_contains_iff(rest, after.last(), m);
        }
    }
    assert forall|m: MacroMapping| #[trigger] after.contains(m) && m.target
        == target implies (action matches MacroAction::Bind { macro_index, .. } && m.macro_index
        == macro_index) by {
        filter_contains_iff(ms, keep, m);
        if action is Bind {
            push_contains_iff(rest, after.last(), m);
        }
    }
    if action is Bind {
        assert(after.contains(after.last())) by {
            assert(after[after.len() - 1] == after.last());
        }
        assert forall|i: int, j: int| 0 <= i < j < after.len() implies (#[trigger] after[i]).target
            != (#[trigger] after[j]).target by {
            assert(after[i] == rest[i]);
            filter_contains_iff(ms, keep, rest[i]);
            assert(rest.contains(rest[i]));
            if j < rest.len() {
                assert(after[j] == rest[j]);
            }
        }
    }
}

/// A mapping as it is stored under its macro.
pub open spec fn stored_mapping(m: MacroMapping) -> MacroMappingSpec {
    MacroMappingSpec { target: m.target, min: m.min, max: m.max, curve: m.curve }
}

/// A stored mapping as a binding of macro `index`.
pub open spec fn bound_mapping(index: usize, s: MacroMappingSpec) -> MacroMapping {
    MacroMapping { macro_index: index, target: s.target, min: s.min, max: s.max, curve: s.curve }
}

/// Stored mappings as bindings of macro `index`.
pub open spec fn bound_mappings(index: usize, specs: Seq<MacroMappingSpec>) -> Seq<MacroMapping> {
    specs.map_values(|s: MacroMappingSpec| bound_mapping(index, s))
}

/// Bindings as they are stored.
pub open spec fn stored_mappings(ms: Seq<MacroMapping>) -> Seq<MacroMappingSpec> {
    ms.map_values(|m: MacroMapping| stored_mapping(m))
}

/// The definitions of the six macros: each with its name and its bindings.
pub open spec fn defs_of(ms: Seq<MacroMapping>, names: Seq<Seq<char>>) -> Seq<MacroModel> {
    Seq::new(
        NUM_MACROS as nat,
        |i: int|
            MacroModel { name: names[i], mappings: stored_mappings(of_macro(ms, i as usize)) },
    )
}

/// The bindings of some macros, one macro behind the other.
pub open spec fn bindings_of(defs: Seq<MacroModel>) -> Seq<MacroMapping>
    decreases defs.len(),
{
    if defs.len() == 0 {
        Seq::empty()
    } else {
        bindings_of(defs.drop_last()) + bound_mappings(
            (defs.len() - 1) as usize,
            defs.last().mappings,
        )
    }
}

/// The texts of some strings.
pub open spec fn texts_of(names: Seq<String>) -> Seq<Seq<char>> {
    Seq::new(names.len(), |i: int| names[i]@)
}

/// The names of some macros.
pub open spec fn names_of(defs: Seq<MacroModel>) -> Seq<Seq<char>> {
    Seq::new(defs.len(), |i: int| defs[i].name)
}

/// The stored form of one macro.
fn macro_def(map: &MacroMap, index: usize, name: &String) -> (def: MacroDef)
    ensures
        def@ == (MacroModel {
            name: name@,
            mappings: stored_mappings(of_macro(map@.mappings, index)),
        }),
{
    let ms = map.mappings_for(index);
    let mut mappings: Vec<MacroMappingSpec> = Vec::new();
    let mut i: usize = 0;
    while i < ms.len()
        invariant
            i <= ms@.len(),
            mappings@.len() == i,
            forall|j: int| 0 <= j < i ==> #[trigger] mappings@[j] == stored_mapping(ms@[j]),
        decreases ms@.len() - i,
    {
        let m = &ms[i];
        mappings.push(
            MacroMappingSpec { target: m.target, min: m.min, max: m.max, curve: m.curve },
        );
        i = i + 1;
    }
    assert(mappings@ =~= stored_mappings(ms@));
    MacroDef { name: name.clone(), mappings }
}

/// Project a macro map and the display names into the stored form: one entry
/// per knob, in knob order.
pub fn macro_map_to_defs(map: &MacroMap, names: &[String; NUM_MACROS]) -> (defs: [MacroDef;
    NUM_MACROS])
    ensures
        macros_view(defs@) == defs_of(map@.mappings, texts_of(names@)),
{
    let defs = [
        macro_def(map, 0, &names[0]),
        macro_def(map, 1, &names[1]),
        macro_def(map, 2, &names[2]),
        macro_def(map, 3, &names[3]),
        macro_def(map, 4, &names[4]),
        macro_def(map, 5, &names[5]),
    ];
    assert(macros_view(defs@) =~= defs_of(map@.mappings, texts_of(names@)));
    defs
}

/// Rebuild a macro map and the display names from their stored form. Every knob
/// is at 0: positions are restored by the caller.
pub fn defs_to_macro_map(defs: &[MacroDef; NUM_MACROS]) -> (r: (MacroMap, [String; NUM_MACROS]))
    ensures
        r.0@ == (MacroMapModel {
            mappings: bindings_of(macros_view(defs@)),
            positions: knobs_down(),
        }),
        texts_of(r.1@) == names_of(macros_view(defs@)),
{
    let ghost ds = macros_view(defs@);
    let mut map = MacroMap::new();
    let mut i: usize = 0;
    while i < NUM_MACROS
        invariant
            i <= NUM_MACROS,
            ds == macros_view(defs@),
            map@.positions == knobs_down(),
            map@.mappings == bindings_of(ds.take(i as int)),
        decreases NUM_MACROS - i,
    {
        let specs = &defs[i].mappings;
        let ghost before = map@.mappings;
        let mut k: usize = 0;
        assert(before + bound_mappings(i, specs@.take(0)) =~= before);
        while k < specs.len()
            invariant
                k <= specs@.len(),
                map@.positions == knobs_down(),
                map@.mappings == before + bound_mappings(i, specs@.take(k as int)),
            decreases specs@.len() - k,
        {
            let s = &specs[k];
            map.add_mapping(
                MacroMapping {
                    macro_index: i,
                    target: s.target,
                    min: s.min,
                    max: s.max,
                    curve: s.curve,
                },
            );
            k = k + 1;
            assert(map@.mappings =~= before + bound_mappings(i, specs@.take(k as int)));
        }
        assert(specs@.take(k as int) =~= specs@);
        assert(ds.take(i as int + 1).drop_last() =~= ds.take(i as int));
        i = i + 1;
    }
    assert(ds.take(NUM_MACROS as int) =~= ds);
    let names = [
        defs[0].name.clone(),
        defs[1].name.clone(),
        defs[2].name.clone(),
        defs[3].name.clone(),
        defs[4].name.clone(),
        defs[5].name.clone(),
    ];
    assert(texts_of(names@) =~= names_of(ds));
    (map, names)
}

/// Bindings of one macro are all its own.
proof fn own_bindings(index: usize, specs: Seq<MacroMappingSpec>, other: usize)
    ensures
        of_macro(bound_mappings(index, specs), other) == (if index == other {
            bound_mappings(index, specs)
        } else {
            Seq::empty()
        }),
    decreases specs.len(),
{
    reveal(Seq::filter);
    let all = bound_mappings(index, specs);
    if specs.len() > 0 {
        own_bindings(index, specs.drop_last(), other);
        assert(all.drop_last() =~= bound_mappings(index, specs.drop_last()));
        assert(all.drop_last().push(all.last()) =~= all);
    } else {
        assert(all =~= Seq::empty());
    }
}

/// Each macro gets back the bindings that were stored under it.
proof fn bindings_of_one(defs: Seq<MacroModel>, i: usize)
    requires
        defs.len() <= usize::MAX,
    ensures
        of_macro(bindings_of(defs), i) == (if i < defs.len() {
            bound_mappings(i, defs[i as int].mappings)
        } else {
            Seq::empty()
        }),
    decreases defs.len(),
{
    reveal(Seq::filter);
    if defs.len() > 0 {
        let front = defs.drop_last();
        let last = (defs.len() - 1) as usize;
        bindings_of_one(front, i);
        own_bindings(last, defs.last().mappings, i);
        Seq::filter_distributes_over_add(
            bindings_of(front),
            bound_mappings(last, defs.last().mappings),
            |m: MacroMapping| m.macro_index == i,
        );
        assert(of_macro(bindings_of(defs), i) =~= of_macro(bindings_of(front), i) + of_macro(
            bound_mappings(last, defs.last().mappings),
            i,
        ));
        if i < last {
            assert(front[i as int] == defs[i as int]);
        }
    } else {
        assert(of_macro(bindings_of(defs), i) =~= Seq::empty());
    }
}

/// What was stored comes back: rebuilding a macro map from definitions and
/// storing it again gives the same definitions.
pub proof fn defs_survive_the_map(defs: Seq<MacroModel>)
    requires
        defs.len() == NUM_MACROS,
    ensures
        defs_of(bindings_of(defs), names_of(defs)) == defs,
{
    let back = defs_of(bindings_of(defs), names_of(defs));
    assert forall|i: int| 0 <= i < NUM_MACROS implies back[i] == defs[i] by {
        bindings_of_one(defs, i as usize);
        assert(stored_mappings(bound_mappings(i as usize, defs[i].mappings)) =~= defs[i].mappings);
    }
    assert(back =~= defs);
}

/// No binding is lost: a macro map that was stored and rebuilt has the same
/// bindings under each of the six macros, in the same order.
pub proof fn map_survives_the_defs(ms: Seq<MacroMapping>, names: Seq<Seq<char>>, i: usize)
    requires
        i < NUM_MACROS,
    ensures
        of_macro(bindings_of(defs_of(ms, names)), i) == of_macro(ms, i),
{
    let defs = defs_of(ms, names);
    let own = of_macro(ms, i);
    bindings_of_one(defs, i);
    assert forall|k: int| 0 <= k < own.len() implies bound_mappings(i, stored_mappings(own))[k]
        == own[k] by {
        assert(own.contains(own[k]));
        filter_contains_iff(ms, |m: MacroMapping| m.macro_index == i, own[k]);
    }
    assert(bound_mappings(i, stored_mappings(own)) =~= own);
}

/// Rebuilt bindings are those that are stored: under each macro exactly its own,
/// each with the target, the range and the curve that are stored, macro by macro
/// and in the order in which they are stored. Returned is where the bindings of
/// each macro begin.
pub proof fn bindings_are_those_stored(defs: Seq<MacroModel>) -> (starts: Seq<int>)
    requires
        defs.len() <= usize::MAX,
    ensures
        starts.len() == defs.len() + 1,
        starts[0] == 0,
        starts[defs.len() as int] == bindings_of(defs).len(),
        forall|i: int|
            0 <= i < defs.len() ==> 0 <= #[trigger] starts[i] && starts[i]
                + defs[i].mappings.len() == starts[i + 1] <= bindings_of(defs).len(),
        forall|i: int, k: int|
            #![trigger defs[i].mappings[k]]
            0 <= i < defs.len() && 0 <= k < defs[i].mappings.len() ==> {
                let b = bindings_of(defs)[starts[i] + k];
                let m = defs[i].mappings[k];
                &&& b.macro_index == i
                &&& b.target == m.target
                &&& b.min == m.min
                &&& b.max == m.max
                &&& b.curve == m.curve
            },
    decreases defs.len(),
{
    if defs.len() == 0 {
        seq![0]
    } else {
        let front = defs.drop_last();
        let before = bindings_are_those_stored(front);
        let all = bindings_of(defs);
        let starts = before.push(all.len() as int);
        let last = defs.len() - 1;
        assert forall|i: int| 0 <= i < defs.len() implies 0 <= #[trigger] starts[i] && starts[i]
            + defs[i].mappings.len() == starts[i + 1] <= all.len() by {
            assert(starts[i] == before[i]);
            if i < last {
                assert(front[i] == defs[i]);
                assert(starts[i + 1] == before[i + 1]);
            }
        }
        assert forall|i: int, k: int|
            #![trigger defs[i].mappings[k]]
            0 <= i < defs.len() && 0 <= k < defs[i].mappings.len() implies {
            let b = all[starts[i] + k];
            let m = defs[i].mappings[k];
            &&& b.macro_index == i
            &&& b.target == m.target
            &&& b.min == m.min
            &&& b.max == m.max
            &&& b.curve == m.curve
        } by {
            if i < last {
                assert(front[i] == defs[i]);
                assert(front[i].mappings[k] == defs[i].mappings[k]);
                assert(starts[i] == before[i] && starts[i + 1] == before[i + 1]);
                assert(all[starts[i] + k] == bindings_of(front)[before[i] + k]);
            }
        }
        starts
    }
}

/// Clearing a target leaves exactly the bindings of other targets, in their
/// order, and clearing a macro those of other macros.
pub proof fn clearing_leaves_the_others(
    ms: Seq<MacroMapping>,
    target: MacroTarget,
    index: usize,
    m: MacroMapping,
)
    ensures
        without_target(ms, target).contains(m) <==> ms.contains(m) && m.target != target,
        without_macro(ms, index).contains(m) <==> ms.contains(m) && m.macro_index != index,
        of_macro(ms, index).contains(m) <==> ms.contains(m) && m.macro_index == index,
{
    filter_contains_iff(ms, |m: MacroMapping| m.target != target, m);
    filter_contains_iff(ms, |m: MacroMapping| m.macro_index != index, m);
    filter_contains_iff(ms, |m: MacroMapping| m.macro_index == index, m);
}

/// Replacing the range of a target changes its bindings in their ranges only, and
/// no other binding.
pub proof fn a_new_range_is_all_that_changes(
    ms: Seq<MacroMapping>,
    target: MacroTarget,
    min: Bits,
    max: Bits,
    i: int,
)
    requires
        0 <= i < ms.len(),
    ensures
        ({
            let after = ms.map_values(|m: MacroMapping| with_range(m, target, min, max));
            &&& after.len() == ms.len()
            &&& after[i].macro_index == ms[i].macro_index
            &&& after[i].target == ms[i].target
            &&& after[i].curve == ms[i].curve
            &&& ms[i].target == target ==> after[i].min == min && after[i].max == max
            &&& ms[i].target != target ==> after[i] == ms[i]
        }),
{
}

/// Binding a parameter makes one binding of it, to the macro that was asked for,
/// with the parameter's own range and curve, or from 0 to 1 in a straight line
/// where it has none. Clearing leaves no binding of it.
pub proof fn a_bound_parameter_has_its_own_range(
    ms: Seq<MacroMapping>,
    slot: usize,
    index: usize,
    to: usize,
    param: Option<ParamInfo>,
    m: MacroMapping,
)
    requires
        slot < 256,
        index < 256,
        m.target == (MacroTarget::Slot { slot: slot as u8, param: index as u8 }),
    ensures
        after_action(
            ms,
            MacroAction::Bind { slot, param: index, macro_index: to },
            param,
        ).contains(m) <==> {
            &&& m.macro_index == to
            &&& param matches Some(p) ==> m.min == p.min && m.max == p.max && m.curve == p.curve
            &&& param is None ==> m.min == 0 && m.max == 0x3F80_0000 && m.curve
                == MorphCurve::Linear
        },
        !after_action(ms, MacroAction::Clear { slot, param: index }, param).contains(m),
{
    let target = m.target;
    let rest = without_target(ms, target);
    filter_contains_iff(ms, |m: MacroMapping| m.target != target, m);
    let action = MacroAction::Bind { slot, param: index, macro_index: to };
    let after = after_action(ms, action, param);
    push_contains_iff(rest, after.last(), m);
}

} // verus!
