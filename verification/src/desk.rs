//! The macro desk: the six knobs, their names, and the editor of their mappings.
use crate::bits::{bits_unit_clamp, unit_clamped};
use crate::macros::{
    MacroMap, MacroMapModel, MacroMapping, exclusive, knobs_down, of_macro, texts_of, with_range,
    without_macro, without_target,
};
use crate::panels::MacroPanelResponse;
use crate::patch::{Bits, GlobalParam, MacroTarget, NUM_MACROS};
use crate::seqs::{filter_contains_iff, push_contains_iff};
use crate::text::{decimal, push_decimal};
use vstd::prelude::*;
use vstd::string::StringExecFns;

verus! {

/// The macros, their names, and whose editor is open.
#[derive(Debug)]
pub struct MacroDesk {
    /// The bindings and the knobs.
    pub map: MacroMap,
    /// Display names.
    pub names: [String; NUM_MACROS],
    /// Macro whose mapping editor is open, if any.
    pub editor: Option<usize>,
}

/// The mathematical value of a [`MacroDesk`].
#[verifier::ext_equal]
pub struct DeskModel {
    pub map: MacroMapModel,
    pub names: Seq<Seq<char>>,
    pub editor: Option<usize>,
}

impl View for MacroDesk {
    type V = DeskModel;

    open spec fn view(&self) -> DeskModel {
        DeskModel { map: self.map@, names: texts_of(self.names@), editor: self.editor }
    }
}

/// What a macro writes to the rig.
#[derive(Clone, Copy, Debug, PartialEq, Eq, Structural)]
pub enum RigWrite {
    /// A parameter of an effect.
    Param {
        /// Slot index.
        slot: usize,
        /// Parameter index within the slot.
        param: usize,
        /// Value to write.
        value: Bits,
    },
    /// The input gain.
    InputGain(Bits),
    /// The master volume.
    MasterVolume(Bits),
    /// The morph position, which is then performed.
    Morph(Bits),
}

/// What a value for a target comes to. The morph position is held between 0 and
/// 1; there is no control for the morph speed.
pub open spec fn rig_write(target: MacroTarget, value: Bits) -> Option<RigWrite> {
    match target {
        MacroTarget::Slot { slot, param } => Some(
            RigWrite::Param { slot: slot as usize, param: param as usize, value },
        ),
        MacroTarget::Global(GlobalParam::InputGain) => Some(RigWrite::InputGain(value)),
        MacroTarget::Global(GlobalParam::MasterVolume) => Some(RigWrite::MasterVolume(value)),
        MacroTarget::Global(GlobalParam::MorphPosition) => Some(
            RigWrite::Morph(unit_clamped(value)),
        ),
        MacroTarget::Global(GlobalParam::MorphSpeed) => None,
    }
}

/// What the first `n` mappings of a macro write.
pub open spec fn rig_writes(ms: Seq<MacroMapping>, values: Seq<Bits>, n: nat) -> Seq<RigWrite>
    decreases n,
{
    if n == 0 {
        Seq::empty()
    } else {
        let before = rig_writes(ms, values, (n - 1) as nat);
        match rig_write(ms[n - 1].target, values[n - 1]) {
            Some(w) => before.push(w),
            None => before,
        }
    }
}

/// What the user did in the mapping editor in a frame.
#[derive(Clone, Copy, Debug)]
pub struct EditorEdits {
    /// A mapping to remove.
    pub cleared: Option<MacroTarget>,
    /// Whether all mappings of the macro are to go.
    pub clear_all: bool,
    /// A mapping's new range.
    pub range: Option<(MacroTarget, Bits, Bits)>,
    /// Whether the window is still open.
    pub open: bool,
}

/// The mappings after the edits of a frame: first one mapping goes, then all of
/// the macro, then a range changes.
pub open spec fn edited_mappings(ms: Seq<MacroMapping>, index: usize, e: EditorEdits) -> Seq<
    MacroMapping,
> {
    let a = match e.cleared {
        Some(t) => without_target(ms, t),
        None => ms,
    };
    let b = if e.clear_all {
        without_macro(a, index)
    } else {
        a
    };
    match e.range {
        Some((t, min, max)) => b.map_values(|m: MacroMapping| with_range(m, t, min, max)),
        None => b,
    }
}

impl EditorEdits {
    /// Nothing done, window open.
    pub fn new() -> (e: Self)
        ensures
            e == (EditorEdits { cleared: None, clear_all: false, range: None, open: true }),
    {
        EditorEdits { cleared: None, clear_all: false, range: None, open: true }
    }

    /// Take in what was done to the row of a mapping: whether it is removed,
    /// dragged to a new range, or inverted. Of several rows, the last one counts.
    pub fn note_row(
        &mut self,
        row: &MacroMapping,
        removed: bool,
        dragged: bool,
        min: Bits,
        max: Bits,
        inverted: bool,
    )
        ensures
            *final(self) == (EditorEdits {
                cleared: if removed {
                    Some(row.target)
                } else {
                    old(self).cleared
                },
                range: if inverted {
                    Some((row.target, max, min))
                } else if dragged {
                    Some((row.target, min, max))
                } else {
                    old(self).range
                },
                ..*old(self)
            }),
    {
        if removed {
            self.cleared = Some(row.target);
        }
        if inverted {
            self.range = Some((row.target, max, min));
        } else if dragged {
            self.range = Some((row.target, min, max));
        }
    }
}

impl MacroDesk {
    /// No bindings, no names, no editor.
    pub fn new() -> (d: Self)
        ensures
            d@ == (DeskModel {
                map: MacroMapModel { mappings: Seq::empty(), positions: knobs_down() },
                names: Seq::new(NUM_MACROS as nat, |i: int| Seq::<char>::empty()),
                editor: None,
            }),
    {
        let d = MacroDesk {
            map: MacroMap::new(),
            names: [
                String::new(),
                String::new(),
                String::new(),
                String::new(),
                String::new(),
                String::new(),
            ],
            editor: None,
        };
        assert(d@.names =~= Seq::new(NUM_MACROS as nat, |i: int| Seq::<char>::empty()));
        d
    }

    /// Take in what was done in the macro panel; `positions` are the knobs as the
    /// panel left them. A moved knob is taken over, and its macro is returned to be
    /// applied. A clicked label opens that macro's editor.
    pub fn take_row(&mut self, resp: MacroPanelResponse, positions: &[Bits; NUM_MACROS]) -> (apply:
        Option<usize>)
        requires
            resp.changed matches Some(i) ==> i < NUM_MACROS,
        ensures
            apply == resp.changed,
            final(self)@ == (DeskModel {
                map: match resp.changed {
                    Some(i) => MacroMapModel {
                        positions: old(self)@.map.positions.update(
                            i as int,
                            unit_clamped(positions@[i as int]),
                        ),
                        ..old(self)@.map
                    },
                    None => old(self)@.map,
                },
                editor: match resp.edit_requested {
                    Some(i) => Some(i),
                    None => old(self)@.editor,
                },
                ..old(self)@
            }),
    {
        match resp.changed {
            Some(i) => {
                self.map.set_position(i, positions[i]);
            },
            None => {},
        }
        match resp.edit_requested {
            Some(i) => {
                self.editor = Some(i);
            },
            None => {},
        }
        resp.changed
    }

    /// What macro `index` writes to the rig, in the order of its mappings. `values`
    /// holds what each of its mappings comes to at the knob's position.
    pub fn apply_macro(&self, index: usize, values: &[Bits]) -> (writes: Vec<RigWrite>)
        requires
            values@.len() == of_macro(self@.map.mappings, index).len(),
        ensures
            writes@ == rig_writes(of_macro(self@.map.mappings, index), values@, values@.len()),
    {
        let ms = self.map.mappings_for(index);
        let mut writes: Vec<RigWrite> = Vec::new();
        let mut i: usize = 0;
        while i < ms.len()
            invariant
                i <= ms@.len(),
                ms@.len() == values@.len(),
                writes@ == rig_writes(ms@, values@, i as nat),
            decreases ms@.len() - i,
        {
            match apply_target(ms[i].target, values[i]) {
                Some(w) => {
                    writes.push(w);
                },
                None => {},
            }
            i = i + 1;
        }
        writes
    }

    /// The rows of the open editor: the mappings of its macro.
    pub fn editor_rows(&self) -> (rows: Vec<MacroMapping>)
        ensures
            rows@ == (match self@.editor {
                Some(i) => of_macro(self@.map.mappings, i),
                None => Seq::empty(),
            }),
    {
        match self.editor {
            Some(i) => self.map.mappings_for(i),
            None => Vec::new(),
        }
    }

    /// Take in what was done in the open editor. Gives the macro to apply again:
    /// the edited one, where a range changed. Does nothing where no editor is open.
    pub fn take_edits(&mut self, e: EditorEdits) -> (apply: Option<usize>)
        ensures
            apply == (if e.range is Some {
                old(self)@.editor
            } else {
                None
            }),
            final(self)@ == (match old(self)@.editor {
                Some(index) => DeskModel {
                    map: MacroMapModel {
                        mappings: edited_mappings(old(self)@.map.mappings, index, e),
                        ..old(self)@.map
                    },
                    editor: if e.open {
                        Some(index)
                    } else {
                        None
                    },
                    ..old(self)@
                },
                None => old(self)@,
            }),
    {
        let index: usize = match self.editor {
            Some(index) => index,
            None => {
                return None;
            },
        };
        match e.cleared {
            Some(t) => {
                self.map.clear_target(t);
            },
            None => {},
        }
        if e.clear_all {
            self.map.clear_macro(index);
        }
        let mut apply: Option<usize> = None;
        match e.range {
            Some((t, min, max)) => {
                self.map.set_target_range(t, min, max);
                apply = Some(index);
            },
            None => {},
        }
        if !e.open {
            self.editor = None;
        }
        apply
    }
}

/// What a value for a target comes to.
pub fn apply_target(target: MacroTarget, value: Bits) -> (w: Option<RigWrite>)
    ensures
        w == rig_write(target, value),
{
    match target {
        MacroTarget::Slot { slot, param } => Some(
            RigWrite::Param { slot: slot as usize, param: param as usize, value },
        ),
        MacroTarget::Global(GlobalParam::InputGain) => Some(RigWrite::InputGain(value)),
        MacroTarget::Global(GlobalParam::MasterVolume) => Some(RigWrite::MasterVolume(value)),
        MacroTarget::Global(GlobalParam::MorphPosition) => Some(
            RigWrite::Morph(bits_unit_clamp(value)),
        ),
        MacroTarget::Global(GlobalParam::MorphSpeed) => None,
    }
}

/// The name of a graph-level control.
pub open spec fn global_name(g: GlobalParam) -> Seq<char> {
    match g {
        GlobalParam::InputGain => "InputGain"@,
        GlobalParam::MasterVolume => "MasterVolume"@,
        GlobalParam::MorphPosition => "MorphPosition"@,
        GlobalParam::MorphSpeed => "MorphSpeed"@,
    }
}

/// A name, or a question mark where it is not known.
pub open spec fn name_or_mark(name: Option<&str>) -> Seq<char> {
    match name {
        Some(n) => n@,
        None => "?"@,
    }
}

/// A label for a macro target: the effect's name and the parameter's, or the name
/// of the graph-level control.
pub fn describe_target(target: MacroTarget, effect: Option<&str>, param: Option<&str>) -> (label:
    String)
    ensures
        label@ == (match target {
            MacroTarget::Slot { .. } => name_or_mark(effect) + " · "@ + name_or_mark(param),
            MacroTarget::Global(g) => global_name(g),
        }),
{
    match target {
        MacroTarget::Slot { .. } => {
            let mut label = String::new();
            match effect {
                Some(n) => {
                    label.append(n);
                },
                None => {
                    label.append("?");
                },
            }
            label.append(" · ");
            match param {
                Some(n) => {
                    label.append(n);
                },
                None => {
                    label.append("?");
                },
            }
            assert(label@ =~= name_or_mark(effect) + " · "@ + name_or_mark(param));
            label
        },
        MacroTarget::Global(g) => match g {
            GlobalParam::InputGain => "InputGain".to_owned(),
            GlobalParam::MasterVolume => "MasterVolume".to_owned(),
            GlobalParam::MorphPosition => "MorphPosition".to_owned(),
            GlobalParam::MorphSpeed => "MorphSpeed".to_owned(),
        },
    }
}

/// The title of a macro's mapping editor.
pub fn editor_title(index: usize) -> (t: String)
    ensures
        t@ == "Macro K"@ + decimal(index as nat + 1) + " mapping"@,
{
    let mut t = "Macro K".to_owned();
    push_decimal(&mut t, index as u128 + 1);
    t.append(" mapping");
    t
}

/// Editing one macro leaves the bindings exclusive.
pub proof fn edits_keep_bindings_exclusive(ms: Seq<MacroMapping>, index: usize, e: EditorEdits)
    requires
        exclusive(ms),
    ensures
        exclusive(edited_mappings(ms, index, e)),
{
    let a = match e.cleared {
        Some(t) => without_target(ms, t),
        None => ms,
    };
    if let Some(t) = e.cleared {
        filtered_stays_exclusive(ms, |m: MacroMapping| m.target != t);
    }
    let b = if e.clear_all {
        without_macro(a, index)
    } else {
        a
    };
    if e.clear_all {
        filtered_stays_exclusive(a, |m: MacroMapping| m.macro_index != index);
    }
}

/// Clearing a macro leaves it without mappings, whatever else was done.
pub proof fn cleared_macro_is_empty(ms: Seq<MacroMapping>, index: usize, e: EditorEdits)
    requires
        e.clear_all,
    ensures
        forall|i: int|
            0 <= i < edited_mappings(ms, index, e).len() ==> (#[trigger] edited_mappings(
                ms,
                index,
                e,
            )[i]).macro_index != index,
{
    let a = match e.cleared {
        Some(t) => without_target(ms, t),
        None => ms,
    };
    let keep = |m: MacroMapping| m.macro_index != index;
    let b = without_macro(a, index);
    assert forall|i: int| 0 <= i < b.len() implies (#[trigger] b[i]).macro_index != index by {
        a.lemma_filter_pred(keep, i);
    }
}

proof fn filtered_stays_exclusive(ms: Seq<MacroMapping>, keep: spec_fn(MacroMapping) -> bool)
    requires
        exclusive(ms),
    ensures
        exclusive(ms.filter(keep)),
    decreases ms.len(),
{
    reveal(Seq::filter);
    if ms.len() > 0 {
        let front = ms.drop_last();
        assert(exclusive(front)) by {
            assert forall|i: int, j: int| 0 <= i < j < front.len() implies (
            #[trigger] front[i]).target != (#[trigger] front[j]).target by {
                assert(ms[i].target != ms[j].target);
            }
        }
        filtered_stays_exclusive(front, keep);
        let kept = front.filter(keep);
        if keep(ms.last()) {
            assert(ms.filter(keep) =~= kept.push(ms.last()));
            assert forall|i: int| 0 <= i < kept.len() implies (#[trigger] kept[i]).target
                != ms.last().target by {
                filter_contains_iff(front, keep, kept[i]);
                assert(kept.contains(kept[i]));
                let k = front.index_of(kept[i]);
                assert(ms[k].target != ms[ms.len() - 1].target);
            }
        } else {
            assert(ms.filter(keep) =~= kept);
        }
    }
}

/// A macro writes what its mappings come to, in their order: to the parameter, the
/// gain, the volume or the morph position that each is of. Only the morph speed has
/// no control. Returned is which mapping each write is of.
pub proof fn a_macro_writes_its_mappings(ms: Seq<MacroMapping>, values: Seq<Bits>, n: nat) -> (from:
    Seq<int>)
    requires
        n <= ms.len(),
        values.len() == ms.len(),
    ensures
        from.len() == rig_writes(ms, values, n).len(),
        forall|k: int, l: int| 0 <= k < l < from.len() ==> #[trigger] from[k] < #[trigger] from[l],
        forall|i: int|
            0 <= i < n && (#[trigger] ms[i]).target != MacroTarget::Global(GlobalParam::MorphSpeed)
                ==> from.contains(i),
        forall|k: int|
            #![trigger from[k]]
            0 <= k < from.len() ==> {
                let value = values[from[k]];
                &&& 0 <= from[k] < n
                &&& match rig_writes(ms, values, n)[k] {
                    RigWrite::Param { slot, param, value: v } => slot < 256 && param < 256
                        && ms[from[k]].target == (MacroTarget::Slot {
                        slot: slot as u8,
                        param: param as u8,
                    }) && v == value,
                    RigWrite::InputGain(v) => ms[from[k]].target == MacroTarget::Global(
                        GlobalParam::InputGain,
                    ) && v == value,
                    RigWrite::MasterVolume(v) => ms[from[k]].target == MacroTarget::Global(
                        GlobalParam::MasterVolume,
                    ) && v == value,
                    RigWrite::Morph(v) => ms[from[k]].target == MacroTarget::Global(
                        GlobalParam::MorphPosition,
                    ) && (value <= 0x3F80_0000 ==> v == value) && (0x3F80_0000 < value
                        <= 0x7F80_0000 ==> v == 0x3F80_0000) && (0x8000_0000 < value <= 0xFF80_0000
                        ==> v == 0),
                }
            },
    decreases n,
{
    if n == 0 {
        Seq::empty()
    } else {
        let before = a_macro_writes_its_mappings(ms, values, (n - 1) as nat);
        if rig_write(ms[n - 1].target, values[n - 1]) is Some {
            let from = before.push(n - 1);
            assert forall|i: int|
                0 <= i < n && (#[trigger] ms[i]).target != MacroTarget::Global(
                    GlobalParam::MorphSpeed,
                ) implies from.contains(i) by {
                push_contains_iff(before, n - 1, i);
            }
            from
        } else {
            before
        }
    }
}

/// What a frame's edits do to the bindings: one that is removed, or is of the macro
/// that is cleared, is gone; the others are still there, in the same number, and
/// only the one whose range was edited has changed, in its range.
pub proof fn edits_do_what_they_say(
    ms: Seq<MacroMapping>,
    index: usize,
    e: EditorEdits,
    m: MacroMapping,
)
    requires
        ms.contains(m),
    ensures
        ({
            let after = edited_mappings(ms, index, e);
            let gone = e.cleared == Some(m.target) || (e.clear_all && m.macro_index == index);
            &&& e.range is None ==> (after.contains(m) <==> !gone)
            &&& e.range matches Some((t, min, max)) ==> {
                &&& m.target != t ==> (after.contains(m) <==> !gone)
                &&& m.target == t && !gone ==> after.contains(
                    MacroMapping {
                        macro_index: m.macro_index,
                        target: m.target,
                        min,
                        max,
                        curve: m.curve,
                    },
                )
            }
        }),
{
    let after = edited_mappings(ms, index, e);
    let a = match e.cleared {
        Some(t) => without_target(ms, t),
        None => ms,
    };
    let b = if e.clear_all {
        without_macro(a, index)
    } else {
        a
    };
    if let Some(t) = e.cleared {
        filter_contains_iff(ms, |m: MacroMapping| m.target != t, m);
    }
    if e.clear_all {
        filter_contains_iff(a, |m: MacroMapping| m.macro_index != index, m);
    }
    let gone = e.cleared == Some(m.target) || (e.clear_all && m.macro_index == index);
    assert(b.contains(m) <==> !gone);
    if let Some((t, min, max)) = e.range {
        if b.contains(m) {
            let k = b.index_of(m);
            assert(after[k] == with_range(m, t, min, max));
        }
        if after.contains(m) {
            let k = after.index_of(m);
            assert(after[k] == with_range(b[k], t, min, max));
            if m.target != t {
                assert(b[k] == m);
            }
        }
    }
}

/// Edits add no binding: whatever is there afterwards was there before, but for
/// the range that was edited.
pub proof fn edits_add_no_binding(
    ms: Seq<MacroMapping>,
    index: usize,
    e: EditorEdits,
    m: MacroMapping,
) -> (was: MacroMapping)
    requires
        edited_mappings(ms, index, e).contains(m),
    ensures
        ms.contains(was),
        was.macro_index == m.macro_index,
        was.target == m.target,
        was.curve == m.curve,
        was != m ==> (e.range matches Some((t, min, max)) && t == m.target && m.min == min && m.max
            == max),
{
    let after = edited_mappings(ms, index, e);
    let a = match e.cleared {
        Some(t) => without_target(ms, t),
        None => ms,
    };
    let b = if e.clear_all {
        without_macro(a, index)
    } else {
        a
    };
    let k = after.index_of(m);
    assert(after[k] == m);
    let was = b[k];
    assert(b.contains(was));
    if let Some(t) = e.cleared {
        filter_contains_iff(ms, |m: MacroMapping| m.target != t, was);
    }
    if e.clear_all {
        filter_contains_iff(a, |m: MacroMapping| m.macro_index != index, was);
    }
    was
}

} // verus!
