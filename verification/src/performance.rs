//! The performance layer of a session: what to write to the rig, the macros and
//! the A/B morph.
use crate::bits::{bits_unit_clamp, unit_clamped};
use crate::macros::{MacroMap, MacroMapModel, bindings_of, defs_to_macro_map, names_of, texts_of};
use crate::morph::{MorphEnd, MorphSnapshot, SlotModel, SlotSnapshot, slots_view};
use crate::patch::{BITS_ZERO, Bits, MorphConfig, NUM_MACROS, default_morph, lock_bit, macros_view};
use crate::seqs::push_contains_iff;
use crate::session::{
    EffectState, NodeKind, Session, SessionNode, counts_step, effects_among, effects_at, kinds_of,
    lists_effects, snapshot_b_of,
};
use vstd::prelude::*;
use vstd::slice::slice_to_vec;
use vstd::std_specs::hash::group_hash_axioms;

verus! {

/// What restoring a session writes to one slot of the rig.
#[derive(Debug, PartialEq, Eq)]
pub struct SlotRestore {
    /// Slot index.
    pub slot: usize,
    /// Parameter values, in order.
    pub values: Vec<Bits>,
    /// Bypass state.
    pub bypassed: bool,
}

/// The mathematical value of a [`SlotRestore`].
#[verifier::ext_equal]
pub struct SlotRestoreModel {
    pub slot: int,
    pub values: Seq<Bits>,
    pub bypassed: bool,
}

impl View for SlotRestore {
    type V = SlotRestoreModel;

    open spec fn view(&self) -> SlotRestoreModel {
        SlotRestoreModel { slot: self.slot as int, values: self.values@, bypassed: self.bypassed }
    }
}

/// The values of some slot writes.
pub open spec fn slot_restores_view(ws: Seq<SlotRestore>) -> Seq<SlotRestoreModel> {
    Seq::new(ws.len(), |i: int| ws[i]@)
}

/// What restoring writes to the slots of the first `n` nodes: for every effect
/// with a stored state, its A values and bypass.
pub open spec fn slot_writes(kinds: Seq<NodeKind>, params: Map<usize, EffectState>, n: nat) -> Seq<
    SlotRestoreModel,
>
    decreases n,
{
    if n == 0 {
        Seq::empty()
    } else {
        let before = slot_writes(kinds, params, (n - 1) as nat);
        let idx = (n - 1) as usize;
        if kinds[n - 1] is Effect && params.contains_key(idx) {
            before.push(
                SlotRestoreModel {
                    slot: effects_among(kinds.take(n - 1)) as int,
                    values: params[idx].params@,
                    bypassed: params[idx].bypassed,
                },
            )
        } else {
            before
        }
    }
}

/// One pose of the effects among the first `n` nodes that have a stored state,
/// in slot order.
pub open spec fn stored_pose(
    kinds: Seq<NodeKind>,
    params: Map<usize, EffectState>,
    end: MorphEnd,
    n: nat,
) -> Seq<SlotModel>
    decreases n,
{
    if n == 0 {
        Seq::empty()
    } else {
        let before = stored_pose(kinds, params, end, (n - 1) as nat);
        let idx = (n - 1) as usize;
        if kinds[n - 1] is Effect && params.contains_key(idx) {
            let state = params[idx];
            before.push(
                SlotModel {
                    effect_id: state.effect_id@,
                    values: match end {
                        MorphEnd::A => state.params@,
                        MorphEnd::B => snapshot_b_of(state),
                    },
                    bypassed: state.bypassed,
                },
            )
        } else {
            before
        }
    }
}

/// Whether any effect among the nodes has a B snapshot of its own.
pub open spec fn any_b(kinds: Seq<NodeKind>, params: Map<usize, EffectState>) -> bool {
    exists|i: int|
        0 <= i < kinds.len() && #[trigger] kinds[i] is Effect && params.contains_key(i as usize)
            && params[i as usize].params_b@.len() > 0
}

/// Whether bit `i` of a lock byte is set, for each of `n` slots.
pub open spec fn lock_flags(morph: MorphConfig, n: nat) -> Seq<bool> {
    Seq::new(n, |i: int| lock_bit(morph.slot_locks, i))
}

/// The performance layer to be put back.
#[derive(Debug)]
pub struct PerformanceRestore {
    /// The macros, knobs included.
    pub map: MacroMap,
    /// Display names of the macros.
    pub names: [String; NUM_MACROS],
    /// Pose A in slot order.
    pub morph_a: MorphSnapshot,
    /// Pose B in slot order.
    pub morph_b: MorphSnapshot,
    /// Which slots are locked out of the morph.
    pub locks: Vec<bool>,
    /// Whether a morph was stored at all; without one it stays idle.
    pub active: bool,
    /// Crossfade position.
    pub t: Bits,
}

/// Knob positions, each held to its travel.
pub open spec fn clamped_positions(ps: Seq<Bits>) -> Seq<Bits> {
    ps.map_values(|p: Bits| unit_clamped(p))
}

impl Session {
    /// What restoring this session writes to the rig.
    pub fn slot_writes(&self) -> (r: Vec<SlotRestore>)
        ensures
            slot_restores_view(r@) == slot_writes(
                kinds_of(self.nodes@),
                self.params@,
                self.nodes@.len(),
            ),
    {
        broadcast use group_hash_axioms;

        let ghost kinds = kinds_of(self.nodes@);
        let mut r: Vec<SlotRestore> = Vec::new();
        let mut slot: usize = 0;
        let mut i: usize = 0;
        assert(slot_restores_view(r@) =~= Seq::empty());
        reveal(Seq::filter);
        while i < self.nodes.len()
            invariant
                i <= self.nodes@.len(),
                kinds == kinds_of(self.nodes@),
                slot <= i,
                slot == effects_among(kinds.take(i as int)),
                slot_restores_view(r@) == slot_writes(kinds, self.params@, i as nat),
            decreases self.nodes@.len() - i,
        {
            let ghost before = slot_restores_view(r@);
            proof {
                counts_step(kinds, i as int);
            }
            match &self.nodes[i].node {
                SessionNode::Effect { .. } => {
                    if let Some(state) = self.params.get(&i) {
                        let values = state.params.clone();
                        assert(values@ =~= state.params@);
                        let w = SlotRestore { slot, values, bypassed: state.bypassed };
                        let ghost model = w@;
                        r.push(w);
                        assert(slot_restores_view(r@) =~= before.push(model));
                    }
                    slot = slot + 1;
                },
                _ => {},
            }
            i = i + 1;
        }
        r
    }

    /// Both poses of the stored effects in slot order, and whether any effect has
    /// a B snapshot of its own.
    fn poses(&self) -> (r: (MorphSnapshot, MorphSnapshot, bool))
        ensures
            slots_view(r.0.slots@) == stored_pose(
                kinds_of(self.nodes@),
                self.params@,
                MorphEnd::A,
                self.nodes@.len(),
            ),
            slots_view(r.1.slots@) == stored_pose(
                kinds_of(self.nodes@),
                self.params@,
                MorphEnd::B,
                self.nodes@.len(),
            ),
            r.2 == any_b(kinds_of(self.nodes@), self.params@),
            r.0.slots@.len() <= self.nodes@.len(),
    {
        broadcast use group_hash_axioms;

        let ghost kinds = kinds_of(self.nodes@);
        let mut a: Vec<SlotSnapshot> = Vec::new();
        let mut b: Vec<SlotSnapshot> = Vec::new();
        let mut has_b = false;
        let mut i: usize = 0;
        assert(slots_view(a@) =~= Seq::empty());
        assert(slots_view(b@) =~= Seq::empty());
        while i < self.nodes.len()
            invariant
                i <= self.nodes@.len(),
                kinds == kinds_of(self.nodes@),
                a@.len() <= i,
                slots_view(a@) == stored_pose(kinds, self.params@, MorphEnd::A, i as nat),
                slots_view(b@) == stored_pose(kinds, self.params@, MorphEnd::B, i as nat),
                has_b == exists|j: int|
                    0 <= j < i && #[trigger] kinds[j] is Effect && self.params@.contains_key(
                        j as usize,
                    ) && self.params@[j as usize].params_b@.len() > 0,
            decreases self.nodes@.len() - i,
        {
            let ghost before_a = slots_view(a@);
            let ghost before_b = slots_view(b@);
            assert(kinds[i as int] == self.nodes@[i as int].node@);
            match &self.nodes[i].node {
                SessionNode::Effect { .. } => {
                    if let Some(state) = self.params.get(&i) {
                        if !state.params_b.is_empty() {
                            has_b = true;
                            assert(kinds[i as int] is Effect);
                        }
                        let values = state.params.clone();
                        assert(values@ =~= state.params@);
                        let sa = SlotSnapshot {
                            effect_id: state.effect_id.clone(),
                            values,
                            bypassed: state.bypassed,
                        };
                        let sb = SlotSnapshot {
                            effect_id: state.effect_id.clone(),
                            values: slice_to_vec(state.snapshot_b()),
                            bypassed: state.bypassed,
                        };
                        let ghost ma = sa@;
                        let ghost mb = sb@;
                        a.push(sa);
                        b.push(sb);
                        assert(slots_view(a@) =~= before_a.push(ma));
                        assert(slots_view(b@) =~= before_b.push(mb));
                    }
                },
                _ => {},
            }
            i = i + 1;
        }
        (MorphSnapshot { slots: a }, MorphSnapshot { slots: b }, has_b)
    }

    /// The macros and the A/B morph that this session stores. Where no effect has
    /// a B snapshot, the morph was never set up and is left idle at 0.
    pub fn restore_performance(&self) -> (r: PerformanceRestore)
        ensures
            r.map@ == (MacroMapModel {
                mappings: bindings_of(macros_view(self.macros@)),
                positions: clamped_positions(self.macro_positions@),
            }),
            texts_of(r.names@) == names_of(macros_view(self.macros@)),
            slots_view(r.morph_a.slots@) == stored_pose(
                kinds_of(self.nodes@),
                self.params@,
                MorphEnd::A,
                self.nodes@.len(),
            ),
            slots_view(r.morph_b.slots@) == stored_pose(
                kinds_of(self.nodes@),
                self.params@,
                MorphEnd::B,
                self.nodes@.len(),
            ),
            r.locks@ == lock_flags(self.morph, r.morph_a.slots@.len()),
            r.active == any_b(kinds_of(self.nodes@), self.params@),
            r.t == (if r.active {
                unit_clamped(self.morph_position)
            } else {
                BITS_ZERO
            }),
    {
        let (mut map, names) = defs_to_macro_map(&self.macros);
        let ghost mappings = map@.mappings;
        let mut i: usize = 0;
        while i < NUM_MACROS
            invariant
                i <= NUM_MACROS,
                map@.mappings == mappings,
                map@.positions.len() == NUM_MACROS,
                forall|j: int|
                    0 <= j < i ==> #[trigger] map@.positions[j] == unit_clamped(
                        self.macro_positions@[j],
                    ),
            decreases NUM_MACROS - i,
        {
            map.set_position(i, self.macro_positions[i]);
            i = i + 1;
        }
        assert(map@.positions =~= clamped_positions(self.macro_positions@));
        let (morph_a, morph_b, active) = self.poses();
        let mut locks: Vec<bool> = Vec::new();
        let mut slot: usize = 0;
        while slot < morph_a.slots.len()
            invariant
                slot <= morph_a.slots@.len(),
                locks@ == lock_flags(self.morph, slot as nat),
            decreases morph_a.slots@.len() - slot,
        {
            locks.push(self.morph.is_locked(slot));
            slot = slot + 1;
            assert(locks@ =~= lock_flags(self.morph, slot as nat));
        }
        let t: Bits = if active {
            bits_unit_clamp(self.morph_position)
        } else {
            BITS_ZERO
        };
        PerformanceRestore { map, names, morph_a, morph_b, locks, active, t }
    }
}

/// The morph configuration with the given slots locked; slots past the eighth
/// cannot be stored.
pub fn lock_config(locks: &Vec<bool>) -> (morph: MorphConfig)
    ensures
        morph.speed == default_morph().speed,
        morph.mode == default_morph().mode,
        forall|i: int|
            lock_bit(morph.slot_locks, i) <==> 0 <= i < 8 && i < locks@.len() && #[trigger] locks@[i],
{
    let mut morph = MorphConfig::default();
    let mut i: usize = 0;
    assert forall|j: int| !#[trigger] lock_bit(0u8, j) by {
        if 0 <= j < 8 {
            let b: u8 = j as u8;
            assert(0u8 & (1u8 << b) == 0) by (bit_vector);
        }
    }
    while i < locks.len()
        invariant
            i <= locks@.len(),
            morph.speed == default_morph().speed,
            morph.mode == default_morph().mode,
            forall|j: int| #[trigger]
                lock_bit(morph.slot_locks, j) <==> 0 <= j < 8 && j < i && locks@[j],
        decreases locks@.len() - i,
    {
        morph.set_locked(i, locks[i]);
        i = i + 1;
    }
    morph
}

/// Locks of the first eight slots survive the configuration.
pub proof fn locks_survive(locks: Seq<bool>, morph: MorphConfig)
    requires
        locks.len() <= 8,
        forall|i: int|
            lock_bit(morph.slot_locks, i) <==> 0 <= i < 8 && i < locks.len() && #[trigger] locks[i],
    ensures
        lock_flags(morph, locks.len()) == locks,
{
    assert(lock_flags(morph, locks.len()) =~= locks) by {
        assert forall|i: int| 0 <= i < locks.len() implies lock_bit(morph.slot_locks, i)
            == locks[i] by {}
    }
}

/// The nodes of a session of whose effect something is stored, in order.
pub open spec fn lists_stored(s: Session, at: Seq<int>) -> bool {
    &&& forall|k: int, l: int| 0 <= k < l < at.len() ==> #[trigger] at[k] < #[trigger] at[l]
    &&& forall|k: int|
        #![trigger at[k]]
        0 <= k < at.len() ==> 0 <= at[k] < s.nodes@.len() && s.nodes@[at[k]].node is Effect
            && s.params@.contains_key(at[k] as usize)
    &&& forall|i: int|
        0 <= i < s.nodes@.len() && (#[trigger] s.nodes@[i]).node is Effect
            && s.params@.contains_key(i as usize) ==> at.contains(i)
}

/// What restoring goes through, node by node.
proof fn stored_nodes(kinds: Seq<NodeKind>, params: Map<usize, EffectState>, n: nat) -> (at: Seq<
    int,
>)
    requires
        n <= kinds.len(),
    ensures
        forall|k: int, l: int| 0 <= k < l < at.len() ==> #[trigger] at[k] < #[trigger] at[l],
        forall|k: int|
            #![trigger at[k]]
            0 <= k < at.len() ==> 0 <= at[k] < n && kinds[at[k]] is Effect && params.contains_key(
                at[k] as usize,
            ),
        forall|i: int|
            #![trigger kinds[i]]
            0 <= i < n && kinds[i] is Effect && params.contains_key(i as usize) ==> at.contains(i),
        stored_pose(kinds, params, MorphEnd::A, n).len() == at.len(),
        stored_pose(kinds, params, MorphEnd::B, n).len() == at.len(),
        slot_writes(kinds, params, n).len() == at.len(),
        forall|k: int|
            #![trigger at[k]]
            0 <= k < at.len() ==> {
                let state = params[at[k] as usize];
                let a = stored_pose(kinds, params, MorphEnd::A, n)[k];
                let b = stored_pose(kinds, params, MorphEnd::B, n)[k];
                let w = slot_writes(kinds, params, n)[k];
                &&& a.effect_id == state.effect_id@ && b.effect_id == state.effect_id@
                &&& a.values == state.params@
                &&& b.values == snapshot_b_of(state)
                &&& a.bypassed == state.bypassed && b.bypassed == state.bypassed
                &&& w.slot == effects_among(kinds.take(at[k]))
                &&& w.values == state.params@
                &&& w.bypassed == state.bypassed
            },
    decreases n,
{
    if n == 0 {
        Seq::empty()
    } else {
        let before = stored_nodes(kinds, params, (n - 1) as nat);
        if kinds[n - 1] is Effect && params.contains_key((n - 1) as usize) {
            let at = before.push(n - 1);
            assert forall|i: int|
                #![trigger kinds[i]]
                0 <= i < n && kinds[i] is Effect && params.contains_key(
                    i as usize,
                ) implies at.contains(i) by {
                push_contains_iff(before, n - 1, i);
            }
            at
        } else {
            before
        }
    }
}

/// Restoring a session brings back what is stored of its effects, in order: both
/// poses have an entry for each of them, with its id, its A values in the one and
/// its B values or else A in the other, and its bypass; and the rig gets the A
/// values and the bypass in the slot of the effect, which is its number among the
/// effects. Returned is which node each entry is of, and where the effects are.
pub proof fn restoring_brings_back_what_is_stored(
    s: Session,
    r: PerformanceRestore,
    ws: Seq<SlotRestore>,
) -> (at: (Seq<int>, Seq<int>))
    requires
        s.nodes@.len() <= usize::MAX,
        slots_view(r.morph_a.slots@) == stored_pose(
            kinds_of(s.nodes@),
            s.params@,
            MorphEnd::A,
            s.nodes@.len(),
        ),
        slots_view(r.morph_b.slots@) == stored_pose(
            kinds_of(s.nodes@),
            s.params@,
            MorphEnd::B,
            s.nodes@.len(),
        ),
        slot_restores_view(ws) == slot_writes(kinds_of(s.nodes@), s.params@, s.nodes@.len()),
    ensures
        lists_stored(s, at.0),
        lists_effects(s.nodes@, at.1),
        r.morph_a.slots@.len() == at.0.len(),
        r.morph_b.slots@.len() == at.0.len(),
        ws.len() == at.0.len(),
        forall|k: int|
            #![trigger at.0[k]]
            0 <= k < at.0.len() ==> {
                let state = s.params@[at.0[k] as usize];
                let a = r.morph_a.slots@[k];
                let b = r.morph_b.slots@[k];
                &&& a.effect_id@ == state.effect_id@
                &&& b.effect_id@ == state.effect_id@
                &&& a.values@ == state.params@
                &&& state.params_b@.len() > 0 ==> b.values@ == state.params_b@
                &&& state.params_b@.len() == 0 ==> b.values@ == state.params@
                &&& a.bypassed == state.bypassed
                &&& b.bypassed == state.bypassed
                &&& ws[k].slot < at.1.len()
                &&& at.1[ws[k].slot as int] == at.0[k]
                &&& ws[k].values@ == state.params@
                &&& ws[k].bypassed == state.bypassed
            },
{
    let kinds = kinds_of(s.nodes@);
    let n = s.nodes@.len();
    let of = stored_nodes(kinds, s.params@, n);
    let effects = effects_at(s.nodes@);
    assert(slots_view(r.morph_a.slots@).len() == r.morph_a.slots@.len());
    assert(slots_view(r.morph_b.slots@).len() == r.morph_b.slots@.len());
    assert(slot_restores_view(ws).len() == ws.len());
    assert forall|i: int|
        0 <= i < s.nodes@.len() && (#[trigger] s.nodes@[i]).node is Effect
            && s.params@.contains_key(i as usize) implies of.contains(i) by {
        assert(kinds[i] is Effect);
    }
    assert forall|k: int| #![trigger of[k]] 0 <= k < of.len() implies 0 <= of[k] < s.nodes@.len()
        && s.nodes@[of[k]].node is Effect && {
        let state = s.params@[of[k] as usize];
        let a = r.morph_a.slots@[k];
        let b = r.morph_b.slots@[k];
        &&& a.effect_id@ == state.effect_id@
        &&& b.effect_id@ == state.effect_id@
        &&& a.values@ == state.params@
        &&& b.values@ == snapshot_b_of(state)
        &&& a.bypassed == state.bypassed
        &&& b.bypassed == state.bypassed
        &&& ws[k].slot < effects.len()
        &&& effects[ws[k].slot as int] == of[k]
        &&& ws[k].values@ == state.params@
        &&& ws[k].bypassed == state.bypassed
    } by {
        assert(kinds[of[k]] is Effect);
        assert(kinds[of[k]] == s.nodes@[of[k]].node@);
        assert(slots_view(r.morph_a.slots@)[k] == r.morph_a.slots@[k]@);
        assert(slots_view(r.morph_b.slots@)[k] == r.morph_b.slots@[k]@);
        assert(slot_restores_view(ws)[k] == ws[k]@);
    }
    (of, effects)
}

/// Restoring a session brings back its macros: each knob with its name and its
/// mappings as they were stored, at its position held to its travel; the lock of
/// each slot; and the morph position, or 0 where no effect has a pose B.
pub proof fn restoring_brings_back_the_controls(s: Session, r: PerformanceRestore, i: int)
    requires
        r.map@ == (MacroMapModel {
            mappings: bindings_of(macros_view(s.macros@)),
            positions: clamped_positions(s.macro_positions@),
        }),
        texts_of(r.names@) == names_of(macros_view(s.macros@)),
        r.locks@ == lock_flags(s.morph, r.morph_a.slots@.len()),
        r.active == any_b(kinds_of(s.nodes@), s.params@),
        r.t == (if r.active {
            unit_clamped(s.morph_position)
        } else {
            BITS_ZERO
        }),
        0 <= i < NUM_MACROS,
    ensures
        r.names@[i]@ == s.macros@[i].name@,
        s.macro_positions@[i] <= 0x3F80_0000 ==> r.map@.positions[i] == s.macro_positions@[i],
        0x3F80_0000 < s.macro_positions@[i] <= 0x7F80_0000 ==> r.map@.positions[i] == 0x3F80_0000,
        0x8000_0000 < s.macro_positions@[i] <= 0xFF80_0000 ==> r.map@.positions[i] == 0,
        r.locks@.len() == r.morph_a.slots@.len(),
        forall|k: int|
            0 <= k < r.locks@.len() ==> (#[trigger] r.locks@[k] <==> k < 8 && s.morph.slot_locks
                & (1u8 << (k as u8)) != 0),
        r.active <==> exists|j: int|
            0 <= j < s.nodes@.len() && (#[trigger] s.nodes@[j]).node is Effect
                && s.params@.contains_key(j as usize) && s.params@[j as usize].params_b@.len() > 0,
        r.active && s.morph_position <= 0x3F80_0000 ==> r.t == s.morph_position,
        !r.active ==> r.t == 0,
{
    let kinds = kinds_of(s.nodes@);
    assert(texts_of(r.names@)[i] == r.names@[i]@);
    assert(names_of(macros_view(s.macros@))[i] == s.macros@[i].name@);
    if any_b(kinds, s.params@) {
        let j = choose|j: int|
            0 <= j < kinds.len() && #[trigger] kinds[j] is Effect && s.params@.contains_key(
                j as usize,
            ) && s.params@[j as usize].params_b@.len() > 0;
        assert(s.nodes@[j].node is Effect);
    }
    if exists|j: int|
        0 <= j < s.nodes@.len() && (#[trigger] s.nodes@[j]).node is Effect
            && s.params@.contains_key(j as usize) && s.params@[j as usize].params_b@.len() > 0 {
        let j = choose|j: int|
            0 <= j < s.nodes@.len() && (#[trigger] s.nodes@[j]).node is Effect
                && s.params@.contains_key(j as usize) && s.params@[j as usize].params_b@.len() > 0;
        assert(kinds[j] is Effect);
    }
}

} // verus!
