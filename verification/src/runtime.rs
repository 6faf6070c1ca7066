//! Running a patch live.
//!
//! A [`PatchPlayer`] keeps what a patch is played with: the six macro knobs, the
//! A/B morph, the graph-level gains and a whole-rig bypass. The audio engine it
//! controls is built from [`PatchPlayer::plan`] and stays with the caller.
//!
//! Per control tick the order is morph, then macros, so macros win where both
//! reach a parameter. A macro that drives the morph position takes effect on the
//! next tick.
use crate::bits::{bits_unit_clamp, clamped_lies_within, is_nan, le, unit_clamped};
use crate::engine::{BuildPlan, PatchBuildError, build_graph_from_patch, first_unknown, plans};
use crate::macros::{
    MacroMap, MacroMapModel, MacroMapping, bindings_of, defs_to_macro_map, knobs_down,
};
use crate::patch::{
    BITS_ONE, BITS_ZERO, Bits, GlobalParam, MacroTarget, NUM_MACROS, Patch, PatchModel, lock_bit,
};
use crate::performance::slot_restores_view;
use crate::seqs::push_contains_iff;
use vstd::prelude::*;

verus! {

/// The two corners between which a slot is morphed.
#[derive(Debug, PartialEq, Eq)]
pub struct MorphCorners {
    /// Values at A.
    pub a: Vec<Bits>,
    /// Values at B.
    pub b: Vec<Bits>,
    /// Bypass state, the same at both corners.
    pub bypassed: bool,
    /// Whether the slot is held out of the morph.
    pub locked: bool,
}

/// A live, controllable instance of a patch.
#[derive(Debug)]
pub struct PatchPlayer {
    /// What the engine is built of.
    pub plan: BuildPlan,
    /// The macro knobs and what they drive.
    pub macros: MacroMap,
    /// The morph corners of each slot.
    pub morph: Vec<MorphCorners>,
    /// Morph position, from 0 (A) to 1 (B).
    pub morph_t: Bits,
    /// Morph ramp speed.
    pub morph_speed: Bits,
    /// Pre-graph gain in dB.
    pub input_gain_db: Bits,
    /// Post-graph volume in dB.
    pub master_volume_db: Bits,
    /// Whole-rig bypass.
    pub bypassed: bool,
}

/// A parameter write to the engine.
#[derive(Clone, Copy, Debug, PartialEq, Eq, Structural)]
pub struct ParamWrite {
    /// Slot index.
    pub slot: u8,
    /// Parameter index within the slot.
    pub param: u8,
    /// Value to write.
    pub value: Bits,
}

/// The mathematical value of a [`MorphCorners`].
#[verifier::ext_equal]
pub struct CornersModel {
    pub a: Seq<Bits>,
    pub b: Seq<Bits>,
    pub bypassed: bool,
    pub locked: bool,
}

/// The mathematical value of what a [`PatchPlayer`] is controlled with.
#[verifier::ext_equal]
pub struct PlayerModel {
    pub macros: MacroMapModel,
    pub morph: Seq<CornersModel>,
    pub morph_t: Bits,
    pub morph_speed: Bits,
    pub input_gain_db: Bits,
    pub master_volume_db: Bits,
    pub bypassed: bool,
}

impl View for MorphCorners {
    type V = CornersModel;

    open spec fn view(&self) -> CornersModel {
        CornersModel { a: self.a@, b: self.b@, bypassed: self.bypassed, locked: self.locked }
    }
}

/// The values of some corners.
pub open spec fn corners_view(cs: Seq<MorphCorners>) -> Seq<CornersModel> {
    Seq::new(cs.len(), |i: int| cs[i]@)
}

impl View for PatchPlayer {
    type V = PlayerModel;

    open spec fn view(&self) -> PlayerModel {
        PlayerModel {
            macros: self.macros@,
            morph: corners_view(self.morph@),
            morph_t: self.morph_t,
            morph_speed: self.morph_speed,
            input_gain_db: self.input_gain_db,
            master_volume_db: self.master_volume_db,
            bypassed: self.bypassed,
        }
    }
}

/// The morph corners of a patch: each node's two snapshots.
pub open spec fn corners_of(p: PatchModel) -> Seq<CornersModel> {
    Seq::new(
        p.nodes.len(),
        |i: int|
            CornersModel {
                a: p.nodes[i].params_a,
                b: p.nodes[i].params_b,
                bypassed: p.nodes[i].bypassed,
                locked: lock_bit(p.morph.slot_locks, i),
            },
    )
}

/// A player at the start: bound as the patch says, parked at A, knobs down.
pub open spec fn player_of(p: PatchModel) -> PlayerModel {
    PlayerModel {
        macros: MacroMapModel { mappings: bindings_of(p.macros), positions: knobs_down() },
        morph: corners_of(p),
        morph_t: BITS_ZERO,
        morph_speed: p.morph.speed,
        input_gain_db: p.globals.input_gain_db,
        master_volume_db: p.globals.master_volume_db,
        bypassed: false,
    }
}

/// A graph-level control after the first `n` mappings wrote their values: the
/// last one to drive it decides.
pub open spec fn driven(
    ms: Seq<MacroMapping>,
    values: Seq<Bits>,
    n: nat,
    g: GlobalParam,
    start: Bits,
) -> Bits
    decreases n,
{
    if n == 0 {
        start
    } else if ms[n - 1].target == MacroTarget::Global(g) {
        values[n - 1]
    } else {
        driven(ms, values, (n - 1) as nat, g, start)
    }
}

/// What the first `n` mappings write to slots, in order.
pub open spec fn slot_writes_of(ms: Seq<MacroMapping>, values: Seq<Bits>, n: nat) -> Seq<
    ParamWrite,
>
    decreases n,
{
    if n == 0 {
        Seq::empty()
    } else {
        let before = slot_writes_of(ms, values, (n - 1) as nat);
        match ms[n - 1].target {
            MacroTarget::Slot { slot, param } => before.push(
                ParamWrite { slot, param, value: values[n - 1] },
            ),
            MacroTarget::Global(_) => before,
        }
    }
}

/// A player after a control tick in which its mappings took `values`.
pub open spec fn ticked(p: PlayerModel, values: Seq<Bits>) -> PlayerModel {
    let ms = p.macros.mappings;
    let n = ms.len();
    PlayerModel {
        input_gain_db: driven(ms, values, n, GlobalParam::InputGain, p.input_gain_db),
        master_volume_db: driven(ms, values, n, GlobalParam::MasterVolume, p.master_volume_db),
        morph_t: unit_clamped(driven(ms, values, n, GlobalParam::MorphPosition, p.morph_t)),
        morph_speed: driven(ms, values, n, GlobalParam::MorphSpeed, p.morph_speed),
        ..p
    }
}

/// The corners of a patch's slots.
fn morph_corners(patch: &Patch) -> (cs: Vec<MorphCorners>)
    ensures
        corners_view(cs@) == corners_of(patch@),
        cs@.len() == patch.nodes@.len(),
        forall|i: int|
            0 <= i < cs@.len() ==> (#[trigger] cs@[i]).a@ == patch.nodes@[i].params_a@ && cs@[i].b@
                == patch.nodes@[i].params_b@ && cs@[i].bypassed == patch.nodes@[i].bypassed,
{
    let mut cs: Vec<MorphCorners> = Vec::new();
    let ghost all = corners_of(patch@);
    let mut i: usize = 0;
    assert(corners_view(cs@) =~= all.take(0));
    while i < patch.nodes.len()
        invariant
            i <= patch.nodes@.len(),
            all == corners_of(patch@),
            corners_view(cs@) == all.take(i as int),
        decreases patch.nodes@.len() - i,
    {
        let node = &patch.nodes[i];
        let ghost before = corners_view(cs@);
        let a = node.params_a.clone();
        let b = node.params_b.clone();
        assert(a@ =~= node.params_a@);
        assert(b@ =~= node.params_b@);
        assert(patch@.nodes[i as int] == node@);
        let c = MorphCorners { a, b, bypassed: node.bypassed, locked: patch.morph.is_locked(i) };
        let ghost model = c@;
        cs.push(c);
        assert(corners_view(cs@) =~= before.push(model));
        i = i + 1;
        assert(corners_view(cs@) =~= all.take(i as int));
    }
    assert(all.take(i as int) =~= all);
    proof {
        assert(corners_view(cs@).len() == cs@.len());
        assert forall|i: int| 0 <= i < cs@.len() implies (#[trigger] cs@[i]).a@
            == patch.nodes@[i].params_a@ && cs@[i].b@ == patch.nodes@[i].params_b@
            && cs@[i].bypassed == patch.nodes@[i].bypassed by {
            assert(corners_view(cs@)[i] == cs@[i]@);
            assert(patch@.nodes[i] == patch.nodes@[i]@);
        }
    }
    cs
}

impl PatchPlayer {
    /// A player for `patch`. `known` lists the UIDs of the effects that can be
    /// constructed.
    ///
    /// Fails with `UnknownEffect` as [`build_graph_from_patch`] does; whether the
    /// plan could be carried out is for [`BuildPlan::conclude`] to say.
    pub fn from_patch(patch: &Patch, known: &[u16]) -> (r: Result<Self, PatchBuildError>)
        requires
            3 + patch.nodes@.len() + 2 * patch.edges@.len() <= usize::MAX,
        ensures
            match r {
                Ok(player) => first_unknown(patch@.nodes, known@, 0) is None && plans(
                    patch@,
                    player.plan,
                ) && player@ == player_of(patch@),
                Err(e) => e matches PatchBuildError::UnknownEffect(uid) && first_unknown(
                    patch@.nodes,
                    known@,
                    0,
                ) == Some(uid),
            },
            r matches Ok(player) ==> player.morph@.len() == patch.nodes@.len(),
            r matches Ok(player) ==> forall|i: int|
                0 <= i < player.morph@.len() ==> (#[trigger] player.morph@[i]).a@
                    == patch.nodes@[i].params_a@ && player.morph@[i].b@
                    == patch.nodes@[i].params_b@ && player.morph@[i].bypassed
                    == patch.nodes@[i].bypassed,
            r matches Ok(player) ==> player.morph_t == 0 && !player.bypassed,
    {
        let plan = build_graph_from_patch(patch, known)?;
        let (macros, _names) = defs_to_macro_map(&patch.macros);
        Ok(
            PatchPlayer {
                plan,
                macros,
                morph: morph_corners(patch),
                morph_t: BITS_ZERO,
                morph_speed: patch.morph.speed,
                input_gain_db: patch.globals.input_gain_db,
                master_volume_db: patch.globals.master_volume_db,
                bypassed: false,
            },
        )
    }

    /// Turn the knob of macro `index`, without applying it: see
    /// [`Self::apply_controls`].
    pub fn set_macro(&mut self, index: usize, position: Bits)
        ensures
            final(self).plan == old(self).plan,
            final(self)@ == (PlayerModel {
                macros: (MacroMapModel {
                    positions: if index < NUM_MACROS {
                        old(self)@.macros.positions.update(index as int, unit_clamped(position))
                    } else {
                        old(self)@.macros.positions
                    },
                    ..old(self)@.macros
                }),
                ..old(self)@
            }),
    {
        self.macros.set_position(index, position);
    }

    /// Set the A/B morph position, held between 0 (A) and 1 (B).
    pub fn set_morph_position(&mut self, t: Bits)
        ensures
            final(self).plan == old(self).plan,
            final(self)@ == (PlayerModel { morph_t: unit_clamped(t), ..old(self)@ }),
    {
        self.morph_t = bits_unit_clamp(t);
    }

    /// Current morph position.
    pub fn morph_position(&self) -> (t: Bits)
        ensures
            t == self@.morph_t,
    {
        self.morph_t
    }

    /// Set the whole-rig bypass.
    pub fn set_bypassed(&mut self, bypassed: bool)
        ensures
            final(self).plan == old(self).plan,
            final(self)@ == (PlayerModel { bypassed, ..old(self)@ }),
    {
        self.bypassed = bypassed;
    }

    /// Set the graph-level input gain in dB.
    pub fn set_input_gain_db(&mut self, db: Bits)
        ensures
            final(self).plan == old(self).plan,
            final(self)@ == (PlayerModel { input_gain_db: db, ..old(self)@ }),
    {
        self.input_gain_db = db;
    }

    /// Set the graph-level master volume in dB.
    pub fn set_master_volume_db(&mut self, db: Bits)
        ensures
            final(self).plan == old(self).plan,
            final(self)@ == (PlayerModel { master_volume_db: db, ..old(self)@ }),
    {
        self.master_volume_db = db;
    }

    /// How many effect slots there are.
    pub fn slot_count(&self) -> (n: usize)
        ensures
            n == self.plan.setup@.len(),
    {
        self.plan.setup.len()
    }

    /// Apply the macros at the end of a control tick, after the morph was applied
    /// at [`Self::morph_position`].
    ///
    /// `values` holds what each mapping comes to at its knob's position, in the
    /// order of the mappings. Graph-level targets are taken over here; returned
    /// are the writes to slots, for the engine to take in order.
    pub fn apply_controls(&mut self, values: &[Bits]) -> (writes: Vec<ParamWrite>)
        requires
            values@.len() == old(self)@.macros.mappings.len(),
        ensures
            final(self).plan == old(self).plan,
            final(self)@ == ticked(old(self)@, values@),
            writes@ == slot_writes_of(
                old(self)@.macros.mappings,
                values@,
                old(self)@.macros.mappings.len(),
            ),
    {
        let ghost ms = self@.macros.mappings;
        let mut in_gain: Bits = self.input_gain_db;
        let mut master: Bits = self.master_volume_db;
        let mut morph_t: Bits = self.morph_t;
        let mut morph_speed: Bits = self.morph_speed;
        let mut writes: Vec<ParamWrite> = Vec::new();
        let mappings = self.macros.mappings();
        let mut i: usize = 0;
        while i < mappings.len()
            invariant
                i <= mappings@.len(),
                mappings@ == ms,
                values@.len() == ms.len(),
                in_gain == driven(
                    ms,
                    values@,
                    i as nat,
                    GlobalParam::InputGain,
                    old(self).input_gain_db,
                ),
                master == driven(
                    ms,
                    values@,
                    i as nat,
                    GlobalParam::MasterVolume,
                    old(self).master_volume_db,
                ),
                morph_t == driven(
                    ms,
                    values@,
                    i as nat,
                    GlobalParam::MorphPosition,
                    old(self).morph_t,
                ),
                morph_speed == driven(
                    ms,
                    values@,
                    i as nat,
                    GlobalParam::MorphSpeed,
                    old(self).morph_speed,
                ),
                writes@ == slot_writes_of(ms, values@, i as nat),
            decreases mappings@.len() - i,
        {
            let value: Bits = values[i];
            match mappings[i].target {
                MacroTarget::Slot { slot, param } => {
                    writes.push(ParamWrite { slot, param, value });
                },
                MacroTarget::Global(g) => match g {
                    GlobalParam::InputGain => {
                        in_gain = value;
                    },
                    GlobalParam::MasterVolume => {
                        master = value;
                    },
                    GlobalParam::MorphPosition => {
                        morph_t = value;
                    },
                    GlobalParam::MorphSpeed => {
                        morph_speed = value;
                    },
                },
            }
            i = i + 1;
        }
        self.input_gain_db = in_gain;
        self.master_volume_db = master;
        self.morph_t = bits_unit_clamp(morph_t);
        self.morph_speed = morph_speed;
        writes
    }
}

/// A parameter after some writes: the last one to reach it decides.
pub open spec fn written(ws: Seq<ParamWrite>, slot: u8, param: u8, start: Bits) -> Bits
    decreases ws.len(),
{
    if ws.len() == 0 {
        start
    } else if ws.last().slot == slot && ws.last().param == param {
        ws.last().value
    } else {
        written(ws.drop_last(), slot, param, start)
    }
}

/// Macros win over the morph: whatever the morph left in a parameter, a mapping
/// onto it decides its value for the tick.
pub proof fn macros_win(ms: Seq<MacroMapping>, values: Seq<Bits>, n: nat, i: int, a: Bits, b: Bits)
    requires
        n <= ms.len(),
        values.len() == ms.len(),
        0 <= i < n,
        ms[i].target is Slot,
    ensures
        written(
            slot_writes_of(ms, values, n),
            ms[i].target->slot,
            ms[i].target->param,
            a,
        ) == written(slot_writes_of(ms, values, n), ms[i].target->slot, ms[i].target->param, b),
        slot_writes_of(ms, values, n).contains(
            ParamWrite {
                slot: ms[i].target->slot,
                param: ms[i].target->param,
                value: written(
                    slot_writes_of(ms, values, n),
                    ms[i].target->slot,
                    ms[i].target->param,
                    a,
                ),
            },
        ),
    decreases n,
{
    let ws = slot_writes_of(ms, values, n);
    let before = slot_writes_of(ms, values, (n - 1) as nat);
    let t = ms[i].target;
    if ms[n - 1].target is Slot {
        assert(ws.drop_last() =~= before);
    }
    if ms[n - 1].target == t {
        assert(ws.last() == (ParamWrite { slot: t->slot, param: t->param, value: values[n - 1] }));
    } else {
        macros_win(ms, values, (n - 1) as nat, i, a, b);
        let w = ParamWrite {
            slot: t->slot,
            param: t->param,
            value: written(before, t->slot, t->param, a),
        };
        let at = before.index_of(w);
        assert(ws[at] == w);
    }
}

/// The morph position stays between A and B at every tick.
pub proof fn morph_position_is_held(p: PlayerModel, values: Seq<Bits>)
    requires
        values.len() == p.macros.mappings.len(),
    ensures
        is_nan(ticked(p, values).morph_t) || le(BITS_ZERO, ticked(p, values).morph_t) && le(
            ticked(p, values).morph_t,
            BITS_ONE,
        ),
{
    let t = driven(
        p.macros.mappings,
        values,
        p.macros.mappings.len(),
        GlobalParam::MorphPosition,
        p.morph_t,
    );
    clamped_lies_within(t, BITS_ZERO, BITS_ONE);
}

/// Controls that no mapping drives keep what they were set to.
pub proof fn undriven_controls_stay(
    ms: Seq<MacroMapping>,
    values: Seq<Bits>,
    n: nat,
    g: GlobalParam,
    start: Bits,
)
    requires
        n <= ms.len(),
        forall|i: int| 0 <= i < n ==> (#[trigger] ms[i]).target != MacroTarget::Global(g),
    ensures
        driven(ms, values, n, g, start) == start,
    decreases n,
{
    if n > 0 {
        undriven_controls_stay(ms, values, (n - 1) as nat, g, start);
    }
}

/// A player has the sound of its patch: every slot is morphed from the A snapshot
/// of its node to the B snapshot, keeps the node's bypass, is held out of the
/// morph where its lock bit is set, and starts with the A snapshot in the engine.
/// The player is parked at A, its knobs are down, and the gains and the speed are
/// those of the patch.
pub proof fn a_player_has_the_sound_of_its_patch(patch: Patch, player: PatchPlayer, i: int)
    requires
        plans(patch@, player.plan),
        player@ == player_of(patch@),
        0 <= i < patch.nodes@.len(),
    ensures
        player.morph@.len() == patch.nodes@.len(),
        player.morph@[i].a@ == patch.nodes@[i].params_a@,
        player.morph@[i].b@ == patch.nodes@[i].params_b@,
        player.morph@[i].bypassed == patch.nodes@[i].bypassed,
        i >= 8 ==> !player.morph@[i].locked,
        i < 8 ==> (player.morph@[i].locked <==> patch.morph.slot_locks & (1u8 << (i as u8)) != 0),
        player.plan.setup@.len() == patch.nodes@.len(),
        player.plan.setup@[i].slot == i,
        player.plan.setup@[i].values@ == player.morph@[i].a@,
        player.plan.setup@[i].bypassed == player.morph@[i].bypassed,
        player.morph_t == 0,
        player.morph_speed == patch.morph.speed,
        player.input_gain_db == patch.globals.input_gain_db,
        player.master_volume_db == patch.globals.master_volume_db,
        !player.bypassed,
        forall|k: int| 0 <= k < 6 ==> #[trigger] player@.macros.positions[k] == 0,
{
    assert(corners_view(player.morph@).len() == player.morph@.len());
    assert(corners_view(player.morph@)[i] == player.morph@[i]@);
    assert(patch@.nodes[i] == patch.nodes@[i]@);
    let setup = slot_restores_view(player.plan.setup@);
    assert(setup.len() == player.plan.setup@.len());
    assert(setup[i] == player.plan.setup@[i]@);
}

/// The last mapping that drives a control decides it.
proof fn last_drive_decides(
    ms: Seq<MacroMapping>,
    values: Seq<Bits>,
    n: nat,
    g: GlobalParam,
    start: Bits,
    i: int,
)
    requires
        0 <= i < n <= ms.len(),
        ms[i].target == MacroTarget::Global(g),
        forall|j: int| i < j < n ==> (#[trigger] ms[j]).target != MacroTarget::Global(g),
    ensures
        driven(ms, values, n, g, start) == values[i],
    decreases n,
{
    if i < n - 1 {
        assert(ms[n - 1].target != MacroTarget::Global(g));
        last_drive_decides(ms, values, (n - 1) as nat, g, start, i);
    }
}

/// In a tick a control takes the value of the last mapping that drives it, and
/// stays as it is where none does; nothing else of the player changes. The morph
/// position is held between 0 and 1.
pub proof fn a_tick_drives_the_controls(p: PlayerModel, values: Seq<Bits>, g: GlobalParam, i: int)
    requires
        values.len() == p.macros.mappings.len(),
        -1 <= i < p.macros.mappings.len(),
        i >= 0 ==> p.macros.mappings[i].target == MacroTarget::Global(g),
        forall|j: int|
            i < j < p.macros.mappings.len() ==> (#[trigger] p.macros.mappings[j]).target
                != MacroTarget::Global(g),
    ensures
        ({
            let after = ticked(p, values);
            &&& g is InputGain ==> after.input_gain_db == if i >= 0 {
                values[i]
            } else {
                p.input_gain_db
            }
            &&& g is MasterVolume ==> after.master_volume_db == if i >= 0 {
                values[i]
            } else {
                p.master_volume_db
            }
            &&& g is MorphSpeed ==> after.morph_speed == if i >= 0 {
                values[i]
            } else {
                p.morph_speed
            }
            &&& g is MorphPosition && i >= 0 && values[i] <= 0x3F80_0000 ==> after.morph_t
                == values[i]
            &&& g is MorphPosition && i < 0 && p.morph_t <= 0x3F80_0000 ==> after.morph_t
                == p.morph_t
            &&& after.macros == p.macros
            &&& after.morph == p.morph
            &&& after.bypassed == p.bypassed
        }),
{
    let ms = p.macros.mappings;
    let start = match g {
        GlobalParam::InputGain => p.input_gain_db,
        GlobalParam::MasterVolume => p.master_volume_db,
        GlobalParam::MorphPosition => p.morph_t,
        GlobalParam::MorphSpeed => p.morph_speed,
    };
    if i >= 0 {
        last_drive_decides(ms, values, ms.len(), g, start, i);
    } else {
        undriven_controls_stay(ms, values, ms.len(), g, start);
    }
}

/// A tick writes what the mappings onto slots come to, each to its parameter, in
/// the order of the mappings, and nothing else. Returned is which mapping each
/// write is of.
pub proof fn a_tick_writes_the_slots(ms: Seq<MacroMapping>, values: Seq<Bits>, n: nat) -> (from: Seq<
    int,
>)
    requires
        n <= ms.len(),
        values.len() == ms.len(),
    ensures
        from.len() == slot_writes_of(ms, values, n).len(),
        forall|k: int|
            #![trigger from[k]]
            0 <= k < from.len() ==> 0 <= from[k] < n && ms[from[k]].target == (MacroTarget::Slot {
                slot: slot_writes_of(ms, values, n)[k].slot,
                param: slot_writes_of(ms, values, n)[k].param,
            }) && slot_writes_of(ms, values, n)[k].value == values[from[k]],
        forall|k: int, l: int| 0 <= k < l < from.len() ==> #[trigger] from[k] < #[trigger] from[l],
        forall|i: int| 0 <= i < n && (#[trigger] ms[i]).target is Slot ==> from.contains(i),
    decreases n,
{
    if n == 0 {
        Seq::empty()
    } else {
        let before = a_tick_writes_the_slots(ms, values, (n - 1) as nat);
        if ms[n - 1].target is Slot {
            let from = before.push(n - 1);
            assert forall|i: int| 0 <= i < n && (
            #[trigger] ms[i]).target is Slot implies from.contains(i) by {
                push_contains_iff(before, n - 1, i);
            }
            from
        } else {
            before
        }
    }
}

} // verus!
