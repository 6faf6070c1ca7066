//! The graph-player plugin: a whole rig as one plugin with a fixed parameter set.
//!
//! [`GraphShared`] is what the plugin's threads share: the values of its
//! parameters and the patch it plays. Its state is the patch together with the
//! parameter values by stable id.
use crate::bits::{bits_clamp, bits_lt, clamped, clamped_lies_within, le, lt, rank, unit_clamped};
use crate::macros::{MacroMapModel, knobs_are_six};
use crate::patch::{
    BITS_HALF, BITS_ONE, BITS_TWO, BITS_ZERO, Bits, NUM_MACROS, Patch, PatchModel, empty_patch,
};
use crate::runtime::{PatchPlayer, PlayerModel};
use vstd::prelude::*;

verus! {

/// Id of the first macro; the others follow. Ids are never renumbered.
pub const ID_MACRO_BASE: u32 = 0x1000;

/// Id of the morph position.
pub const ID_MORPH_POS: u32 = 0x1010;

/// Id of the morph speed.
pub const ID_MORPH_SPEED: u32 = 0x1011;

/// Id of the input gain.
pub const ID_INPUT_GAIN: u32 = 0x1020;

/// Id of the master volume.
pub const ID_MASTER_VOLUME: u32 = 0x1021;

/// Id of the bypass switch.
pub const ID_BYPASS: u32 = 0x1030;

/// How many parameters the plugin has: the macros and five more.
pub const GRAPH_PARAM_COUNT: usize = 11;

/// A parameter of the plugin.
#[derive(Clone, Copy, Debug, PartialEq, Eq)]
pub struct GraphParam {
    /// Stable id.
    pub id: u32,
    /// Stable text id.
    pub key: &'static str,
    /// Display name.
    pub name: &'static str,
    /// Short display name.
    pub short_name: &'static str,
    /// Smallest value.
    pub min: Bits,
    /// Largest value.
    pub max: Bits,
    /// Value of a fresh instance.
    pub default: Bits,
}

/// The parameters of the plugin, in order: six macros from 0 to 1, the morph
/// position from 0 to 1, the morph speed from 0.1 to 10 (2 at first), the input
/// gain from -24 to 24 dB, the master volume from -40 to 6 dB, and the bypass
/// switch.
pub open spec fn graph_param(i: int) -> GraphParam {
    if i < NUM_MACROS {
        GraphParam {
            id: (ID_MACRO_BASE + i) as u32,
            key: "macro",
            name: "Macro",
            short_name: "Macro",
            min: BITS_ZERO,
            max: BITS_ONE,
            default: BITS_ZERO,
        }
    } else if i == 6 {
        GraphParam {
            id: ID_MORPH_POS,
            key: "morph_pos",
            name: "Morph",
            short_name: "Morph",
            min: BITS_ZERO,
            max: BITS_ONE,
            default: BITS_ZERO,
        }
    } else if i == 7 {
        GraphParam {
            id: ID_MORPH_SPEED,
            key: "morph_speed",
            name: "Morph Speed",
            short_name: "Speed",
            min: 0x3DCC_CCCD,
            max: 0x4120_0000,
            default: BITS_TWO,
        }
    } else if i == 8 {
        GraphParam {
            id: ID_INPUT_GAIN,
            key: "input_gain",
            name: "Input Gain",
            short_name: "In",
            min: 0xC1C0_0000,
            max: 0x41C0_0000,
            default: BITS_ZERO,
        }
    } else if i == 9 {
        GraphParam {
            id: ID_MASTER_VOLUME,
            key: "master_volume",
            name: "Master Volume",
            short_name: "Vol",
            min: 0xC220_0000,
            max: 0x40C0_0000,
            default: BITS_ZERO,
        }
    } else {
        GraphParam {
            id: ID_BYPASS,
            key: "bypass",
            name: "Bypass",
            short_name: "Byp",
            min: BITS_ZERO,
            max: BITS_ONE,
            default: BITS_ZERO,
        }
    }
}

/// All parameters, in order.
pub open spec fn graph_params() -> Seq<GraphParam> {
    Seq::new(GRAPH_PARAM_COUNT as nat, |i: int| graph_param(i))
}

/// What the plugin's threads share.
#[derive(Debug)]
pub struct GraphShared {
    values: Vec<Bits>,
    patch: Patch,
    latency_samples: u32,
}

/// The mathematical value of a [`GraphShared`].
#[verifier::ext_equal]
pub struct SharedModel {
    pub values: Seq<Bits>,
    pub patch: PatchModel,
    pub latency_samples: u32,
}

impl View for GraphShared {
    type V = SharedModel;

    closed spec fn view(&self) -> SharedModel {
        SharedModel {
            values: self.values@,
            patch: self.patch@,
            latency_samples: self.latency_samples,
        }
    }
}

/// A value per parameter, each held to its range.
pub open spec fn held(values: Seq<Bits>) -> bool {
    &&& values.len() == GRAPH_PARAM_COUNT
    &&& forall|i: int|
        0 <= i < values.len() ==> clamped(
            #[trigger] values[i],
            graph_param(i).min,
            graph_param(i).max,
        ) == values[i]
}

/// The values of a fresh instance.
pub open spec fn default_values() -> Seq<Bits> {
    Seq::new(GRAPH_PARAM_COUNT as nat, |i: int| graph_param(i).default)
}

/// The values after one is set; there is nothing to set past the last.
pub open spec fn with_value(values: Seq<Bits>, i: int, v: Bits) -> Seq<Bits> {
    if 0 <= i < GRAPH_PARAM_COUNT {
        values.update(i, clamped(v, graph_param(i).min, graph_param(i).max))
    } else {
        values
    }
}

/// The parameter with an id, or the parameter count where there is none.
pub open spec fn param_with_id(id: u32) -> int {
    if exists|i: int| 0 <= i < GRAPH_PARAM_COUNT && (#[trigger] graph_param(i)).id == id {
        choose|i: int| 0 <= i < GRAPH_PARAM_COUNT && (#[trigger] graph_param(i)).id == id
    } else {
        GRAPH_PARAM_COUNT as int
    }
}

/// The values after some are set by id, in order; unknown ids are passed over.
pub open spec fn with_values(values: Seq<Bits>, events: Seq<(u32, Bits)>) -> Seq<Bits>
    decreases events.len(),
{
    if events.len() == 0 {
        values
    } else {
        let before = with_values(values, events.drop_last());
        with_value(before, param_with_id(events.last().0), events.last().1)
    }
}

/// The values by id, in the order of the ids.
pub open spec fn saved_values(values: Seq<Bits>) -> Seq<(u32, Bits)> {
    Seq::new(values.len(), |i: int| (graph_param(i).id, values[i]))
}

/// No two parameters share an id, and they stand in the order of their ids.
pub proof fn ids_ascend(i: int, j: int)
    requires
        0 <= i < j < GRAPH_PARAM_COUNT,
    ensures
        graph_param(i).id < graph_param(j).id,
{
}

/// A parameter is found by its id.
pub proof fn id_finds_its_parameter(i: int)
    requires
        0 <= i < GRAPH_PARAM_COUNT,
    ensures
        param_with_id(graph_param(i).id) == i,
{
    let id = graph_param(i).id;
    let j = param_with_id(id);
    assert(graph_param(j).id == id);
    if i < j {
        ids_ascend(i, j);
    } else if j < i {
        ids_ascend(j, i);
    }
}

/// Every range is in order, so a default lies in it.
proof fn ranges_are_ordered(i: int)
    requires
        0 <= i < GRAPH_PARAM_COUNT,
    ensures
        le(graph_param(i).min, graph_param(i).max),
        clamped(graph_param(i).default, graph_param(i).min, graph_param(i).max)
            == graph_param(i).default,
{
    assert(rank(BITS_ZERO) < rank(BITS_ONE));
    assert(rank(0x3DCC_CCCD) < rank(BITS_TWO) < rank(0x4120_0000));
    assert(rank(0xC1C0_0000) < rank(BITS_ZERO) < rank(0x41C0_0000));
    assert(rank(0xC220_0000) < rank(BITS_ZERO) < rank(0x40C0_0000));
}

/// Setting a value keeps all values in their ranges.
pub proof fn setting_holds(values: Seq<Bits>, i: int, v: Bits)
    requires
        held(values),
    ensures
        held(with_value(values, i, v)),
{
    if 0 <= i < GRAPH_PARAM_COUNT {
        ranges_are_ordered(i);
        clamped_lies_within(v, graph_param(i).min, graph_param(i).max);
    }
}

/// Setting values by id keeps all values in their ranges.
pub proof fn events_hold(values: Seq<Bits>, events: Seq<(u32, Bits)>)
    requires
        held(values),
    ensures
        held(with_values(values, events)),
    decreases events.len(),
{
    if events.len() > 0 {
        events_hold(values, events.drop_last());
        setting_holds(
            with_values(values, events.drop_last()),
            param_with_id(events.last().0),
            events.last().1,
        );
    }
}

/// The parameters of the plugin.
pub fn graph_param_descriptors() -> (ps: Vec<GraphParam>)
    ensures
        ps@ == graph_params(),
{
    let mut ps: Vec<GraphParam> = Vec::new();
    let mut i: usize = 0;
    while i < GRAPH_PARAM_COUNT
        invariant
            i <= GRAPH_PARAM_COUNT,
            ps@ == graph_params().take(i as int),
        decreases GRAPH_PARAM_COUNT - i,
    {
        match descriptor(i) {
            Some(p) => {
                ps.push(p);
            },
            None => {},
        }
        i = i + 1;
        assert(ps@ =~= graph_params().take(i as int));
    }
    assert(graph_params().take(i as int) =~= graph_params());
    ps
}

/// A parameter of the plugin, if there are that many.
pub fn descriptor(i: usize) -> (p: Option<GraphParam>)
    ensures
        p == (if i < GRAPH_PARAM_COUNT {
            Some(graph_param(i as int))
        } else {
            None
        }),
{
    if i < NUM_MACROS {
        Some(
            GraphParam {
                id: ID_MACRO_BASE + i as u32,
                key: "macro",
                name: "Macro",
                short_name: "Macro",
                min: BITS_ZERO,
                max: BITS_ONE,
                default: BITS_ZERO,
            },
        )
    } else if i == 6 {
        Some(
            GraphParam {
                id: ID_MORPH_POS,
                key: "morph_pos",
                name: "Morph",
                short_name: "Morph",
                min: BITS_ZERO,
                max: BITS_ONE,
                default: BITS_ZERO,
            },
        )
    } else if i == 7 {
        Some(
            GraphParam {
                id: ID_MORPH_SPEED,
                key: "morph_speed",
                name: "Morph Speed",
                short_name: "Speed",
                min: 0x3DCC_CCCD,
                max: 0x4120_0000,
                default: BITS_TWO,
            },
        )
    } else if i == 8 {
        Some(
            GraphParam {
                id: ID_INPUT_GAIN,
                key: "input_gain",
                name: "Input Gain",
                short_name: "In",
                min: 0xC1C0_0000,
                max: 0x41C0_0000,
                default: BITS_ZERO,
            },
        )
    } else if i == 9 {
        Some(
            GraphParam {
                id: ID_MASTER_VOLUME,
                key: "master_volume",
                name: "Master Volume",
                short_name: "Vol",
                min: 0xC220_0000,
                max: 0x40C0_0000,
                default: BITS_ZERO,
            },
        )
    } else if i == 10 {
        Some(
            GraphParam {
                id: ID_BYPASS,
                key: "bypass",
                name: "Bypass",
                short_name: "Byp",
                min: BITS_ZERO,
                max: BITS_ONE,
                default: BITS_ZERO,
            },
        )
    } else {
        None
    }
}

/// The index of the parameter with an id, if there is one.
pub fn index_by_id(id: u32) -> (r: Option<usize>)
    ensures
        match r {
            Some(i) => i < GRAPH_PARAM_COUNT && graph_param(i as int).id == id && i == param_with_id(
                id,
            ),
            None => param_with_id(id) == GRAPH_PARAM_COUNT && forall|i: int|
                0 <= i < GRAPH_PARAM_COUNT ==> (#[trigger] graph_param(i)).id != id,
        },
{
    let mut i: usize = 0;
    while i < GRAPH_PARAM_COUNT
        invariant
            i <= GRAPH_PARAM_COUNT,
            forall|j: int| 0 <= j < i ==> (#[trigger] graph_param(j)).id != id,
        decreases GRAPH_PARAM_COUNT - i,
    {
        match descriptor(i) {
            Some(p) => {
                if p.id == id {
                    proof {
                        id_finds_its_parameter(i as int);
                    }
                    return Some(i);
                }
            },
            None => {},
        }
        i = i + 1;
    }
    None
}

impl GraphShared {
    /// The values are held to their ranges.
    pub open spec fn wf(&self) -> bool {
        held(self@.values)
    }

    /// Default values and an empty patch named `graph`.
    pub fn new() -> (s: Self)
        ensures
            s.wf(),
            s@ == (SharedModel {
                values: default_values(),
                patch: empty_patch("graph"@),
                latency_samples: 0,
            }),
    {
        let mut values: Vec<Bits> = Vec::new();
        let mut i: usize = 0;
        while i < GRAPH_PARAM_COUNT
            invariant
                i <= GRAPH_PARAM_COUNT,
                values@ == default_values().take(i as int),
            decreases GRAPH_PARAM_COUNT - i,
        {
            match descriptor(i) {
                Some(p) => {
                    values.push(p.default);
                },
                None => {},
            }
            i = i + 1;
            assert(values@ =~= default_values().take(i as int));
        }
        assert(values@ =~= default_values());
        proof {
            assert forall|j: int| 0 <= j < GRAPH_PARAM_COUNT implies clamped(
                #[trigger] values@[j],
                graph_param(j).min,
                graph_param(j).max,
            ) == values@[j] by {
                ranges_are_ordered(j);
            }
        }
        GraphShared { values, patch: Patch::new("graph".to_owned()), latency_samples: 0 }
    }

    /// How many parameters there are.
    pub fn param_count(&self) -> (n: usize)
        requires
            self.wf(),
        ensures
            n == GRAPH_PARAM_COUNT,
    {
        self.values.len()
    }

    /// The value of a parameter, if there are that many.
    pub fn get_value(&self, i: usize) -> (r: Option<Bits>)
        requires
            self.wf(),
        ensures
            r == (if i < GRAPH_PARAM_COUNT {
                Some(self@.values[i as int])
            } else {
                None
            }),
    {
        if i < self.values.len() {
            Some(self.values[i])
        } else {
            None
        }
    }

    /// Set a parameter, held to its range. Does nothing past the last.
    pub fn set_value(&mut self, i: usize, value: Bits)
        requires
            old(self).wf(),
        ensures
            final(self).wf(),
            final(self)@ == (SharedModel {
                values: with_value(old(self)@.values, i as int, value),
                ..old(self)@
            }),
    {
        match descriptor(i) {
            Some(p) => {
                proof {
                    setting_holds(self.values@, i as int, value);
                }
                self.values.set(i, bits_clamp(value, p.min, p.max));
            },
            None => {},
        }
    }

    /// Take over host automation: values by parameter id, in order.
    pub fn handle_param_events(&mut self, events: &[(u32, Bits)])
        requires
            old(self).wf(),
        ensures
            final(self).wf(),
            final(self)@ == (SharedModel {
                values: with_values(old(self)@.values, events@),
                ..old(self)@
            }),
    {
        let mut k: usize = 0;
        assert(events@.take(0) =~= Seq::empty());
        while k < events.len()
            invariant
                k <= events@.len(),
                self.wf(),
                self@ == (SharedModel {
                    values: with_values(old(self)@.values, events@.take(k as int)),
                    ..old(self)@
                }),
            decreases events@.len() - k,
        {
            let (id, value) = events[k];
            match index_by_id(id) {
                Some(i) => {
                    self.set_value(i, value);
                },
                None => {},
            }
            assert(events@.take(k as int + 1).drop_last() =~= events@.take(k as int));
            k = k + 1;
        }
        assert(events@.take(k as int) =~= events@);
    }

    /// The parameter values by id, as they go into the plugin's state.
    pub fn saved_params(&self) -> (ps: Vec<(u32, Bits)>)
        requires
            self.wf(),
        ensures
            ps@ == saved_values(self@.values),
    {
        let mut ps: Vec<(u32, Bits)> = Vec::new();
        let ghost all = saved_values(self@.values);
        let mut i: usize = 0;
        while i < self.values.len()
            invariant
                i <= self.values@.len(),
                self.wf(),
                all == saved_values(self@.values),
                ps@ == all.take(i as int),
            decreases self.values@.len() - i,
        {
            match descriptor(i) {
                Some(p) => {
                    ps.push((p.id, self.values[i]));
                },
                None => {},
            }
            i = i + 1;
            assert(ps@ =~= all.take(i as int));
        }
        assert(all.take(i as int) =~= all);
        ps
    }

    /// Take over a loaded state.
    pub fn load(&mut self, patch: Patch, params: &[(u32, Bits)])
        requires
            old(self).wf(),
        ensures
            final(self).wf(),
            final(self)@ == (SharedModel {
                values: with_values(old(self)@.values, params@),
                patch: patch@,
                ..old(self)@
            }),
    {
        self.set_patch(patch);
        self.handle_param_events(params);
    }

    /// The patch being played.
    pub fn patch(&self) -> (p: &Patch)
        ensures
            p@ == self@.patch,
    {
        &self.patch
    }

    /// Replace the patch.
    pub fn set_patch(&mut self, patch: Patch)
        ensures
            final(self)@ == (SharedModel { patch: patch@, ..old(self)@ }),
    {
        self.patch = patch;
    }

    /// Set the latency that is reported to the host.
    pub fn set_latency_samples(&mut self, n: u32)
        ensures
            final(self)@ == (SharedModel { latency_samples: n, ..old(self)@ }),
    {
        self.latency_samples = n;
    }

    /// The latency that is reported to the host.
    pub fn latency_samples(&self) -> (n: u32)
        ensures
            n == self@.latency_samples,
    {
        self.latency_samples
    }
}

/// A player after it took over the parameter values: macros, morph position,
/// gains and bypass. The morph speed stays the patch's own.
pub open spec fn with_params(p: PlayerModel, values: Seq<Bits>) -> PlayerModel {
    PlayerModel {
        macros: MacroMapModel {
            positions: Seq::new(NUM_MACROS as nat, |i: int| unit_clamped(values[i])),
            ..p.macros
        },
        morph_t: unit_clamped(values[6]),
        input_gain_db: values[8],
        master_volume_db: values[9],
        bypassed: lt(BITS_HALF, values[10]),
        ..p
    }
}

/// Push the parameter values into a player.
pub fn apply_params(shared: &GraphShared, player: &mut PatchPlayer)
    requires
        shared.wf(),
    ensures
        final(player).plan == old(player).plan,
        final(player)@ == with_params(old(player)@, shared@.values),
{
    let ghost values = shared@.values;
    proof {
        knobs_are_six(player.macros);
    }
    let mut i: usize = 0;
    while i < NUM_MACROS
        invariant
            i <= NUM_MACROS,
            shared.wf(),
            values == shared@.values,
            player.plan == old(player).plan,
            player@.macros.positions.len() == NUM_MACROS,
            forall|j: int|
                0 <= j < i ==> #[trigger] player@.macros.positions[j] == unit_clamped(values[j]),
            player@ == (PlayerModel {
                macros: MacroMapModel {
                    positions: player@.macros.positions,
                    ..old(player)@.macros
                },
                ..old(player)@
            }),
        decreases NUM_MACROS - i,
    {
        proof {
            id_finds_its_parameter(i as int);
        }
        match index_by_id(ID_MACRO_BASE + i as u32) {
            Some(index) => match shared.get_value(index) {
                Some(v) => {
                    player.set_macro(i, v);
                },
                None => {},
            },
            None => {},
        }
        i = i + 1;
    }
    proof {
        id_finds_its_parameter(6);
        id_finds_its_parameter(8);
        id_finds_its_parameter(9);
        id_finds_its_parameter(10);
    }
    match value_of(shared, ID_MORPH_POS) {
        Some(v) => {
            player.set_morph_position(v);
        },
        None => {},
    }
    match value_of(shared, ID_INPUT_GAIN) {
        Some(v) => {
            player.set_input_gain_db(v);
        },
        None => {},
    }
    match value_of(shared, ID_MASTER_VOLUME) {
        Some(v) => {
            player.set_master_volume_db(v);
        },
        None => {},
    }
    match value_of(shared, ID_BYPASS) {
        Some(v) => {
            player.set_bypassed(bits_lt(BITS_HALF, v));
        },
        None => {},
    }
    assert(player@.macros.positions =~= with_params(old(player)@, values).macros.positions);
}

/// The value of the parameter with an id, if there is one.
pub fn value_of(shared: &GraphShared, id: u32) -> (r: Option<Bits>)
    requires
        shared.wf(),
    ensures
        r == (if param_with_id(id) < GRAPH_PARAM_COUNT {
            Some(shared@.values[param_with_id(id)])
        } else {
            None
        }),
{
    match index_by_id(id) {
        Some(i) => shared.get_value(i),
        None => None,
    }
}

/// A state that was saved loads back: whatever the values were before, they are
/// then those that were saved.
pub proof fn saved_state_loads_back(values: Seq<Bits>, other: Seq<Bits>)
    requires
        held(values),
        held(other),
    ensures
        with_values(other, saved_values(values)) == values,
{
    let saved = saved_values(values);
    loads_back_up_to(values, other, GRAPH_PARAM_COUNT as nat);
    assert(saved.take(GRAPH_PARAM_COUNT as int) =~= saved);
    assert(with_values(other, saved) =~= values);
}

proof fn loads_back_up_to(values: Seq<Bits>, other: Seq<Bits>, n: nat)
    requires
        held(values),
        held(other),
        n <= GRAPH_PARAM_COUNT,
    ensures
        with_values(other, saved_values(values).take(n as int)) == values.take(n as int)
            + other.skip(n as int),
    decreases n,
{
    let saved = saved_values(values);
    if n == 0 {
        assert(with_values(other, saved.take(0)) =~= values.take(0) + other.skip(0));
    } else {
        loads_back_up_to(values, other, (n - 1) as nat);
        assert(saved.take(n as int).drop_last() =~= saved.take(n - 1));
        id_finds_its_parameter(n - 1);
        assert(saved.take(n as int).last() == (graph_param(n - 1).id, values[n - 1]));
        assert(with_values(other, saved.take(n as int)) =~= values.take(n as int) + other.skip(
            n as int,
        ));
    }
}

/// The parameters of the plugin: the ids by which a host knows them, and their
/// ranges.
pub proof fn what_the_parameters_are()
    ensures
        graph_params().len() == 11,
        forall|i: int|
            0 <= i < 6 ==> (#[trigger] graph_params()[i]).id == 0x1000 + i && graph_params()[i].min
                == 0 && graph_params()[i].max == 0x3F80_0000 && graph_params()[i].default == 0,
        graph_params()[6].id == 0x1010 && graph_params()[6].min == 0 && graph_params()[6].max
            == 0x3F80_0000 && graph_params()[6].default == 0,
        graph_params()[7].id == 0x1011 && graph_params()[7].min == 0x3DCC_CCCD
            && graph_params()[7].max == 0x4120_0000 && graph_params()[7].default == 0x4000_0000,
        graph_params()[8].id == 0x1020 && graph_params()[8].min == 0xC1C0_0000
            && graph_params()[8].max == 0x41C0_0000 && graph_params()[8].default == 0,
        graph_params()[9].id == 0x1021 && graph_params()[9].min == 0xC220_0000
            && graph_params()[9].max == 0x40C0_0000 && graph_params()[9].default == 0,
        default_values().len() == 11,
        forall|i: int|
            0 <= i < 11 ==> #[trigger] default_values()[i] == graph_params()[i].default,
        graph_params()[10].id == 0x1030 && graph_params()[10].min == 0 && graph_params()[10].max
            == 0x3F80_0000 && graph_params()[10].default == 0,
{
}

/// An event sets the parameter that it names, and no other: to its value where that
/// is in range, to the nearer end of the range where it is not. An event that names
/// no parameter does nothing.
pub proof fn an_event_sets_one_parameter(values: Seq<Bits>, id: u32, v: Bits, i: int)
    requires
        values.len() == 11,
        0 <= i < 11,
    ensures
        ({
            let after = with_values(values, seq![(id, v)]);
            let p = graph_params()[i];
            &&& after.len() == 11
            &&& id != p.id ==> after[i] == values[i]
            &&& id == p.id && le(p.min, v) && le(v, p.max) ==> after[i] == v
            &&& id == p.id && lt(v, p.min) ==> after[i] == p.min
            &&& id == p.id && lt(p.max, v) ==> after[i] == p.max
        }),
{
    let events = seq![(id, v)];
    assert(events.drop_last() =~= Seq::empty());
    assert(with_values(values, events.drop_last()) == values);
    assert(events.last() == (id, v));
    id_finds_its_parameter(i);
    let j = param_with_id(id);
    if 0 <= j < GRAPH_PARAM_COUNT {
        assert(graph_param(j).id == id);
    }
    ranges_are_ordered(i);
}

/// Events take effect one after the other: the last that names a parameter decides.
pub proof fn events_take_effect_in_order(
    values: Seq<Bits>,
    one: Seq<(u32, Bits)>,
    two: Seq<(u32, Bits)>,
)
    ensures
        with_values(values, one + two) == with_values(with_values(values, one), two),
        with_values(values, Seq::empty()) == values,
    decreases two.len(),
{
    if two.len() == 0 {
        assert(one + two =~= one);
    } else {
        let all = one + two;
        assert(all.drop_last() =~= one + two.drop_last());
        assert(all.last() == two.last());
        events_take_effect_in_order(values, one, two.drop_last());
    }
}

/// Each parameter drives its own control of the player: the macros their knobs, the
/// morph position, the gain and the volume; the bypass switch is on above the
/// middle. What the patch binds and morphs, and the morph speed, stay.
pub proof fn parameters_drive_their_controls(p: PlayerModel, values: Seq<Bits>, i: int)
    requires
        values.len() == 11,
        0 <= i < 6,
    ensures
        ({
            let after = with_params(p, values);
            &&& after.macros.positions.len() == 6
            &&& values[i] <= 0x3F80_0000 ==> after.macros.positions[i] == values[i]
            &&& values[6] <= 0x3F80_0000 ==> after.morph_t == values[6]
            &&& after.input_gain_db == values[8]
            &&& after.master_volume_db == values[9]
            &&& 0x3F00_0000 < values[10] <= 0x7F80_0000 ==> after.bypassed
            &&& values[10] <= 0x3F00_0000 ==> !after.bypassed
            &&& after.macros.mappings == p.macros.mappings
            &&& after.morph == p.morph
            &&& after.morph_speed == p.morph_speed
        }),
{
}

/// What a state holds is every value under the id of its parameter.
pub proof fn a_state_holds_every_value(values: Seq<Bits>, i: int)
    requires
        values.len() == 11,
        0 <= i < 11,
    ensures
        saved_values(values).len() == 11,
        saved_values(values)[i].0 == graph_params()[i].id,
        saved_values(values)[i].1 == values[i],
{
}

} // verus!
