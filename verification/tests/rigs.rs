//! Building and playing rigs: engine plans, players, the plugin, sessions,
//! macros and the A/B morph.
use sonido::autoassign::{auto_assign_macros, SlotParam};
use sonido::bits::{bits_clamp, bits_le, bits_lt, bits_max};
use sonido::engine::{build_graph_from_patch, EngineNode, PatchBuildError};
use sonido::macros::{
    defs_to_macro_map, handle_macro_action, macro_map_to_defs, MacroAction, MacroMap, MacroMapping,
};
use sonido::morph::{MorphEnd, MorphState, SlotSnapshot, SlotWrite};
use sonido::params::ParamInfo;
use sonido::patch::{
    GlobalParam, MacroDef, MacroMappingSpec, MacroTarget, MorphConfig, MorphCurve, Patch,
    PatchEdge, PatchEndpoint, PatchNode, NUM_MACROS,
};
use sonido::plugin::{
    apply_params, graph_param_descriptors, index_by_id, GraphShared, ID_BYPASS, ID_MACRO_BASE,
    ID_MASTER_VOLUME,
};
use sonido::runtime::{ParamWrite, PatchPlayer};
use sonido::session::{EffectState, Session, SessionNode, SessionNodeEntry};
use std::collections::HashMap;

const DISTORTION: u16 = 1;
const DELAY: u16 = 6;
const REVERB: u16 = 11;
const KNOWN: [u16; 3] = [DISTORTION, DELAY, REVERB];

fn b(x: f32) -> u32 {
    x.to_bits()
}

fn f(x: u32) -> f32 {
    f32::from_bits(x)
}

fn bs(xs: &[f32]) -> Vec<u32> {
    xs.iter().map(|x| x.to_bits()).collect()
}

fn chain(name: &str, nodes: Vec<PatchNode>) -> Patch {
    Patch::linear_chain(name.to_string(), nodes)
}

// --- Engine plans ---

#[test]
fn builds_linear_chain_and_runs() {
    let patch = chain(
        "chain",
        vec![PatchNode::new(DISTORTION, bs(&[20.0])), PatchNode::new(DELAY, vec![])],
    );
    let plan = build_graph_from_patch(&patch, &KNOWN).unwrap();
    assert_eq!(plan.setup.len(), 2);
    assert_eq!(
        plan.nodes,
        vec![
            EngineNode::Input,
            EngineNode::Output,
            EngineNode::Effect(DISTORTION),
            EngineNode::Effect(DELAY),
        ]
    );
    assert_eq!(plan.edges, vec![(0, 2), (2, 3), (3, 1)]);
    assert_eq!(plan.setup[0].values, bs(&[20.0]));
    assert_eq!(plan.conclude(None), Ok(()));
}

#[test]
fn builds_parallel_split_merge_and_runs() {
    let mut patch = Patch::new("parallel".to_string());
    patch.nodes = vec![PatchNode::new(DELAY, vec![]), PatchNode::new(REVERB, vec![])];
    patch.edges = vec![
        PatchEdge::new(PatchEndpoint::Input, PatchEndpoint::Split(0)),
        PatchEdge::new(PatchEndpoint::Split(0), PatchEndpoint::Node(0)),
        PatchEdge::new(PatchEndpoint::Split(0), PatchEndpoint::Node(1)),
        PatchEdge::new(PatchEndpoint::Node(0), PatchEndpoint::Merge(0)),
        PatchEdge::new(PatchEndpoint::Node(1), PatchEndpoint::Merge(0)),
        PatchEdge::new(PatchEndpoint::Merge(0), PatchEndpoint::Output),
    ];
    let plan = build_graph_from_patch(&patch, &KNOWN).unwrap();
    assert_eq!(plan.setup.len(), 2);
    assert_eq!(plan.nodes[4..], [EngineNode::Split, EngineNode::Merge]);
    assert_eq!(plan.edges, vec![(0, 4), (4, 2), (4, 3), (2, 5), (3, 5), (5, 1)]);
    assert_eq!(plan.conclude(None), Ok(()));
}

#[test]
fn unknown_effect_is_reported() {
    let mut patch = Patch::new("bad".to_string());
    patch.nodes = vec![PatchNode::new(60000, vec![])];
    patch.edges = vec![PatchEdge::new(PatchEndpoint::Input, PatchEndpoint::Output)];
    let result = build_graph_from_patch(&patch, &KNOWN);
    assert!(matches!(result, Err(PatchBuildError::UnknownEffect(60000))));
    assert_eq!(
        PatchBuildError::UnknownEffect(60000).message(),
        "effect UID 60000 is not available"
    );
}

#[test]
fn dangling_edge_is_reported() {
    let mut patch = Patch::new("dangle".to_string());
    patch.nodes = vec![PatchNode::new(DELAY, vec![])];
    patch.edges = vec![PatchEdge::new(PatchEndpoint::Input, PatchEndpoint::Node(5))];
    let plan = build_graph_from_patch(&patch, &KNOWN).unwrap();
    assert!(matches!(plan.conclude(None), Err(PatchBuildError::BadEndpoint)));
    // The engine's own complaint about an earlier edge comes first.
    let refused = plan.conclude(Some("cycle".to_string())).unwrap_err();
    assert_eq!(refused.message(), "graph error: cycle");
}

// --- Players ---

#[test]
fn builds_and_runs() {
    let patch = chain("r", vec![PatchNode::new(DISTORTION, bs(&[20.0]))]);
    let p = PatchPlayer::from_patch(&patch, &KNOWN).unwrap();
    assert_eq!(p.slot_count(), 1);
}

fn mapping(target: MacroTarget, min: f32, max: f32) -> MacroMappingSpec {
    MacroMappingSpec { target, min: b(min), max: b(max), curve: MorphCurve::Linear }
}

/// What each mapping comes to at its knob's position, on a linear curve.
fn resolve(p: &PatchPlayer) -> Vec<u32> {
    p.macros
        .mappings()
        .iter()
        .map(|m| {
            let t = f(p.macros.position(m.macro_index));
            b(f(m.min) + (f(m.max) - f(m.min)) * t)
        })
        .collect()
}

#[test]
fn macro_drives_a_parameter() {
    let mut patch = chain("m", vec![PatchNode::new(DISTORTION, bs(&[0.0]))]);
    patch.macros[0].mappings.push(mapping(MacroTarget::Slot { slot: 0, param: 0 }, 0.0, 40.0));
    let mut p = PatchPlayer::from_patch(&patch, &KNOWN).unwrap();
    p.set_macro(0, b(1.0));
    let values = resolve(&p);
    let writes = p.apply_controls(&values);
    assert_eq!(writes, vec![ParamWrite { slot: 0, param: 0, value: b(40.0) }]);
}

#[test]
fn macro_targets_master_volume_global() {
    let mut patch = chain("g", vec![PatchNode::new(DISTORTION, bs(&[8.0]))]);
    patch.macros[1]
        .mappings
        .push(mapping(MacroTarget::Global(GlobalParam::MasterVolume), 0.0, -40.0));
    let mut p = PatchPlayer::from_patch(&patch, &KNOWN).unwrap();
    p.set_macro(1, b(1.0));
    let values = resolve(&p);
    assert!(p.apply_controls(&values).is_empty());
    assert!((f(p.master_volume_db) - (-40.0)).abs() < 1e-3);
}

#[test]
fn morph_interpolates_between_a_and_b() {
    let mut patch = chain("mo", vec![PatchNode::new(DISTORTION, bs(&[0.0]))]);
    patch.nodes[0].params_a = bs(&[0.0]);
    patch.nodes[0].params_b = bs(&[40.0]);
    let mut p = PatchPlayer::from_patch(&patch, &KNOWN).unwrap();
    p.set_morph_position(b(0.5));
    let values = resolve(&p);
    p.apply_controls(&values);
    assert!((f(p.morph_position()) - 0.5).abs() < 1e-6);
    let (a, z) = (f(p.morph[0].a[0]), f(p.morph[0].b[0]));
    assert_eq!(a + (z - a) * f(p.morph_position()), 20.0);
}

#[test]
fn bypass_passes_through() {
    let patch = chain("b", vec![PatchNode::new(DISTORTION, bs(&[40.0]))]);
    let mut p = PatchPlayer::from_patch(&patch, &KNOWN).unwrap();
    assert!(!p.bypassed);
    p.set_bypassed(true);
    assert!(p.bypassed);
}

#[test]
fn macro_driven_morph_position_is_held() {
    let mut patch = chain("h", vec![]);
    patch.macros[0]
        .mappings
        .push(mapping(MacroTarget::Global(GlobalParam::MorphPosition), 0.0, 3.0));
    let mut p = PatchPlayer::from_patch(&patch, &KNOWN).unwrap();
    p.set_macro(0, b(2.0));
    assert_eq!(p.macros.position(0), b(1.0));
    let values = resolve(&p);
    p.apply_controls(&values);
    assert_eq!(p.morph_position(), b(1.0));
    p.set_morph_position(b(-4.0));
    assert_eq!(p.morph_position(), b(0.0));
    p.set_input_gain_db(b(3.0));
    p.set_master_volume_db(b(-3.0));
    assert_eq!((p.input_gain_db, p.master_volume_db), (b(3.0), b(-3.0)));
}

// --- Plugin ---

fn patch_with_distortion() -> Patch {
    chain("test", vec![PatchNode::new(DISTORTION, bs(&[20.0]))])
}

#[test]
fn descriptors_are_stable_and_unique() {
    let descs = graph_param_descriptors();
    assert_eq!(descs.len(), NUM_MACROS + 5);
    let mut ids: Vec<u32> = descs.iter().map(|d| d.id).collect();
    ids.sort_unstable();
    ids.dedup();
    assert_eq!(ids.len(), NUM_MACROS + 5, "duplicate param id");
    assert_eq!((f(descs[7].min), f(descs[7].max), f(descs[7].default)), (0.1, 10.0, 2.0));
    assert_eq!((f(descs[8].min), f(descs[8].max)), (-24.0, 24.0));
    assert_eq!((f(descs[9].min), f(descs[9].max)), (-40.0, 6.0));
}

#[test]
fn shared_defaults_and_patch_roundtrip() {
    let mut shared = GraphShared::new();
    assert_eq!(shared.param_count(), NUM_MACROS + 5);
    shared.set_patch(patch_with_distortion());
    assert_eq!(*shared.patch(), patch_with_distortion());
}

#[test]
fn state_roundtrip_preserves_patch_and_params() {
    let mut shared = GraphShared::new();
    shared.set_patch(patch_with_distortion());
    let m0 = index_by_id(ID_MACRO_BASE).unwrap();
    let mv = index_by_id(ID_MASTER_VOLUME).unwrap();
    shared.set_value(m0, b(0.75));
    shared.set_value(mv, b(-6.0));
    let params = shared.saved_params();
    let mut shared2 = GraphShared::new();
    shared2.load(shared.patch().clone(), &params);
    assert_eq!(shared2.patch(), shared.patch());
    assert_eq!(shared2.get_value(m0).unwrap(), b(0.75));
    assert_eq!(shared2.get_value(mv).unwrap(), b(-6.0));
}

#[test]
fn parameters_are_held_and_pushed_into_the_player() {
    let mut shared = GraphShared::new();
    shared.handle_param_events(&[
        (ID_MACRO_BASE + 2, b(7.0)),
        (ID_BYPASS, b(0.6)),
        (ID_MASTER_VOLUME, b(100.0)),
        (0xDEAD, b(1.0)),
    ]);
    assert_eq!(shared.get_value(2), Some(b(1.0)));
    assert_eq!(shared.get_value(9), Some(b(6.0)));
    assert_eq!(shared.get_value(11), None);
    assert_eq!(index_by_id(0xDEAD), None);
    let mut p = PatchPlayer::from_patch(&patch_with_distortion(), &KNOWN).unwrap();
    apply_params(&shared, &mut p);
    assert_eq!(p.macros.position(2), b(1.0));
    assert_eq!(p.master_volume_db, b(6.0));
    assert!(p.bypassed);
    shared.set_latency_samples(32);
    assert_eq!(shared.latency_samples(), 32);
}

// --- Sessions ---

fn uids() -> Vec<(String, u16)> {
    vec![
        ("distortion".to_string(), DISTORTION),
        ("delay".to_string(), DELAY),
        ("reverb".to_string(), REVERB),
    ]
}

fn no_macros() -> [MacroDef; NUM_MACROS] {
    std::array::from_fn(|_| MacroDef::default())
}

fn entry(node: SessionNode, x: f32, y: f32) -> SessionNodeEntry {
    SessionNodeEntry { node, pos: [b(x), b(y)] }
}

fn effect(id: &str) -> SessionNode {
    SessionNode::Effect { effect_id: id.to_string() }
}

fn session(
    nodes: Vec<SessionNodeEntry>,
    wires: Vec<(usize, usize, usize, usize)>,
    params: HashMap<usize, EffectState>,
) -> Session {
    Session {
        version: Session::VERSION,
        nodes,
        wires,
        params,
        input_gain: b(0.0),
        master_volume: b(-3.0),
        macros: no_macros(),
        macro_positions: [0; NUM_MACROS],
        morph: MorphConfig::default(),
        morph_position: b(0.0),
    }
}

#[test]
fn to_patch_builds_canonical() {
    let mut params = HashMap::new();
    params.insert(
        1,
        EffectState {
            effect_id: "reverb".into(),
            params: bs(&[0.5, 0.7, 0.3]),
            params_b: bs(&[0.9, 0.2, 0.8]),
            bypassed: false,
        },
    );
    let s = session(
        vec![
            entry(SessionNode::Input, 100.0, 200.0),
            entry(effect("reverb"), 300.0, 200.0),
            entry(SessionNode::Output, 500.0, 200.0),
        ],
        vec![(0, 0, 1, 0), (1, 0, 2, 0)],
        params,
    );
    let patch = s.to_patch("My Rig".to_string(), &uids());
    assert_eq!(patch.name, "My Rig");
    assert_eq!(patch.nodes.len(), 1);
    assert_eq!(patch.nodes[0].effect_uid, REVERB);
    assert_eq!(patch.nodes[0].params_a, bs(&[0.5, 0.7, 0.3]));
    assert_eq!(patch.nodes[0].params_b, bs(&[0.9, 0.2, 0.8]));
    assert_eq!(patch.edges.len(), 2);
    assert!(matches!(patch.edges[0].from, PatchEndpoint::Input));
    assert!(matches!(patch.edges[0].to, PatchEndpoint::Node(0)));
    assert!(matches!(patch.edges[1].to, PatchEndpoint::Output));
    assert_eq!(patch.globals.master_volume_db, b(-3.0));
}

#[test]
fn to_patch_maps_split_merge_ids() {
    let s = session(
        vec![
            entry(SessionNode::Input, 0.0, 0.0),
            entry(SessionNode::Split, 0.0, 0.0),
            entry(effect("delay"), 0.0, 0.0),
            entry(effect("reverb"), 0.0, 0.0),
            entry(SessionNode::Merge, 0.0, 0.0),
            entry(SessionNode::Output, 0.0, 0.0),
        ],
        vec![
            (0, 0, 1, 0),
            (1, 0, 2, 0),
            (1, 1, 3, 0),
            (2, 0, 4, 0),
            (3, 0, 4, 1),
            (4, 0, 5, 0),
        ],
        HashMap::new(),
    );
    let patch = s.to_patch("parallel".to_string(), &uids());
    assert_eq!(patch.nodes.len(), 2);
    assert!(patch.edges.iter().any(|e| matches!(e.to, PatchEndpoint::Split(0))));
    assert!(patch.edges.iter().any(|e| matches!(e.to, PatchEndpoint::Merge(0))));
    let plan = build_graph_from_patch(&patch, &KNOWN).unwrap();
    assert!(!plan.dangling);
}

#[test]
fn unlisted_effects_get_no_uid_and_stray_wires_no_edge() {
    let s = session(
        vec![entry(SessionNode::Input, 0.0, 0.0), entry(effect("mystery"), 0.0, 0.0)],
        vec![(0, 0, 1, 0), (1, 0, 9, 0)],
        HashMap::new(),
    );
    let patch = s.to_patch("p".to_string(), &uids());
    assert_eq!(patch.nodes[0].effect_uid, 0);
    assert_eq!(patch.edges.len(), 1);
}

#[test]
fn b_mirrors_a_where_none_was_stored() {
    let state = EffectState {
        effect_id: "distortion".into(),
        params: bs(&[8.0, 0.0, 0.0]),
        params_b: vec![],
        bypassed: false,
    };
    assert_eq!(state.snapshot_b(), bs(&[8.0, 0.0, 0.0]));
}

#[test]
fn session_restores_slots_and_performance() {
    let mut params = HashMap::new();
    params.insert(
        1,
        EffectState {
            effect_id: "delay".into(),
            params: bs(&[1.0]),
            params_b: bs(&[2.0]),
            bypassed: true,
        },
    );
    let mut s = session(
        vec![
            entry(SessionNode::Input, 0.0, 0.0),
            entry(effect("delay"), 0.0, 0.0),
            entry(effect("reverb"), 0.0, 0.0),
        ],
        vec![],
        params,
    );
    s.morph_position = b(4.0);
    s.morph.set_locked(0, true);
    s.macro_positions[3] = b(0.25);
    let writes = s.slot_writes();
    assert_eq!(writes.len(), 1);
    assert_eq!((writes[0].slot, writes[0].bypassed), (0, true));
    assert_eq!(writes[0].values, bs(&[1.0]));
    let perf = s.restore_performance();
    assert_eq!(perf.map.position(3), b(0.25));
    assert!(perf.active);
    assert_eq!(perf.t, b(1.0));
    assert_eq!(perf.locks, vec![true]);
    assert_eq!(perf.morph_a.slots[0].values, bs(&[1.0]));
    assert_eq!(perf.morph_b.slots[0].values, bs(&[2.0]));
}

#[test]
fn macro_map_roundtrips_through_defs() {
    let mut map = MacroMap::new();
    map.add_mapping(MacroMapping {
        macro_index: 0,
        target: MacroTarget::Slot { slot: 0, param: 2 },
        min: b(0.0),
        max: b(10.0),
        curve: MorphCurve::Linear,
    });
    map.add_mapping(MacroMapping {
        macro_index: 0,
        target: MacroTarget::Slot { slot: 1, param: 0 },
        min: b(100.0),
        max: b(8000.0),
        curve: MorphCurve::Logarithmic,
    });
    map.add_mapping(MacroMapping {
        macro_index: 2,
        target: MacroTarget::Global(GlobalParam::MasterVolume),
        min: b(6.0),
        max: b(-40.0),
        curve: MorphCurve::Linear,
    });
    let mut names: [String; NUM_MACROS] = std::array::from_fn(|_| String::new());
    names[0] = "Grit".into();
    names[2] = "Volume".into();

    let defs = macro_map_to_defs(&map, &names);
    assert_eq!(defs[0].name, "Grit");
    assert_eq!(defs[0].mappings.len(), 2);
    assert_eq!(defs[2].mappings.len(), 1);
    assert!(!defs[1].is_active());

    let (back, back_names) = defs_to_macro_map(&defs);
    assert_eq!(back_names, names);
    assert_eq!(back.mappings().len(), 3);
    for original in map.mappings() {
        assert!(
            back.mappings().iter().any(|m| m == original),
            "mapping {original:?} lost in roundtrip"
        );
    }
}

#[test]
fn menu_actions_bind_exclusively() {
    let mut map = MacroMap::new();
    let drive = drive();
    let bind = |macro_index| MacroAction::Bind { slot: 1, param: 2, macro_index };
    handle_macro_action(&mut map, bind(0), Some(&drive));
    handle_macro_action(&mut map, bind(3), Some(&drive));
    assert_eq!(map.mapping_count(), 1);
    assert_eq!(map.mappings()[0].macro_index, 3);
    assert_eq!((f(map.mappings()[0].min), f(map.mappings()[0].max)), (0.0, 40.0));
    map.set_target_range(MacroTarget::Slot { slot: 1, param: 2 }, b(5.0), b(1.0));
    assert_eq!(f(map.mappings()[0].min), 5.0);
    handle_macro_action(&mut map, MacroAction::Clear { slot: 1, param: 2 }, None);
    assert_eq!(map.mapping_count(), 0);
    handle_macro_action(&mut map, bind(1), None);
    assert_eq!(f(map.mappings()[0].max), 1.0);
    map.clear_macro(1);
    assert_eq!(map.mapping_count_for(1), 0);
}

// --- Automatic assignment ---

fn param(name: &str, short: &str, min: f32, max: f32) -> ParamInfo {
    ParamInfo {
        name: name.to_string(),
        short_name: short.to_string(),
        min: b(min),
        max: b(max),
        default: b(min),
        stepped: false,
        read_only: false,
        hidden: false,
        macro_exclude: false,
        curve: MorphCurve::Linear,
    }
}

fn drive() -> ParamInfo {
    param("Drive", "Drive", 0.0, 40.0)
}

fn mix() -> ParamInfo {
    param("Mix", "Mix", 0.0, 100.0)
}

fn position_of(info: &ParamInfo, value: f32) -> u32 {
    let (min, max) = (f(info.min), f(info.max));
    let t = match info.curve {
        MorphCurve::Logarithmic => (value / min).ln() / (max / min).ln(),
        _ => (value - min) / (max - min),
    };
    b(t.clamp(0.0, 1.0))
}

fn evaluate(m: &MacroMapping, pos: u32) -> f32 {
    let (min, max, t) = (f(m.min), f(m.max), f(pos));
    match m.curve {
        MorphCurve::Logarithmic => min * (max / min).powf(t),
        _ => min + (max - min) * t,
    }
}

fn slot(params: &[(ParamInfo, f32)]) -> Vec<SlotParam> {
    params
        .iter()
        .map(|(p, v)| SlotParam { info: Some(p.clone()), position: position_of(p, *v) })
        .collect()
}

#[test]
fn binds_first_musical_param_per_effect() {
    let a = auto_assign_macros(&vec![
        slot(&[(drive(), 8.0), (mix(), 50.0)]),
        slot(&[(mix(), 30.0), (mix(), 50.0)]),
    ]);
    assert_eq!(a.map.mapping_count(), 2);
    assert_eq!(a.overflow, 0);
    let m = a.map.mappings();
    assert!(m
        .iter()
        .any(|m| m.macro_index == 0 && m.target == MacroTarget::Slot { slot: 0, param: 0 }));
    assert!(m
        .iter()
        .any(|m| m.macro_index == 1 && m.target == MacroTarget::Slot { slot: 1, param: 0 }));
    assert_eq!(a.names[0], "Drive");
}

#[test]
fn skips_stepped_and_excluded_to_find_signature() {
    let mut stepped = param("Mode", "Mode", 0.0, 3.0);
    stepped.stepped = true;
    let mut excluded = param("Output", "Out", -20.0, 20.0);
    excluded.macro_exclude = true;
    let a = auto_assign_macros(&vec![slot(&[(stepped, 0.0), (excluded, 0.0), (drive(), 8.0)])]);
    assert_eq!(a.map.mapping_count(), 1);
    assert_eq!(a.map.mappings()[0].target, MacroTarget::Slot { slot: 0, param: 2 });
}

#[test]
fn effect_with_no_mappable_param_is_skipped_without_consuming_a_macro() {
    let mut stepped = param("Note", "Note", 0.0, 11.0);
    stepped.stepped = true;
    let a = auto_assign_macros(&vec![slot(&[(stepped, 0.0)]), slot(&[(drive(), 8.0)])]);
    assert_eq!(a.map.mapping_count(), 1);
    assert_eq!(a.map.mappings()[0].macro_index, 0);
    assert_eq!(a.map.mappings()[0].target, MacroTarget::Slot { slot: 1, param: 0 });
}

#[test]
fn position_reproduces_current_value_no_jump() {
    let a = auto_assign_macros(&vec![slot(&[(drive(), 8.0)])]);
    let pos = a.map.position(0);
    assert!((f(pos) - 0.2).abs() < 1e-4, "expected 0.2, got {}", f(pos));
    let back = evaluate(&a.map.mappings()[0], pos);
    assert!((back - 8.0).abs() < 1e-3, "round-trip gave {back}");
}

#[test]
fn logarithmic_position_inverts_geometrically() {
    let mut cutoff = param("Cutoff", "Cut", 20.0, 20_000.0);
    cutoff.curve = MorphCurve::Logarithmic;
    let a = auto_assign_macros(&vec![slot(&[(cutoff, 1_000.0)])]);
    let pos = a.map.position(0);
    let back = evaluate(&a.map.mappings()[0], pos);
    assert!((back - 1_000.0).abs() < 1.0, "log round-trip gave {back}");
}

#[test]
fn overflow_counts_effects_beyond_six() {
    let slots: Vec<Vec<SlotParam>> = (0..8).map(|_| slot(&[(drive(), 8.0)])).collect();
    let a = auto_assign_macros(&slots);
    assert_eq!(a.map.mapping_count(), 6);
    assert_eq!(a.overflow, 2);
}

// --- Morph ---

/// A rig that the morph reads and writes.
struct Rig {
    slots: Vec<SlotSnapshot>,
    log: bool,
}

impl Rig {
    fn new(slots: &[(&str, &[f32])]) -> Self {
        Rig {
            slots: slots
                .iter()
                .map(|(id, values)| SlotSnapshot {
                    effect_id: id.to_string(),
                    values: bs(values),
                    bypassed: false,
                })
                .collect(),
            log: false,
        }
    }

    fn get(&self, slot: usize, param: usize) -> f32 {
        f(self.slots[slot].values[param])
    }

    fn set(&mut self, slot: usize, param: usize, value: f32) {
        self.slots[slot].values[param] = b(value);
    }

    /// Interpolate and store what the morph asks for.
    fn take(&mut self, writes: Vec<SlotWrite>, t: f32) {
        for w in writes {
            for (i, (x, y)) in w.params.iter().enumerate() {
                let (x, y) = (f(*x), f(*y));
                let v = if self.log { x * (y / x).powf(t) } else { x + (y - x) * t };
                self.slots[w.slot].values[i] = b(v);
            }
            self.slots[w.slot].bypassed = w.bypassed;
        }
    }
}

fn park(m: &mut MorphState, end: MorphEnd, order: &Vec<usize>, rig: &mut Rig) {
    let writes = m.park_edit(end, order, &rig.slots);
    rig.take(writes, f(end.position()));
}

fn perform(m: &mut MorphState, t: f32, order: &Vec<usize>, rig: &mut Rig) {
    let writes = m.perform(b(t), order, &rig.slots);
    rig.take(writes, t);
}

/// The A and B values of a parameter, where they differ.
fn markers(m: &MorphState, key: usize, param: usize) -> Option<(f32, f32)> {
    m.endpoint_pair(key, param)
        .map(|(a, z)| (f(a), f(z)))
        .filter(|(a, z)| !((a - z).abs() < f32::EPSILON))
}

#[test]
fn sync_seeds_new_effects_flat() {
    let mut rig = Rig::new(&[("dist", &[10.0, 0.5])]);
    let order = vec![1];
    let mut m = MorphState::new();
    m.sync(&order, &rig.slots);
    assert!(!m.is_active());
    assert!(markers(&m, 1, 0).is_none());
    m.t = b(1.0);
    let writes = m.apply(&order, &rig.slots);
    rig.take(writes, 1.0);
    assert!((rig.get(0, 0) - 10.0).abs() < 1e-6);
}

#[test]
fn added_effect_joins_flat_and_does_not_move() {
    let mut rig = Rig::new(&[("dist", &[10.0]), ("verb", &[0.3])]);
    let order = vec![1, 2];
    let mut m = MorphState::new();
    m.sync(&order, &rig.slots);
    park(&mut m, MorphEnd::A, &order, &mut rig);
    rig.set(0, 0, 10.0);
    m.record(&order, &rig.slots);
    park(&mut m, MorphEnd::B, &order, &mut rig);
    rig.set(0, 0, 20.0);
    m.record(&order, &rig.slots);
    perform(&mut m, 0.5, &order, &mut rig);
    assert!((rig.get(0, 0) - 15.0).abs() < 1e-6);
    assert!((rig.get(1, 0) - 0.3).abs() < 1e-6);
    assert!(markers(&m, 2, 0).is_none());
    assert!(markers(&m, 1, 0).is_some());
}

#[test]
fn endpoints_follow_identity_across_reorder() {
    let mut rig = Rig::new(&[("dist", &[10.0]), ("verb", &[0.2])]);
    let order1 = vec![1, 2];
    let mut m = MorphState::new();
    m.sync(&order1, &rig.slots);
    park(&mut m, MorphEnd::B, &order1, &mut rig);
    rig.set(0, 0, 20.0);
    rig.set(1, 0, 0.9);
    m.record(&order1, &rig.slots);

    let mut other = Rig::new(&[("verb", &[0.0]), ("dist", &[0.0])]);
    let order2 = vec![2, 1];
    m.sync(&order2, &other.slots);
    perform(&mut m, 1.0, &order2, &mut other);
    assert!((other.get(0, 0) - 0.9).abs() < 1e-6);
    assert!((other.get(1, 0) - 20.0).abs() < 1e-6);
}

#[test]
fn removed_effect_is_dropped() {
    let rig = Rig::new(&[("dist", &[1.0])]);
    let mut m = MorphState::new();
    m.sync(&vec![1, 2], &rig.slots);
    assert!(markers(&m, 2, 0).is_none());
    m.sync(&vec![1], &rig.slots);
    assert!(markers(&m, 2, 0).is_none());
    m.set_locked(2, true);
    m.sync(&vec![1], &rig.slots);
    assert!(!m.is_locked(2));
}

#[test]
fn park_edit_records_only_focused_pose() {
    let mut rig = Rig::new(&[("dist", &[5.0])]);
    let order = vec![1];
    let mut m = MorphState::new();
    m.sync(&order, &rig.slots);
    park(&mut m, MorphEnd::A, &order, &mut rig);
    rig.set(0, 0, 2.0);
    m.record(&order, &rig.slots);
    park(&mut m, MorphEnd::B, &order, &mut rig);
    rig.set(0, 0, 8.0);
    m.record(&order, &rig.slots);
    assert_eq!(markers(&m, 1, 0), Some((2.0, 8.0)));
    perform(&mut m, 0.5, &order, &mut rig);
    assert!((rig.get(0, 0) - 5.0).abs() < 1e-6);
}

#[test]
fn perform_does_not_corrupt_endpoints() {
    let mut rig = Rig::new(&[("dist", &[0.0])]);
    let order = vec![1];
    let mut m = MorphState::new();
    m.sync(&order, &rig.slots);
    park(&mut m, MorphEnd::A, &order, &mut rig);
    rig.set(0, 0, 0.0);
    m.record(&order, &rig.slots);
    park(&mut m, MorphEnd::B, &order, &mut rig);
    rig.set(0, 0, 10.0);
    m.record(&order, &rig.slots);
    perform(&mut m, 0.5, &order, &mut rig);
    m.record(&order, &rig.slots);
    assert_eq!(markers(&m, 1, 0), Some((0.0, 10.0)));
}

#[test]
fn grab_edit_captures_live_without_jump() {
    let rig = Rig::new(&[("dist", &[7.0])]);
    let order = vec![1];
    let mut m = MorphState::new();
    m.sync(&order, &rig.slots);
    m.grab_edit(MorphEnd::B, &order, &rig.slots);
    assert!((rig.get(0, 0) - 7.0).abs() < 1e-6);
    assert!(markers(&m, 1, 0).is_none());
    assert!(m.is_editing(MorphEnd::B));
}

#[test]
fn locked_effect_is_excluded_from_apply() {
    let mut rig = Rig::new(&[("dist", &[0.0])]);
    let order = vec![1];
    let mut m = MorphState::new();
    m.sync(&order, &rig.slots);
    park(&mut m, MorphEnd::B, &order, &mut rig);
    rig.set(0, 0, 10.0);
    m.record(&order, &rig.slots);
    m.set_locked(1, true);
    rig.set(0, 0, 3.0);
    perform(&mut m, 1.0, &order, &mut rig);
    assert!((rig.get(0, 0) - 3.0).abs() < 1e-6);
}

#[test]
fn apply_is_curve_aware_for_frequency() {
    let mut rig = Rig::new(&[("filter", &[100.0])]);
    rig.log = true;
    let order = vec![1];
    let mut m = MorphState::new();
    m.sync(&order, &rig.slots);
    park(&mut m, MorphEnd::A, &order, &mut rig);
    rig.set(0, 0, 100.0);
    m.record(&order, &rig.slots);
    park(&mut m, MorphEnd::B, &order, &mut rig);
    rig.set(0, 0, 10_000.0);
    m.record(&order, &rig.slots);
    perform(&mut m, 0.5, &order, &mut rig);
    assert!((rig.get(0, 0) - 1_000.0).abs() < 1.0);
}

#[test]
fn snapshot_restore_round_trip() {
    let mut rig = Rig::new(&[("dist", &[0.0]), ("verb", &[0.0, 0.0])]);
    let order = vec![1, 2];
    let mut m = MorphState::new();
    m.sync(&order, &rig.slots);
    park(&mut m, MorphEnd::A, &order, &mut rig);
    rig.set(0, 0, 1.0);
    rig.set(1, 0, 2.0);
    m.record(&order, &rig.slots);
    park(&mut m, MorphEnd::B, &order, &mut rig);
    rig.set(0, 0, 3.0);
    rig.set(1, 1, 4.0);
    m.record(&order, &rig.slots);
    let a = m.snapshot(MorphEnd::A, &order, &rig.slots);
    let z = m.snapshot(MorphEnd::B, &order, &rig.slots);
    let mut restored = MorphState::new();
    restored.restore(&order, &a, &z);
    assert_eq!(markers(&restored, 1, 0), markers(&m, 1, 0));
    assert_eq!(markers(&restored, 2, 1), markers(&m, 2, 1));
    assert!(restored.is_active());
}

// --- Floats by their bits ---

#[test]
fn bits_order_as_floats() {
    let xs = [f32::NEG_INFINITY, -1.5, -0.0, 0.0, 1e-40, 0.5, 2.0, f32::INFINITY, f32::NAN];
    for x in xs {
        for y in xs {
            assert_eq!(bits_lt(b(x), b(y)), x < y);
            assert_eq!(bits_le(b(x), b(y)), x <= y);
            assert!(f(bits_max(b(x), b(y))) == x.max(y) || (x.is_nan() && y.is_nan()));
        }
        if !x.is_nan() {
            assert_eq!(f(bits_clamp(b(x), b(-1.0), b(1.0))), x.clamp(-1.0, 1.0));
        }
    }
}
