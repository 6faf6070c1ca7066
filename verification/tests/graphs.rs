//! The graph editor.
use egui_snarl::ui::Viewport;
use egui_snarl::NodeId;
use sonido::capture::PerformanceCapture;
use sonido::compile::CompileError;
use sonido::graph::{nearest_of, splice_candidates, GraphView};
use sonido::menu::{graph_menu, is_found, text_holds, GraphMenu, MenuEffect};
use sonido::patch::{MacroDef, MorphConfig, NUM_MACROS};
use sonido::session::{EffectState, Session, SessionNode, SessionNodeEntry};
use sonido::snarl::{EffectCategory, SonidoNode, Wire};
use sonido::viewer::{node_meter_color, slot_level, EaseStep, IoAnchor};
use std::collections::HashMap;

fn b(x: f32) -> u32 {
    x.to_bits()
}

fn view() -> GraphView {
    GraphView::new(egui::pos2(100.0, 200.0), egui::pos2(500.0, 200.0))
}

fn effect(id: &str) -> SonidoNode {
    SonidoNode::Effect {
        effect_id: id.to_string(),
        name: id.to_uppercase(),
        category: EffectCategory::Distortion,
        descriptors: vec![],
    }
}

fn wire(from: usize, to: usize) -> Wire {
    Wire { from, output: 0, to, input: 0 }
}

fn feeders(gv: &GraphView, node: usize) -> Vec<usize> {
    let mut ids: Vec<usize> = gv
        .snarl
        .wires()
        .filter(|(_, inp)| inp.node == NodeId(node))
        .map(|(out, _)| out.node.0)
        .collect();
    ids.sort_unstable();
    ids
}

const INPUT: usize = 0;
const OUTPUT: usize = 1;

#[test]
fn restore_session_preserves_effect_order_for_morph_alignment() {
    let entry = |node| SessionNodeEntry { node, pos: [b(0.0), b(0.0)] };
    let fx = |id: &str| entry(SessionNode::Effect { effect_id: id.to_string() });
    let nodes = vec![
        entry(SessionNode::Input),
        fx("distortion"),
        fx("reverb"),
        fx("delay"),
        entry(SessionNode::Output),
    ];
    let mut params = HashMap::new();
    for (idx, id) in [(1usize, "distortion"), (2, "reverb"), (3, "delay")] {
        params.insert(
            idx,
            EffectState {
                effect_id: id.into(),
                params: vec![b(idx as f32)],
                params_b: vec![b(idx as f32 + 10.0)],
                bypassed: false,
            },
        );
    }
    let session = Session {
        version: Session::VERSION,
        nodes,
        wires: vec![],
        params,
        input_gain: b(0.0),
        master_volume: b(0.0),
        macros: std::array::from_fn(|_| MacroDef::default()),
        macro_positions: [0; NUM_MACROS],
        morph: MorphConfig::default(),
        morph_position: b(0.0),
    };
    let mut gv = view();
    let templates = vec![effect("delay"), effect("distortion"), effect("reverb")];
    gv.restore_session(&session, &vec![egui::pos2(0.0, 0.0); 5], &templates);
    let ids: Vec<String> = gv
        .effect_node_ids()
        .iter()
        .map(|id| match gv.snarl.get_node(NodeId(*id)) {
            Some(SonidoNode::Effect { effect_id, .. }) => effect_id.clone(),
            _ => "?".to_string(),
        })
        .collect();
    assert_eq!(ids, ["distortion", "reverb", "delay"]);
}

#[test]
fn add_button_appends_last_absorbing_output_feeders() {
    let mut gv = view();
    gv.disconnect(wire(INPUT, OUTPUT));
    let a = gv.snarl.insert_node(egui::pos2(0.0, 0.0), effect("distortion")).0;
    let d = gv.snarl.insert_node(egui::pos2(0.0, 0.0), effect("delay")).0;
    for n in [a, d] {
        gv.connect(wire(INPUT, n));
        gv.connect(wire(n, OUTPUT));
    }
    assert_eq!(feeders(&gv, OUTPUT).len(), 2, "two feeders into Output before the add");
    gv.add_effect_node(effect("reverb"), egui::pos2(300.0, 200.0));
    let x = gv.selected_node.expect("new node selected");
    assert_eq!(feeders(&gv, OUTPUT), vec![x], "added effect is the sole Output feeder");
    assert_eq!(feeders(&gv, x), vec![a, d], "both prior feeders now merge into the added effect");
}

#[test]
fn pin_io_nodes_welds_input_left_output_right() {
    let mut gv = view();
    assert_eq!(gv.io_anchor(true), IoAnchor::Walls);
    // An 800x400 canvas, no pan, unity scale: the pins sit 6 px inside its edges.
    let rect = egui::Rect::from_min_size(egui::pos2(0.0, 0.0), egui::vec2(800.0, 400.0));
    let vp = Viewport { rect, scale: 1.0, offset: egui::vec2(0.0, 0.0) };
    let y = rect.center().y;
    gv.pin_io_nodes(
        vp.screen_pos_to_graph(egui::pos2(rect.left() + 6.0, y)),
        vp.screen_pos_to_graph(egui::pos2(rect.right() - 6.0, y)),
    );
    let ip = gv.snarl.get_node_info(NodeId(INPUT)).unwrap().pos;
    let op = gv.snarl.get_node_info(NodeId(OUTPUT)).unwrap().pos;
    assert!(ip.x < op.x, "input sits left of output in graph space");
    assert!((vp.graph_pos_to_screen(ip).x - (rect.left() + 6.0)).abs() < 1.0);
    assert!((vp.graph_pos_to_screen(op).x - (rect.right() - 6.0)).abs() < 1.0);
}

#[test]
fn removing_last_node_keeps_output_connected() {
    let mut gv = view();
    gv.add_effect_node(effect("distortion"), egui::pos2(300.0, 200.0));
    assert_eq!(gv.effect_node_count(), 1);
    assert!(!feeders(&gv, OUTPUT).is_empty());
    let node = gv.effect_node_ids()[0];
    gv.remove_node(node);
    assert_eq!(gv.effect_node_count(), 0);
    assert_eq!(feeders(&gv, OUTPUT), vec![INPUT], "Output was orphaned");
    assert_eq!(gv.selected_node, None);
    // The freed id is taken again.
    assert_eq!(gv.add_effect_node(effect("delay"), egui::pos2(0.0, 0.0)), node);
}

#[test]
fn nodes_are_spliced_copied_and_unwired() {
    let mut gv = view();
    let id = gv.insert_spliced(effect("eq"), egui::pos2(300.0, 200.0), Some(wire(INPUT, OUTPUT)));
    assert_eq!(feeders(&gv, OUTPUT), vec![id]);
    assert_eq!(feeders(&gv, id), vec![INPUT]);
    let copy = gv.copy_node(id, egui::pos2(330.0, 230.0));
    assert_eq!(gv.selected_node, None);
    assert!(feeders(&gv, copy).is_empty());
    let twin = gv.duplicate_node(id, egui::pos2(330.0, 230.0));
    assert_eq!(gv.selected_node, Some(twin));
    assert_eq!(gv.selected_slot(), Some(2));
    assert!(gv.selected_is_effect());
    assert_eq!(gv.slot_of(copy), 1);
    gv.drop_inputs(OUTPUT, 0);
    assert!(feeders(&gv, OUTPUT).is_empty());
    gv.connect(wire(id, OUTPUT));
    gv.drop_outputs(id, 0);
    assert!(feeders(&gv, OUTPUT).is_empty());
    let appended = gv.insert_spliced(effect("wah"), egui::pos2(0.0, 0.0), None);
    assert_eq!(feeders(&gv, OUTPUT), vec![appended]);
}

#[test]
fn the_first_smallest_distance_is_nearest() {
    let ds: Vec<u32> = [f32::NAN, 3.0, 1.0, 1.0, f32::INFINITY].iter().map(|d| b(*d)).collect();
    assert_eq!(nearest_of(&ds), Some(2));
    assert_eq!(nearest_of(&ds[..1]), None);
    assert_eq!(nearest_of(&ds[4..]), None);
    let gv = view();
    assert_eq!(splice_candidates(&gv.snarl, 99), vec![wire(INPUT, OUTPUT)]);
    assert!(splice_candidates(&gv.snarl, OUTPUT).is_empty());
}

#[test]
fn presses_select_and_deselect() {
    let mut gv = view();
    let id = gv.add_effect_node(effect("eq"), egui::pos2(0.0, 0.0));
    gv.press_canvas(false, true, true, true);
    assert_eq!(gv.selected_node, Some(id));
    gv.press_canvas(false, true, false, true);
    assert_eq!(gv.selected_node, None);
    assert!(!gv.press_node(INPUT));
    assert!(gv.press_node(id));
    assert_eq!(gv.selected_node, Some(id));
}

#[test]
fn demo_chain_runs_from_input_to_output() {
    let mut gv = view();
    let ids = gv.populate_demo(vec![
        (effect("distortion"), egui::pos2(300.0, 200.0)),
        (effect("delay"), egui::pos2(520.0, 200.0)),
        (effect("reverb"), egui::pos2(740.0, 200.0)),
    ]);
    assert_eq!(ids.len(), 3);
    assert_eq!(feeders(&gv, ids[0]), vec![INPUT]);
    assert_eq!(feeders(&gv, ids[2]), vec![ids[1]]);
    assert_eq!(feeders(&gv, OUTPUT), vec![ids[2]]);
    assert_eq!(gv.selected_node, Some(ids[0]));
    assert_eq!(
        gv.io_anchor(false),
        IoAnchor::Around { left: ids[0], right: ids[2] }
    );
    let layout = gv.auto_arrange();
    assert_eq!(layout.placements.len(), 3);
}

#[test]
fn easing_settles_nodes() {
    let mut gv = view();
    assert_eq!(gv.io_anchor(false), IoAnchor::Fixed);
    let id = gv.add_effect_node(effect("eq"), egui::pos2(0.0, 0.0));
    let step = |node, near| EaseStep {
        node,
        target: egui::pos2(10.0, 20.0),
        part_way: egui::pos2(2.5, 5.0),
        near,
    };
    assert_eq!(gv.ease(&vec![step(id, false), step(99, false)]), vec![0]);
    assert_eq!(gv.snarl.get_node_info(NodeId(id)).unwrap().pos, egui::pos2(2.5, 5.0));
    assert!(gv.ease(&vec![step(id, true)]).is_empty());
    assert_eq!(gv.snarl.get_node_info(NodeId(id)).unwrap().pos, egui::pos2(10.0, 20.0));
}

#[test]
fn nodes_have_pins_and_titles() {
    assert_eq!((SonidoNode::Merge.inputs(), SonidoNode::Merge.outputs()), (8, 1));
    assert_eq!((SonidoNode::Split.inputs(), SonidoNode::Split.outputs()), (1, 8));
    assert_eq!((SonidoNode::Input.inputs(), SonidoNode::Output.outputs()), (0, 0));
    assert_eq!(SonidoNode::Split.title(), "Split");
    assert_eq!(effect("eq").title(), "EQ");
    assert!(effect("eq").has_body() && !SonidoNode::Merge.has_body());
    assert!(SonidoNode::Merge.has_node_menu() && !SonidoNode::Input.has_node_menu());
    assert_eq!(effect("eq").body_text().unwrap(), "0 params");
    assert_eq!(slot_level(&[1, 2], 5), 0);
    assert_eq!(format!("{:?}", node_meter_color(b(0.5))), "Yellow");
}

#[test]
fn compiling_needs_one_input_and_one_output() {
    let known = vec!["distortion".to_string()];
    let mut gv = view();
    gv.add_effect_node(effect("distortion"), egui::pos2(0.0, 0.0));
    let plan = gv.compile_to_engine(&known).unwrap();
    assert!(!plan.nodes.is_empty() && !plan.edges.is_empty());
    gv.add_effect_node(effect("mystery"), egui::pos2(0.0, 0.0));
    match gv.compile_to_engine(&known) {
        Err(CompileError::EffectCreation(id)) => assert_eq!(id, "mystery"),
        other => panic!("{other:?}"),
    }
    let mut bare = view();
    bare.remove_node(OUTPUT);
    assert!(matches!(bare.compile_to_engine(&known), Err(CompileError::NoOutput)));
    bare.remove_node(INPUT);
    assert!(matches!(bare.compile_to_engine(&known), Err(CompileError::NoInput)));
    let mut many = view();
    many.snarl.insert_node(egui::pos2(0.0, 0.0), SonidoNode::Output);
    assert!(matches!(many.compile_to_engine(&known), Err(CompileError::MultipleOutputs)));
    many.snarl.insert_node(egui::pos2(0.0, 0.0), SonidoNode::Input);
    let refused = many.compile_to_engine(&known).unwrap_err();
    assert_eq!(refused.message(), "graph has multiple Output nodes");
}

#[test]
fn sessions_survive_the_editor() {
    let mut gv = view();
    gv.add_effect_node(effect("distortion"), egui::pos2(300.0, 200.0));
    let rig = vec![sonido::morph::SlotSnapshot {
        effect_id: "distortion".to_string(),
        values: vec![b(8.0)],
        bypassed: true,
    }];
    let perf = PerformanceCapture {
        macros: std::array::from_fn(|_| MacroDef::default()),
        macro_positions: [0; NUM_MACROS],
        morph: MorphConfig::default(),
        morph_position: 0,
        morph_a: None,
        morph_b: None,
    };
    let s = gv.capture_session(&rig, b(1.0), b(-2.0), perf);
    assert_eq!(s.nodes.len(), 3);
    assert_eq!(s.wires.len(), 2);
    assert_eq!(s.nodes[2].pos, [b(300.0), b(200.0)]);
    let (_, state) = s.params.iter().next().unwrap();
    assert_eq!((state.params.clone(), state.bypassed), (vec![b(8.0)], true));
    let mut back = view();
    let positions: Vec<egui::Pos2> = s
        .nodes
        .iter()
        .map(|n| egui::pos2(f32::from_bits(n.pos[0]), f32::from_bits(n.pos[1])))
        .collect();
    back.restore_session(&s, &positions, &vec![effect("distortion")]);
    assert_eq!(back.effect_node_count(), 1);
    assert_eq!(back.snarl.wires().count(), 2);
}

#[test]
fn search_finds_effects_in_any_case() {
    let fx = |id: &str, name: &str, category| MenuEffect {
        id: id.to_string(),
        name: name.to_string(),
        category,
    };
    let effects = vec![
        fx("reverb", "Plate Reverb", EffectCategory::TimeBased),
        fx("delay", "Tape Echo", EffectCategory::TimeBased),
        fx("gate", "Noise Gate", EffectCategory::Dynamics),
    ];
    match graph_menu("ECHO", &effects) {
        GraphMenu::Found(found) => assert_eq!(found, vec![1]),
        other => panic!("{other:?}"),
    }
    match graph_menu("Ate", &effects) {
        GraphMenu::Found(found) => assert_eq!(found, vec![0, 2]),
        other => panic!("{other:?}"),
    }
    match graph_menu("", &effects) {
        GraphMenu::Categories(cats) => {
            assert_eq!(cats.len(), 6);
            assert_eq!(cats[0], (EffectCategory::Dynamics, vec![2]));
            assert_eq!(cats[4], (EffectCategory::TimeBased, vec![0, 1]));
        }
        other => panic!("{other:?}"),
    }
    assert!(text_holds("abc", "") && text_holds("abc", "bc") && !text_holds("abc", "ca"));
    assert!(is_found("x", "delay", "lay") && !is_found("x", "delay", "y "));
}
