//! Capturing the editor as a session, and restoring it from one.
use egui_snarl::Snarl;
use std::collections::HashMap;
use crate::compile::{
    closed_graph, ids_in, index_is_inverse, index_of, index_of_id, kind_of, kinds_in, list_nodes,
    listed_graph_is_closed, listed_has_rank, lists_nodes, lists_wires, rank_of_listed,
};
use crate::graph::{GraphView, NodeView, ascending_listing_is_unique, effects_of, is_chain};
use crate::morph::{MorphSnapshot, SlotModel, SlotSnapshot, live_at, slots_view};
use crate::params::indices_where;
use crate::patch::{Bits, MacroDef, MorphConfig, NUM_MACROS, macros_view};
use crate::session::{
    EffectState, NodeKind, Session, SessionNode, SessionNodeEntry, counts_step, effects_among,
    kinds_of,
};
use crate::snarl::{
    SonidoNode, Wire, ascending, connect, empty_snarl, insert_node, node_coords, pos_coords,
    snarl_nodes, snarl_places, snarl_vacant, snarl_wires, wires,
};
use vstd::prelude::*;
use vstd::std_specs::hash::group_hash_axioms;

verus! {

/// The macro and A/B-morph performance layer captured alongside the graph.
#[derive(Debug)]
pub struct PerformanceCapture {
    /// Six macro definitions in knob order.
    pub macros: [MacroDef; NUM_MACROS],
    /// Live macro knob positions.
    pub macro_positions: [Bits; NUM_MACROS],
    /// Morph behavior: speed, mode and per-slot locks.
    pub morph: MorphConfig,
    /// Current A-to-B crossfade position.
    pub morph_position: Bits,
    /// Pose A in slot order, or none where the live values stand for it.
    pub morph_a: Option<MorphSnapshot>,
    /// Pose B in slot order, or none where B mirrors A.
    pub morph_b: Option<MorphSnapshot>,
}

/// The mathematical value of an [`EffectState`].
#[verifier::ext_equal]
pub struct StateModel {
    pub effect_id: Seq<char>,
    pub params: Seq<Bits>,
    pub params_b: Seq<Bits>,
    pub bypassed: bool,
}

impl View for EffectState {
    type V = StateModel;

    open spec fn view(&self) -> StateModel {
        StateModel {
            effect_id: self.effect_id@,
            params: self.params@,
            params_b: self.params_b@,
            bypassed: self.bypassed,
        }
    }
}

/// The values of a slot in a pose, where the pose has one.
pub open spec fn pose_values(pose: Option<MorphSnapshot>, slot: int) -> Option<Seq<Bits>> {
    match pose {
        Some(s) => if 0 <= slot < s.slots@.len() {
            Some(s.slots@[slot]@.values)
        } else {
            None
        },
        None => None,
    }
}

/// The stored state of the effect in a slot: A from pose A or the live slot, B
/// from pose B or empty, bypass from the live slot.
pub open spec fn state_of(
    id: Seq<char>,
    slot: int,
    rig: Seq<SlotModel>,
    a: Option<MorphSnapshot>,
    b: Option<MorphSnapshot>,
) -> StateModel {
    StateModel {
        effect_id: id,
        params: match pose_values(a, slot) {
            Some(values) => values,
            None => live_at(rig, slot).values,
        },
        params_b: match pose_values(b, slot) {
            Some(values) => values,
            None => Seq::empty(),
        },
        bypassed: live_at(rig, slot).bypassed,
    }
}

/// A wire between nodes, by their indices.
pub open spec fn wire_by_index(nodes: Seq<(usize, SessionNode)>, w: Wire) -> (
    usize,
    usize,
    usize,
    usize,
) {
    (
        index_of_id(nodes, w.from) as usize,
        w.output,
        index_of_id(nodes, w.to) as usize,
        w.input,
    )
}

/// A session that holds listed nodes and wires of a graph: the nodes in order
/// with their places, the wires by index, and the state of every effect, slot by
/// slot.
pub open spec fn captures(
    snarl: Snarl<SonidoNode>,
    nodes: Seq<(usize, SessionNode)>,
    ws: Seq<Wire>,
    rig: Seq<SlotModel>,
    perf: PerformanceCapture,
    s: Session,
) -> bool {
    let kinds = kinds_in(nodes);
    &&& s.version == Session::VERSION
    &&& kinds_of(s.nodes@) == kinds
    &&& forall|i: int|
        0 <= i < nodes.len() ==> (#[trigger] s.nodes@[i]).pos@ == snarl_places(snarl)[nodes[i].0]
    &&& s.wires@ == ws.map_values(|w: Wire| wire_by_index(nodes, w))
    &&& forall|i: usize|
        #![trigger s.params@.contains_key(i)]
        s.params@.contains_key(i) <==> i < nodes.len() && kinds[i as int] is Effect
    &&& forall|i: usize|
        #![trigger s.params@[i]]
        s.params@.contains_key(i) ==> s.params@[i]@ == state_of(
            kinds[i as int]->Effect_0,
            effects_among(kinds.take(i as int)) as int,
            rig,
            perf.morph_a,
            perf.morph_b,
        )
    &&& macros_view(s.macros@) == macros_view(perf.macros@)
    &&& s.macro_positions@ == perf.macro_positions@
    &&& s.morph == perf.morph
    &&& s.morph_position == perf.morph_position
}

fn pose_or(pose: &Option<MorphSnapshot>, slot: usize) -> (r: Option<Vec<Bits>>)
    ensures
        pose_values(*pose, slot as int) == (match r {
            Some(v) => Some(v@),
            None => None,
        }),
{
    match pose {
        Some(s) => {
            if slot < s.slots.len() {
                let v = s.slots[slot].values.clone();
                assert(v@ =~= s.slots@[slot as int].values@);
                Some(v)
            } else {
                None
            }
        },
        None => None,
    }
}

fn capture_state(
    effect_id: &String,
    slot: usize,
    rig: &Vec<SlotSnapshot>,
    perf: &PerformanceCapture,
) -> (state: EffectState)
    ensures
        state@ == state_of(
            effect_id@,
            slot as int,
            slots_view(rig@),
            perf.morph_a,
            perf.morph_b,
        ),
{
    let params = match pose_or(&perf.morph_a, slot) {
        Some(v) => v,
        None => {
            if slot < rig.len() {
                let v = rig[slot].values.clone();
                assert(v@ =~= rig@[slot as int].values@);
                v
            } else {
                Vec::new()
            }
        },
    };
    let params_b = match pose_or(&perf.morph_b, slot) {
        Some(v) => v,
        None => Vec::new(),
    };
    let bypassed = if slot < rig.len() {
        rig[slot].bypassed
    } else {
        false
    };
    let state = EffectState { effect_id: effect_id.clone(), params, params_b, bypassed };
    assert(state@ =~= state_of(
        effect_id@,
        slot as int,
        slots_view(rig@),
        perf.morph_a,
        perf.morph_b,
    ));
    state
}

/// The places of listed nodes.
fn capture_entries(snarl: &Snarl<SonidoNode>, nodes: &Vec<(usize, SessionNode)>) -> (entries: Vec<
    SessionNodeEntry,
>)
    requires
        lists_nodes(*snarl, nodes@),
    ensures
        kinds_of(entries@) == kinds_in(nodes@),
        forall|i: int|
            0 <= i < nodes@.len() ==> (#[trigger] entries@[i]).pos@ == snarl_places(
                *snarl,
            )[nodes@[i].0],
{
    let mut entries: Vec<SessionNodeEntry> = Vec::new();
    let mut i: usize = 0;
    while i < nodes.len()
        invariant
            i <= nodes@.len(),
            lists_nodes(*snarl, nodes@),
            entries@.len() == i,
            forall|j: int|
                0 <= j < i ==> (#[trigger] entries@[j]).node@ == nodes@[j].1@ && entries@[j].pos@
                    == snarl_places(*snarl)[nodes@[j].0],
        decreases nodes@.len() - i,
    {
        let id: usize = nodes[i].0;
        proof {
            assert(ids_in(nodes@)[i as int] == id);
            assert(ids_in(nodes@).to_set().contains(id));
        }
        let (x, y): (Bits, Bits) = node_coords(snarl, id).unwrap();
        let pos: [Bits; 2] = [x, y];
        assert(pos@ =~= seq![x, y]);
        entries.push(SessionNodeEntry { node: nodes[i].1.clone(), pos });
        i = i + 1;
    }
    assert(kinds_of(entries@) =~= kinds_in(nodes@));
    entries
}

/// The wires by index.
fn capture_wires(nodes: &Vec<(usize, SessionNode)>, ws: &Vec<Wire>) -> (r: Vec<
    (usize, usize, usize, usize),
>)
    requires
        closed_graph(nodes@, ws@),
    ensures
        r@ == ws@.map_values(|w: Wire| wire_by_index(nodes@, w)),
{
    let mut r: Vec<(usize, usize, usize, usize)> = Vec::new();
    let mut i: usize = 0;
    while i < ws.len()
        invariant
            i <= ws@.len(),
            closed_graph(nodes@, ws@),
            r@.len() == i,
            forall|j: int| 0 <= j < i ==> #[trigger] r@[j] == wire_by_index(nodes@, ws@[j]),
        decreases ws@.len() - i,
    {
        let w: Wire = ws[i];
        let from: usize = index_of(nodes, w.from);
        let to: usize = index_of(nodes, w.to);
        r.push((from, w.output, to, w.input));
        i = i + 1;
    }
    assert(r@ =~= ws@.map_values(|w: Wire| wire_by_index(nodes@, w)));
    r
}

/// The state of every effect among the nodes, by index.
fn capture_params(
    nodes: &Vec<(usize, SessionNode)>,
    rig: &Vec<SlotSnapshot>,
    perf: &PerformanceCapture,
) -> (params: HashMap<usize, EffectState>)
    ensures
        forall|i: usize|
            #![trigger params@.contains_key(i)]
            params@.contains_key(i) <==> i < nodes@.len() && kinds_in(nodes@)[i as int] is Effect,
        forall|i: usize|
            #![trigger params@[i]]
            params@.contains_key(i) ==> params@[i]@ == state_of(
                kinds_in(nodes@)[i as int]->Effect_0,
                effects_among(kinds_in(nodes@).take(i as int)) as int,
                slots_view(rig@),
                perf.morph_a,
                perf.morph_b,
            ),
{
    broadcast use group_hash_axioms;

    let ghost kinds = kinds_in(nodes@);
    let mut params: HashMap<usize, EffectState> = HashMap::new();
    let mut slot: usize = 0;
    let mut idx: usize = 0;
    reveal(Seq::filter);
    while idx < nodes.len()
        invariant
            idx <= nodes@.len(),
            kinds == kinds_in(nodes@),
            slot <= idx,
            slot == effects_among(kinds.take(idx as int)),
            forall|i: usize|
                #![trigger params@.contains_key(i)]
                params@.contains_key(i) <==> i < idx && kinds[i as int] is Effect,
            forall|i: usize|
                #![trigger params@[i]]
                params@.contains_key(i) ==> params@[i]@ == state_of(
                    kinds[i as int]->Effect_0,
                    effects_among(kinds.take(i as int)) as int,
                    slots_view(rig@),
                    perf.morph_a,
                    perf.morph_b,
                ),
        decreases nodes@.len() - idx,
    {
        proof {
            counts_step(kinds, idx as int);
        }
        match &nodes[idx].1 {
            SessionNode::Effect { effect_id } => {
                let state = capture_state(effect_id, slot, rig, perf);
                params.insert(idx, state);
                slot = slot + 1;
            },
            _ => {},
        }
        idx = idx + 1;
    }
    params
}

impl GraphView {
    /// Capture the current graph as a session. The state of each effect comes
    /// from the poses of `perf` and the live rig; the macro layer and the morph
    /// ride along.
    pub fn capture_session(
        &self,
        rig: &Vec<SlotSnapshot>,
        input_gain: Bits,
        master_volume: Bits,
        perf: PerformanceCapture,
    ) -> (s: Session)
        ensures
            exists|nodes: Seq<(usize, SessionNode)>, ws: Seq<Wire>| #[trigger]
                lists_nodes(self.snarl, nodes) && #[trigger] lists_wires(self.snarl, ws)
                    && closed_graph(nodes, ws) && captures(
                    self.snarl,
                    nodes,
                    ws,
                    slots_view(rig@),
                    perf,
                    s,
                ),
            s.input_gain == input_gain,
            s.master_volume == master_volume,
    {
        let nodes = list_nodes(&self.snarl);
        let ws = wires(&self.snarl);
        proof {
            listed_graph_is_closed(self.snarl, nodes@, ws@);
            assert(lists_wires(self.snarl, ws@));
        }
        let entries = capture_entries(&self.snarl, &nodes);
        let by_index = capture_wires(&nodes, &ws);
        let params = capture_params(&nodes, rig, &perf);
        let s = Session {
            version: Session::VERSION,
            nodes: entries,
            wires: by_index,
            params,
            input_gain,
            master_volume,
            macros: perf.macros,
            macro_positions: perf.macro_positions,
            morph: perf.morph,
            morph_position: perf.morph_position,
        };
        assert(captures(self.snarl, nodes@, ws@, slots_view(rig@), perf, s));
        s
    }
}

// Restoring.

/// The first of some effect nodes that has an effect id, if any.
pub open spec fn template_for(templates: Seq<SonidoNode>, id: Seq<char>) -> Option<NodeView>
    decreases templates.len(),
{
    if templates.len() == 0 {
        None
    } else if kind_of(templates[0]) == NodeKind::Effect(id) {
        Some(templates[0]@)
    } else {
        template_for(templates.drop_first(), id)
    }
}

/// The node that a session node is restored as; none for an effect that no
/// template has.
pub open spec fn node_for(kind: NodeKind, templates: Seq<SonidoNode>) -> Option<NodeView> {
    match kind {
        NodeKind::Input => Some(NodeView::Input),
        NodeKind::Output => Some(NodeView::Output),
        NodeKind::Split => Some(NodeView::Split),
        NodeKind::Merge => Some(NodeView::Merge),
        NodeKind::Effect(id) => template_for(templates, id),
    }
}

/// The indices of the session nodes that can be restored, in order.
pub open spec fn restorable(kinds: Seq<NodeKind>, templates: Seq<SonidoNode>) -> Seq<usize> {
    indices_where(kinds.len(), |i: int| node_for(kinds[i], templates) is Some)
}

/// The id that session node `i` is restored under: the number of restored nodes
/// in front of it.
pub open spec fn restored_id(kinds: Seq<NodeKind>, templates: Seq<SonidoNode>, i: int) -> usize {
    indices_where(i as nat, |j: int| node_for(kinds[j], templates) is Some).len() as usize
}

/// Whether session node `i` is there and can be restored.
pub open spec fn restores(kinds: Seq<NodeKind>, templates: Seq<SonidoNode>, i: int) -> bool {
    0 <= i < kinds.len() && node_for(kinds[i], templates) is Some
}

/// The wire that a session wire is restored as.
pub open spec fn restored_wire(
    kinds: Seq<NodeKind>,
    templates: Seq<SonidoNode>,
    w: (usize, usize, usize, usize),
) -> Wire {
    Wire {
        from: restored_id(kinds, templates, w.0 as int),
        output: w.1,
        to: restored_id(kinds, templates, w.2 as int),
        input: w.3,
    }
}

/// Whether both ends of a session wire are restored.
pub open spec fn wire_restores(
    kinds: Seq<NodeKind>,
    templates: Seq<SonidoNode>,
    w: (usize, usize, usize, usize),
) -> bool {
    restores(kinds, templates, w.0 as int) && restores(kinds, templates, w.2 as int)
}

/// A graph that holds what can be restored of a session: nodes numbered in
/// session order, at the given places, and the wires between them.
pub open spec fn holds_session(
    snarl: Snarl<SonidoNode>,
    kinds: Seq<NodeKind>,
    places: Seq<Seq<Bits>>,
    ws: Seq<(usize, usize, usize, usize)>,
    templates: Seq<SonidoNode>,
) -> bool {
    let kept = restorable(kinds, templates);
    &&& forall|k: usize| #[trigger] snarl_nodes(snarl).contains_key(k) <==> k < kept.len()
    &&& forall|k: usize|
        k < kept.len() ==> Some((#[trigger] snarl_nodes(snarl)[k])@) == node_for(
            kinds[kept[k as int] as int],
            templates,
        )
    &&& forall|k: usize|
        k < kept.len() ==> #[trigger] snarl_places(snarl)[k] == places[kept[k as int] as int]
    &&& forall|w: Wire| #[trigger]
        snarl_wires(snarl).contains(w) <==> exists|j: int|
            0 <= j < ws.len() && wire_restores(kinds, templates, #[trigger] ws[j])
                && restored_wire(kinds, templates, ws[j]) == w
}

/// The coordinates of some points.
pub open spec fn coords_of(positions: Seq<egui::Pos2>) -> Seq<Seq<Bits>> {
    Seq::new(positions.len(), |i: int| pos_coords(positions[i]))
}

fn find_template(templates: &Vec<SonidoNode>, id: &String) -> (r: Option<SonidoNode>)
    ensures
        template_for(templates@, id@) == (match r {
            Some(n) => Some(n@),
            None => None,
        }),
{
    let mut i: usize = 0;
    assert(templates@.skip(0) =~= templates@);
    while i < templates.len()
        invariant
            i <= templates@.len(),
            template_for(templates@, id@) == template_for(templates@.skip(i as int), id@),
        decreases templates@.len() - i,
    {
        assert(templates@.skip(i as int).drop_first() =~= templates@.skip(i as int + 1));
        match &templates[i] {
            SonidoNode::Effect { effect_id, .. } => {
                if *effect_id == *id {
                    return Some(templates[i].clone());
                }
            },
            _ => {},
        }
        i = i + 1;
    }
    None
}

fn make_node(node: &SessionNode, templates: &Vec<SonidoNode>) -> (r: Option<SonidoNode>)
    ensures
        node_for(node@, templates@) == (match r {
            Some(n) => Some(n@),
            None => None,
        }),
{
    match node {
        SessionNode::Input => Some(SonidoNode::Input),
        SessionNode::Output => Some(SonidoNode::Output),
        SessionNode::Split => Some(SonidoNode::Split),
        SessionNode::Merge => Some(SonidoNode::Merge),
        SessionNode::Effect { effect_id } => find_template(templates, effect_id),
    }
}

/// A graph with the nodes of a session, and the id of each of them.
fn restore_nodes(
    entries: &Vec<SessionNodeEntry>,
    positions: &Vec<egui::Pos2>,
    templates: &Vec<SonidoNode>,
) -> (r: (Snarl<SonidoNode>, Vec<Option<usize>>))
    requires
        positions@.len() == entries@.len(),
    ensures
        ({
            let kinds = kinds_of(entries@);
            let kept = restorable(kinds, templates@);
            &&& forall|k: usize| #[trigger] snarl_nodes(r.0).contains_key(k) <==> k < kept.len()
            &&& forall|k: usize|
                k < kept.len() ==> Some((#[trigger] snarl_nodes(r.0)[k])@) == node_for(
                    kinds[kept[k as int] as int],
                    templates@,
                )
            &&& forall|k: usize|
                k < kept.len() ==> #[trigger] snarl_places(r.0)[k] == coords_of(
                    positions@,
                )[kept[k as int] as int]
            &&& snarl_wires(r.0).is_empty()
            &&& r.1@.len() == kinds.len()
            &&& forall|i: int|
                0 <= i < kinds.len() ==> #[trigger] r.1@[i] == (if node_for(
                    kinds[i],
                    templates@,
                ) is Some {
                    Some(restored_id(kinds, templates@, i))
                } else {
                    None
                })
            &&& forall|i: int|
                0 <= i < kinds.len() && node_for(kinds[i], templates@) is Some
                    ==> #[trigger] restored_id(kinds, templates@, i) < kept.len()
        }),
{
    let ghost kinds = kinds_of(entries@);
    let ghost pred = |i: int| node_for(kinds[i], templates@) is Some;
    let mut snarl = empty_snarl();
    let mut ids: Vec<Option<usize>> = Vec::new();
    let mut i: usize = 0;
    assert(snarl_nodes(snarl).dom() =~= Set::empty());
    while i < entries.len()
        invariant
            i <= entries@.len(),
            positions@.len() == entries@.len(),
            kinds == kinds_of(entries@),
            pred == (|i: int| node_for(kinds[i], templates@) is Some),
            snarl_vacant(snarl).is_empty(),
            snarl_wires(snarl).is_empty(),
            snarl_nodes(snarl).dom().finite(),
            snarl_nodes(snarl).dom().len() == indices_where(i as nat, pred).len(),
            indices_where(i as nat, pred).len() <= i,
            forall|k: usize| #[trigger]
                snarl_nodes(snarl).contains_key(k) <==> k < indices_where(i as nat, pred).len(),
            forall|k: usize|
                k < indices_where(i as nat, pred).len() ==> Some((#[trigger] snarl_nodes(snarl)[k])@)
                    == node_for(kinds[indices_where(i as nat, pred)[k as int] as int], templates@),
            forall|k: usize|
                k < indices_where(i as nat, pred).len() ==> #[trigger] snarl_places(snarl)[k]
                    == coords_of(positions@)[indices_where(i as nat, pred)[k as int] as int],
            ids@.len() == i,
            forall|j: int|
                0 <= j < i ==> #[trigger] ids@[j] == (if node_for(kinds[j], templates@) is Some {
                    Some(restored_id(kinds, templates@, j))
                } else {
                    None
                }),
            forall|j: int|
                0 <= j < i && node_for(kinds[j], templates@) is Some ==> #[trigger] restored_id(
                    kinds,
                    templates@,
                    j,
                ) < indices_where(i as nat, pred).len(),
        decreases entries@.len() - i,
    {
        assert(kinds[i as int] == entries@[i as int].node@);
        let ghost before = indices_where(i as nat, pred);
        match make_node(&entries[i].node, templates) {
            Some(node) => {
                let id: usize = insert_node(&mut snarl, positions[i], node);
                ids.push(Some(id));
                assert(id == before.len());
                assert(indices_where(i as nat + 1, pred) == before.push(i));
                assert(snarl_vacant(snarl) =~= Set::empty());
                assert(coords_of(positions@)[i as int] == pos_coords(positions@[i as int]));
            },
            None => {
                ids.push(None);
            },
        }
        i = i + 1;
    }
    (snarl, ids)
}

impl GraphView {
    /// Rebuild the graph from a session. `positions` are the points for its
    /// nodes, and `templates` the effects that can be made; effects that are not
    /// among them are left out, and wires to them too.
    pub fn restore_session(
        &mut self,
        session: &Session,
        positions: &Vec<egui::Pos2>,
        templates: &Vec<SonidoNode>,
    )
        requires
            positions@.len() == session.nodes@.len(),
        ensures
            holds_session(
                final(self).snarl,
                kinds_of(session.nodes@),
                coords_of(positions@),
                session.wires@,
                templates@,
            ),
            final(self).selected_node is None,
            final(self).topology_changed,
    {
        let (mut snarl, ids) = restore_nodes(&session.nodes, positions, templates);
        let ghost kinds = kinds_of(session.nodes@);
        let ghost nodes = snarl_nodes(snarl);
        let ghost places = snarl_places(snarl);
        let ghost ws = session.wires@;
        let mut i: usize = 0;
        while i < session.wires.len()
            invariant
                i <= session.wires@.len(),
                ws == session.wires@,
                kinds == kinds_of(session.nodes@),
                snarl_nodes(snarl) == nodes,
                snarl_places(snarl) == places,
                forall|k: usize| #[trigger]
                    nodes.contains_key(k) <==> k < restorable(kinds, templates@).len(),
                ids@.len() == kinds.len(),
                forall|j: int|
                    0 <= j < kinds.len() ==> #[trigger] ids@[j] == (if node_for(
                        kinds[j],
                        templates@,
                    ) is Some {
                        Some(restored_id(kinds, templates@, j))
                    } else {
                        None
                    }),
                forall|j: int|
                    0 <= j < kinds.len() && node_for(kinds[j], templates@) is Some
                        ==> #[trigger] restored_id(kinds, templates@, j) < restorable(
                        kinds,
                        templates@,
                    ).len(),
                forall|w: Wire| #[trigger]
                    snarl_wires(snarl).contains(w) <==> exists|j: int|
                        0 <= j < i && wire_restores(kinds, templates@, #[trigger] ws[j])
                            && restored_wire(kinds, templates@, ws[j]) == w,
            decreases session.wires@.len() - i,
        {
            let (from_idx, output, to_idx, input): (usize, usize, usize, usize) = session.wires[i];
            let ghost before = snarl_wires(snarl);
            let from: Option<usize> = if from_idx < ids.len() {
                ids[from_idx]
            } else {
                None
            };
            let to: Option<usize> = if to_idx < ids.len() {
                ids[to_idx]
            } else {
                None
            };
            match (from, to) {
                (Some(from), Some(to)) => {
                    let wire = Wire { from, output, to, input };
                    assert(restored_id(kinds, templates@, from_idx as int) == from);
                    assert(restored_id(kinds, templates@, to_idx as int) == to);
                    connect(&mut snarl, wire);
                    assert(wire_restores(kinds, templates@, ws[i as int]));
                    assert(restored_wire(kinds, templates@, ws[i as int]) == wire);
                },
                _ => {
                    assert(!wire_restores(kinds, templates@, ws[i as int]));
                },
            }
            proof {
                assert forall|w: Wire| #[trigger]
                    snarl_wires(snarl).contains(w) <==> exists|j: int|
                        0 <= j < i + 1 && wire_restores(kinds, templates@, #[trigger] ws[j])
                            && restored_wire(kinds, templates@, ws[j]) == w by {
                    if before.contains(w) {
                        let j = choose|j: int|
                            0 <= j < i && wire_restores(kinds, templates@, #[trigger] ws[j])
                                && restored_wire(kinds, templates@, ws[j]) == w;
                        assert(wire_restores(kinds, templates@, ws[j]));
                    }
                    if exists|j: int|
                        0 <= j < i + 1 && wire_restores(kinds, templates@, #[trigger] ws[j])
                            && restored_wire(kinds, templates@, ws[j]) == w {
                        let j = choose|j: int|
                            0 <= j < i + 1 && wire_restores(kinds, templates@, #[trigger] ws[j])
                                && restored_wire(kinds, templates@, ws[j]) == w;
                        if j < i {
                            assert(before.contains(w));
                        }
                    }
                }
            }
            i = i + 1;
        }
        self.snarl = snarl;
        self.selected_node = None;
        self.topology_changed = true;
    }
}

// Laws.

/// A template for an effect is an effect with that id.
proof fn template_is_effect(templates: Seq<SonidoNode>, id: Seq<char>)
    ensures
        template_for(templates, id) matches Some(v) ==> v is Effect && v->effect_id == id,
    decreases templates.len(),
{
    if templates.len() > 0 && kind_of(templates[0]) != NodeKind::Effect(id) {
        template_is_effect(templates.drop_first(), id);
    }
}

/// Indices are listed in ascending order.
pub(crate) proof fn indices_ascend(n: nat, pred: spec_fn(int) -> bool)
    requires
        n <= usize::MAX,
    ensures
        ascending(indices_where(n, pred)),
        forall|k: int|
            0 <= k < indices_where(n, pred).len() ==> (#[trigger] indices_where(n, pred)[k]) < n,
    decreases n,
{
    if n > 0 {
        indices_ascend((n - 1) as nat, pred);
    }
}

/// Ranks grow along listed indices.
proof fn ranks_ascend(pred: spec_fn(int) -> bool, i: int, j: int)
    requires
        0 <= i < j,
        pred(i),
    ensures
        indices_where(i as nat, pred).len() < indices_where(j as nat, pred).len(),
    decreases j,
{
    if i < j - 1 {
        ranks_ascend(pred, i, j - 1);
    }
}

/// Restoring keeps the order of the effects: the chain slots of the restored
/// graph are the session's effects that could be restored, in session order.
pub proof fn restored_effects_keep_their_order(
    snarl: Snarl<SonidoNode>,
    kinds: Seq<NodeKind>,
    places: Seq<Seq<Bits>>,
    ws: Seq<(usize, usize, usize, usize)>,
    templates: Seq<SonidoNode>,
    ids: Seq<usize>,
)
    requires
        kinds.len() <= usize::MAX,
        holds_session(snarl, kinds, places, ws, templates),
        is_chain(snarl_nodes(snarl), ids),
    ensures
        ({
            let effects = indices_where(
                kinds.len(),
                |i: int| kinds[i] is Effect && restores(kinds, templates, i),
            );
            &&& ids == effects.map_values(|i: usize| restored_id(kinds, templates, i as int))
            &&& forall|s: int|
                0 <= s < ids.len() ==> kind_of((#[trigger] snarl_nodes(snarl)[ids[s]]))
                    == kinds[effects[s] as int]
        }),
{
    let n = kinds.len();
    let keep = |i: int| node_for(kinds[i], templates) is Some;
    let wanted = |i: int| kinds[i] is Effect && restores(kinds, templates, i);
    let kept = restorable(kinds, templates);
    let effects = indices_where(n, wanted);
    let there = effects.map_values(|i: usize| restored_id(kinds, templates, i as int));
    let nodes = snarl_nodes(snarl);
    indices_ascend(n, wanted);
    indices_ascend(n, keep);
    assert forall|s: int| 0 <= s < effects.len() implies {
        let i = (#[trigger] effects[s]) as int;
        &&& i < n && wanted(i)
        &&& there[s] < kept.len() && kept[there[s] as int] == i
        &&& nodes.contains_key(there[s])
        &&& kind_of(nodes[there[s]]) == kinds[i]
    } by {
        let i = effects[s] as int;
        listed_has_rank(n, wanted, s);
        rank_of_listed(n, keep, i);
        assert(keep(i));
        assert(indices_where(i as nat, keep).len() <= n) by {
            rank_at_most(i as nat, keep);
        }
        let id = kinds[i]->Effect_0;
        template_is_effect(templates, id);
        assert(Some(nodes[there[s]]@) == node_for(kinds[kept[there[s] as int] as int], templates));
    }
    assert forall|s: int, t: int| 0 <= s < t < there.len() implies #[trigger] there[s]
        < #[trigger] there[t] by {
        assert(effects[s] < effects[t]);
        ranks_ascend(keep, effects[s] as int, effects[t] as int);
        rank_at_most(effects[t] as nat, keep);
    }
    assert forall|k: usize| there.to_set().contains(k) <==> effects_of(nodes).contains(k) by {
        if there.contains(k) {
            let s = there.index_of(k);
            assert(there[s] == k && effects[s] < n);
        }
        if effects_of(nodes).contains(k) {
            assert(k < kept.len());
            listed_has_rank(n, keep, k as int);
            let i = kept[k as int] as int;
            assert(Some(nodes[k]@) == node_for(kinds[i], templates));
            assert(kinds[i] is Effect);
            assert(wanted(i));
            rank_of_listed(n, wanted, i);
            let s = indices_where(i as nat, wanted).len() as int;
            assert(effects[s] == i);
            assert(there[s] == k);
        }
    }
    assert(there.to_set() =~= effects_of(nodes));
    ascending_listing_is_unique(ids, there);
}

pub(crate) proof fn rank_at_most(n: nat, pred: spec_fn(int) -> bool)
    ensures
        indices_where(n, pred).len() <= n,
    decreases n,
{
    if n > 0 {
        rank_at_most((n - 1) as nat, pred);
    }
}

/// Where everything is listed, everything is listed under its own number.
proof fn all_listed(n: nat, pred: spec_fn(int) -> bool)
    requires
        n <= usize::MAX,
        forall|i: int| 0 <= i < n ==> #[trigger] pred(i),
    ensures
        indices_where(n, pred) == Seq::new(n, |i: int| i as usize),
    decreases n,
{
    if n > 0 {
        all_listed((n - 1) as nat, pred);
        assert(pred(n - 1));
    }
    assert(indices_where(n, pred) =~= Seq::new(n, |i: int| i as usize));
}

/// A session whose effects are all known survives the editor: captured from the
/// graph that it was restored into, it has the same nodes at the same places and
/// the same wires.
pub proof fn session_survives_the_editor(
    snarl: Snarl<SonidoNode>,
    kinds: Seq<NodeKind>,
    places: Seq<Seq<Bits>>,
    ws: Seq<(usize, usize, usize, usize)>,
    templates: Seq<SonidoNode>,
    nodes: Seq<(usize, SessionNode)>,
    listed: Seq<Wire>,
    rig: Seq<SlotModel>,
    perf: PerformanceCapture,
    s: Session,
)
    requires
        kinds.len() <= usize::MAX,
        holds_session(snarl, kinds, places, ws, templates),
        forall|i: int| 0 <= i < kinds.len() ==> restores(kinds, templates, i),
        forall|j: int|
            0 <= j < ws.len() ==> (#[trigger] ws[j]).0 < kinds.len() && ws[j].2 < kinds.len(),
        lists_nodes(snarl, nodes),
        lists_wires(snarl, listed),
        closed_graph(nodes, listed),
        captures(snarl, nodes, listed, rig, perf, s),
    ensures
        kinds_of(s.nodes@) == kinds,
        forall|i: int| 0 <= i < kinds.len() ==> (#[trigger] s.nodes@[i]).pos@ == places[i],
        s.wires@.to_set() == ws.to_set(),
{
    let n = kinds.len();
    let keep = |i: int| node_for(kinds[i], templates) is Some;
    let kept = restorable(kinds, templates);
    assert forall|i: int| 0 <= i < n implies #[trigger] keep(i) by {
        assert(restores(kinds, templates, i));
    }
    all_listed(n, keep);
    let count = Seq::new(n, |i: int| i as usize);
    assert forall|i: int| 0 <= i < n implies #[trigger] restored_id(kinds, templates, i) == i by {
        all_listed(i as nat, keep);
    }
    // The nodes are numbered in order.
    let ids = ids_in(nodes);
    assert(ids == count) by {
        assert forall|k: usize| count.to_set().contains(k) <==> snarl_nodes(snarl).dom().contains(
            k,
        ) by {
            if k < n {
                assert(count[k as int] == k);
            }
            assert(snarl_nodes(snarl).contains_key(k) <==> k < kept.len());
        }
        assert(count.to_set() =~= snarl_nodes(snarl).dom());
        ascending_listing_is_unique(ids, count);
    }
    assert forall|i: int| 0 <= i < n implies #[trigger] nodes[i].0 == i && nodes[i].1@
        == kinds[i] by {
        assert(ids[i] == count[i]);
        let k = i as usize;
        assert(k < kept.len() && kept[k as int] == k);
        assert(Some(snarl_nodes(snarl)[k]@) == node_for(kinds[i], templates));
        if kinds[i] is Effect {
            template_is_effect(templates, kinds[i]->Effect_0);
        }
    }
    assert(kinds_in(nodes) =~= kinds);
    assert forall|i: int| 0 <= i < n implies (#[trigger] s.nodes@[i]).pos@ == places[i] by {
        assert(nodes[i].0 == i);
        assert(snarl_places(snarl)[i as usize] == places[kept[i] as int]);
    }
    assert forall|i: int| 0 <= i < n implies #[trigger] index_of_id(nodes, i as usize) == i by {
        assert(ids[i] == i as usize);
        index_is_inverse(nodes, i as usize);
        assert(ids[index_of_id(nodes, i as usize)] == ids[i]);
    }
    assert forall|w: (usize, usize, usize, usize)| #[trigger]
        s.wires@.to_set().contains(w) <==> ws.to_set().contains(w) by {
        if s.wires@.contains(w) {
            let j = s.wires@.index_of(w);
            let v = listed[j];
            assert(wire_by_index(nodes, v) == w);
            assert(listed.to_set().contains(v));
            assert(snarl_wires(snarl).contains(v));
            let l = choose|l: int|
                0 <= l < ws.len() && wire_restores(kinds, templates, #[trigger] ws[l])
                    && restored_wire(kinds, templates, ws[l]) == v;
            assert(restored_id(kinds, templates, ws[l].0 as int) == ws[l].0);
            assert(restored_id(kinds, templates, ws[l].2 as int) == ws[l].2);
            assert(index_of_id(nodes, ws[l].0) == ws[l].0);
            assert(index_of_id(nodes, ws[l].2) == ws[l].2);
            assert(ws[l] == w);
        }
        if ws.contains(w) {
            let l = ws.index_of(w);
            assert(ws[l] == w);
            let v = restored_wire(kinds, templates, w);
            assert(restored_id(kinds, templates, w.0 as int) == w.0);
            assert(restored_id(kinds, templates, w.2 as int) == w.2);
            assert(wire_restores(kinds, templates, ws[l])) by {
                assert(restores(kinds, templates, w.0 as int));
                assert(restores(kinds, templates, w.2 as int));
            }
            assert(snarl_wires(snarl).contains(v));
            assert(listed.to_set().contains(v));
            let j = listed.index_of(v);
            assert(index_of_id(nodes, w.0) == w.0);
            assert(index_of_id(nodes, w.2) == w.2);
            assert(s.wires@[j] == wire_by_index(nodes, v));
            assert(s.wires@[j] == w);
        }
    }
    assert(s.wires@.to_set() =~= ws.to_set());
}

} // verus!
