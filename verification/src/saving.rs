//! What a session keeps of the editor, and the editor of a session.
//!
//! These laws speak of the graph, the poses and the session as they are, each by
//! its own nodes, wires and values.
use egui_snarl::Snarl;
use crate::capture::{
    PerformanceCapture, captures, coords_of, holds_session, indices_ascend, node_for, rank_at_most,
    restorable, restored_id, restored_wire, state_of, template_for, wire_by_index, wire_restores,
};
use crate::compile::{
    closed_graph, ids_in, index_is_inverse, kind_of, kinds_in, listed_has_rank, lists_nodes,
    lists_wires, rank_of_listed,
};
use crate::morph::{MorphEnd, SlotModel, SlotSnapshot, slots_view};
use crate::patch::macros_view;
use crate::performance::{
    PerformanceRestore, SlotRestore, restoring_brings_back_what_is_stored, slot_restores_view,
    slot_writes, stored_pose,
};
use crate::session::{
    NodeKind, Session, SessionNode, SessionNodeEntry, effects_among, effects_at, kinds_of,
    lists_effects,
};
use crate::snarl::{SonidoNode, Wire, pos_coords, snarl_nodes, snarl_places, snarl_wires};
use vstd::prelude::*;

verus! {

/// Whether a node of a session and one of the graph are the same.
pub open spec fn same_node(a: SessionNode, b: SonidoNode) -> bool {
    match (a, b) {
        (SessionNode::Input, SonidoNode::Input) => true,
        (SessionNode::Output, SonidoNode::Output) => true,
        (SessionNode::Split, SonidoNode::Split) => true,
        (SessionNode::Merge, SonidoNode::Merge) => true,
        (SessionNode::Effect { effect_id: x }, SonidoNode::Effect { effect_id: y, .. }) => x@ == y@,
        _ => false,
    }
}

/// A captured session is the graph: its nodes are those of the graph in ascending
/// order of their ids, each at its place, and its wires are those of the graph,
/// each once, from and to the nodes that they lead from and to. Returned are the
/// ids in order.
pub proof fn a_session_is_the_graph(
    snarl: Snarl<SonidoNode>,
    nodes: Seq<(usize, SessionNode)>,
    ws: Seq<Wire>,
    rig: Seq<SlotModel>,
    perf: PerformanceCapture,
    s: Session,
) -> (ids: Seq<usize>)
    requires
        lists_nodes(snarl, nodes),
        lists_wires(snarl, ws),
        closed_graph(nodes, ws),
        captures(snarl, nodes, ws, rig, perf, s),
        nodes.len() <= usize::MAX,
    ensures
        ids.len() == s.nodes@.len(),
        forall|i: int, j: int| 0 <= i < j < ids.len() ==> #[trigger] ids[i] < #[trigger] ids[j],
        forall|id: usize| #[trigger] snarl_nodes(snarl).contains_key(id) <==> ids.contains(id),
        forall|i: int|
            #![trigger ids[i]]
            0 <= i < ids.len() ==> same_node(s.nodes@[i].node, snarl_nodes(snarl)[ids[i]])
                && s.nodes@[i].pos@ == snarl_places(snarl)[ids[i]],
        s.wires@.no_duplicates(),
        forall|k: int|
            0 <= k < s.wires@.len() ==> (#[trigger] s.wires@[k]).0 < ids.len() && s.wires@[k].2
                < ids.len(),
        forall|a: usize, o: usize, b: usize, i: usize|
            a < ids.len() && b < ids.len() ==> (#[trigger] s.wires@.contains((a, o, b, i)) <==> #[trigger]
            snarl_wires(snarl).contains(
                Wire { from: ids[a as int], output: o, to: ids[b as int], input: i },
            )),
{
    let ids = ids_in(nodes);
    let kinds = kinds_in(nodes);
    assert(kinds_of(s.nodes@).len() == s.nodes@.len());
    assert forall|id: usize| #[trigger] snarl_nodes(snarl).contains_key(id) <==> ids.contains(
        id,
    ) by {
        assert(ids.to_set().contains(id) <==> snarl_nodes(snarl).dom().contains(id));
    }
    assert forall|i: int| #![trigger ids[i]] 0 <= i < ids.len() implies same_node(
        s.nodes@[i].node,
        snarl_nodes(snarl)[ids[i]],
    ) && s.nodes@[i].pos@ == snarl_places(snarl)[ids[i]] by {
        assert(kinds_of(s.nodes@)[i] == kinds[i]);
        assert(nodes[i].1@ == kind_of(snarl_nodes(snarl)[nodes[i].0]));
    }
    assert forall|k: int| 0 <= k < s.wires@.len() implies (#[trigger] s.wires@[k]).0 < ids.len()
        && s.wires@[k].2 < ids.len() && ids[s.wires@[k].0 as int] == ws[k].from
        && ids[s.wires@[k].2 as int] == ws[k].to && s.wires@[k].1 == ws[k].output && s.wires@[k].3
        == ws[k].input by {
        assert(s.wires@[k] == wire_by_index(nodes, ws[k]));
        index_is_inverse(nodes, ws[k].from);
        index_is_inverse(nodes, ws[k].to);
    }
    assert forall|k: int, l: int|
        0 <= k < s.wires@.len() && 0 <= l < s.wires@.len() && k != l implies s.wires@[k]
        != s.wires@[l] by {
        assert(ws[k] != ws[l]);
    }
    assert forall|a: usize, o: usize, b: usize, i: usize|
        a < ids.len() && b < ids.len() implies (#[trigger] s.wires@.contains((a, o, b, i))
        <==> #[trigger] snarl_wires(snarl).contains(
        Wire { from: ids[a as int], output: o, to: ids[b as int], input: i },
    )) by {
        let w = Wire { from: ids[a as int], output: o, to: ids[b as int], input: i };
        if s.wires@.contains((a, o, b, i)) {
            let k = s.wires@.index_of((a, o, b, i));
            assert(s.wires@[k] == (a, o, b, i));
            assert(ws[k] == w);
            assert(ws.to_set().contains(w));
        }
        if snarl_wires(snarl).contains(w) {
            assert(ws.to_set().contains(w));
            let k = ws.index_of(w);
            assert(s.wires@[k] == wire_by_index(nodes, w));
            let v = s.wires@[k];
            assert(ids[v.0 as int] == ids[a as int]);
            assert(ids[v.2 as int] == ids[b as int]);
            assert(v == (a, o, b, i));
        }
    }
    ids
}

/// A captured session keeps the poses: of the effect in each slot its id, the
/// values of pose A, or of the live slot where there is no pose A for it, the
/// values of pose B, or none, and the bypass of the live slot. Nothing is stored
/// of any other node. Returned is where the effects are, slot by slot.
pub proof fn a_session_keeps_the_poses(
    snarl: Snarl<SonidoNode>,
    nodes: Seq<(usize, SessionNode)>,
    ws: Seq<Wire>,
    rig: Seq<SlotSnapshot>,
    perf: PerformanceCapture,
    s: Session,
) -> (at: Seq<int>)
    requires
        captures(snarl, nodes, ws, slots_view(rig), perf, s),
        nodes.len() <= usize::MAX,
    ensures
        lists_effects(s.nodes@, at),
        forall|i: usize|
            #[trigger] s.params@.contains_key(i) ==> i < s.nodes@.len() && s.nodes@[i as int].node is Effect,
        forall|k: int|
            #![trigger at[k]]
            0 <= k < at.len() ==> {
                let state = s.params@[at[k] as usize];
                &&& s.params@.contains_key(at[k] as usize)
                &&& state.effect_id@ == s.nodes@[at[k]].node->effect_id@
                &&& k < rig.len() ==> state.bypassed == rig[k].bypassed
                &&& (perf.morph_a matches Some(a) && k < a.slots@.len()) ==> state.params@
                    == perf.morph_a->0.slots@[k].values@
                &&& !(perf.morph_a matches Some(a) && k < a.slots@.len()) && k < rig.len()
                    ==> state.params@ == rig[k].values@
                &&& (perf.morph_b matches Some(b) && k < b.slots@.len()) ==> state.params_b@
                    == perf.morph_b->0.slots@[k].values@
                &&& !(perf.morph_b matches Some(b) && k < b.slots@.len()) ==> state.params_b@.len()
                    == 0
            },
{
    let kinds = kinds_of(s.nodes@);
    let at = effects_at(s.nodes@);
    let live = slots_view(rig);
    assert(kinds.len() == s.nodes@.len());
    assert forall|i: usize| #[trigger] s.params@.contains_key(i) implies i < s.nodes@.len()
        && s.nodes@[i as int].node is Effect by {
        assert(kinds[i as int] is Effect);
    }
    assert forall|k: int| #![trigger at[k]] 0 <= k < at.len() implies s.params@.contains_key(
        at[k] as usize,
    ) && s.params@[at[k] as usize]@ == state_of(
        s.nodes@[at[k]].node->effect_id@,
        k,
        live,
        perf.morph_a,
        perf.morph_b,
    ) by {
        let i = at[k];
        assert(s.nodes@[i].node is Effect);
        assert(kinds[i] is Effect);
        let r = effects_among(kinds.take(i)) as int;
        assert(at[r] == i);
        if r < k {
            assert(at[r] < at[k]);
        }
        if k < r {
            assert(at[k] < at[r]);
        }
        assert(s.params@.contains_key(i as usize));
    }
    at
}

/// What was saved comes back: poses that cover all effects of the captured graph
/// are those that the session restores, slot by slot, value for value. (A pose B
/// without a single value stands for pose A.)
pub proof fn saved_poses_come_back(
    snarl: Snarl<SonidoNode>,
    nodes: Seq<(usize, SessionNode)>,
    ws: Seq<Wire>,
    rig: Seq<SlotSnapshot>,
    perf: PerformanceCapture,
    s: Session,
    r: PerformanceRestore,
    written: Seq<SlotRestore>,
    k: int,
)
    requires
        captures(snarl, nodes, ws, slots_view(rig), perf, s),
        nodes.len() <= usize::MAX,
        slots_view(r.morph_a.slots@) == stored_pose(
            kinds_of(s.nodes@),
            s.params@,
            MorphEnd::A,
            s.nodes@.len(),
        ),
        slots_view(r.morph_b.slots@) == stored_pose(
            kinds_of(s.nodes@),
            s.params@,
            MorphEnd::B,
            s.nodes@.len(),
        ),
        slot_restores_view(written) == slot_writes(kinds_of(s.nodes@), s.params@, s.nodes@.len()),
        perf.morph_a is Some,
        perf.morph_b is Some,
        perf.morph_a->0.slots@.len() == r.morph_a.slots@.len(),
        perf.morph_b->0.slots@.len() == r.morph_b.slots@.len(),
        0 <= k < r.morph_a.slots@.len(),
        k < rig.len(),
    ensures
        r.morph_a.slots@[k].values@ == perf.morph_a->0.slots@[k].values@,
        perf.morph_b->0.slots@[k].values@.len() > 0 ==> r.morph_b.slots@[k].values@
            == perf.morph_b->0.slots@[k].values@,
        perf.morph_b->0.slots@[k].values@.len() == 0 ==> r.morph_b.slots@[k].values@
            == perf.morph_a->0.slots@[k].values@,
        r.morph_a.slots@[k].bypassed == rig[k].bypassed,
        r.morph_b.slots@[k].bypassed == rig[k].bypassed,
        written[k].slot == k,
        written[k].values@ == perf.morph_a->0.slots@[k].values@,
        written[k].bypassed == rig[k].bypassed,
{
    let at = a_session_keeps_the_poses(snarl, nodes, ws, rig, perf, s);
    let (of, effects) = restoring_brings_back_what_is_stored(s, r, written);
    same_listing(s.nodes@, at, effects);
    assert forall|i: int| of.contains(i) <==> at.contains(i) by {
        if of.contains(i) {
            let j = of.index_of(i);
            assert(of[j] == i);
            assert(s.nodes@[i].node is Effect);
        }
        if at.contains(i) {
            let j = at.index_of(i);
            assert(at[j] == i);
            assert(s.nodes@[i].node is Effect);
            assert(s.params@.contains_key(i as usize));
        }
    }
    ascending_ints_are_unique(of, at);
    assert(of[k] == at[k]);
    let slot = written[k].slot as int;
    assert(effects[slot] == at[k]);
    if slot < k {
        assert(at[slot] < at[k]);
    }
    if k < slot {
        assert(at[k] < at[slot]);
    }
}

/// The effects of a session are listed in one way only.
proof fn same_listing(nodes: Seq<SessionNodeEntry>, a: Seq<int>, b: Seq<int>)
    requires
        lists_effects(nodes, a),
        lists_effects(nodes, b),
    ensures
        a == b,
{
    assert forall|i: int| a.contains(i) <==> b.contains(i) by {
        if a.contains(i) {
            let k = a.index_of(i);
            assert(a[k] == i);
            assert(nodes[i].node is Effect);
        }
        if b.contains(i) {
            let k = b.index_of(i);
            assert(b[k] == i);
            assert(nodes[i].node is Effect);
        }
    }
    ascending_ints_are_unique(a, b);
}

/// An ascending listing of the same numbers is the only one.
proof fn ascending_ints_are_unique(a: Seq<int>, b: Seq<int>)
    requires
        forall|k: int, l: int| 0 <= k < l < a.len() ==> #[trigger] a[k] < #[trigger] a[l],
        forall|k: int, l: int| 0 <= k < l < b.len() ==> #[trigger] b[k] < #[trigger] b[l],
        forall|i: int| a.contains(i) <==> b.contains(i),
    ensures
        a == b,
    decreases a.len(),
{
    if a.len() == 0 {
        if b.len() > 0 {
            assert(b.contains(b[0]));
            assert(a.contains(b[0]));
        }
        assert(a =~= b);
    } else {
        assert(a.contains(a.last()));
        assert(b.contains(a.last()));
        assert(b.contains(b.last()));
        assert(a.contains(b.last()));
        let i = b.index_of(a.last());
        let j = a.index_of(b.last());
        assert(b[i] == a.last() && a[j] == b.last());
        assert(a.last() == b.last()) by {
            if i < b.len() - 1 {
                assert(b[i] < b[b.len() - 1]);
            }
            if j < a.len() - 1 {
                assert(a[j] < a[a.len() - 1]);
            }
        }
        let c = a.drop_last();
        let d = b.drop_last();
        assert forall|x: int| c.contains(x) <==> d.contains(x) by {
            if c.contains(x) {
                let k = c.index_of(x);
                assert(a[k] == x);
                assert(a.contains(x));
                let l = b.index_of(x);
                assert(b[l] == x);
                assert(l < b.len() - 1);
                assert(d[l] == x);
            }
            if d.contains(x) {
                let k = d.index_of(x);
                assert(b[k] == x);
                assert(b.contains(x));
                let l = a.index_of(x);
                assert(a[l] == x);
                assert(l < a.len() - 1);
                assert(c[l] == x);
            }
        }
        ascending_ints_are_unique(c, d);
        assert(a =~= c.push(a.last()));
        assert(b =~= d.push(b.last()));
    }
}

/// Whether a node of a session can be made: an effect only where one of the
/// templates has its id.
pub open spec fn can_be_made(node: SessionNode, templates: Seq<SonidoNode>) -> bool {
    node matches SessionNode::Effect { effect_id } ==> exists|t: int|
        0 <= t < templates.len() && (#[trigger] templates[t]) is Effect
            && templates[t]->effect_id@ == effect_id@
}

/// A template is found exactly where one has the id.
proof fn templates_are_found(templates: Seq<SonidoNode>, id: Seq<char>) -> (t: int)
    ensures
        template_for(templates, id) is Some ==> 0 <= t < templates.len() && templates[t] is Effect
            && templates[t]->effect_id@ == id && template_for(templates, id) == Some(
            templates[t]@,
        ) && forall|u: int|
            0 <= u < t && (#[trigger] templates[u]) is Effect ==> templates[u]->effect_id@ != id,
        template_for(templates, id) is None ==> forall|u: int|
            0 <= u < templates.len() && (#[trigger] templates[u]) is Effect
                ==> templates[u]->effect_id@ != id,
    decreases templates.len(),
{
    if templates.len() == 0 || kind_of(templates[0]) == NodeKind::Effect(id) {
        0
    } else {
        let rest = templates.drop_first();
        let t = templates_are_found(rest, id);
        assert forall|u: int|
            0 <= u <= t && u < templates.len() && template_for(templates, id) is Some && (
            #[trigger] templates[u]) is Effect implies templates[u]->effect_id@ != id by {
            if u > 0 {
                assert(rest[u - 1] == templates[u]);
            }
        }
        if template_for(templates, id) is None {
            assert forall|u: int|
                0 <= u < templates.len() && (
                #[trigger] templates[u]) is Effect implies templates[u]->effect_id@ != id by {
                if u > 0 {
                    assert(rest[u - 1] == templates[u]);
                }
            }
        }
        t + 1
    }
}

/// What can be made is what a node is found for.
proof fn made_where_found(node: SessionNode, templates: Seq<SonidoNode>)
    ensures
        node_for(node@, templates) is Some <==> can_be_made(node, templates),
        node_for(node@, templates) matches Some(v) ==> forall|n: SonidoNode|
            #[trigger] n@ == v ==> same_node(node, n),
        node matches SessionNode::Effect { effect_id } ==> (node_for(node@, templates) matches Some(
            v,
        ) ==> exists|t: int|
            0 <= t < templates.len() && (#[trigger] templates[t])@ == v),
{
    if let SessionNode::Effect { effect_id } = node {
        let t = templates_are_found(templates, effect_id@);
        if node_for(node@, templates) is Some {
            assert(templates[t] is Effect);
        }
    }
}

/// A restored graph is the session: its nodes are those of the session that can be
/// made, numbered in session order, each at the point given for it, an effect as
/// its template has it; and its wires are those of the session between such nodes.
/// Returned is which session node each node of the graph is.
pub proof fn a_restored_graph_is_the_session(
    snarl: Snarl<SonidoNode>,
    s: Session,
    positions: Seq<egui::Pos2>,
    templates: Seq<SonidoNode>,
) -> (at: Seq<usize>)
    requires
        positions.len() == s.nodes@.len(),
        s.nodes@.len() <= usize::MAX,
        holds_session(
            snarl,
            kinds_of(s.nodes@),
            coords_of(positions),
            s.wires@,
            templates,
        ),
    ensures
        forall|k: int, l: int| 0 <= k < l < at.len() ==> #[trigger] at[k] < #[trigger] at[l],
        forall|k: int|
            #![trigger at[k]]
            0 <= k < at.len() ==> at[k] < s.nodes@.len() && can_be_made(
                s.nodes@[at[k] as int].node,
                templates,
            ),
        forall|i: usize|
            i < s.nodes@.len() && can_be_made((#[trigger] s.nodes@[i as int]).node, templates)
                ==> at.contains(i),
        forall|k: usize| #[trigger] snarl_nodes(snarl).contains_key(k) <==> k < at.len(),
        forall|k: usize|
            k < at.len() ==> same_node(
                s.nodes@[at[k as int] as int].node,
                #[trigger] snarl_nodes(snarl)[k],
            ),
        forall|k: usize|
            k < at.len() && (#[trigger] snarl_nodes(snarl)[k]) is Effect ==> exists|t: int|
                0 <= t < templates.len() && (#[trigger] templates[t])@ == snarl_nodes(snarl)[k]@,
        forall|k: usize|
            k < at.len() ==> #[trigger] snarl_places(snarl)[k] == pos_coords(
                positions[at[k as int] as int],
            ),
        forall|w: Wire| #[trigger]
            snarl_wires(snarl).contains(w) <==> w.from < at.len() && w.to < at.len()
                && s.wires@.contains((at[w.from as int], w.output, at[w.to as int], w.input)),
{
    let kinds = kinds_of(s.nodes@);
    let n = kinds.len();
    let keep = |i: int| node_for(kinds[i], templates) is Some;
    let at = restorable(kinds, templates);
    indices_ascend(n, keep);
    rank_at_most(n, keep);
    assert forall|k: int| #![trigger at[k]] 0 <= k < at.len() implies at[k] < n && keep(
        at[k] as int,
    ) && can_be_made(s.nodes@[at[k] as int].node, templates) && restored_id(
        kinds,
        templates,
        at[k] as int,
    ) == k by {
        listed_has_rank(n, keep, k);
        assert(kinds[at[k] as int] == s.nodes@[at[k] as int].node@);
        made_where_found(s.nodes@[at[k] as int].node, templates);
    }
    assert forall|i: usize|
        i < s.nodes@.len() && can_be_made(
            (#[trigger] s.nodes@[i as int]).node,
            templates,
        ) implies at.contains(i) by {
        made_where_found(s.nodes@[i as int].node, templates);
        assert(keep(i as int));
        rank_of_listed(n, keep, i as int);
    }
    assert forall|k: usize| k < at.len() implies same_node(
        s.nodes@[at[k as int] as int].node,
        #[trigger] snarl_nodes(snarl)[k],
    ) && (snarl_nodes(snarl)[k] is Effect ==> exists|t: int|
        0 <= t < templates.len() && (#[trigger] templates[t])@ == snarl_nodes(snarl)[k]@) by {
        let i = at[k as int] as int;
        made_where_found(s.nodes@[i].node, templates);
        assert(kinds[i] == s.nodes@[i].node@);
        let node = snarl_nodes(snarl)[k];
        assert(Some(node@) == node_for(kinds[i], templates));
        assert(same_node(s.nodes@[i].node, node));
    }
    assert forall|w: Wire| #[trigger]
        snarl_wires(snarl).contains(w) <==> w.from < at.len() && w.to < at.len()
            && s.wires@.contains((at[w.from as int], w.output, at[w.to as int], w.input)) by {
        if snarl_wires(snarl).contains(w) {
            let j = choose|j: int|
                0 <= j < s.wires@.len() && wire_restores(kinds, templates, #[trigger] s.wires@[j])
                    && restored_wire(kinds, templates, s.wires@[j]) == w;
            let v = s.wires@[j];
            rank_of_listed(n, keep, v.0 as int);
            rank_of_listed(n, keep, v.2 as int);
            assert(v == (at[w.from as int], w.output, at[w.to as int], w.input));
        }
        if w.from < at.len() && w.to < at.len() && s.wires@.contains(
            (at[w.from as int], w.output, at[w.to as int], w.input),
        ) {
            let v = (at[w.from as int], w.output, at[w.to as int], w.input);
            let j = s.wires@.index_of(v);
            assert(s.wires@[j] == v);
            assert(restored_id(kinds, templates, v.0 as int) == w.from);
            assert(restored_id(kinds, templates, v.2 as int) == w.to);
            assert(wire_restores(kinds, templates, s.wires@[j]));
            assert(restored_wire(kinds, templates, s.wires@[j]) == w);
        }
    }
    at
}

/// A captured session keeps the performance: the name and the mappings of each macro,
/// where its knob stands, how the morph behaves, and where it is.
pub proof fn a_session_keeps_the_performance(
    snarl: Snarl<SonidoNode>,
    nodes: Seq<(usize, SessionNode)>,
    ws: Seq<Wire>,
    rig: Seq<SlotModel>,
    perf: PerformanceCapture,
    s: Session,
    i: int,
)
    requires
        captures(snarl, nodes, ws, rig, perf, s),
        0 <= i < 6,
    ensures
        s.version == 3,
        s.macros@[i].name@ == perf.macros@[i].name@,
        s.macros@[i].mappings@ == perf.macros@[i].mappings@,
        s.macro_positions@[i] == perf.macro_positions@[i],
        s.morph.speed == perf.morph.speed,
        s.morph.mode == perf.morph.mode,
        s.morph.slot_locks == perf.morph.slot_locks,
        s.morph_position == perf.morph_position,
{
    assert(macros_view(s.macros@)[i] == s.macros@[i]@);
    assert(macros_view(perf.macros@)[i] == perf.macros@[i]@);
}

} // verus!
