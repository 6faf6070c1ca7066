//! The graph editor: adding, removing and rewiring nodes.
use egui_snarl::Snarl;
use crate::bits::{bits_lt, is_nan, le, lt, same};
use crate::params::{ParamInfo, clone_params};
use crate::patch::{BITS_INFINITY, BITS_NEG_INFINITY, Bits};
use crate::seqs::push_contains_iff;
use crate::snarl::{
    EffectCategory, SonidoNode, Wire, ascending, connect, disconnect, empty_snarl, find_node,
    insert_node, node_coords, node_ids, pos_coords, remove_node, snarl_nodes, snarl_places,
    snarl_vacant, snarl_wires, wires,
};
use vstd::prelude::*;

verus! {

/// The editor's graph, the selection in it, and whether its wiring changed.
pub struct GraphView {
    /// The graph itself.
    pub snarl: Snarl<SonidoNode>,
    /// Currently selected node, if any.
    pub selected_node: Option<usize>,
    /// Whether an edit changed the topology since this was last cleared.
    pub topology_changed: bool,
}

/// The mathematical value of a [`SonidoNode`].
#[verifier::ext_equal]
pub enum NodeView {
    Input,
    Output,
    Effect {
        effect_id: Seq<char>,
        name: Seq<char>,
        category: EffectCategory,
        descriptors: Seq<ParamInfo>,
    },
    Split,
    Merge,
}

impl View for SonidoNode {
    type V = NodeView;

    open spec fn view(&self) -> NodeView {
        match self {
            SonidoNode::Input => NodeView::Input,
            SonidoNode::Output => NodeView::Output,
            SonidoNode::Effect { effect_id, name, category, descriptors } => NodeView::Effect {
                effect_id: effect_id@,
                name: name@,
                category: *category,
                descriptors: descriptors@,
            },
            SonidoNode::Split => NodeView::Split,
            SonidoNode::Merge => NodeView::Merge,
        }
    }
}

impl Clone for SonidoNode {
    fn clone(&self) -> (r: Self)
        ensures
            r@ == self@,
    {
        match self {
            SonidoNode::Input => SonidoNode::Input,
            SonidoNode::Output => SonidoNode::Output,
            SonidoNode::Effect { effect_id, name, category, descriptors } => SonidoNode::Effect {
                effect_id: effect_id.clone(),
                name: name.clone(),
                category: *category,
                descriptors: clone_params(descriptors),
            },
            SonidoNode::Split => SonidoNode::Split,
            SonidoNode::Merge => SonidoNode::Merge,
        }
    }
}

/// The node with the largest id among those that satisfy `pred`.
pub open spec fn is_last(
    nodes: Map<usize, SonidoNode>,
    pred: spec_fn(SonidoNode) -> bool,
    id: usize,
) -> bool {
    &&& nodes.contains_key(id)
    &&& pred(nodes[id])
    &&& forall|j: usize| #[trigger] nodes.contains_key(j) && pred(nodes[j]) ==> j <= id
}

/// The largest id of a node that satisfies `pred`, if there is one.
pub open spec fn last_with(nodes: Map<usize, SonidoNode>, pred: spec_fn(SonidoNode) -> bool) -> Option<
    usize,
> {
    if exists|id: usize| is_last(nodes, pred, id) {
        Some(choose|id: usize| is_last(nodes, pred, id))
    } else {
        None
    }
}

/// The input node of a graph: the last one, where there are several.
pub open spec fn input_of(nodes: Map<usize, SonidoNode>) -> Option<usize> {
    last_with(nodes, |n: SonidoNode| n is Input)
}

/// The output node of a graph: the last one, where there are several.
pub open spec fn output_of(nodes: Map<usize, SonidoNode>) -> Option<usize> {
    last_with(nodes, |n: SonidoNode| n is Output)
}

/// The wire from the first output of one node to the first input of another.
pub open spec fn plain_wire(from: usize, to: usize) -> Wire {
    Wire { from, output: 0, to, input: 0 }
}

/// Whether a wire leads to a node.
pub open spec fn fed(ws: Set<Wire>, node: usize) -> bool {
    exists|w: Wire| #[trigger] ws.contains(w) && w.to == node
}

/// Whether a wire leads from an output pin to a node.
pub open spec fn feeds(ws: Set<Wire>, from: usize, output: usize, node: usize) -> bool {
    exists|w: Wire|
        #[trigger] ws.contains(w) && w.from == from && w.output == output && w.to == node
}

/// The wires from everything that feeds `output` to the first input of `new`.
pub open spec fn rerouted(ws: Set<Wire>, output: usize, new: usize) -> Set<Wire> {
    Set::new(|w: Wire| w.to == new && w.input == 0 && feeds(ws, w.from, w.output, output))
}

/// The wires after a node has been put in front of the output: what fed the
/// output feeds it, or the input does where nothing fed the output, and it feeds
/// the output. Without an output nothing changes.
pub open spec fn appended(nodes: Map<usize, SonidoNode>, ws: Set<Wire>, new: usize) -> Set<Wire> {
    match output_of(nodes) {
        None => ws,
        Some(output) => {
            let through = if fed(ws, output) {
                ws.filter(|w: Wire| !(w.to == output && w.input == 0)).union(
                    rerouted(ws, output, new),
                )
            } else {
                match input_of(nodes) {
                    Some(input) => ws.insert(plain_wire(input, new)),
                    None => ws,
                }
            };
            through.insert(plain_wire(new, output))
        },
    }
}

/// A largest id is the only one.
proof fn last_is_unique(nodes: Map<usize, SonidoNode>, pred: spec_fn(SonidoNode) -> bool, id: usize)
    requires
        is_last(nodes, pred, id),
    ensures
        last_with(nodes, pred) == Some(id),
{
    let other = choose|id: usize| is_last(nodes, pred, id);
    assert(is_last(nodes, pred, other));
    assert(nodes.contains_key(other) && nodes.contains_key(id));
}

/// Without a match there is no largest one.
proof fn no_last(nodes: Map<usize, SonidoNode>, pred: spec_fn(SonidoNode) -> bool)
    requires
        forall|j: usize| #[trigger] nodes.contains_key(j) ==> !pred(nodes[j]),
    ensures
        last_with(nodes, pred) is None,
{
}

/// The input and the output node of a graph.
pub fn io_nodes(snarl: &Snarl<SonidoNode>) -> (r: (Option<usize>, Option<usize>))
    ensures
        r.0 == input_of(snarl_nodes(*snarl)),
        r.1 == output_of(snarl_nodes(*snarl)),
        r.0 matches Some(id) ==> snarl_nodes(*snarl).contains_key(id) && snarl_nodes(
            *snarl,
        )[id] is Input,
        r.1 matches Some(id) ==> snarl_nodes(*snarl).contains_key(id) && snarl_nodes(
            *snarl,
        )[id] is Output,
{
    let ghost nodes = snarl_nodes(*snarl);
    let ghost is_input = |n: SonidoNode| n is Input;
    let ghost is_output = |n: SonidoNode| n is Output;
    let ids = node_ids(snarl);
    let mut input: Option<usize> = None;
    let mut output: Option<usize> = None;
    let mut i: usize = 0;
    while i < ids.len()
        invariant
            i <= ids@.len(),
            nodes == snarl_nodes(*snarl),
            is_input == (|n: SonidoNode| n is Input),
            is_output == (|n: SonidoNode| n is Output),
            ascending(ids@),
            ids@.to_set() == nodes.dom(),
            match input {
                Some(id) => exists|k: int| 0 <= k < i && #[trigger] ids@[k] == id && nodes[id] is Input,
                None => true,
            },
            forall|k: int|
                0 <= k < i && nodes[#[trigger] ids@[k]] is Input ==> input is Some && ids@[k]
                    <= input->Some_0,
            match output {
                Some(id) => exists|k: int|
                    0 <= k < i && #[trigger] ids@[k] == id && nodes[id] is Output,
                None => true,
            },
            forall|k: int|
                0 <= k < i && nodes[#[trigger] ids@[k]] is Output ==> output is Some && ids@[k]
                    <= output->Some_0,
        decreases ids@.len() - i,
    {
        let id: usize = ids[i];
        assert(ids@.to_set().contains(ids@[i as int]));
        match find_node(snarl, id) {
            Some(SonidoNode::Input) => {
                input = Some(id);
            },
            Some(SonidoNode::Output) => {
                output = Some(id);
            },
            _ => {},
        }
        i = i + 1;
    }
    proof {
        assert forall|j: usize| #[trigger] nodes.contains_key(j) implies exists|k: int|
            0 <= k < ids@.len() && ids@[k] == j by {
            assert(ids@.to_set().contains(j));
        }
        match input {
            Some(id) => {
                let k = choose|k: int| 0 <= k < i && #[trigger] ids@[k] == id;
                assert(ids@.to_set().contains(ids@[k]));
                assert(is_last(nodes, is_input, id));
                last_is_unique(nodes, is_input, id);
            },
            None => no_last(nodes, is_input),
        }
        match output {
            Some(id) => {
                let k = choose|k: int| 0 <= k < i && #[trigger] ids@[k] == id;
                assert(ids@.to_set().contains(ids@[k]));
                assert(is_last(nodes, is_output, id));
                last_is_unique(nodes, is_output, id);
            },
            None => no_last(nodes, is_output),
        }
    }
    (input, output)
}

/// Put a node into the chain just in front of the output: reroutes everything
/// that feeds the output through it, or wires the input to it where nothing did.
pub fn append_before_output(snarl: &mut Snarl<SonidoNode>, new_id: usize)
    requires
        snarl_nodes(*old(snarl)).contains_key(new_id),
    ensures
        snarl_nodes(*final(snarl)) == snarl_nodes(*old(snarl)),
        snarl_places(*final(snarl)) == snarl_places(*old(snarl)),
        snarl_vacant(*final(snarl)) == snarl_vacant(*old(snarl)),
        snarl_wires(*final(snarl)) == appended(
            snarl_nodes(*old(snarl)),
            snarl_wires(*old(snarl)),
            new_id,
        ),
{
    let (input, output) = io_nodes(snarl);
    let output: usize = match output {
        Some(id) => id,
        None => {
            return ;
        },
    };
    let ghost nodes = snarl_nodes(*snarl);
    let ghost before = snarl_wires(*snarl);
    let ws = wires(snarl);
    let mut any_feeder = false;
    let ghost mut gone: Set<Wire> = Set::empty();
    let ghost mut come: Set<Wire> = Set::empty();
    assert(before.difference(gone).union(come) =~= before);
    let mut i: usize = 0;
    while i < ws.len()
        invariant
            i <= ws@.len(),
            ws@.to_set() == before,
            nodes == snarl_nodes(*old(snarl)),
            nodes.contains_key(new_id),
            nodes.contains_key(output),
            snarl_nodes(*snarl) == nodes,
            snarl_places(*snarl) == snarl_places(*old(snarl)),
            snarl_vacant(*snarl) == snarl_vacant(*old(snarl)),
            forall|k: int| 0 <= k < ws@.len() ==> nodes.contains_key((#[trigger] ws@[k]).from),
            any_feeder == exists|k: int| 0 <= k < i && (#[trigger] ws@[k]).to == output,
            forall|w: Wire|
                #[trigger] gone.contains(w) <==> w.to == output && w.input == 0 && exists|k: int|
                    0 <= k < i && (#[trigger] ws@[k]).to == output && ws@[k].from == w.from
                        && ws@[k].output == w.output,
            forall|w: Wire|
                #[trigger] come.contains(w) <==> w.to == new_id && w.input == 0 && exists|k: int|
                    0 <= k < i && (#[trigger] ws@[k]).to == output && ws@[k].from == w.from
                        && ws@[k].output == w.output,
            snarl_wires(*snarl) == before.difference(gone).union(come),
        decreases ws@.len() - i,
    {
        let w: Wire = ws[i];
        let ghost g = gone;
        let ghost c = come;
        if w.to == output {
            any_feeder = true;
            let cut = Wire { from: w.from, output: w.output, to: output, input: 0 };
            let lead = Wire { from: w.from, output: w.output, to: new_id, input: 0 };
            disconnect(snarl, cut);
            connect(snarl, lead);
            proof {
                gone = gone.insert(cut);
                come = come.insert(lead);
                // A wire that is cut was added only where the node is the output itself.
                assert(c.contains(cut) ==> cut == lead);
                assert(before.difference(g).union(c).remove(cut).insert(lead) =~= before.difference(
                    gone,
                ).union(come));
            }
        }
        proof {
            assert forall|v: Wire| #[trigger]
                gone.contains(v) <==> v.to == output && v.input == 0 && exists|k: int|
                    0 <= k < i + 1 && (#[trigger] ws@[k]).to == output && ws@[k].from == v.from
                        && ws@[k].output == v.output by {
                if gone.contains(v) && !g.contains(v) {
                    assert(ws@[i as int].to == output);
                }
            }
            assert forall|v: Wire| #[trigger]
                come.contains(v) <==> v.to == new_id && v.input == 0 && exists|k: int|
                    0 <= k < i + 1 && (#[trigger] ws@[k]).to == output && ws@[k].from == v.from
                        && ws@[k].output == v.output by {
                if come.contains(v) && !c.contains(v) {
                    assert(ws@[i as int].to == output);
                }
            }
        }
        i = i + 1;
    }
    proof {
        assert(any_feeder == fed(before, output)) by {
            if any_feeder {
                let k = choose|k: int| 0 <= k < ws@.len() && (#[trigger] ws@[k]).to == output;
                assert(ws@.to_set().contains(ws@[k]));
            }
            if fed(before, output) {
                let w = choose|w: Wire| #[trigger] before.contains(w) && w.to == output;
                assert(ws@.to_set().contains(w));
                let k = ws@.index_of(w);
                assert(ws@[k].to == output);
            }
        }
        assert forall|w: Wire|
            feeds(before, w.from, w.output, output) <==> exists|k: int|
                0 <= k < ws@.len() && (#[trigger] ws@[k]).to == output && ws@[k].from == w.from
                    && ws@[k].output == w.output by {
            if feeds(before, w.from, w.output, output) {
                let v = choose|v: Wire|
                    #[trigger] before.contains(v) && v.from == w.from && v.output == w.output
                        && v.to == output;
                assert(ws@.to_set().contains(v));
                let k = ws@.index_of(v);
                assert(ws@[k].to == output);
            }
            if exists|k: int|
                0 <= k < ws@.len() && (#[trigger] ws@[k]).to == output && ws@[k].from == w.from
                    && ws@[k].output == w.output {
                let k = choose|k: int|
                    0 <= k < ws@.len() && (#[trigger] ws@[k]).to == output && ws@[k].from == w.from
                        && ws@[k].output == w.output;
                assert(ws@.to_set().contains(ws@[k]));
            }
        }
        assert(come =~= rerouted(before, output, new_id));
        let kept = before.filter(|w: Wire| !(w.to == output && w.input == 0));
        assert(before.difference(gone) =~= kept) by {
            assert forall|w: Wire| before.contains(w) && w.to == output && w.input
                == 0 implies gone.contains(w) by {
                assert(feeds(before, w.from, w.output, output));
            }
        }
    }
    if !any_feeder {
        assert(come =~= Set::empty()) by {
            assert forall|w: Wire| !come.contains(w) by {
                assert(!feeds(before, w.from, w.output, output));
            }
        }
        assert(snarl_wires(*snarl) =~= before) by {
            assert forall|w: Wire| before.contains(w) implies !gone.contains(w) by {}
        }
        match input {
            Some(input) => {
                connect(snarl, Wire { from: input, output: 0, to: new_id, input: 0 });
            },
            None => {},
        }
    }
    connect(snarl, Wire { from: new_id, output: 0, to: output, input: 0 });
}

/// How far right a node stands.
pub open spec fn x_of(places: Map<usize, Seq<Bits>>, id: usize) -> Bits {
    places[id][0]
}

/// Whether a node can be wired to the output for want of another.
pub open spec fn can_feed(
    nodes: Map<usize, SonidoNode>,
    places: Map<usize, Seq<Bits>>,
    id: usize,
) -> bool {
    nodes.contains_key(id) && !(nodes[id] is Output) && lt(BITS_NEG_INFINITY, x_of(places, id))
}

/// The rightmost node that is not an output: no other stands further right, and
/// none with a smaller id stands as far right.
pub open spec fn is_rightmost(
    nodes: Map<usize, SonidoNode>,
    places: Map<usize, Seq<Bits>>,
    id: usize,
) -> bool {
    &&& can_feed(nodes, places, id)
    &&& forall|j: usize| #[trigger]
        can_feed(nodes, places, j) ==> le(x_of(places, j), x_of(places, id)) && (same(
            x_of(places, j),
            x_of(places, id),
        ) ==> id <= j)
}

/// What keeping the output reachable leaves: the same wires where something
/// feeds the output or there is none, else one wire more, from the rightmost
/// node.
pub open spec fn output_kept(
    nodes: Map<usize, SonidoNode>,
    places: Map<usize, Seq<Bits>>,
    before: Set<Wire>,
    after: Set<Wire>,
) -> bool {
    match output_of(nodes) {
        None => after == before,
        Some(output) => if fed(before, output) {
            after == before
        } else if exists|id: usize| is_rightmost(nodes, places, id) {
            exists|id: usize| #[trigger]
                is_rightmost(nodes, places, id) && after == before.insert(plain_wire(id, output))
        } else {
            after == before
        },
    }
}

/// Keep the output reachable: if nothing feeds it (as after the last node of the
/// chain was removed), connect the node nearest to it, the rightmost, so that the
/// graph never goes silently disconnected.
pub fn ensure_output_connected(snarl: &mut Snarl<SonidoNode>)
    ensures
        snarl_nodes(*final(snarl)) == snarl_nodes(*old(snarl)),
        snarl_places(*final(snarl)) == snarl_places(*old(snarl)),
        snarl_vacant(*final(snarl)) == snarl_vacant(*old(snarl)),
        output_kept(
            snarl_nodes(*old(snarl)),
            snarl_places(*old(snarl)),
            snarl_wires(*old(snarl)),
            snarl_wires(*final(snarl)),
        ),
{
    let (_, output) = io_nodes(snarl);
    let output: usize = match output {
        Some(id) => id,
        None => {
            return ;
        },
    };
    let ghost nodes = snarl_nodes(*snarl);
    let ghost places = snarl_places(*snarl);
    let ws = wires(snarl);
    let mut i: usize = 0;
    while i < ws.len()
        invariant
            i <= ws@.len(),
            ws@.to_set() == snarl_wires(*old(snarl)),
            *snarl == *old(snarl),
            nodes == snarl_nodes(*old(snarl)),
            output_of(nodes) == Some(output),
            forall|k: int| 0 <= k < i ==> (#[trigger] ws@[k]).to != output,
        decreases ws@.len() - i,
    {
        if ws[i].to == output {
            assert(ws@.to_set().contains(ws@[i as int]));
            return ;
        }
        i = i + 1;
    }
    assert(!fed(snarl_wires(*snarl), output)) by {
        assert forall|w: Wire| #[trigger] snarl_wires(*snarl).contains(w) implies w.to
            != output by {
            assert(ws@.to_set().contains(w));
            let k = ws@.index_of(w);
            assert(ws@[k].to != output);
        }
    }
    let ids = node_ids(snarl);
    let mut best: Option<usize> = None;
    let mut best_x: Bits = BITS_NEG_INFINITY;
    let mut i: usize = 0;
    while i < ids.len()
        invariant
            i <= ids@.len(),
            *snarl == *old(snarl),
            nodes == snarl_nodes(*snarl),
            places == snarl_places(*snarl),
            ascending(ids@),
            ids@.to_set() == nodes.dom(),
            !is_nan(best_x),
            match best {
                Some(id) => can_feed(nodes, places, id) && best_x == x_of(places, id)
                    && exists|k: int| 0 <= k < i && #[trigger] ids@[k] == id,
                None => best_x == BITS_NEG_INFINITY,
            },
            forall|k: int|
                0 <= k < i && can_feed(nodes, places, #[trigger] ids@[k]) ==> best is Some && le(
                    x_of(places, ids@[k]),
                    best_x,
                ) && (same(x_of(places, ids@[k]), best_x) ==> best->Some_0 <= ids@[k]),
        decreases ids@.len() - i,
    {
        let id: usize = ids[i];
        assert(ids@.to_set().contains(ids@[i as int]));
        match find_node(snarl, id) {
            Some(SonidoNode::Output) => {},
            Some(_) => {
                match node_coords(snarl, id) {
                    Some((x, _)) => {
                        assert(x_of(places, id) == x);
                        if bits_lt(best_x, x) {
                            best_x = x;
                            best = Some(id);
                        }
                    },
                    None => {},
                }
            },
            None => {},
        }
        i = i + 1;
    }
    proof {
        assert forall|j: usize| #[trigger] can_feed(nodes, places, j) implies exists|k: int|
            0 <= k < ids@.len() && ids@[k] == j by {
            assert(ids@.to_set().contains(j));
        }
        if let Some(id) = best {
            assert(is_rightmost(nodes, places, id));
        }
    }
    if let Some(node) = best {
        connect(snarl, Wire { from: node, output: 0, to: output, input: 0 });
    }
}

/// The wires after a node has been put into a wire.
pub open spec fn spliced(ws: Set<Wire>, wire: Wire, new: usize) -> Set<Wire> {
    ws.remove(wire).insert(Wire { to: new, input: 0, ..wire }).insert(
        Wire { from: new, output: 0, ..wire },
    )
}

/// The wires into which a new node could be put: those that do not touch it.
pub fn splice_candidates(snarl: &Snarl<SonidoNode>, new_id: usize) -> (r: Vec<Wire>)
    ensures
        r@.no_duplicates(),
        r@.to_set() == snarl_wires(*snarl).filter(|w: Wire| w.from != new_id && w.to != new_id),
{
    let ws = wires(snarl);
    let ghost keep = |w: Wire| w.from != new_id && w.to != new_id;
    let mut r: Vec<Wire> = Vec::new();
    let mut i: usize = 0;
    while i < ws.len()
        invariant
            i <= ws@.len(),
            keep == (|w: Wire| w.from != new_id && w.to != new_id),
            ws@.no_duplicates(),
            r@.no_duplicates(),
            forall|k: int| 0 <= k < r@.len() ==> keep(#[trigger] r@[k]),
            forall|k: int|
                0 <= k < r@.len() ==> exists|j: int| 0 <= j < i && ws@[j] == #[trigger] r@[k],
            forall|j: int| 0 <= j < i && keep(#[trigger] ws@[j]) ==> r@.contains(ws@[j]),
        decreases ws@.len() - i,
    {
        let w: Wire = ws[i];
        let ghost before = r@;
        if w.from != new_id && w.to != new_id {
            assert(!r@.contains(w)) by {
                if r@.contains(w) {
                    let k = r@.index_of(w);
                    assert(r@[k] == w);
                    let j = choose|j: int| 0 <= j < i && ws@[j] == r@[k];
                    assert(ws@[j] == ws@[i as int]);
                }
            }
            r.push(w);
            assert(r@[before.len() as int] == w);
            assert forall|j: int| 0 <= j < i + 1 && keep(#[trigger] ws@[j]) implies r@.contains(
                ws@[j],
            ) by {
                push_contains_iff(before, w, ws@[j]);
            }
        }
        i = i + 1;
    }
    proof {
        let want = snarl_wires(*snarl).filter(keep);
        assert forall|w: Wire| r@.to_set().contains(w) <==> want.contains(w) by {
            if r@.contains(w) {
                let k = r@.index_of(w);
                let j = choose|j: int| 0 <= j < ws@.len() && ws@[j] == r@[k];
                assert(ws@.to_set().contains(ws@[j]));
            }
            if want.contains(w) {
                assert(ws@.to_set().contains(w));
                let j = ws@.index_of(w);
                assert(keep(ws@[j]));
            }
        }
        assert(r@.to_set() =~= want);
    }
    r
}

/// Whether a distance is the first of the smallest, and finite.
pub open spec fn is_nearest(distances: Seq<Bits>, i: int) -> bool {
    &&& 0 <= i < distances.len()
    &&& lt(distances[i], BITS_INFINITY)
    &&& forall|j: int| 0 <= j < distances.len() ==> !lt(#[trigger] distances[j], distances[i])
    &&& forall|j: int| 0 <= j < i ==> !le(#[trigger] distances[j], distances[i])
}

/// The first of the smallest of some distances; none where all are infinite or no
/// numbers.
pub fn nearest_of(distances: &[Bits]) -> (r: Option<usize>)
    ensures
        match r {
            Some(i) => is_nearest(distances@, i as int),
            None => forall|j: int|
                0 <= j < distances@.len() ==> !lt(#[trigger] distances@[j], BITS_INFINITY),
        },
{
    let mut best: Option<usize> = None;
    let mut least: Bits = BITS_INFINITY;
    let mut i: usize = 0;
    while i < distances.len()
        invariant
            i <= distances@.len(),
            !is_nan(least),
            match best {
                Some(b) => b < i && least == distances@[b as int] && lt(least, BITS_INFINITY) && (
                forall|j: int| 0 <= j < b ==> !le(#[trigger] distances@[j], least)),
                None => least == BITS_INFINITY,
            },
            forall|j: int| 0 <= j < i ==> !lt(#[trigger] distances@[j], least),
        decreases distances@.len() - i,
    {
        if bits_lt(distances[i], least) {
            least = distances[i];
            best = Some(i);
        }
        i = i + 1;
    }
    best
}

/// Put a freshly added node into the wire nearest to where it was dropped, which
/// the caller has picked among [`splice_candidates`]. Without one it goes just in
/// front of the output.
pub fn splice_at_nearest(snarl: &mut Snarl<SonidoNode>, new_id: usize, nearest: Option<Wire>)
    requires
        snarl_nodes(*old(snarl)).contains_key(new_id),
        nearest matches Some(w) ==> snarl_nodes(*old(snarl)).contains_key(w.from) && snarl_nodes(
            *old(snarl),
        ).contains_key(w.to),
    ensures
        snarl_nodes(*final(snarl)) == snarl_nodes(*old(snarl)),
        snarl_places(*final(snarl)) == snarl_places(*old(snarl)),
        snarl_vacant(*final(snarl)) == snarl_vacant(*old(snarl)),
        snarl_wires(*final(snarl)) == (match nearest {
            Some(w) => spliced(snarl_wires(*old(snarl)), w, new_id),
            None => appended(snarl_nodes(*old(snarl)), snarl_wires(*old(snarl)), new_id),
        }),
{
    match nearest {
        Some(w) => {
            disconnect(snarl, w);
            connect(snarl, Wire { from: w.from, output: w.output, to: new_id, input: 0 });
            connect(snarl, Wire { from: new_id, output: 0, to: w.to, input: w.input });
        },
        None => {
            append_before_output(snarl, new_id);
        },
    }
}

/// The ids of the effect nodes.
pub open spec fn effects_of(nodes: Map<usize, SonidoNode>) -> Set<usize> {
    Set::new(|id: usize| nodes.contains_key(id) && nodes[id] is Effect)
}

/// The effect nodes in chain-slot order: by ascending id.
pub open spec fn is_chain(nodes: Map<usize, SonidoNode>, ids: Seq<usize>) -> bool {
    ascending(ids) && ids.to_set() == effects_of(nodes)
}

/// An ascending listing of a set is the only one.
pub proof fn ascending_listing_is_unique(a: Seq<usize>, b: Seq<usize>)
    requires
        ascending(a),
        ascending(b),
        a.to_set() == b.to_set(),
    ensures
        a == b,
    decreases a.len(),
{
    if a.len() == 0 {
        if b.len() > 0 {
            assert(b.to_set().contains(b[0]));
            assert(a.to_set().contains(b[0]));
        }
        assert(a =~= b);
    } else {
        let x = a.last();
        assert(a.to_set().contains(x));
        assert(b.contains(x));
        let k = b.index_of(x);
        let y = b.last();
        assert(b.to_set().contains(y));
        assert(a.contains(y));
        let l = a.index_of(y);
        assert(a[l] <= x) by {
            if l < a.len() - 1 {
                assert(a[l] < a[a.len() - 1]);
            }
        }
        assert(b[k] <= y) by {
            if k < b.len() - 1 {
                assert(b[k] < b[b.len() - 1]);
            }
        }
        assert(x == y);
        let fa = a.drop_last();
        let fb = b.drop_last();
        assert(fa.push(x) =~= a);
        assert(fb.push(x) =~= b);
        assert(!fa.contains(x)) by {
            if fa.contains(x) {
                let i = fa.index_of(x);
                assert(a[i] < a[a.len() - 1]);
            }
        }
        assert(!fb.contains(x)) by {
            if fb.contains(x) {
                let i = fb.index_of(x);
                assert(b[i] < b[b.len() - 1]);
            }
        }
        assert forall|z: usize| #[trigger] fa.to_set().contains(z) <==> fb.to_set().contains(z) by {
            push_contains_iff(fa, x, z);
            push_contains_iff(fb, x, z);
            if a.contains(z) {
                assert(a.to_set().contains(z));
                assert(b.to_set().contains(z));
            }
            if b.contains(z) {
                assert(b.to_set().contains(z));
                assert(a.to_set().contains(z));
            }
        }
        assert(fa.to_set() =~= fb.to_set());
        ascending_listing_is_unique(fa, fb);
        assert(a =~= fa.push(x));
        assert(b =~= fb.push(x));
    }
}

impl GraphView {
    /// A graph with an input and an output at the given points, wired so that
    /// audio passes through.
    pub fn new(input_pos: egui::Pos2, output_pos: egui::Pos2) -> (gv: Self)
        ensures
            snarl_nodes(gv.snarl) == map![0usize => SonidoNode::Input, 1usize => SonidoNode::Output],
            snarl_wires(gv.snarl) == set![plain_wire(0, 1)],
            snarl_places(gv.snarl) == map![
                0usize => pos_coords(input_pos),
                1usize => pos_coords(output_pos),
            ],
            snarl_vacant(gv.snarl).is_empty(),
            gv.selected_node is None,
            !gv.topology_changed,
    {
        let mut snarl = empty_snarl();
        assert(snarl_nodes(snarl).dom() =~= Set::empty());
        let input: usize = insert_node(&mut snarl, input_pos, SonidoNode::Input);
        assert(input == 0);
        assert(snarl_nodes(snarl).dom() =~= Set::empty().insert(0usize));
        assert(snarl_vacant(snarl) =~= Set::empty());
        let output: usize = insert_node(&mut snarl, output_pos, SonidoNode::Output);
        assert(output == 1);
        connect(&mut snarl, Wire { from: input, output: 0, to: output, input: 0 });
        assert(snarl_nodes(snarl) =~= map![
            0usize => SonidoNode::Input,
            1usize => SonidoNode::Output,
        ]);
        assert(snarl_places(snarl) =~= map![
            0usize => pos_coords(input_pos),
            1usize => pos_coords(output_pos),
        ]);
        assert(snarl_wires(snarl) =~= set![plain_wire(0, 1)]);
        GraphView { snarl, selected_node: None, topology_changed: false }
    }

    /// Whether there is a node with an id.
    pub fn has_node(&self, id: usize) -> (r: bool)
        ensures
            r == snarl_nodes(self.snarl).contains_key(id),
    {
        find_node(&self.snarl, id).is_some()
    }

    /// The graph's effect nodes in chain-slot order. Their ids are stable across
    /// reordering.
    pub fn effect_node_ids(&self) -> (r: Vec<usize>)
        ensures
            is_chain(snarl_nodes(self.snarl), r@),
    {
        let ghost nodes = snarl_nodes(self.snarl);
        let ids = node_ids(&self.snarl);
        let mut r: Vec<usize> = Vec::new();
        let mut i: usize = 0;
        while i < ids.len()
            invariant
                i <= ids@.len(),
                nodes == snarl_nodes(self.snarl),
                ascending(ids@),
                ids@.to_set() == nodes.dom(),
                ascending(r@),
                forall|k: int|
                    0 <= k < r@.len() ==> effects_of(nodes).contains(#[trigger] r@[k])
                        && exists|j: int| 0 <= j < i && ids@[j] == r@[k],
                forall|j: int|
                    0 <= j < i && nodes[#[trigger] ids@[j]] is Effect ==> r@.contains(ids@[j]),
            decreases ids@.len() - i,
        {
            let id: usize = ids[i];
            let ghost before = r@;
            assert(ids@.to_set().contains(ids@[i as int]));
            if is_effect(&self.snarl, id) {
                r.push(id);
                assert(r@[before.len() as int] == id);
                assert forall|k: int, l: int| 0 <= k < l < r@.len() implies #[trigger] r@[k]
                    < #[trigger] r@[l] by {
                    assert(r@[k] == before[k]);
                    let j = choose|j: int| 0 <= j < i && ids@[j] == before[k];
                    if l < before.len() {
                        assert(r@[l] == before[l]);
                    } else {
                        assert(ids@[j] < ids@[i as int]);
                    }
                }
            }
            assert forall|j: int|
                0 <= j < i + 1 && nodes[#[trigger] ids@[j]] is Effect implies r@.contains(
                ids@[j],
            ) by {
                push_contains_iff(before, id, ids@[j]);
            }
            i = i + 1;
        }
        proof {
            assert forall|id: usize| r@.to_set().contains(id) <==> effects_of(nodes).contains(
                id,
            ) by {
                if effects_of(nodes).contains(id) {
                    assert(ids@.to_set().contains(id));
                    let j = ids@.index_of(id);
                    assert(nodes[ids@[j]] is Effect);
                }
                if r@.contains(id) {
                    let k = r@.index_of(id);
                    assert(effects_of(nodes).contains(r@[k]));
                }
            }
            assert(r@.to_set() =~= effects_of(nodes));
        }
        r
    }

    /// How many effect nodes the graph has.
    pub fn effect_node_count(&self) -> (n: usize)
        ensures
            n == effects_of(snarl_nodes(self.snarl)).len(),
    {
        let ids = self.effect_node_ids();
        proof {
            assert(ids@.no_duplicates()) by {
                assert forall|i: int, j: int|
                    0 <= i < ids@.len() && 0 <= j < ids@.len() && i != j implies ids@[i]
                    != ids@[j] by {
                    if i < j {
                        assert(ids@[i] < ids@[j]);
                    } else {
                        assert(ids@[j] < ids@[i]);
                    }
                }
            }
            ids@.unique_seq_to_set();
        }
        ids.len()
    }

    /// The chain slot of the selected effect: its index among the effect nodes.
    pub fn selected_slot(&self) -> (r: Option<usize>)
        ensures
            forall|ids: Seq<usize>| #[trigger]
                is_chain(snarl_nodes(self.snarl), ids) ==> match r {
                    Some(slot) => slot < ids.len() && self.selected_node == Some(
                        ids[slot as int],
                    ),
                    None => self.selected_node matches Some(id) ==> !ids.contains(id),
                },
    {
        let ids = self.effect_node_ids();
        let ghost nodes = snarl_nodes(self.snarl);
        let mut r: Option<usize> = None;
        match self.selected_node {
            Some(selected) => {
                let mut i: usize = 0;
                while i < ids.len()
                    invariant
                        i <= ids@.len(),
                        r matches Some(slot) ==> slot < ids@.len() && ids@[slot as int] == selected,
                        r is None ==> forall|k: int| 0 <= k < i ==> ids@[k] != selected,
                    decreases ids@.len() - i,
                {
                    if ids[i] == selected {
                        r = Some(i);
                    }
                    i = i + 1;
                }
            },
            None => {},
        }
        proof {
            assert forall|other: Seq<usize>| #[trigger] is_chain(nodes, other) implies other
                == ids@ by {
                ascending_listing_is_unique(other, ids@);
            }
        }
        r
    }

    /// Whether the selected node is an editable effect.
    pub fn selected_is_effect(&self) -> (r: bool)
        requires
            self.selected_node matches Some(id) ==> snarl_nodes(self.snarl).contains_key(id),
        ensures
            r == (self.selected_node matches Some(id) && snarl_nodes(self.snarl)[id] is Effect),
    {
        match self.selected_node {
            Some(id) => is_effect(&self.snarl, id),
            None => false,
        }
    }

    /// Add an effect node, as the last in front of the output, and select it.
    /// Gives its id.
    pub fn add_effect_node(&mut self, node: SonidoNode, pos: egui::Pos2) -> (id: usize)
        ensures
            !snarl_nodes(old(self).snarl).contains_key(id),
            snarl_nodes(final(self).snarl) == snarl_nodes(old(self).snarl).insert(id, node),
            snarl_places(final(self).snarl) == snarl_places(old(self).snarl).insert(
                id,
                pos_coords(pos),
            ),
            snarl_wires(final(self).snarl) == appended(
                snarl_nodes(final(self).snarl),
                snarl_wires(old(self).snarl),
                id,
            ),
            final(self).selected_node == Some(id),
            final(self).topology_changed,
    {
        let id: usize = insert_node(&mut self.snarl, pos, node);
        append_before_output(&mut self.snarl, id);
        self.selected_node = Some(id);
        self.topology_changed = true;
        id
    }

    /// Add a node at a point and put it into the wire nearest to it, which the
    /// caller has picked. Gives its id.
    pub fn insert_spliced(&mut self, node: SonidoNode, pos: egui::Pos2, nearest: Option<Wire>) -> (id:
        usize)
        requires
            nearest matches Some(w) ==> snarl_nodes(old(self).snarl).contains_key(w.from)
                && snarl_nodes(old(self).snarl).contains_key(w.to),
        ensures
            !snarl_nodes(old(self).snarl).contains_key(id),
            snarl_nodes(final(self).snarl) == snarl_nodes(old(self).snarl).insert(id, node),
            snarl_places(final(self).snarl) == snarl_places(old(self).snarl).insert(
                id,
                pos_coords(pos),
            ),
            snarl_wires(final(self).snarl) == (match nearest {
                Some(w) => spliced(snarl_wires(old(self).snarl), w, id),
                None => appended(
                    snarl_nodes(final(self).snarl),
                    snarl_wires(old(self).snarl),
                    id,
                ),
            }),
            final(self).selected_node == old(self).selected_node,
            final(self).topology_changed,
    {
        let id: usize = insert_node(&mut self.snarl, pos, node);
        splice_at_nearest(&mut self.snarl, id, nearest);
        self.topology_changed = true;
        id
    }

    /// Remove a node and its wires, keep the output reachable, and drop the
    /// selection if it was on the node.
    pub fn remove_node(&mut self, node: usize)
        requires
            snarl_nodes(old(self).snarl).contains_key(node),
        ensures
            snarl_nodes(final(self).snarl) == snarl_nodes(old(self).snarl).remove(node),
            snarl_places(final(self).snarl) == snarl_places(old(self).snarl).remove(node),
            output_kept(
                snarl_nodes(final(self).snarl),
                snarl_places(final(self).snarl),
                snarl_wires(old(self).snarl).filter(|w: Wire| w.from != node && w.to != node),
                snarl_wires(final(self).snarl),
            ),
            final(self).selected_node == (if old(self).selected_node == Some(node) {
                None
            } else {
                old(self).selected_node
            }),
            final(self).topology_changed,
    {
        if let Some(selected) = self.selected_node {
            if selected == node {
                self.selected_node = None;
            }
        }
        let _ = remove_node(&mut self.snarl, node);
        ensure_output_connected(&mut self.snarl);
        self.topology_changed = true;
    }

    /// Add an unwired copy of a node at a point. Gives its id.
    pub fn copy_node(&mut self, node: usize, pos: egui::Pos2) -> (id: usize)
        requires
            snarl_nodes(old(self).snarl).contains_key(node),
        ensures
            !snarl_nodes(old(self).snarl).contains_key(id),
            snarl_nodes(final(self).snarl).dom() == snarl_nodes(old(self).snarl).dom().insert(id),
            forall|k: usize| #[trigger]
                snarl_nodes(old(self).snarl).contains_key(k) ==> snarl_nodes(final(self).snarl)[k]
                    == snarl_nodes(old(self).snarl)[k],
            snarl_nodes(final(self).snarl)[id]@ == snarl_nodes(old(self).snarl)[node]@,
            snarl_places(final(self).snarl) == snarl_places(old(self).snarl).insert(
                id,
                pos_coords(pos),
            ),
            snarl_wires(final(self).snarl) == snarl_wires(old(self).snarl),
            final(self).selected_node == old(self).selected_node,
            final(self).topology_changed,
    {
        let copy = find_node(&self.snarl, node).unwrap().clone();
        let id: usize = insert_node(&mut self.snarl, pos, copy);
        assert(snarl_nodes(self.snarl).dom() =~= snarl_nodes(old(self).snarl).dom().insert(id));
        self.topology_changed = true;
        id
    }

    /// Add an unwired copy of a node at a point, and select it. Gives its id.
    pub fn duplicate_node(&mut self, node: usize, pos: egui::Pos2) -> (id: usize)
        requires
            snarl_nodes(old(self).snarl).contains_key(node),
        ensures
            !snarl_nodes(old(self).snarl).contains_key(id),
            snarl_nodes(final(self).snarl).dom() == snarl_nodes(old(self).snarl).dom().insert(id),
            forall|k: usize| #[trigger]
                snarl_nodes(old(self).snarl).contains_key(k) ==> snarl_nodes(final(self).snarl)[k]
                    == snarl_nodes(old(self).snarl)[k],
            snarl_nodes(final(self).snarl)[id]@ == snarl_nodes(old(self).snarl)[node]@,
            snarl_places(final(self).snarl) == snarl_places(old(self).snarl).insert(
                id,
                pos_coords(pos),
            ),
            snarl_wires(final(self).snarl) == snarl_wires(old(self).snarl),
            final(self).selected_node == Some(id),
            final(self).topology_changed,
    {
        let id: usize = self.copy_node(node, pos);
        self.selected_node = Some(id);
        id
    }
}

pub fn is_effect(snarl: &Snarl<SonidoNode>, id: usize) -> (r: bool)
    ensures
        r == (snarl_nodes(*snarl).contains_key(id) && snarl_nodes(*snarl)[id] is Effect),
{
    match find_node(snarl, id) {
        Some(SonidoNode::Effect { .. }) => true,
        _ => false,
    }
}

// Laws.

/// Adding an effect makes it the only node that feeds the output, and everything
/// that fed the output feeds it, wherever wires lead to the output's one input.
pub proof fn added_effect_is_sole_feeder(
    nodes: Map<usize, SonidoNode>,
    ws: Set<Wire>,
    new: usize,
    output: usize,
)
    requires
        output_of(nodes) == Some(output),
        new != output,
        forall|w: Wire| #[trigger] ws.contains(w) && w.to == output ==> w.input == 0,
    ensures
        forall|w: Wire| #[trigger]
            appended(nodes, ws, new).contains(w) && w.to == output ==> w == plain_wire(
                new,
                output,
            ),
        appended(nodes, ws, new).contains(plain_wire(new, output)),
        forall|w: Wire| #[trigger]
            ws.contains(w) && w.to == output ==> appended(nodes, ws, new).contains(
                Wire { to: new, input: 0, ..w },
            ),
        forall|w: Wire| #[trigger]
            ws.contains(w) && w.to != output ==> appended(nodes, ws, new).contains(w),
{
    let after = appended(nodes, ws, new);
    assert forall|w: Wire| #[trigger] ws.contains(w) && w.to == output implies after.contains(
        Wire { to: new, input: 0, ..w },
    ) by {
        assert(fed(ws, output));
        assert(feeds(ws, w.from, w.output, output));
    }
}

/// The output is never left orphaned: after a removal it is fed, if it is there
/// and any node that can feed it is.
pub proof fn output_is_never_orphaned(
    nodes: Map<usize, SonidoNode>,
    places: Map<usize, Seq<Bits>>,
    before: Set<Wire>,
    after: Set<Wire>,
    output: usize,
    ids: Seq<usize>,
    other: usize,
)
    requires
        output_kept(nodes, places, before, after),
        output_of(nodes) == Some(output),
        ids.to_set() == nodes.dom(),
        can_feed(nodes, places, other),
    ensures
        fed(after, output),
{
    if !fed(before, output) {
        assert(ids.to_set().contains(other));
        rightmost_exists(nodes, places, ids, ids.len() as int, ids.index_of(other));
        let best = choose|best: usize| #[trigger]
            can_feed(nodes, places, best) && forall|k: int|
                0 <= k < ids.len() && can_feed(nodes, places, #[trigger] ids[k]) ==> le(
                    x_of(places, ids[k]),
                    x_of(places, best),
                ) && (same(x_of(places, ids[k]), x_of(places, best)) ==> best <= ids[k]);
        assert forall|j: usize| #[trigger] can_feed(nodes, places, j) implies le(
            x_of(places, j),
            x_of(places, best),
        ) && (same(x_of(places, j), x_of(places, best)) ==> best <= j) by {
            assert(ids.to_set().contains(j));
            let k = ids.index_of(j);
            assert(can_feed(nodes, places, ids[k]));
        }
        assert(is_rightmost(nodes, places, best));
        let id = choose|id: usize| #[trigger]
            is_rightmost(nodes, places, id) && after == before.insert(plain_wire(id, output));
        assert(after.contains(plain_wire(id, output)));
    }
}

proof fn rightmost_exists(
    nodes: Map<usize, SonidoNode>,
    places: Map<usize, Seq<Bits>>,
    ids: Seq<usize>,
    n: int,
    at: int,
)
    requires
        0 <= at < n <= ids.len(),
        can_feed(nodes, places, ids[at]),
    ensures
        exists|best: usize| #[trigger]
            can_feed(nodes, places, best) && forall|k: int|
                0 <= k < n && can_feed(nodes, places, #[trigger] ids[k]) ==> le(
                    x_of(places, ids[k]),
                    x_of(places, best),
                ) && (same(x_of(places, ids[k]), x_of(places, best)) ==> best <= ids[k]),
    decreases n,
{
    let last = ids[n - 1];
    if exists|k: int| 0 <= k < n - 1 && can_feed(nodes, places, #[trigger] ids[k]) {
        let k = choose|k: int| 0 <= k < n - 1 && can_feed(nodes, places, #[trigger] ids[k]);
        rightmost_exists(nodes, places, ids, n - 1, k);
        let best = choose|best: usize| #[trigger]
            can_feed(nodes, places, best) && forall|k: int|
                0 <= k < n - 1 && can_feed(nodes, places, #[trigger] ids[k]) ==> le(
                    x_of(places, ids[k]),
                    x_of(places, best),
                ) && (same(x_of(places, ids[k]), x_of(places, best)) ==> best <= ids[k]);
        let better = can_feed(nodes, places, last) && (lt(x_of(places, best), x_of(places, last))
            || same(x_of(places, best), x_of(places, last)) && last < best);
        let winner = if better {
            last
        } else {
            best
        };
        assert forall|k: int|
            0 <= k < n && can_feed(nodes, places, #[trigger] ids[k]) implies le(
            x_of(places, ids[k]),
            x_of(places, winner),
        ) && (same(x_of(places, ids[k]), x_of(places, winner)) ==> winner <= ids[k]) by {}
        assert(can_feed(nodes, places, winner));
    } else {
        assert(at == n - 1);
        assert(can_feed(nodes, places, last));
    }
}

/// The output of a graph is an output node, the last where there are several, and
/// the input likewise; there is none exactly where no such node is there.
pub proof fn ends_are_the_last_of_their_kind(nodes: Map<usize, SonidoNode>, id: usize)
    requires
        nodes.contains_key(id),
    ensures
        nodes[id] is Output && (forall|j: usize| #[trigger]
            nodes.contains_key(j) && nodes[j] is Output ==> j <= id) ==> output_of(nodes) == Some(
            id,
        ),
        nodes[id] is Input && (forall|j: usize| #[trigger]
            nodes.contains_key(j) && nodes[j] is Input ==> j <= id) ==> input_of(nodes) == Some(id),
{
    if nodes[id] is Output && (forall|j: usize| #[trigger]
        nodes.contains_key(j) && nodes[j] is Output ==> j <= id) {
        last_is_unique(nodes, |n: SonidoNode| n is Output, id);
    }
    if nodes[id] is Input && (forall|j: usize| #[trigger]
        nodes.contains_key(j) && nodes[j] is Input ==> j <= id) {
        last_is_unique(nodes, |n: SonidoNode| n is Input, id);
    }
}

/// What putting a node in front of the output does to the wires. Where something
/// fed the output, its wires lead to the node instead, pin by pin; where nothing
/// did, the input is wired to the node. The node is wired to the output, and every
/// other wire stays.
pub proof fn a_node_joins_in_front_of_the_output(
    nodes: Map<usize, SonidoNode>,
    ws: Set<Wire>,
    new: usize,
    input: usize,
    output: usize,
    w: Wire,
)
    requires
        nodes.contains_key(output),
        nodes[output] is Output,
        forall|j: usize| #[trigger] nodes.contains_key(j) && nodes[j] is Output ==> j <= output,
        nodes.contains_key(input),
        nodes[input] is Input,
        forall|j: usize| #[trigger] nodes.contains_key(j) && nodes[j] is Input ==> j <= input,
    ensures
        (exists|v: Wire| #[trigger] ws.contains(v) && v.to == output) ==> (appended(
            nodes,
            ws,
            new,
        ).contains(w) <==> {
            ||| ws.contains(w) && (w.to != output || w.input != 0)
            ||| w.to == new && w.input == 0 && exists|v: Wire| #[trigger]
                ws.contains(v) && v.to == output && v.from == w.from && v.output == w.output
            ||| w == (Wire { from: new, output: 0, to: output, input: 0 })
        }),
        (forall|v: Wire| #[trigger] ws.contains(v) ==> v.to != output) ==> (appended(
            nodes,
            ws,
            new,
        ).contains(w) <==> {
            ||| ws.contains(w)
            ||| w == (Wire { from: input, output: 0, to: new, input: 0 })
            ||| w == (Wire { from: new, output: 0, to: output, input: 0 })
        }),
{
    ends_are_the_last_of_their_kind(nodes, output);
    ends_are_the_last_of_their_kind(nodes, input);
}

/// What putting a node into a wire does: the wire is gone, its source leads to the
/// node, the node leads to its destination, and every other wire stays.
pub proof fn a_spliced_node_carries_the_wire(ws: Set<Wire>, wire: Wire, new: usize, w: Wire)
    requires
        wire.from != new,
        wire.to != new,
    ensures
        spliced(ws, wire, new).contains(w) <==> {
            ||| ws.contains(w) && w != wire
            ||| w == (Wire { from: wire.from, output: wire.output, to: new, input: 0 })
            ||| w == (Wire { from: new, output: 0, to: wire.to, input: wire.input })
        },
{
}

/// Keeping the output reachable takes no wire away, and adds one only where the
/// output is fed by nothing: to the output, from a node that is none, as far right
/// as any, the first of several.
pub proof fn at_most_one_wire_is_added(
    nodes: Map<usize, SonidoNode>,
    places: Map<usize, Seq<Bits>>,
    before: Set<Wire>,
    after: Set<Wire>,
    output: usize,
    w: Wire,
)
    requires
        output_kept(nodes, places, before, after),
        nodes.contains_key(output),
        nodes[output] is Output,
        forall|j: usize| #[trigger] nodes.contains_key(j) && nodes[j] is Output ==> j <= output,
    ensures
        before.contains(w) ==> after.contains(w),
        after.contains(w) && !before.contains(w) ==> {
            &&& w.to == output && w.input == 0 && w.output == 0
            &&& forall|v: Wire| #[trigger] before.contains(v) ==> v.to != output
            &&& nodes.contains_key(w.from) && !(nodes[w.from] is Output)
            &&& forall|j: usize| #[trigger]
                nodes.contains_key(j) && !(nodes[j] is Output) && places[j][0] % 0x8000_0000
                    < 0x7F80_0000 ==> le(places[j][0], places[w.from][0]) && (same(
                    places[j][0],
                    places[w.from][0],
                ) ==> w.from <= j)
        },
        (exists|v: Wire| #[trigger] before.contains(v) && v.to == output) ==> after == before,
{
    ends_are_the_last_of_their_kind(nodes, output);
    if after.contains(w) && !before.contains(w) {
        assert(!fed(before, output));
        let id = choose|id: usize| #[trigger]
            is_rightmost(nodes, places, id) && after == before.insert(plain_wire(id, output));
        assert(w == plain_wire(id, output));
        assert forall|j: usize| #[trigger]
            nodes.contains_key(j) && !(nodes[j] is Output) && places[j][0] % 0x8000_0000
                < 0x7F80_0000 implies le(places[j][0], places[w.from][0]) && (same(
            places[j][0],
            places[w.from][0],
        ) ==> w.from <= j) by {
            assert(can_feed(nodes, places, j));
        }
    }
}

/// The chain is made of the effects, in ascending order of their ids: every effect
/// is in it, and nothing else.
pub proof fn a_chain_is_made_of_the_effects(
    nodes: Map<usize, SonidoNode>,
    ids: Seq<usize>,
    id: usize,
)
    requires
        is_chain(nodes, ids),
    ensures
        ids.contains(id) <==> nodes.contains_key(id) && nodes[id] is Effect,
        forall|i: int, j: int| 0 <= i < j < ids.len() ==> #[trigger] ids[i] < #[trigger] ids[j],
{
    assert(ids.to_set().contains(id) <==> effects_of(nodes).contains(id));
}

/// Without an output a node is not wired at all; without an input, and with nothing
/// that fed the output, it is wired to the output only.
pub proof fn a_node_joins_what_there_is(
    nodes: Map<usize, SonidoNode>,
    ws: Set<Wire>,
    new: usize,
    output: usize,
)
    ensures
        (forall|j: usize| #[trigger] nodes.contains_key(j) ==> !(nodes[j] is Output)) ==> appended(
            nodes,
            ws,
            new,
        ) == ws,
        nodes.contains_key(output) && nodes[output] is Output && (forall|j: usize| #[trigger]
            nodes.contains_key(j) ==> !(nodes[j] is Input) && (nodes[j] is Output ==> j <= output))
            && (forall|v: Wire| #[trigger] ws.contains(v) ==> v.to != output) ==> appended(
            nodes,
            ws,
            new,
        ) == ws.insert(Wire { from: new, output: 0, to: output, input: 0 }),
{
    if forall|j: usize| #[trigger] nodes.contains_key(j) ==> !(nodes[j] is Output) {
        no_last(nodes, |n: SonidoNode| n is Output);
    }
    if nodes.contains_key(output) && nodes[output] is Output && (forall|j: usize| #[trigger]
        nodes.contains_key(j) ==> !(nodes[j] is Input) && (nodes[j] is Output ==> j <= output)) {
        ends_are_the_last_of_their_kind(nodes, output);
        no_last(nodes, |n: SonidoNode| n is Input);
    }
}

} // verus!
