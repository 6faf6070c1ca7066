//! Compiling the editor's graph into what the audio engine is built from.
//!
//! The engine joins signals only at merge nodes and divides them only at split
//! nodes, while the editor lets wires converge and fan out anywhere. The plan
//! made here adds the junctions that are needed, and says which nodes to create
//! and which connections to make, in order.
use egui_snarl::Snarl;
use crate::graph::{GraphView, ascending_listing_is_unique, is_chain};
use crate::params::{ParamInfo, clone_params, indices_where};
use crate::seqs::push_contains_iff;
use crate::session::{NodeKind, SessionNode};
use crate::snarl::{
    SonidoNode, Wire, ascending, find_node, node_ids, snarl_nodes, snarl_wires, wires,
};
use vstd::prelude::*;
use vstd::string::StringExecFns;

verus! {

/// Graph compilation failures.
#[derive(Debug, PartialEq, Eq)]
pub enum CompileError {
    /// No Input node found in the graph.
    NoInput,
    /// No Output node found in the graph.
    NoOutput,
    /// Multiple Input nodes found.
    MultipleInputs,
    /// Multiple Output nodes found.
    MultipleOutputs,
    /// An effect could not be created from the registry.
    EffectCreation(String),
    /// The engine refused the graph; in its own words.
    GraphError(String),
}

/// The mathematical value of a [`CompileError`] that planning gives.
pub enum CompileFault {
    NoInput,
    NoOutput,
    MultipleInputs,
    MultipleOutputs,
    EffectCreation(Seq<char>),
    GraphError(Seq<char>),
}

impl View for CompileError {
    type V = CompileFault;

    open spec fn view(&self) -> CompileFault {
        match self {
            CompileError::NoInput => CompileFault::NoInput,
            CompileError::NoOutput => CompileFault::NoOutput,
            CompileError::MultipleInputs => CompileFault::MultipleInputs,
            CompileError::MultipleOutputs => CompileFault::MultipleOutputs,
            CompileError::EffectCreation(id) => CompileFault::EffectCreation(id@),
            CompileError::GraphError(text) => CompileFault::GraphError(text@),
        }
    }
}

/// The message for a compilation failure.
pub open spec fn compile_message(e: CompileFault) -> Seq<char> {
    match e {
        CompileFault::NoInput => "graph has no Input node"@,
        CompileFault::NoOutput => "graph has no Output node"@,
        CompileFault::MultipleInputs => "graph has multiple Input nodes"@,
        CompileFault::MultipleOutputs => "graph has multiple Output nodes"@,
        CompileFault::EffectCreation(id) => "failed to create effect '"@ + id
            + "' from registry"@,
        CompileFault::GraphError(text) => "graph compilation failed: "@ + text,
    }
}

impl CompileError {
    /// A message for the user.
    pub fn message(&self) -> (m: String)
        ensures
            m@ == compile_message(self@),
    {
        match self {
            CompileError::NoInput => "graph has no Input node".to_owned(),
            CompileError::NoOutput => "graph has no Output node".to_owned(),
            CompileError::MultipleInputs => "graph has multiple Input nodes".to_owned(),
            CompileError::MultipleOutputs => "graph has multiple Output nodes".to_owned(),
            CompileError::EffectCreation(id) => {
                let mut m = "failed to create effect '".to_owned();
                m.append(id.as_str());
                m.append("' from registry");
                m
            },
            CompileError::GraphError(text) => {
                let mut m = "graph compilation failed: ".to_owned();
                m.append(text.as_str());
                m
            },
        }
    }
}

/// What to build an engine from.
#[derive(Debug)]
pub struct EnginePlan {
    /// Engine nodes to create, in order.
    pub nodes: Vec<SessionNode>,
    /// Connections to make between them, in order, by index.
    pub edges: Vec<(usize, usize)>,
    /// The effects among the nodes, in chain-slot order: index and effect id.
    pub manifest: Vec<(usize, String)>,
}

/// What the nodes are.
pub open spec fn kinds_in(nodes: Seq<(usize, SessionNode)>) -> Seq<NodeKind> {
    Seq::new(nodes.len(), |i: int| nodes[i].1@)
}

/// The ids of the nodes.
pub open spec fn ids_in(nodes: Seq<(usize, SessionNode)>) -> Seq<usize> {
    Seq::new(nodes.len(), |i: int| nodes[i].0)
}

/// The texts of some strings.
pub open spec fn known_ids(known: Seq<String>) -> Seq<Seq<char>> {
    Seq::new(known.len(), |i: int| known[i]@)
}

/// The first node that cannot be created, going through the nodes in order: a
/// second input, a second output, or an effect that is not known.
pub open spec fn creation_fault(kinds: Seq<NodeKind>, known: Seq<Seq<char>>) -> Option<CompileFault>
    decreases kinds.len(),
{
    if kinds.len() == 0 {
        None
    } else {
        let before = kinds.drop_last();
        match creation_fault(before, known) {
            Some(e) => Some(e),
            None => match kinds.last() {
                NodeKind::Input => if before.contains(NodeKind::Input) {
                    Some(CompileFault::MultipleInputs)
                } else {
                    None
                },
                NodeKind::Output => if before.contains(NodeKind::Output) {
                    Some(CompileFault::MultipleOutputs)
                } else {
                    None
                },
                NodeKind::Effect(id) => if known.contains(id) {
                    None
                } else {
                    Some(CompileFault::EffectCreation(id))
                },
                _ => None,
            },
        }
    }
}

/// Why nodes do not make an engine, if they do not.
pub open spec fn compile_fault(kinds: Seq<NodeKind>, known: Seq<Seq<char>>) -> Option<CompileFault> {
    match creation_fault(kinds, known) {
        Some(e) => Some(e),
        None => if !kinds.contains(NodeKind::Input) {
            Some(CompileFault::NoInput)
        } else if !kinds.contains(NodeKind::Output) {
            Some(CompileFault::NoOutput)
        } else {
            None
        },
    }
}

/// Whether wires lead from a node to more than one node.
pub open spec fn fans_out(ws: Seq<Wire>, id: usize) -> bool {
    exists|i: int, j: int|
        0 <= i < ws.len() && 0 <= j < ws.len() && (#[trigger] ws[i]).from == id && (
        #[trigger] ws[j]).from == id && ws[i].to != ws[j].to
}

/// Whether wires lead to a node from more than one node.
pub open spec fn fans_in(ws: Seq<Wire>, id: usize) -> bool {
    exists|i: int, j: int|
        0 <= i < ws.len() && 0 <= j < ws.len() && (#[trigger] ws[i]).to == id && (
        #[trigger] ws[j]).to == id && ws[i].from != ws[j].from
}

/// Whether a split has to be added behind a node.
pub open spec fn needs_split(node: (usize, SessionNode), ws: Seq<Wire>) -> bool {
    !(node.1@ is Split) && fans_out(ws, node.0)
}

/// Whether a merge has to be added in front of a node.
pub open spec fn needs_merge(node: (usize, SessionNode), ws: Seq<Wire>) -> bool {
    !(node.1@ is Merge) && fans_in(ws, node.0)
}

/// The indices of the nodes behind which a split is added, in order.
pub open spec fn splits_of(nodes: Seq<(usize, SessionNode)>, ws: Seq<Wire>) -> Seq<usize> {
    indices_where(nodes.len(), |i: int| needs_split(nodes[i], ws))
}

/// The indices of the nodes in front of which a merge is added, in order.
pub open spec fn merges_of(nodes: Seq<(usize, SessionNode)>, ws: Seq<Wire>) -> Seq<usize> {
    indices_where(nodes.len(), |i: int| needs_merge(nodes[i], ws))
}

/// The index of the node with an id.
pub open spec fn index_of_id(nodes: Seq<(usize, SessionNode)>, id: usize) -> int {
    ids_in(nodes).index_of(id)
}

/// How many of the nodes in front of index `i` get a split.
pub open spec fn splits_before(nodes: Seq<(usize, SessionNode)>, ws: Seq<Wire>, i: int) -> nat {
    indices_where(i as nat, |j: int| needs_split(nodes[j], ws)).len()
}

/// How many of the nodes in front of index `i` get a merge.
pub open spec fn merges_before(nodes: Seq<(usize, SessionNode)>, ws: Seq<Wire>, i: int) -> nat {
    indices_where(i as nat, |j: int| needs_merge(nodes[j], ws)).len()
}

/// The engine node at which signals leave the node with index `i`: the split
/// added behind it, or the node itself.
pub open spec fn exit_of(nodes: Seq<(usize, SessionNode)>, ws: Seq<Wire>, i: int) -> int {
    if needs_split(nodes[i], ws) {
        nodes.len() + splits_before(nodes, ws, i) as int
    } else {
        i
    }
}

/// The engine node at which signals enter the node with index `i`: the merge
/// added in front of it, or the node itself.
pub open spec fn entry_of(nodes: Seq<(usize, SessionNode)>, ws: Seq<Wire>, i: int) -> int {
    if needs_merge(nodes[i], ws) {
        nodes.len() + splits_of(nodes, ws).len() + merges_before(nodes, ws, i) as int
    } else {
        i
    }
}

/// The connection that a wire becomes.
pub open spec fn edge_of(nodes: Seq<(usize, SessionNode)>, ws: Seq<Wire>, w: Wire) -> (int, int) {
    (
        exit_of(nodes, ws, index_of_id(nodes, w.from)),
        entry_of(nodes, ws, index_of_id(nodes, w.to)),
    )
}

/// The connections that the first `n` wires become, each once.
pub open spec fn wired_edges(nodes: Seq<(usize, SessionNode)>, ws: Seq<Wire>, n: nat) -> Seq<
    (int, int),
>
    decreases n,
{
    if n == 0 {
        Seq::empty()
    } else {
        let before = wired_edges(nodes, ws, (n - 1) as nat);
        let edge = edge_of(nodes, ws, ws[n - 1]);
        if before.contains(edge) {
            before
        } else {
            before.push(edge)
        }
    }
}

/// The connections from nodes to the splits behind them.
pub open spec fn split_edges(nodes: Seq<(usize, SessionNode)>, ws: Seq<Wire>) -> Seq<(int, int)> {
    let splits = splits_of(nodes, ws);
    Seq::new(splits.len(), |k: int| (splits[k] as int, nodes.len() + k))
}

/// The connections from merges to the nodes behind them.
pub open spec fn merge_edges(nodes: Seq<(usize, SessionNode)>, ws: Seq<Wire>) -> Seq<(int, int)> {
    let first = nodes.len() + splits_of(nodes, ws).len();
    let merges = merges_of(nodes, ws);
    Seq::new(merges.len(), |k: int| (first + k, merges[k] as int))
}

/// All connections of the engine.
pub open spec fn engine_edges(nodes: Seq<(usize, SessionNode)>, ws: Seq<Wire>) -> Seq<(int, int)> {
    split_edges(nodes, ws) + merge_edges(nodes, ws) + wired_edges(nodes, ws, ws.len())
}

/// All nodes of the engine: those of the graph, then the added splits, then the
/// added merges.
pub open spec fn engine_kinds(nodes: Seq<(usize, SessionNode)>, ws: Seq<Wire>) -> Seq<NodeKind> {
    kinds_in(nodes) + Seq::new(splits_of(nodes, ws).len(), |k: int| NodeKind::Split) + Seq::new(
        merges_of(nodes, ws).len(),
        |k: int| NodeKind::Merge,
    )
}

/// The effects among the nodes, in order: index and effect id.
pub open spec fn manifest_of(kinds: Seq<NodeKind>) -> Seq<(int, Seq<char>)>
    decreases kinds.len(),
{
    if kinds.len() == 0 {
        Seq::empty()
    } else {
        let before = manifest_of(kinds.drop_last());
        match kinds.last() {
            NodeKind::Effect(id) => before.push((kinds.len() - 1, id)),
            _ => before,
        }
    }
}

/// The connections of a plan.
pub open spec fn edges_view(edges: Seq<(usize, usize)>) -> Seq<(int, int)> {
    Seq::new(edges.len(), |i: int| (edges[i].0 as int, edges[i].1 as int))
}

/// The manifest of a plan.
pub open spec fn manifest_view(m: Seq<(usize, String)>) -> Seq<(int, Seq<char>)> {
    Seq::new(m.len(), |i: int| (m[i].0 as int, m[i].1@))
}

/// What the nodes of a plan are.
pub open spec fn plan_kinds(nodes: Seq<SessionNode>) -> Seq<NodeKind> {
    Seq::new(nodes.len(), |i: int| nodes[i]@)
}

/// What planning an engine gives: the plan, or why there is none.
pub open spec fn plan_outcome(
    nodes: Seq<(usize, SessionNode)>,
    ws: Seq<Wire>,
    known: Seq<Seq<char>>,
    r: Result<EnginePlan, CompileError>,
) -> bool {
    match r {
        Ok(plan) => {
            &&& compile_fault(kinds_in(nodes), known) is None
            &&& plan_kinds(plan.nodes@) == engine_kinds(nodes, ws)
            &&& edges_view(plan.edges@) == engine_edges(nodes, ws)
            &&& manifest_view(plan.manifest@) == manifest_of(kinds_in(nodes))
        },
        Err(e) => compile_fault(kinds_in(nodes), known) == Some(e@),
    }
}

/// Every end of a wire is a node, and no id is used twice.
pub open spec fn closed_graph(nodes: Seq<(usize, SessionNode)>, ws: Seq<Wire>) -> bool {
    &&& ids_in(nodes).no_duplicates()
    &&& forall|i: int|
        0 <= i < ws.len() ==> ids_in(nodes).contains((#[trigger] ws[i]).from) && ids_in(
            nodes,
        ).contains(ws[i].to)
}

/// Once a node could not be created, that stands.
proof fn fault_stands(kinds: Seq<NodeKind>, known: Seq<Seq<char>>, n: int)
    requires
        0 <= n <= kinds.len(),
        creation_fault(kinds.take(n), known) is Some,
    ensures
        creation_fault(kinds, known) == creation_fault(kinds.take(n), known),
    decreases kinds.len() - n,
{
    if n == kinds.len() {
        assert(kinds.take(n) =~= kinds);
    } else {
        assert(kinds.take(n + 1).drop_last() =~= kinds.take(n));
        fault_stands(kinds, known, n + 1);
    }
}

fn is_known(known: &Vec<String>, id: &String) -> (r: bool)
    ensures
        r == known_ids(known@).contains(id@),
{
    let ghost ks = known_ids(known@);
    let mut i: usize = 0;
    while i < known.len()
        invariant
            i <= known@.len(),
            ks == known_ids(known@),
            forall|j: int| 0 <= j < i ==> ks[j] != id@,
        decreases known@.len() - i,
    {
        assert(ks[i as int] == known@[i as int]@);
        if known[i] == *id {
            return true;
        }
        i = i + 1;
    }
    false
}

/// Whether the nodes can all be created, and there is an input and an output.
fn check_nodes(nodes: &Vec<(usize, SessionNode)>, known: &Vec<String>) -> (r: Result<
    (),
    CompileError,
>)
    ensures
        compile_fault(kinds_in(nodes@), known_ids(known@)) == (match r {
            Ok(()) => None,
            Err(e) => Some(e@),
        }),
{
    let ghost kinds = kinds_in(nodes@);
    let ghost ks = known_ids(known@);
    let mut has_input = false;
    let mut has_output = false;
    let mut i: usize = 0;
    while i < nodes.len()
        invariant
            i <= nodes@.len(),
            kinds == kinds_in(nodes@),
            ks == known_ids(known@),
            creation_fault(kinds.take(i as int), ks) is None,
            has_input == kinds.take(i as int).contains(NodeKind::Input),
            has_output == kinds.take(i as int).contains(NodeKind::Output),
        decreases nodes@.len() - i,
    {
        let ghost before = kinds.take(i as int);
        let ghost now = kinds.take(i as int + 1);
        proof {
            assert(now.drop_last() =~= before);
            assert(now =~= before.push(kinds[i as int]));
            push_contains_iff(before, kinds[i as int], NodeKind::Input);
            push_contains_iff(before, kinds[i as int], NodeKind::Output);
        }
        let fault: Option<CompileError> = match &nodes[i].1 {
            SessionNode::Input => {
                if has_input {
                    Some(CompileError::MultipleInputs)
                } else {
                    has_input = true;
                    None
                }
            },
            SessionNode::Output => {
                if has_output {
                    Some(CompileError::MultipleOutputs)
                } else {
                    has_output = true;
                    None
                }
            },
            SessionNode::Effect { effect_id } => {
                if is_known(known, effect_id) {
                    None
                } else {
                    Some(CompileError::EffectCreation(effect_id.clone()))
                }
            },
            SessionNode::Split => None,
            SessionNode::Merge => None,
        };
        if let Some(e) = fault {
            proof {
                fault_stands(kinds, ks, i as int + 1);
            }
            return Err(e);
        }
        i = i + 1;
    }
    assert(kinds.take(i as int) =~= kinds);
    if !has_input {
        return Err(CompileError::NoInput);
    }
    if !has_output {
        return Err(CompileError::NoOutput);
    }
    Ok(())
}

/// Whether wires lead from a node to more than one node.
fn leads_apart(ws: &Vec<Wire>, id: usize) -> (r: bool)
    ensures
        r == fans_out(ws@, id),
{
    let mut first: Option<usize> = None;
    let mut i: usize = 0;
    while i < ws.len()
        invariant
            i <= ws@.len(),
            match first {
                Some(to) => (exists|k: int|
                    0 <= k < i && (#[trigger] ws@[k]).from == id && ws@[k].to == to)
                    && forall|k: int|
                    0 <= k < i && (#[trigger] ws@[k]).from == id ==> ws@[k].to == to,
                None => forall|k: int| 0 <= k < i ==> (#[trigger] ws@[k]).from != id,
            },
        decreases ws@.len() - i,
    {
        let w: Wire = ws[i];
        if w.from == id {
            match first {
                Some(to) => {
                    if w.to != to {
                        assert(ws@[i as int].from == id);
                        return true;
                    }
                },
                None => {
                    first = Some(w.to);
                    assert(ws@[i as int].to == w.to);
                },
            }
        }
        i = i + 1;
    }
    false
}

/// Whether wires lead to a node from more than one node.
fn comes_together(ws: &Vec<Wire>, id: usize) -> (r: bool)
    ensures
        r == fans_in(ws@, id),
{
    let mut first: Option<usize> = None;
    let mut i: usize = 0;
    while i < ws.len()
        invariant
            i <= ws@.len(),
            match first {
                Some(from) => (exists|k: int|
                    0 <= k < i && (#[trigger] ws@[k]).to == id && ws@[k].from == from)
                    && forall|k: int|
                    0 <= k < i && (#[trigger] ws@[k]).to == id ==> ws@[k].from == from,
                None => forall|k: int| 0 <= k < i ==> (#[trigger] ws@[k]).to != id,
            },
        decreases ws@.len() - i,
    {
        let w: Wire = ws[i];
        if w.to == id {
            match first {
                Some(from) => {
                    if w.from != from {
                        assert(ws@[i as int].to == id);
                        return true;
                    }
                },
                None => {
                    first = Some(w.from);
                    assert(ws@[i as int].from == w.from);
                },
            }
        }
        i = i + 1;
    }
    false
}

/// The index of the node with an id.
pub(crate) fn index_of(nodes: &Vec<(usize, SessionNode)>, id: usize) -> (i: usize)
    requires
        ids_in(nodes@).no_duplicates(),
        ids_in(nodes@).contains(id),
    ensures
        i < nodes@.len(),
        i == index_of_id(nodes@, id),
{
    let ghost ids = ids_in(nodes@);
    let ghost at = ids.index_of(id);
    let mut i: usize = 0;
    while nodes[i].0 != id
        invariant
            ids == ids_in(nodes@),
            ids.no_duplicates(),
            0 <= at < nodes.len(),
            ids[at] == id,
            i <= at,
        decreases at - i,
    {
        assert(ids[i as int] != id);
        i = i + 1;
    }
    assert(ids[i as int] == ids[at]);
    i
}

/// Whether a connection is among those already made.
fn has_edge(edges: &Vec<(usize, usize)>, first: usize, from: usize, to: usize) -> (r: bool)
    requires
        first <= edges@.len(),
    ensures
        r == edges_view(edges@).skip(first as int).contains((from as int, to as int)),
{
    let ghost es = edges_view(edges@).skip(first as int);
    let mut i: usize = first;
    while i < edges.len()
        invariant
            first <= i <= edges@.len(),
            es == edges_view(edges@).skip(first as int),
            forall|k: int| 0 <= k < i - first ==> es[k] != (from as int, to as int),
        decreases edges@.len() - i,
    {
        assert(es[i - first] == (edges@[i as int].0 as int, edges@[i as int].1 as int));
        if edges[i].0 == from && edges[i].1 == to {
            return true;
        }
        i = i + 1;
    }
    false
}

/// Plan an engine for nodes, given with their ids, and wires between them.
/// `known` lists the effects that can be created.
///
/// Behind every node whose wires lead to more than one node, unless it is a
/// split, a split is added; in front of every node that wires of more than one
/// node lead to, unless it is a merge, a merge is added. Wires go through the
/// added junctions, and wires that come to the same connection make it once.
pub fn plan_engine(
    nodes: &Vec<(usize, SessionNode)>,
    ws: &Vec<Wire>,
    known: &Vec<String>,
) -> (r: Result<EnginePlan, CompileError>)
    requires
        closed_graph(nodes@, ws@),
        3 * nodes@.len() <= usize::MAX,
    ensures
        plan_outcome(nodes@, ws@, known_ids(known@), r),
{
    check_nodes(nodes, known)?;
    let n: usize = nodes.len();
    let ghost kinds = kinds_in(nodes@);
    let ghost split_here = |i: int| needs_split(nodes@[i], ws@);
    let ghost merge_here = |i: int| needs_merge(nodes@[i], ws@);
    let mut plan_nodes: Vec<SessionNode> = Vec::new();
    let mut manifest: Vec<(usize, String)> = Vec::new();
    let mut splits: Vec<usize> = Vec::new();
    let mut merges: Vec<usize> = Vec::new();
    // Where signals leave and enter each node, merges counted from the first.
    let mut exits: Vec<usize> = Vec::new();
    let mut entries: Vec<Option<usize>> = Vec::new();
    let mut i: usize = 0;
    assert(plan_kinds(plan_nodes@) =~= kinds.take(0));
    assert(manifest_view(manifest@) =~= Seq::empty());
    while i < n
        invariant
            i <= n,
            n == nodes@.len(),
            3 * n <= usize::MAX,
            kinds == kinds_in(nodes@),
            split_here == (|i: int| needs_split(nodes@[i], ws@)),
            merge_here == (|i: int| needs_merge(nodes@[i], ws@)),
            plan_kinds(plan_nodes@) == kinds.take(i as int),
            manifest_view(manifest@) == manifest_of(kinds.take(i as int)),
            splits@ == indices_where(i as nat, split_here),
            merges@ == indices_where(i as nat, merge_here),
            splits@.len() <= i,
            merges@.len() <= i,
            exits@.len() == i,
            entries@.len() == i,
            forall|j: int|
                0 <= j < i ==> (#[trigger] exits@[j]) == exit_of(nodes@, ws@, j),
            forall|j: int|
                0 <= j < i ==> (#[trigger] entries@[j]) == (if needs_merge(nodes@[j], ws@) {
                    Some(merges_before(nodes@, ws@, j) as usize)
                } else {
                    None
                }),
            forall|j: int|
                0 <= j < i ==> #[trigger] merges_before(nodes@, ws@, j) <= n,
        decreases n - i,
    {
        let ghost before = plan_kinds(plan_nodes@);
        let ghost listed = manifest_view(manifest@);
        assert(kinds.take(i as int + 1).drop_last() =~= kinds.take(i as int));
        let id: usize = nodes[i].0;
        let node = nodes[i].1.clone();
        match &node {
            SessionNode::Effect { effect_id } => {
                manifest.push((i, effect_id.clone()));
                assert(manifest_view(manifest@) =~= listed.push((i as int, effect_id@)));
            },
            _ => {},
        }
        let is_split = match &node {
            SessionNode::Split => true,
            _ => false,
        };
        let is_merge = match &node {
            SessionNode::Merge => true,
            _ => false,
        };
        if !is_split && leads_apart(ws, id) {
            exits.push(n + splits.len());
            splits.push(i);
        } else {
            exits.push(i);
        }
        if !is_merge && comes_together(ws, id) {
            entries.push(Some(merges.len()));
            merges.push(i);
        } else {
            entries.push(None);
        }
        plan_nodes.push(node);
        assert(plan_kinds(plan_nodes@) =~= before.push(kinds[i as int]));
        assert(before.push(kinds[i as int]) =~= kinds.take(i as int + 1));
        i = i + 1;
    }
    assert(kinds.take(n as int) =~= kinds);

    let mut edges: Vec<(usize, usize)> = Vec::new();
    let ghost se = split_edges(nodes@, ws@);
    let ghost me = merge_edges(nodes@, ws@);
    let first_merge: usize = n + splits.len();
    let mut k: usize = 0;
    assert(edges_view(edges@) =~= se.take(0));
    while k < splits.len()
        invariant
            k <= splits@.len(),
            n == nodes@.len(),
            n + splits@.len() <= usize::MAX,
            kinds == kinds_in(nodes@),
            splits@ == splits_of(nodes@, ws@),
            se == split_edges(nodes@, ws@),
            edges_view(edges@) == se.take(k as int),
            plan_kinds(plan_nodes@) == kinds + Seq::new(k as nat, |j: int| NodeKind::Split),
        decreases splits@.len() - k,
    {
        let ghost made = edges_view(edges@);
        let ghost before = plan_kinds(plan_nodes@);
        edges.push((splits[k], n + k));
        plan_nodes.push(SessionNode::Split);
        assert(edges_view(edges@) =~= made.push((splits@[k as int] as int, n + k)));
        assert(edges_view(edges@) =~= se.take(k as int + 1));
        assert(plan_kinds(plan_nodes@) =~= before.push(NodeKind::Split));
        k = k + 1;
        assert(plan_kinds(plan_nodes@) =~= kinds + Seq::new(k as nat, |j: int| NodeKind::Split));
    }
    assert(se.take(k as int) =~= se);
    let ghost with_splits = kinds + Seq::new(splits@.len(), |j: int| NodeKind::Split);
    let mut k: usize = 0;
    assert(edges_view(edges@) =~= se + me.take(0));
    assert(plan_kinds(plan_nodes@) =~= with_splits + Seq::new(0, |j: int| NodeKind::Merge));
    while k < merges.len()
        invariant
            k <= merges@.len(),
            first_merge == nodes@.len() + splits_of(nodes@, ws@).len(),
            first_merge + merges@.len() <= usize::MAX,
            merges@ == merges_of(nodes@, ws@),
            me == merge_edges(nodes@, ws@),
            edges_view(edges@) == se + me.take(k as int),
            plan_kinds(plan_nodes@) == with_splits + Seq::new(k as nat, |j: int| NodeKind::Merge),
        decreases merges@.len() - k,
    {
        let ghost made = edges_view(edges@);
        let ghost before = plan_kinds(plan_nodes@);
        edges.push((first_merge + k, merges[k]));
        plan_nodes.push(SessionNode::Merge);
        assert(edges_view(edges@) =~= made.push((first_merge + k, merges@[k as int] as int)));
        assert(edges_view(edges@) =~= se + me.take(k as int + 1));
        assert(plan_kinds(plan_nodes@) =~= before.push(NodeKind::Merge));
        k = k + 1;
        assert(plan_kinds(plan_nodes@) =~= with_splits + Seq::new(
            k as nat,
            |j: int| NodeKind::Merge,
        ));
    }
    assert(me.take(k as int) =~= me);
    assert(plan_kinds(plan_nodes@) =~= engine_kinds(nodes@, ws@));

    let first_wired: usize = edges.len();
    let ghost junctions = se + me;
    let mut w: usize = 0;
    assert(edges_view(edges@) =~= junctions + wired_edges(nodes@, ws@, 0));
    while w < ws.len()
        invariant
            w <= ws@.len(),
            n == nodes@.len(),
            closed_graph(nodes@, ws@),
            first_merge == nodes@.len() + splits_of(nodes@, ws@).len(),
            first_merge + n <= usize::MAX,
            exits@.len() == n,
            entries@.len() == n,
            forall|j: int|
                0 <= j < n ==> (#[trigger] exits@[j]) == exit_of(nodes@, ws@, j),
            forall|j: int|
                0 <= j < n ==> (#[trigger] entries@[j]) == (if needs_merge(nodes@[j], ws@) {
                    Some(merges_before(nodes@, ws@, j) as usize)
                } else {
                    None
                }),
            forall|j: int|
                0 <= j < n ==> #[trigger] merges_before(nodes@, ws@, j) <= n,
            first_wired == junctions.len(),
            edges_view(edges@) == junctions + wired_edges(nodes@, ws@, w as nat),
        decreases ws@.len() - w,
    {
        let ghost made = edges_view(edges@);
        let wire: Wire = ws[w];
        let a: usize = index_of(nodes, wire.from);
        let b: usize = index_of(nodes, wire.to);
        let from: usize = exits[a];
        assert(merges_before(nodes@, ws@, b as int) <= n);
        let to: usize = match entries[b] {
            Some(m) => first_merge + m,
            None => b,
        };
        assert((from as int, to as int) == edge_of(nodes@, ws@, ws@[w as int]));
        assert(made.skip(first_wired as int) =~= wired_edges(nodes@, ws@, w as nat));
        if !has_edge(&edges, first_wired, from, to) {
            edges.push((from, to));
            assert(edges_view(edges@) =~= made.push((from as int, to as int)));
            assert(edges_view(edges@) =~= junctions + wired_edges(nodes@, ws@, w as nat + 1));
        }
        w = w + 1;
    }
    Ok(EnginePlan { nodes: plan_nodes, edges, manifest })
}

/// What a node of the editor is.
pub open spec fn kind_of(n: SonidoNode) -> NodeKind {
    match n {
        SonidoNode::Input => NodeKind::Input,
        SonidoNode::Output => NodeKind::Output,
        SonidoNode::Effect { effect_id, .. } => NodeKind::Effect(effect_id@),
        SonidoNode::Split => NodeKind::Split,
        SonidoNode::Merge => NodeKind::Merge,
    }
}

/// The nodes of a graph in ascending order of their ids.
pub open spec fn lists_nodes(snarl: Snarl<SonidoNode>, nodes: Seq<(usize, SessionNode)>) -> bool {
    &&& ascending(ids_in(nodes))
    &&& ids_in(nodes).to_set() == snarl_nodes(snarl).dom()
    &&& forall|i: int|
        0 <= i < nodes.len() ==> (#[trigger] nodes[i]).1@ == kind_of(
            snarl_nodes(snarl)[nodes[i].0],
        )
}

/// The wires of a graph, each once, in some order.
pub open spec fn lists_wires(snarl: Snarl<SonidoNode>, ws: Seq<Wire>) -> bool {
    ws.no_duplicates() && ws.to_set() == snarl_wires(snarl)
}

impl SonidoNode {
    /// What the node is, without its metadata.
    pub fn to_session(&self) -> (r: SessionNode)
        ensures
            r@ == kind_of(*self),
    {
        match self {
            SonidoNode::Input => SessionNode::Input,
            SonidoNode::Output => SessionNode::Output,
            SonidoNode::Effect { effect_id, .. } => SessionNode::Effect {
                effect_id: effect_id.clone(),
            },
            SonidoNode::Split => SessionNode::Split,
            SonidoNode::Merge => SessionNode::Merge,
        }
    }
}

/// The nodes of a graph with their ids, in ascending order of the ids.
pub(crate) fn list_nodes(snarl: &Snarl<SonidoNode>) -> (nodes: Vec<(usize, SessionNode)>)
    ensures
        lists_nodes(*snarl, nodes@),
{
    let ids = node_ids(snarl);
    let mut nodes: Vec<(usize, SessionNode)> = Vec::new();
    let mut i: usize = 0;
    while i < ids.len()
        invariant
            i <= ids@.len(),
            ascending(ids@),
            ids@.to_set() == snarl_nodes(*snarl).dom(),
            nodes@.len() == i,
            forall|j: int|
                0 <= j < i ==> (#[trigger] nodes@[j]).0 == ids@[j] && nodes@[j].1@ == kind_of(
                    snarl_nodes(*snarl)[ids@[j]],
                ),
        decreases ids@.len() - i,
    {
        let id: usize = ids[i];
        assert(ids@.to_set().contains(ids@[i as int]));
        let node = find_node(snarl, id).unwrap().to_session();
        nodes.push((id, node));
        i = i + 1;
    }
    assert(ids_in(nodes@) =~= ids@);
    nodes
}

/// Nodes and wires listed from a graph make a closed graph.
pub proof fn listed_graph_is_closed(
    snarl: Snarl<SonidoNode>,
    nodes: Seq<(usize, SessionNode)>,
    ws: Seq<Wire>,
)
    requires
        lists_nodes(snarl, nodes),
        forall|i: int|
            0 <= i < ws.len() ==> snarl_nodes(snarl).contains_key((#[trigger] ws[i]).from)
                && snarl_nodes(snarl).contains_key(ws[i].to),
    ensures
        closed_graph(nodes, ws),
{
    let ids = ids_in(nodes);
    assert forall|i: int, j: int|
        0 <= i < ids.len() && 0 <= j < ids.len() && i != j implies ids[i] != ids[j] by {
        if i < j {
            assert(ids[i] < ids[j]);
        } else {
            assert(ids[j] < ids[i]);
        }
    }
    assert forall|i: int| 0 <= i < ws.len() implies ids.contains((#[trigger] ws[i]).from)
        && ids.contains(ws[i].to) by {
        assert(ids.to_set().contains(ws[i].from));
        assert(ids.to_set().contains(ws[i].to));
    }
}

impl GraphView {
    /// Compile the graph: what to build the engine from, or why it cannot be
    /// built. `known` lists the effects that can be created.
    ///
    /// The order in which wires become connections is that of the container,
    /// which promises none.
    pub fn compile_to_engine(&self, known: &Vec<String>) -> (r: Result<EnginePlan, CompileError>)
        requires
            3 * snarl_nodes(self.snarl).dom().len() <= usize::MAX,
        ensures
            exists|nodes: Seq<(usize, SessionNode)>, ws: Seq<Wire>| #[trigger]
                lists_nodes(self.snarl, nodes) && #[trigger] lists_wires(self.snarl, ws)
                    && closed_graph(nodes, ws) && plan_outcome(nodes, ws, known_ids(known@), r),
    {
        let nodes = list_nodes(&self.snarl);
        let ws = wires(&self.snarl);
        proof {
            listed_graph_is_closed(self.snarl, nodes@, ws@);
            ids_in(nodes@).unique_seq_to_set();
            assert(lists_wires(self.snarl, ws@));
        }
        plan_engine(&nodes, &ws, known)
    }

    /// The parameters of each effect, in chain-slot order.
    pub fn slot_descriptors(&self) -> (r: Vec<Vec<ParamInfo>>)
        ensures
            forall|ids: Seq<usize>| #[trigger]
                is_chain(snarl_nodes(self.snarl), ids) ==> r@.len() == ids.len() && forall|i: int|
                    0 <= i < ids.len() ==> (#[trigger] r@[i])@ == snarl_nodes(
                        self.snarl,
                    )[ids[i]]@->descriptors,
    {
        let ids = self.effect_node_ids();
        let ghost nodes = snarl_nodes(self.snarl);
        let mut r: Vec<Vec<ParamInfo>> = Vec::new();
        let mut i: usize = 0;
        while i < ids.len()
            invariant
                i <= ids@.len(),
                nodes == snarl_nodes(self.snarl),
                is_chain(nodes, ids@),
                r@.len() == i,
                forall|j: int| 0 <= j < i ==> (#[trigger] r@[j])@ == nodes[ids@[j]]@->descriptors,
            decreases ids@.len() - i,
        {
            assert(ids@.to_set().contains(ids@[i as int]));
            let params = match find_node(&self.snarl, ids[i]) {
                Some(SonidoNode::Effect { descriptors, .. }) => clone_params(descriptors),
                _ => Vec::new(),
            };
            r.push(params);
            i = i + 1;
        }
        proof {
            assert forall|other: Seq<usize>| #[trigger] is_chain(nodes, other) implies other
                == ids@ by {
                ascending_listing_is_unique(other, ids@);
            }
        }
        r
    }
}

// Laws.

/// The index with rank `k` among those listed.
pub proof fn rank_of_listed(n: nat, pred: spec_fn(int) -> bool, i: int)
    requires
        0 <= i < n <= usize::MAX,
        pred(i),
    ensures
        indices_where(i as nat, pred).len() < indices_where(n, pred).len(),
        indices_where(n, pred)[indices_where(i as nat, pred).len() as int] == i,
    decreases n,
{
    if i < n - 1 {
        rank_of_listed((n - 1) as nat, pred, i);
    }
}

/// What is listed satisfies the predicate, and its rank is where it is listed.
pub proof fn listed_has_rank(n: nat, pred: spec_fn(int) -> bool, k: int)
    requires
        n <= usize::MAX,
        0 <= k < indices_where(n, pred).len(),
    ensures
        indices_where(n, pred)[k] < n,
        pred(indices_where(n, pred)[k] as int),
        indices_where(indices_where(n, pred)[k] as nat, pred).len() == k,
    decreases n,
{
    if n > 0 {
        let before = indices_where((n - 1) as nat, pred);
        if k < before.len() {
            listed_has_rank((n - 1) as nat, pred, k);
        }
    }
}

/// Ids determine indices.
pub proof fn index_is_inverse(nodes: Seq<(usize, SessionNode)>, id: usize)
    requires
        ids_in(nodes).contains(id),
    ensures
        0 <= index_of_id(nodes, id) < nodes.len(),
        nodes[index_of_id(nodes, id)].0 == id,
{
    assert(ids_in(nodes)[index_of_id(nodes, id)] == id);
}

/// The connections of the wires are those of the wires: nothing is made up, and
/// nothing is left out.
pub proof fn wires_become_edges(nodes: Seq<(usize, SessionNode)>, ws: Seq<Wire>, n: nat)
    requires
        n <= ws.len(),
    ensures
        forall|i: int|
            0 <= i < n ==> wired_edges(nodes, ws, n).contains(
                edge_of(nodes, ws, #[trigger] ws[i]),
            ),
        forall|k: int|
            0 <= k < wired_edges(nodes, ws, n).len() ==> exists|i: int|
                0 <= i < n && #[trigger] wired_edges(nodes, ws, n)[k] == edge_of(
                    nodes,
                    ws,
                    #[trigger] ws[i],
                ),
        wired_edges(nodes, ws, n).no_duplicates(),
    decreases n,
{
    if n > 0 {
        wires_become_edges(nodes, ws, (n - 1) as nat);
        let before = wired_edges(nodes, ws, (n - 1) as nat);
        let after = wired_edges(nodes, ws, n);
        let edge = edge_of(nodes, ws, ws[n - 1]);
        assert forall|i: int| 0 <= i < n implies after.contains(
            edge_of(nodes, ws, #[trigger] ws[i]),
        ) by {
            push_contains_iff(before, edge, edge_of(nodes, ws, ws[i]));
        }
        assert forall|k: int| 0 <= k < after.len() implies exists|i: int|
            0 <= i < n && #[trigger] after[k] == edge_of(nodes, ws, #[trigger] ws[i]) by {
            if k < before.len() {
                assert(after[k] == before[k]);
                let i = choose|i: int|
                    0 <= i < n - 1 && #[trigger] before[k] == edge_of(nodes, ws, #[trigger] ws[i]);
                assert(after[k] == edge_of(nodes, ws, ws[i]));
            } else {
                assert(after[k] == edge_of(nodes, ws, ws[n - 1]));
            }
        }
    }
}

/// What the source of a connection is: a node that does not fan out or is a
/// split of the graph, a node with an added split, an added split, or an added
/// merge.
pub proof fn edge_shape(nodes: Seq<(usize, SessionNode)>, ws: Seq<Wire>, i: int)
    requires
        closed_graph(nodes, ws),
        nodes.len() <= usize::MAX,
        0 <= i < ws.len(),
    ensures
        ({
            let n = nodes.len();
            let splits = splits_of(nodes, ws);
            let merges = merges_of(nodes, ws);
            let a = index_of_id(nodes, ws[i].from);
            let b = index_of_id(nodes, ws[i].to);
            let (from, to) = edge_of(nodes, ws, ws[i]);
            &&& 0 <= a < n && nodes[a].0 == ws[i].from
            &&& 0 <= b < n && nodes[b].0 == ws[i].to
            &&& if needs_split(nodes[a], ws) {
                n <= from < n + splits.len() && splits[from - n] == a
            } else {
                from == a
            }
            &&& if needs_merge(nodes[b], ws) {
                n + splits.len() <= to < n + splits.len() + merges.len() && merges[to - n
                    - splits.len()] == b
            } else {
                to == b
            }
        }),
{
    let n = nodes.len();
    let a = index_of_id(nodes, ws[i].from);
    let b = index_of_id(nodes, ws[i].to);
    index_is_inverse(nodes, ws[i].from);
    index_is_inverse(nodes, ws[i].to);
    if needs_split(nodes[a], ws) {
        rank_of_listed(n, |j: int| needs_split(nodes[j], ws), a);
    }
    if needs_merge(nodes[b], ws) {
        rank_of_listed(n, |j: int| needs_merge(nodes[j], ws), b);
    }
}

/// Which connection of the engine an index stands for.
pub proof fn edge_cases(nodes: Seq<(usize, SessionNode)>, ws: Seq<Wire>, k: int) -> (i: int)
    requires
        0 <= k < engine_edges(nodes, ws).len(),
    ensures
        ({
            let s = split_edges(nodes, ws);
            let m = merge_edges(nodes, ws);
            let e = engine_edges(nodes, ws)[k];
            ||| k < s.len() && e == s[k]
            ||| s.len() <= k < s.len() + m.len() && e == m[k - s.len()]
            ||| s.len() + m.len() <= k && 0 <= i < ws.len() && e == edge_of(nodes, ws, ws[i])
                && e == wired_edges(nodes, ws, ws.len())[k - s.len() - m.len()]
        }),
{
    let s = split_edges(nodes, ws);
    let m = merge_edges(nodes, ws);
    wires_become_edges(nodes, ws, ws.len());
    if s.len() + m.len() <= k {
        let w = wired_edges(nodes, ws, ws.len());
        let j = k - s.len() - m.len();
        assert(engine_edges(nodes, ws)[k] == w[j]);
        choose|i: int| 0 <= i < ws.len() && w[j] == edge_of(nodes, ws, #[trigger] ws[i])
    } else {
        0
    }
}

/// Signals divide only at splits: of two connections from one engine node, the
/// node is a split.
#[verifier::rlimit(40)]
pub proof fn only_splits_fan_out(nodes: Seq<(usize, SessionNode)>, ws: Seq<Wire>, k: int, l: int)
    requires
        closed_graph(nodes, ws),
        nodes.len() <= usize::MAX,
        0 <= k < engine_edges(nodes, ws).len(),
        0 <= l < engine_edges(nodes, ws).len(),
        k != l,
        engine_edges(nodes, ws)[k].0 == engine_edges(nodes, ws)[l].0,
    ensures
        0 <= engine_edges(nodes, ws)[k].0 < engine_kinds(nodes, ws).len(),
        engine_kinds(nodes, ws)[engine_edges(nodes, ws)[k].0] is Split,
{
    let n = nodes.len();
    let splits = splits_of(nodes, ws);
    let merges = merges_of(nodes, ws);
    let pred = |j: int| needs_split(nodes[j], ws);
    let i = edge_cases(nodes, ws, k);
    let j = edge_cases(nodes, ws, l);
    wires_become_edges(nodes, ws, ws.len());
    assert forall|x: int| 0 <= x < splits.len() implies splits[x] < n && needs_split(
        nodes[splits[x] as int],
        ws,
    ) && #[trigger] indices_where(splits[x] as nat, pred).len() == x by {
        listed_has_rank(n, pred, x);
    }
    if k < splits.len() {
        listed_has_rank(n, pred, k);
    }
    if l < splits.len() {
        listed_has_rank(n, pred, l);
    }
    let s = split_edges(nodes, ws).len();
    let m = merge_edges(nodes, ws).len();
    if k >= s + m {
        edge_shape(nodes, ws, i);
    }
    if l >= s + m {
        edge_shape(nodes, ws, j);
    }
    if k >= s + m && l >= s + m {
        let a = index_of_id(nodes, ws[i].from);
        let b = index_of_id(nodes, ws[j].from);
        let w = wired_edges(nodes, ws, ws.len());
        assert(w[k - s - m] != w[l - s - m]);
        if !needs_split(nodes[a], ws) && !needs_split(nodes[b], ws) {
            assert(a == b);
            if !(nodes[a].1@ is Split) {
                assert(!fans_out(ws, nodes[a].0));
                assert(ws[i].to == ws[j].to);
            }
        }
    }
}

/// Signals join only at merges: of two connections to one engine node, the node
/// is a merge.
#[verifier::rlimit(40)]
pub proof fn only_merges_fan_in(nodes: Seq<(usize, SessionNode)>, ws: Seq<Wire>, k: int, l: int)
    requires
        closed_graph(nodes, ws),
        nodes.len() <= usize::MAX,
        0 <= k < engine_edges(nodes, ws).len(),
        0 <= l < engine_edges(nodes, ws).len(),
        k != l,
        engine_edges(nodes, ws)[k].1 == engine_edges(nodes, ws)[l].1,
    ensures
        0 <= engine_edges(nodes, ws)[k].1 < engine_kinds(nodes, ws).len(),
        engine_kinds(nodes, ws)[engine_edges(nodes, ws)[k].1] is Merge,
{
    let n = nodes.len();
    let splits = splits_of(nodes, ws);
    let merges = merges_of(nodes, ws);
    let pred = |j: int| needs_merge(nodes[j], ws);
    let i = edge_cases(nodes, ws, k);
    let j = edge_cases(nodes, ws, l);
    wires_become_edges(nodes, ws, ws.len());
    let s = split_edges(nodes, ws).len();
    let m = merge_edges(nodes, ws).len();
    if s <= k < s + m {
        listed_has_rank(n, pred, k - s);
    }
    if s <= l < s + m {
        listed_has_rank(n, pred, l - s);
    }
    if k >= s + m {
        edge_shape(nodes, ws, i);
    }
    if l >= s + m {
        edge_shape(nodes, ws, j);
    }
    if k >= s + m && l >= s + m {
        let a = index_of_id(nodes, ws[i].to);
        let b = index_of_id(nodes, ws[j].to);
        let w = wired_edges(nodes, ws, ws.len());
        assert(w[k - s - m] != w[l - s - m]);
        if !needs_merge(nodes[a], ws) && !needs_merge(nodes[b], ws) {
            assert(a == b);
            if !(nodes[a].1@ is Merge) {
                assert(!fans_in(ws, nodes[a].0));
                assert(ws[i].from == ws[j].from);
            }
        }
    }
}

} // verus!
