//! What to build a runnable engine from a patch of.
//!
//! The plan made here says which engine nodes to create and which connections
//! to make, in order; constructing effects and running the engine is the
//! caller's. Engine slot `i` is patch node `i`, so macro and morph targets
//! address it directly.
use crate::compile::edges_view;
use crate::patch::{NodeModel, Patch, PatchEdge, PatchEndpoint, PatchModel};
use crate::performance::{SlotRestore, SlotRestoreModel, slot_restores_view};
use crate::session::{
    EffectState, NodeKind, Session, counts_step, effects_among, endpoint_of, kinds_of,
    patch_edges_of, patch_nodes_of, patch_of,
};
use crate::text::{decimal, push_decimal};
use crate::validate::{sound, sound_endpoint};
use vstd::prelude::*;
use vstd::string::StringExecFns;

verus! {

/// Why a patch could not be turned into an engine.
#[derive(Debug, PartialEq, Eq)]
#[non_exhaustive]
pub enum PatchBuildError {
    /// There is no effect for this UID.
    UnknownEffect(u16),
    /// An edge referenced a node that does not exist.
    BadEndpoint,
    /// The engine rejected a connection or failed to compile; in its own words.
    Graph(String),
}

/// The message for a build failure.
pub open spec fn build_message(e: PatchBuildError) -> Seq<char> {
    match e {
        PatchBuildError::UnknownEffect(uid) => "effect UID "@ + decimal(uid as nat)
            + " is not available"@,
        PatchBuildError::BadEndpoint => "edge references a non-existent node"@,
        PatchBuildError::Graph(text) => "graph error: "@ + text@,
    }
}

impl PatchBuildError {
    /// A message for the user.
    pub fn message(&self) -> (m: String)
        ensures
            m@ == build_message(*self),
    {
        match self {
            PatchBuildError::UnknownEffect(uid) => {
                let mut m = "effect UID ".to_owned();
                push_decimal(&mut m, *uid as u128);
                m.append(" is not available");
                m
            },
            PatchBuildError::BadEndpoint => "edge references a non-existent node".to_owned(),
            PatchBuildError::Graph(text) => {
                let mut m = "graph error: ".to_owned();
                m.append(text.as_str());
                m
            },
        }
    }
}

/// An engine node to create.
#[derive(Clone, Copy, Debug, PartialEq, Eq, Structural)]
pub enum EngineNode {
    /// The audio input.
    Input,
    /// The audio output.
    Output,
    /// The effect with this UID.
    Effect(u16),
    /// A fan-out junction.
    Split,
    /// A fan-in junction.
    Merge,
}

/// What to build an engine of.
#[derive(Debug)]
pub struct BuildPlan {
    /// Nodes to create: input, output, the effects in slot order, then junctions
    /// as edges call for them.
    pub nodes: Vec<EngineNode>,
    /// Connections to make between them, in order, by index.
    pub edges: Vec<(usize, usize)>,
    /// Whether the edge after the last connection names a node that does not
    /// exist.
    pub dangling: bool,
    /// What to write to each slot: bypass and the A snapshot.
    pub setup: Vec<SlotRestore>,
}

/// Whether an endpoint exists in a patch of `n` nodes.
pub open spec fn resolves(e: PatchEndpoint, n: nat) -> bool {
    e matches PatchEndpoint::Node(i) ==> i < n
}

/// How many edges there are in front of the first that names a missing node.
pub open spec fn good_edges(es: Seq<PatchEdge>, n: nat, from: int) -> int
    decreases es.len() - from,
{
    if from < 0 || from >= es.len() {
        from
    } else if resolves(es[from].from, n) && resolves(es[from].to, n) {
        good_edges(es, n, from + 1)
    } else {
        from
    }
}

/// Whether an endpoint is a junction.
pub open spec fn is_junction(e: PatchEndpoint) -> bool {
    e is Split || e is Merge
}

/// Junctions with one more endpoint taken in.
pub open spec fn taken_in(js: Seq<PatchEndpoint>, e: PatchEndpoint) -> Seq<PatchEndpoint> {
    if is_junction(e) && !js.contains(e) {
        js.push(e)
    } else {
        js
    }
}

/// The junctions of the first `n` edges, each once, in order of appearance.
pub open spec fn junctions_of(es: Seq<PatchEdge>, n: nat) -> Seq<PatchEndpoint>
    decreases n,
{
    if n == 0 {
        Seq::empty()
    } else {
        taken_in(taken_in(junctions_of(es, (n - 1) as nat), es[n - 1].from), es[n - 1].to)
    }
}

/// The engine node of an endpoint, given the junctions in order.
pub open spec fn engine_index(e: PatchEndpoint, n: nat, js: Seq<PatchEndpoint>) -> int {
    match e {
        PatchEndpoint::Input => 0,
        PatchEndpoint::Output => 1,
        PatchEndpoint::Node(i) => 2 + i,
        _ => 2 + n + js.index_of(e),
    }
}

/// The connection of an edge.
pub open spec fn engine_edge(e: PatchEdge, n: nat, js: Seq<PatchEndpoint>) -> (int, int) {
    (engine_index(e.from, n, js), engine_index(e.to, n, js))
}

/// The engine node for a junction.
pub open spec fn junction_node(e: PatchEndpoint) -> EngineNode {
    if e is Split {
        EngineNode::Split
    } else {
        EngineNode::Merge
    }
}

/// All engine nodes.
pub open spec fn engine_nodes(nodes: Seq<NodeModel>, js: Seq<PatchEndpoint>) -> Seq<EngineNode> {
    seq![EngineNode::Input, EngineNode::Output] + nodes.map_values(
        |n: NodeModel| EngineNode::Effect(n.effect_uid),
    ) + js.map_values(|e: PatchEndpoint| junction_node(e))
}

/// What is written to the slots at the start.
pub open spec fn setup_of(nodes: Seq<NodeModel>) -> Seq<SlotRestoreModel> {
    Seq::new(
        nodes.len(),
        |i: int|
            SlotRestoreModel { slot: i, values: nodes[i].params_a, bypassed: nodes[i].bypassed },
    )
}

/// The first node whose effect is not available.
pub open spec fn first_unknown(nodes: Seq<NodeModel>, known: Seq<u16>, i: int) -> Option<u16>
    decreases nodes.len() - i,
{
    if i < 0 || i >= nodes.len() {
        None
    } else if known.contains(nodes[i].effect_uid) {
        first_unknown(nodes, known, i + 1)
    } else {
        Some(nodes[i].effect_uid)
    }
}

/// A plan for a patch.
pub open spec fn plans(p: PatchModel, plan: BuildPlan) -> bool {
    let n = p.nodes.len();
    let k = good_edges(p.edges, n, 0);
    let js = junctions_of(p.edges, k as nat);
    &&& plan.nodes@ == engine_nodes(p.nodes, js)
    &&& edges_view(plan.edges@) == Seq::new(k as nat, |i: int| engine_edge(p.edges[i], n, js))
    &&& plan.dangling == (k < p.edges.len())
    &&& slot_restores_view(plan.setup@) == setup_of(p.nodes)
}

/// The end of the good edges is within the edges, and what is in front of it is
/// good.
pub proof fn good_edges_bounds(es: Seq<PatchEdge>, n: nat, from: int)
    requires
        0 <= from <= es.len(),
    ensures
        from <= good_edges(es, n, from) <= es.len(),
        forall|i: int|
            from <= i < good_edges(es, n, from) ==> resolves((#[trigger] es[i]).from, n)
                && resolves(es[i].to, n),
        good_edges(es, n, from) < es.len() ==> !(resolves(es[good_edges(es, n, from)].from, n)
            && resolves(es[good_edges(es, n, from)].to, n)),
    decreases es.len() - from,
{
    if from < es.len() && resolves(es[from].from, n) && resolves(es[from].to, n) {
        good_edges_bounds(es, n, from + 1);
    }
}

/// Junctions never occur twice, and further edges only add to them.
proof fn junctions_grow(es: Seq<PatchEdge>, m: nat, n: nat)
    requires
        m <= n <= es.len(),
    ensures
        junctions_of(es, n).no_duplicates(),
        junctions_of(es, m).is_prefix_of(junctions_of(es, n)),
        junctions_of(es, n).len() <= 2 * n,
        forall|i: int|
            0 <= i < junctions_of(es, n).len() ==> is_junction(
                #[trigger] junctions_of(es, n)[i],
            ),
    decreases n,
{
    if n > 0 {
        let before = junctions_of(es, (n - 1) as nat);
        if m < n {
            junctions_grow(es, m, (n - 1) as nat);
        } else {
            junctions_grow(es, (n - 1) as nat, (n - 1) as nat);
        }
        let half = taken_in(before, es[n - 1].from);
        let whole = taken_in(half, es[n - 1].to);
        assert(half.no_duplicates());
        assert(whole.no_duplicates());
        if m < n {
            assert(junctions_of(es, m) =~= whole.take(junctions_of(es, m).len() as int));
        }
    }
}

/// The place of a junction does not move when more are taken in.
proof fn place_is_stable(js: Seq<PatchEndpoint>, more: Seq<PatchEndpoint>, e: PatchEndpoint)
    requires
        js.is_prefix_of(more),
        more.no_duplicates(),
        js.contains(e),
    ensures
        js.index_of(e) == more.index_of(e),
{
    let i = js.index_of(e);
    assert(more[i] == js[i]);
    assert(more.contains(e));
    let j = more.index_of(e);
    assert(more[j] == e);
}

/// The place of a junction, taking it in if it is new.
fn junction_place(js: &mut Vec<PatchEndpoint>, e: PatchEndpoint) -> (i: usize)
    requires
        is_junction(e),
        old(js)@.no_duplicates(),
    ensures
        final(js)@ == taken_in(old(js)@, e),
        i < final(js)@.len(),
        final(js)@[i as int] == e,
{
    let mut i: usize = 0;
    while i < js.len()
        invariant
            i <= js@.len(),
            js@ == old(js)@,
            forall|k: int| 0 <= k < i ==> js@[k] != e,
        decreases js@.len() - i,
    {
        if js[i] == e {
            return i;
        }
        i = i + 1;
    }
    js.push(e);
    i
}

/// The engine node of an endpoint, taking in a new junction.
fn resolve(e: PatchEndpoint, n: usize, js: &mut Vec<PatchEndpoint>) -> (r: usize)
    requires
        resolves(e, n as nat),
        old(js)@.no_duplicates(),
        2 + n + old(js)@.len() < usize::MAX,
    ensures
        final(js)@ == taken_in(old(js)@, e),
        r == engine_index(e, n as nat, final(js)@),
        is_junction(e) ==> final(js)@.contains(e),
{
    match e {
        PatchEndpoint::Input => 0,
        PatchEndpoint::Output => 1,
        PatchEndpoint::Node(i) => 2 + i as usize,
        _ => {
            let i: usize = junction_place(js, e);
            proof {
                let at = js@.index_of(e);
                assert(js@[at] == js@[i as int]);
                assert(js@.no_duplicates());
            }
            2 + n + i
        },
    }
}

fn endpoint_resolves(e: PatchEndpoint, n: usize) -> (r: bool)
    ensures
        r == resolves(e, n as nat),
{
    match e {
        PatchEndpoint::Node(i) => (i as usize) < n,
        _ => true,
    }
}

fn uid_known(known: &[u16], uid: u16) -> (r: bool)
    ensures
        r == known@.contains(uid),
{
    let mut i: usize = 0;
    while i < known.len()
        invariant
            i <= known@.len(),
            forall|j: int| 0 <= j < i ==> known@[j] != uid,
        decreases known@.len() - i,
    {
        if known[i] == uid {
            return true;
        }
        i = i + 1;
    }
    false
}

/// Plan an engine for a patch. `known` lists the UIDs of the effects that can be
/// constructed.
///
/// Fails with `UnknownEffect` for the first node whose effect is not among them.
/// A dangling edge is reported in the plan, behind the connections in front of
/// it: see [`BuildPlan::conclude`].
pub fn build_graph_from_patch(patch: &Patch, known: &[u16]) -> (r: Result<
    BuildPlan,
    PatchBuildError,
>)
    requires
        3 + patch.nodes@.len() + 2 * patch.edges@.len() <= usize::MAX,
    ensures
        match r {
            Ok(plan) => first_unknown(patch@.nodes, known@, 0) is None && plans(patch@, plan),
            Err(e) => e matches PatchBuildError::UnknownEffect(uid) && first_unknown(
                patch@.nodes,
                known@,
                0,
            ) == Some(uid),
        },
{
    let n: usize = patch.nodes.len();
    let ghost ns = patch@.nodes;
    let ghost es = patch.edges@;
    let mut nodes: Vec<EngineNode> = Vec::new();
    nodes.push(EngineNode::Input);
    nodes.push(EngineNode::Output);
    let mut setup: Vec<SlotRestore> = Vec::new();
    let mut i: usize = 0;
    assert(slot_restores_view(setup@) =~= setup_of(ns).take(0));
    assert(nodes@ =~= engine_nodes(ns, Seq::empty()).take(2));
    while i < n
        invariant
            i <= n,
            n == patch.nodes@.len(),
            ns == patch@.nodes,
            first_unknown(ns, known@, 0) == first_unknown(ns, known@, i as int),
            nodes@ == engine_nodes(ns, Seq::empty()).take(2 + i),
            slot_restores_view(setup@) == setup_of(ns).take(i as int),
        decreases n - i,
    {
        let node = &patch.nodes[i];
        assert(ns[i as int] == node@);
        if !uid_known(known, node.effect_uid) {
            return Err(PatchBuildError::UnknownEffect(node.effect_uid));
        }
        let ghost before = slot_restores_view(setup@);
        nodes.push(EngineNode::Effect(node.effect_uid));
        assert(nodes@ =~= engine_nodes(ns, Seq::empty()).take(2 + i + 1));
        let values = node.params_a.clone();
        assert(values@ =~= node.params_a@);
        let w = SlotRestore { slot: i, values, bypassed: node.bypassed };
        let ghost model = w@;
        setup.push(w);
        assert(slot_restores_view(setup@) =~= before.push(model));
        i = i + 1;
        assert(slot_restores_view(setup@) =~= setup_of(ns).take(i as int));
    }
    assert(setup_of(ns).take(n as int) =~= setup_of(ns));
    assert(engine_nodes(ns, Seq::empty()).take(2 + n as int) =~= engine_nodes(ns, Seq::empty()));

    let mut js: Vec<PatchEndpoint> = Vec::new();
    let mut edges: Vec<(usize, usize)> = Vec::new();
    let mut k: usize = 0;
    assert(edges_view(edges@) =~= Seq::empty());
    proof {
        good_edges_bounds(es, n as nat, 0);
    }
    while k < patch.edges.len() && endpoint_resolves(patch.edges[k].from, n)
        && endpoint_resolves(patch.edges[k].to, n)
        invariant
            k <= patch.edges@.len(),
            es == patch.edges@,
            3 + n + 2 * es.len() <= usize::MAX,
            good_edges(es, n as nat, 0) == good_edges(es, n as nat, k as int),
            js@ == junctions_of(es, k as nat),
            edges@.len() == k,
            forall|i: int|
                0 <= i < k ==> #[trigger] edges_view(edges@)[i] == engine_edge(
                    es[i],
                    n as nat,
                    junctions_of(es, i as nat + 1),
                ),
            forall|i: int|
                0 <= i < k ==> (is_junction((#[trigger] es[i]).from) ==> junctions_of(
                    es,
                    i as nat + 1,
                ).contains(es[i].from)) && (is_junction(es[i].to) ==> junctions_of(
                    es,
                    i as nat + 1,
                ).contains(es[i].to)),
        decreases patch.edges@.len() - k,
    {
        let edge = patch.edges[k];
        let ghost made = edges_view(edges@);
        proof {
            junctions_grow(es, k as nat, k as nat);
            junctions_grow(es, k as nat, k as nat + 1);
        }
        let from: usize = resolve(edge.from, n, &mut js);
        let ghost half = js@;
        let to: usize = resolve(edge.to, n, &mut js);
        proof {
            if is_junction(edge.from) {
                assert(js@.take(half.len() as int) =~= half);
                place_is_stable(half, js@, edge.from);
                assert(js@[half.index_of(edge.from)] == edge.from);
            }
        }
        edges.push((from, to));
        assert(edges_view(edges@) =~= made.push((from as int, to as int)));
        k = k + 1;
    }
    let dangling = k < patch.edges.len();
    proof {
        junctions_grow(es, k as nat, k as nat);
        assert(good_edges(es, n as nat, 0) == k);
        assert forall|i: int| 0 <= i < k implies #[trigger] edges_view(edges@)[i] == engine_edge(
            es[i],
            n as nat,
            js@,
        ) by {
            let then = junctions_of(es, i as nat + 1);
            junctions_grow(es, i as nat + 1, k as nat);
            if is_junction(es[i].from) {
                place_is_stable(then, js@, es[i].from);
            }
            if is_junction(es[i].to) {
                place_is_stable(then, js@, es[i].to);
            }
        }
        assert(edges_view(edges@) =~= Seq::new(
            k as nat,
            |i: int| engine_edge(es[i], n as nat, js@),
        ));
    }
    let mut j: usize = 0;
    while j < js.len()
        invariant
            j <= js@.len(),
            nodes@ == engine_nodes(ns, js@.take(j as int)),
        decreases js@.len() - j,
    {
        let node = match js[j] {
            PatchEndpoint::Split(_) => EngineNode::Split,
            _ => EngineNode::Merge,
        };
        nodes.push(node);
        j = j + 1;
        assert(nodes@ =~= engine_nodes(ns, js@.take(j as int)));
    }
    assert(js@.take(j as int) =~= js@);
    Ok(BuildPlan { nodes, edges, dangling, setup })
}

impl BuildPlan {
    /// What building ends in. `refused` is the engine's complaint about one of the
    /// plan's connections, if it had one: those come before the dangling edge.
    pub fn conclude(&self, refused: Option<String>) -> (r: Result<(), PatchBuildError>)
        ensures
            r == (match refused {
                Some(text) => Err(PatchBuildError::Graph(text)),
                None => if self.dangling {
                    Err(PatchBuildError::BadEndpoint)
                } else {
                    Ok(())
                },
            }),
    {
        match refused {
            Some(text) => Err(PatchBuildError::Graph(text)),
            None => {
                if self.dangling {
                    Err(PatchBuildError::BadEndpoint)
                } else {
                    Ok(())
                }
            },
        }
    }
}

/// Whether one of the first `n` edges touches an endpoint.
pub open spec fn touched(es: Seq<PatchEdge>, n: int, e: PatchEndpoint) -> bool {
    exists|i: int| 0 <= i < n && ((#[trigger] es[i]).from == e || es[i].to == e)
}

/// Every junction that an edge touches is among the junctions.
proof fn junctions_are_taken_in(es: Seq<PatchEdge>, n: nat, e: PatchEndpoint)
    requires
        n <= es.len(),
        is_junction(e),
        touched(es, n as int, e),
    ensures
        junctions_of(es, n).contains(e),
    decreases n,
{
    let i = choose|i: int| 0 <= i < n && ((#[trigger] es[i]).from == e || es[i].to == e);
    let before = junctions_of(es, (n - 1) as nat);
    if i < n - 1 {
        junctions_are_taken_in(es, (n - 1) as nat, e);
        let at = before.index_of(e);
        junctions_grow(es, (n - 1) as nat, n);
        assert(junctions_of(es, n)[at] == e);
    } else {
        let half = taken_in(before, es[n - 1].from);
        if es[i].from == e {
            if before.contains(e) {
                assert(half == before);
            } else {
                assert(half[before.len() as int] == e);
            }
            assert(half.contains(e));
            let at = half.index_of(e);
            assert(taken_in(half, es[n - 1].to)[at] == e);
        } else {
            if !half.contains(e) {
                assert(taken_in(half, e)[half.len() as int] == e);
            }
        }
    }
}

/// Every endpoint has an engine node of its own: two connected endpoints share
/// one exactly where they are the same, so each split and merge becomes one
/// junction however many edges meet there.
pub proof fn endpoints_keep_apart(p: PatchModel, a: PatchEndpoint, b: PatchEndpoint)
    requires
        touched(p.edges, good_edges(p.edges, p.nodes.len(), 0), a),
        touched(p.edges, good_edges(p.edges, p.nodes.len(), 0), b),
    ensures
        ({
            let js = junctions_of(p.edges, good_edges(p.edges, p.nodes.len(), 0) as nat);
            let n = p.nodes.len();
            engine_index(a, n, js) == engine_index(b, n, js) <==> a == b
        }),
{
    let n = p.nodes.len();
    good_edges_bounds(p.edges, n, 0);
    let k = good_edges(p.edges, n, 0) as nat;
    let js = junctions_of(p.edges, k);
    junctions_grow(p.edges, k, k);
    if is_junction(a) {
        junctions_are_taken_in(p.edges, k, a);
        assert(js[js.index_of(a)] == a);
    }
    if is_junction(b) {
        junctions_are_taken_in(p.edges, k, b);
        assert(js[js.index_of(b)] == b);
    }
}

/// A patch keeps resolving as effects are added or listed in another order: where
/// every effect that was available still is, no node becomes unknown.
pub proof fn patches_keep_resolving(nodes: Seq<NodeModel>, known: Seq<u16>, later: Seq<u16>, i: int)
    requires
        0 <= i,
        first_unknown(nodes, known, i) is None,
        forall|uid: u16| #[trigger] known.contains(uid) ==> later.contains(uid),
    ensures
        first_unknown(nodes, later, i) is None,
    decreases nodes.len() - i,
{
    if i < nodes.len() {
        assert(known.contains(nodes[i].effect_uid));
        patches_keep_resolving(nodes, known, later, i + 1);
    }
}

/// A sound patch has no dangling edge.
pub proof fn sound_patches_do_not_dangle(p: PatchModel)
    requires
        sound(p),
    ensures
        good_edges(p.edges, p.nodes.len(), 0) == p.edges.len(),
{
    good_edges_bounds(p.edges, p.nodes.len(), 0);
    let k = good_edges(p.edges, p.nodes.len(), 0);
    if k < p.edges.len() {
        assert(sound_endpoint(p.edges[k].from, p.nodes.len()));
    }
}

/// More nodes hold no fewer effects.
proof fn effects_grow(kinds: Seq<NodeKind>, i: int, j: int)
    requires
        0 <= i <= j <= kinds.len(),
    ensures
        effects_among(kinds.take(i)) <= effects_among(kinds.take(j)),
    decreases j - i,
{
    if i < j {
        counts_step(kinds, i);
        effects_grow(kinds, i + 1, j);
    }
}

/// A session becomes a patch with one node per effect.
proof fn one_node_per_effect(
    kinds: Seq<NodeKind>,
    params: Map<usize, EffectState>,
    uids: Seq<(String, u16)>,
    n: int,
)
    requires
        0 <= n <= kinds.len(),
    ensures
        patch_nodes_of(kinds.take(n), params, uids).len() == effects_among(kinds.take(n)),
    decreases n,
{
    if n == 0 {
        reveal(Seq::filter);
        assert(kinds.take(0) =~= Seq::empty());
    } else {
        one_node_per_effect(kinds, params, uids, n - 1);
        counts_step(kinds, n - 1);
        assert(kinds.take(n).drop_last() =~= kinds.take(n - 1));
    }
}

/// Every node of a session stands for an endpoint that its patch has.
proof fn endpoint_exists(
    kinds: Seq<NodeKind>,
    params: Map<usize, EffectState>,
    uids: Seq<(String, u16)>,
    i: int,
)
    requires
        0 <= i < kinds.len(),
    ensures
        resolves(endpoint_of(kinds, i), patch_nodes_of(kinds, params, uids).len()),
{
    let n = kinds.len() as int;
    assert(kinds.take(n) =~= kinds);
    one_node_per_effect(kinds, params, uids, n);
    counts_step(kinds, i);
    effects_grow(kinds, i + 1, n);
}

proof fn edges_exist(
    kinds: Seq<NodeKind>,
    params: Map<usize, EffectState>,
    uids: Seq<(String, u16)>,
    wires: Seq<(usize, usize, usize, usize)>,
    k: int,
)
    requires
        0 <= k < patch_edges_of(kinds, wires).len(),
    ensures
        resolves(
            patch_edges_of(kinds, wires)[k].from,
            patch_nodes_of(kinds, params, uids).len(),
        ),
        resolves(patch_edges_of(kinds, wires)[k].to, patch_nodes_of(kinds, params, uids).len()),
    decreases wires.len(),
{
    let before = patch_edges_of(kinds, wires.drop_last());
    let (from, _, to, _) = wires.last();
    if k < before.len() {
        edges_exist(kinds, params, uids, wires.drop_last(), k);
    } else {
        endpoint_exists(kinds, params, uids, from as int);
        endpoint_exists(kinds, params, uids, to as int);
    }
}

/// The patch of a session has no dangling edge, however its nodes are wired, and
/// one node per effect.
pub proof fn sessions_do_not_dangle(s: Session, name: Seq<char>, uids: Seq<(String, u16)>)
    ensures
        ({
            let p = patch_of(s, name, uids);
            &&& good_edges(p.edges, p.nodes.len(), 0) == p.edges.len()
            &&& p.nodes.len() == effects_among(kinds_of(s.nodes@))
        }),
{
    let p = patch_of(s, name, uids);
    let kinds = kinds_of(s.nodes@);
    assert(kinds.take(kinds.len() as int) =~= kinds);
    one_node_per_effect(kinds, s.params@, uids, kinds.len() as int);
    good_edges_bounds(p.edges, p.nodes.len(), 0);
    let k = good_edges(p.edges, p.nodes.len(), 0);
    if k < p.edges.len() {
        edges_exist(kinds, s.params@, uids, s.wires@, k);
    }
}

/// Whether an engine node is the one for an endpoint of a patch with `n` nodes:
/// the first two are the input and the output, then come the nodes, then the
/// junctions.
pub open spec fn is_engine_node_of(
    e: PatchEndpoint,
    n: nat,
    nodes: Seq<EngineNode>,
    x: usize,
) -> bool {
    match e {
        PatchEndpoint::Input => x == 0,
        PatchEndpoint::Output => x == 1,
        PatchEndpoint::Node(i) => x == 2 + i && i < n,
        PatchEndpoint::Split(_) => 2 + n <= x < nodes.len() && nodes[x as int] == EngineNode::Split,
        PatchEndpoint::Merge(_) => 2 + n <= x < nodes.len() && nodes[x as int] == EngineNode::Merge,
    }
}

/// An engine has the nodes of its patch: the input, the output, the effect of
/// every node in order, and splits and merges.
pub proof fn an_engine_has_the_nodes_of_its_patch(patch: Patch, plan: BuildPlan)
    requires
        plans(patch@, plan),
    ensures
        plan.nodes@.len() >= 2 + patch.nodes@.len(),
        plan.nodes@[0] == EngineNode::Input,
        plan.nodes@[1] == EngineNode::Output,
        forall|i: int|
            #![trigger patch.nodes@[i]]
            0 <= i < patch.nodes@.len() ==> plan.nodes@[2 + i] == EngineNode::Effect(
                patch.nodes@[i].effect_uid,
            ),
        forall|x: int|
            2 + patch.nodes@.len() <= x < plan.nodes@.len() ==> (#[trigger] plan.nodes@[x]) is Split
                || plan.nodes@[x] is Merge,
        plan.setup@.len() == patch.nodes@.len(),
        forall|i: int|
            0 <= i < patch.nodes@.len() ==> (#[trigger] plan.setup@[i]).slot == i
                && plan.setup@[i].values@ == patch.nodes@[i].params_a@ && plan.setup@[i].bypassed
                == patch.nodes@[i].bypassed,
{
    let p = patch@;
    assert(p.nodes.len() == patch.nodes@.len());
    assert forall|i: int| #![trigger patch.nodes@[i]] 0 <= i < patch.nodes@.len() implies
        plan.nodes@[2 + i] == EngineNode::Effect(patch.nodes@[i].effect_uid) by {
        assert(p.nodes[i] == patch.nodes@[i]@);
    }
    let setup = slot_restores_view(plan.setup@);
    assert(setup.len() == plan.setup@.len());
    assert forall|i: int| 0 <= i < patch.nodes@.len() implies (#[trigger] plan.setup@[i]).slot == i
        && plan.setup@[i].values@ == patch.nodes@[i].params_a@ && plan.setup@[i].bypassed
        == patch.nodes@[i].bypassed by {
        assert(setup[i] == plan.setup@[i]@);
        assert(p.nodes[i] == patch.nodes@[i]@);
    }
}

/// The engine node that an edge touches is the one for the endpoint.
proof fn touched_node(p: PatchModel, plan: BuildPlan, e: PatchEndpoint)
    requires
        plans(p, plan),
        touched(p.edges, good_edges(p.edges, p.nodes.len(), 0), e),
    ensures
        ({
            let js = junctions_of(p.edges, good_edges(p.edges, p.nodes.len(), 0) as nat);
            let x = engine_index(e, p.nodes.len(), js);
            0 <= x <= usize::MAX ==> is_engine_node_of(e, p.nodes.len(), plan.nodes@, x as usize)
        }),
{
    let n = p.nodes.len();
    good_edges_bounds(p.edges, n, 0);
    let k = good_edges(p.edges, n, 0) as nat;
    let js = junctions_of(p.edges, k);
    junctions_grow(p.edges, k, k);
    let i = choose|i: int| 0 <= i < k && ((#[trigger] p.edges[i]).from == e || p.edges[i].to == e);
    assert(resolves(p.edges[i].from, n) && resolves(p.edges[i].to, n));
    if is_junction(e) {
        junctions_are_taken_in(p.edges, k, e);
        let at = js.index_of(e);
        assert(js[at] == e);
        assert(plan.nodes@[2 + n + at] == junction_node(js[at]));
    }
}

/// An engine is wired as its patch: edge by edge, in order, a connection leads
/// from the engine node for the one end to the engine node for the other. Two ends
/// have the same engine node exactly if they are the same endpoint. All edges
/// become connections, or those in front of the first one that names a node that
/// is not there; the plan says which.
pub proof fn an_engine_is_wired_as_its_patch(patch: Patch, plan: BuildPlan)
    requires
        plans(patch@, plan),
    ensures
        plan.edges@.len() <= patch.edges@.len(),
        plan.dangling <==> plan.edges@.len() < patch.edges@.len(),
        forall|i: int|
            #![trigger plan.edges@[i]]
            0 <= i < plan.edges@.len() ==> is_engine_node_of(
                patch.edges@[i].from,
                patch.nodes@.len(),
                plan.nodes@,
                plan.edges@[i].0,
            ) && is_engine_node_of(
                patch.edges@[i].to,
                patch.nodes@.len(),
                plan.nodes@,
                plan.edges@[i].1,
            ),
        forall|i: int, j: int|
            #![trigger plan.edges@[i], plan.edges@[j]]
            0 <= i < plan.edges@.len() && 0 <= j < plan.edges@.len() ==> {
                &&& plan.edges@[i].0 == plan.edges@[j].0 <==> patch.edges@[i].from
                    == patch.edges@[j].from
                &&& plan.edges@[i].0 == plan.edges@[j].1 <==> patch.edges@[i].from
                    == patch.edges@[j].to
                &&& plan.edges@[i].1 == plan.edges@[j].1 <==> patch.edges@[i].to
                    == patch.edges@[j].to
            },
        plan.dangling ==> {
            let e = patch.edges@[plan.edges@.len() as int];
            ||| e.from matches PatchEndpoint::Node(k) && k >= patch.nodes@.len()
            ||| e.to matches PatchEndpoint::Node(k) && k >= patch.nodes@.len()
        },
{
    let p = patch@;
    let n = p.nodes.len();
    let k = good_edges(p.edges, n, 0);
    let js = junctions_of(p.edges, k as nat);
    let edges = edges_view(plan.edges@);
    good_edges_bounds(p.edges, n, 0);
    assert(edges.len() == plan.edges@.len());
    assert(p.nodes.len() == patch.nodes@.len());
    assert forall|i: int| #![trigger plan.edges@[i]] 0 <= i < plan.edges@.len() implies
        is_engine_node_of(patch.edges@[i].from, n, plan.nodes@, plan.edges@[i].0)
        && is_engine_node_of(patch.edges@[i].to, n, plan.nodes@, plan.edges@[i].1)
        && plan.edges@[i].0 == engine_index(p.edges[i].from, n, js) && plan.edges@[i].1
        == engine_index(p.edges[i].to, n, js) && touched(p.edges, k, p.edges[i].from)
        && touched(p.edges, k, p.edges[i].to) by {
        assert(edges[i] == engine_edge(p.edges[i], n, js));
        assert(edges[i] == (plan.edges@[i].0 as int, plan.edges@[i].1 as int));
        touched_node(p, plan, p.edges[i].from);
        touched_node(p, plan, p.edges[i].to);
    }
    assert forall|i: int, j: int|
        #![trigger plan.edges@[i], plan.edges@[j]]
        0 <= i < plan.edges@.len() && 0 <= j < plan.edges@.len() implies {
        &&& plan.edges@[i].0 == plan.edges@[j].0 <==> patch.edges@[i].from == patch.edges@[j].from
        &&& plan.edges@[i].0 == plan.edges@[j].1 <==> patch.edges@[i].from == patch.edges@[j].to
        &&& plan.edges@[i].1 == plan.edges@[j].1 <==> patch.edges@[i].to == patch.edges@[j].to
    } by {
        endpoints_keep_apart(p, p.edges[i].from, p.edges[j].from);
        endpoints_keep_apart(p, p.edges[i].from, p.edges[j].to);
        endpoints_keep_apart(p, p.edges[i].to, p.edges[j].to);
    }
}

/// An engine has no junction that its patch does not have: every one is at an end
/// of a connection, and no two of them are for the same endpoint.
pub proof fn junctions_are_those_of_the_patch(patch: Patch, plan: BuildPlan, x: usize) -> (i: int)
    requires
        plans(patch@, plan),
        2 + patch.nodes@.len() <= x < plan.nodes@.len(),
    ensures
        0 <= i < plan.edges@.len(),
        plan.edges@[i].0 == x || plan.edges@[i].1 == x,
{
    let p = patch@;
    let n = p.nodes.len();
    let k = good_edges(p.edges, n, 0);
    let js = junctions_of(p.edges, k as nat);
    let edges = edges_view(plan.edges@);
    good_edges_bounds(p.edges, n, 0);
    junctions_grow(p.edges, k as nat, k as nat);
    assert(edges.len() == plan.edges@.len());
    assert(p.nodes.len() == patch.nodes@.len());
    let j = x - 2 - n;
    let i = junctions_are_touched(p.edges, k as nat, j);
    assert(js.index_of(js[j]) == j) by {
        assert(js.contains(js[j]));
        assert(js[js.index_of(js[j])] == js[j]);
    }
    assert(edges[i] == engine_edge(p.edges[i], n, js));
    assert(edges[i] == (plan.edges@[i].0 as int, plan.edges@[i].1 as int));
    i
}

proof fn junctions_are_touched(es: Seq<PatchEdge>, n: nat, j: int) -> (i: int)
    requires
        n <= es.len(),
        0 <= j < junctions_of(es, n).len(),
    ensures
        0 <= i < n,
        es[i].from == junctions_of(es, n)[j] || es[i].to == junctions_of(es, n)[j],
        is_junction(junctions_of(es, n)[j]),
    decreases n,
{
    let before = junctions_of(es, (n - 1) as nat);
    if j < before.len() {
        let i = junctions_are_touched(es, (n - 1) as nat, j);
        let half = taken_in(before, es[n - 1].from);
        assert(half[j] == before[j]);
        assert(taken_in(half, es[n - 1].to)[j] == half[j]);
        i
    } else {
        n - 1
    }
}

/// A patch is refused exactly if one of its effects is not available, and for the
/// first of them.
pub proof fn the_first_unknown_effect_is_named(nodes: Seq<NodeModel>, known: Seq<u16>, i: int)
    requires
        0 <= i <= nodes.len(),
        i < nodes.len() ==> !known.contains(nodes[i].effect_uid),
        forall|j: int| 0 <= j < i ==> known.contains((#[trigger] nodes[j]).effect_uid),
    ensures
        first_unknown(nodes, known, 0) == if i < nodes.len() {
            Some(nodes[i].effect_uid)
        } else {
            None
        },
{
    first_unknown_from(nodes, known, 0, i);
}

proof fn first_unknown_from(nodes: Seq<NodeModel>, known: Seq<u16>, from: int, i: int)
    requires
        0 <= from <= i <= nodes.len(),
        i < nodes.len() ==> !known.contains(nodes[i].effect_uid),
        forall|j: int| 0 <= j < i ==> known.contains((#[trigger] nodes[j]).effect_uid),
    ensures
        first_unknown(nodes, known, from) == if i < nodes.len() {
            Some(nodes[i].effect_uid)
        } else {
            None
        },
    decreases i - from,
{
    if from < i {
        assert(known.contains(nodes[from].effect_uid));
        first_unknown_from(nodes, known, from + 1, i);
    }
}

/// A refusal is told in words that name the effect, or hold what the engine said.
pub proof fn refusals_are_told(uid: u16, text: String)
    ensures
        build_message(PatchBuildError::UnknownEffect(uid)) == "effect UID "@ + decimal(uid as nat)
            + " is not available"@,
        build_message(PatchBuildError::Graph(text)) == "graph error: "@ + text@,
{
}

} // verus!
