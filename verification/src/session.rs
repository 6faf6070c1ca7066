//! Sessions of the graph editor.
//!
//! A session captures the complete editor state: graph topology, node
//! positions, parameter values (A and B snapshots), bypass states, macros,
//! morph configuration and I/O gains. [`Session::to_patch`] projects it into
//! the canonical patch.
use std::collections::HashMap;
use crate::graph::is_effect;
use crate::patch::{
    Bits, GlobalControls, MacroDef, MorphConfig, NUM_MACROS, NodeModel, PATCH_FORMAT_VERSION, Patch,
    PatchEdge, PatchEndpoint, PatchModel, PatchNode, clone_macros, macros_view, nodes_view,
};
use crate::seqs::{filter_empty, filter_step, push_contains_iff};
use vstd::prelude::*;
use vstd::slice::slice_to_vec;

verus! {

/// Complete session state.
#[derive(Debug, Clone)]
pub struct Session {
    /// Schema version.
    pub version: u32,
    /// Ordered list of graph nodes with positions.
    pub nodes: Vec<SessionNodeEntry>,
    /// Wires: `(from_node_idx, from_output, to_node_idx, to_input)`.
    pub wires: Vec<(usize, usize, usize, usize)>,
    /// Per-effect parameter snapshots, keyed by node index.
    pub params: HashMap<usize, EffectState>,
    /// Input gain in dB.
    pub input_gain: Bits,
    /// Master volume in dB.
    pub master_volume: Bits,
    /// Six macro definitions, one per hardware knob.
    pub macros: [MacroDef; NUM_MACROS],
    /// Live macro knob positions.
    pub macro_positions: [Bits; NUM_MACROS],
    /// A/B morph configuration.
    pub morph: MorphConfig,
    /// Current A-to-B crossfade position.
    pub morph_position: Bits,
}

/// A node entry with type and 2D position.
#[derive(Debug, Clone)]
pub struct SessionNodeEntry {
    /// The node type.
    pub node: SessionNode,
    /// Position `[x, y]` on the editor canvas.
    pub pos: [Bits; 2],
}

/// Node type, by name alone.
#[derive(Debug, PartialEq, Eq)]
pub enum SessionNode {
    /// Audio input source.
    Input,
    /// Audio output sink.
    Output,
    /// An audio effect identified by registry ID.
    Effect {
        /// Registry identifier (such as `"distortion"` or `"reverb"`).
        effect_id: String,
    },
    /// Signal splitter.
    Split,
    /// Signal merger.
    Merge,
}

/// Parameter state snapshot for a single effect.
#[derive(Debug, Clone)]
pub struct EffectState {
    /// Registry identifier for the effect.
    pub effect_id: String,
    /// Parameter values (A snapshot).
    pub params: Vec<Bits>,
    /// Parameter values (B snapshot). Empty where none was stored, in which
    /// case B mirrors A.
    pub params_b: Vec<Bits>,
    /// Whether the effect is bypassed.
    pub bypassed: bool,
}

/// What a node is.
pub enum NodeKind {
    Input,
    Output,
    Effect(Seq<char>),
    Split,
    Merge,
}

impl View for SessionNode {
    type V = NodeKind;

    open spec fn view(&self) -> NodeKind {
        match self {
            SessionNode::Input => NodeKind::Input,
            SessionNode::Output => NodeKind::Output,
            SessionNode::Effect { effect_id } => NodeKind::Effect(effect_id@),
            SessionNode::Split => NodeKind::Split,
            SessionNode::Merge => NodeKind::Merge,
        }
    }
}

impl Clone for SessionNode {
    fn clone(&self) -> (r: Self)
        ensures
            r@ == self@,
    {
        match self {
            SessionNode::Input => SessionNode::Input,
            SessionNode::Output => SessionNode::Output,
            SessionNode::Effect { effect_id } => SessionNode::Effect {
                effect_id: effect_id.clone(),
            },
            SessionNode::Split => SessionNode::Split,
            SessionNode::Merge => SessionNode::Merge,
        }
    }
}

/// What the nodes of a session are, in order.
pub open spec fn kinds_of(nodes: Seq<SessionNodeEntry>) -> Seq<NodeKind> {
    Seq::new(nodes.len(), |i: int| nodes[i].node@)
}

/// The B snapshot of an effect: the stored one, or A where none was stored.
pub open spec fn snapshot_b_of(state: EffectState) -> Seq<Bits> {
    if state.params_b@.len() == 0 {
        state.params@
    } else {
        state.params_b@
    }
}

/// The UID that a table gives an effect: that of its first entry, or 0.
pub open spec fn uid_of(uids: Seq<(String, u16)>, id: Seq<char>) -> u16
    decreases uids.len(),
{
    if uids.len() == 0 {
        0
    } else if uids[0].0@ == id {
        uids[0].1
    } else {
        uid_of(uids.drop_first(), id)
    }
}

/// How many of the kinds are effects.
pub open spec fn effects_among(kinds: Seq<NodeKind>) -> nat {
    kinds.filter(|k: NodeKind| k is Effect).len()
}

/// How many of the kinds are splits.
pub open spec fn splits_among(kinds: Seq<NodeKind>) -> nat {
    kinds.filter(|k: NodeKind| k is Split).len()
}

/// How many of the kinds are merges.
pub open spec fn merges_among(kinds: Seq<NodeKind>) -> nat {
    kinds.filter(|k: NodeKind| k is Merge).len()
}

/// The endpoint that node `i` stands for: effects, splits and merges are
/// numbered in order of appearance, in one byte.
pub open spec fn endpoint_of(kinds: Seq<NodeKind>, i: int) -> PatchEndpoint {
    let before = kinds.take(i);
    match kinds[i] {
        NodeKind::Input => PatchEndpoint::Input,
        NodeKind::Output => PatchEndpoint::Output,
        NodeKind::Effect(_) => PatchEndpoint::Node((effects_among(before) % 256) as u8),
        NodeKind::Split => PatchEndpoint::Split((splits_among(before) % 256) as u8),
        NodeKind::Merge => PatchEndpoint::Merge((merges_among(before) % 256) as u8),
    }
}

/// The patch node that effect `id` at node `idx` becomes. Without a stored
/// state it has no parameters and is not bypassed.
pub open spec fn patch_node_of(
    id: Seq<char>,
    idx: usize,
    params: Map<usize, EffectState>,
    uids: Seq<(String, u16)>,
) -> NodeModel {
    if params.contains_key(idx) {
        NodeModel {
            effect_uid: uid_of(uids, id),
            bypassed: params[idx].bypassed,
            params_a: params[idx].params@,
            params_b: snapshot_b_of(params[idx]),
        }
    } else {
        NodeModel {
            effect_uid: uid_of(uids, id),
            bypassed: false,
            params_a: Seq::empty(),
            params_b: Seq::empty(),
        }
    }
}

/// The patch nodes of the effects among the nodes, in order.
pub open spec fn patch_nodes_of(
    kinds: Seq<NodeKind>,
    params: Map<usize, EffectState>,
    uids: Seq<(String, u16)>,
) -> Seq<NodeModel>
    decreases kinds.len(),
{
    if kinds.len() == 0 {
        Seq::empty()
    } else {
        let before = patch_nodes_of(kinds.drop_last(), params, uids);
        match kinds.last() {
            NodeKind::Effect(id) => before.push(
                patch_node_of(id, (kinds.len() - 1) as usize, params, uids),
            ),
            _ => before,
        }
    }
}

/// The edges of the wires whose ends are both nodes, in order.
pub open spec fn patch_edges_of(
    kinds: Seq<NodeKind>,
    wires: Seq<(usize, usize, usize, usize)>,
) -> Seq<PatchEdge>
    decreases wires.len(),
{
    if wires.len() == 0 {
        Seq::empty()
    } else {
        let before = patch_edges_of(kinds, wires.drop_last());
        let (from, _, to, _) = wires.last();
        if from < kinds.len() && to < kinds.len() {
            before.push(
                PatchEdge {
                    from: endpoint_of(kinds, from as int),
                    to: endpoint_of(kinds, to as int),
                },
            )
        } else {
            before
        }
    }
}

/// The patch that a session stands for.
pub open spec fn patch_of(s: Session, name: Seq<char>, uids: Seq<(String, u16)>) -> PatchModel {
    let kinds = kinds_of(s.nodes@);
    PatchModel {
        name,
        format_version: PATCH_FORMAT_VERSION,
        nodes: patch_nodes_of(kinds, s.params@, uids),
        edges: patch_edges_of(kinds, s.wires@),
        macros: macros_view(s.macros@),
        morph: s.morph,
        globals: GlobalControls { input_gain_db: s.input_gain, master_volume_db: s.master_volume },
    }
}

impl EffectState {
    /// The B snapshot, falling back to A when none was stored.
    pub fn snapshot_b(&self) -> (b: &[Bits])
        ensures
            b@ == snapshot_b_of(*self),
    {
        if self.params_b.is_empty() {
            self.params.as_slice()
        } else {
            self.params_b.as_slice()
        }
    }
}

/// The UID that a table gives an effect, or 0.
pub fn effect_uid(uids: &[(String, u16)], id: &String) -> (uid: u16)
    ensures
        uid == uid_of(uids@, id@),
{
    let mut i: usize = 0;
    assert(uids@.skip(0) =~= uids@);
    while i < uids.len()
        invariant
            i <= uids@.len(),
            uid_of(uids@, id@) == uid_of(uids@.skip(i as int), id@),
        decreases uids@.len() - i,
    {
        if uids[i].0 == *id {
            return uids[i].1;
        }
        assert(uids@.skip(i as int).drop_first() =~= uids@.skip(i as int + 1));
        i = i + 1;
    }
    0
}

/// One more kind adds to the count of its own.
pub proof fn counts_step(kinds: Seq<NodeKind>, i: int)
    requires
        0 <= i < kinds.len(),
    ensures
        effects_among(kinds.take(i + 1)) == effects_among(kinds.take(i)) + if kinds[i] is Effect {
            1nat
        } else {
            0nat
        },
        splits_among(kinds.take(i + 1)) == splits_among(kinds.take(i)) + if kinds[i] is Split {
            1nat
        } else {
            0nat
        },
        merges_among(kinds.take(i + 1)) == merges_among(kinds.take(i)) + if kinds[i] is Merge {
            1nat
        } else {
            0nat
        },
{
    reveal(Seq::filter);
    assert(kinds.take(i + 1).drop_last() =~= kinds.take(i));
    assert(kinds.take(i + 1).last() == kinds[i]);
}

impl Session {
    /// Version of the session schema.
    pub const VERSION: u32 = 3;

    /// Project this session into the canonical patch.
    ///
    /// Effect nodes become patch nodes in order of appearance, with their A/B
    /// snapshots; the other nodes become endpoint kinds; wires become edges. An
    /// effect that `uids` does not list gets UID 0, which validation flags.
    pub fn to_patch(&self, name: String, uids: &[(String, u16)]) -> (patch: Patch)
        ensures
            patch@ == patch_of(*self, name@, uids@),
    {
        broadcast use vstd::std_specs::hash::group_hash_axioms;

        let ghost kinds = kinds_of(self.nodes@);
        let mut endpoint: Vec<PatchEndpoint> = Vec::new();
        let mut nodes: Vec<PatchNode> = Vec::new();
        let mut next_node: u8 = 0;
        let mut next_split: u8 = 0;
        let mut next_merge: u8 = 0;
        let mut idx: usize = 0;
        assert(nodes_view(nodes@) =~= Seq::empty());
        reveal(Seq::filter);
        while idx < self.nodes.len()
            invariant
                idx <= self.nodes@.len(),
                kinds == kinds_of(self.nodes@),
                endpoint@.len() == idx,
                forall|i: int| 0 <= i < idx ==> #[trigger] endpoint@[i] == endpoint_of(kinds, i),
                next_node == effects_among(kinds.take(idx as int)) % 256,
                next_split == splits_among(kinds.take(idx as int)) % 256,
                next_merge == merges_among(kinds.take(idx as int)) % 256,
                nodes_view(nodes@) == patch_nodes_of(kinds.take(idx as int), self.params@, uids@),
            decreases self.nodes@.len() - idx,
        {
            let ghost before = nodes_view(nodes@);
            proof {
                counts_step(kinds, idx as int);
                assert(kinds.take(idx as int + 1).drop_last() =~= kinds.take(idx as int));
            }
            match &self.nodes[idx].node {
                SessionNode::Input => {
                    endpoint.push(PatchEndpoint::Input);
                },
                SessionNode::Output => {
                    endpoint.push(PatchEndpoint::Output);
                },
                SessionNode::Split => {
                    endpoint.push(PatchEndpoint::Split(next_split));
                    next_split = next_split.wrapping_add(1);
                },
                SessionNode::Merge => {
                    endpoint.push(PatchEndpoint::Merge(next_merge));
                    next_merge = next_merge.wrapping_add(1);
                },
                SessionNode::Effect { effect_id } => {
                    endpoint.push(PatchEndpoint::Node(next_node));
                    next_node = next_node.wrapping_add(1);
                    let effect_uid: u16 = effect_uid(uids, effect_id);
                    let node = match self.params.get(&idx) {
                        Some(state) => {
                            let params_a = state.params.clone();
                            let params_b = slice_to_vec(state.snapshot_b());
                            assert(params_a@ =~= state.params@);
                            PatchNode { effect_uid, bypassed: state.bypassed, params_a, params_b }
                        },
                        None => PatchNode {
                            effect_uid,
                            bypassed: false,
                            params_a: Vec::new(),
                            params_b: Vec::new(),
                        },
                    };
                    let ghost model = node@;
                    assert(model =~= patch_node_of(effect_id@, idx, self.params@, uids@));
                    nodes.push(node);
                    assert(nodes_view(nodes@) =~= before.push(model));
                },
            }
            idx = idx + 1;
        }
        assert(kinds.take(kinds.len() as int) =~= kinds);

        let mut edges: Vec<PatchEdge> = Vec::new();
        let mut w: usize = 0;
        while w < self.wires.len()
            invariant
                w <= self.wires@.len(),
                kinds == kinds_of(self.nodes@),
                endpoint@.len() == kinds.len(),
                forall|i: int|
                    0 <= i < kinds.len() ==> #[trigger] endpoint@[i] == endpoint_of(kinds, i),
                edges@ == patch_edges_of(kinds, self.wires@.take(w as int)),
            decreases self.wires@.len() - w,
        {
            assert(self.wires@.take(w as int + 1).drop_last() =~= self.wires@.take(w as int));
            let from: usize = self.wires[w].0;
            let to: usize = self.wires[w].2;
            if from < endpoint.len() && to < endpoint.len() {
                edges.push(PatchEdge::new(endpoint[from], endpoint[to]));
            }
            w = w + 1;
        }
        assert(self.wires@.take(self.wires@.len() as int) =~= self.wires@);

        Patch {
            name,
            format_version: PATCH_FORMAT_VERSION,
            nodes,
            edges,
            macros: clone_macros(&self.macros),
            morph: self.morph,
            globals: GlobalControls {
                input_gain_db: self.input_gain,
                master_volume_db: self.master_volume,
            },
        }
    }
}

/// An effect's UID does not depend on where the table lists it, as long as the
/// table lists it once.
pub proof fn uids_are_positionless(uids: Seq<(String, u16)>, i: int)
    requires
        0 <= i < uids.len(),
        forall|a: int, b: int|
            0 <= a < b < uids.len() ==> (#[trigger] uids[a]).0@ != (#[trigger] uids[b]).0@,
    ensures
        uid_of(uids, uids[i].0@) == uids[i].1,
    decreases uids.len(),
{
    if i > 0 {
        let rest = uids.drop_first();
        assert(uids[0].0@ != uids[i].0@);
        assert(rest[i - 1] == uids[i]);
        assert forall|a: int, b: int| 0 <= a < b < rest.len() implies (#[trigger] rest[a]).0@ != (
        #[trigger] rest[b]).0@ by {
            assert(uids[a + 1].0@ != uids[b + 1].0@);
        }
        uids_are_positionless(rest, i - 1);
    }
}

/// The indices of the kinds that pass, in order: each at its rank.
proof fn ranked(kinds: Seq<NodeKind>, pred: spec_fn(NodeKind) -> bool, n: int) -> (at: Seq<int>)
    requires
        0 <= n <= kinds.len(),
    ensures
        at.len() == kinds.take(n).filter(pred).len(),
        forall|k: int| #![trigger at[k]] 0 <= k < at.len() ==> 0 <= at[k] < n && pred(kinds[at[k]]),
        forall|k: int, l: int| 0 <= k < l < at.len() ==> #[trigger] at[k] < #[trigger] at[l],
        forall|i: int|
            #![trigger kinds[i]]
            0 <= i < n && pred(kinds[i]) ==> kinds.take(i).filter(pred).len() < at.len()
                && at[kinds.take(i).filter(pred).len() as int] == i,
    decreases n,
{
    if n == 0 {
        filter_empty(kinds, pred);
        Seq::empty()
    } else {
        let before = ranked(kinds, pred, n - 1);
        filter_step(kinds, pred, n - 1);
        if pred(kinds[n - 1]) {
            before.push(n - 1)
        } else {
            before
        }
    }
}

/// The indices of the effects among some session nodes.
pub open spec fn lists_effects(nodes: Seq<SessionNodeEntry>, at: Seq<int>) -> bool {
    &&& forall|k: int, l: int| 0 <= k < l < at.len() ==> #[trigger] at[k] < #[trigger] at[l]
    &&& forall|k: int|
        #![trigger at[k]]
        0 <= k < at.len() ==> 0 <= at[k] < nodes.len() && nodes[at[k]].node is Effect
    &&& forall|i: int|
        0 <= i < nodes.len() && (#[trigger] nodes[i]).node is Effect ==> at.contains(i)
}

/// The indices of the splits among some session nodes.
pub open spec fn lists_splits(nodes: Seq<SessionNodeEntry>, at: Seq<int>) -> bool {
    &&& forall|k: int, l: int| 0 <= k < l < at.len() ==> #[trigger] at[k] < #[trigger] at[l]
    &&& forall|k: int|
        #![trigger at[k]]
        0 <= k < at.len() ==> 0 <= at[k] < nodes.len() && nodes[at[k]].node is Split
    &&& forall|i: int|
        0 <= i < nodes.len() && (#[trigger] nodes[i]).node is Split ==> at.contains(i)
}

/// The indices of the merges among some session nodes.
pub open spec fn lists_merges(nodes: Seq<SessionNodeEntry>, at: Seq<int>) -> bool {
    &&& forall|k: int, l: int| 0 <= k < l < at.len() ==> #[trigger] at[k] < #[trigger] at[l]
    &&& forall|k: int|
        #![trigger at[k]]
        0 <= k < at.len() ==> 0 <= at[k] < nodes.len() && nodes[at[k]].node is Merge
    &&& forall|i: int|
        0 <= i < nodes.len() && (#[trigger] nodes[i]).node is Merge ==> at.contains(i)
}

/// Whether an endpoint stands for session node `i`, given where the effects, the
/// splits and the merges are.
pub open spec fn stands_for(
    nodes: Seq<SessionNodeEntry>,
    effects: Seq<int>,
    splits: Seq<int>,
    merges: Seq<int>,
    e: PatchEndpoint,
    i: int,
) -> bool {
    match e {
        PatchEndpoint::Input => nodes[i].node is Input,
        PatchEndpoint::Output => nodes[i].node is Output,
        PatchEndpoint::Node(k) => k < effects.len() && effects[k as int] == i,
        PatchEndpoint::Split(k) => k < splits.len() && splits[k as int] == i,
        PatchEndpoint::Merge(k) => k < merges.len() && merges[k as int] == i,
    }
}

/// Where the effects of a session are: each at its rank.
pub(crate) proof fn effects_at(nodes: Seq<SessionNodeEntry>) -> (at: Seq<int>)
    ensures
        lists_effects(nodes, at),
        at.len() == effects_among(kinds_of(nodes)),
        forall|i: int|
            #![trigger nodes[i]]
            0 <= i < nodes.len() && nodes[i].node is Effect ==> effects_among(
                kinds_of(nodes).take(i),
            ) < at.len() && at[effects_among(kinds_of(nodes).take(i)) as int] == i,
{
    let kinds = kinds_of(nodes);
    let n = kinds.len() as int;
    let pred = |k: NodeKind| k is Effect;
    assert(kinds.take(n) =~= kinds);
    let at = ranked(kinds, pred, n);
    assert forall|i: int|
        #![trigger nodes[i]]
        0 <= i < nodes.len() && nodes[i].node is Effect implies at.contains(i) && effects_among(
        kinds.take(i),
    ) < at.len() && at[effects_among(kinds.take(i)) as int] == i by {
        assert(pred(kinds[i]));
        assert(at[kinds.take(i).filter(pred).len() as int] == i);
    }
    assert forall|k: int| #![trigger at[k]] 0 <= k < at.len() implies nodes[at[k]].node is Effect by {
        assert(pred(kinds[at[k]]));
    }
    at
}

/// Patch nodes stand at the rank of the effect that they were made of.
proof fn nodes_stand_at_their_rank(
    kinds: Seq<NodeKind>,
    params: Map<usize, EffectState>,
    uids: Seq<(String, u16)>,
    n: int,
)
    requires
        0 <= n <= kinds.len(),
    ensures
        patch_nodes_of(kinds.take(n), params, uids).len() == effects_among(kinds.take(n)),
        forall|i: int|
            #![trigger kinds[i]]
            0 <= i < n && kinds[i] is Effect ==> effects_among(kinds.take(i)) < effects_among(
                kinds.take(n),
            ) && patch_nodes_of(kinds.take(n), params, uids)[effects_among(kinds.take(i)) as int]
                == patch_node_of(kinds[i]->Effect_0, i as usize, params, uids),
    decreases n,
{
    if n == 0 {
        filter_empty(kinds, |k: NodeKind| k is Effect);
    } else {
        nodes_stand_at_their_rank(kinds, params, uids, n - 1);
        counts_step(kinds, n - 1);
        assert(kinds.take(n).drop_last() =~= kinds.take(n - 1));
        assert(kinds.take(n).last() == kinds[n - 1]);
    }
}

/// The patch of a session has one node for each of its effects, in session order,
/// with what is stored of that effect: its A values, its B values or else A, and
/// its bypass; an effect of which nothing is stored has no values. Returned is
/// which session node each patch node was made of.
pub proof fn patch_nodes_are_the_effects(
    s: Session,
    name: Seq<char>,
    uids: Seq<(String, u16)>,
    patch: Patch,
) -> (at: Seq<int>)
    requires
        patch@ == patch_of(s, name, uids),
        s.nodes@.len() <= usize::MAX,
    ensures
        at.len() == patch.nodes@.len(),
        lists_effects(s.nodes@, at),
        forall|k: int|
            #![trigger at[k]]
            0 <= k < at.len() ==> {
                let i = at[k] as usize;
                &&& patch.nodes@[k].effect_uid == uid_of(uids, s.nodes@[at[k]].node->effect_id@)
                &&& s.params@.contains_key(i) ==> {
                    &&& patch.nodes@[k].params_a@ == s.params@[i].params@
                    &&& s.params@[i].params_b@.len() > 0 ==> patch.nodes@[k].params_b@
                        == s.params@[i].params_b@
                    &&& s.params@[i].params_b@.len() == 0 ==> patch.nodes@[k].params_b@
                        == s.params@[i].params@
                    &&& patch.nodes@[k].bypassed == s.params@[i].bypassed
                }
                &&& !s.params@.contains_key(i) ==> patch.nodes@[k].params_a@.len() == 0
                    && patch.nodes@[k].params_b@.len() == 0 && !patch.nodes@[k].bypassed
            },
{
    let kinds = kinds_of(s.nodes@);
    let n = kinds.len() as int;
    let pred = |k: NodeKind| k is Effect;
    assert(kinds.take(n) =~= kinds);
    let at = ranked(kinds, pred, n);
    nodes_stand_at_their_rank(kinds, s.params@, uids, n);
    assert(patch@.nodes.len() == patch.nodes@.len());
    assert forall|i: int|
        0 <= i < s.nodes@.len() && (#[trigger] s.nodes@[i]).node is Effect implies at.contains(
        i,
    ) by {
        assert(kinds[i] is Effect);
        assert(at[kinds.take(i).filter(pred).len() as int] == i);
    }
    assert forall|k: int| #![trigger at[k]] 0 <= k < at.len() implies 0 <= at[k] < n
        && s.nodes@[at[k]].node is Effect && effects_among(kinds.take(at[k])) == k by {
        let i = at[k];
        assert(kinds[i] is Effect);
        let r = kinds.take(i).filter(pred).len() as int;
        assert(at[r] == i);
        if r < k {
            assert(at[r] < at[k]);
        }
        if k < r {
            assert(at[k] < at[r]);
        }
    }
    assert forall|k: int| #![trigger at[k]] 0 <= k < at.len() implies patch.nodes@[k]@
        == patch_node_of(s.nodes@[at[k]].node->effect_id@, at[k] as usize, s.params@, uids) by {
        assert(kinds[at[k]] is Effect);
        assert(patch@.nodes[k] == patch.nodes@[k]@);
    }
    at
}

/// Which edges the wires become.
proof fn edges_are_of_wires(
    kinds: Seq<NodeKind>,
    wires: Seq<(usize, usize, usize, usize)>,
) -> (of: Seq<int>)
    ensures
        of.len() == patch_edges_of(kinds, wires).len(),
        forall|k: int, l: int| 0 <= k < l < of.len() ==> #[trigger] of[k] < #[trigger] of[l],
        forall|k: int|
            #![trigger of[k]]
            0 <= k < of.len() ==> 0 <= of[k] < wires.len() && wires[of[k]].0 < kinds.len()
                && wires[of[k]].2 < kinds.len() && patch_edges_of(kinds, wires)[k] == (PatchEdge {
                from: endpoint_of(kinds, wires[of[k]].0 as int),
                to: endpoint_of(kinds, wires[of[k]].2 as int),
            }),
        forall|w: int|
            0 <= w < wires.len() && (#[trigger] wires[w]).0 < kinds.len() && wires[w].2
                < kinds.len() ==> of.contains(w),
    decreases wires.len(),
{
    if wires.len() == 0 {
        Seq::empty()
    } else {
        let front = wires.drop_last();
        let before = edges_are_of_wires(kinds, front);
        let (from, _, to, _) = wires.last();
        let last = wires.len() - 1;
        assert forall|k: int| #![trigger before[k]] 0 <= k < before.len() implies front[before[k]]
            == wires[before[k]] by {}
        if from < kinds.len() && to < kinds.len() {
            let of = before.push(last);
            assert forall|w: int|
                0 <= w < wires.len() && (#[trigger] wires[w]).0 < kinds.len() && wires[w].2
                    < kinds.len() implies of.contains(w) by {
                push_contains_iff(before, last, w);
                if w < last {
                    assert(front[w] == wires[w]);
                }
            }
            of
        } else {
            assert forall|w: int|
                0 <= w < wires.len() && (#[trigger] wires[w]).0 < kinds.len() && wires[w].2
                    < kinds.len() implies before.contains(w) by {
                assert(w < last);
                assert(front[w] == wires[w]);
            }
            before
        }
    }
}

/// The patch of a session has one edge for each wire between nodes that are
/// there, in order, and each end of the edge stands for the node at that end of
/// the wire: an effect for the patch node made of it, a split or a merge for its
/// own number among its kind. Returned is which wire each edge was made of, and
/// where the effects, the splits and the merges are.
pub proof fn patch_edges_are_the_wires(
    s: Session,
    name: Seq<char>,
    uids: Seq<(String, u16)>,
    patch: Patch,
) -> (r: (Seq<int>, Seq<int>, Seq<int>, Seq<int>))
    requires
        patch@ == patch_of(s, name, uids),
        s.nodes@.len() <= usize::MAX,
    ensures
        r.0.len() == patch.edges@.len(),
        forall|k: int, l: int| 0 <= k < l < r.0.len() ==> #[trigger] r.0[k] < #[trigger] r.0[l],
        forall|w: int|
            0 <= w < s.wires@.len() && (#[trigger] s.wires@[w]).0 < s.nodes@.len() && s.wires@[w].2
                < s.nodes@.len() ==> r.0.contains(w),
        lists_effects(s.nodes@, r.1),
        lists_splits(s.nodes@, r.2),
        lists_merges(s.nodes@, r.3),
        forall|k: int|
            #![trigger r.0[k]]
            0 <= k < r.0.len() ==> {
                let w = s.wires@[r.0[k]];
                &&& 0 <= r.0[k] < s.wires@.len()
                &&& w.0 < s.nodes@.len()
                &&& w.2 < s.nodes@.len()
                &&& r.1.len() <= 256 && r.2.len() <= 256 && r.3.len() <= 256 ==> stands_for(
                    s.nodes@,
                    r.1,
                    r.2,
                    r.3,
                    patch.edges@[k].from,
                    w.0 as int,
                ) && stands_for(s.nodes@, r.1, r.2, r.3, patch.edges@[k].to, w.2 as int)
            },
{
    let kinds = kinds_of(s.nodes@);
    let n = kinds.len() as int;
    assert(kinds.take(n) =~= kinds);
    let of = edges_are_of_wires(kinds, s.wires@);
    let is_effect = |k: NodeKind| k is Effect;
    let is_split = |k: NodeKind| k is Split;
    let is_merge = |k: NodeKind| k is Merge;
    let effects = ranked(kinds, is_effect, n);
    let splits = ranked(kinds, is_split, n);
    let merges = ranked(kinds, is_merge, n);
    assert forall|i: int| 0 <= i < n implies kinds[i] == (#[trigger] s.nodes@[i]).node@ by {}
    assert forall|i: int| 0 <= i < n && kinds[i] is Effect implies effects.contains(i)
        && effects_among(kinds.take(i)) < effects.len() && effects[effects_among(
        kinds.take(i),
    ) as int] == i by {
        assert(effects[kinds.take(i).filter(is_effect).len() as int] == i);
    }
    assert forall|i: int| 0 <= i < n && kinds[i] is Split implies splits.contains(i)
        && splits_among(kinds.take(i)) < splits.len() && splits[splits_among(kinds.take(i)) as int]
        == i by {
        assert(splits[kinds.take(i).filter(is_split).len() as int] == i);
    }
    assert forall|i: int| 0 <= i < n && kinds[i] is Merge implies merges.contains(i)
        && merges_among(kinds.take(i)) < merges.len() && merges[merges_among(kinds.take(i)) as int]
        == i by {
        assert(merges[kinds.take(i).filter(is_merge).len() as int] == i);
    }
    assert(lists_effects(s.nodes@, effects)) by {
        assert forall|i: int|
            0 <= i < s.nodes@.len() && (
            #[trigger] s.nodes@[i]).node is Effect implies effects.contains(i) by {
            assert(kinds[i] is Effect);
        }
        assert forall|k: int| #![trigger effects[k]] 0 <= k < effects.len() implies
            s.nodes@[effects[k]].node is Effect by {
            assert(is_effect(kinds[effects[k]]));
        }
    }
    assert(lists_splits(s.nodes@, splits)) by {
        assert forall|i: int|
            0 <= i < s.nodes@.len() && (
            #[trigger] s.nodes@[i]).node is Split implies splits.contains(i) by {
            assert(kinds[i] is Split);
        }
        assert forall|k: int| #![trigger splits[k]] 0 <= k < splits.len() implies
            s.nodes@[splits[k]].node is Split by {
            assert(is_split(kinds[splits[k]]));
        }
    }
    assert(lists_merges(s.nodes@, merges)) by {
        assert forall|i: int|
            0 <= i < s.nodes@.len() && (
            #[trigger] s.nodes@[i]).node is Merge implies merges.contains(i) by {
            assert(kinds[i] is Merge);
        }
        assert forall|k: int| #![trigger merges[k]] 0 <= k < merges.len() implies
            s.nodes@[merges[k]].node is Merge by {
            assert(is_merge(kinds[merges[k]]));
        }
    }
    if effects.len() <= 256 && splits.len() <= 256 && merges.len() <= 256 {
        assert forall|i: int| 0 <= i < n implies stands_for(
            s.nodes@,
            effects,
            splits,
            merges,
            #[trigger] endpoint_of(kinds, i),
            i,
        ) by {
            assert(kinds[i] == s.nodes@[i].node@);
        }
    }
    (of, effects, splits, merges)
}

/// The UID of an effect is that of its first entry in the table, and 0 where it
/// has none.
pub proof fn the_first_entry_counts(uids: Seq<(String, u16)>, id: Seq<char>, i: int)
    requires
        0 <= i <= uids.len(),
        i < uids.len() ==> uids[i].0@ == id,
        forall|j: int| 0 <= j < i ==> (#[trigger] uids[j]).0@ != id,
    ensures
        uid_of(uids, id) == if i < uids.len() {
            uids[i].1
        } else {
            0
        },
    decreases uids.len(),
{
    if i > 0 {
        let rest = uids.drop_first();
        assert(uids[0].0@ != id);
        assert forall|j: int| 0 <= j < i - 1 implies (#[trigger] rest[j]).0@ != id by {
            assert(uids[j + 1].0@ != id);
        }
        the_first_entry_counts(rest, id, i - 1);
    }
}

/// The rest of the session is in the patch as it is.
pub proof fn patches_keep_the_performance(
    s: Session,
    name: Seq<char>,
    uids: Seq<(String, u16)>,
    patch: Patch,
    i: int,
)
    requires
        patch@ == patch_of(s, name, uids),
        0 <= i < NUM_MACROS,
    ensures
        patch.name@ == name,
        patch.format_version == 1,
        patch.macros@[i].name@ == s.macros@[i].name@,
        patch.macros@[i].mappings@ == s.macros@[i].mappings@,
        patch.morph == s.morph,
        patch.globals.input_gain_db == s.input_gain,
        patch.globals.master_volume_db == s.master_volume,
{
    assert(macros_view(patch.macros@)[i] == patch.macros@[i]@);
    assert(macros_view(s.macros@)[i] == s.macros@[i]@);
}

} // verus!
