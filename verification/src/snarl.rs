//! The editor's node graph, as kept by [`egui_snarl`].
//!
//! A [`Snarl`] holds positioned nodes under ids and wires between their pins.
//! Nodes are known here by the number in their id, wires by the four numbers of
//! their pins, and places by the bits of their coordinates.
use egui_snarl::{InPinId, NodeId, OutPinId, Snarl};
use crate::params::ParamInfo;
use crate::patch::Bits;
use vstd::prelude::*;

verus! {

/// Effect category.
#[derive(Clone, Copy, Debug, PartialEq, Eq, Structural)]
pub enum EffectCategory {
    /// Compressors, gates, limiters.
    Dynamics,
    /// Distortion and saturation.
    Distortion,
    /// Chorus, phaser, tremolo.
    Modulation,
    /// Filters and equalizers.
    Filter,
    /// Delay and reverb.
    TimeBased,
    /// Everything else.
    Utility,
}

/// A node in the graph editor.
#[derive(Debug)]
pub enum SonidoNode {
    /// Audio input source.
    Input,
    /// Audio output sink.
    Output,
    /// An audio effect with its metadata.
    Effect {
        /// Registry identifier.
        effect_id: String,
        /// Human-readable display name.
        name: String,
        /// Effect category for coloring.
        category: EffectCategory,
        /// The effect's parameters.
        descriptors: Vec<ParamInfo>,
    },
    /// Signal splitter: 1 input, up to 8 outputs.
    Split,
    /// Signal merger: up to 8 inputs, 1 output.
    Merge,
}

/// A wire from an output pin to an input pin.
#[derive(Clone, Copy, Debug, PartialEq, Eq, Structural)]
pub struct Wire {
    /// Source node.
    pub from: usize,
    /// Output pin of the source.
    pub output: usize,
    /// Destination node.
    pub to: usize,
    /// Input pin of the destination.
    pub input: usize,
}

/// The node graph container of `egui_snarl`.
#[verifier::external_type_specification]
#[verifier::external_body]
#[verifier::reject_recursive_types(T)]
pub struct ExSnarl<T>(egui_snarl::Snarl<T>);

/// A point of the canvas, as `egui` holds it.
#[verifier::external_type_specification]
#[verifier::external_body]
pub struct ExPos2(egui::Pos2);

/// The nodes that a graph holds, by id.
pub uninterp spec fn snarl_nodes(s: Snarl<SonidoNode>) -> Map<usize, SonidoNode>;

/// The wires that a graph holds.
pub uninterp spec fn snarl_wires(s: Snarl<SonidoNode>) -> Set<Wire>;

/// Where the nodes of a graph stand: the bits of both coordinates, by id.
pub uninterp spec fn snarl_places(s: Snarl<SonidoNode>) -> Map<usize, Seq<Bits>>;

/// The ids that removed nodes have left free.
pub uninterp spec fn snarl_vacant(s: Snarl<SonidoNode>) -> Set<usize>;

/// The bits of the two coordinates of a point.
pub uninterp spec fn pos_coords(p: egui::Pos2) -> Seq<Bits>;

/// `Snarl::new`: a graph without nodes and wires.
#[verifier::external_body]
pub(crate) fn empty_snarl() -> (s: Snarl<SonidoNode>)
    ensures
        snarl_nodes(s).is_empty(),
        snarl_wires(s).is_empty(),
        snarl_places(s).is_empty(),
        snarl_vacant(s).is_empty(),
{
    Snarl::new()
}

/// `Snarl::insert_node`: adds a node at a point. It gets an id that a removed
/// node left free, or the next number where there is none.
#[verifier::external_body]
pub(crate) fn insert_node(s: &mut Snarl<SonidoNode>, pos: egui::Pos2, node: SonidoNode) -> (id: usize)
    ensures
        !snarl_nodes(*old(s)).contains_key(id),
        snarl_nodes(*final(s)) == snarl_nodes(*old(s)).insert(id, node),
        snarl_wires(*final(s)) == snarl_wires(*old(s)),
        snarl_places(*final(s)) == snarl_places(*old(s)).insert(id, pos_coords(pos)),
        snarl_vacant(*final(s)) == snarl_vacant(*old(s)).remove(id),
        snarl_vacant(*old(s)).is_empty() ==> id == snarl_nodes(*old(s)).dom().len(),
        !snarl_vacant(*old(s)).is_empty() ==> snarl_vacant(*old(s)).contains(id),
{
    s.insert_node(pos, node).0
}

/// `Snarl::remove_node`: takes a node out, and every wire at one of its pins. It
/// panics on an id that is not there.
#[verifier::external_body]
pub(crate) fn remove_node(s: &mut Snarl<SonidoNode>, id: usize) -> (node: SonidoNode)
    requires
        snarl_nodes(*old(s)).contains_key(id),
    ensures
        node == snarl_nodes(*old(s))[id],
        snarl_nodes(*final(s)) == snarl_nodes(*old(s)).remove(id),
        snarl_wires(*final(s)) == snarl_wires(*old(s)).filter(
            |w: Wire| w.from != id && w.to != id,
        ),
        snarl_places(*final(s)) == snarl_places(*old(s)).remove(id),
        snarl_vacant(*final(s)) == snarl_vacant(*old(s)).insert(id),
{
    s.remove_node(NodeId(id))
}

/// `Snarl::connect`: adds a wire. It says whether the wire is new, and panics
/// where one of the nodes is not there.
#[verifier::external_body]
pub(crate) fn connect(s: &mut Snarl<SonidoNode>, wire: Wire) -> (added: bool)
    requires
        snarl_nodes(*old(s)).contains_key(wire.from),
        snarl_nodes(*old(s)).contains_key(wire.to),
    ensures
        added == !snarl_wires(*old(s)).contains(wire),
        snarl_nodes(*final(s)) == snarl_nodes(*old(s)),
        snarl_wires(*final(s)) == snarl_wires(*old(s)).insert(wire),
        snarl_places(*final(s)) == snarl_places(*old(s)),
        snarl_vacant(*final(s)) == snarl_vacant(*old(s)),
{
    s.connect(
        OutPinId { node: NodeId(wire.from), output: wire.output },
        InPinId { node: NodeId(wire.to), input: wire.input },
    )
}

/// `Snarl::disconnect`: takes a wire out. It says whether the wire was there,
/// and panics where one of the nodes is not there.
#[verifier::external_body]
pub(crate) fn disconnect(s: &mut Snarl<SonidoNode>, wire: Wire) -> (removed: bool)
    requires
        snarl_nodes(*old(s)).contains_key(wire.from),
        snarl_nodes(*old(s)).contains_key(wire.to),
    ensures
        removed == snarl_wires(*old(s)).contains(wire),
        snarl_nodes(*final(s)) == snarl_nodes(*old(s)),
        snarl_wires(*final(s)) == snarl_wires(*old(s)).remove(wire),
        snarl_places(*final(s)) == snarl_places(*old(s)),
        snarl_vacant(*final(s)) == snarl_vacant(*old(s)),
{
    s.disconnect(
        OutPinId { node: NodeId(wire.from), output: wire.output },
        InPinId { node: NodeId(wire.to), input: wire.input },
    )
}

/// `Snarl::drop_outputs`: takes out every wire at an output pin. It gives how many
/// there were, and panics where the node is not there.
#[verifier::external_body]
pub(crate) fn drop_outputs(s: &mut Snarl<SonidoNode>, node: usize, output: usize) -> (n: usize)
    requires
        snarl_nodes(*old(s)).contains_key(node),
    ensures
        n == snarl_wires(*old(s)).filter(|w: Wire| w.from == node && w.output == output).len(),
        snarl_nodes(*final(s)) == snarl_nodes(*old(s)),
        snarl_wires(*final(s)) == snarl_wires(*old(s)).filter(
            |w: Wire| !(w.from == node && w.output == output),
        ),
        snarl_places(*final(s)) == snarl_places(*old(s)),
        snarl_vacant(*final(s)) == snarl_vacant(*old(s)),
{
    s.drop_outputs(OutPinId { node: NodeId(node), output })
}

/// `Snarl::drop_inputs`: takes out every wire at an input pin. It gives how many
/// there were, and panics where the node is not there.
#[verifier::external_body]
pub(crate) fn drop_inputs(s: &mut Snarl<SonidoNode>, node: usize, input: usize) -> (n: usize)
    requires
        snarl_nodes(*old(s)).contains_key(node),
    ensures
        n == snarl_wires(*old(s)).filter(|w: Wire| w.to == node && w.input == input).len(),
        snarl_nodes(*final(s)) == snarl_nodes(*old(s)),
        snarl_wires(*final(s)) == snarl_wires(*old(s)).filter(
            |w: Wire| !(w.to == node && w.input == input),
        ),
        snarl_places(*final(s)) == snarl_places(*old(s)),
        snarl_vacant(*final(s)) == snarl_vacant(*old(s)),
{
    s.drop_inputs(InPinId { node: NodeId(node), input })
}

/// `Snarl::get_node_info_mut`, through which a node is put at a point. It says
/// whether the node is there; nothing happens where it is not.
#[verifier::external_body]
pub(crate) fn place_node(s: &mut Snarl<SonidoNode>, id: usize, pos: egui::Pos2) -> (placed: bool)
    ensures
        placed == snarl_nodes(*old(s)).contains_key(id),
        snarl_nodes(*final(s)) == snarl_nodes(*old(s)),
        snarl_wires(*final(s)) == snarl_wires(*old(s)),
        snarl_places(*final(s)) == (if placed {
            snarl_places(*old(s)).insert(id, pos_coords(pos))
        } else {
            snarl_places(*old(s))
        }),
        snarl_vacant(*final(s)) == snarl_vacant(*old(s)),
{
    s.get_node_info_mut(NodeId(id)).map(|info| info.pos = pos).is_some()
}

/// `Snarl::node_ids`: the ids of all nodes, in ascending order.
#[verifier::external_body]
pub(crate) fn node_ids(s: &Snarl<SonidoNode>) -> (ids: Vec<usize>)
    ensures
        ascending(ids@),
        ids@.to_set() == snarl_nodes(*s).dom(),
{
    s.node_ids().map(|(id, _)| id.0).collect()
}

/// `Snarl::get_node`: the node with an id, if there is one.
#[verifier::external_body]
pub(crate) fn find_node(s: &Snarl<SonidoNode>, id: usize) -> (node: Option<&SonidoNode>)
    ensures
        node == (if snarl_nodes(*s).contains_key(id) {
            Some(&snarl_nodes(*s)[id])
        } else {
            None
        }),
{
    s.get_node(NodeId(id))
}

/// `Snarl::get_node_info`: where the node with an id stands, if there is one.
#[verifier::external_body]
pub(crate) fn node_coords(s: &Snarl<SonidoNode>, id: usize) -> (r: Option<(Bits, Bits)>)
    ensures
        r is Some <==> snarl_nodes(*s).contains_key(id),
        r matches Some((x, y)) ==> snarl_places(*s)[id] == seq![x, y],
{
    s.get_node_info(NodeId(id)).map(|info| (info.pos.x.to_bits(), info.pos.y.to_bits()))
}

/// `Snarl::wires`: every wire once, in an order that the container does not
/// promise. Both nodes of a wire are there.
#[verifier::external_body]
pub(crate) fn wires(s: &Snarl<SonidoNode>) -> (ws: Vec<Wire>)
    ensures
        ws@.no_duplicates(),
        ws@.to_set() == snarl_wires(*s),
        forall|i: int|
            0 <= i < ws@.len() ==> snarl_nodes(*s).contains_key((#[trigger] ws@[i]).from)
                && snarl_nodes(*s).contains_key(ws@[i].to),
{
    s.wires()
        .map(|(o, i)| Wire { from: o.node.0, output: o.output, to: i.node.0, input: i.input })
        .collect()
}

/// Strictly ascending.
pub open spec fn ascending(ids: Seq<usize>) -> bool {
    forall|i: int, j: int| 0 <= i < j < ids.len() ==> #[trigger] ids[i] < #[trigger] ids[j]
}

} // verus!
