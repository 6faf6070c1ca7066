//! The graph editor as the user handles it: pins, titles, menus, wires drawn by
//! hand, and where nodes stand.
use crate::bits::{bits_lt, bits_nan, is_nan, lt};
use crate::graph::{
    GraphView, NodeView, ascending_listing_is_unique, ends_are_the_last_of_their_kind, input_of,
    io_nodes, is_chain, output_of, plain_wire,
};
use crate::params::{indices_where, visible, visible_param_count};
use crate::patch::{BITS_ZERO, Bits};
use crate::snarl::{
    SonidoNode, Wire, connect, disconnect, drop_inputs, drop_outputs, find_node, insert_node,
    node_coords, place_node, pos_coords, snarl_nodes, snarl_places, snarl_wires,
};
use crate::spectrum::LevelColor;
use crate::text::{decimal, decimal_string};
use vstd::prelude::*;
use vstd::string::StringExecFns;

verus! {

/// Most wires at one side of a split or a merge.
pub const MAX_PORTS: usize = 8;

/// Level above which a node's meter is red, about -3 dBFS: 0.708.
pub const NODE_METER_RED: Bits = 0x3F35_3F7D;

/// Level above which a node's meter is yellow, about -12 dBFS: 0.251.
pub const NODE_METER_YELLOW: Bits = 0x3E80_8312;

/// Activity above which a node's light is on: 0.01.
pub const ACTIVITY_VISIBLE: Bits = 0x3C23_D70A;

/// Peak above which a node's meter is drawn: 0.001.
pub const NODE_PEAK_VISIBLE: Bits = 0x3A83_126F;

impl SonidoNode {
    /// Title of the node: its kind, or the effect's name.
    pub fn title(&self) -> (t: String)
        ensures
            t@ == (match self@ {
                NodeView::Input => "Input"@,
                NodeView::Output => "Output"@,
                NodeView::Effect { name, .. } => name,
                NodeView::Split => "Split"@,
                NodeView::Merge => "Merge"@,
            }),
    {
        match self {
            SonidoNode::Input => "Input".to_owned(),
            SonidoNode::Output => "Output".to_owned(),
            SonidoNode::Effect { name, .. } => name.clone(),
            SonidoNode::Split => "Split".to_owned(),
            SonidoNode::Merge => "Merge".to_owned(),
        }
    }

    /// Number of input pins.
    pub fn inputs(&self) -> (n: usize)
        ensures
            n == input_pins(*self),
    {
        match self {
            SonidoNode::Input => 0,
            SonidoNode::Output => 1,
            SonidoNode::Effect { .. } => 1,
            SonidoNode::Split => 1,
            SonidoNode::Merge => MAX_PORTS,
        }
    }

    /// Number of output pins.
    pub fn outputs(&self) -> (n: usize)
        ensures
            n == output_pins(*self),
    {
        match self {
            SonidoNode::Input => 1,
            SonidoNode::Output => 0,
            SonidoNode::Effect { .. } => 1,
            SonidoNode::Split => MAX_PORTS,
            SonidoNode::Merge => 1,
        }
    }

    /// Whether the node has a body: effects do.
    pub fn has_body(&self) -> (r: bool)
        ensures
            r == (self is Effect),
    {
        match self {
            SonidoNode::Effect { .. } => true,
            _ => false,
        }
    }

    /// Whether the node can be selected and has a menu. The input and the output
    /// are fixed, and drawn as the walls of the canvas.
    pub fn has_node_menu(&self) -> (r: bool)
        ensures
            r == !(self is Input || self is Output),
    {
        match self {
            SonidoNode::Input | SonidoNode::Output => false,
            _ => true,
        }
    }

    /// Text of an effect's body: how many parameters its panel shows.
    pub fn body_text(&self) -> (t: Option<String>)
        ensures
            t is Some <==> self is Effect,
            t matches Some(text) ==> text@ == decimal(
                indices_where(
                    self@->Effect_descriptors.len(),
                    |i: int| visible(self@->Effect_descriptors[i]),
                ).len(),
            ) + " params"@,
    {
        match self {
            SonidoNode::Effect { descriptors, .. } => {
                let n: usize = visible_param_count(descriptors.as_slice());
                let mut t = decimal_string(n as u128);
                t.append(" params");
                Some(t)
            },
            _ => None,
        }
    }
}

/// Number of input pins of a node.
pub open spec fn input_pins(n: SonidoNode) -> int {
    match n {
        SonidoNode::Input => 0,
        SonidoNode::Merge => MAX_PORTS as int,
        _ => 1,
    }
}

/// Number of output pins of a node.
pub open spec fn output_pins(n: SonidoNode) -> int {
    match n {
        SonidoNode::Output => 0,
        SonidoNode::Split => MAX_PORTS as int,
        _ => 1,
    }
}

/// The colour of a node's meter at a level.
pub fn node_meter_color(level: Bits) -> (c: LevelColor)
    ensures
        c == (if lt(NODE_METER_RED, level) {
            LevelColor::Red
        } else if lt(NODE_METER_YELLOW, level) {
            LevelColor::Yellow
        } else {
            LevelColor::Green
        }),
        0x3F35_3F7D < level <= 0x7F80_0000 ==> c == LevelColor::Red,
        0x3E80_8312 < level <= 0x3F35_3F7D ==> c == LevelColor::Yellow,
        level <= 0x3E80_8312 ==> c == LevelColor::Green,
{
    if bits_lt(NODE_METER_RED, level) {
        LevelColor::Red
    } else if bits_lt(NODE_METER_YELLOW, level) {
        LevelColor::Yellow
    } else {
        LevelColor::Green
    }
}

/// The level metered for a slot; silence where there is no reading for it.
pub fn slot_level(levels: &[Bits], slot: usize) -> (v: Bits)
    ensures
        v == (if slot < levels@.len() {
            levels@[slot as int]
        } else {
            BITS_ZERO
        }),
{
    if slot < levels.len() {
        levels[slot]
    } else {
        BITS_ZERO
    }
}

/// Whether a node's activity light is on.
pub fn activity_shows(activity: Bits) -> (r: bool)
    ensures
        r == lt(ACTIVITY_VISIBLE, activity),
        activity <= 0x7F80_0000 ==> r == (activity > 0x3C23_D70A),
{
    bits_lt(ACTIVITY_VISIBLE, activity)
}

/// Whether a node's peak meter is drawn.
pub fn node_peak_shows(peak: Bits) -> (r: bool)
    ensures
        r == lt(NODE_PEAK_VISIBLE, peak),
        peak <= 0x7F80_0000 ==> r == (peak > 0x3A83_126F),
{
    bits_lt(NODE_PEAK_VISIBLE, peak)
}

impl GraphView {
    /// The chain slot of a node: how many effects come before it.
    pub fn slot_of(&self, node: usize) -> (slot: usize)
        ensures
            forall|ids: Seq<usize>| #[trigger]
                is_chain(snarl_nodes(self.snarl), ids) ==> slot <= ids.len() && (forall|k: int|
                    0 <= k < ids.len() ==> (k < slot <==> #[trigger] ids[k] < node)),
    {
        let ids = self.effect_node_ids();
        let mut slot: usize = 0;
        while slot < ids.len() && ids[slot] < node
            invariant
                slot <= ids@.len(),
                forall|k: int| 0 <= k < slot ==> ids@[k] < node,
            decreases ids@.len() - slot,
        {
            slot = slot + 1;
        }
        proof {
            assert forall|other: Seq<usize>| #[trigger]
                is_chain(snarl_nodes(self.snarl), other) implies other == ids@ by {
                ascending_listing_is_unique(other, ids@);
            }
            assert forall|k: int| slot <= k < ids@.len() implies !(#[trigger] ids@[k] < node) by {
                if k > slot {
                    assert(ids@[slot as int] < ids@[k]);
                }
            }
        }
        slot
    }

    /// A press on a node selects it, if it can be selected. Says whether it was.
    pub fn press_node(&mut self, node: usize) -> (handled: bool)
        requires
            snarl_nodes(old(self).snarl).contains_key(node),
        ensures
            handled == !(snarl_nodes(old(self).snarl)[node] is Input || snarl_nodes(
                old(self).snarl,
            )[node] is Output),
            final(self).selected_node == (if handled {
                Some(node)
            } else {
                old(self).selected_node
            }),
            final(self).snarl == old(self).snarl,
            final(self).topology_changed == old(self).topology_changed,
    {
        let handled = match find_node(&self.snarl, node) {
            Some(n) => n.has_node_menu(),
            None => false,
        };
        if handled {
            self.selected_node = Some(node);
        }
        handled
    }

    /// A press on empty canvas drops the selection: one that no node took, within
    /// the canvas and not on something that floats above it.
    pub fn press_canvas(&mut self, handled: bool, pressed: bool, over_overlay: bool, inside: bool)
        ensures
            final(self).selected_node == (if !handled && pressed && !over_overlay && inside {
                None
            } else {
                old(self).selected_node
            }),
            final(self).snarl == old(self).snarl,
            final(self).topology_changed == old(self).topology_changed,
    {
        if !handled && pressed && !over_overlay && inside {
            self.selected_node = None;
        }
    }

    /// Draw a wire. An input takes any number of wires; they are summed.
    pub fn connect(&mut self, wire: Wire)
        requires
            snarl_nodes(old(self).snarl).contains_key(wire.from),
            snarl_nodes(old(self).snarl).contains_key(wire.to),
        ensures
            snarl_nodes(final(self).snarl) == snarl_nodes(old(self).snarl),
            snarl_places(final(self).snarl) == snarl_places(old(self).snarl),
            snarl_wires(final(self).snarl) == snarl_wires(old(self).snarl).insert(wire),
            final(self).selected_node == old(self).selected_node,
            final(self).topology_changed,
    {
        connect(&mut self.snarl, wire);
        self.topology_changed = true;
    }

    /// Take a wire out.
    pub fn disconnect(&mut self, wire: Wire)
        requires
            snarl_nodes(old(self).snarl).contains_key(wire.from),
            snarl_nodes(old(self).snarl).contains_key(wire.to),
        ensures
            snarl_nodes(final(self).snarl) == snarl_nodes(old(self).snarl),
            snarl_places(final(self).snarl) == snarl_places(old(self).snarl),
            snarl_wires(final(self).snarl) == snarl_wires(old(self).snarl).remove(wire),
            final(self).selected_node == old(self).selected_node,
            final(self).topology_changed,
    {
        disconnect(&mut self.snarl, wire);
        self.topology_changed = true;
    }

    /// Take out every wire at an output pin.
    pub fn drop_outputs(&mut self, node: usize, output: usize)
        requires
            snarl_nodes(old(self).snarl).contains_key(node),
        ensures
            snarl_nodes(final(self).snarl) == snarl_nodes(old(self).snarl),
            snarl_places(final(self).snarl) == snarl_places(old(self).snarl),
            snarl_wires(final(self).snarl) == snarl_wires(old(self).snarl).filter(
                |w: Wire| !(w.from == node && w.output == output),
            ),
            final(self).selected_node == old(self).selected_node,
            final(self).topology_changed,
    {
        drop_outputs(&mut self.snarl, node, output);
        self.topology_changed = true;
    }

    /// Take out every wire at an input pin.
    pub fn drop_inputs(&mut self, node: usize, input: usize)
        requires
            snarl_nodes(old(self).snarl).contains_key(node),
        ensures
            snarl_nodes(final(self).snarl) == snarl_nodes(old(self).snarl),
            snarl_places(final(self).snarl) == snarl_places(old(self).snarl),
            snarl_wires(final(self).snarl) == snarl_wires(old(self).snarl).filter(
                |w: Wire| !(w.to == node && w.input == input),
            ),
            final(self).selected_node == old(self).selected_node,
            final(self).topology_changed,
    {
        drop_inputs(&mut self.snarl, node, input);
        self.topology_changed = true;
    }

    /// Weld the input and the output to points at the walls of the canvas.
    pub fn pin_io_nodes(&mut self, input_pos: egui::Pos2, output_pos: egui::Pos2)
        ensures
            snarl_nodes(final(self).snarl) == snarl_nodes(old(self).snarl),
            snarl_wires(final(self).snarl) == snarl_wires(old(self).snarl),
            snarl_places(final(self).snarl) == welded(
                snarl_nodes(old(self).snarl),
                snarl_places(old(self).snarl),
                pos_coords(input_pos),
                pos_coords(output_pos),
            ),
            final(self).selected_node == old(self).selected_node,
            final(self).topology_changed == old(self).topology_changed,
    {
        let (input, output) = io_nodes(&self.snarl);
        match input {
            Some(id) => {
                place_node(&mut self.snarl, id, input_pos);
            },
            None => {},
        }
        match output {
            Some(id) => {
                place_node(&mut self.snarl, id, output_pos);
            },
            None => {},
        }
    }

    /// Ease nodes toward where the layout puts them: one within reach of its target
    /// is put there, another goes part of the way. Gives the steps of those still on
    /// their way, by index; a node that is gone is not among them.
    pub fn ease(&mut self, steps: &Vec<EaseStep>) -> (moving: Vec<usize>)
        ensures
            snarl_nodes(final(self).snarl) == snarl_nodes(old(self).snarl),
            snarl_wires(final(self).snarl) == snarl_wires(old(self).snarl),
            snarl_places(final(self).snarl) == eased(
                snarl_nodes(old(self).snarl),
                snarl_places(old(self).snarl),
                steps@,
                steps@.len(),
            ),
            moving@ == indices_where(
                steps@.len(),
                |i: int|
                    snarl_nodes(old(self).snarl).contains_key(steps@[i].node) && !steps@[i].near,
            ),
            final(self).selected_node == old(self).selected_node,
            final(self).topology_changed == old(self).topology_changed,
    {
        let ghost nodes = snarl_nodes(self.snarl);
        let ghost places = snarl_places(self.snarl);
        let ghost on_its_way = |i: int| nodes.contains_key(steps@[i].node) && !steps@[i].near;
        let mut moving: Vec<usize> = Vec::new();
        let mut i: usize = 0;
        while i < steps.len()
            invariant
                i <= steps@.len(),
                nodes == snarl_nodes(self.snarl),
                nodes == snarl_nodes(old(self).snarl),
                snarl_wires(self.snarl) == snarl_wires(old(self).snarl),
                snarl_places(self.snarl) == eased(nodes, places, steps@, i as nat),
                on_its_way == (|i: int| nodes.contains_key(steps@[i].node) && !steps@[i].near),
                moving@ == indices_where(i as nat, on_its_way),
                self.selected_node == old(self).selected_node,
                self.topology_changed == old(self).topology_changed,
            decreases steps@.len() - i,
        {
            let step = &steps[i];
            let pos = if step.near {
                step.target
            } else {
                step.part_way
            };
            let there = place_node(&mut self.snarl, step.node, pos);
            if there && !step.near {
                moving.push(i);
            }
            i = i + 1;
        }
        moving
    }

    /// Put a chain of effects between the input and the output, in place of the wire
    /// that passes audio through, and select its first. Gives their ids. Does nothing
    /// without an input and an output.
    pub fn populate_demo(&mut self, effects: Vec<(SonidoNode, egui::Pos2)>) -> (ids: Vec<usize>)
        ensures
            match (input_of(snarl_nodes(old(self).snarl)), output_of(snarl_nodes(old(self).snarl))) {
                (Some(input), Some(output)) => {
                    &&& ids@.len() == effects@.len()
                    &&& ids@.no_duplicates()
                    &&& forall|k: int|
                        0 <= k < ids@.len() ==> !snarl_nodes(old(self).snarl).contains_key(
                            #[trigger] ids@[k],
                        )
                    &&& snarl_nodes(final(self).snarl) == with_nodes(
                        snarl_nodes(old(self).snarl),
                        ids@,
                        effects@,
                        ids@.len(),
                    )
                    &&& snarl_places(final(self).snarl) == with_places(
                        snarl_places(old(self).snarl),
                        ids@,
                        effects@,
                        ids@.len(),
                    )
                    &&& snarl_wires(final(self).snarl) == with_path(
                        snarl_wires(old(self).snarl).remove(plain_wire(input, output)),
                        seq![input] + ids@,
                        ids@.len(),
                    ).insert(plain_wire((seq![input] + ids@).last(), output))
                    &&& final(self).selected_node == (if ids@.len() > 0 {
                        Some(ids@[0])
                    } else {
                        None
                    })
                    &&& final(self).topology_changed
                },
                _ => ids@.len() == 0 && *final(self) == *old(self),
            },
    {
        let mut ids: Vec<usize> = Vec::new();
        let (input, output) = match io_nodes(&self.snarl) {
            (Some(input), Some(output)) => (input, output),
            _ => {
                return ids;
            },
        };
        let ghost nodes = snarl_nodes(self.snarl);
        let ghost places = snarl_places(self.snarl);
        disconnect(&mut self.snarl, Wire { from: input, output: 0, to: output, input: 0 });
        let ghost ws = snarl_wires(self.snarl);
        let ghost all = effects@;
        let mut rest = effects;
        let mut prev: usize = input;
        let ghost mut k: int = 0;
        while rest.len() > 0
            invariant
                0 <= k,
                k + rest@.len() == all.len(),
                rest@ == all.skip(k),
                ids@.len() == k,
                ids@.no_duplicates(),
                nodes.contains_key(input),
                nodes.contains_key(output),
                forall|j: int| 0 <= j < k ==> !nodes.contains_key(#[trigger] ids@[j]),
                forall|j: int|
                    0 <= j < k ==> snarl_nodes(self.snarl).contains_key(#[trigger] ids@[j]),
                forall|id: usize|
                    nodes.contains_key(id) ==> #[trigger] snarl_nodes(self.snarl).contains_key(id),
                snarl_nodes(self.snarl) == with_nodes(nodes, ids@, all, k as nat),
                snarl_places(self.snarl) == with_places(places, ids@, all, k as nat),
                snarl_wires(self.snarl) == with_path(ws, seq![input] + ids@, k as nat),
                prev == (seq![input] + ids@)[k],
                snarl_nodes(self.snarl).contains_key(prev),
                self.selected_node == old(self).selected_node,
            decreases rest@.len(),
        {
            let ghost before = ids@;
            assert(rest@[0] == all[k]);
            let (node, pos) = rest.remove(0);
            assert(rest@ =~= all.skip(k + 1));
            let id: usize = insert_node(&mut self.snarl, pos, node);
            connect(&mut self.snarl, Wire { from: prev, output: 0, to: id, input: 0 });
            ids.push(id);
            proof {
                same_front_nodes(nodes, before, ids@, all, k as nat);
                same_front_places(places, before, ids@, all, k as nat);
                same_front_path(ws, seq![input] + before, seq![input] + ids@, k as nat);
                assert((seq![input] + ids@)[k] == prev);
                assert((seq![input] + ids@)[k + 1] == id);
            }
            prev = id;
            proof {
                k = k + 1;
            }
        }
        connect(&mut self.snarl, Wire { from: prev, output: 0, to: output, input: 0 });
        self.selected_node = if ids.len() > 0 {
            Some(ids[0])
        } else {
            None
        };
        self.topology_changed = true;
        ids
    }
}

/// A node on its way to where the layout puts it.
pub struct EaseStep {
    /// The node.
    pub node: usize,
    /// Where it is to stand.
    pub target: egui::Pos2,
    /// Where a part of the way leads.
    pub part_way: egui::Pos2,
    /// Whether it is within reach of the target.
    pub near: bool,
}

/// Places after the first `n` steps toward a layout.
pub open spec fn eased(
    nodes: Map<usize, SonidoNode>,
    places: Map<usize, Seq<Bits>>,
    steps: Seq<EaseStep>,
    n: nat,
) -> Map<usize, Seq<Bits>>
    decreases n,
{
    if n == 0 {
        places
    } else {
        let before = eased(nodes, places, steps, (n - 1) as nat);
        let step = steps[n - 1];
        if nodes.contains_key(step.node) {
            before.insert(
                step.node,
                pos_coords(
                    if step.near {
                        step.target
                    } else {
                        step.part_way
                    },
                ),
            )
        } else {
            before
        }
    }
}

/// Places with the input and the output at their points.
pub open spec fn welded(
    nodes: Map<usize, SonidoNode>,
    places: Map<usize, Seq<Bits>>,
    input: Seq<Bits>,
    output: Seq<Bits>,
) -> Map<usize, Seq<Bits>> {
    let first = match input_of(nodes) {
        Some(id) => places.insert(id, input),
        None => places,
    };
    match output_of(nodes) {
        Some(id) => first.insert(id, output),
        None => first,
    }
}

/// Nodes with the first `n` of a chain added.
pub open spec fn with_nodes(
    nodes: Map<usize, SonidoNode>,
    ids: Seq<usize>,
    effects: Seq<(SonidoNode, egui::Pos2)>,
    n: nat,
) -> Map<usize, SonidoNode>
    decreases n,
{
    if n == 0 {
        nodes
    } else {
        with_nodes(nodes, ids, effects, (n - 1) as nat).insert(ids[n - 1], effects[n - 1].0)
    }
}

/// Places with those of the first `n` of a chain added.
pub open spec fn with_places(
    places: Map<usize, Seq<Bits>>,
    ids: Seq<usize>,
    effects: Seq<(SonidoNode, egui::Pos2)>,
    n: nat,
) -> Map<usize, Seq<Bits>>
    decreases n,
{
    if n == 0 {
        places
    } else {
        with_places(places, ids, effects, (n - 1) as nat).insert(
            ids[n - 1],
            pos_coords(effects[n - 1].1),
        )
    }
}

/// Wires with those of the first `n` steps along a path added.
pub open spec fn with_path(ws: Set<Wire>, path: Seq<usize>, n: nat) -> Set<Wire>
    decreases n,
{
    if n == 0 {
        ws
    } else {
        with_path(ws, path, (n - 1) as nat).insert(plain_wire(path[n - 1], path[n as int]))
    }
}

proof fn same_front_nodes(
    nodes: Map<usize, SonidoNode>,
    a: Seq<usize>,
    b: Seq<usize>,
    effects: Seq<(SonidoNode, egui::Pos2)>,
    n: nat,
)
    requires
        n <= a.len(),
        n <= b.len(),
        forall|i: int| 0 <= i < n ==> a[i] == b[i],
    ensures
        with_nodes(nodes, a, effects, n) == with_nodes(nodes, b, effects, n),
    decreases n,
{
    if n > 0 {
        same_front_nodes(nodes, a, b, effects, (n - 1) as nat);
    }
}

proof fn same_front_places(
    places: Map<usize, Seq<Bits>>,
    a: Seq<usize>,
    b: Seq<usize>,
    effects: Seq<(SonidoNode, egui::Pos2)>,
    n: nat,
)
    requires
        n <= a.len(),
        n <= b.len(),
        forall|i: int| 0 <= i < n ==> a[i] == b[i],
    ensures
        with_places(places, a, effects, n) == with_places(places, b, effects, n),
    decreases n,
{
    if n > 0 {
        same_front_places(places, a, b, effects, (n - 1) as nat);
    }
}

proof fn same_front_path(ws: Set<Wire>, a: Seq<usize>, b: Seq<usize>, n: nat)
    requires
        n < a.len(),
        n < b.len(),
        forall|i: int| 0 <= i <= n ==> a[i] == b[i],
    ensures
        with_path(ws, a, n) == with_path(ws, b, n),
    decreases n,
{
    if n > 0 {
        same_front_path(ws, a, b, (n - 1) as nat);
    }
}

/// What the input and the output are welded to.
#[derive(Clone, Copy, Debug, PartialEq, Eq, Structural)]
pub enum IoAnchor {
    /// At the walls of the canvas.
    Walls,
    /// Around the effects, from the leftmost to the rightmost.
    Around {
        /// Leftmost effect.
        left: usize,
        /// Rightmost effect.
        right: usize,
    },
    /// At fixed points.
    Fixed,
}

/// A node that no other is left of, among some. One that stands nowhere counts
/// only where all do.
pub open spec fn leftmost(places: Map<usize, Seq<Bits>>, ids: Seq<usize>, id: usize) -> bool {
    ids.contains(id) && forall|k: int|
        0 <= k < ids.len() ==> !first_is_left(places[#[trigger] ids[k]][0], places[id][0])
}

/// A node that no other is right of, among some. One that stands nowhere counts
/// only where all do.
pub open spec fn rightmost(places: Map<usize, Seq<Bits>>, ids: Seq<usize>, id: usize) -> bool {
    ids.contains(id) && forall|k: int|
        0 <= k < ids.len() ==> !first_is_right(places[#[trigger] ids[k]][0], places[id][0])
}

/// Whether `a` is left of `b`, or stands somewhere where `b` does not.
pub open spec fn first_is_left(a: Bits, b: Bits) -> bool {
    lt(a, b) || (is_nan(b) && !is_nan(a))
}

/// Whether `a` is right of `b`, or stands somewhere where `b` does not.
pub open spec fn first_is_right(a: Bits, b: Bits) -> bool {
    lt(b, a) || (is_nan(b) && !is_nan(a))
}

impl GraphView {
    /// What the input and the output are welded to: the walls as soon as the canvas
    /// was drawn once, before that the effects, and fixed points where there are
    /// none.
    pub fn io_anchor(&self, canvas_drawn: bool) -> (a: IoAnchor)
        ensures
            forall|ids: Seq<usize>| #[trigger]
                is_chain(snarl_nodes(self.snarl), ids) ==> match a {
                    IoAnchor::Walls => canvas_drawn,
                    IoAnchor::Around { left, right } => !canvas_drawn && leftmost(
                        snarl_places(self.snarl),
                        ids,
                        left,
                    ) && rightmost(snarl_places(self.snarl), ids, right),
                    IoAnchor::Fixed => !canvas_drawn && ids.len() == 0,
                },
    {
        if canvas_drawn {
            return IoAnchor::Walls;
        }
        let ghost places = snarl_places(self.snarl);
        let ids = self.effect_node_ids();
        proof {
            assert forall|other: Seq<usize>| #[trigger]
                is_chain(snarl_nodes(self.snarl), other) implies other == ids@ by {
                ascending_listing_is_unique(other, ids@);
            }
        }
        if ids.len() == 0 {
            return IoAnchor::Fixed;
        }
        let mut left: usize = 0;
        let mut right: usize = 0;
        let mut i: usize = 1;
        while i < ids.len()
            invariant
                1 <= i <= ids@.len(),
                left < i,
                right < i,
                places == snarl_places(self.snarl),
                is_chain(snarl_nodes(self.snarl), ids@),
                forall|k: int|
                    0 <= k < i ==> !first_is_left(
                        places[#[trigger] ids@[k]][0],
                        places[ids@[left as int]][0],
                    ) && !first_is_right(places[ids@[k]][0], places[ids@[right as int]][0]),
            decreases ids@.len() - i,
        {
            assert(ids@.to_set().contains(ids@[i as int]));
            assert(ids@.to_set().contains(ids@[left as int]));
            assert(ids@.to_set().contains(ids@[right as int]));
            let here = node_coords(&self.snarl, ids[i]).unwrap();
            let l = node_coords(&self.snarl, ids[left]).unwrap();
            let r = node_coords(&self.snarl, ids[right]).unwrap();
            if bits_lt(here.0, l.0) || (bits_nan(l.0) && !bits_nan(here.0)) {
                left = i;
            }
            if bits_lt(r.0, here.0) || (bits_nan(r.0) && !bits_nan(here.0)) {
                right = i;
            }
            i = i + 1;
        }
        IoAnchor::Around { left: ids[left], right: ids[right] }
    }
}

/// The pins of a node: one in and one out, but for the input and the output, which
/// have one side only, and a split's eight outputs and a merge's eight inputs.
pub proof fn what_pins_a_node_has(n: SonidoNode)
    ensures
        n is Input ==> input_pins(n) == 0 && output_pins(n) == 1,
        n is Output ==> input_pins(n) == 1 && output_pins(n) == 0,
        n is Effect ==> input_pins(n) == 1 && output_pins(n) == 1,
        n is Split ==> input_pins(n) == 1 && output_pins(n) == 8,
        n is Merge ==> input_pins(n) == 8 && output_pins(n) == 1,
{
}

/// Easing puts a node that is near its target there and another part of the way,
/// the last step for a node deciding, and moves no other node.
pub proof fn easing_moves_the_nodes_named(
    nodes: Map<usize, SonidoNode>,
    places: Map<usize, Seq<Bits>>,
    steps: Seq<EaseStep>,
    n: nat,
    id: usize,
    i: int,
)
    requires
        n <= steps.len(),
        -1 <= i < n,
        i >= 0 ==> steps[i].node == id,
        forall|j: int| i < j < n ==> (#[trigger] steps[j]).node != id,
    ensures
        i >= 0 && nodes.contains_key(id) && steps[i].near ==> eased(nodes, places, steps, n)[id]
            == pos_coords(steps[i].target),
        i >= 0 && nodes.contains_key(id) && !steps[i].near ==> eased(nodes, places, steps, n)[id]
            == pos_coords(steps[i].part_way),
        i < 0 || !nodes.contains_key(id) ==> eased(nodes, places, steps, n)[id] == places[id],
    decreases n,
{
    if n > 0 {
        if i < n - 1 {
            assert(steps[n - 1].node != id);
            easing_moves_the_nodes_named(nodes, places, steps, (n - 1) as nat, id, i);
        } else if !nodes.contains_key(id) {
            untracked_stays(nodes, places, steps, n, id);
        }
    }
}

proof fn untracked_stays(
    nodes: Map<usize, SonidoNode>,
    places: Map<usize, Seq<Bits>>,
    steps: Seq<EaseStep>,
    n: nat,
    id: usize,
)
    requires
        n <= steps.len(),
        !nodes.contains_key(id),
    ensures
        eased(nodes, places, steps, n)[id] == places[id],
    decreases n,
{
    if n > 0 {
        untracked_stays(nodes, places, steps, (n - 1) as nat, id);
    }
}

/// Welding puts the input and the output at their points and moves no other node.
pub proof fn welding_moves_the_ends(
    nodes: Map<usize, SonidoNode>,
    places: Map<usize, Seq<Bits>>,
    at_input: Seq<Bits>,
    at_output: Seq<Bits>,
    input: usize,
    output: usize,
    id: usize,
)
    requires
        nodes.contains_key(input),
        nodes[input] is Input,
        forall|j: usize| #[trigger] nodes.contains_key(j) && nodes[j] is Input ==> j <= input,
        nodes.contains_key(output),
        nodes[output] is Output,
        forall|j: usize| #[trigger] nodes.contains_key(j) && nodes[j] is Output ==> j <= output,
    ensures
        welded(nodes, places, at_input, at_output)[input] == at_input,
        welded(nodes, places, at_input, at_output)[output] == at_output,
        id != input && id != output ==> welded(nodes, places, at_input, at_output)[id]
            == places[id],
{
    ends_are_the_last_of_their_kind(nodes, input);
    ends_are_the_last_of_their_kind(nodes, output);
}

/// A chain that is put in stands there: each of its effects under its id, at its
/// point, and no other node has changed.
pub proof fn a_chain_is_put_in_whole(
    nodes: Map<usize, SonidoNode>,
    places: Map<usize, Seq<Bits>>,
    ids: Seq<usize>,
    effects: Seq<(SonidoNode, egui::Pos2)>,
    n: nat,
)
    requires
        ids.no_duplicates(),
        n <= ids.len(),
        n <= effects.len(),
        forall|k: int| 0 <= k < ids.len() ==> !nodes.contains_key(#[trigger] ids[k]),
    ensures
        forall|k: int|
            #![trigger ids[k]]
            0 <= k < n ==> with_nodes(nodes, ids, effects, n).contains_key(ids[k]) && with_nodes(
                nodes,
                ids,
                effects,
                n,
            )[ids[k]] == effects[k].0 && with_places(places, ids, effects, n)[ids[k]]
                == pos_coords(effects[k].1),
        forall|id: usize| #[trigger]
            nodes.contains_key(id) ==> with_nodes(nodes, ids, effects, n).contains_key(id)
                && with_nodes(nodes, ids, effects, n)[id] == nodes[id] && with_places(
                places,
                ids,
                effects,
                n,
            )[id] == places[id],
        forall|id: usize| #[trigger]
            with_nodes(nodes, ids, effects, n).contains_key(id) ==> nodes.contains_key(id)
                || ids.contains(id),
    decreases n,
{
    if n > 0 {
        a_chain_is_put_in_whole(nodes, places, ids, effects, (n - 1) as nat);
        let last = ids[n - 1];
        assert(ids.contains(last));
        assert(!nodes.contains_key(last));
        let before = with_nodes(nodes, ids, effects, (n - 1) as nat);
        let after = with_nodes(nodes, ids, effects, n);
        assert forall|k: int| #![trigger ids[k]] 0 <= k < n - 1 implies ids[k] != last by {}
        assert forall|id: usize| #[trigger] after.contains_key(id) implies nodes.contains_key(id)
            || ids.contains(id) by {
            if id != last {
                assert(before.contains_key(id));
            }
        }
    }
}

/// The wires of a chain that is put in: one from each of its nodes to the next, and
/// all that were there.
pub proof fn a_path_is_wired_step_by_step(ws: Set<Wire>, path: Seq<usize>, n: nat, w: Wire)
    requires
        n < path.len(),
    ensures
        with_path(ws, path, n).contains(w) <==> ws.contains(w) || exists|k: int|
            0 <= k < n && w.from == #[trigger] path[k] && w.output == 0 && w.to == path[k + 1]
                && w.input == 0,
    decreases n,
{
    if n > 0 {
        a_path_is_wired_step_by_step(ws, path, (n - 1) as nat, w);
        if w == plain_wire(path[n - 1], path[n as int]) {
            assert(w.from == path[n - 1] && w.to == path[n - 1 + 1]);
        }
    }
}

} // verus!
