//! The canonical patch model.
//!
//! A [`Patch`] is the single source of truth for a complete effect rig: the
//! graph topology, per-node A/B parameter snapshots, six macro definitions, the
//! A/B morph configuration and the graph-level globals.
//!
//! Effects are referenced by their stable UID, never by a list position, so a
//! patch still resolves after effects are added or reordered.
//!
//! Parameter values are single-precision floats carried by their IEEE 754 bit
//! pattern ([`Bits`]): the library stores, compares and moves them, and never
//! does arithmetic on them.
use vstd::prelude::*;

verus! {

/// The IEEE 754 bit pattern of a single-precision float (`f32::to_bits`).
pub type Bits = u32;

/// Binary magic: `"SNDP"`. Distinct from the older `"SOND"` preset magic, so
/// the firmware can tell the formats apart.
pub const PATCH_MAGIC: u32 = 0x534E_4450;

/// Wire-format version. Bumped only on a breaking layout change.
pub const PATCH_FORMAT_VERSION: u16 = 1;

/// One patch occupies exactly one QSPI flash sector.
pub const SECTOR_SIZE: usize = 4096;

/// Maximum effect nodes in a patch.
pub const MAX_NODES: usize = 8;

/// Maximum parameters per effect node.
pub const MAX_PARAMS: usize = 16;

/// Number of macros, one per hardware knob (K1 to K6).
pub const NUM_MACROS: usize = 6;

/// Fixed macro-name length in the binary projection (UTF-8, NUL-padded).
pub const MACRO_NAME_LEN: usize = 16;

/// Fixed patch-name length in the binary projection (UTF-8, NUL-padded).
pub const PATCH_NAME_LEN: usize = 24;

/// Bits of infinity.
pub const BITS_INFINITY: Bits = 0x7F80_0000;

/// Bits of negative infinity.
pub const BITS_NEG_INFINITY: Bits = 0xFF80_0000;

/// Bits of `0.0`.
pub const BITS_ZERO: Bits = 0;

/// Bits of one half.
pub const BITS_HALF: Bits = 0x3F00_0000;

/// Bits of `1.0`.
pub const BITS_ONE: Bits = 0x3F80_0000;

/// Bits of `2.0`.
pub const BITS_TWO: Bits = 0x4000_0000;

/// A graph-level control that a macro can drive.
#[derive(Clone, Copy, Debug, PartialEq, Eq, Structural)]
pub enum GlobalParam {
    /// Pre-graph input gain (dB).
    InputGain,
    /// Post-graph master volume (dB).
    MasterVolume,
    /// A/B morph position.
    MorphPosition,
    /// A/B morph ramp speed.
    MorphSpeed,
}

/// Where a macro mapping writes.
#[derive(Clone, Copy, Debug, PartialEq, Eq, Structural)]
pub enum MacroTarget {
    /// A parameter of the effect in a slot.
    Slot {
        /// Slot index.
        slot: u8,
        /// Parameter index within the slot.
        param: u8,
    },
    /// A graph-level control.
    Global(GlobalParam),
}

/// Interpolation curve across a knob's travel.
#[derive(Clone, Copy, Debug, PartialEq, Eq, Structural)]
pub enum MorphCurve {
    /// Straight line.
    Linear,
    /// Logarithmic.
    Logarithmic,
    /// Jump at the midpoint.
    Snap,
}

/// How a footswitch or gesture drives the morph position.
#[derive(Clone, Copy, Debug, PartialEq, Eq, Structural)]
pub enum MorphMode {
    /// Ramp while held.
    Ramp,
    /// B while held, A otherwise.
    Momentary,
    /// Toggle.
    Latch,
}

/// A complete effect rig.
#[derive(Clone, Debug, PartialEq)]
pub struct Patch {
    /// Human-readable name (truncated to [`PATCH_NAME_LEN`] bytes in binary).
    pub name: String,
    /// Wire-format version this patch targets.
    pub format_version: u16,
    /// Effect nodes, in slot order.
    pub nodes: Vec<PatchNode>,
    /// Connections between nodes and the virtual endpoints.
    pub edges: Vec<PatchEdge>,
    /// Six macro definitions, one per hardware knob.
    pub macros: [MacroDef; NUM_MACROS],
    /// A/B morph configuration.
    pub morph: MorphConfig,
    /// Graph-level controls outside any effect slot.
    pub globals: GlobalControls,
}

/// One effect node: its identity, bypass, and A/B parameter snapshots.
#[derive(Clone, Debug, PartialEq)]
pub struct PatchNode {
    /// Stable effect UID; `0` means none.
    pub effect_uid: u16,
    /// Whether this node is bypassed.
    pub bypassed: bool,
    /// Parameter snapshot A. Its length is the node's parameter count.
    pub params_a: Vec<Bits>,
    /// Parameter snapshot B, of the same length as A. Equal to A means that
    /// morphing does not move this node.
    pub params_b: Vec<Bits>,
}

/// An endpoint that a [`PatchEdge`] connects to.
///
/// `Node` indexes [`Patch::nodes`]. `Split` and `Merge` are virtual fan-out and
/// fan-in junctions addressed by a small id.
#[derive(Clone, Copy, Debug, PartialEq, Eq, Structural)]
pub enum PatchEndpoint {
    /// The graph's single audio input.
    Input,
    /// The graph's single audio output.
    Output,
    /// Effect node at this index.
    Node(u8),
    /// A 1-to-N fan-out junction.
    Split(u8),
    /// An N-to-1 fan-in junction.
    Merge(u8),
}

/// A directed connection between two endpoints.
#[derive(Clone, Copy, Debug, PartialEq, Eq, Structural)]
pub struct PatchEdge {
    /// Source endpoint.
    pub from: PatchEndpoint,
    /// Destination endpoint.
    pub to: PatchEndpoint,
}

/// One macro-to-parameter mapping with its scaled range and curve.
#[derive(Clone, Copy, Debug, PartialEq, Eq, Structural)]
pub struct MacroMappingSpec {
    /// Where this mapping writes.
    pub target: MacroTarget,
    /// Target value when the knob is at 0.
    pub min: Bits,
    /// Target value when the knob is at 1 (below `min` inverts).
    pub max: Bits,
    /// Interpolation curve across the knob's travel.
    pub curve: MorphCurve,
}

/// A named macro: a knob and the parameters it drives.
#[derive(Debug, PartialEq)]
pub struct MacroDef {
    /// Display name (truncated to [`MACRO_NAME_LEN`] bytes in binary).
    pub name: String,
    /// Targets that this macro drives in lock-step.
    pub mappings: Vec<MacroMappingSpec>,
}

/// A/B morph behavior and per-slot lock state.
#[derive(Clone, Copy, Debug, PartialEq, Eq, Structural)]
pub struct MorphConfig {
    /// Ramp speed.
    pub speed: Bits,
    /// How a footswitch or gesture drives the morph position.
    pub mode: MorphMode,
    /// Bit `i` set: node `i` is excluded from morphing.
    pub slot_locks: u8,
}

/// Graph-level controls that sit outside the effect chain.
#[derive(Clone, Copy, Debug, PartialEq, Eq, Structural)]
pub struct GlobalControls {
    /// Pre-graph input gain (dB).
    pub input_gain_db: Bits,
    /// Post-graph master volume (dB).
    pub master_volume_db: Bits,
}

/// The mathematical value of a [`PatchNode`].
#[verifier::ext_equal]
pub struct NodeModel {
    pub effect_uid: u16,
    pub bypassed: bool,
    pub params_a: Seq<Bits>,
    pub params_b: Seq<Bits>,
}

/// The mathematical value of a [`MacroDef`].
#[verifier::ext_equal]
pub struct MacroModel {
    pub name: Seq<char>,
    pub mappings: Seq<MacroMappingSpec>,
}

/// The mathematical value of a [`Patch`].
#[verifier::ext_equal]
pub struct PatchModel {
    pub name: Seq<char>,
    pub format_version: u16,
    pub nodes: Seq<NodeModel>,
    pub edges: Seq<PatchEdge>,
    pub macros: Seq<MacroModel>,
    pub morph: MorphConfig,
    pub globals: GlobalControls,
}

impl View for PatchNode {
    type V = NodeModel;

    open spec fn view(&self) -> NodeModel {
        NodeModel {
            effect_uid: self.effect_uid,
            bypassed: self.bypassed,
            params_a: self.params_a@,
            params_b: self.params_b@,
        }
    }
}

impl View for MacroDef {
    type V = MacroModel;

    open spec fn view(&self) -> MacroModel {
        MacroModel { name: self.name@, mappings: self.mappings@ }
    }
}

/// The values of a sequence of nodes.
pub open spec fn nodes_view(nodes: Seq<PatchNode>) -> Seq<NodeModel> {
    Seq::new(nodes.len(), |i: int| nodes[i]@)
}

/// The values of a sequence of macros.
pub open spec fn macros_view(macros: Seq<MacroDef>) -> Seq<MacroModel> {
    Seq::new(macros.len(), |i: int| macros[i]@)
}

impl View for Patch {
    type V = PatchModel;

    open spec fn view(&self) -> PatchModel {
        PatchModel {
            name: self.name@,
            format_version: self.format_version,
            nodes: nodes_view(self.nodes@),
            edges: self.edges@,
            macros: macros_view(self.macros@),
            morph: self.morph,
            globals: self.globals,
        }
    }
}

/// A macro without a name that drives nothing.
pub open spec fn unused_macro() -> MacroModel {
    MacroModel { name: Seq::empty(), mappings: Seq::empty() }
}

/// A patch with no nodes, no edges and no macros in use.
pub open spec fn empty_patch(name: Seq<char>) -> PatchModel {
    PatchModel {
        name,
        format_version: PATCH_FORMAT_VERSION,
        nodes: Seq::empty(),
        edges: Seq::empty(),
        macros: Seq::new(NUM_MACROS as nat, |i: int| unused_macro()),
        morph: default_morph(),
        globals: default_globals(),
    }
}

/// Ramp mode at speed 2, nothing locked.
pub open spec fn default_morph() -> MorphConfig {
    MorphConfig { speed: BITS_TWO, mode: MorphMode::Ramp, slot_locks: 0 }
}

/// Unity gain in and out.
pub open spec fn default_globals() -> GlobalControls {
    GlobalControls { input_gain_db: BITS_ZERO, master_volume_db: BITS_ZERO }
}

/// Edges of the chain `Input -> 0 -> 1 -> ... -> Output` over `n` nodes. Node
/// numbers are stored in one byte.
pub open spec fn chain_edges(n: nat) -> Seq<PatchEdge> {
    Seq::new(
        n + 1,
        |i: int|
            PatchEdge {
                from: if i == 0 {
                    PatchEndpoint::Input
                } else {
                    PatchEndpoint::Node(#[verifier::truncate] ((i - 1) as u8))
                },
                to: if i == n {
                    PatchEndpoint::Output
                } else {
                    PatchEndpoint::Node(#[verifier::truncate] (i as u8))
                },
            },
    )
}

/// How many of the macros drive something.
pub open spec fn active_macros(macros: Seq<MacroModel>) -> nat
    decreases macros.len(),
{
    if macros.len() == 0 {
        0
    } else {
        active_macros(macros.drop_last()) + if macros.last().mappings.len() > 0 {
            1nat
        } else {
            0nat
        }
    }
}

/// Whether bit `slot` of a lock byte is set.
pub open spec fn lock_bit(locks: u8, slot: int) -> bool {
    0 <= slot < 8 && (locks & (1u8 << (slot as u8))) != 0
}

impl PatchNode {
    /// A node with both snapshots set to `params` (A == B, not bypassed).
    pub fn new(effect_uid: u16, params: Vec<Bits>) -> (node: Self)
        ensures
            node@ == (NodeModel {
                effect_uid,
                bypassed: false,
                params_a: params@,
                params_b: params@,
            }),
    {
        let params_b = params.clone();
        assert(params_b@ =~= params@);
        PatchNode { effect_uid, bypassed: false, params_a: params, params_b }
    }

    /// Parameter count (defined by the A snapshot).
    pub fn param_count(&self) -> (n: usize)
        ensures
            n == self@.params_a.len(),
    {
        self.params_a.len()
    }
}

impl PatchEdge {
    /// Construct an edge.
    pub fn new(from: PatchEndpoint, to: PatchEndpoint) -> (edge: Self)
        ensures
            edge == (PatchEdge { from, to }),
    {
        PatchEdge { from, to }
    }
}

impl MacroDef {
    /// Whether this macro drives anything.
    pub fn is_active(&self) -> (active: bool)
        ensures
            active == (self@.mappings.len() > 0),
    {
        !self.mappings.is_empty()
    }
}

impl Clone for MacroDef {
    fn clone(&self) -> (r: Self)
        ensures
            r@ == self@,
    {
        let mappings = self.mappings.clone();
        assert(mappings@ =~= self.mappings@);
        MacroDef { name: self.name.clone(), mappings }
    }
}

impl Default for MacroDef {
    fn default() -> (r: Self)
        ensures
            r@ == unused_macro(),
    {
        let r = MacroDef { name: String::new(), mappings: Vec::new() };
        assert(r@ =~= unused_macro());
        r
    }
}

impl Default for MorphConfig {
    fn default() -> (r: Self)
        ensures
            r == default_morph(),
    {
        MorphConfig { speed: BITS_TWO, mode: MorphMode::Ramp, slot_locks: 0 }
    }
}

impl MorphConfig {
    /// Whether node `slot` is locked out of morphing. Slots past the eighth are
    /// never locked.
    pub fn is_locked(&self, slot: usize) -> (locked: bool)
        ensures
            locked == lock_bit(self.slot_locks, slot as int),
    {
        slot < 8 && (self.slot_locks & (1u8 << (slot as u8))) != 0
    }

    /// Set node `slot`'s morph lock. Slots past the eighth are left alone.
    pub fn set_locked(&mut self, slot: usize, locked: bool)
        ensures
            final(self).speed == old(self).speed,
            final(self).mode == old(self).mode,
            forall|i: int|
                #![trigger lock_bit(final(self).slot_locks, i)]
                lock_bit(final(self).slot_locks, i) == if i == slot && slot < 8 {
                    locked
                } else {
                    lock_bit(old(self).slot_locks, i)
                },
            slot >= 8 ==> *final(self) == *old(self),
    {
        if slot < 8 {
            let bit: u8 = slot as u8;
            let before: u8 = self.slot_locks;
            if locked {
                self.slot_locks = before | (1u8 << bit);
            } else {
                self.slot_locks = before & !(1u8 << bit);
            }
            let after: u8 = self.slot_locks;
            assert forall|i: int| #![trigger lock_bit(after, i)] lock_bit(after, i) == if i == slot
                && slot < 8 {
                locked
            } else {
                lock_bit(before, i)
            } by {
                if 0 <= i < 8 {
                    let j: u8 = i as u8;
                    assert(((before | (1u8 << bit)) & (1u8 << j)) != 0 <==> (bit == j || (before & (
                    1u8 << j)) != 0)) by (bit_vector)
                        requires
                            bit < 8,
                            j < 8,
                    ;
                    assert(((before & !(1u8 << bit)) & (1u8 << j)) != 0 <==> (bit != j && (before & (
                    1u8 << j)) != 0)) by (bit_vector)
                        requires
                            bit < 8,
                            j < 8,
                    ;
                }
            }
        }
    }
}

impl Default for GlobalControls {
    fn default() -> (r: Self)
        ensures
            r == default_globals(),
    {
        GlobalControls { input_gain_db: BITS_ZERO, master_volume_db: BITS_ZERO }
    }
}

/// A copy of six macros.
pub fn clone_macros(macros: &[MacroDef; NUM_MACROS]) -> (r: [MacroDef; NUM_MACROS])
    ensures
        macros_view(r@) == macros_view(macros@),
{
    let r = [
        macros[0].clone(),
        macros[1].clone(),
        macros[2].clone(),
        macros[3].clone(),
        macros[4].clone(),
        macros[5].clone(),
    ];
    assert(macros_view(r@) =~= macros_view(macros@));
    r
}

impl Patch {
    /// An empty patch (no effects) with the given name.
    pub fn new(name: String) -> (patch: Self)
        ensures
            patch@ == empty_patch(name@),
    {
        let patch = Patch {
            name,
            format_version: PATCH_FORMAT_VERSION,
            nodes: Vec::new(),
            edges: Vec::new(),
            macros: [
                MacroDef::default(),
                MacroDef::default(),
                MacroDef::default(),
                MacroDef::default(),
                MacroDef::default(),
                MacroDef::default(),
            ],
            morph: MorphConfig::default(),
            globals: GlobalControls::default(),
        };
        assert(patch@.macros =~= empty_patch(name@).macros);
        assert(patch@ =~= empty_patch(name@));
        patch
    }

    /// The linear chain `Input -> n0 -> n1 -> ... -> Output` over `nodes`.
    pub fn linear_chain(name: String, nodes: Vec<PatchNode>) -> (patch: Self)
        requires
            nodes@.len() < usize::MAX,
        ensures
            patch@ == (PatchModel {
                nodes: nodes_view(nodes@),
                edges: chain_edges(nodes@.len()),
                ..empty_patch(name@)
            }),
    {
        let ghost chars = name@;
        let mut patch = Patch::new(name);
        let n: usize = nodes.len();
        let mut edges: Vec<PatchEdge> = Vec::new();
        let mut i: usize = 0;
        let mut from: PatchEndpoint = PatchEndpoint::Input;
        while i < n
            invariant
                i <= n,
                n == nodes@.len(),
                n < usize::MAX,
                edges@ == chain_edges(n as nat).take(i as int),
                from == chain_edges(n as nat)[i as int].from,
            decreases n - i,
        {
            let node = PatchEndpoint::Node(#[verifier::truncate] (i as u8));
            edges.push(PatchEdge::new(from, node));
            from = node;
            i = i + 1;
            assert(edges@ =~= chain_edges(n as nat).take(i as int));
        }
        edges.push(PatchEdge::new(from, PatchEndpoint::Output));
        assert(edges@ =~= chain_edges(n as nat));
        patch.nodes = nodes;
        patch.edges = edges;
        patch
    }

    /// Active macros (those with at least one mapping).
    pub fn active_macro_count(&self) -> (n: usize)
        ensures
            n == active_macros(self@.macros),
    {
        let mut n: usize = 0;
        let mut i: usize = 0;
        while i < NUM_MACROS
            invariant
                i <= NUM_MACROS,
                n <= i,
                n == active_macros(self@.macros.take(i as int)),
            decreases NUM_MACROS - i,
        {
            assert(self@.macros.take(i as int + 1).drop_last() =~= self@.macros.take(i as int));
            if self.macros[i].is_active() {
                n = n + 1;
            }
            i = i + 1;
        }
        assert(self@.macros.take(NUM_MACROS as int) =~= self@.macros);
        n
    }
}

/// A linear chain is one: it goes from the input through every node in order to
/// the output, one edge for each step.
pub proof fn a_chain_goes_through_every_node(patch: Patch, nodes: Seq<PatchNode>, i: int)
    requires
        nodes.len() <= 256,
        patch@.nodes == nodes_view(nodes),
        patch@.edges == chain_edges(nodes.len()),
        0 <= i < nodes.len(),
    ensures
        patch.edges@.len() == nodes.len() + 1,
        patch.edges@[0].from == PatchEndpoint::Input,
        patch.edges@[nodes.len() as int].to == PatchEndpoint::Output,
        patch.edges@[i].to == PatchEndpoint::Node(i as u8),
        patch.edges@[i + 1].from == PatchEndpoint::Node(i as u8),
        patch.nodes@.len() == nodes.len(),
        patch.nodes@[i].effect_uid == nodes[i].effect_uid,
        patch.nodes@[i].bypassed == nodes[i].bypassed,
        patch.nodes@[i].params_a@ == nodes[i].params_a@,
        patch.nodes@[i].params_b@ == nodes[i].params_b@,
{
    assert(nodes_view(patch.nodes@).len() == patch.nodes@.len());
    assert(nodes_view(patch.nodes@)[i] == patch.nodes@[i]@);
    assert(nodes_view(nodes)[i] == nodes[i]@);
}

/// A macro counts as active exactly if it drives something: one more macro adds
/// one to the count or nothing.
pub proof fn macros_that_drive_are_counted(macros: Seq<MacroModel>, m: MacroModel)
    ensures
        active_macros(Seq::empty()) == 0,
        m.mappings.len() > 0 ==> active_macros(macros.push(m)) == active_macros(macros) + 1,
        m.mappings.len() == 0 ==> active_macros(macros.push(m)) == active_macros(macros),
{
    assert(macros.push(m).drop_last() =~= macros);
}

/// A new patch is empty: it has its name, no nodes, no edges, six macros that have no
/// name and drive nothing, the morph in ramp mode at speed 2 with nothing locked, and
/// no gain either way.
pub proof fn a_new_patch_is_empty(patch: Patch, name: Seq<char>, i: int)
    requires
        patch@ == empty_patch(name),
        0 <= i < 6,
    ensures
        patch.name@ == name,
        patch.format_version == 1,
        patch.nodes@.len() == 0,
        patch.edges@.len() == 0,
        patch.macros@[i].name@.len() == 0,
        patch.macros@[i].mappings@.len() == 0,
        patch.morph.speed == 0x4000_0000,
        patch.morph.mode == MorphMode::Ramp,
        patch.morph.slot_locks == 0,
        patch.globals.input_gain_db == 0,
        patch.globals.master_volume_db == 0,
{
    assert(nodes_view(patch.nodes@).len() == patch.nodes@.len());
    assert(macros_view(patch.macros@)[i] == patch.macros@[i]@);
}

} // verus!
