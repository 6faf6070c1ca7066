//! Patch validation: structural integrity (always) and pedal fit (at export).
//!
//! Structural checks need nothing but the patch. Pedal-fit checks (effect set,
//! CPU budget, SDRAM) need facts that the firmware owns; those are passed in.
use crate::cycle_table::{looked_up, lookup, the_first_entry_is_looked_up};
use crate::layout::{node_fault, patch_fault};
use crate::patch::{
    Bits, MAX_NODES, MAX_PARAMS, MacroMappingSpec, MacroModel, MacroTarget, NUM_MACROS, NodeModel,
    Patch, PatchEdge, PatchEndpoint, PatchModel, PatchNode, nodes_view,
};
use crate::text::{decimal, decimal_string, push_decimal};
use vstd::prelude::*;
use vstd::string::StringExecFns;

verus! {

/// Whether a finding blocks export or merely warns.
#[derive(Clone, Copy, Debug, PartialEq, Eq, Structural)]
pub enum Severity {
    /// Export must be refused.
    Error,
    /// Export is allowed but the user should know.
    Warning,
}

/// A single validation result.
#[derive(Clone, Debug, PartialEq)]
pub struct Finding {
    /// Whether this blocks export.
    pub severity: Severity,
    /// Human-readable explanation.
    pub message: String,
}

/// The mathematical value of a [`Finding`].
#[verifier::ext_equal]
pub struct FindingModel {
    pub severity: Severity,
    pub message: Seq<char>,
}

impl View for Finding {
    type V = FindingModel;

    open spec fn view(&self) -> FindingModel {
        FindingModel { severity: self.severity, message: self.message@ }
    }
}

/// The values of some findings.
pub open spec fn findings_view(fs: Seq<Finding>) -> Seq<FindingModel> {
    Seq::new(fs.len(), |i: int| fs[i]@)
}

/// Whether any finding is an error.
pub open spec fn any_error(fs: Seq<FindingModel>) -> bool {
    exists|i: int| 0 <= i < fs.len() && (#[trigger] fs[i]).severity == Severity::Error
}

pub open spec fn error(message: Seq<char>) -> FindingModel {
    FindingModel { severity: Severity::Error, message }
}

pub open spec fn warning(message: Seq<char>) -> FindingModel {
    FindingModel { severity: Severity::Warning, message }
}

/// A finding, where the condition holds.
pub open spec fn only_if(cond: bool, f: FindingModel) -> Seq<FindingModel> {
    if cond {
        seq![f]
    } else {
        Seq::empty()
    }
}

// Structure.

pub open spec fn too_many_nodes(n: nat) -> FindingModel {
    error(decimal(n) + " effect nodes exceeds the 8-node maximum"@)
}

pub open spec fn no_effect(i: nat) -> FindingModel {
    error("node "@ + decimal(i) + " has no effect (UID 0)"@)
}

pub open spec fn snapshots_differ(i: nat, a: nat, b: nat) -> FindingModel {
    error(
        "node "@ + decimal(i) + " A/B snapshots differ in length ("@ + decimal(a) + " vs "@
            + decimal(b) + ")"@,
    )
}

pub open spec fn too_many_params(i: nat, n: nat) -> FindingModel {
    error("node "@ + decimal(i) + " has "@ + decimal(n) + " params, exceeds max 16"@)
}

pub open spec fn dangling_edge(i: nat, which: Seq<char>, idx: nat, n: nat) -> FindingModel {
    error(
        "edge "@ + decimal(i) + " "@ + which + " references node "@ + decimal(idx)
            + ", but only "@ + decimal(n) + " nodes exist"@,
    )
}

pub open spec fn dangling_macro(i: nat, slot: nat, n: nat) -> FindingModel {
    error(
        "macro "@ + decimal(i) + " targets slot "@ + decimal(slot) + ", but only "@ + decimal(n)
            + " nodes exist"@,
    )
}

/// The complaints about one node.
pub open spec fn node_findings(i: nat, n: NodeModel) -> Seq<FindingModel> {
    only_if(n.effect_uid == 0, no_effect(i)) + only_if(
        n.params_a.len() != n.params_b.len(),
        snapshots_differ(i, n.params_a.len(), n.params_b.len()),
    ) + only_if(n.params_a.len() > MAX_PARAMS, too_many_params(i, n.params_a.len()))
}

/// The complaints about the nodes, in order.
pub open spec fn nodes_findings(ns: Seq<NodeModel>) -> Seq<FindingModel>
    decreases ns.len(),
{
    if ns.len() == 0 {
        Seq::empty()
    } else {
        nodes_findings(ns.drop_last()) + node_findings((ns.len() - 1) as nat, ns.last())
    }
}

/// The complaint about one end of an edge, in a patch of `n` nodes.
pub open spec fn endpoint_findings(i: nat, which: Seq<char>, e: PatchEndpoint, n: nat) -> Seq<
    FindingModel,
> {
    match e {
        PatchEndpoint::Node(idx) => only_if(
            idx >= n,
            dangling_edge(i, which, idx as nat, n),
        ),
        _ => Seq::empty(),
    }
}

/// The complaints about the edges, in order.
pub open spec fn edges_findings(es: Seq<PatchEdge>, n: nat) -> Seq<FindingModel>
    decreases es.len(),
{
    if es.len() == 0 {
        Seq::empty()
    } else {
        let i = (es.len() - 1) as nat;
        edges_findings(es.drop_last(), n) + endpoint_findings(i, "from"@, es.last().from, n)
            + endpoint_findings(i, "to"@, es.last().to, n)
    }
}

/// The complaint about one mapping of macro `i`.
pub open spec fn mapping_findings(i: nat, m: MacroMappingSpec, n: nat) -> Seq<FindingModel> {
    match m.target {
        MacroTarget::Slot { slot, .. } => only_if(slot >= n, dangling_macro(i, slot as nat, n)),
        MacroTarget::Global(_) => Seq::empty(),
    }
}

/// The complaints about the mappings of macro `i`, in order.
pub open spec fn mappings_findings(i: nat, ms: Seq<MacroMappingSpec>, n: nat) -> Seq<FindingModel>
    decreases ms.len(),
{
    if ms.len() == 0 {
        Seq::empty()
    } else {
        mappings_findings(i, ms.drop_last(), n) + mapping_findings(i, ms.last(), n)
    }
}

/// The complaints about the macros, in order.
pub open spec fn macros_findings(ms: Seq<MacroModel>, n: nat) -> Seq<FindingModel>
    decreases ms.len(),
{
    if ms.len() == 0 {
        Seq::empty()
    } else {
        macros_findings(ms.drop_last(), n) + mappings_findings(
            (ms.len() - 1) as nat,
            ms.last().mappings,
            n,
        )
    }
}

/// The structural complaints about a patch.
pub open spec fn structure_findings(p: PatchModel) -> Seq<FindingModel> {
    only_if(p.nodes.len() > MAX_NODES, too_many_nodes(p.nodes.len())) + nodes_findings(p.nodes)
        + edges_findings(p.edges, p.nodes.len()) + macros_findings(p.macros, p.nodes.len())
}

// Exec.

/// Whether any finding is an error.
pub fn has_errors(findings: &[Finding]) -> (r: bool)
    ensures
        r == any_error(findings_view(findings@)),
        r <==> exists|i: int|
            0 <= i < findings@.len() && (#[trigger] findings@[i]).severity == Severity::Error,
{
    let ghost fs = findings_view(findings@);
    let mut i: usize = 0;
    while i < findings.len()
        invariant
            i <= findings@.len(),
            fs == findings_view(findings@),
            forall|j: int| 0 <= j < i ==> (#[trigger] fs[j]).severity != Severity::Error,
        decreases findings@.len() - i,
    {
        if findings[i].severity == Severity::Error {
            assert(fs[i as int].severity == Severity::Error);
            return true;
        }
        i = i + 1;
    }
    proof {
        assert forall|j: int| 0 <= j < findings@.len() implies (#[trigger] findings@[j]).severity
            != Severity::Error by {
            assert(fs[j] == findings@[j]@);
        }
    }
    false
}

fn push_error(out: &mut Vec<Finding>, message: String)
    ensures
        findings_view(final(out)@) == findings_view(old(out)@).push(error(message@)),
{
    let ghost before = findings_view(out@);
    let ghost text = message@;
    out.push(Finding { severity: Severity::Error, message });
    assert(findings_view(out@) =~= before.push(error(text)));
}

fn push_warning(out: &mut Vec<Finding>, message: String)
    ensures
        findings_view(final(out)@) == findings_view(old(out)@).push(warning(message@)),
{
    let ghost before = findings_view(out@);
    let ghost text = message@;
    out.push(Finding { severity: Severity::Warning, message });
    assert(findings_view(out@) =~= before.push(warning(text)));
}

fn check_node(out: &mut Vec<Finding>, i: usize, node: &PatchNode)
    ensures
        findings_view(final(out)@) == findings_view(old(out)@) + node_findings(i as nat, node@),
{
    if node.effect_uid == 0 {
        let mut m = "node ".to_owned();
        push_decimal(&mut m, i as u128);
        m.append(" has no effect (UID 0)");
        push_error(out, m);
    }
    if node.params_a.len() != node.params_b.len() {
        let mut m = "node ".to_owned();
        push_decimal(&mut m, i as u128);
        m.append(" A/B snapshots differ in length (");
        push_decimal(&mut m, node.params_a.len() as u128);
        m.append(" vs ");
        push_decimal(&mut m, node.params_b.len() as u128);
        m.append(")");
        push_error(out, m);
    }
    if node.params_a.len() > MAX_PARAMS {
        let mut m = "node ".to_owned();
        push_decimal(&mut m, i as u128);
        m.append(" has ");
        push_decimal(&mut m, node.params_a.len() as u128);
        m.append(" params, exceeds max 16");
        push_error(out, m);
    }
    assert(findings_view(out@) =~= findings_view(old(out)@) + node_findings(i as nat, node@));
}

fn check_endpoint(out: &mut Vec<Finding>, i: usize, which: &str, e: PatchEndpoint, n: usize)
    ensures
        findings_view(final(out)@) == findings_view(old(out)@) + endpoint_findings(
            i as nat,
            which@,
            e,
            n as nat,
        ),
{
    if let PatchEndpoint::Node(idx) = e {
        if idx as usize >= n {
            let mut m = "edge ".to_owned();
            push_decimal(&mut m, i as u128);
            m.append(" ");
            m.append(which);
            m.append(" references node ");
            push_decimal(&mut m, idx as u128);
            m.append(", but only ");
            push_decimal(&mut m, n as u128);
            m.append(" nodes exist");
            push_error(out, m);
        }
    }
    assert(findings_view(out@) =~= findings_view(old(out)@) + endpoint_findings(
        i as nat,
        which@,
        e,
        n as nat,
    ));
}

fn check_mapping(out: &mut Vec<Finding>, i: usize, m: &MacroMappingSpec, n: usize)
    ensures
        findings_view(final(out)@) == findings_view(old(out)@) + mapping_findings(
            i as nat,
            *m,
            n as nat,
        ),
{
    if let MacroTarget::Slot { slot, .. } = m.target {
        if slot as usize >= n {
            let mut t = "macro ".to_owned();
            push_decimal(&mut t, i as u128);
            t.append(" targets slot ");
            push_decimal(&mut t, slot as u128);
            t.append(", but only ");
            push_decimal(&mut t, n as u128);
            t.append(" nodes exist");
            push_error(out, t);
        }
    }
    assert(findings_view(out@) =~= findings_view(old(out)@) + mapping_findings(
        i as nat,
        *m,
        n as nat,
    ));
}

/// Structural integrity, independent of any platform.
///
/// Checks node and parameter caps, A/B snapshot agreement, non-zero UIDs, that
/// every node endpoint of an edge names a node, and that macro targets address
/// an existing slot.
pub fn validate_structure(patch: &Patch) -> (out: Vec<Finding>)
    ensures
        findings_view(out@) == structure_findings(patch@),
{
    let mut out: Vec<Finding> = Vec::new();
    assert(findings_view(out@) =~= Seq::empty());
    let count: usize = patch.nodes.len();
    if count > MAX_NODES {
        let mut m = decimal_string(count as u128);
        m.append(" effect nodes exceeds the 8-node maximum");
        push_error(&mut out, m);
    }
    let ghost first = only_if(count > MAX_NODES, too_many_nodes(count as nat));
    assert(findings_view(out@) =~= first);

    let ghost ns = patch@.nodes;
    let mut i: usize = 0;
    assert(findings_view(out@) =~= first + nodes_findings(ns.take(0)));
    while i < count
        invariant
            i <= count,
            count == patch.nodes@.len(),
            ns == patch@.nodes,
            findings_view(out@) == first + nodes_findings(ns.take(i as int)),
        decreases count - i,
    {
        let ghost before = nodes_findings(ns.take(i as int));
        assert(ns.take(i as int + 1).drop_last() =~= ns.take(i as int));
        check_node(&mut out, i, &patch.nodes[i]);
        assert(findings_view(out@) =~= first + (before + node_findings(i as nat, ns[i as int])));
        i = i + 1;
    }
    assert(ns.take(i as int) =~= ns);
    let ghost second = first + nodes_findings(ns);

    let ghost n = count as nat;
    let ghost es = patch.edges@;
    let mut i: usize = 0;
    assert(findings_view(out@) =~= second + edges_findings(es.take(0), n));
    while i < patch.edges.len()
        invariant
            i <= patch.edges@.len(),
            es == patch.edges@,
            n == count,
            findings_view(out@) == second + edges_findings(es.take(i as int), n),
        decreases patch.edges@.len() - i,
    {
        let ghost before = edges_findings(es.take(i as int), n);
        assert(es.take(i as int + 1).drop_last() =~= es.take(i as int));
        let edge = patch.edges[i];
        check_endpoint(&mut out, i, "from", edge.from, count);
        check_endpoint(&mut out, i, "to", edge.to, count);
        assert(findings_view(out@) =~= second + (before + endpoint_findings(
            i as nat,
            "from"@,
            edge.from,
            n,
        ) + endpoint_findings(i as nat, "to"@, edge.to, n)));
        i = i + 1;
    }
    assert(es.take(i as int) =~= es);
    let ghost third = second + edges_findings(es, n);

    let ghost ms = patch@.macros;
    let mut i: usize = 0;
    assert(findings_view(out@) =~= third + macros_findings(ms.take(0), count as nat));
    while i < NUM_MACROS
        invariant
            i <= NUM_MACROS,
            ms == patch@.macros,
            findings_view(out@) == third + macros_findings(ms.take(i as int), count as nat),
        decreases NUM_MACROS - i,
    {
        let ghost before = macros_findings(ms.take(i as int), count as nat);
        assert(ms.take(i as int + 1).drop_last() =~= ms.take(i as int));
        check_mappings(&mut out, i, &patch.macros[i].mappings, count);
        assert(findings_view(out@) =~= third + (before + mappings_findings(
            i as nat,
            ms[i as int].mappings,
            count as nat,
        )));
        i = i + 1;
    }
    assert(ms.take(i as int) =~= ms);
    assert(findings_view(out@) =~= structure_findings(patch@));
    out
}

fn check_mappings(out: &mut Vec<Finding>, i: usize, mappings: &Vec<MacroMappingSpec>, n: usize)
    ensures
        findings_view(final(out)@) == findings_view(old(out)@) + mappings_findings(
            i as nat,
            mappings@,
            n as nat,
        ),
{
    let ghost start = findings_view(out@);
    let mut k: usize = 0;
    assert(start =~= start + mappings_findings(i as nat, mappings@.take(0), n as nat));
    while k < mappings.len()
        invariant
            k <= mappings@.len(),
            findings_view(out@) == start + mappings_findings(
                i as nat,
                mappings@.take(k as int),
                n as nat,
            ),
        decreases mappings@.len() - k,
    {
        let ghost before = mappings_findings(i as nat, mappings@.take(k as int), n as nat);
        assert(mappings@.take(k as int + 1).drop_last() =~= mappings@.take(k as int));
        check_mapping(out, i, &mappings[k], n);
        assert(findings_view(out@) =~= start + (before + mapping_findings(
            i as nat,
            mappings@[k as int],
            n as nat,
        )));
        k = k + 1;
    }
    assert(mappings@.take(k as int) =~= mappings@);
}

// Pedal fit.

/// Per-effect cost data that the pedal owns.
pub struct PedalLimits<'a> {
    /// Effect UIDs that the pedal firmware can instantiate.
    pub allowed_uids: &'a [u16],
    /// `(uid, cycles_per_block)`.
    pub cycle_table: &'a [(u16, u32)],
    /// `(uid, sdram_bytes)`.
    pub sdram_table: &'a [(u16, u32)],
    /// Audio-block cycle budget; 0 means none.
    pub cycle_budget: u32,
    /// Warn once the estimate crosses this fraction of the budget.
    pub warn_fraction: Bits,
    /// Total SDRAM available to effects (bytes); 0 means no limit.
    pub sdram_budget: u32,
}

/// How an estimate compares with the budget, in floating point.
#[derive(Clone, Copy, Debug, PartialEq, Eq, Structural)]
pub struct CpuShare {
    /// Whether the estimate is over the warning fraction of the budget.
    pub over_warning: bool,
    /// The estimate in percent of the budget, rounded.
    pub percent: u64,
}

/// Cycles of graph scheduling and buffers per node.
pub const NODE_OVERHEAD: u32 = 400;

/// What the nodes cost by a table, as far as it says.
pub open spec fn summed(ns: Seq<NodeModel>, table: Seq<(u16, u32)>) -> nat
    decreases ns.len(),
{
    if ns.len() == 0 {
        0
    } else {
        summed(ns.drop_last(), table) + match looked_up(table, ns.last().effect_uid) {
            Some(c) => c as nat,
            None => 0,
        }
    }
}

/// The estimated cycles per block: the sum over the nodes, and the overhead of
/// each.
pub open spec fn cycles_of(ns: Seq<NodeModel>, table: Seq<(u16, u32)>) -> nat {
    summed(ns, table) + NODE_OVERHEAD as nat * ns.len()
}

/// Whether the table is silent on one of the nodes.
pub open spec fn some_unmeasured(ns: Seq<NodeModel>, table: Seq<(u16, u32)>) -> bool {
    exists|i: int| 0 <= i < ns.len() && looked_up(table, (#[trigger] ns[i]).effect_uid) is None
}

pub open spec fn not_on_pedal(i: nat, uid: nat) -> FindingModel {
    error("node "@ + decimal(i) + " (UID "@ + decimal(uid) + ") is not available on the pedal"@)
}

/// The complaints about effects that the pedal does not have, in order.
pub open spec fn effect_set_findings(ns: Seq<NodeModel>, allowed: Seq<u16>) -> Seq<FindingModel>
    decreases ns.len(),
{
    if ns.len() == 0 {
        Seq::empty()
    } else {
        effect_set_findings(ns.drop_last(), allowed) + only_if(
            !allowed.contains(ns.last().effect_uid),
            not_on_pedal((ns.len() - 1) as nat, ns.last().effect_uid as nat),
        )
    }
}

pub open spec fn unmeasured() -> FindingModel {
    warning("some effects have no measured cycle data; CPU estimate is a lower bound"@)
}

pub open spec fn over_budget(total: nat, budget: nat) -> FindingModel {
    error(
        "estimated "@ + decimal(total) + " cycles/block exceeds the "@ + decimal(budget)
            + " budget \u{2014} this patch will not run in real time on the pedal"@,
    )
}

pub open spec fn near_budget(total: nat, percent: nat) -> FindingModel {
    warning(
        "estimated "@ + decimal(total) + " cycles/block is "@ + decimal(percent)
            + "% of the budget"@,
    )
}

pub open spec fn over_sdram(total: nat, budget: nat) -> FindingModel {
    warning(
        "estimated "@ + decimal(total) + " bytes SDRAM exceeds the "@ + decimal(budget)
            + " budget"@,
    )
}

/// The complaint about the CPU estimate, if any.
pub open spec fn cpu_findings(total: nat, budget: nat, share: CpuShare) -> Seq<FindingModel> {
    if budget == 0 {
        Seq::empty()
    } else if total > budget {
        seq![over_budget(total, budget)]
    } else {
        only_if(share.over_warning, near_budget(total, share.percent as nat))
    }
}

/// Everything that stands against running a patch on the pedal.
pub open spec fn pedal_findings(p: PatchModel, limits: PedalLimits, share: CpuShare) -> Seq<
    FindingModel,
> {
    structure_findings(p) + effect_set_findings(p.nodes, limits.allowed_uids@) + only_if(
        some_unmeasured(p.nodes, limits.cycle_table@),
        unmeasured(),
    ) + cpu_findings(
        cycles_of(p.nodes, limits.cycle_table@),
        limits.cycle_budget as nat,
        share,
    ) + only_if(
        limits.sdram_budget > 0 && summed(p.nodes, limits.sdram_table@) > limits.sdram_budget,
        over_sdram(summed(p.nodes, limits.sdram_table@), limits.sdram_budget as nat),
    )
}

/// What the nodes cost by a table, and whether it is silent on one of them.
fn sum_costs(nodes: &Vec<PatchNode>, table: &[(u16, u32)]) -> (r: (u128, bool))
    ensures
        r.0 == summed(nodes_view(nodes@), table@),
        r.0 <= nodes@.len() * u32::MAX,
        r.1 == some_unmeasured(nodes_view(nodes@), table@),
{
    let ghost ns = nodes_view(nodes@);
    let mut total: u128 = 0;
    let mut missing: bool = false;
    let mut i: usize = 0;
    while i < nodes.len()
        invariant
            i <= nodes@.len(),
            ns == nodes_view(nodes@),
            total == summed(ns.take(i as int), table@),
            total <= i * u32::MAX,
            missing == exists|j: int|
                0 <= j < i && looked_up(table@, (#[trigger] ns[j]).effect_uid) is None,
        decreases nodes@.len() - i,
    {
        assert(ns.take(i as int + 1).drop_last() =~= ns.take(i as int));
        assert(ns[i as int].effect_uid == nodes@[i as int].effect_uid);
        match lookup(table, nodes[i].effect_uid) {
            Some(c) => {
                total = total + c as u128;
            },
            None => {
                missing = true;
            },
        }
        i = i + 1;
    }
    assert(ns.take(i as int) =~= ns);
    (total, missing)
}

/// The estimated cycles per block of a patch, node overhead included.
pub fn estimated_cycles(patch: &Patch, cycle_table: &[(u16, u32)]) -> (total: u128)
    ensures
        total == cycles_of(patch@.nodes, cycle_table@),
{
    let (sum, _) = sum_costs(&patch.nodes, cycle_table);
    sum + NODE_OVERHEAD as u128 * patch.nodes.len() as u128
}

fn contains_uid(uids: &[u16], uid: u16) -> (r: bool)
    ensures
        r == uids@.contains(uid),
{
    let mut i: usize = 0;
    while i < uids.len()
        invariant
            i <= uids@.len(),
            forall|j: int| 0 <= j < i ==> uids@[j] != uid,
        decreases uids@.len() - i,
    {
        if uids[i] == uid {
            return true;
        }
        i = i + 1;
    }
    false
}

fn check_effect_set(out: &mut Vec<Finding>, nodes: &Vec<PatchNode>, allowed: &[u16])
    ensures
        findings_view(final(out)@) == findings_view(old(out)@) + effect_set_findings(
            nodes_view(nodes@),
            allowed@,
        ),
{
    let ghost start = findings_view(out@);
    let ghost ns = nodes_view(nodes@);
    let mut i: usize = 0;
    assert(start =~= start + effect_set_findings(ns.take(0), allowed@));
    while i < nodes.len()
        invariant
            i <= nodes@.len(),
            ns == nodes_view(nodes@),
            findings_view(out@) == start + effect_set_findings(ns.take(i as int), allowed@),
        decreases nodes@.len() - i,
    {
        let ghost before = effect_set_findings(ns.take(i as int), allowed@);
        assert(ns.take(i as int + 1).drop_last() =~= ns.take(i as int));
        let uid: u16 = nodes[i].effect_uid;
        if !contains_uid(allowed, uid) {
            let mut m = "node ".to_owned();
            push_decimal(&mut m, i as u128);
            m.append(" (UID ");
            push_decimal(&mut m, uid as u128);
            m.append(") is not available on the pedal");
            push_error(out, m);
        }
        assert(findings_view(out@) =~= start + (before + only_if(
            !allowed@.contains(uid),
            not_on_pedal(i as nat, uid as nat),
        )));
        i = i + 1;
    }
    assert(ns.take(i as int) =~= ns);
}

fn check_cpu(out: &mut Vec<Finding>, total: u128, budget: u32, share: CpuShare)
    ensures
        findings_view(final(out)@) == findings_view(old(out)@) + cpu_findings(
            total as nat,
            budget as nat,
            share,
        ),
{
    if budget > 0 {
        if total > budget as u128 {
            let mut m = "estimated ".to_owned();
            push_decimal(&mut m, total);
            m.append(" cycles/block exceeds the ");
            push_decimal(&mut m, budget as u128);
            m.append(" budget \u{2014} this patch will not run in real time on the pedal");
            push_error(out, m);
        } else if share.over_warning {
            let mut m = "estimated ".to_owned();
            push_decimal(&mut m, total);
            m.append(" cycles/block is ");
            push_decimal(&mut m, share.percent as u128);
            m.append("% of the budget");
            push_warning(out, m);
        }
    }
    assert(findings_view(out@) =~= findings_view(old(out)@) + cpu_findings(
        total as nat,
        budget as nat,
        share,
    ));
}

/// Pedal-fit validation: structural checks, then effect set, CPU and memory
/// budgets. `share` says how [`estimated_cycles`] compares with the budget; it
/// matters only within the budget.
///
/// Gives all findings; the caller refuses export exactly if [`has_errors`].
pub fn validate_for_pedal(patch: &Patch, limits: &PedalLimits, share: CpuShare) -> (out: Vec<
    Finding,
>)
    ensures
        findings_view(out@) == pedal_findings(patch@, *limits, share),
{
    let mut out = validate_structure(patch);
    check_effect_set(&mut out, &patch.nodes, limits.allowed_uids);
    let (_, missing) = sum_costs(&patch.nodes, limits.cycle_table);
    let ghost before = findings_view(out@);
    if missing {
        push_warning(
            &mut out,
            "some effects have no measured cycle data; CPU estimate is a lower bound".to_owned(),
        );
    }
    assert(findings_view(out@) =~= before + only_if(missing, unmeasured()));
    let total: u128 = estimated_cycles(patch, limits.cycle_table);
    check_cpu(&mut out, total, limits.cycle_budget, share);
    let (sdram, _) = sum_costs(&patch.nodes, limits.sdram_table);
    let ghost before = findings_view(out@);
    if limits.sdram_budget > 0 && sdram > limits.sdram_budget as u128 {
        let mut m = "estimated ".to_owned();
        push_decimal(&mut m, sdram);
        m.append(" bytes SDRAM exceeds the ");
        push_decimal(&mut m, limits.sdram_budget as u128);
        m.append(" budget");
        push_warning(&mut out, m);
    }
    assert(findings_view(out@) =~= before + only_if(
        limits.sdram_budget > 0 && sdram > limits.sdram_budget,
        over_sdram(sdram as nat, limits.sdram_budget as nat),
    ));
    out
}

// Laws.

/// A node without a structural complaint.
pub open spec fn sound_node(n: NodeModel) -> bool {
    n.effect_uid != 0 && n.params_a.len() == n.params_b.len() <= MAX_PARAMS
}

/// An endpoint that exists in a patch of `n` nodes.
pub open spec fn sound_endpoint(e: PatchEndpoint, n: nat) -> bool {
    e matches PatchEndpoint::Node(i) ==> i < n
}

/// A mapping whose target exists in a patch of `n` nodes.
pub open spec fn sound_mapping(m: MacroMappingSpec, n: nat) -> bool {
    m.target matches MacroTarget::Slot { slot, .. } ==> slot < n
}

/// A patch that is structurally sound.
pub open spec fn sound(p: PatchModel) -> bool {
    let n = p.nodes.len();
    &&& n <= MAX_NODES
    &&& forall|i: int| 0 <= i < n ==> sound_node(#[trigger] p.nodes[i])
    &&& forall|i: int|
        0 <= i < p.edges.len() ==> sound_endpoint((#[trigger] p.edges[i]).from, n)
            && sound_endpoint(p.edges[i].to, n)
    &&& forall|i: int, k: int|
        0 <= i < p.macros.len() && 0 <= k < p.macros[i].mappings.len() ==> sound_mapping(
            #[trigger] p.macros[i].mappings[k],
            n,
        )
}

proof fn nodes_findings_none(ns: Seq<NodeModel>)
    ensures
        nodes_findings(ns).len() == 0 <==> forall|i: int|
            0 <= i < ns.len() ==> sound_node(#[trigger] ns[i]),
        forall|k: int|
            0 <= k < nodes_findings(ns).len() ==> (#[trigger] nodes_findings(ns)[k]).severity
                == Severity::Error,
    decreases ns.len(),
{
    if ns.len() > 0 {
        let front = ns.drop_last();
        nodes_findings_none(front);
        assert(ns[ns.len() - 1] == ns.last());
        assert forall|i: int| 0 <= i < front.len() implies #[trigger] front[i] == ns[i] by {}
        if nodes_findings(ns).len() == 0 {
            assert forall|i: int| 0 <= i < ns.len() implies sound_node(#[trigger] ns[i]) by {
                if i < front.len() {
                    assert(sound_node(front[i]));
                }
            }
        } else if forall|i: int| 0 <= i < ns.len() ==> sound_node(#[trigger] ns[i]) {
            assert forall|i: int| 0 <= i < front.len() implies sound_node(#[trigger] front[i]) by {
                assert(sound_node(ns[i]));
            }
        }
    }
}

proof fn edges_findings_none(es: Seq<PatchEdge>, n: nat)
    ensures
        edges_findings(es, n).len() == 0 <==> forall|i: int|
            0 <= i < es.len() ==> sound_endpoint((#[trigger] es[i]).from, n)
                && sound_endpoint(es[i].to, n),
        forall|k: int|
            0 <= k < edges_findings(es, n).len() ==> (#[trigger] edges_findings(es, n)[k]).severity
                == Severity::Error,
    decreases es.len(),
{
    if es.len() > 0 {
        let front = es.drop_last();
        edges_findings_none(front, n);
        assert(es[es.len() - 1] == es.last());
        if edges_findings(es, n).len() == 0 {
            assert forall|i: int| 0 <= i < es.len() implies sound_endpoint(
                (#[trigger] es[i]).from,
                n,
            ) && sound_endpoint(es[i].to, n) by {
                if i < front.len() {
                    assert(front[i] == es[i]);
                }
            }
        } else if forall|i: int|
            0 <= i < es.len() ==> sound_endpoint((#[trigger] es[i]).from, n)
                && sound_endpoint(es[i].to, n) {
            assert forall|i: int| 0 <= i < front.len() implies sound_endpoint(
                (#[trigger] front[i]).from,
                n,
            ) && sound_endpoint(front[i].to, n) by {
                assert(front[i] == es[i]);
            }
        }
    }
}

proof fn mappings_findings_none(i: nat, ms: Seq<MacroMappingSpec>, n: nat)
    ensures
        mappings_findings(i, ms, n).len() == 0 <==> forall|k: int|
            0 <= k < ms.len() ==> sound_mapping(#[trigger] ms[k], n),
        forall|k: int|
            0 <= k < mappings_findings(i, ms, n).len() ==> (#[trigger] mappings_findings(
                i,
                ms,
                n,
            )[k]).severity == Severity::Error,
    decreases ms.len(),
{
    if ms.len() > 0 {
        let front = ms.drop_last();
        mappings_findings_none(i, front, n);
        assert(ms[ms.len() - 1] == ms.last());
        if mappings_findings(i, ms, n).len() == 0 {
            assert forall|k: int| 0 <= k < ms.len() implies sound_mapping(#[trigger] ms[k], n) by {
                if k < front.len() {
                    assert(front[k] == ms[k]);
                }
            }
        } else if forall|k: int| 0 <= k < ms.len() ==> sound_mapping(#[trigger] ms[k], n) {
            assert forall|k: int| 0 <= k < front.len() implies sound_mapping(
                #[trigger] front[k],
                n,
            ) by {
                assert(front[k] == ms[k]);
            }
        }
    }
}

proof fn macros_findings_none(ms: Seq<MacroModel>, n: nat)
    ensures
        macros_findings(ms, n).len() == 0 <==> forall|i: int, k: int|
            0 <= i < ms.len() && 0 <= k < ms[i].mappings.len() ==> sound_mapping(
                #[trigger] ms[i].mappings[k],
                n,
            ),
        forall|k: int|
            0 <= k < macros_findings(ms, n).len() ==> (#[trigger] macros_findings(
                ms,
                n,
            )[k]).severity == Severity::Error,
    decreases ms.len(),
{
    if ms.len() > 0 {
        let front = ms.drop_last();
        let last = (ms.len() - 1) as nat;
        macros_findings_none(front, n);
        mappings_findings_none(last, ms.last().mappings, n);
        assert(ms[ms.len() - 1] == ms.last());
        if macros_findings(ms, n).len() == 0 {
            assert forall|i: int, k: int|
                0 <= i < ms.len() && 0 <= k < ms[i].mappings.len() implies sound_mapping(
                #[trigger] ms[i].mappings[k],
                n,
            ) by {
                if i < front.len() {
                    assert(sound_mapping(front[i].mappings[k], n));
                }
            }
        } else if forall|i: int, k: int|
            0 <= i < ms.len() && 0 <= k < ms[i].mappings.len() ==> sound_mapping(
                #[trigger] ms[i].mappings[k],
                n,
            ) {
            assert forall|i: int, k: int|
                0 <= i < front.len() && 0 <= k < front[i].mappings.len() implies sound_mapping(
                #[trigger] front[i].mappings[k],
                n,
            ) by {
                assert(sound_mapping(ms[i].mappings[k], n));
            }
            assert forall|k: int| 0 <= k < ms.last().mappings.len() implies sound_mapping(
                #[trigger] ms.last().mappings[k],
                n,
            ) by {
                assert(sound_mapping(ms[ms.len() - 1].mappings[k], n));
            }
        }
    }
}

/// The structural check has an error exactly for a patch that is not sound:
/// every structural finding is an error, and a sound patch has none.
pub proof fn structure_errors_iff_unsound(p: PatchModel)
    ensures
        any_error(structure_findings(p)) <==> !sound(p),
        structure_findings(p).len() == 0 <==> sound(p),
        forall|i: int|
            0 <= i < structure_findings(p).len() ==> (#[trigger] structure_findings(p)[i]).severity
                == Severity::Error,
{
    let n = p.nodes.len();
    let fs = structure_findings(p);
    nodes_findings_none(p.nodes);
    edges_findings_none(p.edges, n);
    macros_findings_none(p.macros, n);
    let a = only_if(n > MAX_NODES, too_many_nodes(n));
    let b = nodes_findings(p.nodes);
    let c = edges_findings(p.edges, n);
    let d = macros_findings(p.macros, n);
    assert(fs.len() == a.len() + b.len() + c.len() + d.len());
    assert forall|k: int| 0 <= k < fs.len() implies (#[trigger] fs[k]).severity
        == Severity::Error by {
        let x = k - a.len();
        let y = x - b.len();
        let z = y - c.len();
        if k < a.len() {
            assert(fs[k] == a[k]);
        } else if x < b.len() {
            assert(fs[k] == b[x]);
        } else if y < c.len() {
            assert(fs[k] == c[y]);
        } else {
            assert(fs[k] == d[z]);
        }
    }
    if fs.len() > 0 {
        assert(fs[0].severity == Severity::Error);
    }
}

/// A sound patch has nothing that keeps it out of a sector but its size.
pub proof fn sound_patches_have_no_fault(p: PatchModel)
    requires
        sound(p),
    ensures
        patch_fault(p) is None,
{
    sound_nodes_have_no_fault(p.nodes);
}

proof fn sound_nodes_have_no_fault(ns: Seq<NodeModel>)
    requires
        forall|i: int| 0 <= i < ns.len() ==> sound_node(#[trigger] ns[i]),
    ensures
        node_fault(ns) is None,
    decreases ns.len(),
{
    if ns.len() > 0 {
        let front = ns.drop_last();
        assert forall|i: int| 0 <= i < front.len() implies sound_node(#[trigger] front[i]) by {
            assert(sound_node(ns[i]));
        }
        sound_nodes_have_no_fault(front);
        assert(sound_node(ns[ns.len() - 1]));
    }
}

/// Findings put together have an error exactly if one of them has.
proof fn any_error_concat(a: Seq<FindingModel>, b: Seq<FindingModel>)
    ensures
        any_error(a + b) <==> any_error(a) || any_error(b),
{
    let all = a + b;
    if any_error(a) {
        let i = choose|i: int| 0 <= i < a.len() && (#[trigger] a[i]).severity == Severity::Error;
        assert(all[i] == a[i]);
    }
    if any_error(b) {
        let i = choose|i: int| 0 <= i < b.len() && (#[trigger] b[i]).severity == Severity::Error;
        assert(all[a.len() + i] == b[i]);
    }
    if any_error(all) {
        let i = choose|i: int|
            0 <= i < all.len() && (#[trigger] all[i]).severity == Severity::Error;
        if i < a.len() {
            assert(a[i] == all[i]);
        } else {
            assert(b[i - a.len()] == all[i]);
        }
    }
}

proof fn effect_set_errors(ns: Seq<NodeModel>, allowed: Seq<u16>)
    ensures
        any_error(effect_set_findings(ns, allowed)) <==> exists|i: int|
            0 <= i < ns.len() && !allowed.contains((#[trigger] ns[i]).effect_uid),
    decreases ns.len(),
{
    if ns.len() > 0 {
        let front = ns.drop_last();
        let last = only_if(
            !allowed.contains(ns.last().effect_uid),
            not_on_pedal((ns.len() - 1) as nat, ns.last().effect_uid as nat),
        );
        effect_set_errors(front, allowed);
        any_error_concat(effect_set_findings(front, allowed), last);
        if !allowed.contains(ns.last().effect_uid) {
            assert(last[0].severity == Severity::Error);
            assert(!allowed.contains(ns[ns.len() - 1].effect_uid));
        }
        if any_error(effect_set_findings(front, allowed)) {
            let i = choose|i: int|
                0 <= i < front.len() && !allowed.contains((#[trigger] front[i]).effect_uid);
            assert(!allowed.contains(ns[i].effect_uid));
        }
        if exists|i: int| 0 <= i < ns.len() && !allowed.contains((#[trigger] ns[i]).effect_uid) {
            let i = choose|i: int|
                0 <= i < ns.len() && !allowed.contains((#[trigger] ns[i]).effect_uid);
            if i < front.len() {
                assert(!allowed.contains(front[i].effect_uid));
            }
        }
    }
}

/// The pedal refuses a patch exactly if it is not sound, has an effect that the
/// pedal does not have, or is estimated over a cycle budget. Memory, missing
/// cost data and the warning threshold never refuse one.
pub proof fn pedal_refuses_iff(p: PatchModel, limits: PedalLimits, share: CpuShare)
    ensures
        any_error(pedal_findings(p, limits, share)) <==> {
            ||| !sound(p)
            ||| exists|i: int|
                0 <= i < p.nodes.len() && !limits.allowed_uids@.contains(
                    (#[trigger] p.nodes[i]).effect_uid,
                )
            ||| 0 < limits.cycle_budget < cycles_of(p.nodes, limits.cycle_table@)
        },
{
    let a = structure_findings(p);
    let b = effect_set_findings(p.nodes, limits.allowed_uids@);
    let c = only_if(some_unmeasured(p.nodes, limits.cycle_table@), unmeasured());
    let total = cycles_of(p.nodes, limits.cycle_table@);
    let d = cpu_findings(total, limits.cycle_budget as nat, share);
    let sdram = summed(p.nodes, limits.sdram_table@);
    let e = only_if(
        limits.sdram_budget > 0 && sdram > limits.sdram_budget,
        over_sdram(sdram, limits.sdram_budget as nat),
    );
    structure_errors_iff_unsound(p);
    effect_set_errors(p.nodes, limits.allowed_uids@);
    any_error_concat(a + b + c + d, e);
    any_error_concat(a + b + c, d);
    any_error_concat(a + b, c);
    any_error_concat(a, b);
    if 0 < limits.cycle_budget < total {
        assert(d[0].severity == Severity::Error);
    }
}

/// The structural check finds nothing exactly in a patch of at most eight nodes
/// that all have an effect and two snapshots of one length, at most sixteen values
/// long, whose edges and macros name nodes that are there. Whatever it finds is an
/// error.
pub proof fn what_is_structurally_sound(patch: Patch, out: Seq<Finding>)
    requires
        findings_view(out) == structure_findings(patch@),
    ensures
        forall|k: int| 0 <= k < out.len() ==> (#[trigger] out[k]).severity == Severity::Error,
        out.len() == 0 <==> {
            let n = patch.nodes@.len();
            &&& n <= 8
            &&& forall|i: int| 0 <= i < n ==> (#[trigger] patch.nodes@[i]).effect_uid != 0
            &&& forall|i: int|
                0 <= i < n ==> (#[trigger] patch.nodes@[i]).params_a@.len()
                    == patch.nodes@[i].params_b@.len()
            &&& forall|i: int| 0 <= i < n ==> (#[trigger] patch.nodes@[i]).params_a@.len() <= 16
            &&& forall|i: int|
                0 <= i < patch.edges@.len() ==> ((#[trigger] patch.edges@[i]).from matches
                PatchEndpoint::Node(k) ==> k < n)
            &&& forall|i: int|
                0 <= i < patch.edges@.len() ==> ((#[trigger] patch.edges@[i]).to matches
                PatchEndpoint::Node(k) ==> k < n)
            &&& forall|i: int, k: int|
                0 <= i < 6 && 0 <= k < patch.macros@[i].mappings@.len() ==> ((
                #[trigger] patch.macros@[i].mappings@[k]).target matches MacroTarget::Slot {
                    slot,
                    ..
                } ==> slot < n)
        },
{
    let p = patch@;
    let n = p.nodes.len();
    let fs = findings_view(out);
    structure_errors_iff_unsound(p);
    assert(fs.len() == out.len());
    assert forall|k: int| 0 <= k < out.len() implies (#[trigger] out[k]).severity
        == Severity::Error by {
        assert(fs[k] == out[k]@);
    }
    assert forall|i: int| 0 <= i < n implies p.nodes[i] == (#[trigger] patch.nodes@[i])@ by {}
    assert forall|i: int| 0 <= i < 6 implies (#[trigger] p.macros[i]) == patch.macros@[i]@ by {}
    if sound(p) {
        assert forall|i: int| 0 <= i < n implies sound_node((#[trigger] patch.nodes@[i])@) by {
            assert(sound_node(p.nodes[i]));
        }
        assert forall|i: int, k: int|
            0 <= i < 6 && 0 <= k < patch.macros@[i].mappings@.len() implies sound_mapping(
            #[trigger] patch.macros@[i].mappings@[k],
            n,
        ) by {
            assert(p.macros[i].mappings[k] == patch.macros@[i].mappings@[k]);
        }
    } else {
        if forall|i: int| 0 <= i < n ==> sound_node((#[trigger] patch.nodes@[i])@) {
            assert forall|i: int| 0 <= i < n implies sound_node(#[trigger] p.nodes[i]) by {
                assert(sound_node(patch.nodes@[i]@));
            }
        }
        if forall|i: int, k: int|
            0 <= i < 6 && 0 <= k < patch.macros@[i].mappings@.len() ==> sound_mapping(
                #[trigger] patch.macros@[i].mappings@[k],
                n,
            ) {
            assert forall|i: int, k: int|
                0 <= i < p.macros.len() && 0 <= k < p.macros[i].mappings.len() implies sound_mapping(
                #[trigger] p.macros[i].mappings[k],
                n,
            ) by {
                assert(p.macros[i].mappings[k] == patch.macros@[i].mappings@[k]);
            }
        }
    }
}

/// What is found in a part is found in the whole.
proof fn found_in_whole(a: Seq<FindingModel>, b: Seq<FindingModel>, f: FindingModel)
    ensures
        (a + b).contains(f) <==> a.contains(f) || b.contains(f),
{
    let all = a + b;
    if a.contains(f) {
        assert(all[a.index_of(f)] == f);
    }
    if b.contains(f) {
        assert(all[a.len() + b.index_of(f)] == f);
    }
    if all.contains(f) {
        let i = all.index_of(f);
        if i < a.len() {
            assert(a[i] == f);
        } else {
            assert(b[i - a.len()] == f);
        }
    }
}

proof fn node_findings_are_listed(ns: Seq<NodeModel>, i: int, f: FindingModel)
    requires
        0 <= i < ns.len(),
        node_findings(i as nat, ns[i]).contains(f),
    ensures
        nodes_findings(ns).contains(f),
    decreases ns.len(),
{
    let front = ns.drop_last();
    found_in_whole(nodes_findings(front), node_findings((ns.len() - 1) as nat, ns.last()), f);
    if i < front.len() {
        assert(front[i] == ns[i]);
        node_findings_are_listed(front, i, f);
    }
}

proof fn edge_findings_are_listed(es: Seq<PatchEdge>, n: nat, i: int, f: FindingModel)
    requires
        0 <= i < es.len(),
        endpoint_findings(i as nat, "from"@, es[i].from, n).contains(f) || endpoint_findings(
            i as nat,
            "to"@,
            es[i].to,
            n,
        ).contains(f),
    ensures
        edges_findings(es, n).contains(f),
    decreases es.len(),
{
    let front = es.drop_last();
    let last = (es.len() - 1) as nat;
    let a = edges_findings(front, n);
    let b = endpoint_findings(last, "from"@, es.last().from, n);
    let c = endpoint_findings(last, "to"@, es.last().to, n);
    found_in_whole(a + b, c, f);
    found_in_whole(a, b, f);
    if i < front.len() {
        assert(front[i] == es[i]);
        edge_findings_are_listed(front, n, i, f);
    }
}

proof fn mapping_findings_are_listed(
    i: nat,
    ms: Seq<MacroMappingSpec>,
    n: nat,
    k: int,
    f: FindingModel,
)
    requires
        0 <= k < ms.len(),
        mapping_findings(i, ms[k], n).contains(f),
    ensures
        mappings_findings(i, ms, n).contains(f),
    decreases ms.len(),
{
    let front = ms.drop_last();
    found_in_whole(mappings_findings(i, front, n), mapping_findings(i, ms.last(), n), f);
    if k < front.len() {
        assert(front[k] == ms[k]);
        mapping_findings_are_listed(i, front, n, k, f);
    }
}

proof fn macro_findings_are_listed(ms: Seq<MacroModel>, n: nat, i: int, k: int, f: FindingModel)
    requires
        0 <= i < ms.len(),
        0 <= k < ms[i].mappings.len(),
        mapping_findings(i as nat, ms[i].mappings[k], n).contains(f),
    ensures
        macros_findings(ms, n).contains(f),
    decreases ms.len(),
{
    let front = ms.drop_last();
    let last = (ms.len() - 1) as nat;
    found_in_whole(macros_findings(front, n), mappings_findings(last, ms.last().mappings, n), f);
    if i < front.len() {
        assert(front[i] == ms[i]);
        macro_findings_are_listed(front, n, i, k, f);
    } else {
        mapping_findings_are_listed(last, ms.last().mappings, n, k, f);
    }
}

/// Whether an error with a text is among some findings.
pub open spec fn says_error(out: Seq<Finding>, text: Seq<char>) -> bool {
    exists|k: int|
        0 <= k < out.len() && (#[trigger] out[k]).severity == Severity::Error && out[k].message@
            == text
}

/// Whether a warning with a text is among some findings.
pub open spec fn says_warning(out: Seq<Finding>, text: Seq<char>) -> bool {
    exists|k: int|
        0 <= k < out.len() && (#[trigger] out[k]).severity == Severity::Warning && out[k].message@
            == text
}

proof fn said(out: Seq<Finding>, f: FindingModel)
    requires
        findings_view(out).contains(f),
    ensures
        f.severity == Severity::Error ==> says_error(out, f.message),
        f.severity == Severity::Warning ==> says_warning(out, f.message),
{
    let k = findings_view(out).index_of(f);
    assert(findings_view(out)[k] == out[k]@);
    assert(out[k].message@ == f.message);
}

/// Every fault of a node is named, with the number of the node.
pub proof fn faults_of_nodes_are_named(patch: Patch, out: Seq<Finding>, i: int)
    requires
        findings_view(out) == structure_findings(patch@),
        0 <= i < patch.nodes@.len(),
    ensures
        patch.nodes@.len() > 8 ==> says_error(
            out,
            decimal(patch.nodes@.len()) + " effect nodes exceeds the 8-node maximum"@,
        ),
        patch.nodes@[i].effect_uid == 0 ==> says_error(
            out,
            "node "@ + decimal(i as nat) + " has no effect (UID 0)"@,
        ),
        patch.nodes@[i].params_a@.len() != patch.nodes@[i].params_b@.len() ==> says_error(
            out,
            "node "@ + decimal(i as nat) + " A/B snapshots differ in length ("@ + decimal(
                patch.nodes@[i].params_a@.len(),
            ) + " vs "@ + decimal(patch.nodes@[i].params_b@.len()) + ")"@,
        ),
        patch.nodes@[i].params_a@.len() > 16 ==> says_error(
            out,
            "node "@ + decimal(i as nat) + " has "@ + decimal(patch.nodes@[i].params_a@.len())
                + " params, exceeds max 16"@,
        ),
{
    let p = patch@;
    let n = p.nodes.len();
    let node = p.nodes[i];
    assert(node == patch.nodes@[i]@);
    let z = only_if(n > MAX_NODES, too_many_nodes(n));
    let a = nodes_findings(p.nodes);
    let b = edges_findings(p.edges, n);
    let c = macros_findings(p.macros, n);
    let x = only_if(node.effect_uid == 0, no_effect(i as nat));
    let y = only_if(
        node.params_a.len() != node.params_b.len(),
        snapshots_differ(i as nat, node.params_a.len(), node.params_b.len()),
    );
    let w = only_if(node.params_a.len() > MAX_PARAMS, too_many_params(i as nat, node.params_a.len()));
    assert forall|f: FindingModel| #[trigger] findings_view(out).contains(f) <==> z.contains(f)
        || a.contains(f) || b.contains(f) || c.contains(f) by {
        found_in_whole(z + a + b, c, f);
        found_in_whole(z + a, b, f);
        found_in_whole(z, a, f);
    }
    assert forall|f: FindingModel| x.contains(f) || y.contains(f) || w.contains(f) implies
        #[trigger] findings_view(out).contains(f) by {
        found_in_whole(x + y, w, f);
        found_in_whole(x, y, f);
        node_findings_are_listed(p.nodes, i, f);
    }
    if n > 8 {
        assert(z[0] == too_many_nodes(n));
        said(out, z[0]);
    }
    if node.effect_uid == 0 {
        assert(x[0] == no_effect(i as nat));
        said(out, x[0]);
    }
    if node.params_a.len() != node.params_b.len() {
        let f = snapshots_differ(i as nat, node.params_a.len(), node.params_b.len());
        assert(y[0] == f);
        said(out, f);
    }
    if node.params_a.len() > 16 {
        let f = too_many_params(i as nat, node.params_a.len());
        assert(w[0] == f);
        said(out, f);
    }
}

/// Every edge and every macro that names a node that is not there is named.
pub proof fn dangling_references_are_named(
    patch: Patch,
    out: Seq<Finding>,
    i: int,
    k: int,
)
    requires
        findings_view(out) == structure_findings(patch@),
    ensures
        0 <= i < patch.edges@.len() ==> (patch.edges@[i].from matches PatchEndpoint::Node(x) ==> x
            >= patch.nodes@.len() ==> says_error(
            out,
            "edge "@ + decimal(i as nat) + " "@ + "from"@ + " references node "@ + decimal(
                x as nat,
            ) + ", but only "@ + decimal(patch.nodes@.len()) + " nodes exist"@,
        )),
        0 <= i < patch.edges@.len() ==> (patch.edges@[i].to matches PatchEndpoint::Node(x) ==> x
            >= patch.nodes@.len() ==> says_error(
            out,
            "edge "@ + decimal(i as nat) + " "@ + "to"@ + " references node "@ + decimal(
                x as nat,
            ) + ", but only "@ + decimal(patch.nodes@.len()) + " nodes exist"@,
        )),
        0 <= i < 6 && 0 <= k < patch.macros@[i].mappings@.len() ==> (
        patch.macros@[i].mappings@[k].target matches MacroTarget::Slot { slot, .. } ==> slot
            >= patch.nodes@.len() ==> says_error(
            out,
            "macro "@ + decimal(i as nat) + " targets slot "@ + decimal(slot as nat)
                + ", but only "@ + decimal(patch.nodes@.len()) + " nodes exist"@,
        )),
{
    let p = patch@;
    let n = p.nodes.len();
    let z = only_if(n > MAX_NODES, too_many_nodes(n));
    let a = nodes_findings(p.nodes);
    let b = edges_findings(p.edges, n);
    let c = macros_findings(p.macros, n);
    assert forall|f: FindingModel| #[trigger] findings_view(out).contains(f) <==> z.contains(f)
        || a.contains(f) || b.contains(f) || c.contains(f) by {
        found_in_whole(z + a + b, c, f);
        found_in_whole(z + a, b, f);
        found_in_whole(z, a, f);
    }
    assert(p.nodes.len() == patch.nodes@.len());
    if 0 <= i < patch.edges@.len() {
        if let PatchEndpoint::Node(x) = patch.edges@[i].from {
            if x >= n {
                let f = dangling_edge(i as nat, "from"@, x as nat, n);
                let fs = endpoint_findings(i as nat, "from"@, p.edges[i].from, n);
                assert(fs[0] == f);
                edge_findings_are_listed(p.edges, n, i, f);
                said(out, f);
            }
        }
        if let PatchEndpoint::Node(x) = patch.edges@[i].to {
            if x >= n {
                let f = dangling_edge(i as nat, "to"@, x as nat, n);
                let fs = endpoint_findings(i as nat, "to"@, p.edges[i].to, n);
                assert(fs[0] == f);
                edge_findings_are_listed(p.edges, n, i, f);
                said(out, f);
            }
        }
    }
    if 0 <= i < 6 && 0 <= k < patch.macros@[i].mappings@.len() {
        assert(p.macros[i] == patch.macros@[i]@);
        if let MacroTarget::Slot { slot, .. } = patch.macros@[i].mappings@[k].target {
            if slot >= n {
                let f = dangling_macro(i as nat, slot as nat, n);
                let fs = mapping_findings(i as nat, p.macros[i].mappings[k], n);
                assert(fs[0] == f);
                macro_findings_are_listed(p.macros, n, i, k, f);
                said(out, f);
            }
        }
    }
}

/// A patch costs what its nodes cost: each adds what the table says of it, if
/// anything, and four hundred cycles for itself.
pub proof fn every_node_costs(ns: Seq<NodeModel>, node: NodeModel, table: Seq<(u16, u32)>, i: int)
    requires
        0 <= i <= table.len(),
        i < table.len() ==> table[i].0 == node.effect_uid,
        forall|j: int| 0 <= j < i ==> (#[trigger] table[j]).0 != node.effect_uid,
    ensures
        summed(Seq::empty(), table) == 0,
        cycles_of(Seq::empty(), table) == 0,
        summed(ns.push(node), table) == summed(ns, table) + if i < table.len() {
            table[i].1 as int
        } else {
            0
        },
        cycles_of(ns.push(node), table) == cycles_of(ns, table) + 400 + if i < table.len() {
            table[i].1 as int
        } else {
            0
        },
        some_unmeasured(ns.push(node), table) <==> some_unmeasured(ns, table) || i == table.len(),
        !some_unmeasured(Seq::empty(), table),
{
    the_first_entry_is_looked_up(table, node.effect_uid, i);
    let all = ns.push(node);
    assert(all.drop_last() =~= ns);
    assert(all.len() == ns.len() + 1);
    assert(400 * all.len() == 400 * ns.len() + 400);
    if some_unmeasured(ns, table) {
        let j = choose|j: int|
            0 <= j < ns.len() && looked_up(table, (#[trigger] ns[j]).effect_uid) is None;
        assert(all[j] == ns[j]);
    }
    if i == table.len() {
        assert(looked_up(table, all[ns.len() as int].effect_uid) is None);
    }
    if some_unmeasured(all, table) {
        let j = choose|j: int|
            0 <= j < all.len() && looked_up(table, (#[trigger] all[j]).effect_uid) is None;
        if j < ns.len() {
            assert(all[j] == ns[j]);
        }
    }
}

/// What the pedal's own limits come to: an effect that it does not have and a
/// budget that is exceeded are errors, which name the node and the estimate;
/// missing cost data, an estimate over the warning fraction and too much memory
/// are warnings.
pub proof fn pedal_limits_are_named(
    patch: Patch,
    limits: PedalLimits,
    share: CpuShare,
    out: Seq<Finding>,
    i: int,
)
    requires
        findings_view(out) == pedal_findings(patch@, limits, share),
    ensures
        0 <= i < patch.nodes@.len() && !limits.allowed_uids@.contains(patch.nodes@[i].effect_uid)
            ==> says_error(
            out,
            "node "@ + decimal(i as nat) + " (UID "@ + decimal(patch.nodes@[i].effect_uid as nat)
                + ") is not available on the pedal"@,
        ),
        some_unmeasured(patch@.nodes, limits.cycle_table@) ==> says_warning(
            out,
            "some effects have no measured cycle data; CPU estimate is a lower bound"@,
        ),
        ({
            let total = cycles_of(patch@.nodes, limits.cycle_table@);
            let memory = summed(patch@.nodes, limits.sdram_table@);
            &&& 0 < limits.cycle_budget < total ==> says_error(
                out,
                "estimated "@ + decimal(total) + " cycles/block exceeds the "@ + decimal(
                    limits.cycle_budget as nat,
                ) + " budget \u{2014} this patch will not run in real time on the pedal"@,
            )
            &&& 0 < limits.cycle_budget && total <= limits.cycle_budget && share.over_warning
                ==> says_warning(
                out,
                "estimated "@ + decimal(total) + " cycles/block is "@ + decimal(
                    share.percent as nat,
                ) + "% of the budget"@,
            )
            &&& 0 < limits.sdram_budget < memory ==> says_warning(
                out,
                "estimated "@ + decimal(memory) + " bytes SDRAM exceeds the "@ + decimal(
                    limits.sdram_budget as nat,
                ) + " budget"@,
            )
        }),
{
    let p = patch@;
    let total = cycles_of(p.nodes, limits.cycle_table@);
    let memory = summed(p.nodes, limits.sdram_table@);
    let a = structure_findings(p);
    let b = effect_set_findings(p.nodes, limits.allowed_uids@);
    let c = only_if(some_unmeasured(p.nodes, limits.cycle_table@), unmeasured());
    let d = cpu_findings(total, limits.cycle_budget as nat, share);
    let e = only_if(
        limits.sdram_budget > 0 && memory > limits.sdram_budget,
        over_sdram(memory, limits.sdram_budget as nat),
    );
    assert forall|f: FindingModel|
        b.contains(f) || c.contains(f) || d.contains(f) || e.contains(f) implies
        #[trigger] findings_view(out).contains(f) by {
        found_in_whole(a + b + c + d, e, f);
        found_in_whole(a + b + c, d, f);
        found_in_whole(a + b, c, f);
        found_in_whole(a, b, f);
    }
    if 0 <= i < patch.nodes@.len() && !limits.allowed_uids@.contains(patch.nodes@[i].effect_uid) {
        assert(p.nodes[i] == patch.nodes@[i]@);
        let f = not_on_pedal(i as nat, p.nodes[i].effect_uid as nat);
        effect_findings_are_listed(p.nodes, limits.allowed_uids@, i);
        said(out, f);
    }
    if some_unmeasured(p.nodes, limits.cycle_table@) {
        assert(c[0] == unmeasured());
        said(out, c[0]);
    }
    if limits.cycle_budget > 0 && (total > limits.cycle_budget || share.over_warning) {
        assert(d.contains(d[0]));
        said(out, d[0]);
    }
    if 0 < limits.sdram_budget < memory {
        assert(e.contains(e[0]));
        said(out, e[0]);
    }
}

proof fn effect_findings_are_listed(ns: Seq<NodeModel>, allowed: Seq<u16>, i: int)
    requires
        0 <= i < ns.len(),
        !allowed.contains(ns[i].effect_uid),
    ensures
        effect_set_findings(ns, allowed).contains(
            not_on_pedal(i as nat, ns[i].effect_uid as nat),
        ),
    decreases ns.len(),
{
    let front = ns.drop_last();
    let f = not_on_pedal(i as nat, ns[i].effect_uid as nat);
    let last = only_if(
        !allowed.contains(ns.last().effect_uid),
        not_on_pedal((ns.len() - 1) as nat, ns.last().effect_uid as nat),
    );
    found_in_whole(effect_set_findings(front, allowed), last, f);
    if i < front.len() {
        assert(front[i] == ns[i]);
        effect_findings_are_listed(front, allowed, i);
    } else {
        assert(last[0] == f);
    }
}

/// The pedal refuses a patch exactly if its structure is refused, if it does not
/// have one of the effects, or if the estimate exceeds the budget.
pub proof fn what_the_pedal_refuses(
    patch: Patch,
    limits: PedalLimits,
    share: CpuShare,
    structure: Seq<Finding>,
    out: Seq<Finding>,
)
    requires
        findings_view(structure) == structure_findings(patch@),
        findings_view(out) == pedal_findings(patch@, limits, share),
    ensures
        (exists|k: int| 0 <= k < out.len() && (#[trigger] out[k]).severity == Severity::Error) <==> {
            ||| structure.len() > 0
            ||| exists|i: int|
                0 <= i < patch.nodes@.len() && !limits.allowed_uids@.contains(
                    (#[trigger] patch.nodes@[i]).effect_uid,
                )
            ||| limits.cycle_budget > 0 && cycles_of(patch@.nodes, limits.cycle_table@)
                > limits.cycle_budget
        },
{
    let p = patch@;
    let fs = findings_view(out);
    pedal_refuses_iff(p, limits, share);
    structure_errors_iff_unsound(p);
    assert(findings_view(structure).len() == structure.len());
    if any_error(fs) {
        let k = choose|k: int| 0 <= k < fs.len() && (#[trigger] fs[k]).severity == Severity::Error;
        assert(fs[k] == out[k]@);
        assert(out[k].severity == Severity::Error);
    }
    if exists|k: int| 0 <= k < out.len() && (#[trigger] out[k]).severity == Severity::Error {
        let k = choose|k: int|
            0 <= k < out.len() && (#[trigger] out[k]).severity == Severity::Error;
        assert(fs[k] == out[k]@);
    }
    if exists|i: int|
        0 <= i < patch.nodes@.len() && !limits.allowed_uids@.contains(
            (#[trigger] patch.nodes@[i]).effect_uid,
        ) {
        let i = choose|i: int|
            0 <= i < patch.nodes@.len() && !limits.allowed_uids@.contains(
                (#[trigger] patch.nodes@[i]).effect_uid,
            );
        assert(p.nodes[i] == patch.nodes@[i]@);
    }
    if exists|i: int|
        0 <= i < p.nodes.len() && !limits.allowed_uids@.contains(
            (#[trigger] p.nodes[i]).effect_uid,
        ) {
        let i = choose|i: int|
            0 <= i < p.nodes.len() && !limits.allowed_uids@.contains(
                (#[trigger] p.nodes[i]).effect_uid,
            );
        assert(p.nodes[i] == patch.nodes@[i]@);
    }
}

} // verus!
