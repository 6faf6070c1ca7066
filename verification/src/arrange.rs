//! Laying the graph out: columns by dependency depth, rows within columns.
//!
//! Each node lands in the column that matches its longest path from a node that
//! nothing leads to, and nodes that share a column stack up, so the signal path
//! reads from left to right and nodes never overlap. Turning columns and rows
//! into points of the canvas is the caller's.
use egui_snarl::Snarl;
use crate::bits::rank;
use crate::compile::{ids_in, kinds_in, list_nodes, lists_nodes, lists_wires};
use crate::graph::GraphView;
use crate::seqs::push_contains_iff;
use crate::session::{NodeKind, SessionNode};
use crate::snarl::{Wire, wires};
use crate::wiring::{is_wire_walk, wire_steps, wired};
use vstd::prelude::*;

verus! {

/// Where a node is laid out.
#[derive(Clone, Copy, Debug, PartialEq, Eq, Structural)]
pub struct Placement {
    /// Node id.
    pub id: usize,
    /// Column, from 0.
    pub column: usize,
    /// Row within the column, from 0.
    pub row: usize,
    /// How many rows the column has.
    pub rows: usize,
}

/// A layout: the last column, and where each node goes that is neither input nor
/// output.
#[derive(Debug, PartialEq, Eq)]
pub struct Layout {
    /// The largest column of any node.
    pub last_column: usize,
    /// Placements, in ascending order of the ids.
    pub placements: Vec<Placement>,
}

/// Whether a wire leads from node `p` to another node `c`, by index.
pub open spec fn leads(nodes: Seq<(usize, SessionNode)>, ws: Seq<Wire>, p: int, c: int) -> bool {
    p != c && exists|k: int|
        0 <= k < ws.len() && (#[trigger] ws[k]).from == nodes[p].0 && ws[k].to == nodes[c].0
}

/// Columns that follow the wires. A node is settled exactly if everything that
/// leads to it is; its column is behind every settled node that leads to it, and
/// no further. A node that is not settled is on a cycle or behind one.
#[verifier::opaque]
pub open spec fn columns_follow(
    nodes: Seq<(usize, SessionNode)>,
    ws: Seq<Wire>,
    settled: Seq<bool>,
    columns: Seq<usize>,
) -> bool {
    let n = nodes.len() as int;
    &&& settled.len() == n && columns.len() == n
    &&& forall|c: int|
        0 <= c < n ==> (#[trigger] settled[c] <==> forall|p: int|
            0 <= p < n && #[trigger] leads(nodes, ws, p, c) ==> settled[p])
    &&& forall|p: int, c: int|
        0 <= p < n && 0 <= c < n && #[trigger] leads(nodes, ws, p, c) && settled[p] ==> columns[p]
            < columns[c]
    &&& forall|c: int|
        0 <= c < n && #[trigger] columns[c] > 0 ==> exists|p: int|
            0 <= p < n && #[trigger] leads(nodes, ws, p, c) && settled[p] && columns[p] + 1
                == columns[c]
}

/// Whether a wire leads from node `p` to another node `c`.
fn has_wire(nodes: &Vec<(usize, SessionNode)>, ws: &Vec<Wire>, p: usize, c: usize) -> (r: bool)
    requires
        p < nodes@.len(),
        c < nodes@.len(),
    ensures
        r == leads(nodes@, ws@, p as int, c as int),
{
    if p == c {
        return false;
    }
    let from: usize = nodes[p].0;
    let to: usize = nodes[c].0;
    let mut k: usize = 0;
    while k < ws.len()
        invariant
            k <= ws@.len(),
            p != c,
            from == nodes@[p as int].0,
            to == nodes@[c as int].0,
            forall|j: int| 0 <= j < k ==> (#[trigger] ws@[j]).from != from || ws@[j].to != to,
        decreases ws@.len() - k,
    {
        if ws[k].from == from && ws[k].to == to {
            assert(ws@[k as int].from == nodes@[p as int].0);
            return true;
        }
        k = k + 1;
    }
    false
}

/// The column just behind all settled nodes that lead to `c`, and whether all
/// nodes that lead to it are settled.
fn column_behind(
    nodes: &Vec<(usize, SessionNode)>,
    ws: &Vec<Wire>,
    settled: &Vec<bool>,
    columns: &Vec<usize>,
    c: usize,
) -> (r: (usize, bool))
    requires
        c < nodes@.len(),
        settled@.len() == nodes@.len(),
        columns@.len() == nodes@.len(),
        forall|p: int| 0 <= p < nodes@.len() && settled@[p] ==> #[trigger] columns@[p] < usize::MAX,
    ensures
        forall|p: int|
            0 <= p < nodes@.len() && #[trigger] leads(nodes@, ws@, p, c as int) && settled@[p]
                ==> columns@[p] < r.0,
        r.0 > 0 ==> exists|p: int|
            0 <= p < nodes@.len() && #[trigger] leads(nodes@, ws@, p, c as int) && settled@[p]
                && columns@[p] + 1 == r.0,
        r.1 <==> forall|p: int|
            0 <= p < nodes@.len() && #[trigger] leads(nodes@, ws@, p, c as int) ==> settled@[p],
{
    let mut column: usize = 0;
    let mut all = true;
    let mut p: usize = 0;
    while p < nodes.len()
        invariant
            p <= nodes@.len(),
            c < nodes@.len(),
            settled@.len() == nodes@.len(),
            columns@.len() == nodes@.len(),
            forall|q: int|
                0 <= q < nodes@.len() && settled@[q] ==> #[trigger] columns@[q] < usize::MAX,
            forall|q: int|
                0 <= q < p && #[trigger] leads(nodes@, ws@, q, c as int) && settled@[q]
                    ==> columns@[q] < column,
            column > 0 ==> exists|q: int|
                0 <= q < nodes@.len() && #[trigger] leads(nodes@, ws@, q, c as int) && settled@[q]
                    && columns@[q] + 1 == column,
            all <==> forall|q: int|
                0 <= q < p && #[trigger] leads(nodes@, ws@, q, c as int) ==> settled@[q],
        decreases nodes@.len() - p,
    {
        if has_wire(nodes, ws, p, c) {
            assert(leads(nodes@, ws@, p as int, c as int));
            if settled[p] {
                assert(columns@[p as int] < usize::MAX);
                if columns[p] + 1 > column {
                    column = columns[p] + 1;
                }
            } else {
                all = false;
            }
        }
        p = p + 1;
    }
    (column, all)
}

/// How many of some flags are not set.
pub open spec fn unset(flags: Seq<bool>) -> nat
    decreases flags.len(),
{
    if flags.len() == 0 {
        0
    } else {
        unset(flags.drop_last()) + if flags.last() {
            0nat
        } else {
            1nat
        }
    }
}

/// Setting a flag that was not set leaves one less.
proof fn setting_counts(flags: Seq<bool>, i: int)
    requires
        0 <= i < flags.len(),
        !flags[i],
    ensures
        unset(flags.update(i, true)) + 1 == unset(flags),
    decreases flags.len(),
{
    let after = flags.update(i, true);
    if i == flags.len() - 1 {
        assert(after.drop_last() =~= flags.drop_last());
    } else {
        assert(after.drop_last() =~= flags.drop_last().update(i, true));
        setting_counts(flags.drop_last(), i);
    }
}

proof fn unset_at_most(flags: Seq<bool>)
    ensures
        unset(flags) <= flags.len(),
    decreases flags.len(),
{
    if flags.len() > 0 {
        unset_at_most(flags.drop_last());
    }
}

/// Columns on the way: what is settled has its column, which is below `most`.
spec fn on_the_way(
    nodes: Seq<(usize, SessionNode)>,
    ws: Seq<Wire>,
    settled: Seq<bool>,
    columns: Seq<usize>,
    most: nat,
) -> bool {
    let n = nodes.len() as int;
    &&& settled.len() == n && columns.len() == n
    &&& forall|p: int, c: int|
        0 <= p < n && 0 <= c < n && #[trigger] leads(nodes, ws, p, c) && settled[c] ==> settled[p]
            && columns[p] < columns[c]
    &&& forall|c: int|
        0 <= c < n && settled[c] && #[trigger] columns[c] > 0 ==> behind_one(
            nodes,
            ws,
            settled,
            columns,
            c,
        )
    &&& forall|c: int| 0 <= c < n && settled[c] ==> #[trigger] columns[c] < most
}

/// Some settled node leads to `c` from the column just in front of it.
spec fn behind_one(
    nodes: Seq<(usize, SessionNode)>,
    ws: Seq<Wire>,
    settled: Seq<bool>,
    columns: Seq<usize>,
    c: int,
) -> bool {
    exists|p: int|
        0 <= p < nodes.len() && #[trigger] leads(nodes, ws, p, c) && settled[p] && columns[p] + 1
            == columns[c]
}

/// Some node that is not settled leads to `c`.
spec fn waits(nodes: Seq<(usize, SessionNode)>, ws: Seq<Wire>, settled: Seq<bool>, c: int) -> bool {
    exists|p: int| 0 <= p < nodes.len() && #[trigger] leads(nodes, ws, p, c) && !settled[p]
}

/// A node that is not settled though everything that leads to it is, with its
/// column.
fn find_ready(
    nodes: &Vec<(usize, SessionNode)>,
    ws: &Vec<Wire>,
    settled: &Vec<bool>,
    columns: &Vec<usize>,
    Ghost(most): Ghost<nat>,
) -> (r: Option<(usize, usize)>)
    requires
        on_the_way(nodes@, ws@, settled@, columns@, most),
        most <= nodes@.len(),
    ensures
        match r {
            Some((c, column)) => {
                &&& c < nodes@.len()
                &&& !settled@[c as int]
                &&& !waits(nodes@, ws@, settled@, c as int)
                &&& forall|p: int|
                    0 <= p < nodes@.len() && #[trigger] leads(nodes@, ws@, p, c as int)
                        ==> columns@[p] < column
                &&& column > 0 ==> exists|p: int|
                    0 <= p < nodes@.len() && #[trigger] leads(nodes@, ws@, p, c as int)
                        && settled@[p] && columns@[p] + 1 == column
            },
            None => forall|c: int|
                0 <= c < nodes@.len() && !#[trigger] settled@[c] ==> waits(
                    nodes@,
                    ws@,
                    settled@,
                    c,
                ),
        },
{
    let mut c: usize = 0;
    while c < nodes.len()
        invariant
            c <= nodes@.len(),
            on_the_way(nodes@, ws@, settled@, columns@, most),
            most <= nodes@.len(),
            forall|q: int|
                0 <= q < c && !#[trigger] settled@[q] ==> waits(nodes@, ws@, settled@, q),
        decreases nodes@.len() - c,
    {
        if !settled[c] {
            let (column, all) = column_behind(nodes, ws, settled, columns, c);
            if all {
                return Some((c, column));
            }
        }
        c = c + 1;
    }
    None
}

/// Settling a ready node keeps to the way.
proof fn settle_one(
    nodes: Seq<(usize, SessionNode)>,
    ws: Seq<Wire>,
    settled: Seq<bool>,
    columns: Seq<usize>,
    most: nat,
    c: int,
    column: usize,
)
    requires
        on_the_way(nodes, ws, settled, columns, most),
        0 <= c < nodes.len(),
        !settled[c],
        !waits(nodes, ws, settled, c),
        forall|p: int|
            0 <= p < nodes.len() && #[trigger] leads(nodes, ws, p, c) ==> columns[p] < column,
        column > 0 ==> exists|p: int|
            0 <= p < nodes.len() && #[trigger] leads(nodes, ws, p, c) && settled[p] && columns[p]
                + 1 == column,
    ensures
        on_the_way(
            nodes,
            ws,
            settled.update(c, true),
            columns.update(c, column),
            most + 1,
        ),
{
    let n = nodes.len() as int;
    let s = settled.update(c, true);
    let k = columns.update(c, column);
    assert forall|p: int, d: int|
        0 <= p < n && 0 <= d < n && #[trigger] leads(nodes, ws, p, d) && s[d] implies s[p] && k[p]
        < k[d] by {
        if d == c {
            assert(settled[p]);
        } else {
            assert(settled[p]);
            assert(p != c);
        }
    }
    assert forall|d: int| 0 <= d < n && s[d] && #[trigger] k[d] > 0 implies behind_one(
        nodes,
        ws,
        s,
        k,
        d,
    ) by {
        if d == c {
            let p = choose|p: int|
                0 <= p < n && #[trigger] leads(nodes, ws, p, c) && settled[p] && columns[p] + 1
                    == column;
            assert(leads(nodes, ws, p, d) && s[p] && k[p] + 1 == k[d]);
        } else {
            assert(columns[d] > 0);
            assert(behind_one(nodes, ws, settled, columns, d));
            let p = choose|p: int|
                0 <= p < n && #[trigger] leads(nodes, ws, p, d) && settled[p] && columns[p] + 1
                    == columns[d];
            assert(leads(nodes, ws, p, d) && s[p] && k[p] + 1 == k[d]);
        }
    }
    assert forall|d: int| 0 <= d < n && s[d] implies #[trigger] k[d] < most + 1 by {
        if d == c {
            if column > 0 {
                let p = choose|p: int|
                    0 <= p < n && #[trigger] leads(nodes, ws, p, c) && settled[p] && columns[p] + 1
                        == column;
                assert(columns[p] < most);
            }
        } else {
            assert(columns[d] < most);
        }
    }
}

/// The columns of the nodes that are settled.
fn settle(nodes: &Vec<(usize, SessionNode)>, ws: &Vec<Wire>) -> (r: (Vec<bool>, Vec<usize>))
    ensures
        on_the_way(nodes@, ws@, r.0@, r.1@, nodes@.len()),
        forall|c: int|
            0 <= c < nodes@.len() && !#[trigger] r.0@[c] ==> waits(nodes@, ws@, r.0@, c),
{
    let n: usize = nodes.len();
    let mut settled: Vec<bool> = Vec::new();
    let mut columns: Vec<usize> = Vec::new();
    let mut i: usize = 0;
    while i < n
        invariant
            i <= n,
            settled@.len() == i,
            columns@.len() == i,
            forall|j: int| 0 <= j < i ==> !#[trigger] settled@[j],
        decreases n - i,
    {
        settled.push(false);
        columns.push(0);
        i = i + 1;
    }
    let ghost mut most: nat = 0;
    proof {
        unset_at_most(settled@);
    }
    loop
        invariant
            n == nodes@.len(),
            on_the_way(nodes@, ws@, settled@, columns@, most),
            most + unset(settled@) <= n,
        ensures
            forall|c: int|
                0 <= c < n && !#[trigger] settled@[c] ==> waits(nodes@, ws@, settled@, c),
        decreases unset(settled@),
    {
        match find_ready(nodes, ws, &settled, &columns, Ghost(most)) {
            Some((c, column)) => {
                proof {
                    setting_counts(settled@, c as int);
                    settle_one(nodes@, ws@, settled@, columns@, most, c as int, column);
                    most = most + 1;
                }
                settled[c] = true;
                columns[c] = column;
            },
            None => {
                break ;
            },
        }
    }
    (settled, columns)
}

/// The columns of the nodes, and which of them are settled.
pub fn columns_of(nodes: &Vec<(usize, SessionNode)>, ws: &Vec<Wire>) -> (r: (
    Vec<bool>,
    Vec<usize>,
))
    ensures
        columns_follow(nodes@, ws@, r.0@, r.1@),
{
    let n: usize = nodes.len();
    let (settled, mut columns) = settle(nodes, ws);
    let ghost at_first = columns@;
    // What is left is on a cycle or behind one; it goes behind what is settled.
    let mut c: usize = 0;
    while c < n
        invariant
            c <= n,
            n == nodes@.len(),
            settled@.len() == n,
            columns@.len() == n,
            on_the_way(nodes@, ws@, settled@, at_first, n as nat),
            forall|q: int| 0 <= q < n && settled@[q] ==> #[trigger] columns@[q] == at_first[q],
            forall|p: int, q: int|
                0 <= p < n && 0 <= q < c && #[trigger] leads(nodes@, ws@, p, q) && settled@[p]
                    ==> columns@[p] < columns@[q],
            forall|q: int|
                0 <= q < c && #[trigger] columns@[q] > 0 ==> behind_one(
                    nodes@,
                    ws@,
                    settled@,
                    columns@,
                    q,
                ),
        decreases n - c,
    {
        let ghost was = columns@;
        assert forall|p: int| 0 <= p < n && settled@[p] implies #[trigger] columns@[p]
            < usize::MAX by {
            assert(at_first[p] < n);
        }
        if !settled[c] {
            let (column, _) = column_behind(nodes, ws, &settled, &columns, c);
            columns[c] = column;
            proof {
                if column > 0 {
                    let p = choose|p: int|
                        0 <= p < n && #[trigger] leads(nodes@, ws@, p, c as int) && settled@[p]
                            && was[p] + 1 == column;
                    assert(leads(nodes@, ws@, p, c as int) && columns@[p] == was[p]);
                }
            }
        } else {
            proof {
                if columns@[c as int] > 0 {
                    assert(at_first[c as int] > 0);
                    assert(behind_one(nodes@, ws@, settled@, at_first, c as int));
                    let p = choose|p: int|
                        0 <= p < n && #[trigger] leads(nodes@, ws@, p, c as int) && settled@[p]
                            && at_first[p] + 1 == at_first[c as int];
                    assert(leads(nodes@, ws@, p, c as int) && columns@[p] == at_first[p]);
                }
            }
        }
        proof {
            assert forall|q: int| 0 <= q < c && #[trigger] columns@[q] > 0 implies behind_one(
                nodes@,
                ws@,
                settled@,
                columns@,
                q,
            ) by {
                assert(was[q] > 0);
                assert(behind_one(nodes@, ws@, settled@, was, q));
                let p = choose|p: int|
                    0 <= p < n && #[trigger] leads(nodes@, ws@, p, q) && settled@[p] && was[p] + 1
                        == was[q];
                assert(leads(nodes@, ws@, p, q) && columns@[p] == was[p]);
            }
        }
        c = c + 1;
    }
    proof {
        reveal(columns_follow);
        assert forall|q: int| 0 <= q < n implies (#[trigger] settled@[q] <==> forall|p: int|
            0 <= p < n && #[trigger] leads(nodes@, ws@, p, q) ==> settled@[p]) by {
            if !settled@[q] {
                assert(waits(nodes@, ws@, settled@, q));
            }
        }
        assert forall|q: int| 0 <= q < n && #[trigger] columns@[q] > 0 implies exists|p: int|
            0 <= p < n && #[trigger] leads(nodes@, ws@, p, q) && settled@[p] && columns@[p] + 1
                == columns@[q] by {
            assert(behind_one(nodes@, ws@, settled@, columns@, q));
        }
    }
    (settled, columns)
}

/// Whether a node is laid out in columns: neither input nor output, which are
/// anchored to the walls.
pub open spec fn laid_out(kind: NodeKind) -> bool {
    !(kind is Input) && !(kind is Output)
}

/// How many of the first `n` nodes are laid out in a column.
pub open spec fn stacked(kinds: Seq<NodeKind>, columns: Seq<usize>, n: nat, column: usize) -> nat
    decreases n,
{
    if n == 0 {
        0
    } else {
        stacked(kinds, columns, (n - 1) as nat, column) + if laid_out(kinds[n - 1])
            && columns[n - 1] == column {
            1nat
        } else {
            0nat
        }
    }
}

/// Where node `i` goes: its row is the number of nodes in front of it in its
/// column.
pub open spec fn placement_of(nodes: Seq<(usize, SessionNode)>, columns: Seq<usize>, i: int) -> Placement {
    let kinds = kinds_in(nodes);
    Placement {
        id: nodes[i].0,
        column: columns[i],
        row: stacked(kinds, columns, i as nat, columns[i]) as usize,
        rows: stacked(kinds, columns, nodes.len(), columns[i]) as usize,
    }
}

/// Where the first `n` nodes go.
pub open spec fn placements_of(
    nodes: Seq<(usize, SessionNode)>,
    columns: Seq<usize>,
    n: nat,
) -> Seq<Placement>
    decreases n,
{
    if n == 0 {
        Seq::empty()
    } else {
        let before = placements_of(nodes, columns, (n - 1) as nat);
        if laid_out(nodes[n - 1].1@) {
            before.push(placement_of(nodes, columns, n - 1))
        } else {
            before
        }
    }
}

/// The largest of some columns, or 0.
pub open spec fn largest(columns: Seq<usize>) -> usize
    decreases columns.len(),
{
    if columns.len() == 0 {
        0
    } else if columns.last() > largest(columns.drop_last()) {
        columns.last()
    } else {
        largest(columns.drop_last())
    }
}

/// A layout of nodes and wires.
pub open spec fn is_layout(
    nodes: Seq<(usize, SessionNode)>,
    ws: Seq<Wire>,
    layout: Layout,
) -> bool {
    exists|settled: Seq<bool>, columns: Seq<usize>| #[trigger]
        columns_follow(nodes, ws, settled, columns) && layout.last_column == largest(columns)
            && layout.placements@ == placements_of(nodes, columns, nodes.len())
}

proof fn stacked_at_most(kinds: Seq<NodeKind>, columns: Seq<usize>, n: nat, column: usize)
    ensures
        stacked(kinds, columns, n, column) <= n,
    decreases n,
{
    if n > 0 {
        stacked_at_most(kinds, columns, (n - 1) as nat, column);
    }
}

fn is_laid_out(node: &SessionNode) -> (r: bool)
    ensures
        r == laid_out(node@),
{
    match node {
        SessionNode::Input => false,
        SessionNode::Output => false,
        _ => true,
    }
}

/// How many of the first `n` nodes are laid out in a column.
fn count_stacked(
    nodes: &Vec<(usize, SessionNode)>,
    columns: &Vec<usize>,
    n: usize,
    column: usize,
) -> (count: usize)
    requires
        n <= nodes@.len(),
        columns@.len() == nodes@.len(),
    ensures
        count == stacked(kinds_in(nodes@), columns@, n as nat, column),
{
    let mut count: usize = 0;
    let mut i: usize = 0;
    while i < n
        invariant
            i <= n <= nodes@.len(),
            columns@.len() == nodes@.len(),
            count <= i,
            count == stacked(kinds_in(nodes@), columns@, i as nat, column),
        decreases n - i,
    {
        assert(kinds_in(nodes@)[i as int] == nodes@[i as int].1@);
        if is_laid_out(&nodes[i].1) && columns[i] == column {
            count = count + 1;
        }
        i = i + 1;
    }
    count
}

/// Lay out nodes, given with their ids, and wires between them.
pub fn layout_of(nodes: &Vec<(usize, SessionNode)>, ws: &Vec<Wire>) -> (layout: Layout)
    ensures
        is_layout(nodes@, ws@, layout),
{
    let (settled, columns) = columns_of(nodes, ws);
    assert(columns@.len() == nodes@.len()) by {
        reveal(columns_follow);
    }
    let mut last_column: usize = 0;
    let mut placements: Vec<Placement> = Vec::new();
    let mut i: usize = 0;
    while i < nodes.len()
        invariant
            i <= nodes@.len(),
            columns@.len() == nodes@.len(),
            last_column == largest(columns@.take(i as int)),
            placements@ == placements_of(nodes@, columns@, i as nat),
        decreases nodes@.len() - i,
    {
        let column: usize = columns[i];
        assert(columns@.take(i as int + 1).drop_last() =~= columns@.take(i as int));
        if column > last_column {
            last_column = column;
        }
        if is_laid_out(&nodes[i].1) {
            let row: usize = count_stacked(nodes, &columns, i, column);
            let rows: usize = count_stacked(nodes, &columns, nodes.len(), column);
            placements.push(Placement { id: nodes[i].0, column, row, rows });
        }
        i = i + 1;
    }
    assert(columns@.take(i as int) =~= columns@);
    let layout = Layout { last_column, placements };
    assert(columns_follow(nodes@, ws@, settled@, columns@));
    layout
}

impl GraphView {
    /// Lay out the graph.
    pub fn auto_arrange(&self) -> (layout: Layout)
        ensures
            exists|nodes: Seq<(usize, SessionNode)>, ws: Seq<Wire>| #[trigger]
                lists_nodes(self.snarl, nodes) && #[trigger] lists_wires(self.snarl, ws)
                    && is_layout(nodes, ws, layout),
    {
        let nodes = list_nodes(&self.snarl);
        let ws = wires(&self.snarl);
        assert(lists_wires(self.snarl, ws@));
        layout_of(&nodes, &ws)
    }
}

// Laws.

/// The signal path reads from left to right: where wires admit a ranking that
/// rises along every one of them, every wire between two nodes goes to a column
/// further right.
pub proof fn wires_lead_right(
    nodes: Seq<(usize, SessionNode)>,
    ws: Seq<Wire>,
    settled: Seq<bool>,
    columns: Seq<usize>,
    rank: spec_fn(int) -> nat,
    p: int,
    c: int,
)
    requires
        columns_follow(nodes, ws, settled, columns),
        forall|a: int, b: int|
            0 <= a < nodes.len() && 0 <= b < nodes.len() && #[trigger] leads(nodes, ws, a, b)
                ==> rank(a) < rank(b),
        0 <= p < nodes.len(),
        0 <= c < nodes.len(),
        leads(nodes, ws, p, c),
    ensures
        settled[p] && settled[c],
        columns[p] < columns[c],
{
    reveal(columns_follow);
    ranked_is_settled(nodes, ws, settled, columns, rank, p);
    ranked_is_settled(nodes, ws, settled, columns, rank, c);
}

proof fn ranked_is_settled(
    nodes: Seq<(usize, SessionNode)>,
    ws: Seq<Wire>,
    settled: Seq<bool>,
    columns: Seq<usize>,
    rank: spec_fn(int) -> nat,
    c: int,
)
    requires
        columns_follow(nodes, ws, settled, columns),
        forall|a: int, b: int|
            0 <= a < nodes.len() && 0 <= b < nodes.len() && #[trigger] leads(nodes, ws, a, b)
                ==> rank(a) < rank(b),
        0 <= c < nodes.len(),
    ensures
        settled[c],
    decreases rank(c),
{
    reveal(columns_follow);
    assert forall|p: int| 0 <= p < nodes.len() && #[trigger] leads(
        nodes,
        ws,
        p,
        c,
    ) implies settled[p] by {
        ranked_is_settled(nodes, ws, settled, columns, rank, p);
    }
}

/// The columns are determined by the nodes and the wires: a node's column is the
/// length of its longest path from a node that nothing leads to.
pub proof fn columns_are_determined(
    nodes: Seq<(usize, SessionNode)>,
    ws: Seq<Wire>,
    settled: Seq<bool>,
    columns: Seq<usize>,
    settled2: Seq<bool>,
    columns2: Seq<usize>,
    c: int,
)
    requires
        columns_follow(nodes, ws, settled, columns),
        columns_follow(nodes, ws, settled2, columns2),
        0 <= c < nodes.len(),
    ensures
        settled[c] == settled2[c],
        columns[c] == columns2[c],
{
    if settled[c] {
        settled_once(nodes, ws, settled, columns, settled2, columns2, c);
    } else if settled2[c] {
        settled_once(nodes, ws, settled2, columns2, settled, columns, c);
    }
    column_at_most(nodes, ws, settled, columns, settled2, columns2, c);
    column_at_most(nodes, ws, settled2, columns2, settled, columns, c);
}

proof fn column_at_most(
    nodes: Seq<(usize, SessionNode)>,
    ws: Seq<Wire>,
    settled: Seq<bool>,
    columns: Seq<usize>,
    settled2: Seq<bool>,
    columns2: Seq<usize>,
    c: int,
)
    requires
        columns_follow(nodes, ws, settled, columns),
        columns_follow(nodes, ws, settled2, columns2),
        0 <= c < nodes.len(),
    ensures
        columns[c] <= columns2[c],
{
    reveal(columns_follow);
    if columns[c] > 0 {
        let p = choose|p: int|
            0 <= p < nodes.len() && #[trigger] leads(nodes, ws, p, c) && settled[p] && columns[p]
                + 1 == columns[c];
        settled_once(nodes, ws, settled, columns, settled2, columns2, p);
        assert(columns2[p] < columns2[c]);
    }
}

proof fn settled_once(
    nodes: Seq<(usize, SessionNode)>,
    ws: Seq<Wire>,
    settled: Seq<bool>,
    columns: Seq<usize>,
    settled2: Seq<bool>,
    columns2: Seq<usize>,
    c: int,
)
    requires
        columns_follow(nodes, ws, settled, columns),
        columns_follow(nodes, ws, settled2, columns2),
        0 <= c < nodes.len(),
        settled[c],
    ensures
        settled2[c],
        columns2[c] == columns[c],
    decreases columns[c],
{
    reveal(columns_follow);
    assert forall|p: int| 0 <= p < nodes.len() && #[trigger] leads(
        nodes,
        ws,
        p,
        c,
    ) implies settled2[p] && columns2[p] == columns[p] by {
        assert(settled[p]);
        settled_once(nodes, ws, settled, columns, settled2, columns2, p);
    }
    if columns[c] > 0 {
        let p = choose|p: int|
            0 <= p < nodes.len() && #[trigger] leads(nodes, ws, p, c) && settled[p] && columns[p]
                + 1 == columns[c];
        assert(columns2[p] < columns2[c]);
    }
    if columns2[c] > 0 {
        let p = choose|p: int|
            0 <= p < nodes.len() && #[trigger] leads(nodes, ws, p, c) && settled2[p]
                && columns2[p] + 1 == columns2[c];
        assert(columns[p] < columns[c]);
    }
}

/// Nodes never overlap: no two of them share a column and a row, and rows are
/// within their column.
pub proof fn placements_do_not_overlap(
    nodes: Seq<(usize, SessionNode)>,
    columns: Seq<usize>,
    i: int,
    j: int,
)
    requires
        nodes.len() <= usize::MAX,
        columns.len() == nodes.len(),
        0 <= i < j < nodes.len(),
        laid_out(nodes[i].1@),
        laid_out(nodes[j].1@),
        columns[i] == columns[j],
    ensures
        placement_of(nodes, columns, i).row < placement_of(nodes, columns, j).row,
        placement_of(nodes, columns, j).row < placement_of(nodes, columns, j).rows,
{
    let kinds = kinds_in(nodes);
    stacked_grows(kinds, columns, i as nat, j as nat, columns[i]);
    stacked_grows(kinds, columns, j as nat, nodes.len(), columns[i]);
    stacked_at_most(kinds, columns, nodes.len(), columns[i]);
    stacked_at_most(kinds, columns, j as nat, columns[i]);
    stacked_at_most(kinds, columns, i as nat, columns[i]);
}

proof fn stacked_grows(kinds: Seq<NodeKind>, columns: Seq<usize>, i: nat, n: nat, column: usize)
    requires
        i < n,
        laid_out(kinds[i as int]),
        columns[i as int] == column,
    ensures
        stacked(kinds, columns, i, column) < stacked(kinds, columns, n, column),
    decreases n,
{
    if i < n - 1 {
        stacked_grows(kinds, columns, i, (n - 1) as nat, column);
    }
}

/// Which node each placement is of.
proof fn placements_list(nodes: Seq<(usize, SessionNode)>, columns: Seq<usize>, n: nat) -> (at: Seq<
    int,
>)
    requires
        n <= nodes.len(),
    ensures
        at.len() == placements_of(nodes, columns, n).len(),
        forall|k: int, l: int| 0 <= k < l < at.len() ==> #[trigger] at[k] < #[trigger] at[l],
        forall|k: int|
            #![trigger at[k]]
            0 <= k < at.len() ==> 0 <= at[k] < n && laid_out(nodes[at[k]].1@) && placements_of(
                nodes,
                columns,
                n,
            )[k] == placement_of(nodes, columns, at[k]),
        forall|i: int| 0 <= i < n && laid_out((#[trigger] nodes[i]).1@) ==> at.contains(i),
    decreases n,
{
    if n == 0 {
        Seq::empty()
    } else {
        let before = placements_list(nodes, columns, (n - 1) as nat);
        if laid_out(nodes[n - 1].1@) {
            let at = before.push(n - 1);
            assert forall|i: int| 0 <= i < n && laid_out((#[trigger] nodes[i]).1@) implies
                at.contains(i) by {
                push_contains_iff(before, n - 1, i);
            }
            at
        } else {
            before
        }
    }
}

/// A walk along wires has no more steps than the column that it ends in.
proof fn walks_are_no_longer(
    nodes: Seq<(usize, SessionNode)>,
    ws: Seq<Wire>,
    settled: Seq<bool>,
    columns: Seq<usize>,
    rank: spec_fn(int) -> nat,
    walk: Seq<usize>,
)
    requires
        columns_follow(nodes, ws, settled, columns),
        forall|a: int, b: int|
            0 <= a < nodes.len() && 0 <= b < nodes.len() && #[trigger] wired(nodes, ws, a, b)
                ==> rank(a) < rank(b),
        is_wire_walk(nodes, ws, walk),
        walk.len() > 0,
    ensures
        walk.len() <= columns[walk.last() as int] + 1,
    decreases walk.len(),
{
    if walk.len() > 1 {
        let front = walk.drop_last();
        assert forall|k: int| 0 <= k < front.len() - 1 implies #[trigger] wire_steps(
            nodes,
            ws,
            front,
            k,
        ) by {
            assert(wire_steps(nodes, ws, walk, k));
        }
        walks_are_no_longer(nodes, ws, settled, columns, rank, front);
        assert(wire_steps(nodes, ws, walk, walk.len() - 2));
        let p = front.last() as int;
        let c = walk.last() as int;
        assert(wired(nodes, ws, p, c));
        assert(leads(nodes, ws, p, c));
        assert forall|a: int, b: int|
            0 <= a < nodes.len() && 0 <= b < nodes.len() && #[trigger] leads(
                nodes,
                ws,
                a,
                b,
            ) implies rank(a) < rank(b) by {
            assert(wired(nodes, ws, a, b));
        }
        wires_lead_right(nodes, ws, settled, columns, rank, p, c);
    }
}

/// To every node there is a walk along wires with as many steps as its column.
proof fn walks_are_as_long(
    nodes: Seq<(usize, SessionNode)>,
    ws: Seq<Wire>,
    settled: Seq<bool>,
    columns: Seq<usize>,
    c: usize,
) -> (walk: Seq<usize>)
    requires
        columns_follow(nodes, ws, settled, columns),
        nodes.len() <= usize::MAX,
        c < nodes.len(),
    ensures
        is_wire_walk(nodes, ws, walk),
        walk.len() == columns[c as int] + 1,
        walk.last() == c,
    decreases columns[c as int],
{
    if columns[c as int] == 0 {
        seq![c]
    } else {
        reveal(columns_follow);
        let p = choose|p: int|
            0 <= p < nodes.len() && #[trigger] leads(nodes, ws, p, c as int) && settled[p]
                && columns[p] + 1 == columns[c as int];
        let front = walks_are_as_long(nodes, ws, settled, columns, p as usize);
        let walk = front.push(c);
        assert(wired(nodes, ws, p, c as int));
        assert forall|k: int| 0 <= k < walk.len() - 1 implies #[trigger] wire_steps(
            nodes,
            ws,
            walk,
            k,
        ) by {
            if k < front.len() - 1 {
                assert(wire_steps(nodes, ws, front, k));
            }
        }
        walk
    }
}

proof fn largest_is_one(columns: Seq<usize>) -> (i: int)
    ensures
        forall|j: int| 0 <= j < columns.len() ==> #[trigger] columns[j] <= largest(columns),
        columns.len() > 0 ==> 0 <= i < columns.len() && columns[i] == largest(columns),
    decreases columns.len(),
{
    if columns.len() == 0 {
        0
    } else {
        let front = columns.drop_last();
        let i = largest_is_one(front);
        assert forall|j: int| 0 <= j < columns.len() implies #[trigger] columns[j] <= largest(
            columns,
        ) by {
            if j < front.len() {
                assert(front[j] == columns[j]);
            }
        }
        if columns.last() > largest(front) || front.len() == 0 {
            columns.len() - 1
        } else {
            i
        }
    }
}

/// Every row of a column is taken.
proof fn rows_are_taken(
    kinds: Seq<NodeKind>,
    columns: Seq<usize>,
    n: nat,
    column: usize,
    row: nat,
) -> (i: int)
    requires
        row < stacked(kinds, columns, n, column),
    ensures
        0 <= i < n,
        laid_out(kinds[i]),
        columns[i] == column,
        stacked(kinds, columns, i as nat, column) == row,
    decreases n,
{
    let before = stacked(kinds, columns, (n - 1) as nat, column);
    if row < before {
        rows_are_taken(kinds, columns, (n - 1) as nat, column, row)
    } else {
        n - 1
    }
}

/// What a layout is, of a graph whose wires do not run in a circle: each node but
/// the input and the output has one place; its column is the number of steps of the
/// longest walk along wires that ends at it; the last column is that of the longest
/// walk of all; and the places in a column have the rows from 0 on, each once.
/// Returned is which node each placement is of.
pub proof fn what_a_layout_is(
    nodes: Seq<(usize, SessionNode)>,
    ws: Seq<Wire>,
    layout: Layout,
    rank: spec_fn(int) -> nat,
) -> (at: Seq<int>)
    requires
        is_layout(nodes, ws, layout),
        nodes.len() <= usize::MAX,
        forall|a: int, b: int|
            0 <= a < nodes.len() && 0 <= b < nodes.len() && #[trigger] wired(nodes, ws, a, b)
                ==> rank(a) < rank(b),
    ensures
        at.len() == layout.placements@.len(),
        forall|k: int, l: int| 0 <= k < l < at.len() ==> #[trigger] at[k] < #[trigger] at[l],
        forall|i: int|
            0 <= i < nodes.len() && !((#[trigger] nodes[i]).1 is Input) && !(nodes[i].1 is Output)
                ==> at.contains(i),
        forall|k: int|
            #![trigger at[k]]
            0 <= k < at.len() ==> {
                &&& 0 <= at[k] < nodes.len()
                &&& !(nodes[at[k]].1 is Input) && !(nodes[at[k]].1 is Output)
                &&& layout.placements@[k].id == nodes[at[k]].0
                &&& layout.placements@[k].row < layout.placements@[k].rows
                &&& layout.placements@[k].column <= layout.last_column
            },
        // Columns.
        forall|k: int, walk: Seq<usize>|
            #![trigger at[k], is_wire_walk(nodes, ws, walk)]
            0 <= k < at.len() && is_wire_walk(nodes, ws, walk) && walk.len() > 0 && walk.last()
                == at[k] ==> walk.len() <= layout.placements@[k].column + 1,
        forall|k: int|
            #![trigger at[k]]
            0 <= k < at.len() ==> walk_ends_at(
                nodes,
                ws,
                layout.placements@[k].column as nat,
                at[k],
            ),
        forall|walk: Seq<usize>| #[trigger]
            is_wire_walk(nodes, ws, walk) && walk.len() > 0 ==> walk.len() <= layout.last_column
                + 1,
        nodes.len() > 0 ==> exists|walk: Seq<usize>| #[trigger]
            is_wire_walk(nodes, ws, walk) && walk.len() == layout.last_column + 1,
        // Rows.
        forall|k: int, l: int|
            0 <= k < l < at.len() && (#[trigger] layout.placements@[k]).column == (
            #[trigger] layout.placements@[l]).column ==> layout.placements@[k].row
                < layout.placements@[l].row && layout.placements@[k].rows
                == layout.placements@[l].rows,
        forall|k: int, row: usize|
            0 <= k < at.len() && row < (#[trigger] layout.placements@[k]).rows ==> #[trigger]
                row_is_taken(layout, layout.placements@[k].column, row),
{
    let (settled, columns) = choose|settled: Seq<bool>, columns: Seq<usize>| #[trigger]
        columns_follow(nodes, ws, settled, columns) && layout.last_column == largest(columns)
            && layout.placements@ == placements_of(nodes, columns, nodes.len());
    let n = nodes.len();
    let kinds = kinds_in(nodes);
    let ps = layout.placements@;
    assert(columns.len() == n) by {
        reveal(columns_follow);
    }
    let at = placements_list(nodes, columns, n);
    let top = largest_is_one(columns);
    assert forall|k: int| #![trigger at[k]] 0 <= k < at.len() implies {
        &&& 0 <= at[k] < n
        &&& !(nodes[at[k]].1 is Input) && !(nodes[at[k]].1 is Output)
        &&& ps[k].id == nodes[at[k]].0
        &&& ps[k].column == columns[at[k]]
        &&& ps[k].row == stacked(kinds, columns, at[k] as nat, columns[at[k]])
        &&& ps[k].rows == stacked(kinds, columns, n, columns[at[k]])
        &&& ps[k].row < ps[k].rows
        &&& ps[k].column <= layout.last_column
    } by {
        let i = at[k];
        assert(ps[k] == placement_of(nodes, columns, i));
        assert(kinds[i] == nodes[i].1@);
        stacked_at_most(kinds, columns, i as nat, columns[i]);
        stacked_at_most(kinds, columns, n, columns[i]);
        stacked_grows(kinds, columns, i as nat, n, columns[i]);
        assert(columns[i] <= largest(columns));
    }
    assert forall|k: int, walk: Seq<usize>|
        #![trigger at[k], is_wire_walk(nodes, ws, walk)]
        0 <= k < at.len() && is_wire_walk(nodes, ws, walk) && walk.len() > 0 && walk.last()
            == at[k] implies walk.len() <= ps[k].column + 1 by {
        walks_are_no_longer(nodes, ws, settled, columns, rank, walk);
    }
    assert forall|k: int| #![trigger at[k]] 0 <= k < at.len() implies walk_ends_at(
        nodes,
        ws,
        ps[k].column as nat,
        at[k],
    ) by {
        let walk = walks_are_as_long(nodes, ws, settled, columns, at[k] as usize);
        assert(is_wire_walk(nodes, ws, walk));
    }
    assert forall|walk: Seq<usize>| #[trigger] is_wire_walk(nodes, ws, walk) && walk.len()
        > 0 implies walk.len() <= layout.last_column + 1 by {
        walks_are_no_longer(nodes, ws, settled, columns, rank, walk);
        assert(walk[walk.len() - 1] < n);
        assert(columns[walk.last() as int] <= largest(columns));
    }
    if n > 0 {
        let walk = walks_are_as_long(nodes, ws, settled, columns, top as usize);
        assert(is_wire_walk(nodes, ws, walk) && walk.len() == layout.last_column + 1);
    }
    assert forall|k: int, l: int|
        0 <= k < l < at.len() && (#[trigger] ps[k]).column == (
        #[trigger] ps[l]).column implies ps[k].row < ps[l].row && ps[k].rows == ps[l].rows by {
        assert(at[k] < at[l]);
        assert(kinds[at[k]] == nodes[at[k]].1@);
        stacked_grows(kinds, columns, at[k] as nat, at[l] as nat, columns[at[k]]);
    }
    assert forall|k: int, row: usize|
        0 <= k < at.len() && row < (#[trigger] ps[k]).rows implies #[trigger] row_is_taken(
        layout,
        ps[k].column,
        row,
    ) by {
        let c = columns[at[k]];
        assert(ps[k].column == c);
        let i = rows_are_taken(kinds, columns, n, c, row as nat);
        assert(kinds[i] == nodes[i].1@);
        assert(at.contains(i));
        let l = at.index_of(i);
        assert(at[l] == i);
        assert(ps[l].column == c && ps[l].row == row);
    }
    at
}

/// Whether a walk along wires with so many steps ends at a node.
pub open spec fn walk_ends_at(
    nodes: Seq<(usize, SessionNode)>,
    ws: Seq<Wire>,
    steps: nat,
    i: int,
) -> bool {
    exists|walk: Seq<usize>| #[trigger]
        is_wire_walk(nodes, ws, walk) && walk.len() == steps + 1 && walk.last() == i
}

/// Whether a row of a column is taken by a placement.
pub open spec fn row_is_taken(layout: Layout, column: usize, row: usize) -> bool {
    exists|k: int|
        0 <= k < layout.placements@.len() && (#[trigger] layout.placements@[k]).column == column
            && layout.placements@[k].row == row
}

proof fn free_is_settled(
    nodes: Seq<(usize, SessionNode)>,
    ws: Seq<Wire>,
    settled: Seq<bool>,
    columns: Seq<usize>,
    free: spec_fn(int) -> bool,
    rank: spec_fn(int) -> nat,
    c: int,
)
    requires
        columns_follow(nodes, ws, settled, columns),
        forall|a: int, b: int|
            0 <= a < nodes.len() && 0 <= b < nodes.len() && a != b && #[trigger] wired(
                nodes,
                ws,
                a,
                b,
            ) && free(b) ==> free(a) && rank(a) < rank(b),
        0 <= c < nodes.len(),
        free(c),
    ensures
        settled[c],
    decreases rank(c),
{
    reveal(columns_follow);
    assert forall|p: int| 0 <= p < nodes.len() && #[trigger] leads(
        nodes,
        ws,
        p,
        c,
    ) implies settled[p] by {
        assert(wired(nodes, ws, p, c));
        free_is_settled(nodes, ws, settled, columns, free, rank, p);
    }
}

/// Where wires run in a circle, the rest still reads from left to right: what a node
/// leads to stands further right than the node, as long as no circle leads to the
/// node. `free` are nodes that nothing in a circle leads to, `rank` rises along their
/// wires.
pub proof fn circles_leave_the_rest_in_order(
    nodes: Seq<(usize, SessionNode)>,
    ws: Seq<Wire>,
    layout: Layout,
    free: spec_fn(int) -> bool,
    rank: spec_fn(int) -> nat,
    k: int,
    l: int,
    p: int,
    c: int,
)
    requires
        is_layout(nodes, ws, layout),
        nodes.len() <= usize::MAX,
        ids_in(nodes).no_duplicates(),
        forall|a: int, b: int|
            0 <= a < nodes.len() && 0 <= b < nodes.len() && a != b && #[trigger] wired(
                nodes,
                ws,
                a,
                b,
            ) && free(b) ==> free(a) && rank(a) < rank(b),
        0 <= p < nodes.len(),
        0 <= c < nodes.len(),
        p != c,
        free(p),
        wired(nodes, ws, p, c),
        0 <= k < layout.placements@.len(),
        0 <= l < layout.placements@.len(),
        layout.placements@[k].id == nodes[p].0,
        layout.placements@[l].id == nodes[c].0,
    ensures
        layout.placements@[k].column < layout.placements@[l].column,
{
    let (settled, columns) = choose|settled: Seq<bool>, columns: Seq<usize>| #[trigger]
        columns_follow(nodes, ws, settled, columns) && layout.last_column == largest(columns)
            && layout.placements@ == placements_of(nodes, columns, nodes.len());
    let at = placements_list(nodes, columns, nodes.len());
    let ids = ids_in(nodes);
    free_is_settled(nodes, ws, settled, columns, free, rank, p);
    assert(leads(nodes, ws, p, c));
    assert(columns[p] < columns[c]) by {
        reveal(columns_follow);
    }
    assert(layout.placements@[k] == placement_of(nodes, columns, at[k]));
    assert(layout.placements@[l] == placement_of(nodes, columns, at[l]));
    assert(ids[at[k]] == ids[p] && ids[at[l]] == ids[c]);
    assert(at[k] == p && at[l] == c);
}

} // verus!
