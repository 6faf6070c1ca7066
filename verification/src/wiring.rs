//! What an engine plan does to signals.
//!
//! A plan may hold junctions that the graph does not have. These laws say that
//! the signals do not notice: they go from node to node in the engine exactly as
//! the wires of the graph say.
use crate::compile::{
    CompileError, CompileFault, EnginePlan, closed_graph, compile_message, creation_fault,
    edge_cases, edge_of, edge_shape, edges_view, engine_edges, engine_kinds, ids_in, index_of_id,
    kinds_in, listed_has_rank, manifest_of, manifest_view, merge_edges, merges_of, needs_merge,
    needs_split, only_merges_fan_in, only_splits_fan_out, plan_kinds, plan_outcome, split_edges,
    splits_of, wired_edges, wires_become_edges,
};
use crate::session::{NodeKind, SessionNode};
use crate::snarl::Wire;
use vstd::prelude::*;

verus! {

/// Whether step `k` of a walk is along a connection.
pub open spec fn steps(edges: Seq<(usize, usize)>, walk: Seq<usize>, k: int) -> bool {
    edges.contains((walk[k], walk[k + 1]))
}

/// A walk along connections, from its first node to its last.
pub open spec fn is_walk(edges: Seq<(usize, usize)>, walk: Seq<usize>) -> bool {
    forall|k: int| 0 <= k < walk.len() - 1 ==> #[trigger] steps(edges, walk, k)
}

/// Whether a wire leads from the node with index `a` to the node with index `b`.
pub open spec fn wired(nodes: Seq<(usize, SessionNode)>, ws: Seq<Wire>, a: int, b: int) -> bool {
    exists|i: int|
        0 <= i < ws.len() && (#[trigger] ws[i]).from == nodes[a].0 && ws[i].to == nodes[b].0
}

/// Whether step `k` of a walk is along a wire.
pub open spec fn wire_steps(
    nodes: Seq<(usize, SessionNode)>,
    ws: Seq<Wire>,
    walk: Seq<usize>,
    k: int,
) -> bool {
    wired(nodes, ws, walk[k] as int, walk[k + 1] as int)
}

/// A walk along wires, over the indices of the nodes.
pub open spec fn is_wire_walk(
    nodes: Seq<(usize, SessionNode)>,
    ws: Seq<Wire>,
    walk: Seq<usize>,
) -> bool {
    &&& forall|k: int| 0 <= k < walk.len() ==> (#[trigger] walk[k]) < nodes.len()
    &&& forall|k: int| 0 <= k < walk.len() - 1 ==> #[trigger] wire_steps(nodes, ws, walk, k)
}

/// The node of the graph that an engine node belongs to.
spec fn home(nodes: Seq<(usize, SessionNode)>, ws: Seq<Wire>, x: int) -> int {
    let n = nodes.len();
    let splits = splits_of(nodes, ws);
    if x < n {
        x
    } else if x < n + splits.len() {
        splits[x - n] as int
    } else {
        merges_of(nodes, ws)[x - n - splits.len()] as int
    }
}

spec fn added_split(nodes: Seq<(usize, SessionNode)>, ws: Seq<Wire>, x: int) -> bool {
    nodes.len() <= x < nodes.len() + splits_of(nodes, ws).len()
}

spec fn added_merge(nodes: Seq<(usize, SessionNode)>, ws: Seq<Wire>, x: int) -> bool {
    let first = nodes.len() + splits_of(nodes, ws).len();
    first <= x < first + merges_of(nodes, ws).len()
}

/// What a connection is: the way to an added split, the way out of an added
/// merge, or a wire.
proof fn edge_is(nodes: Seq<(usize, SessionNode)>, ws: Seq<Wire>, e: (int, int))
    requires
        closed_graph(nodes, ws),
        nodes.len() <= usize::MAX,
        engine_edges(nodes, ws).contains(e),
    ensures
        ({
            let n = nodes.len() as int;
            let (x, y) = e;
            &&& 0 <= home(nodes, ws, x) < n
            &&& 0 <= home(nodes, ws, y) < n
            &&& {
                ||| 0 <= x < n && added_split(nodes, ws, y) && home(nodes, ws, y) == x
                ||| added_merge(nodes, ws, x) && 0 <= y < n && home(nodes, ws, x) == y
                ||| {
                    &&& 0 <= x < n || added_split(nodes, ws, x)
                    &&& 0 <= y < n || added_merge(nodes, ws, y)
                    &&& wired(nodes, ws, home(nodes, ws, x), home(nodes, ws, y))
                }
            }
        }),
{
    let n = nodes.len();
    let edges = engine_edges(nodes, ws);
    let k = edges.index_of(e);
    assert(edges[k] == e);
    let i = edge_cases(nodes, ws, k);
    let s = split_edges(nodes, ws).len();
    let m = merge_edges(nodes, ws).len();
    if k < s {
        listed_has_rank(n, |j: int| needs_split(nodes[j], ws), k);
    } else if k < s + m {
        listed_has_rank(n, |j: int| needs_merge(nodes[j], ws), k - s);
    } else {
        edge_shape(nodes, ws, i);
        assert(ws[i].from == nodes[home(nodes, ws, e.0)].0);
        assert(ws[i].to == nodes[home(nodes, ws, e.1)].0);
    }
}

/// A connection of a plan, as it stands in it.
proof fn contained_edge(plan: EnginePlan, x: int, y: int)
    ensures
        edges_view(plan.edges@).contains((x, y)) ==> 0 <= x <= usize::MAX && 0 <= y <= usize::MAX
            && plan.edges@.contains((x as usize, y as usize)),
        0 <= x <= usize::MAX && 0 <= y <= usize::MAX && plan.edges@.contains(
            (x as usize, y as usize),
        ) ==> edges_view(plan.edges@).contains((x, y)),
{
    let edges = edges_view(plan.edges@);
    if edges.contains((x, y)) {
        let k = edges.index_of((x, y));
        assert(edges[k] == (plan.edges@[k].0 as int, plan.edges@[k].1 as int));
        assert(plan.edges@[k] == (x as usize, y as usize));
    }
    if 0 <= x <= usize::MAX && 0 <= y <= usize::MAX && plan.edges@.contains(
        (x as usize, y as usize),
    ) {
        let k = plan.edges@.index_of((x as usize, y as usize));
        assert(edges[k] == (x, y));
    }
}

/// What a graph needs of an engine is there: the way to each added split, the
/// way out of each added merge, and the connection of each wire.
proof fn edges_are_there(nodes: Seq<(usize, SessionNode)>, ws: Seq<Wire>, i: int)
    requires
        closed_graph(nodes, ws),
        nodes.len() <= usize::MAX,
        0 <= i < ws.len(),
    ensures
        ({
            let a = index_of_id(nodes, ws[i].from);
            let b = index_of_id(nodes, ws[i].to);
            let (from, to) = edge_of(nodes, ws, ws[i]);
            let edges = engine_edges(nodes, ws);
            &&& edges.contains((from, to))
            &&& needs_split(nodes[a], ws) ==> edges.contains((a, from)) && added_split(
                nodes,
                ws,
                from,
            )
            &&& needs_merge(nodes[b], ws) ==> edges.contains((to, b)) && added_merge(nodes, ws, to)
            &&& !needs_split(nodes[a], ws) ==> from == a
            &&& !needs_merge(nodes[b], ws) ==> to == b
        }),
{
    let n = nodes.len();
    let a = index_of_id(nodes, ws[i].from);
    let b = index_of_id(nodes, ws[i].to);
    let (from, to) = edge_of(nodes, ws, ws[i]);
    let s = split_edges(nodes, ws);
    let m = merge_edges(nodes, ws);
    let w = wired_edges(nodes, ws, ws.len());
    let edges = engine_edges(nodes, ws);
    edge_shape(nodes, ws, i);
    assert(w.contains((from, to))) by {
        wires_become_edges(nodes, ws, ws.len());
    }
    let at = w.index_of((from, to));
    assert(edges[s.len() + m.len() + at] == w[at]);
    if needs_split(nodes[a], ws) {
        assert(edges[from - n] == s[from - n]);
    }
    if needs_merge(nodes[b], ws) {
        let j = to - n - s.len();
        assert(edges[s.len() + j] == m[j]);
    }
}

/// Ids are unique, so the index of one is the only one.
proof fn index_is_unique(nodes: Seq<(usize, SessionNode)>, a: int)
    requires
        ids_in(nodes).no_duplicates(),
        0 <= a < nodes.len(),
    ensures
        index_of_id(nodes, nodes[a].0) == a,
{
    let ids = ids_in(nodes);
    assert(ids[a] == nodes[a].0);
    assert(ids.contains(nodes[a].0));
    assert(ids[ids.index_of(nodes[a].0)] == ids[a]);
}

/// Every wire of the graph is a walk of the engine through added junctions only:
/// out of its node, through the split behind it where there is one, through the
/// merge in front of the other node where there is one, and in.
pub proof fn wires_are_walks(
    nodes: Seq<(usize, SessionNode)>,
    ws: Seq<Wire>,
    known: Seq<Seq<char>>,
    plan: EnginePlan,
    a: usize,
    b: usize,
) -> (walk: Seq<usize>)
    requires
        closed_graph(nodes, ws),
        nodes.len() <= usize::MAX,
        plan_outcome(nodes, ws, known, Ok(plan)),
        a < nodes.len(),
        b < nodes.len(),
        wired(nodes, ws, a as int, b as int),
    ensures
        walk.len() >= 2,
        walk.first() == a,
        walk.last() == b,
        is_walk(plan.edges@, walk),
        forall|k: int|
            0 < k < walk.len() - 1 ==> nodes.len() <= #[trigger] walk[k] < plan.nodes@.len(),
{
    let i = choose|i: int|
        0 <= i < ws.len() && (#[trigger] ws[i]).from == nodes[a as int].0 && ws[i].to
            == nodes[b as int].0;
    index_is_unique(nodes, a as int);
    index_is_unique(nodes, b as int);
    edges_are_there(nodes, ws, i);
    let (from, to) = edge_of(nodes, ws, ws[i]);
    contained_edge(plan, from, to);
    contained_edge(plan, a as int, from);
    contained_edge(plan, to, b as int);
    assert(plan.nodes@.len() == plan_kinds(plan.nodes@).len());
    let (x, y) = (from as usize, to as usize);
    if needs_split(nodes[a as int], ws) {
        if needs_merge(nodes[b as int], ws) {
            seq![a, x, y, b]
        } else {
            seq![a, x, b]
        }
    } else if needs_merge(nodes[b as int], ws) {
        seq![a, y, b]
    } else {
        seq![a, b]
    }
}

/// A connection of a plan is one of the engine's.
proof fn plan_edge_is(
    nodes: Seq<(usize, SessionNode)>,
    ws: Seq<Wire>,
    known: Seq<Seq<char>>,
    plan: EnginePlan,
    x: usize,
    y: usize,
)
    requires
        closed_graph(nodes, ws),
        nodes.len() <= usize::MAX,
        plan_outcome(nodes, ws, known, Ok(plan)),
        plan.edges@.contains((x, y)),
    ensures
        engine_edges(nodes, ws).contains((x as int, y as int)),
{
    contained_edge(plan, x as int, y as int);
}

/// Every walk of the engine from one node of the graph to another through added
/// junctions only stands for a wire between the two.
pub proof fn walks_are_wires(
    nodes: Seq<(usize, SessionNode)>,
    ws: Seq<Wire>,
    known: Seq<Seq<char>>,
    plan: EnginePlan,
    walk: Seq<usize>,
)
    requires
        closed_graph(nodes, ws),
        nodes.len() <= usize::MAX,
        plan_outcome(nodes, ws, known, Ok(plan)),
        walk.len() >= 2,
        walk.first() < nodes.len(),
        walk.last() < nodes.len(),
        is_walk(plan.edges@, walk),
        forall|k: int| 0 < k < walk.len() - 1 ==> nodes.len() <= #[trigger] walk[k],
    ensures
        wired(nodes, ws, walk.first() as int, walk.last() as int),
{
    let n = nodes.len();
    assert(walk[0] == walk.first());
    assert(steps(plan.edges@, walk, 0));
    plan_edge_is(nodes, ws, known, plan, walk[0], walk[1]);
    edge_is(nodes, ws, (walk[0] as int, walk[1] as int));
    if walk.len() > 2 {
        assert(walk[1] >= n);
        assert(steps(plan.edges@, walk, 1));
        plan_edge_is(nodes, ws, known, plan, walk[1], walk[2]);
        edge_is(nodes, ws, (walk[1] as int, walk[2] as int));
        if walk.len() > 3 {
            assert(walk[2] >= n);
            assert(steps(plan.edges@, walk, 2));
            plan_edge_is(nodes, ws, known, plan, walk[2], walk[3]);
            edge_is(nodes, ws, (walk[2] as int, walk[3] as int));
            if walk.len() > 4 {
                assert(walk[3] >= n);
            }
        }
    }
}

/// Whether a signal gets from one engine node to another.
pub open spec fn engine_carries(edges: Seq<(usize, usize)>, a: usize, b: usize) -> bool {
    exists|walk: Seq<usize>| #[trigger]
        is_walk(edges, walk) && walk.len() >= 2 && walk.first() == a && walk.last() == b
}

/// Whether wires lead from one node of the graph to another.
pub open spec fn graph_carries(
    nodes: Seq<(usize, SessionNode)>,
    ws: Seq<Wire>,
    a: usize,
    b: usize,
) -> bool {
    exists|walk: Seq<usize>| #[trigger]
        is_wire_walk(nodes, ws, walk) && walk.len() >= 2 && walk.first() == a && walk.last() == b
}

/// Two walks, the second from where the first ends, are one.
proof fn walks_join(edges: Seq<(usize, usize)>, one: Seq<usize>, two: Seq<usize>)
    requires
        is_walk(edges, one),
        is_walk(edges, two),
        one.len() >= 1,
        two.len() >= 1,
        one.last() == two.first(),
    ensures
        is_walk(edges, one + two.drop_first()),
        (one + two.drop_first()).first() == one.first(),
        (one + two.drop_first()).last() == two.last(),
        (one + two.drop_first()).len() == one.len() + two.len() - 1,
{
    let walk = one + two.drop_first();
    assert forall|k: int| 0 <= k < walk.len() - 1 implies #[trigger] steps(edges, walk, k) by {
        if k < one.len() - 1 {
            assert(steps(edges, one, k));
        } else {
            assert(steps(edges, two, k - (one.len() - 1)));
        }
    }
}

/// A walk along wires is a walk of the engine.
proof fn wire_walk_is_carried(
    nodes: Seq<(usize, SessionNode)>,
    ws: Seq<Wire>,
    known: Seq<Seq<char>>,
    plan: EnginePlan,
    walk: Seq<usize>,
) -> (r: Seq<usize>)
    requires
        closed_graph(nodes, ws),
        nodes.len() <= usize::MAX,
        plan_outcome(nodes, ws, known, Ok(plan)),
        walk.len() >= 2,
        is_wire_walk(nodes, ws, walk),
    ensures
        is_walk(plan.edges@, r),
        r.len() >= 2,
        r.first() == walk.first(),
        r.last() == walk.last(),
    decreases walk.len(),
{
    let last = walk.len() - 1;
    assert(wire_steps(nodes, ws, walk, last - 1));
    let step = wires_are_walks(nodes, ws, known, plan, walk[last - 1], walk[last]);
    if walk.len() == 2 {
        step
    } else {
        let front = walk.drop_last();
        assert forall|k: int| 0 <= k < front.len() - 1 implies #[trigger] wire_steps(
            nodes,
            ws,
            front,
            k,
        ) by {
            assert(wire_steps(nodes, ws, walk, k));
        }
        let r = wire_walk_is_carried(nodes, ws, known, plan, front);
        walks_join(plan.edges@, r, step);
        r + step.drop_first()
    }
}

/// A walk of the engine that starts at a node of the graph follows wires, up to
/// the node that its last engine node belongs to.
proof fn walk_follows_wires(
    nodes: Seq<(usize, SessionNode)>,
    ws: Seq<Wire>,
    known: Seq<Seq<char>>,
    plan: EnginePlan,
    walk: Seq<usize>,
) -> (r: Seq<usize>)
    requires
        closed_graph(nodes, ws),
        nodes.len() <= usize::MAX,
        plan_outcome(nodes, ws, known, Ok(plan)),
        walk.len() >= 1,
        walk.first() < nodes.len(),
        is_walk(plan.edges@, walk),
    ensures
        is_wire_walk(nodes, ws, r),
        r.len() >= 1,
        r.first() == walk.first(),
        r.last() == home(nodes, ws, walk.last() as int),
        r.len() >= 2 || walk.len() == 1 || added_split(nodes, ws, walk.last() as int),
    decreases walk.len(),
{
    if walk.len() == 1 {
        walk
    } else {
        let front = walk.drop_last();
        assert forall|k: int| 0 <= k < front.len() - 1 implies #[trigger] steps(
            plan.edges@,
            front,
            k,
        ) by {
            assert(steps(plan.edges@, walk, k));
        }
        let r = walk_follows_wires(nodes, ws, known, plan, front);
        let x = walk[walk.len() - 2];
        let y = walk.last();
        assert(steps(plan.edges@, walk, walk.len() - 2));
        plan_edge_is(nodes, ws, known, plan, x, y);
        edge_is(nodes, ws, (x as int, y as int));
        let a = home(nodes, ws, x as int);
        let b = home(nodes, ws, y as int);
        if a == b && r.len() >= 2 {
            r
        } else if added_split(nodes, ws, y as int) {
            r
        } else {
            let long = r.push(b as usize);
            assert(wired(nodes, ws, a, b));
            assert forall|k: int| 0 <= k < long.len() - 1 implies #[trigger] wire_steps(
                nodes,
                ws,
                long,
                k,
            ) by {
                if k < r.len() - 1 {
                    assert(wire_steps(nodes, ws, r, k));
                }
            }
            long
        }
    }
}

/// The engine carries signals exactly as the graph does: one node of the graph
/// is heard at another in the engine exactly if wires lead from it to the other.
pub proof fn engine_carries_what_the_graph_does(
    nodes: Seq<(usize, SessionNode)>,
    ws: Seq<Wire>,
    known: Seq<Seq<char>>,
    plan: EnginePlan,
    a: usize,
    b: usize,
)
    requires
        closed_graph(nodes, ws),
        nodes.len() <= usize::MAX,
        plan_outcome(nodes, ws, known, Ok(plan)),
        a < nodes.len(),
        b < nodes.len(),
    ensures
        engine_carries(plan.edges@, a, b) <==> graph_carries(nodes, ws, a, b),
{
    if engine_carries(plan.edges@, a, b) {
        let walk = choose|walk: Seq<usize>| #[trigger]
            is_walk(plan.edges@, walk) && walk.len() >= 2 && walk.first() == a && walk.last() == b;
        let r = walk_follows_wires(nodes, ws, known, plan, walk);
        assert(is_wire_walk(nodes, ws, r));
    }
    if graph_carries(nodes, ws, a, b) {
        let walk = choose|walk: Seq<usize>| #[trigger]
            is_wire_walk(nodes, ws, walk) && walk.len() >= 2 && walk.first() == a && walk.last()
                == b;
        let r = wire_walk_is_carried(nodes, ws, known, plan, walk);
        assert(is_walk(plan.edges@, r));
    }
}

/// The nodes of the graph are the first of the engine, each as it is, and the
/// others are splits and merges. All connections are between nodes that are
/// there, and none is made twice.
pub proof fn engine_keeps_the_nodes(
    nodes: Seq<(usize, SessionNode)>,
    ws: Seq<Wire>,
    known: Seq<Seq<char>>,
    plan: EnginePlan,
)
    requires
        closed_graph(nodes, ws),
        nodes.len() <= usize::MAX,
        plan_outcome(nodes, ws, known, Ok(plan)),
    ensures
        plan.nodes@.len() >= nodes.len(),
        forall|i: int| 0 <= i < nodes.len() ==> (#[trigger] plan.nodes@[i])@ == nodes[i].1@,
        forall|i: int|
            nodes.len() <= i < plan.nodes@.len() ==> (#[trigger] plan.nodes@[i]) is Split
                || plan.nodes@[i] is Merge,
        forall|k: int|
            0 <= k < plan.edges@.len() ==> (#[trigger] plan.edges@[k]).0 < plan.nodes@.len()
                && plan.edges@[k].1 < plan.nodes@.len(),
        plan.edges@.no_duplicates(),
{
    let kinds = plan_kinds(plan.nodes@);
    let edges = edges_view(plan.edges@);
    assert(kinds == engine_kinds(nodes, ws) && kinds.len() == plan.nodes@.len());
    assert forall|i: int| 0 <= i < nodes.len() implies (#[trigger] plan.nodes@[i])@
        == nodes[i].1@ by {
        assert(kinds[i] == kinds_in(nodes)[i]);
    }
    assert forall|i: int| nodes.len() <= i < plan.nodes@.len() implies (
    #[trigger] plan.nodes@[i]) is Split || plan.nodes@[i] is Merge by {
        assert(kinds[i] == engine_kinds(nodes, ws)[i]);
    }
    assert forall|k: int| 0 <= k < plan.edges@.len() implies (#[trigger] plan.edges@[k]).0
        < plan.nodes@.len() && plan.edges@[k].1 < plan.nodes@.len() by {
        assert(edges[k] == (plan.edges@[k].0 as int, plan.edges@[k].1 as int));
        assert(edges.contains(edges[k]));
        edge_is(nodes, ws, edges[k]);
        assert(kinds.len() == engine_kinds(nodes, ws).len());
    }
    assert forall|k: int, l: int|
        0 <= k < plan.edges@.len() && 0 <= l < plan.edges@.len() && k
            != l implies #[trigger] plan.edges@[k] != #[trigger] plan.edges@[l] by {
        assert(edges[k] == (plan.edges@[k].0 as int, plan.edges@[k].1 as int));
        assert(edges[l] == (plan.edges@[l].0 as int, plan.edges@[l].1 as int));
        edges_differ(nodes, ws, k, l);
    }
}

/// No connection of the engine stands twice.
proof fn edges_differ(nodes: Seq<(usize, SessionNode)>, ws: Seq<Wire>, k: int, l: int)
    requires
        closed_graph(nodes, ws),
        nodes.len() <= usize::MAX,
        0 <= k < engine_edges(nodes, ws).len(),
        0 <= l < engine_edges(nodes, ws).len(),
        k != l,
    ensures
        engine_edges(nodes, ws)[k] != engine_edges(nodes, ws)[l],
{
    let s = split_edges(nodes, ws).len();
    let m = merge_edges(nodes, ws).len();
    let i = edge_cases(nodes, ws, k);
    let j = edge_cases(nodes, ws, l);
    wires_become_edges(nodes, ws, ws.len());
    let n = nodes.len();
    if k < s {
        listed_has_rank(n, |j: int| needs_split(nodes[j], ws), k);
    } else if k < s + m {
        listed_has_rank(n, |j: int| needs_merge(nodes[j], ws), k - s);
    } else {
        edge_shape(nodes, ws, i);
    }
    if l < s {
        listed_has_rank(n, |j: int| needs_split(nodes[j], ws), l);
    } else if l < s + m {
        listed_has_rank(n, |j: int| needs_merge(nodes[j], ws), l - s);
    } else {
        edge_shape(nodes, ws, j);
    }
}

/// Signals divide at splits and join at merges, and nowhere else.
pub proof fn engine_divides_and_joins_at_junctions(
    nodes: Seq<(usize, SessionNode)>,
    ws: Seq<Wire>,
    known: Seq<Seq<char>>,
    plan: EnginePlan,
    k: int,
    l: int,
)
    requires
        closed_graph(nodes, ws),
        nodes.len() <= usize::MAX,
        plan_outcome(nodes, ws, known, Ok(plan)),
        0 <= k < plan.edges@.len(),
        0 <= l < plan.edges@.len(),
        k != l,
    ensures
        plan.edges@[k].0 == plan.edges@[l].0 ==> plan.nodes@[plan.edges@[k].0 as int] is Split,
        plan.edges@[k].1 == plan.edges@[l].1 ==> plan.nodes@[plan.edges@[k].1 as int] is Merge,
{
    let edges = edges_view(plan.edges@);
    assert(edges[k] == (plan.edges@[k].0 as int, plan.edges@[k].1 as int));
    assert(edges[l] == (plan.edges@[l].0 as int, plan.edges@[l].1 as int));
    if plan.edges@[k].0 == plan.edges@[l].0 {
        only_splits_fan_out(nodes, ws, k, l);
        assert(plan_kinds(plan.nodes@)[edges[k].0] is Split);
    }
    if plan.edges@[k].1 == plan.edges@[l].1 {
        only_merges_fan_in(nodes, ws, k, l);
        assert(plan_kinds(plan.nodes@)[edges[k].1] is Merge);
    }
}

/// No junction is added without need: an added split is fed by a node of the
/// graph that is no split itself, and feeds two engine nodes; an added merge is fed
/// by two, and feeds a node of the graph that is no merge itself.
pub proof fn added_junctions_are_needed(
    nodes: Seq<(usize, SessionNode)>,
    ws: Seq<Wire>,
    known: Seq<Seq<char>>,
    plan: EnginePlan,
    x: usize,
) -> (r: (usize, usize, usize))
    requires
        closed_graph(nodes, ws),
        nodes.len() <= usize::MAX,
        plan_outcome(nodes, ws, known, Ok(plan)),
        nodes.len() <= x < plan.nodes@.len(),
    ensures
        r.0 < nodes.len(),
        r.1 != r.2,
        plan.nodes@[x as int] is Split ==> !(nodes[r.0 as int].1 is Split),
        plan.nodes@[x as int] is Merge ==> !(nodes[r.0 as int].1 is Merge),
        plan.nodes@[x as int] is Split ==> plan.edges@.contains((r.0, x))
            && plan.edges@.contains((x, r.1)) && plan.edges@.contains((x, r.2)),
        plan.nodes@[x as int] is Merge ==> plan.edges@.contains((x, r.0))
            && plan.edges@.contains((r.1, x)) && plan.edges@.contains((r.2, x)),
{
    let n = nodes.len();
    let splits = splits_of(nodes, ws);
    let merges = merges_of(nodes, ws);
    let h = home(nodes, ws, x as int);
    let kinds = plan_kinds(plan.nodes@);
    assert(kinds == engine_kinds(nodes, ws) && kinds.len() == plan.nodes@.len());
    assert(kinds[x as int] == plan.nodes@[x as int]@);
    if x < n + splits.len() {
        listed_has_rank(n, |j: int| needs_split(nodes[j], ws), x - n);
        let (i, j) = choose|i: int, j: int|
            0 <= i < ws.len() && 0 <= j < ws.len() && (#[trigger] ws[i]).from == nodes[h].0 && (
            #[trigger] ws[j]).from == nodes[h].0 && ws[i].to != ws[j].to;
        index_is_unique(nodes, h);
        edges_are_there(nodes, ws, i);
        edges_are_there(nodes, ws, j);
        edge_shape(nodes, ws, i);
        edge_shape(nodes, ws, j);
        let p = edge_of(nodes, ws, ws[i]).1;
        let q = edge_of(nodes, ws, ws[j]).1;
        contained_edge(plan, h, x as int);
        contained_edge(plan, x as int, p);
        contained_edge(plan, x as int, q);
        (h as usize, p as usize, q as usize)
    } else {
        listed_has_rank(n, |j: int| needs_merge(nodes[j], ws), x - n - splits.len());
        let (i, j) = choose|i: int, j: int|
            0 <= i < ws.len() && 0 <= j < ws.len() && (#[trigger] ws[i]).to == nodes[h].0 && (
            #[trigger] ws[j]).to == nodes[h].0 && ws[i].from != ws[j].from;
        index_is_unique(nodes, h);
        edges_are_there(nodes, ws, i);
        edges_are_there(nodes, ws, j);
        edge_shape(nodes, ws, i);
        edge_shape(nodes, ws, j);
        let p = edge_of(nodes, ws, ws[i]).0;
        let q = edge_of(nodes, ws, ws[j]).0;
        contained_edge(plan, x as int, h);
        contained_edge(plan, p, x as int);
        contained_edge(plan, q, x as int);
        (h as usize, p as usize, q as usize)
    }
}

proof fn manifest_lists(kinds: Seq<NodeKind>)
    ensures
        forall|k: int|
            #![trigger manifest_of(kinds)[k]]
            0 <= k < manifest_of(kinds).len() ==> 0 <= manifest_of(kinds)[k].0 < kinds.len()
                && kinds[manifest_of(kinds)[k].0] == NodeKind::Effect(manifest_of(kinds)[k].1),
        forall|k: int, l: int|
            0 <= k < l < manifest_of(kinds).len() ==> (#[trigger] manifest_of(kinds)[k]).0 < (
            #[trigger] manifest_of(kinds)[l]).0,
        forall|i: int|
            #![trigger kinds[i]]
            0 <= i < kinds.len() && kinds[i] is Effect ==> exists|k: int|
                0 <= k < manifest_of(kinds).len() && (#[trigger] manifest_of(kinds)[k]).0 == i,
    decreases kinds.len(),
{
    if kinds.len() > 0 {
        let front = kinds.drop_last();
        manifest_lists(front);
        let before = manifest_of(front);
        let after = manifest_of(kinds);
        assert forall|k: int| #![trigger after[k]] 0 <= k < after.len() implies 0 <= after[k].0
            < kinds.len() && kinds[after[k].0] == NodeKind::Effect(after[k].1) by {
            if k < before.len() {
                assert(after[k] == before[k]);
                assert(front[before[k].0] == kinds[before[k].0]);
            }
        }
        assert forall|k: int, l: int| 0 <= k < l < after.len() implies (#[trigger] after[k]).0 < (
        #[trigger] after[l]).0 by {
            assert(after[k] == before[k]);
            if l < before.len() {
                assert(after[l] == before[l]);
            }
        }
        assert forall|i: int|
            #![trigger kinds[i]]
            0 <= i < kinds.len() && kinds[i] is Effect implies exists|k: int|
            0 <= k < after.len() && (#[trigger] after[k]).0 == i by {
            if i < front.len() {
                assert(front[i] == kinds[i]);
                let k = choose|k: int| 0 <= k < before.len() && (#[trigger] before[k]).0 == i;
                assert(after[k] == before[k]);
            } else {
                assert(after[before.len() as int].0 == i);
            }
        }
    }
}

/// The manifest lists every effect of the graph once, in the order of the nodes,
/// under the number of its engine node and with its id.
pub proof fn manifest_lists_the_effects(
    nodes: Seq<(usize, SessionNode)>,
    ws: Seq<Wire>,
    known: Seq<Seq<char>>,
    plan: EnginePlan,
)
    requires
        plan_outcome(nodes, ws, known, Ok(plan)),
    ensures
        forall|k: int|
            0 <= k < plan.manifest@.len() ==> (#[trigger] plan.manifest@[k]).0 < nodes.len()
                && nodes[plan.manifest@[k].0 as int].1@ == NodeKind::Effect(
                plan.manifest@[k].1@,
            ),
        forall|k: int, l: int|
            0 <= k < l < plan.manifest@.len() ==> (#[trigger] plan.manifest@[k]).0 < (
            #[trigger] plan.manifest@[l]).0,
        forall|i: int|
            0 <= i < nodes.len() && (#[trigger] nodes[i]).1@ is Effect ==> exists|k: int|
                0 <= k < plan.manifest@.len() && (#[trigger] plan.manifest@[k]).0 == i,
{
    let kinds = kinds_in(nodes);
    let listed = manifest_of(kinds);
    manifest_lists(kinds);
    assert(manifest_view(plan.manifest@).len() == plan.manifest@.len());
    assert forall|k: int| 0 <= k < plan.manifest@.len() implies (#[trigger] plan.manifest@[k]).0
        < nodes.len() && nodes[plan.manifest@[k].0 as int].1@ == NodeKind::Effect(
        plan.manifest@[k].1@,
    ) by {
        assert(listed[k] == (plan.manifest@[k].0 as int, plan.manifest@[k].1@));
    }
    assert forall|k: int, l: int| 0 <= k < l < plan.manifest@.len() implies (
    #[trigger] plan.manifest@[k]).0 < (#[trigger] plan.manifest@[l]).0 by {
        assert(listed[k] == (plan.manifest@[k].0 as int, plan.manifest@[k].1@));
        assert(listed[l] == (plan.manifest@[l].0 as int, plan.manifest@[l].1@));
    }
    assert forall|i: int| 0 <= i < nodes.len() && (
    #[trigger] nodes[i]).1@ is Effect implies exists|k: int|
        0 <= k < plan.manifest@.len() && (#[trigger] plan.manifest@[k]).0 == i by {
        assert(kinds[i] == nodes[i].1@);
        let k = choose|k: int| 0 <= k < listed.len() && (#[trigger] listed[k]).0 == i;
        assert(listed[k] == (plan.manifest@[k].0 as int, plan.manifest@[k].1@));
    }
}

/// What a node that cannot be created says of the nodes up to it.
proof fn creation_fault_is(kinds: Seq<NodeKind>, known: Seq<Seq<char>>)
    ensures
        creation_fault(kinds, known) is None <==> {
            &&& forall|i: int, j: int|
                0 <= i < j < kinds.len() && #[trigger] kinds[i] is Input ==> !(
                #[trigger] kinds[j] is Input)
            &&& forall|i: int, j: int|
                0 <= i < j < kinds.len() && #[trigger] kinds[i] is Output ==> !(
                #[trigger] kinds[j] is Output)
            &&& forall|i: int|
                0 <= i < kinds.len() && #[trigger] kinds[i] is Effect ==> known.contains(
                    kinds[i]->Effect_0,
                )
        },
    decreases kinds.len(),
{
    if kinds.len() > 0 {
        let front = kinds.drop_last();
        let last = kinds.last();
        creation_fault_is(front, known);
        assert forall|i: int| 0 <= i < front.len() implies front[i] == #[trigger] kinds[i] by {}
        if creation_fault(front, known) is None {
            if front.contains(NodeKind::Input) {
                let i = front.index_of(NodeKind::Input);
                assert(kinds[i] is Input);
            }
            if front.contains(NodeKind::Output) {
                let i = front.index_of(NodeKind::Output);
                assert(kinds[i] is Output);
            }
            assert(kinds[kinds.len() - 1] == last);
            assert forall|i: int, j: int|
                0 <= i < j < kinds.len() && #[trigger] kinds[i] is Input && creation_fault(
                    kinds,
                    known,
                ) is None implies !(#[trigger] kinds[j] is Input) by {
                assert(front[i] == NodeKind::Input);
                if j < front.len() {
                    assert(front[j] == kinds[j]);
                }
            }
            assert forall|i: int, j: int|
                0 <= i < j < kinds.len() && #[trigger] kinds[i] is Output && creation_fault(
                    kinds,
                    known,
                ) is None implies !(#[trigger] kinds[j] is Output) by {
                assert(front[i] == NodeKind::Output);
                if j < front.len() {
                    assert(front[j] == kinds[j]);
                }
            }
            assert forall|i: int|
                0 <= i < kinds.len() && #[trigger] kinds[i] is Effect && creation_fault(
                    kinds,
                    known,
                ) is None implies known.contains(kinds[i]->Effect_0) by {
                if i < front.len() {
                    assert(front[i] == kinds[i]);
                }
            }
        } else {
            if forall|i: int, j: int|
                0 <= i < j < kinds.len() && #[trigger] kinds[i] is Input ==> !(
                #[trigger] kinds[j] is Input) {
                assert forall|i: int, j: int|
                    0 <= i < j < front.len() && #[trigger] front[i] is Input implies !(
                #[trigger] front[j] is Input) by {
                    assert(kinds[i] is Input ==> !(kinds[j] is Input));
                }
            }
            if forall|i: int, j: int|
                0 <= i < j < kinds.len() && #[trigger] kinds[i] is Output ==> !(
                #[trigger] kinds[j] is Output) {
                assert forall|i: int, j: int|
                    0 <= i < j < front.len() && #[trigger] front[i] is Output implies !(
                #[trigger] front[j] is Output) by {
                    assert(kinds[i] is Output ==> !(kinds[j] is Output));
                }
            }
            if forall|i: int|
                0 <= i < kinds.len() && #[trigger] kinds[i] is Effect ==> known.contains(
                    kinds[i]->Effect_0,
                ) {
                assert forall|i: int|
                    0 <= i < front.len() && #[trigger] front[i] is Effect implies known.contains(
                    front[i]->Effect_0,
                ) by {
                    assert(kinds[i] is Effect);
                }
            }
        }
    }
}

/// A graph compiles exactly if it has one input and one output and all its
/// effects are known.
pub proof fn what_compiles(
    nodes: Seq<(usize, SessionNode)>,
    ws: Seq<Wire>,
    known: Seq<Seq<char>>,
    r: Result<EnginePlan, CompileError>,
)
    requires
        plan_outcome(nodes, ws, known, r),
    ensures
        r is Ok <==> {
            &&& exists|i: int| 0 <= i < nodes.len() && #[trigger] nodes[i].1@ is Input
            &&& exists|i: int| 0 <= i < nodes.len() && #[trigger] nodes[i].1@ is Output
            &&& forall|i: int, j: int|
                0 <= i < j < nodes.len() && #[trigger] nodes[i].1@ is Input ==> !(
                #[trigger] nodes[j].1@ is Input)
            &&& forall|i: int, j: int|
                0 <= i < j < nodes.len() && #[trigger] nodes[i].1@ is Output ==> !(
                #[trigger] nodes[j].1@ is Output)
            &&& forall|i: int|
                0 <= i < nodes.len() && #[trigger] nodes[i].1@ is Effect ==> known.contains(
                    nodes[i].1@->Effect_0,
                )
        },
{
    let kinds = kinds_in(nodes);
    creation_fault_is(kinds, known);
    assert forall|i: int| 0 <= i < nodes.len() implies kinds[i] == (#[trigger] nodes[i]).1@ by {}
    if kinds.contains(NodeKind::Input) {
        let i = kinds.index_of(NodeKind::Input);
        assert(nodes[i].1@ is Input);
    }
    if kinds.contains(NodeKind::Output) {
        let i = kinds.index_of(NodeKind::Output);
        assert(nodes[i].1@ is Output);
    }
    if exists|i: int| 0 <= i < nodes.len() && #[trigger] nodes[i].1@ is Input {
        let i = choose|i: int| 0 <= i < nodes.len() && #[trigger] nodes[i].1@ is Input;
        assert(kinds[i] == NodeKind::Input);
    }
    if exists|i: int| 0 <= i < nodes.len() && #[trigger] nodes[i].1@ is Output {
        let i = choose|i: int| 0 <= i < nodes.len() && #[trigger] nodes[i].1@ is Output;
        assert(kinds[i] == NodeKind::Output);
    }
}

/// The node that a creation fault is about: the first that cannot be created.
proof fn faulty_node(kinds: Seq<NodeKind>, known: Seq<Seq<char>>) -> (j: int)
    requires
        creation_fault(kinds, known) is Some,
    ensures
        0 <= j < kinds.len(),
        creation_fault(kinds.take(j), known) is None,
        match creation_fault(kinds, known).unwrap() {
            CompileFault::MultipleInputs => kinds[j] is Input && exists|i: int|
                0 <= i < j && #[trigger] kinds[i] is Input,
            CompileFault::MultipleOutputs => kinds[j] is Output && exists|i: int|
                0 <= i < j && #[trigger] kinds[i] is Output,
            CompileFault::EffectCreation(id) => kinds[j] == NodeKind::Effect(id)
                && !known.contains(id),
            _ => false,
        },
    decreases kinds.len(),
{
    let front = kinds.drop_last();
    if creation_fault(front, known) is Some {
        let j = faulty_node(front, known);
        assert(front.take(j) =~= kinds.take(j));
        assert forall|i: int| 0 <= i < front.len() implies #[trigger] front[i] == kinds[i] by {}
        match creation_fault(front, known).unwrap() {
            CompileFault::MultipleInputs => {
                let i = choose|i: int| 0 <= i < j && #[trigger] front[i] is Input;
                assert(kinds[i] is Input);
            },
            CompileFault::MultipleOutputs => {
                let i = choose|i: int| 0 <= i < j && #[trigger] front[i] is Output;
                assert(kinds[i] is Output);
            },
            _ => {},
        }
        j
    } else {
        assert(kinds.take(kinds.len() - 1) =~= front);
        if front.contains(NodeKind::Input) {
            let i = front.index_of(NodeKind::Input);
            assert(kinds[i] is Input);
        }
        if front.contains(NodeKind::Output) {
            let i = front.index_of(NodeKind::Output);
            assert(kinds[i] is Output);
        }
        kinds.len() - 1
    }
}

/// A refusal names what is wrong: a second input or output, or an effect that is
/// not known, whichever stands first among the nodes; else the missing input,
/// and last the missing output.
pub proof fn refusals_name_the_fault(
    nodes: Seq<(usize, SessionNode)>,
    ws: Seq<Wire>,
    known: Seq<Seq<char>>,
    e: CompileError,
) -> (j: int)
    requires
        plan_outcome(nodes, ws, known, Err(e)),
    ensures
        0 <= j <= nodes.len(),
        // Up to there nothing is wrong.
        forall|a: int, b: int|
            0 <= a < b < j && #[trigger] nodes[a].1@ is Input ==> !(
            #[trigger] nodes[b].1@ is Input),
        forall|a: int, b: int|
            0 <= a < b < j && #[trigger] nodes[a].1@ is Output ==> !(
            #[trigger] nodes[b].1@ is Output),
        forall|a: int|
            0 <= a < j && #[trigger] nodes[a].1@ is Effect ==> known.contains(
                nodes[a].1@->Effect_0,
            ),
        match e {
            CompileError::MultipleInputs => j < nodes.len() && nodes[j].1@ is Input && exists|i:
                int|
                0 <= i < j && #[trigger] nodes[i].1@ is Input,
            CompileError::MultipleOutputs => j < nodes.len() && nodes[j].1@ is Output && exists|i:
                int|
                0 <= i < j && #[trigger] nodes[i].1@ is Output,
            CompileError::EffectCreation(id) => j < nodes.len() && nodes[j].1@
                == NodeKind::Effect(id@) && !known.contains(id@),
            CompileError::NoInput => j == nodes.len() && forall|i: int|
                0 <= i < j ==> !(#[trigger] nodes[i].1@ is Input),
            CompileError::NoOutput => j == nodes.len() && (forall|i: int|
                0 <= i < j ==> !(#[trigger] nodes[i].1@ is Output)) && exists|i: int|
                0 <= i < j && #[trigger] nodes[i].1@ is Input,
            CompileError::GraphError(_) => false,
        },
{
    let kinds = kinds_in(nodes);
    assert forall|i: int| 0 <= i < nodes.len() implies kinds[i] == (#[trigger] nodes[i]).1@ by {}
    let j = if creation_fault(kinds, known) is Some {
        let j = faulty_node(kinds, known);
        match creation_fault(kinds, known).unwrap() {
            CompileFault::MultipleInputs => {
                let i = choose|i: int| 0 <= i < j && #[trigger] kinds[i] is Input;
                assert(nodes[i].1@ is Input);
            },
            CompileFault::MultipleOutputs => {
                let i = choose|i: int| 0 <= i < j && #[trigger] kinds[i] is Output;
                assert(nodes[i].1@ is Output);
            },
            _ => {},
        }
        j
    } else {
        assert(kinds.take(kinds.len() as int) =~= kinds);
        assert forall|i: int| 0 <= i < nodes.len() && #[trigger] nodes[i].1@ is Input implies
            kinds.contains(NodeKind::Input) by {
            assert(kinds[i] == NodeKind::Input);
        }
        assert forall|i: int| 0 <= i < nodes.len() && #[trigger] nodes[i].1@ is Output implies
            kinds.contains(NodeKind::Output) by {
            assert(kinds[i] == NodeKind::Output);
        }
        if kinds.contains(NodeKind::Input) {
            let i = kinds.index_of(NodeKind::Input);
            assert(nodes[i].1@ is Input);
        }
        nodes.len() as int
    };
    let before = kinds.take(j);
    creation_fault_is(before, known);
    assert forall|a: int, b: int|
        0 <= a < b < j && #[trigger] nodes[a].1@ is Input implies !(
    #[trigger] nodes[b].1@ is Input) by {
        assert(before[a] is Input);
        assert(before[b] == nodes[b].1@);
    }
    assert forall|a: int, b: int|
        0 <= a < b < j && #[trigger] nodes[a].1@ is Output implies !(
    #[trigger] nodes[b].1@ is Output) by {
        assert(before[a] is Output);
        assert(before[b] == nodes[b].1@);
    }
    assert forall|a: int| 0 <= a < j && #[trigger] nodes[a].1@ is Effect implies known.contains(
        nodes[a].1@->Effect_0,
    ) by {
        assert(before[a] is Effect);
    }
    j
}

/// A refusal is told in words that name the effect, or hold what the engine said.
pub proof fn refusals_are_told(text: Seq<char>)
    ensures
        compile_message(CompileFault::EffectCreation(text)) == "failed to create effect '"@ + text
            + "' from registry"@,
        compile_message(CompileFault::GraphError(text)) == "graph compilation failed: "@ + text,
        compile_message(CompileFault::NoInput) == "graph has no Input node"@,
        compile_message(CompileFault::NoOutput) == "graph has no Output node"@,
        compile_message(CompileFault::MultipleInputs) == "graph has multiple Input nodes"@,
        compile_message(CompileFault::MultipleOutputs) == "graph has multiple Output nodes"@,
{
}

} // verus!
