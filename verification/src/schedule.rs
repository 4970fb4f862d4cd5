//! The order in which a graph is swept from its input endpoint to its
//! output endpoint.

use vstd::prelude::*;

use crate::graph;
use crate::graph::{EdgeModel, Graph};
use crate::id::NodeId;
use crate::reach;
use crate::reach::NodeSet;
use crate::text;

verus! {

/// The nodes of an endpoint-to-endpoint sweep: those that the input
/// endpoint reaches or that reach it, as far as they reach the output
/// endpoint.
pub open spec fn live_set(edges: Seq<EdgeModel>, input: NodeId, output: NodeId) -> Set<NodeId> {
    Set::new(
        |n: NodeId|
            (reach::reaches(edges, input, n) || reach::reaches(edges, n, input)) && reach::reaches(
                edges,
                n,
                output,
            ),
    )
}

/// Every node on a path of the graph, apart from a lone start, is one of
/// its nodes.
proof fn lemma_reached_exists(graph: &Graph, a: NodeId, b: NodeId)
    requires
        graph.wf(),
        reach::reaches(graph.edge_models(), a, b),
    ensures
        graph.has(a) <==> graph.has(b),
{
    let edges = graph.edge_models();
    let path = choose|path: Seq<NodeId>| #[trigger]
        reach::is_path(edges, path) && path[0] == a && path.last() == b;
    if path.len() > 1 {
        assert(graph::linked(edges, path[0], path[1]));
        assert(graph::linked(edges, path[path.len() - 2], path[path.len() - 2 + 1]));
    }
}

/// The live set: the input's forward cone and the nodes that feed the
/// input, intersected with the output's backward cone.
pub fn live_nodes(graph: &Graph, input: NodeId, output: NodeId) -> (r: NodeSet)
    requires
        graph.wf(),
        graph.has(input),
        graph.has(output),
    ensures
        r@ == live_set(graph.edge_models(), input, output),
        r.capacity() == graph.entries().len(),
        forall|n: NodeId| #[trigger] r@.contains(n) ==> graph.has(n),
{
    let forward = reach::reachable(graph, input, false);
    let feeders = reach::reachable(graph, input, true);
    let backward = reach::reachable(graph, output, true);
    let count: usize = graph.node_count();
    let mut live: NodeSet = NodeSet::new(count);
    let ghost wanted = live_set(graph.edge_models(), input, output);
    let mut i: usize = 0;
    while i < count
        invariant
            i <= count,
            count == graph.entries().len(),
            live.capacity() == count,
            wanted == live_set(graph.edge_models(), input, output),
            forall|n: NodeId| #[trigger]
                forward@.contains(n) <==> reach::reaches(graph.edge_models(), input, n),
            forall|n: NodeId| #[trigger]
                feeders@.contains(n) <==> reach::reaches(graph.edge_models(), n, input),
            forall|n: NodeId| #[trigger]
                backward@.contains(n) <==> reach::reaches(graph.edge_models(), n, output),
            forall|n: NodeId| #[trigger] live@.contains(n) <==> n.0 < i && wanted.contains(n),
        decreases count - i,
    {
        let node: NodeId = NodeId(i as u64);
        let ghost before = live@;
        if (forward.contains(node) || feeders.contains(node)) && backward.contains(node) {
            live.insert(node);
        }
        assert forall|n: NodeId| #[trigger] live@.contains(n) <==> n.0 < i + 1 && wanted.contains(
            n,
        ) by {
            if n.0 == i {
                assert(n == node);
            }
        }
        i = i + 1;
    }
    assert forall|n: NodeId| wanted.contains(n) implies n.0 < count by {
        lemma_reached_exists(graph, n, output);
    }
    assert(live@ =~= wanted);
    live
}

/// `n` can be swept next: it is live, was not swept, and every live node
/// that feeds it was.
pub open spec fn ready(
    edges: Seq<EdgeModel>,
    live: Set<NodeId>,
    done: Set<NodeId>,
    n: NodeId,
) -> bool {
    &&& live.contains(n)
    &&& !done.contains(n)
    &&& forall|m: NodeId| #[trigger] graph::linked(edges, m, n) && live.contains(m)
        ==> done.contains(m)
}

/// `n` is the smallest node that can be swept next.
pub open spec fn next_swept(
    edges: Seq<EdgeModel>,
    live: Set<NodeId>,
    done: Set<NodeId>,
    n: NodeId,
) -> bool {
    &&& ready(edges, live, done, n)
    &&& forall|m: NodeId| #[trigger] ready(edges, live, done, m) ==> n.0 <= m.0
}

/// Each node of `order` is the smallest one that can be swept after those
/// before it.
pub open spec fn is_order(
    edges: Seq<EdgeModel>,
    live: Set<NodeId>,
    order: Seq<NodeId>,
) -> bool {
    forall|k: int|
        0 <= k < order.len() ==> #[trigger] next_swept(
            edges,
            live,
            order.subrange(0, k).to_set(),
            order[k],
        )
}

/// `order` is a sweep order that cannot be continued.
pub open spec fn is_full_order(
    edges: Seq<EdgeModel>,
    live: Set<NodeId>,
    order: Seq<NodeId>,
) -> bool {
    &&& is_order(edges, live, order)
    &&& forall|n: NodeId| !#[trigger] ready(edges, live, order.to_set(), n)
}

/// A node that feeds `n`, is live and was not swept, exists.
spec fn held_back(
    edges: Seq<EdgeModel>,
    live: Set<NodeId>,
    done: Set<NodeId>,
    n: NodeId,
    upto: int,
) -> bool {
    exists|i: int|
        0 <= i < upto && (#[trigger] edges[i]).to == n && live.contains(edges[i].from)
            && !done.contains(edges[i].from)
}

/// The smallest node that can be swept next.
pub fn next_ready(graph: &Graph, live: &NodeSet, done: &NodeSet) -> (r: Option<NodeId>)
    requires
        graph.wf(),
        live.capacity() == graph.entries().len(),
        forall|n: NodeId| #[trigger] live@.contains(n) ==> graph.has(n),
    ensures
        match r {
            Some(n) => next_swept(graph.edge_models(), live@, done@, n) && graph.has(n),
            None => forall|n: NodeId| !#[trigger] ready(graph.edge_models(), live@, done@, n),
        },
{
    let ghost edges = graph.edge_models();
    let count: usize = graph.node_count();
    let mut blocked: NodeSet = NodeSet::new(count);
    let mut i: usize = 0;
    let edge_count: usize = graph.edge_count();
    while i < edge_count
        invariant
            i <= edge_count,
            edge_count == edges.len(),
            edges == graph.edge_models(),
            graph.wf(),
            blocked.capacity() == graph.entries().len(),
            forall|n: NodeId| #[trigger]
                blocked@.contains(n) <==> held_back(edges, live@, done@, n, i as int),
        decreases edge_count - i,
    {
        let (from, to) = graph.edge_ends(i);
        let ghost before = blocked@;
        if live.contains(from) && !done.contains(from) {
            blocked.insert(to);
        }
        assert forall|n: NodeId| #[trigger] blocked@.contains(n) <==> held_back(
            edges,
            live@,
            done@,
            n,
            i + 1,
        ) by {
            if held_back(edges, live@, done@, n, i as int) {
                let k = choose|k: int|
                    0 <= k < i && (#[trigger] edges[k]).to == n && live@.contains(edges[k].from)
                        && !done@.contains(edges[k].from);
                assert(edges[k].to == n);
            }
            if held_back(edges, live@, done@, n, i + 1) {
                let k = choose|k: int|
                    0 <= k < i + 1 && (#[trigger] edges[k]).to == n && live@.contains(
                        edges[k].from,
                    ) && !done@.contains(edges[k].from);
                if k < i {
                    assert(held_back(edges, live@, done@, n, i as int));
                }
            }
            if n == to && live@.contains(from) && !done@.contains(from) {
                assert(edges[i as int].to == n);
            }
        }
        i = i + 1;
    }
    proof {
        assert forall|n: NodeId| ready(edges, live@, done@, n) <==> live@.contains(n)
            && !done@.contains(n) && !held_back(edges, live@, done@, n, edges.len() as int) by {
            if held_back(edges, live@, done@, n, edges.len() as int) {
                let k = choose|k: int|
                    0 <= k < edges.len() && (#[trigger] edges[k]).to == n && live@.contains(
                        edges[k].from,
                    ) && !done@.contains(edges[k].from);
                assert(graph::linked(edges, edges[k].from, n));
            } else {
                assert forall|m: NodeId| #[trigger] graph::linked(edges, m, n) && live@.contains(
                    m,
                ) implies done@.contains(m) by {
                    let k = choose|k: int|
                        0 <= k < edges.len() && (#[trigger] edges[k]).from == m && edges[k].to
                            == n;
                    assert(edges[k].to == n);
                }
            }
        }
    }
    let mut j: usize = 0;
    while j < count
        invariant
            j <= count,
            count == graph.entries().len(),
            edges == graph.edge_models(),
            forall|n: NodeId| #[trigger] live@.contains(n) ==> graph.has(n),
            forall|n: NodeId| #[trigger]
                ready(edges, live@, done@, n) <==> live@.contains(n) && !done@.contains(n)
                    && !blocked@.contains(n),
            forall|n: NodeId| #[trigger] ready(edges, live@, done@, n) ==> j <= n.0,
        decreases count - j,
    {
        let node: NodeId = NodeId(j as u64);
        if live.contains(node) && !done.contains(node) && !blocked.contains(node) {
            assert(ready(edges, live@, done@, node));
            return Some(node);
        }
        assert(!ready(edges, live@, done@, node));
        assert forall|n: NodeId| #[trigger] ready(edges, live@, done@, n) implies j + 1 <= n.0 by {
            if n.0 == j {
                assert(n == node);
            }
        }
        j = j + 1;
    }
    None
}

/// The live nodes that a sweep has not reached.
pub open spec fn residual(live: Set<NodeId>, done: Set<NodeId>) -> Set<NodeId> {
    live.difference(done)
}

/// `m` is the smallest node of `set` that feeds `n`.
pub open spec fn least_feeder(
    edges: Seq<EdgeModel>,
    set: Set<NodeId>,
    n: NodeId,
    m: NodeId,
) -> bool {
    &&& set.contains(m)
    &&& graph::linked(edges, m, n)
    &&& forall|o: NodeId| #[trigger] graph::linked(edges, o, n) && set.contains(o) ==> m.0 <= o.0
}

/// `n` is the smallest node of `set`.
pub open spec fn least(set: Set<NodeId>, n: NodeId) -> bool {
    set.contains(n) && forall|o: NodeId| #[trigger] set.contains(o) ==> n.0 <= o.0
}

/// Starting at the smallest node of `set`, each node of `path` is
/// followed by its smallest feeder in `set`, and none comes twice.
pub open spec fn is_trail(edges: Seq<EdgeModel>, set: Set<NodeId>, path: Seq<NodeId>) -> bool {
    &&& path.len() > 0
    &&& least(set, path[0])
    &&& path.no_duplicates()
    &&& forall|k: int|
        0 <= k < path.len() - 1 ==> least_feeder(edges, set, #[trigger] path[k], path[k + 1])
    &&& forall|k: int| 0 <= k < path.len() ==> set.contains(#[trigger] path[k])
}

/// `cycle` is the part of the trail through `set` that the trail's end
/// leads back to.
pub open spec fn is_found_cycle(
    edges: Seq<EdgeModel>,
    set: Set<NodeId>,
    cycle: Seq<NodeId>,
) -> bool {
    exists|path: Seq<NodeId>, at: int|
        #![trigger path.subrange(at, path.len() as int)]
        {
            &&& is_trail(edges, set, path)
            &&& 0 <= at < path.len()
            &&& cycle == path.subrange(at, path.len() as int)
            &&& least_feeder(edges, set, path.last(), path[at])
        }
}

/// The smallest node of `live` outside `done` that feeds `node`.
fn residual_feeder(graph: &Graph, live: &NodeSet, done: &NodeSet, node: NodeId) -> (r: Option<
    NodeId,
>)
    ensures
        match r {
            Some(m) => least_feeder(graph.edge_models(), residual(live@, done@), node, m),
            None => forall|m: NodeId| #[trigger]
                graph::linked(graph.edge_models(), m, node) ==> !residual(live@, done@).contains(
                    m,
                ),
        },
{
    let ghost edges = graph.edge_models();
    let ghost set = residual(live@, done@);
    let up: Vec<NodeId> = graph.upstream(node);
    let mut best: Option<NodeId> = None;
    let mut i: usize = 0;
    while i < up.len()
        invariant
            i <= up@.len(),
            set == residual(live@, done@),
            match best {
                Some(m) => {
                    &&& set.contains(m)
                    &&& up@.contains(m)
                    &&& forall|j: int|
                        0 <= j < i && set.contains(#[trigger] up@[j]) ==> m.0 <= up@[j].0
                },
                None => forall|j: int| 0 <= j < i ==> !set.contains(#[trigger] up@[j]),
            },
        decreases up@.len() - i,
    {
        let m: NodeId = up[i];
        assert(up@.contains(m));
        if live.contains(m) && !done.contains(m) {
            let smaller: bool = match best {
                Some(b) => m.0 < b.0,
                None => true,
            };
            if smaller {
                best = Some(m);
            }
        }
        i = i + 1;
    }
    proof {
        assert forall|m: NodeId| up@.contains(m) <==> #[trigger] graph::linked(
            edges,
            m,
            node,
        ) by {
            reach::lemma_incoming_linked(edges, node, m);
        }
    }
    best
}

/// The index of `node` in `path`.
fn position_in(path: &Vec<NodeId>, node: NodeId) -> (r: usize)
    requires
        path@.contains(node),
    ensures
        r < path@.len(),
        path@[r as int] == node,
{
    let count: usize = path.len();
    let mut i: usize = 0;
    while path[i] != node
        invariant
            path@.contains(node),
            i < count,
            count == path@.len(),
            forall|j: int| 0 <= j < i ==> path@[j] != node,
        decreases path@.len() - i,
    {
        proof {
            let k = choose|k: int| 0 <= k < path@.len() && path@[k] == node;
            assert(k > i);
        }
        i = i + 1;
    }
    i
}

/// The smallest live node that was not swept.
pub fn first_residual(live: &NodeSet, done: &NodeSet, count: usize) -> (r: Option<NodeId>)
    requires
        live.capacity() == count,
        forall|n: NodeId| #[trigger] live@.contains(n) ==> n.0 < count,
    ensures
        match r {
            Some(n) => least(residual(live@, done@), n),
            None => live@.subset_of(done@),
        },
{
    let mut i: usize = 0;
    while i < count
        invariant
            i <= count,
            forall|n: NodeId| #[trigger] live@.contains(n) ==> n.0 < count,
            forall|n: NodeId| #[trigger] live@.contains(n) && n.0 < i ==> done@.contains(n),
        decreases count - i,
    {
        let node: NodeId = NodeId(i as u64);
        if live.contains(node) && !done.contains(node) {
            return Some(node);
        }
        assert forall|n: NodeId| #[trigger] live@.contains(n) && n.0 < i + 1 implies done@.contains(
            n,
        ) by {
            if n.0 == i {
                assert(n == node);
            }
        }
        i = i + 1;
    }
    None
}

/// A cycle among the live nodes that the sweep could not order; none where
/// it ordered them all. From the smallest of them, walk to the smallest such feeder each time until a
/// node comes again.
pub fn find_cycle(graph: &Graph, live: &NodeSet, done: &NodeSet) -> (r: Vec<NodeId>)
    requires
        graph.wf(),
        forall|n: NodeId| #[trigger] live@.contains(n) ==> graph.has(n),
        live.capacity() == graph.entries().len(),
        forall|n: NodeId| !#[trigger] ready(graph.edge_models(), live@, done@, n),
    ensures
        if live@.subset_of(done@) {
            r@ == Seq::<NodeId>::empty()
        } else {
            is_found_cycle(graph.edge_models(), residual(live@, done@), r@)
        },
{
    let ghost edges = graph.edge_models();
    let ghost set = residual(live@, done@);
    let mut seen: NodeSet = NodeSet::new(graph.node_count());
    let mut path: Vec<NodeId> = Vec::new();
    let mut node: NodeId = match first_residual(live, done, graph.node_count()) {
        Some(start) => start,
        None => {
            return path;
        },
    };
    proof {
        assert(live@.contains(node) && !done@.contains(node));
    }
    while !seen.contains(node)
        invariant
            graph.wf(),
            edges == graph.edge_models(),
            set == residual(live@, done@),
            seen.capacity() == graph.entries().len(),
            forall|n: NodeId| #[trigger] live@.contains(n) ==> graph.has(n),
            forall|n: NodeId| !#[trigger] ready(edges, live@, done@, n),
            set.contains(node),
            forall|n: NodeId| #[trigger] seen@.contains(n) <==> path@.contains(n),
            path@.len() == 0 ==> least(set, node),
            path@.len() > 0 ==> is_trail(edges, set, path@) && least_feeder(
                edges,
                set,
                path@.last(),
                node,
            ),
        decreases seen.room(),
    {
        let ghost before = path@;
        seen.insert(node);
        path.push(node);
        let current: NodeId = node;
        proof {
            assert(path@.no_duplicates());
            assert forall|n: NodeId| #[trigger] seen@.contains(n) <==> path@.contains(n) by {
                if before.contains(n) {
                    let k = choose|k: int| 0 <= k < before.len() && before[k] == n;
                    assert(path@[k] == n);
                }
                assert(path@[before.len() as int] == current);
                if path@.contains(n) && n != current {
                    let k = choose|k: int| 0 <= k < path@.len() && path@[k] == n;
                    assert(before[k] == n);
                }
            }
            assert forall|k: int| 0 <= k < path@.len() - 1 implies least_feeder(
                edges,
                set,
                #[trigger] path@[k],
                path@[k + 1],
            ) by {
                if k < before.len() - 1 {
                    assert(least_feeder(edges, set, before[k], before[k + 1]));
                }
            }
            assert forall|k: int| 0 <= k < path@.len() implies set.contains(
                #[trigger] path@[k],
            ) by {
                if k < before.len() {
                    assert(set.contains(before[k]));
                }
            }
            assert(is_trail(edges, set, path@));
            assert(!ready(edges, live@, done@, current));
        }
        match residual_feeder(graph, live, done, current) {
            Some(m) => {
                node = m;
            },
            None => {
                proof {
                    let m = choose|m: NodeId| #[trigger]
                        graph::linked(edges, m, current) && live@.contains(m) && !done@.contains(
                            m,
                        );
                    assert(!set.contains(m));
                }
            },
        }
    }
    let at: usize = position_in(&path, node);
    let cycle: Vec<NodeId> = path.split_off(at);
    assert(is_found_cycle(edges, set, cycle@)) by {
        let full = path@ + cycle@;
        assert(cycle@ =~= full.subrange(at as int, full.len() as int));
    }
    cycle
}

/// One node id as it is printed.
pub open spec fn id_text(id: NodeId) -> Seq<char> {
    "NodeId("@ + text::decimal(id.0 as nat).push(')')
}

/// A list of node ids as it is printed, without the brackets.
pub open spec fn ids_text(ids: Seq<NodeId>) -> Seq<char>
    decreases ids.len(),
{
    if ids.len() == 0 {
        Seq::empty()
    } else if ids.len() == 1 {
        id_text(ids[0])
    } else {
        ids_text(ids.drop_last()) + (", "@ + id_text(ids.last()))
    }
}

/// The message that reports a cycle.
pub open spec fn cycle_text(cycle: Seq<NodeId>) -> Seq<char> {
    "graph contains a cycle: ["@ + ids_text(cycle).push(']')
}

/// Append one node id as it is printed.
fn push_id(out: &mut Vec<char>, id: NodeId)
    ensures
        final(out)@ == old(out)@ + id_text(id),
{
    text::push_text(out, "NodeId(");
    let mut digits: Vec<char> = text::decimal_chars(id.0);
    digits.push(')');
    out.append(&mut digits);
    assert(out@ =~= old(out)@ + id_text(id));
}

/// The message that reports a cycle.
pub fn cycle_message(cycle: &Vec<NodeId>) -> (r: String)
    ensures
        r@ == cycle_text(cycle@),
{
    let mut out: Vec<char> = Vec::new();
    text::push_text(&mut out, "graph contains a cycle: [");
    let ghost head = out@;
    let mut i: usize = 0;
    assert(cycle@.subrange(0, 0) =~= Seq::empty());
    assert(out@ =~= head + ids_text(cycle@.subrange(0, 0)));
    while i < cycle.len()
        invariant
            i <= cycle@.len(),
            out@ == head + ids_text(cycle@.subrange(0, i as int)),
        decreases cycle@.len() - i,
    {
        let ghost before = out@;
        proof {
            let longer = cycle@.subrange(0, i + 1);
            assert(longer.drop_last() =~= cycle@.subrange(0, i as int));
            assert(longer.last() == cycle@[i as int]);
        }
        if i > 0 {
            text::push_text(&mut out, ", ");
        }
        push_id(&mut out, cycle[i]);
        assert(out@ =~= head + ids_text(cycle@.subrange(0, i + 1)));
        i = i + 1;
    }
    assert(cycle@.subrange(0, i as int) =~= cycle@);
    out.push(']');
    assert(out@ =~= cycle_text(cycle@)) by {
        assert(head =~= "graph contains a cycle: ["@);
    }
    text::string_of(&out)
}

/// A sweep order names no node twice, names live nodes only, and names
/// every live feeder of a node before the node.
pub proof fn law_order_follows_the_edges(
    edges: Seq<EdgeModel>,
    live: Set<NodeId>,
    order: Seq<NodeId>,
)
    requires
        is_order(edges, live, order),
    ensures
        order.no_duplicates(),
        forall|k: int| 0 <= k < order.len() ==> live.contains(#[trigger] order[k]),
        forall|k: int, m: NodeId|
            0 <= k < order.len() && #[trigger] graph::linked(edges, m, #[trigger] order[k])
                && live.contains(m) ==> order.subrange(0, k).contains(m),
{
    assert forall|k: int| 0 <= k < order.len() implies live.contains(#[trigger] order[k]) by {
        assert(next_swept(edges, live, order.subrange(0, k).to_set(), order[k]));
    }
    assert forall|i: int, j: int| 0 <= i < j < order.len() implies order[i] != order[j] by {
        assert(next_swept(edges, live, order.subrange(0, j).to_set(), order[j]));
        assert(order.subrange(0, j)[i] == order[i]);
        assert(order.subrange(0, j).contains(order[i]));
    }
    assert forall|k: int, m: NodeId|
        0 <= k < order.len() && #[trigger] graph::linked(edges, m, #[trigger] order[k])
            && live.contains(m) implies order.subrange(0, k).contains(m) by {
        assert(next_swept(edges, live, order.subrange(0, k).to_set(), order[k]));
        assert(order.subrange(0, k).to_set().contains(m));
    }
}

/// Two sweep orders of the same graph agree as far as both go.
proof fn lemma_orders_agree(
    edges: Seq<EdgeModel>,
    live: Set<NodeId>,
    a: Seq<NodeId>,
    b: Seq<NodeId>,
    upto: int,
)
    requires
        is_order(edges, live, a),
        is_order(edges, live, b),
        0 <= upto <= a.len(),
        upto <= b.len(),
    ensures
        a.subrange(0, upto) == b.subrange(0, upto),
    decreases upto,
{
    if upto > 0 {
        let k = upto - 1;
        lemma_orders_agree(edges, live, a, b, k);
        assert(next_swept(edges, live, a.subrange(0, k).to_set(), a[k]));
        assert(next_swept(edges, live, b.subrange(0, k).to_set(), b[k]));
        assert(a[k].0 <= b[k].0 && b[k].0 <= a[k].0);
        assert(a[k] == b[k]);
        assert(a.subrange(0, upto) =~= a.subrange(0, k).push(a[k]));
        assert(b.subrange(0, upto) =~= b.subrange(0, k).push(b[k]));
    } else {
        assert(a.subrange(0, upto) =~= b.subrange(0, upto));
    }
}

/// The sweep order is determined by the graph and its live nodes: there
/// is only one that cannot be continued.
pub proof fn law_order_is_unique(
    edges: Seq<EdgeModel>,
    live: Set<NodeId>,
    a: Seq<NodeId>,
    b: Seq<NodeId>,
)
    requires
        is_full_order(edges, live, a),
        is_full_order(edges, live, b),
    ensures
        a == b,
{
    if a.len() < b.len() {
        lemma_orders_agree(edges, live, a, b, a.len() as int);
        assert(a.subrange(0, a.len() as int) =~= a);
        assert(next_swept(edges, live, b.subrange(0, a.len() as int).to_set(), b[a.len() as int]));
    } else if b.len() < a.len() {
        lemma_orders_agree(edges, live, a, b, b.len() as int);
        assert(b.subrange(0, b.len() as int) =~= b);
        assert(next_swept(edges, live, a.subrange(0, b.len() as int).to_set(), a[b.len() as int]));
    } else {
        lemma_orders_agree(edges, live, a, b, a.len() as int);
        assert(a.subrange(0, a.len() as int) =~= a);
        assert(b.subrange(0, b.len() as int) =~= b);
    }
}

/// The place after `k` in a cycle of `n` nodes.
pub open spec fn after(k: int, n: nat) -> int {
    if k + 1 < n {
        k + 1
    } else {
        0
    }
}

/// Every node of a closed walk against the edges has the next one among
/// its feeders, and the last one has the first.
pub open spec fn is_cycle(edges: Seq<EdgeModel>, cycle: Seq<NodeId>) -> bool {
    &&& cycle.len() > 0
    &&& forall|k: int|
        0 <= k < cycle.len() ==> graph::linked(
            edges,
            cycle[after(k, cycle.len())],
            #[trigger] cycle[k],
        )
}

/// The cycle that a failed sweep reports is a cycle of the graph, among
/// the live nodes that were not swept, and names no node twice.
pub proof fn law_reported_cycle_is_a_cycle(
    edges: Seq<EdgeModel>,
    set: Set<NodeId>,
    cycle: Seq<NodeId>,
)
    requires
        is_found_cycle(edges, set, cycle),
    ensures
        is_cycle(edges, cycle),
        cycle.no_duplicates(),
        forall|k: int| 0 <= k < cycle.len() ==> set.contains(#[trigger] cycle[k]),
{
    let (path, at) = choose|path: Seq<NodeId>, at: int|
        #![trigger path.subrange(at, path.len() as int)]
        {
            &&& is_trail(edges, set, path)
            &&& 0 <= at < path.len()
            &&& cycle == path.subrange(at, path.len() as int)
            &&& least_feeder(edges, set, path.last(), path[at])
        };
    let n = cycle.len() as int;
    assert forall|k: int| 0 <= k < n implies graph::linked(
        edges,
        cycle[after(k, cycle.len())],
        #[trigger] cycle[k],
    ) by {
        if k + 1 < n {
            assert(cycle[k] == path[at + k] && cycle[k + 1] == path[at + k + 1]);
            assert(least_feeder(edges, set, path[at + k], path[at + k + 1]));
        } else {
            assert(cycle[k] == path.last() && cycle[0] == path[at]);
        }
    }
    assert forall|k: int| 0 <= k < n implies set.contains(#[trigger] cycle[k]) by {
        assert(cycle[k] == path[at + k]);
    }
}

/// No sweep order names a node of a cycle of live nodes.
pub proof fn law_cycles_are_never_swept(
    edges: Seq<EdgeModel>,
    live: Set<NodeId>,
    order: Seq<NodeId>,
    cycle: Seq<NodeId>,
    k: int,
)
    requires
        is_order(edges, live, order),
        is_cycle(edges, cycle),
        forall|i: int| 0 <= i < cycle.len() ==> live.contains(#[trigger] cycle[i]),
        0 <= k < cycle.len(),
    ensures
        !order.contains(cycle[k]),
{
    if order.contains(cycle[k]) {
        let at = choose|at: int| 0 <= at < order.len() && order[at] == cycle[k];
        lemma_cycle_descends(edges, live, order, cycle, k, at);
    }
}

/// A node of a cycle at some place of an order would need another one at
/// an earlier place.
proof fn lemma_cycle_descends(
    edges: Seq<EdgeModel>,
    live: Set<NodeId>,
    order: Seq<NodeId>,
    cycle: Seq<NodeId>,
    k: int,
    at: int,
)
    requires
        is_order(edges, live, order),
        is_cycle(edges, cycle),
        forall|i: int| 0 <= i < cycle.len() ==> live.contains(#[trigger] cycle[i]),
        0 <= k < cycle.len(),
        0 <= at < order.len(),
    ensures
        order[at] != cycle[k],
    decreases at,
{
    if order[at] == cycle[k] {
        let next = after(k, cycle.len());
        assert(graph::linked(edges, cycle[next], cycle[k]));
        law_order_follows_the_edges(edges, live, order);
        assert(order.subrange(0, at).contains(cycle[next]));
        let j = choose|j: int| 0 <= j < at && order.subrange(0, at)[j] == cycle[next];
        assert(order[j] == cycle[next]);
        lemma_cycle_descends(edges, live, order, cycle, next, j);
    }
}

/// Where the edges between live nodes climb some ranking, the sweep
/// reaches every live node: it fails only on a cycle.
pub proof fn law_acyclic_graphs_are_swept(
    edges: Seq<EdgeModel>,
    live: Set<NodeId>,
    order: Seq<NodeId>,
    rank: spec_fn(NodeId) -> nat,
    n: NodeId,
)
    requires
        is_full_order(edges, live, order),
        forall|a: NodeId, b: NodeId| #[trigger]
            graph::linked(edges, a, b) && live.contains(a) && live.contains(b) ==> rank(a) < rank(
                b,
            ),
        live.contains(n),
    ensures
        order.contains(n),
    decreases rank(n),
{
    let done = order.to_set();
    if !order.contains(n) {
        assert(!ready(edges, live, done, n));
        let m = choose|m: NodeId| #[trigger]
            graph::linked(edges, m, n) && live.contains(m) && !done.contains(m);
        assert(rank(m) < rank(n));
        law_acyclic_graphs_are_swept(edges, live, order, rank, m);
    }
}

/// A node is live exactly where it leads to the output and stands before or
/// behind the input.
pub proof fn law_live_nodes_lie_on_the_way_to_the_output(
    graph: &Graph,
    input: NodeId,
    output: NodeId,
    r: NodeSet,
    n: NodeId,
    near: Seq<NodeId>,
    far: Seq<NodeId>,
)
    requires
        call_ensures(live_nodes, (graph, input, output), r),
    ensures
        reach::is_path(graph.edge_models(), far) && far[0] == n && far.last() == output
            && reach::is_path(graph.edge_models(), near) && ((near[0] == input && near.last() == n)
            || (near[0] == n && near.last() == input)) ==> r@.contains(n),
        r@.contains(n) ==> (exists|path: Seq<NodeId>| #[trigger]
            reach::is_path(graph.edge_models(), path) && path[0] == n && path.last() == output) && (
        exists|path: Seq<NodeId>| #[trigger]
            reach::is_path(graph.edge_models(), path) && ((path[0] == input && path.last() == n) || (
            path[0] == n && path.last() == input))),
{
    let edges = graph.edge_models();
    if r@.contains(n) {
        assert(reach::reaches(edges, n, output));
        if reach::reaches(edges, input, n) {
            let path = choose|path: Seq<NodeId>| #[trigger]
                reach::is_path(edges, path) && path[0] == input && path.last() == n;
            assert(reach::is_path(edges, path));
        } else {
            let path = choose|path: Seq<NodeId>| #[trigger]
                reach::is_path(edges, path) && path[0] == n && path.last() == input;
            assert(reach::is_path(edges, path));
        }
    }
}

/// The next node is the smallest live one that was not swept and has all
/// its live feeders swept; there is none only where every live node that
/// was not swept waits for one.
pub proof fn law_the_smallest_ready_node_is_next(
    edges: Seq<EdgeModel>,
    live: Set<NodeId>,
    done: Set<NodeId>,
    r: Option<NodeId>,
    m: NodeId,
    k: int,
)
    requires
        r matches Some(n) ==> next_swept(edges, live, done, n),
        r is None ==> forall|n: NodeId| !#[trigger] ready(edges, live, done, n),
        live.contains(m),
        !done.contains(m),
    ensures
        r matches Some(n) ==> live.contains(n) && !done.contains(n),
        r matches Some(n) ==> (0 <= k < edges.len() && edges[k].to == n && live.contains(
            edges[k].from,
        ) ==> done.contains(edges[k].from)),
        (r is None || (r matches Some(n) && m.0 < n.0)) ==> exists|j: int|
            0 <= j < edges.len() && (#[trigger] edges[j]).to == m && live.contains(edges[j].from)
                && !done.contains(edges[j].from),
{
    if let Some(n) = r {
        if 0 <= k < edges.len() && edges[k].to == n {
            assert(graph::linked(edges, edges[k].from, n));
        }
    }
    if r is None || (r matches Some(n) && m.0 < n.0) {
        assert(!ready(edges, live, done, m));
        let f = choose|f: NodeId| #[trigger]
            graph::linked(edges, f, m) && live.contains(f) && !done.contains(f);
        let j = choose|j: int|
            0 <= j < edges.len() && (#[trigger] edges[j]).from == f && edges[j].to == m;
        assert(edges[j].to == m);
    }
}

/// The message of a cycle names its nodes in order, by their numbers.
pub proof fn law_cycle_messages_name_the_nodes_in_order(
    cycle: &Vec<NodeId>,
    longer: &Vec<NodeId>,
    id: NodeId,
    short: String,
    long: String,
)
    requires
        longer@ == cycle@.push(id),
        call_ensures(cycle_message, (cycle,), short),
        call_ensures(cycle_message, (longer,), long),
    ensures
        cycle@.len() == 0 ==> short@ == "graph contains a cycle: [" @ + "]"@,
        long@ == short@.drop_last() + (if cycle@.len() == 0 {
            Seq::empty()
        } else {
            ", "@
        }) + "NodeId("@ + text::decimal(id.0 as nat) + ")]"@,
{
    reveal_strlit("]");
    reveal_strlit(")]");
    let head = "graph contains a cycle: ["@;
    assert(longer@.drop_last() =~= cycle@);
    assert(short@.drop_last() =~= head + ids_text(cycle@));
    assert(long@ =~= short@.drop_last() + (if cycle@.len() == 0 {
        Seq::empty()
    } else {
        ", "@
    }) + "NodeId("@ + text::decimal(id.0 as nat) + ")]"@);
    if cycle@.len() == 0 {
        assert(short@ =~= head + "]"@);
    }
}

} // verus!
