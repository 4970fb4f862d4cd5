//! What one evaluation pass does: which node is evaluated when, from
//! what, and in what order.

use vstd::prelude::*;

use crate::graph;
use crate::graph::{Connection, Graph};
use crate::id::NodeId;
use crate::memo;
use crate::memo::{Key, Step};
use crate::rational::Rational;
use crate::reach;
use crate::rows;

verus! {

/// What `key` pulls: for each incoming edge, the source it takes at the
/// time it takes it.
pub open spec fn pulls(graph: &Graph, key: Key) -> Seq<Key> {
    let entry = graph.entry(key.0);
    graph::incoming(graph.edge_models(), key.0).map_values(
        |c: Connection| (entry.source(c), entry.pull_time(c.1, c.2, key.1)),
    )
}

/// `a` is a node of the graph that pulls `b`.
pub open spec fn depends(graph: &Graph, a: Key, b: Key) -> bool {
    graph.has(a.0) && pulls(graph, a).contains(b)
}

/// Each key of `chain` pulls the next one.
pub open spec fn is_chain(graph: &Graph, chain: Seq<Key>) -> bool {
    &&& chain.len() > 0
    &&& forall|i: int|
        0 <= i < chain.len() - 1 ==> depends(graph, #[trigger] chain[i], chain[i + 1])
}

/// Evaluating `a` involves `b`: `a` is `b`, or pulls it directly or
/// through others.
pub open spec fn needs(graph: &Graph, a: Key, b: Key) -> bool {
    exists|chain: Seq<Key>| #[trigger]
        is_chain(graph, chain) && chain[0] == a && chain.last() == b
}

/// Every key needs itself.
pub proof fn lemma_needs_itself(graph: &Graph, a: Key)
    ensures
        needs(graph, a, a),
{
    assert(is_chain(graph, seq![a]));
}

/// What is needed pulls what is needed.
pub proof fn lemma_needs_step(graph: &Graph, a: Key, b: Key, c: Key)
    requires
        needs(graph, a, b),
        depends(graph, b, c),
    ensures
        needs(graph, a, c),
{
    let chain = choose|chain: Seq<Key>| #[trigger]
        is_chain(graph, chain) && chain[0] == a && chain.last() == b;
    let longer = chain.push(c);
    assert forall|i: int| 0 <= i < longer.len() - 1 implies depends(
        graph,
        #[trigger] longer[i],
        longer[i + 1],
    ) by {
        if i < chain.len() - 1 {
            assert(depends(graph, chain[i], chain[i + 1]));
        }
    }
    assert(is_chain(graph, longer));
}

/// Need is transitive.
pub proof fn lemma_needs_transitive(graph: &Graph, a: Key, b: Key, c: Key)
    requires
        needs(graph, a, b),
        needs(graph, b, c),
    ensures
        needs(graph, a, c),
{
    let chain = choose|chain: Seq<Key>| #[trigger]
        is_chain(graph, chain) && chain[0] == b && chain.last() == c;
    lemma_needs_along(graph, a, chain, chain.len() - 1);
}

proof fn lemma_needs_along(graph: &Graph, a: Key, chain: Seq<Key>, upto: int)
    requires
        is_chain(graph, chain),
        0 <= upto < chain.len(),
        needs(graph, a, chain[0]),
    ensures
        needs(graph, a, chain[upto]),
    decreases upto,
{
    if upto > 0 {
        lemma_needs_along(graph, a, chain, upto - 1);
        assert(depends(graph, chain[upto - 1], chain[upto - 1 + 1]));
        lemma_needs_step(graph, a, chain[upto - 1], chain[upto]);
    }
}

/// `keys` is finite and holds everything that its members pull.
pub open spec fn is_closed(graph: &Graph, keys: Set<Key>) -> bool {
    &&& keys.finite()
    &&& forall|a: Key, b: Key| keys.contains(a) && #[trigger] depends(graph, a, b) ==> keys.contains(b)
}

/// Evaluating `root` involves finitely many keys. It can involve more
/// only where a cycle shifts the time on every round.
pub open spec fn bounded(graph: &Graph, root: Key) -> bool {
    exists|keys: Set<Key>| #[trigger] is_closed(graph, keys) && keys.contains(root)
}

/// Evaluating `nodes` at `time` involves finitely many keys.
pub open spec fn bounded_at(graph: &Graph, nodes: Set<NodeId>, time: Rational) -> bool {
    exists|keys: Set<Key>| #[trigger]
        is_closed(graph, keys) && forall|n: NodeId| #[trigger]
            nodes.contains(n) ==> keys.contains((n, time))
}

/// At `time`, none of `nodes` pulls anything at another time.
pub open spec fn punctual(graph: &Graph, nodes: Set<NodeId>, time: Rational) -> bool {
    forall|n: NodeId, d: Key|
        nodes.contains(n) && #[trigger] depends(graph, (n, time), d) ==> d.1 == time
}

/// No node of the graph routes its inputs.
pub open spec fn unrouted(graph: &Graph) -> bool {
    forall|n: NodeId| #[trigger] graph.has(n) ==> graph.entry(n).routing is None
}

/// A graph whose nodes take every edge as it is can be evaluated: it
/// involves one key per node, cycles or not, and one time.
pub proof fn law_unrouted_graphs_are_bounded(graph: &Graph, nodes: Set<NodeId>, time: Rational)
    requires
        graph.wf(),
        unrouted(graph),
        graph.entries().len() <= u64::MAX,
        forall|n: NodeId| #[trigger] nodes.contains(n) ==> graph.has(n),
    ensures
        bounded_at(graph, nodes, time),
        punctual(graph, nodes, time),
        forall|n: NodeId| #[trigger] graph.has(n) ==> bounded(graph, (n, time)),
{
    let keys: Set<Key> = Set::new(|k: Key| graph.has(k.0) && k.1 == time);
    let count = graph.entries().len();
    let indices = vstd::set_lib::set_int_range(0, count as int);
    vstd::set_lib::lemma_int_range(0, count as int);
    let image = indices.map(|i: int| (NodeId(i as u64), time));
    indices.lemma_map_finite(|i: int| (NodeId(i as u64), time));
    assert(keys =~= image) by {
        assert forall|k: Key| keys.contains(k) implies image.contains(k) by {
            let i = k.0.0 as int;
            assert(indices.contains(i));
            assert(k == (NodeId(i as u64), time));
        }
    }
    assert forall|a: Key, b: Key| keys.contains(a) && #[trigger] depends(
        graph,
        a,
        b,
    ) implies keys.contains(b) by {
        let list = graph::incoming(graph.edge_models(), a.0);
        let k = choose|k: int| 0 <= k < pulls(graph, a).len() && pulls(graph, a)[k] == b;
        assert(b == (list[k].0, time));
        assert(graph::ends(list)[k] == list[k].0);
        reach::lemma_incoming_linked(graph.edge_models(), a.0, list[k].0);
    }
    assert(is_closed(graph, keys));
    assert forall|n: NodeId, d: Key| nodes.contains(n) && #[trigger] depends(
        graph,
        (n, time),
        d,
    ) implies d.1 == time by {
        let k = choose|k: int|
            0 <= k < pulls(graph, (n, time)).len() && pulls(graph, (n, time))[k] == d;
        assert(d == (graph::incoming(graph.edge_models(), n)[k].0, time));
    }
}

/// Two closed sets are closed together.
proof fn lemma_closed_union(graph: &Graph, a: Set<Key>, b: Set<Key>)
    requires
        is_closed(graph, a),
        is_closed(graph, b),
    ensures
        is_closed(graph, a.union(b)),
{
}

/// What a key pulls is bounded together, where each of it is.
proof fn lemma_bounded_pulls(graph: &Graph, key: Key, upto: int) -> (keys: Set<Key>)
    requires
        0 <= upto <= pulls(graph, key).len(),
        forall|i: int| 0 <= i < pulls(graph, key).len() ==> bounded(graph, #[trigger] pulls(graph, key)[i]),
    ensures
        is_closed(graph, keys),
        forall|i: int| 0 <= i < upto ==> keys.contains(#[trigger] pulls(graph, key)[i]),
    decreases upto,
{
    if upto == 0 {
        Set::empty()
    } else {
        let fewer = lemma_bounded_pulls(graph, key, upto - 1);
        assert(bounded(graph, pulls(graph, key)[upto - 1]));
        let more = choose|more: Set<Key>| #[trigger]
            is_closed(graph, more) && more.contains(pulls(graph, key)[upto - 1]);
        lemma_closed_union(graph, fewer, more);
        fewer.union(more)
    }
}

/// A key is bounded where its node ranks above the nodes it pulls, and so
/// on down.
proof fn lemma_bounded_below(graph: &Graph, rank: spec_fn(NodeId) -> nat, key: Key)
    requires
        forall|a: Key, b: Key| #[trigger] depends(graph, a, b) ==> rank(b.0) < rank(a.0),
    ensures
        bounded(graph, key),
    decreases rank(key.0),
{
    if graph.has(key.0) {
        assert forall|i: int| 0 <= i < pulls(graph, key).len() implies bounded(
            graph,
            #[trigger] pulls(graph, key)[i],
        ) by {
            assert(depends(graph, key, pulls(graph, key)[i]));
            lemma_bounded_below(graph, rank, pulls(graph, key)[i]);
        }
        let below = lemma_bounded_pulls(graph, key, pulls(graph, key).len() as int);
        assert forall|b: Key| #[trigger] depends(graph, key, b) implies below.contains(b) by {
            let i = choose|i: int| 0 <= i < pulls(graph, key).len() && pulls(graph, key)[i] == b;
            assert(below.contains(pulls(graph, key)[i]));
        }
        assert(is_closed(graph, below.insert(key)));
    } else {
        assert(is_closed(graph, Set::empty().insert(key)));
    }
}

/// The first nodes of a graph are bounded together at a time.
proof fn lemma_bounded_nodes(
    graph: &Graph,
    rank: spec_fn(NodeId) -> nat,
    time: Rational,
    upto: int,
) -> (keys: Set<Key>)
    requires
        forall|a: Key, b: Key| #[trigger] depends(graph, a, b) ==> rank(b.0) < rank(a.0),
        0 <= upto,
    ensures
        is_closed(graph, keys),
        forall|n: NodeId| n.0 < upto && #[trigger] graph.has(n) ==> keys.contains((n, time)),
    decreases upto,
{
    if upto == 0 {
        Set::empty()
    } else {
        let fewer = lemma_bounded_nodes(graph, rank, time, upto - 1);
        let last = (NodeId((upto - 1) as u64), time);
        lemma_bounded_below(graph, rank, last);
        let more = choose|more: Set<Key>| #[trigger]
            is_closed(graph, more) && more.contains(last);
        lemma_closed_union(graph, fewer, more);
        fewer.union(more)
    }
}

/// A graph in which every node ranks above the nodes that it pulls, at
/// whatever times, can be evaluated: it involves finitely many keys.
pub proof fn law_graphs_without_cycles_are_bounded(
    graph: &Graph,
    rank: spec_fn(NodeId) -> nat,
    nodes: Set<NodeId>,
    time: Rational,
)
    requires
        forall|a: Key, b: Key| #[trigger] depends(graph, a, b) ==> rank(b.0) < rank(a.0),
        forall|n: NodeId| #[trigger] nodes.contains(n) ==> graph.has(n),
    ensures
        bounded_at(graph, nodes, time),
        forall|n: NodeId| #[trigger] graph.has(n) ==> bounded(graph, (n, time)),
{
    let keys = lemma_bounded_nodes(graph, rank, time, graph.entries().len() as int);
    assert(is_closed(graph, keys));
    assert forall|n: NodeId| #[trigger] graph.has(n) implies bounded(graph, (n, time)) by {
        assert(keys.contains((n, time)));
    }
}

/// Every node takes its edges from where they start, at whatever times.
pub open spec fn direct(graph: &Graph) -> bool {
    forall|n: NodeId, c: Connection|
        graph.has(n) ==> #[trigger] graph.entry(n).source(c) == c.0
}

/// What a node of a direct graph pulls is linked to it.
pub proof fn lemma_pulls_linked(graph: &Graph, a: Key, b: Key)
    requires
        direct(graph),
        depends(graph, a, b),
    ensures
        graph::linked(graph.edge_models(), b.0, a.0),
{
    let list = graph::incoming(graph.edge_models(), a.0);
    let k = choose|k: int| 0 <= k < pulls(graph, a).len() && pulls(graph, a)[k] == b;
    assert(graph.entry(a.0).source(list[k]) == list[k].0);
    assert(graph::ends(list)[k] == b.0);
    reach::lemma_incoming_linked(graph.edge_models(), a.0, b.0);
}

/// What a key of a direct graph needs reaches it.
proof fn lemma_needs_reach(graph: &Graph, chain: Seq<Key>, upto: int)
    requires
        direct(graph),
        is_chain(graph, chain),
        0 <= upto < chain.len(),
    ensures
        reach::reaches(graph.edge_models(), chain[upto].0, chain[0].0),
    decreases upto,
{
    if upto == 0 {
        reach::lemma_reaches_itself(graph.edge_models(), chain[0].0);
    } else {
        lemma_needs_reach(graph, chain, upto - 1);
        assert(depends(graph, chain[upto - 1], chain[upto - 1 + 1]));
        lemma_pulls_linked(graph, chain[upto - 1], chain[upto]);
        reach::lemma_reaches_prefix(
            graph.edge_models(),
            chain[upto].0,
            chain[upto - 1].0,
            chain[0].0,
        );
    }
}

/// Without a cycle of edges nothing pulls what needs it in turn.
pub proof fn law_acyclic_graphs_pull_in_no_circle(graph: &Graph, a: Key, b: Key)
    requires
        direct(graph),
        reach::acyclic(graph.edge_models()),
        depends(graph, a, b),
    ensures
        !needs(graph, b, a),
{
    let edges = graph.edge_models();
    lemma_pulls_linked(graph, a, b);
    let i = choose|i: int|
        0 <= i < edges.len() && (#[trigger] edges[i]).from == b.0 && edges[i].to == a.0;
    if needs(graph, b, a) {
        let chain = choose|chain: Seq<Key>| #[trigger]
            is_chain(graph, chain) && chain[0] == b && chain.last() == a;
        lemma_needs_reach(graph, chain, chain.len() - 1);
        assert(reach::reaches(edges, edges[i].to, edges[i].from));
    }
}

/// The nodes that reach `n`.
spec fn ancestors(graph: &Graph, n: NodeId) -> Set<NodeId> {
    Set::new(|m: NodeId| reach::reaches(graph.edge_models(), m, n))
}

/// There are finitely many node ids.
proof fn lemma_ids_finite(set: Set<NodeId>)
    ensures
        set.finite(),
{
    let bound = u64::MAX as int + 1;
    let indices = vstd::set_lib::set_int_range(0, bound);
    vstd::set_lib::lemma_int_range(0, bound);
    let image = indices.map(|i: int| NodeId(i as u64));
    indices.lemma_map_finite(|i: int| NodeId(i as u64));
    assert forall|n: NodeId| set.contains(n) implies image.contains(n) by {
        assert(indices.contains(n.0 as int));
        assert(n == NodeId(n.0 as int as u64));
    }
    vstd::set_lib::lemma_set_subset_finite(image, set);
}

/// In a graph without cycles of edges, fewer nodes reach what is pulled
/// than what pulls it.
proof fn lemma_fewer_ancestors(graph: &Graph, a: Key, b: Key)
    requires
        direct(graph),
        reach::acyclic(graph.edge_models()),
        depends(graph, a, b),
    ensures
        ancestors(graph, b.0).len() < ancestors(graph, a.0).len(),
{
    let edges = graph.edge_models();
    let (above, below) = (ancestors(graph, a.0), ancestors(graph, b.0));
    lemma_pulls_linked(graph, a, b);
    lemma_ids_finite(above);
    lemma_ids_finite(below);
    reach::lemma_reaches_itself(edges, a.0);
    let i = choose|i: int|
        0 <= i < edges.len() && (#[trigger] edges[i]).from == b.0 && edges[i].to == a.0;
    assert(!reach::reaches(edges, edges[i].to, edges[i].from));
    assert forall|m: NodeId| below.contains(m) implies above.remove(a.0).contains(m) by {
        reach::lemma_reaches_step(edges, m, b.0, a.0);
    }
    vstd::set_lib::lemma_len_subset(below, above.remove(a.0));
}

/// A graph without cycles of edges can be evaluated, at whatever times its
/// nodes pull their inputs: it involves finitely many keys.
pub proof fn law_acyclic_graphs_are_bounded(graph: &Graph, nodes: Set<NodeId>, time: Rational)
    requires
        direct(graph),
        reach::acyclic(graph.edge_models()),
        forall|n: NodeId| #[trigger] nodes.contains(n) ==> graph.has(n),
    ensures
        bounded_at(graph, nodes, time),
        forall|n: NodeId| #[trigger] graph.has(n) ==> bounded(graph, (n, time)),
{
    let rank = |n: NodeId| ancestors(graph, n).len();
    assert forall|a: Key, b: Key| #[trigger] depends(graph, a, b) implies rank(b.0) < rank(a.0) by {
        lemma_fewer_ancestors(graph, a, b);
    }
    law_graphs_without_cycles_are_bounded(graph, rank, nodes, time);
}

/// `step` evaluates its node from the tables that `before` made.
pub open spec fn runs(graph: &Graph, before: Seq<Step>, step: Step) -> bool {
    &&& graph.has(step.node)
    &&& step.row == rows::input_row(
        &graph.entry(step.node),
        graph::incoming(graph.edge_models(), step.node),
        memo::tables(before),
        step.time,
    )
    &&& graph.entry(step.node).behavior.emits(
        &graph.entry(step.node).core,
        step.row,
        step.time,
        Seq::empty(),
        step.emitted,
    )
}

/// Each step evaluates its node from the tables of the steps before it,
/// and no key is evaluated twice.
pub open spec fn is_pass(graph: &Graph, steps: Seq<Step>) -> bool {
    forall|i: int|
        0 <= i < steps.len() ==> runs(graph, steps.subrange(0, i), #[trigger] steps[i])
            && !memo::tables(steps.subrange(0, i)).contains_key(steps[i].key())
}

/// Everything that step `i` pulls was evaluated before it, unless it
/// needs step `i` in turn.
pub open spec fn complete(graph: &Graph, steps: Seq<Step>, i: int) -> bool {
    forall|d: Key| #[trigger]
        depends(graph, steps[i].key(), d) && graph.has(d.0) ==> memo::tables(
            steps.subrange(0, i),
        ).contains_key(d) || needs(graph, d, steps[i].key())
}

/// A pass can be continued by a step that runs.
pub proof fn lemma_pass_extends(graph: &Graph, steps: Seq<Step>, step: Step)
    requires
        is_pass(graph, steps),
        runs(graph, steps, step),
        !memo::tables(steps).contains_key(step.key()),
    ensures
        is_pass(graph, steps.push(step)),
{
    let longer = steps.push(step);
    assert forall|i: int| 0 <= i < longer.len() implies runs(
        graph,
        longer.subrange(0, i),
        #[trigger] longer[i],
    ) && !memo::tables(longer.subrange(0, i)).contains_key(longer[i].key()) by {
        if i < steps.len() {
            assert(longer.subrange(0, i) =~= steps.subrange(0, i));
            assert(longer[i] == steps[i]);
        } else {
            assert(longer.subrange(0, i) =~= steps);
        }
    }
}

/// A pass evaluates no node twice at the same time.
pub proof fn law_each_key_is_evaluated_once(graph: &Graph, steps: Seq<Step>, i: int, j: int)
    requires
        is_pass(graph, steps),
        0 <= i < j < steps.len(),
    ensures
        steps[i].key() != steps[j].key(),
{
    let earlier = steps.subrange(0, j);
    memo::lemma_tables_key(earlier, steps[i].key());
    assert(earlier[i].key() == steps[i].key());
    assert(steps[j].key() == steps[j].key());
    assert(!memo::tables(steps.subrange(0, j)).contains_key(steps[j].key()));
}

} // verus!
