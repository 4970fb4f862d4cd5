//! What a node sees of the nodes that feed it.

use vstd::prelude::*;

use crate::graph;
use crate::graph::{Connection, Graph};
use crate::id::NodeId;
use crate::memo;
use crate::memo::{Key, Step};
use crate::node;
use crate::pass;
use crate::rational::Rational;
use crate::reach;
use crate::rows;
use crate::schedule;
use crate::traverser;
use crate::value::ValueModel;

verus! {

/// Step `i` takes, for the connection `c`, the value that its input picks
/// from the table of an earlier step, as the hooks left it: that of the
/// node the connection comes from, at `time`.
pub open spec fn takes(
    graph: &Graph,
    steps: Seq<Step>,
    i: int,
    c: Connection,
    time: Rational,
) -> bool {
    &&& steps[i].row.contains_key(c.1)
    &&& exists|j: int|
        0 <= j < i && (#[trigger] steps[j]).key() == (c.0, time) && steps[i].row[c.1]
            == rows::picked(
            steps[j].table,
            rows::declared_type(&graph.entry(steps[i].node), c.1),
        )
}

/// The table of a key is that of the step that evaluated it.
proof fn lemma_table_of_step(steps: Seq<Step>, key: Key) -> (j: int)
    requires
        memo::tables(steps).contains_key(key),
    ensures
        0 <= j < steps.len(),
        steps[j].key() == key,
        steps[j].table == memo::tables(steps)[key],
    decreases steps.len(),
{
    if steps.last().key() == key {
        steps.len() - 1
    } else {
        lemma_table_of_step(steps.drop_last(), key)
    }
}

/// A step takes the value of a connection from the table that was made
/// before it.
proof fn lemma_takes(graph: &Graph, steps: Seq<Step>, i: int, c: Connection, time: Rational)
    requires
        pass::direct(graph),
        pass::is_pass(graph, steps),
        0 <= i < steps.len(),
        rows::feeds_alone(graph::incoming(graph.edge_models(), steps[i].node), c),
        rows::declared_type(&graph.entry(steps[i].node), c.1) is Some,
        forall|id: Seq<char>| (
        #[trigger] graph.entry(steps[i].node).active(id, steps[i].time)).len() == 0,
        time == graph.entry(steps[i].node).pull_time(c.1, c.2, steps[i].time),
    ensures
        memo::tables(steps.subrange(0, i)).contains_key((c.0, time)) ==> takes(
            graph,
            steps,
            i,
            c,
            time,
        ),
        !memo::tables(steps.subrange(0, i)).contains_key((c.0, time)) ==> steps[i].row.contains_key(
            c.1,
        ) && steps[i].row[c.1] == ValueModel::Empty,
{
    let earlier = steps.subrange(0, i);
    let entry = graph.entry(steps[i].node);
    assert(pass::runs(graph, earlier, steps[i]));
    assert(entry.source(c) == c.0);
    rows::lemma_row_value(
        &entry,
        graph::incoming(graph.edge_models(), steps[i].node),
        memo::tables(earlier),
        steps[i].time,
        c,
    );
    assert((c.0, c.1, c.2) == c);
    if memo::tables(earlier).contains_key((c.0, time)) {
        let j = lemma_table_of_step(earlier, (c.0, time));
        assert(steps[j] == earlier[j]);
    }
}

/// In a graph without cycles, an evaluation hands every node the outputs
/// of the nodes that feed it: the row value of a connected input is what
/// the input picks from the table of its source, at the time it is pulled,
/// as the hooks left it. So every source is resolved before its consumer.
pub proof fn law_evaluated_rows_take_upstream_outputs(
    graph: &Graph,
    root: Key,
    steps: Seq<Step>,
    i: int,
    c: Connection,
)
    requires
        graph.wf(),
        pass::direct(graph),
        reach::acyclic(graph.edge_models()),
        traverser::is_evaluation(graph, root, steps),
        0 <= i < steps.len(),
        rows::feeds_alone(graph::incoming(graph.edge_models(), steps[i].node), c),
        rows::declared_type(&graph.entry(steps[i].node), c.1) is Some,
        forall|id: Seq<char>| (
        #[trigger] graph.entry(steps[i].node).active(id, steps[i].time)).len() == 0,
    ensures
        takes(
            graph,
            steps,
            i,
            c,
            graph.entry(steps[i].node).pull_time(c.1, c.2, steps[i].time),
        ),
{
    let entry = graph.entry(steps[i].node);
    let d: Key = (c.0, entry.pull_time(c.1, c.2, steps[i].time));
    assert(pass::complete(graph, steps, i));
    assert(pass::runs(graph, steps.subrange(0, i), steps[i]));
    lemma_depends(graph, steps[i].key(), c);
    pass::law_acyclic_graphs_pull_in_no_circle(graph, steps[i].key(), d);
    lemma_takes(graph, steps, i, c, d.1);
}

/// A node of a direct graph pulls its connections.
proof fn lemma_depends(graph: &Graph, key: Key, c: Connection)
    requires
        graph.wf(),
        pass::direct(graph),
        graph.has(key.0),
        graph::incoming(graph.edge_models(), key.0).contains(c),
    ensures
        pass::depends(graph, key, (c.0, graph.entry(key.0).pull_time(c.1, c.2, key.1))),
        graph::linked(graph.edge_models(), c.0, key.0),
        graph.has(c.0),
{
    let list = graph::incoming(graph.edge_models(), key.0);
    let k = choose|k: int| 0 <= k < list.len() && list[k] == c;
    assert(graph.entry(key.0).source(c) == c.0);
    assert(pass::pulls(graph, key)[k] == (
        c.0,
        graph.entry(key.0).pull_time(c.1, c.2, key.1),
    ));
    assert(graph::ends(list)[k] == c.0);
    reach::lemma_incoming_linked(graph.edge_models(), key.0, c.0);
}

/// A sweep in which every input is pulled at its own time hands every node
/// the outputs of the live nodes that feed it, as the hooks left them, and
/// no value for a source that is not live.
pub proof fn law_swept_rows_take_upstream_outputs(
    graph: &Graph,
    time: Rational,
    live: Set<NodeId>,
    order: Seq<NodeId>,
    steps: Seq<Step>,
    i: int,
    c: Connection,
)
    requires
        graph.wf(),
        pass::direct(graph),
        pass::punctual(graph, live, time),
        traverser::is_sweep(graph, time, live, order, steps),
        0 <= i < steps.len(),
        rows::feeds_alone(graph::incoming(graph.edge_models(), steps[i].node), c),
        rows::declared_type(&graph.entry(steps[i].node), c.1) is Some,
        forall|id: Seq<char>| (
        #[trigger] graph.entry(steps[i].node).active(id, steps[i].time)).len() == 0,
    ensures
        if live.contains(c.0) {
            takes(graph, steps, i, c, time)
        } else {
            steps[i].row.contains_key(c.1) && steps[i].row[c.1] == ValueModel::Empty
        },
{
    let earlier = steps.subrange(0, i);
    let done = order.subrange(0, i);
    let key = steps[i].key();
    assert(key == (order[i], time));
    assert(schedule::next_swept(graph.edge_models(), live, done.to_set(), order[i]));
    assert(pass::runs(graph, earlier, steps[i]));
    lemma_depends(graph, key, c);
    assert(graph.entry(key.0).pull_time(c.1, c.2, key.1) == time);
    lemma_takes(graph, steps, i, c, time);
    memo::lemma_tables_key(earlier, (c.0, time));
    if live.contains(c.0) {
        assert(done.to_set().contains(c.0));
        let j = choose|j: int| 0 <= j < done.len() && done[j] == c.0;
        assert(earlier[j] == steps[j]);
        assert(steps[j].key() == (order[j], time));
        assert(earlier[j].key() == (c.0, time));
    } else if memo::tables(earlier).contains_key((c.0, time)) {
        let j = choose|j: int| 0 <= j < earlier.len() && (#[trigger] earlier[j]).key() == (c.0, time);
        assert(steps[j].key() == (order[j], time));
        assert(schedule::next_swept(
            graph.edge_models(),
            live,
            order.subrange(0, j).to_set(),
            order[j],
        ));
    }
}

/// In every step of an evaluation or a sweep, an input that nothing is
/// connected to has the node's own value: what its keyframes give at the
/// time of the step where it has some, else what was set on it, else its
/// default.
pub proof fn law_unconnected_inputs_take_the_nodes_own_values(
    graph: &Graph,
    steps: Seq<Step>,
    i: int,
    id: Seq<char>,
)
    requires
        (exists|root: Key| #[trigger] traverser::is_evaluation(graph, root, steps)) || (exists|
            time: Rational,
            live: Set<NodeId>,
            order: Seq<NodeId>,
        | #[trigger]
            traverser::sweeping(graph, time, live, order, steps)),
        0 <= i < steps.len(),
        exists|at: int|
            0 <= at < graph.entry(steps[i].node).core.inputs@.len() && (
            #[trigger] graph.entry(steps[i].node).core.inputs@[at]).id@ == id,
        forall|k: int|
            0 <= k < graph.edge_models().len() && (#[trigger] graph.edge_models()[k]).to
                == steps[i].node ==> graph.edge_models()[k].input != id && rows::row_key(
                graph.edge_models()[k].input,
                graph.edge_models()[k].element,
            ) != id,
    ensures
        steps[i].row.contains_key(id),
        node::is_own_value(
            &graph.entry(steps[i].node).core,
            id,
            -1i32,
            steps[i].time,
            steps[i].row[id],
        ),
{
    let entry = graph.entry(steps[i].node);
    let connections = graph::incoming(graph.edge_models(), steps[i].node);
    let before = steps.subrange(0, i);
    assert(pass::runs(graph, before, steps[i]));
    let at = choose|at: int|
        0 <= at < entry.core.inputs@.len() && (#[trigger] entry.core.inputs@[at]).id@ == id;
    assert(entry.core.input_models()[at].id == id);
    assert forall|j: int| 0 <= j < connections.len() implies (#[trigger] connections[j]).1 != id
        && rows::row_key(connections[j].1, connections[j].2) != id by {
        assert(connections.contains(connections[j]));
        graph::lemma_connection_is_edge(graph.edge_models(), steps[i].node, connections[j]);
        let c = connections[j];
        let e = graph::EdgeModel { from: c.0, to: steps[i].node, input: c.1, element: c.2 };
        let k = choose|k: int|
            0 <= k < graph.edge_models().len() && graph.edge_models()[k] == e;
        assert(graph.edge_models()[k].to == steps[i].node);
    }
    rows::lemma_unconnected_value(
        &entry,
        connections,
        memo::tables(before),
        steps[i].time,
        entry.core.input_models().len() as int,
        id,
        at,
    );
    node::lemma_own_value(&entry.core, id, -1i32, steps[i].time);
}

} // verus!
