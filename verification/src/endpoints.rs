//! What a graph does whose endpoints are new.

use vstd::prelude::*;

use crate::calls;
use crate::calls::HookCall;
use crate::graph;
use crate::graph::{Connection, EdgeModel, Graph};
use crate::id::NodeId;
use crate::input;
use crate::memo;
use crate::memo::Step;
use crate::node;
use crate::nodes::effect;
use crate::nodes::graphendpoints;
use crate::pass;
use crate::rational::Rational;
use crate::reach;
use crate::rows;
use crate::schedule;
use crate::traverser;
use crate::value;
use crate::value::{TableEntry, ValueModel, ValueType};
use crate::walk;
use crate::walk::RenderHooks;

verus! {

/// Hooks that leave every table as it is.
pub open spec fn leaves_tables<H: RenderHooks>() -> bool {
    forall|
        node: NodeId,
        row: Map<Seq<char>, ValueModel>,
        emitted: Seq<TableEntry>,
        left: Seq<TableEntry>,
    | #[trigger]
        H::changes(node, row, emitted, left) ==> left == emitted
}

/// The connection between new endpoints.
pub open spec fn pair_connection(input: NodeId) -> Connection {
    (input, graphendpoints::GRAPH_OUTPUT_INPUT@, -1i32)
}

/// Nothing feeds a new input endpoint, and the input alone feeds a new
/// output endpoint.
proof fn lemma_pair_connections(graph: &Graph, input: NodeId, output: NodeId)
    requires
        graph::is_new_pair(graph, input, output),
    ensures
        input != output,
        graph::incoming(graph.edge_models(), input).len() == 0,
        rows::feeds_alone(
            graph::incoming(graph.edge_models(), output),
            pair_connection(input),
        ),
{
    let edges = graph.edge_models();
    let pair = graph::pair_edge(input, output);
    reveal_strlit("org.olivevideoeditor.Olive.graphinput");
    reveal_strlit("org.olivevideoeditor.Olive.graphoutput");
    assert(graphendpoints::GRAPH_INPUT_TYPE_ID@.len()
        < graphendpoints::GRAPH_OUTPUT_TYPE_ID@.len());
    let above = graph::incoming(edges, input);
    if above.len() > 0 {
        let c = above[0];
        assert(above.contains(c));
        graph::lemma_connection_is_edge(edges, input, c);
        let e = EdgeModel { from: c.0, to: input, input: c.1, element: c.2 };
        let k = choose|k: int| 0 <= k < edges.len() && edges[k] == e;
        assert(graph.edge_models()[k].to == input);
    }
    let list = graph::incoming(edges, output);
    let c = pair_connection(input);
    graph::lemma_connection_is_edge(edges, output, c);
    assert forall|j: int| 0 <= j < list.len() implies #[trigger] list[j] == c by {
        let d = list[j];
        assert(list.contains(d));
        graph::lemma_connection_is_edge(edges, output, d);
        let e = EdgeModel { from: d.0, to: output, input: d.1, element: d.2 };
        let k = choose|k: int| 0 <= k < edges.len() && edges[k] == e;
        assert(graph.edge_models()[k].to == output);
    }
}

/// Nothing but the two is live between new endpoints.
proof fn lemma_pair_live(graph: &Graph, input: NodeId, output: NodeId)
    requires
        graph::is_new_pair(graph, input, output),
    ensures
        schedule::live_set(graph.edge_models(), input, output) == set![input, output],
        graph::linked(graph.edge_models(), input, output),
{
    let edges = graph.edge_models();
    let live = schedule::live_set(edges, input, output);
    let both = set![input, output];
    let k = choose|k: int| 0 <= k < edges.len() && edges[k] == graph::pair_edge(input, output);
    assert(edges[k].from == input && edges[k].to == output);
    reach::lemma_reaches_itself(edges, input);
    reach::lemma_reaches_itself(edges, output);
    reach::lemma_reaches_step(edges, input, input, output);
    assert forall|a: NodeId, b: NodeId|
        #![trigger graph::linked(edges, a, b)]
        graph::linked(edges, a, b) implies b != input && (both.contains(a) ==> both.contains(b)) by {
        let j = choose|j: int|
            0 <= j < edges.len() && (#[trigger] edges[j]).from == a && edges[j].to == b;
        assert(graph.edge_models()[j] == edges[j]);
        lemma_pair_connections(graph, input, output);
    }
    assert forall|n: NodeId| live.contains(n) == both.contains(n) by {
        if reach::reaches(edges, input, n) {
            reach::lemma_closed_forward(edges, input, n, both);
        }
        if reach::reaches(edges, n, input) {
            let path = choose|path: Seq<NodeId>| #[trigger]
                reach::is_path(edges, path) && path[0] == n && path.last() == input;
            if path.len() > 1 {
                assert(graph::linked(edges, path[path.len() - 2], path[path.len() - 2 + 1]));
            }
        }
    }
    assert(live =~= both);
}

/// New endpoints are swept one after the other.
proof fn lemma_pair_order(graph: &Graph, input: NodeId, output: NodeId, order: Seq<NodeId>)
    requires
        graph::is_new_pair(graph, input, output),
        schedule::is_full_order(graph.edge_models(), set![input, output], order),
    ensures
        order == seq![input, output],
{
    let edges = graph.edge_models();
    let live = set![input, output];
    let none = Set::<NodeId>::empty();
    lemma_pair_connections(graph, input, output);
    lemma_pair_live(graph, input, output);
    assert forall|m: NodeId| !graph::linked(edges, m, input) by {
        if graph::linked(edges, m, input) {
            let j = choose|j: int|
                0 <= j < edges.len() && (#[trigger] edges[j]).from == m && edges[j].to == input;
            assert(graph.edge_models()[j] == edges[j]);
        }
    }
    assert(schedule::ready(edges, live, none, input));
    if order.len() == 0 {
        assert(order.to_set() =~= none);
        assert(schedule::ready(edges, live, order.to_set(), input));
    }
    assert(order.subrange(0, 0).to_set() =~= none);
    assert(schedule::next_swept(edges, live, order.subrange(0, 0).to_set(), order[0]));
    assert(order[0] == input);
    let one = set![input];
    assert(order.subrange(0, 1).to_set() =~= one) by {
        assert(order.subrange(0, 1) =~= seq![input]);
        assert(seq![input][0] == input);
        assert forall|n: NodeId| seq![input].to_set().contains(n) == one.contains(n) by {
            if n == input {
                assert(seq![input].contains(n));
            }
        }
    }
    assert(schedule::ready(edges, live, one, output)) by {
        assert forall|m: NodeId| #[trigger]
            graph::linked(edges, m, output) && live.contains(m) implies one.contains(m) by {
            let j = choose|j: int|
                0 <= j < edges.len() && (#[trigger] edges[j]).from == m && edges[j].to == output;
            assert(graph.edge_models()[j] == edges[j]);
        }
    }
    if order.len() == 1 {
        assert(order =~= order.subrange(0, 1));
        assert(schedule::ready(edges, live, order.to_set(), output));
    }
    assert(schedule::next_swept(edges, live, order.subrange(0, 1).to_set(), order[1]));
    assert(order[1] == output);
    if order.len() > 2 {
        let two = order.subrange(0, 2);
        assert(schedule::next_swept(edges, live, two.to_set(), order[2]));
        assert(two[0] == input && two[1] == output);
        assert(two.to_set().contains(input) && two.to_set().contains(output));
    }
    assert(order =~= seq![input, output]);
}

/// A new input endpoint that nothing feeds puts no texture out.
proof fn lemma_input_puts_out_no_texture(
    graph: &Graph,
    input: NodeId,
    output: NodeId,
    tables: Map<memo::Key, Seq<TableEntry>>,
    time: Rational,
)
    requires
        graph::is_new_pair(graph, input, output),
    ensures
        ({
            let entry = graph.entry(input);
            let row = rows::input_row(
                &entry,
                graph::incoming(graph.edge_models(), input),
                tables,
                time,
            );
            value::last_of(
                graphendpoints::forwarded(entry.core.input_models(), row),
                ValueType::Texture,
            ) is None
        }),
{
    let entry = graph.entry(input);
    let core = &entry.core;
    let connections = graph::incoming(graph.edge_models(), input);
    let models = core.input_models();
    let row = rows::input_row(&entry, connections, tables, time);
    let feed = graphendpoints::GRAPH_INPUT_FEED_INPUT@;
    let enabled = node::ENABLED_INPUT@;
    lemma_pair_connections(graph, input, output);
    reveal_strlit("feed_in");
    reveal_strlit("enabled_in");
    assert(feed.len() != enabled.len());
    assert(models.len() == 2 && models[0] == node::enabled_input() && models[1]
        == effect::texture_input(feed));
    assert(connections =~= Seq::empty());
    reveal_with_fuel(rows::row_of_inputs, 3);
    assert(rows::feeds(connections, feed).len() == 0);
    assert(rows::feeds(connections, enabled).len() == 0);
    reveal_with_fuel(input::find_input, 3);
    assert(models.skip(1)[0] == models[1]);
    assert(core.value_at(feed, -1i32, time) == ValueModel::Empty);
    assert(row[feed] == ValueModel::Empty);
    reveal_with_fuel(graphendpoints::forwarded, 3);
    reveal_with_fuel(value::last_of, 3);
    let first = models.drop_last();
    assert(first.drop_last() =~= Seq::empty());
    let out = graphendpoints::forwarded(models, row);
    assert(out == graphendpoints::forwarded(first, row));
    assert(first.last() == models[0]);
    if out.len() > 0 {
        assert(out.drop_last() =~= Seq::empty());
    }
}

/// The calls grew from `before` to `after` by handing over the input
/// endpoint and then the output endpoint, with a poll before each.
pub open spec fn resolved_pair(
    input: NodeId,
    output: NodeId,
    before: Seq<HookCall>,
    after: Seq<HookCall>,
) -> bool {
    let n = before.len() as int;
    &&& after.len() == n + 4
    &&& after.subrange(0, n) == before
    &&& after[n] == HookCall::Poll(false)
    &&& (after[n + 1] matches HookCall::Resolve { node, .. } && node == input)
    &&& after[n + 2] == HookCall::Poll(false)
    &&& (after[n + 3] matches HookCall::Resolve { node, .. } && node == output)
}

/// A graph whose endpoints are new puts nothing out, whatever else is in
/// it: the sweep does not fail, hands over the input endpoint and then the
/// output endpoint and nothing else, and its frame is empty.
pub proof fn law_new_endpoints_put_nothing_out<H: RenderHooks>(
    graph: &Graph,
    input: NodeId,
    output: NodeId,
    time: Rational,
    before: Seq<HookCall>,
    after: Seq<HookCall>,
    frame: ValueModel,
    message: Seq<char>,
)
    requires
        graph.wf(),
        graph::is_new_pair(graph, input, output),
        leaves_tables::<H>(),
    ensures
        ({
            let live = schedule::live_set(graph.edge_models(), input, output);
            &&& pass::bounded_at(graph, live, time)
            &&& !traverser::sweep_fails::<H>(graph, time, live, output, before, after, message)
            &&& traverser::sweep_ends::<H>(graph, time, live, output, before, after, frame) ==> {
                &&& frame == ValueModel::Empty
                &&& resolved_pair(input, output, before, after)
            }
        }),
{
    let live = schedule::live_set(graph.edge_models(), input, output);
    lemma_pair_live(graph, input, output);
    lemma_pair_bounded(graph, input, output, time);
    if traverser::sweep_fails::<H>(graph, time, live, output, before, after, message) {
        let (order, steps) = choose|order: Seq<NodeId>, steps: Seq<Step>|
            {
                &&& #[trigger] traverser::sweeping(graph, time, live, order, steps)
                &&& schedule::is_full_order(graph.edge_models(), live, order)
                &&& walk::resolved_by::<H>(steps)
                &&& traverser::sweep_served(graph, time, live, before, after, steps, false)
                &&& traverser::failure(graph, live, output, order, message)
            };
        lemma_pair_order(graph, input, output, order);
        assert(order[0] == input && order[1] == output);
        assert(live.subset_of(order.to_set()));
    }
    if traverser::sweep_ends::<H>(graph, time, live, output, before, after, frame) {
        let (order, steps) = choose|order: Seq<NodeId>, steps: Seq<Step>|
            {
                &&& #[trigger] traverser::is_sweep(graph, time, live, order, steps)
                &&& walk::resolved_by::<H>(steps)
                &&& traverser::sweep_served(graph, time, live, before, after, steps, false)
                &&& frame == traverser::frame_value(memo::tables(steps)[(output, time)])
            };
        lemma_pair_order(graph, input, output, order);
        lemma_pair_calls(graph, input, output, time, order, steps, before, after);
        lemma_pair_frame::<H>(graph, input, output, time, steps);
    }
}

/// The hooks are called for the input endpoint and then for the output
/// endpoint.
proof fn lemma_pair_calls(
    graph: &Graph,
    input: NodeId,
    output: NodeId,
    time: Rational,
    order: Seq<NodeId>,
    steps: Seq<Step>,
    before: Seq<HookCall>,
    after: Seq<HookCall>,
)
    requires
        order == seq![input, output],
        pass::punctual(graph, set![input, output], time),
        traverser::sweeping(graph, time, set![input, output], order, steps),
        traverser::sweep_served(graph, time, set![input, output], before, after, steps, false),
    ensures
        steps.len() == 2,
        steps[0].key() == (input, time),
        steps[1].key() == (output, time),
        resolved_pair(input, output, before, after),
{
    let n = before.len() as int;
    assert(steps[0].key() == (order[0], time));
    assert(steps[1].key() == (order[1], time));
    assert(calls::in_turns(before, after, steps, false));
    assert(after[n + 2 * 0 + 1] == calls::resolution(steps[0]));
    assert(after[n + 2 * 1 + 1] == calls::resolution(steps[1]));
}

/// A sweep of new endpoints involves one key for each.
proof fn lemma_pair_bounded(graph: &Graph, input: NodeId, output: NodeId, time: Rational)
    requires
        graph::is_new_pair(graph, input, output),
    ensures
        pass::bounded_at(graph, set![input, output], time),
        pass::punctual(graph, set![input, output], time),
{
    lemma_pair_connections(graph, input, output);
    let keys: Set<memo::Key> = set![(input, time), (output, time)];
    assert forall|a: memo::Key, b: memo::Key| keys.contains(a) && #[trigger] pass::depends(
        graph,
        a,
        b,
    ) implies b == (input, time) by {
        let list = graph::incoming(graph.edge_models(), a.0);
        let k = choose|k: int|
            0 <= k < pass::pulls(graph, a).len() && pass::pulls(graph, a)[k] == b;
        assert(b == (list[k].0, time));
        if a.0 == output {
            assert(list.contains(list[k]));
            graph::lemma_connection_is_edge(graph.edge_models(), output, list[k]);
            let e = EdgeModel {
                from: list[k].0,
                to: output,
                input: list[k].1,
                element: list[k].2,
            };
            let j = choose|j: int|
                0 <= j < graph.edge_models().len() && graph.edge_models()[j] == e;
            assert(graph.edge_models()[j].to == output);
        }
    }
    assert(pass::is_closed(graph, keys));
    assert forall|n: NodeId, d: memo::Key| set![input, output].contains(n)
        && #[trigger] pass::depends(graph, (n, time), d) implies d.1 == time by {
        assert(keys.contains((n, time)));
    }
}

/// The frame of new endpoints is empty.
proof fn lemma_pair_frame<H: RenderHooks>(
    graph: &Graph,
    input: NodeId,
    output: NodeId,
    time: Rational,
    steps: Seq<Step>,
)
    requires
        graph::is_new_pair(graph, input, output),
        leaves_tables::<H>(),
        pass::is_pass(graph, steps),
        walk::resolved_by::<H>(steps),
        steps.len() == 2,
        steps[0].key() == (input, time),
        steps[1].key() == (output, time),
    ensures
        traverser::frame_value(memo::tables(steps)[(output, time)]) == ValueModel::Empty,
{
    let edges = graph.edge_models();
    let c = pair_connection(input);
    let entry = graph.entry(output);
    let first = steps.subrange(0, 1);
    lemma_pair_connections(graph, input, output);
    assert(pass::runs(graph, steps.subrange(0, 0), steps[0]));
    assert(pass::runs(graph, first, steps[1]));
    lemma_input_puts_out_no_texture(graph, input, output, memo::tables(steps.subrange(0, 0)), time);
    let out = graphendpoints::forwarded(graph.entry(input).core.input_models(), steps[0].row);
    assert(Seq::<TableEntry>::empty() + out =~= out);
    assert(steps[0].table == out);
    reveal_strlit("tex_in");
    reveal_strlit("enabled_in");
    let models = entry.core.input_models();
    assert(models.len() == 2 && models[0] == node::enabled_input() && models[1]
        == effect::texture_input(c.1));
    assert(models[0].id.len() != c.1.len());
    assert(models.skip(1)[0] == models[1]);
    reveal_with_fuel(input::find_input, 3);
    assert(rows::declared_type(&entry, c.1) == Some(ValueType::Texture));
    rows::lemma_row_value(&entry, graph::incoming(edges, output), memo::tables(first), time, c);
    assert(first.drop_last() =~= Seq::empty());
    assert(first.last() == steps[0]);
    reveal_with_fuel(memo::tables, 3);
    assert(memo::tables(first)[(input, time)] == out);
    reveal_with_fuel(rows::first_of, 2);
    assert(seq![ValueType::Texture].skip(1) =~= Seq::empty());
    assert(steps[1].row[c.1] == ValueModel::Empty);
    assert(steps[1].table == Seq::<TableEntry>::empty());
}

} // verus!
