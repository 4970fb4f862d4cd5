//! Editing and evaluating graphs.

use std::sync::{Arc, Mutex};

use oak_node::builtin::{AnyBehavior, BuiltIn};
use oak_node::double::Double;
use oak_node::error::Error;
use oak_node::graph::Graph;
use oak_node::handle::CHandle;
use oak_node::id::NodeId;
use oak_node::input::{flags, Input};
use oak_node::node::{BoxedBehavior, BoxedTrack, NodeBehavior, NodeCore, SingleKey};
use oak_node::nodes::graphendpoints::{
    create_graph_output, GRAPH_INPUT_FEED_INPUT, GRAPH_OUTPUT_INPUT,
};
use oak_node::nodes::EmptyBehavior;
use oak_node::rational::{Rational, TimeRange};
use oak_node::reach::{reachable, NodeSet};
use oak_node::schedule::{cycle_message, find_cycle, live_nodes, next_ready};
use oak_node::traverser::{frame_of, EvalRequest, Traverser, UNREACHABLE_MESSAGE};
use oak_node::value::{NodeValue, NodeValueRow, NodeValueTable, ValueType};
use oak_node::walk::{Offline, RenderHooks};

/// Adds one to the largest of its inputs and notes that it ran.
struct Count {
    label: &'static str,
    log: Arc<Mutex<Vec<&'static str>>>,
}

impl NodeBehavior for Count {
    fn name(&self) -> &str {
        self.label
    }

    fn type_id(&self) -> &str {
        "count"
    }

    fn value(
        &self,
        _core: &NodeCore,
        inputs: &NodeValueRow,
        _time: Rational,
        table: &mut NodeValueTable,
    ) {
        self.log.lock().expect("log").push(self.label);
        let mut most = 0;
        for id in ["a", "b"] {
            if let Some(NodeValue::Int(i)) = inputs.get(id) {
                most = most.max(*i);
            }
        }
        table.push(ValueType::Int, NodeValue::Int(most + 1), None);
    }

    fn duplicate(&self, _core: &NodeCore) -> Option<Self> {
        Some(Count { label: self.label, log: Arc::clone(&self.log) })
    }
}

/// A graph that notes which nodes ran.
struct Bench {
    graph: Graph,
    log: Arc<Mutex<Vec<&'static str>>>,
}

impl Bench {
    fn new() -> Bench {
        Bench { graph: Graph::new(), log: Arc::new(Mutex::new(Vec::new())) }
    }

    fn add(&mut self, label: &'static str) -> NodeId {
        let mut core = NodeCore::new();
        core.add_input(Input::new("a", ValueType::Int, NodeValue::Empty));
        core.add_input(Input::new("b", ValueType::Int, NodeValue::Empty));
        core.add_input(
            Input::new("fixed", ValueType::Int, NodeValue::Empty).with_flags(flags::NOT_CONNECTABLE),
        );
        let behavior = Box::new(Count { label, log: Arc::clone(&self.log) });
        self.graph.add_node(core, BoxedBehavior { behavior })
    }

    fn ran(&self) -> Vec<&'static str> {
        self.log.lock().expect("log").clone()
    }

    fn run(&self, root: NodeId) -> Result<NodeValueTable, Error> {
        Traverser::new().evaluate(&self.graph, &EvalRequest::new(root, Rational::zero()), &mut Offline::new())
    }
}

/// Cancels after a number of nodes.
struct Stop {
    left: usize,
}

impl RenderHooks for Stop {
    fn resolve(&mut self, _node: NodeId, _row: &NodeValueRow, _table: &mut NodeValueTable) {
        self.left = self.left.saturating_sub(1);
    }

    fn is_cancelled(&mut self) -> bool {
        self.left == 0
    }
}

/// Notes every call, and cancels from a poll on.
struct Recorder {
    calls: Vec<String>,
    polls_left: usize,
}

impl Recorder {
    fn new(polls_left: usize) -> Recorder {
        Recorder { calls: Vec::new(), polls_left }
    }
}

impl RenderHooks for Recorder {
    fn resolve(&mut self, node: NodeId, _row: &NodeValueRow, table: &mut NodeValueTable) {
        self.calls.push(format!("resolve {} {}", node.0, table.count()));
    }

    fn is_cancelled(&mut self) -> bool {
        let cancelled = self.polls_left == 0;
        self.polls_left = self.polls_left.saturating_sub(1);
        self.calls.push(format!("poll {cancelled}"));
        cancelled
    }
}

#[test]
fn connections_are_refused_with_a_reason() {
    let mut bench = Bench::new();
    let a = bench.add("a");
    let b = bench.add("b");
    let missing = NodeId(9);
    assert_eq!(bench.graph.connect(missing, b, "a", -1), Err(Error::NotFound));
    assert_eq!(bench.graph.connect(a, missing, "a", -1), Err(Error::NotFound));
    assert_eq!(bench.graph.connect(a, b, "nope", -1), Err(Error::NotFound));
    assert_eq!(bench.graph.connect(a, b, "fixed", -1), Err(Error::State));
    assert_eq!(bench.graph.connect(a, a, "a", -1), Err(Error::State));
    assert_eq!(bench.graph.edge_count(), 0);
    assert_eq!(bench.graph.connect(a, b, "a", -1), Ok(()));
    assert_eq!(bench.graph.connect(b, a, "a", -1), Err(Error::State));
    assert_eq!(bench.graph.edge_count(), 1);
    // The same edge once more changes nothing.
    assert_eq!(bench.graph.connect(a, b, "a", -1), Ok(()));
    assert_eq!(bench.graph.edge_count(), 1);
    bench.graph.disconnect(a, b, "a", 0);
    assert_eq!(bench.graph.edge_count(), 1);
    bench.graph.disconnect(a, b, "a", -1);
    assert_eq!(bench.graph.edge_count(), 0);
    assert_eq!(bench.graph.connect(b, a, "a", -1), Ok(()));
}

#[test]
fn connecting_never_makes_a_cycle() {
    let mut bench = Bench::new();
    let nodes: Vec<NodeId> = (0..5).map(|_| bench.add("n")).collect();
    for from in &nodes {
        for to in &nodes {
            let _ = bench.graph.connect(*from, *to, "a", -1);
        }
    }
    for node in &nodes {
        assert!(bench.graph.upstream(*node).iter().all(|up| {
            !reachable(&bench.graph, *node, false).contains(*up)
        }));
    }
    // Of two opposite edges the first one stands.
    assert_eq!(bench.graph.edge_count(), 10);
}

#[test]
fn connections_are_listed_from_both_ends() {
    let mut bench = Bench::new();
    let a = bench.add("a");
    let b = bench.add("b");
    let c = bench.add("c");
    bench.graph.connect(b, c, "b", -1).expect("b -> c");
    bench.graph.connect(a, c, "a", -1).expect("a -> c");
    assert_eq!(
        bench.graph.input_connections(c),
        vec![(a, "a".to_string(), -1), (b, "b".to_string(), -1)]
    );
    assert_eq!(bench.graph.output_connections(a), vec![(c, "a".to_string(), -1)]);
    assert_eq!(bench.graph.upstream(c), vec![a, b]);
    assert_eq!(bench.graph.downstream(b), vec![c]);
    assert_eq!(bench.graph.edge_ends(0), (a, c));
}

#[test]
fn a_shared_upstream_is_evaluated_once_and_first() {
    let mut bench = Bench::new();
    let source = bench.add("source");
    let left = bench.add("left");
    let right = bench.add("right");
    let sink = bench.add("sink");
    let _island = bench.add("island");
    // `sink` takes the source directly and through `left` and `right`.
    bench.graph.connect(source, left, "a", -1).expect("edge");
    bench.graph.connect(left, right, "a", -1).expect("edge");
    bench.graph.connect(source, sink, "a", -1).expect("edge");
    bench.graph.connect(right, sink, "b", -1).expect("edge");
    let table = bench.run(sink).expect("evaluates");
    assert_eq!(table.get(ValueType::Int), Some(&NodeValue::Int(4)));
    assert_eq!(bench.ran(), vec!["source", "left", "right", "sink"]);
}

#[test]
fn a_consumer_sees_every_upstream_whatever_the_order() {
    let mut bench = Bench::new();
    let late = bench.add("late");
    let sink = bench.add("sink");
    let source = bench.add("source");
    bench.graph.connect(source, late, "a", -1).expect("edge");
    bench.graph.connect(late, sink, "a", -1).expect("edge");
    bench.graph.connect(source, sink, "b", -1).expect("edge");
    let table = bench.run(sink).expect("evaluates");
    assert_eq!(table.get(ValueType::Int), Some(&NodeValue::Int(3)));
    assert_eq!(bench.ran().len(), 3);
}

#[test]
fn unknown_roots_are_not_found() {
    let bench = Bench::new();
    assert!(matches!(bench.run(NodeId(0)), Err(Error::NotFound)));
    assert!(matches!(bench.run(NodeId::invalid()), Err(Error::NotFound)));
}

#[test]
fn cancelled_evaluations_end_with_the_state_error() {
    let mut bench = Bench::new();
    let a = bench.add("a");
    let b = bench.add("b");
    bench.graph.connect(a, b, "a", -1).expect("edge");
    let request = EvalRequest::new(b, Rational::zero());
    let stopped = Traverser::new().evaluate(&bench.graph, &request, &mut Stop { left: 1 });
    assert!(matches!(stopped, Err(Error::State)));
    assert_eq!(bench.ran(), vec!["a"]);
    let (input, output) = bench.graph.ensure_endpoints();
    assert_ne!(input, output);
    let swept =
        Traverser::new().eval_graph_bfs(&bench.graph, Rational::zero(), &mut Stop { left: 0 });
    assert!(matches!(swept, Err(Error::State)));
}

#[test]
fn the_hooks_see_every_node_in_order() {
    let mut bench = Bench::new();
    let (a, b, c) = (bench.add("a"), bench.add("b"), bench.add("c"));
    bench.graph.connect(a, b, "a", -1).expect("edge");
    bench.graph.connect(b, c, "a", -1).expect("edge");
    let request = EvalRequest::new(c, Rational::zero());
    let mut seen = Recorder::new(usize::MAX);
    Traverser::new().evaluate(&bench.graph, &request, &mut seen).expect("evaluates");
    let resolved: Vec<&String> = seen.calls.iter().filter(|c| c.starts_with('r')).collect();
    assert_eq!(resolved, ["resolve 0 1", "resolve 1 1", "resolve 2 1"]);
    assert!(!seen.calls.contains(&"poll true".to_string()));
    // Cancelling at each poll in turn: nothing is resolved after it.
    let polls = seen.calls.len() - resolved.len();
    for left in 0..polls {
        let mut seen = Recorder::new(left);
        let stopped = Traverser::new().evaluate(&bench.graph, &request, &mut seen);
        assert!(matches!(stopped, Err(Error::State)));
        assert_eq!(seen.calls.last(), Some(&"poll true".to_string()));
        assert_eq!(seen.calls.iter().filter(|c| *c == "poll true").count(), 1);
    }
}

#[test]
fn the_hooks_are_not_called_for_nothing() {
    let mut seen = Recorder::new(0);
    let mut graph = Graph::new();
    let missing = EvalRequest::new(NodeId(3), Rational::zero());
    assert!(matches!(
        Traverser::new().evaluate(&graph, &missing, &mut seen),
        Err(Error::NotFound)
    ));
    let swept = Traverser::new().eval_graph_bfs(&graph, Rational::zero(), &mut seen);
    assert_eq!(swept, Err(Error::NotFound));
    let (input, output) = graph.ensure_endpoints();
    graph.disconnect(input, output, GRAPH_OUTPUT_INPUT, -1);
    let swept = Traverser::new().eval_graph_bfs(&graph, Rational::zero(), &mut seen);
    assert_eq!(swept, Err(Error::Failed(UNREACHABLE_MESSAGE.to_string())));
    assert!(seen.calls.is_empty(), "{:?}", seen.calls);
}

#[test]
fn a_cycle_is_reported_after_what_lies_before_it() {
    let mut bench = Bench::new();
    let (input, output) = bench.graph.ensure_endpoints();
    bench.graph.disconnect(input, output, GRAPH_OUTPUT_INPUT, -1);
    let (before, b, c) = (bench.add("before"), bench.add("b"), bench.add("c"));
    bench.graph.force_connect(input, before, "a", -1);
    bench.graph.force_connect(before, b, "a", -1);
    bench.graph.force_connect(b, c, "a", -1);
    bench.graph.force_connect(c, b, "b", -1);
    bench.graph.force_connect(c, output, GRAPH_OUTPUT_INPUT, -1);
    let mut seen = Recorder::new(usize::MAX);
    let swept = Traverser::new().eval_graph_bfs(&bench.graph, Rational::zero(), &mut seen);
    assert!(matches!(swept, Err(Error::Failed(_))));
    let resolved: Vec<&String> = seen.calls.iter().filter(|c| c.starts_with('r')).collect();
    assert_eq!(resolved.len(), 2);
    assert!(resolved[0].starts_with(&format!("resolve {} ", input.0)));
    assert!(resolved[1].starts_with(&format!("resolve {} ", before.0)));
}

#[test]
fn deep_chains_do_not_exhaust_the_stack() {
    let mut bench = Bench::new();
    let mut last = bench.add("link");
    for _ in 0..2_000 {
        let next = bench.add("link");
        bench.graph.force_connect(last, next, "a", -1);
        last = next;
    }
    let table = bench.run(last).expect("evaluates");
    assert_eq!(table.get(ValueType::Int), Some(&NodeValue::Int(2_001)));
}

#[test]
fn an_output_that_is_not_fed_is_reported() {
    let mut graph = Graph::new();
    assert_eq!(
        Traverser::new().eval_graph_bfs(&graph, Rational::zero(), &mut Offline::new()),
        Err(Error::NotFound)
    );
    let (input, output) = graph.ensure_endpoints();
    assert!(graph.is_endpoint(input) && graph.is_endpoint(output));
    assert_eq!(graph.ensure_endpoints(), (input, output));
    assert_eq!(graph.node_count(), 2);
    graph.disconnect(input, output, GRAPH_OUTPUT_INPUT, -1);
    assert_eq!(
        Traverser::new().eval_graph_bfs(&graph, Rational::zero(), &mut Offline::new()),
        Err(Error::Failed(UNREACHABLE_MESSAGE.to_string()))
    );
}

#[test]
fn new_endpoints_are_what_they_are_called() {
    let mut bench = Bench::new();
    let _island = bench.add("island");
    let (input, output) = bench.graph.ensure_endpoints();
    let (from, to) = (bench.graph.get(input).expect("input"), bench.graph.get(output).expect("output"));
    assert!(matches!(from.behavior, AnyBehavior::BuiltIn(BuiltIn::GraphInput(_))));
    assert!(matches!(to.behavior, AnyBehavior::BuiltIn(BuiltIn::GraphOutput(_))));
    assert!(from.core.get_input(GRAPH_INPUT_FEED_INPUT).is_some());
    assert!(to.core.get_input(GRAPH_OUTPUT_INPUT).is_some());
    assert_eq!(
        bench.graph.input_connections(output),
        vec![(input, GRAPH_OUTPUT_INPUT.to_string(), -1)]
    );
    // With the edge between them alone, the two are swept and nothing
    // comes out.
    let mut seen = Recorder::new(usize::MAX);
    let frame = Traverser::new().eval_graph_bfs(&bench.graph, Rational::zero(), &mut seen);
    assert_eq!(frame, Ok(NodeValue::Empty));
    assert_eq!(
        seen.calls,
        vec![
            "poll false".to_string(),
            format!("resolve {} 1", input.0),
            "poll false".to_string(),
            format!("resolve {} 0", output.0),
        ]
    );
    assert!(bench.ran().is_empty());
}

#[test]
fn a_lone_endpoint_gets_its_counterpart() {
    let mut graph = Graph::new();
    let (core, node) = create_graph_output();
    let first = graph.add_built_in(core, BuiltIn::GraphOutput(node));
    let (input, output) = graph.ensure_endpoints();
    assert_eq!(output, first);
    assert_eq!(graph.node_count(), 2);
    let entry = graph.get(input).expect("input");
    assert!(matches!(entry.behavior, AnyBehavior::BuiltIn(BuiltIn::GraphInput(_))));
}

#[test]
fn live_nodes_lie_between_the_endpoints_and_are_ordered() {
    let mut bench = Bench::new();
    let (d, c, b, a) = (bench.add("d"), bench.add("c"), bench.add("b"), bench.add("a"));
    let dead = bench.add("dead");
    bench.graph.connect(a, b, "a", -1).expect("edge");
    bench.graph.connect(a, c, "a", -1).expect("edge");
    bench.graph.connect(b, d, "a", -1).expect("edge");
    bench.graph.connect(c, d, "b", -1).expect("edge");
    bench.graph.connect(a, dead, "a", -1).expect("edge");
    let live = live_nodes(&bench.graph, a, d);
    assert!(!live.contains(dead));
    let mut done = NodeSet::new(bench.graph.node_count());
    assert!([a, b, c, d].iter().all(|n| live.contains(*n) && !done.contains(*n)));
    let mut order = Vec::new();
    while let Some(node) = next_ready(&bench.graph, &live, &done) {
        order.push(node);
        done.insert(node);
    }
    // Feeders first; the smaller id first where both could go.
    assert_eq!(order, vec![a, c, b, d]);
}

#[test]
fn the_reported_cycle_is_one() {
    let mut bench = Bench::new();
    let (a, b, c) = (bench.add("a"), bench.add("b"), bench.add("c"));
    bench.graph.force_connect(a, b, "a", -1);
    bench.graph.force_connect(b, c, "a", -1);
    bench.graph.force_connect(c, b, "b", -1);
    let live = live_nodes(&bench.graph, a, c);
    let mut done = NodeSet::new(bench.graph.node_count());
    done.insert(a);
    assert_eq!(next_ready(&bench.graph, &live, &done), None);
    let cycle = find_cycle(&bench.graph, &live, &done);
    for (i, node) in cycle.iter().enumerate() {
        let other = cycle[(i + 1) % cycle.len()];
        let linked = bench.graph.downstream(*node).contains(&other)
            || bench.graph.downstream(other).contains(node);
        assert!(linked, "{cycle:?}");
    }
    assert!(cycle.contains(&b) && cycle.contains(&c) && !cycle.contains(&a));
    // With nothing left there is no cycle.
    done.insert(b);
    done.insert(c);
    assert!(find_cycle(&bench.graph, &live, &done).is_empty());
    assert_eq!(
        cycle_message(&vec![NodeId(3), NodeId(12)]),
        "graph contains a cycle: [NodeId(3), NodeId(12)]"
    );
}

#[test]
fn invalidation_marks_everything_downstream_once() {
    let mut bench = Bench::new();
    let (a, b, c, other) = (bench.add("a"), bench.add("b"), bench.add("c"), bench.add("other"));
    bench.graph.connect(a, b, "a", -1).expect("edge");
    bench.graph.connect(a, c, "a", -1).expect("edge");
    bench.graph.connect(b, c, "b", -1).expect("edge");
    let mut traverser = Traverser::new();
    assert!(traverser.last_invalidation().is_empty());
    let range = TimeRange::new(Rational::zero(), Rational::new(1, 1));
    traverser.invalidate_downstream(&bench.graph, a, range);
    let mut marked = traverser.last_invalidation().to_vec();
    assert_eq!(marked[0], a);
    marked.sort();
    assert_eq!(marked, vec![a, b, c]);
    assert!(!marked.contains(&other));
    traverser.invalidate_downstream(&bench.graph, c, range);
    assert_eq!(traverser.last_invalidation(), [c]);
}

#[test]
fn values_come_from_tracks_then_settings_then_defaults() {
    let mut core = NodeCore::new();
    core.add_input(Input::new("x", ValueType::Int, NodeValue::Int(1)));
    let now = Rational::zero();
    assert_eq!(core.value_at_time("x", -1, now), NodeValue::Int(1));
    core.set_standard_value("x", -1, NodeValue::Int(2));
    assert_eq!(core.value_at_time("x", -1, now), NodeValue::Int(2));
    assert_eq!(core.value_at_time("x", 0, now), NodeValue::Int(1));
    assert!(!core.is_input_keyframing("x", -1));
    core.set_track("x", -1, BoxedTrack { track: Box::new(SingleKey { value: NodeValue::Int(3) }) });
    assert!(core.is_input_keyframing("x", -1));
    assert_eq!(core.value_at_time("x", -1, Rational::new(7, 2)), NodeValue::Int(3));
    assert_eq!(core.standard_value("x", -1), NodeValue::Int(2));
    assert_eq!(core.input_data_type("x"), Some(ValueType::Int));
    assert_eq!(core.input_data_type("y"), None);
    assert_eq!(core.value_at_time("y", -1, now), NodeValue::Empty);
}

#[test]
fn an_empty_slot_puts_nothing_out() {
    let mut graph = Graph::new();
    let slot = graph.add_node(NodeCore::new(), BoxedBehavior { behavior: Box::new(EmptyBehavior) });
    let request = EvalRequest::new(slot, Rational::zero());
    let table = Traverser::new().evaluate(&graph, &request, &mut Offline::new()).expect("evaluates");
    assert!(table.is_empty());
    assert_eq!(frame_of(&table), NodeValue::Empty);
}

#[test]
fn a_frame_is_the_texture_or_the_last_value() {
    let mut table = NodeValueTable::new();
    table.push(ValueType::Int, NodeValue::Int(1), None);
    table.push(ValueType::Float, NodeValue::Float(Double { bits: 0 }), None);
    assert_eq!(frame_of(&table), NodeValue::Float(Double { bits: 0 }));
    table.push(ValueType::Texture, NodeValue::Texture(CHandle::null()), None);
    table.push(ValueType::Int, NodeValue::Int(2), None);
    assert_eq!(frame_of(&table), NodeValue::Texture(CHandle::null()));
}
