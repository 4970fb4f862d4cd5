//! The evaluation engine.
//!
//! Evaluation is lazy, aware of time, and memoized by node and time: one
//! pass evaluates a node once for every time at which something pulls
//! it. [`Traverser::evaluate`] starts at a node and walks upstream;
//! [`Traverser::eval_graph_bfs`] sweeps the graph from its input endpoint
//! to its output endpoint.

use vstd::prelude::*;

use crate::calls;
use crate::calls::HookCall;
use crate::error::Error;
use crate::graph;
use crate::graph::{Connection, EdgeModel, Graph, NodeEntry};
use crate::id::NodeId;
use crate::memo;
use crate::memo::{Key, Memo, Step};
use crate::pass;
use crate::rational::{Rational, TimeRange};
use crate::reach;
use crate::reach::NodeSet;
use crate::rows;
use crate::schedule;
use crate::value;
use crate::value::{NodeValue, NodeValueTable, TableEntry, ValueModel, ValueType};
use crate::walk;
use crate::walk::RenderHooks;

verus! {

/// Evaluation request.
#[derive(Clone, Copy, Debug)]
pub struct EvalRequest {
    /// Root node to evaluate.
    pub root: NodeId,
    /// Time.
    pub time: Rational,
    /// Optional range (for audio pulls).
    pub range: Option<TimeRange>,
}

impl EvalRequest {
    /// A request for one point in time.
    pub fn new(root: NodeId, time: Rational) -> (r: EvalRequest)
        ensures
            r == (EvalRequest { root, time, range: None }),
    {
        EvalRequest { root, time, range: None }
    }
}

/// The traversal engine.
pub struct Traverser {
    last_invalidation: Vec<NodeId>,
}

/// Values by node input id, each with its type.
pub struct ValueDatabase {
    /// Rows keyed by node input id.
    pub rows: Vec<(String, Vec<(ValueType, NodeValue)>)>,
}

/// How an evaluation of `root` can come out: a pass whose last step is
/// the root, every step of it needed by the root and evaluated after
/// what it pulls.
pub open spec fn is_evaluation(graph: &Graph, root: Key, steps: Seq<Step>) -> bool {
    &&& pass::is_pass(graph, steps)
    &&& memo::tables(steps).contains_key(root)
    &&& forall|i: int|
        0 <= i < steps.len() ==> pass::needs(graph, root, (#[trigger] steps[i]).key())
            && pass::complete(graph, steps, i)
}

/// Step `i` evaluates a live node in its turn: after every live node that
/// feeds it, and after everything it pulls at another time.
pub open spec fn swept(
    graph: &Graph,
    time: Rational,
    live: Set<NodeId>,
    steps: Seq<Step>,
    i: int,
) -> bool {
    let earlier = memo::tables(steps.subrange(0, i));
    &&& steps[i].time == time
    &&& live.contains(steps[i].node)
    &&& forall|m: NodeId| #[trigger]
        graph::linked(graph.edge_models(), m, steps[i].node) && live.contains(m)
            ==> earlier.contains_key((m, time))
    &&& forall|d: Key| #[trigger]
        pass::depends(graph, steps[i].key(), d) && d.1 != time && graph.has(d.0)
            ==> earlier.contains_key(d)
}

/// Some live node needs `key`.
pub open spec fn wanted(graph: &Graph, time: Rational, live: Set<NodeId>, key: Key) -> bool {
    exists|n: NodeId| live.contains(n) && #[trigger] pass::needs(graph, (n, time), key)
}

/// The evaluations of a sweep so far: every step is wanted by a live
/// node, and is evaluated in its turn or by a walk upstream of one.
pub open spec fn sweeping(
    graph: &Graph,
    time: Rational,
    live: Set<NodeId>,
    order: Seq<NodeId>,
    steps: Seq<Step>,
) -> bool {
    &&& pass::is_pass(graph, steps)
    &&& forall|i: int|
        0 <= i < steps.len() ==> wanted(graph, time, live, (#[trigger] steps[i]).key()) && (
        pass::complete(graph, steps, i) || swept(graph, time, live, steps, i))
    &&& forall|n: NodeId| #[trigger]
        order.contains(n) ==> memo::tables(steps).contains_key((n, time))
    &&& pass::punctual(graph, live, time) ==> steps.len() == order.len() && forall|i: int|
        0 <= i < steps.len() ==> (#[trigger] steps[i]).key() == (order[i], time)
}

/// Whether the calls on the hooks grew from `before` to `after` by what a
/// sweep with the given steps makes. Where no live node pulls another
/// time, there is one poll before each output.
pub open spec fn sweep_served(
    graph: &Graph,
    time: Rational,
    live: Set<NodeId>,
    before: Seq<HookCall>,
    after: Seq<HookCall>,
    steps: Seq<Step>,
    stopped: bool,
) -> bool {
    &&& calls::served(before, after, steps, stopped)
    &&& pass::punctual(graph, live, time) ==> calls::in_turns(before, after, steps, stopped)
}

/// How a sweep can come out: all live nodes were swept, in the one order
/// there is.
pub open spec fn is_sweep(
    graph: &Graph,
    time: Rational,
    live: Set<NodeId>,
    order: Seq<NodeId>,
    steps: Seq<Step>,
) -> bool {
    &&& schedule::is_full_order(graph.edge_models(), live, order)
    &&& live.subset_of(order.to_set())
    &&& sweeping(graph, time, live, order, steps)
}

/// A sweep that put out `frame`: all live nodes were swept, the hooks were
/// called for every step, and the frame is what the output's table holds.
pub open spec fn sweep_ends<H: RenderHooks>(
    graph: &Graph,
    time: Rational,
    live: Set<NodeId>,
    output: NodeId,
    before: Seq<HookCall>,
    after: Seq<HookCall>,
    frame: ValueModel,
) -> bool {
    exists|order: Seq<NodeId>, steps: Seq<Step>|
        {
            &&& #[trigger] is_sweep(graph, time, live, order, steps)
            &&& walk::resolved_by::<H>(steps)
            &&& sweep_served(graph, time, live, before, after, steps, false)
            &&& frame == frame_value(memo::tables(steps)[(output, time)])
        }
}

/// A sweep that the hooks stopped with a node left to sweep: the steps
/// before the stop are those of a sweep, the hooks were called for every
/// one of them, and then not again.
pub open spec fn sweep_stops<H: RenderHooks>(
    graph: &Graph,
    time: Rational,
    live: Set<NodeId>,
    before: Seq<HookCall>,
    after: Seq<HookCall>,
) -> bool {
    exists|order: Seq<NodeId>, steps: Seq<Step>|
        {
            &&& #[trigger] sweeping(graph, time, live, order, steps)
            &&& schedule::is_order(graph.edge_models(), live, order)
            &&& !schedule::is_full_order(graph.edge_models(), live, order)
            &&& walk::resolved_by::<H>(steps)
            &&& sweep_served(graph, time, live, before, after, steps, true)
        }
}

/// A sweep that failed with `message`: the nodes that can be ordered were
/// swept, the hooks were called for every step, and the message names a
/// cycle among the other live nodes, or that the output is not live.
pub open spec fn sweep_fails<H: RenderHooks>(
    graph: &Graph,
    time: Rational,
    live: Set<NodeId>,
    output: NodeId,
    before: Seq<HookCall>,
    after: Seq<HookCall>,
    message: Seq<char>,
) -> bool {
    exists|order: Seq<NodeId>, steps: Seq<Step>|
        {
            &&& #[trigger] sweeping(graph, time, live, order, steps)
            &&& schedule::is_full_order(graph.edge_models(), live, order)
            &&& walk::resolved_by::<H>(steps)
            &&& sweep_served(graph, time, live, before, after, steps, false)
            &&& failure(graph, live, output, order, message)
        }
}

/// The message of a failed sweep.
pub open spec fn failure(
    graph: &Graph,
    live: Set<NodeId>,
    output: NodeId,
    order: Seq<NodeId>,
    message: Seq<char>,
) -> bool {
    if live.subset_of(order.to_set()) {
        !live.contains(output) && message == UNREACHABLE_MESSAGE@
    } else {
        exists|cycle: Seq<NodeId>|
            {
                &&& #[trigger] schedule::is_found_cycle(
                    graph.edge_models(),
                    schedule::residual(live, order.to_set()),
                    cycle,
                )
                &&& message == schedule::cycle_text(cycle)
            }
    }
}

/// Where no node lies between the endpoints, the hooks cannot stop a sweep,
/// and one that fails does so as unreachable, without a call on the hooks.
pub proof fn law_nothing_to_sweep_is_reported_without_calls<H: RenderHooks>(
    graph: &Graph,
    time: Rational,
    live: Set<NodeId>,
    output: NodeId,
    before: Seq<HookCall>,
    after: Seq<HookCall>,
    message: Seq<char>,
)
    requires
        live == Set::<NodeId>::empty(),
    ensures
        !sweep_stops::<H>(graph, time, live, before, after),
        sweep_fails::<H>(graph, time, live, output, before, after, message) ==> after == before
            && message == UNREACHABLE_MESSAGE@,
{
    assert forall|order: Seq<NodeId>| #[trigger]
        schedule::is_order(graph.edge_models(), live, order) implies order.len() == 0 by {
        if order.len() > 0 {
            assert(schedule::next_swept(
                graph.edge_models(),
                live,
                order.subrange(0, 0).to_set(),
                order[0],
            ));
        }
    }
    if sweep_fails::<H>(graph, time, live, output, before, after, message) {
        let (order, steps) = choose|order: Seq<NodeId>, steps: Seq<Step>|
            {
                &&& #[trigger] sweeping(graph, time, live, order, steps)
                &&& schedule::is_full_order(graph.edge_models(), live, order)
                &&& walk::resolved_by::<H>(steps)
                &&& sweep_served(graph, time, live, before, after, steps, false)
                &&& failure(graph, live, output, order, message)
            };
        assert(pass::punctual(graph, live, time));
        assert(after =~= before) by {
            assert(after.subrange(0, before.len() as int) =~= after);
        }
    }
}

/// The frame that a table holds: its texture, else its last value, else
/// none.
pub open spec fn frame_value(table: Seq<TableEntry>) -> ValueModel {
    match value::last_of(table, ValueType::Texture) {
        Some(v) => v,
        None => if table.len() > 0 {
            table.last().1
        } else {
            ValueModel::Empty
        },
    }
}

/// The frame that a table holds.
pub fn frame_of(table: &NodeValueTable) -> (r: NodeValue)
    ensures
        r@ == frame_value(table@),
{
    match table.get(ValueType::Texture) {
        Some(v) => v.clone(),
        None => match table.last_value() {
            Some(v) => v.clone(),
            None => NodeValue::Empty,
        },
    }
}

/// What the sweep answers when the output endpoint is not live.
pub const UNREACHABLE_MESSAGE: &'static str = "graph output is not reachable from the graph input";

/// A walk from something that `root` needs is a walk from `root`.
proof fn lemma_walked_from(
    graph: &Graph,
    root: Key,
    d: Key,
    before: Seq<Step>,
    after: Seq<Step>,
)
    requires
        pass::needs(graph, root, d),
        walk::walked(graph, d, before, after),
    ensures
        walk::walked(graph, root, before, after),
{
    assert forall|i: int| before.len() <= i < after.len() implies pass::needs(
        graph,
        root,
        (#[trigger] after[i]).key(),
    ) by {
        pass::lemma_needs_transitive(graph, root, d, after[i].key());
    }
}

/// Two walks from the same root in a row.
proof fn lemma_walked_joined(
    graph: &Graph,
    root: Key,
    first: Seq<Step>,
    second: Seq<Step>,
    third: Seq<Step>,
)
    requires
        walk::walked(graph, root, first, second),
        walk::walked(graph, root, second, third),
    ensures
        walk::walked(graph, root, first, third),
{
    assert(third.subrange(0, first.len() as int) =~= second.subrange(0, first.len() as int)) by {
        assert forall|i: int| 0 <= i < first.len() implies third[i] == second[i] by {
            assert(third[i] == third.subrange(0, second.len() as int)[i]);
        }
    }
    assert forall|i: int| first.len() <= i < third.len() implies pass::needs(
        graph,
        root,
        (#[trigger] third[i]).key(),
    ) && pass::complete(graph, third, i) && pass::runs(graph, third.subrange(0, i), third[i])
        && !memo::tables(third.subrange(0, i)).contains_key(third[i].key()) && !memo::tables(
        first,
    ).contains_key(third[i].key()) by {
        if i < second.len() {
            assert(third[i] == third.subrange(0, second.len() as int)[i]);
            assert(third.subrange(0, i) =~= second.subrange(0, i)) by {
                assert forall|j: int| 0 <= j < i implies third[j] == second[j] by {
                    assert(third[j] == third.subrange(0, second.len() as int)[j]);
                }
            }
            assert(pass::complete(graph, second, i));
        } else if memo::tables(first).contains_key(third[i].key()) {
            memo::lemma_tables_grow(first, second, third[i].key());
        }
    }
    let (known, more, most) = (memo::tables(first), memo::tables(second), memo::tables(third));
    assert forall|k: Key| #[trigger] known.dom().contains(k) implies #[trigger] most.dom().contains(
        k,
    ) && known[k] == most[k] by {
        assert(more.dom().contains(k));
    }
}

/// What two walks in a row add.
proof fn lemma_gained_joined(first: Seq<Step>, second: Seq<Step>, third: Seq<Step>)
    requires
        first.len() <= second.len() <= third.len(),
        third.subrange(0, second.len() as int) == second,
    ensures
        walk::gained(first, third) == walk::gained(first, second) + walk::gained(second, third),
{
    assert forall|i: int| 0 <= i < second.len() implies third[i] == second[i] by {
        assert(third[i] == third.subrange(0, second.len() as int)[i]);
    }
    assert(walk::gained(first, third) =~= walk::gained(first, second) + walk::gained(
        second,
        third,
    ));
}

/// Evaluate one thing that `node` pulls, where it is pulled at another
/// time than `time` and the memo does not hold it.
fn pull_adjusted<H: RenderHooks>(
    graph: &Graph,
    memo: &mut Memo,
    node: NodeId,
    time: Rational,
    source: NodeId,
    adjusted: Rational,
    hooks: &mut H,
) -> (r: Result<(), Error>)
    requires
        graph.wf(),
        old(memo).wf(),
        old(memo).capacity() == graph.entries().len(),
        pass::depends(graph, (node, time), (source, adjusted)),
        pass::bounded(graph, (source, adjusted)),
    ensures
        final(memo).wf(),
        final(memo).capacity() == old(memo).capacity(),
        walk::walked(graph, (node, time), old(memo).history(), final(memo).history()),
        r is Ok && adjusted != time && graph.has(source) ==> walk::known(final(memo)).contains(
            (source, adjusted),
        ),
        r matches Err(e) ==> e == Error::State,
        old(hooks).steady() ==> r is Ok && final(hooks).steady(),
        walk::resolved_by::<H>(old(memo).history()) ==> walk::resolved_by::<H>(
            final(memo).history(),
        ),
        calls::served(
            old(hooks).calls(),
            final(hooks).calls(),
            walk::gained(old(memo).history(), final(memo).history()),
            r is Err,
        ),
        calls::paced(old(hooks).calls(), final(hooks).calls()),
        adjusted == time ==> r is Ok && final(memo).history() == old(memo).history(),
        adjusted == time ==> final(hooks).calls() == old(hooks).calls(),
{
    proof {
        calls::lemma_served_nothing(hooks.calls());
        assert(walk::gained(memo.history(), memo.history()) =~= Seq::empty());
    }
    assert(memo.history().subrange(0, memo.history().len() as int) =~= memo.history());
    if adjusted == time || !graph.is_valid(source) || memo.contains(source, adjusted) {
        return Ok(());
    }
    let outcome = walk::walk_dfs(graph, memo, source, adjusted, hooks);
    proof {
        pass::lemma_needs_itself(graph, (node, time));
        pass::lemma_needs_step(graph, (node, time), (node, time), (source, adjusted));
        lemma_walked_from(
            graph,
            (node, time),
            (source, adjusted),
            old(memo).history(),
            memo.history(),
        );
    }
    outcome
}

/// Evaluate what `node` pulls at another time than `time`: the sweep does
/// not come by there itself. Ends with `State` when the hooks cancel.
pub fn pull_adjusted_upstreams<H: RenderHooks>(
    graph: &Graph,
    memo: &mut Memo,
    entry: &NodeEntry,
    node: NodeId,
    time: Rational,
    hooks: &mut H,
) -> (r: Result<(), Error>)
    requires
        graph.wf(),
        graph.has(node),
        *entry == graph.entry(node),
        old(memo).wf(),
        old(memo).capacity() == graph.entries().len(),
        pass::bounded(graph, (node, time)),
    ensures
        final(memo).wf(),
        final(memo).capacity() == old(memo).capacity(),
        walk::walked(graph, (node, time), old(memo).history(), final(memo).history()),
        r is Ok ==> forall|d: Key| #[trigger]
            pass::depends(graph, (node, time), d) && d.1 != time && graph.has(d.0) ==> walk::known(
                final(memo),
            ).contains(d),
        r matches Err(e) ==> e == Error::State,
        old(hooks).steady() ==> r is Ok && final(hooks).steady(),
        walk::resolved_by::<H>(old(memo).history()) ==> walk::resolved_by::<H>(
            final(memo).history(),
        ),
        calls::served(
            old(hooks).calls(),
            final(hooks).calls(),
            walk::gained(old(memo).history(), final(memo).history()),
            r is Err,
        ),
        calls::paced(old(hooks).calls(), final(hooks).calls()),
        (forall|d: Key| #[trigger] pass::depends(graph, (node, time), d) ==> d.1 == time) ==> r is Ok
            && final(memo).history() == old(memo).history() && final(hooks).calls() == old(hooks).calls(),
{
    let ghost key: Key = (node, time);
    let ghost keys = choose|keys: Set<Key>| #[trigger]
        pass::is_closed(graph, keys) && keys.contains(key);
    let connections = graph.input_connections(node);
    let ghost models = graph::incoming(graph.edge_models(), node);
    let ghost pulls = pass::pulls(graph, key);
    let mut i: usize = 0;
    assert(memo.history().subrange(0, memo.history().len() as int) =~= memo.history());
    proof {
        calls::lemma_served_nothing(hooks.calls());
        assert(walk::gained(memo.history(), memo.history()) =~= Seq::empty());
    }
    while i < connections.len()
        invariant
            calls::served(
                old(hooks).calls(),
                hooks.calls(),
                walk::gained(old(memo).history(), memo.history()),
                false,
            ),
            calls::paced(old(hooks).calls(), hooks.calls()),
            graph.wf(),
            graph.has(node),
            *entry == graph.entry(node),
            key == (node, time),
            pulls == pass::pulls(graph, key),
            memo.wf(),
            memo.capacity() == graph.entries().len(),
            old(memo).capacity() == graph.entries().len(),
            pass::is_closed(graph, keys),
            keys.contains(key),
            i <= connections@.len(),
            graph::connection_models(connections@) == models,
            models == graph::incoming(graph.edge_models(), node),
            walk::walked(graph, key, old(memo).history(), memo.history()),
            old(hooks).steady() ==> hooks.steady(),
            walk::resolved_by::<H>(old(memo).history()) ==> walk::resolved_by::<H>(
                memo.history(),
            ),
            (forall|d: Key| #[trigger] pass::depends(graph, key, d) ==> d.1 == time)
                ==> memo.history() == old(memo).history() && hooks.calls() == old(hooks).calls(),
            forall|k: int|
                0 <= k < i && (#[trigger] pulls[k]).1 != time && graph.has(pulls[k].0)
                    ==> walk::known(memo).contains(pulls[k]),
        decreases connections@.len() - i,
    {
        let c: &(NodeId, String, i32) = &connections[i];
        let ghost model: Connection = (c.0, c.1@, c.2);
        assert(model == models[i as int]);
        let source: NodeId = rows::source_of(entry, c.0, c.1.as_str(), c.2);
        let adjusted: Rational = rows::adjusted_time(entry, c.1.as_str(), c.2, time);
        let ghost before = memo.history();
        let ghost pull: Key = (source, adjusted);
        proof {
            assert(pull == pulls[i as int]);
            assert(pulls.contains(pull));
            assert(pass::depends(graph, key, pull));
            assert(keys.contains(pull));
        }
        let ghost called = hooks.calls();
        let outcome = pull_adjusted(graph, memo, node, time, source, adjusted, hooks);
        proof {
            calls::lemma_served_joined(
                old(hooks).calls(),
                called,
                hooks.calls(),
                walk::gained(old(memo).history(), before),
                walk::gained(before, memo.history()),
                outcome is Err,
            );
            lemma_gained_joined(old(memo).history(), before, memo.history());
            lemma_walked_joined(graph, key, old(memo).history(), before, memo.history());
            assert forall|k: int| 0 <= k < i && (#[trigger] pulls[k]).1 != time && graph.has(
                pulls[k].0,
            ) implies walk::known(memo).contains(pulls[k]) by {
                memo::lemma_tables_grow(before, memo.history(), pulls[k]);
            }
        }
        match outcome {
            Ok(_) => {},
            Err(e) => {
                return Err(e);
            },
        }
        i = i + 1;
    }
    proof {
        assert forall|d: Key| #[trigger] pass::depends(graph, key, d) && d.1 != time && graph.has(
            d.0,
        ) implies walk::known(memo).contains(d) by {
            let k = choose|k: int| 0 <= k < pulls.len() && pulls[k] == d;
            assert(pulls[k].1 != time);
        }
    }
    Ok(())
}

impl Traverser {
    /// The nodes marked by the last invalidation walk.
    pub closed spec fn invalidated(&self) -> Seq<NodeId> {
        self.last_invalidation@
    }

    /// A new engine; it can be used for any number of evaluations.
    pub fn new() -> (r: Traverser)
        ensures
            r.invalidated() == Seq::<NodeId>::empty(),
    {
        Traverser { last_invalidation: Vec::new() }
    }

    /// The nodes marked by the last invalidation walk.
    pub fn last_invalidation(&self) -> (r: &[NodeId])
        ensures
            r@ == self.invalidated(),
    {
        self.last_invalidation.as_slice()
    }

    /// Evaluate `request` against `graph`, calling `hooks` after each
    /// node, and return the root's output table.
    ///
    /// `NotFound` when the root is no node of the graph, and then the hooks
    /// are not called; `State` when the hooks answer a poll with a stop,
    /// and then no output is handed over any more. Only nodes upstream of
    /// the root are evaluated.
    pub fn evaluate<H: RenderHooks>(
        &mut self,
        graph: &Graph,
        request: &EvalRequest,
        hooks: &mut H,
    ) -> (r: Result<NodeValueTable, Error>)
        requires
            graph.wf(),
            pass::bounded(graph, (request.root, request.time)),
        ensures
            final(self).invalidated() == old(self).invalidated(),
            match r {
                Ok(table) => graph.has(request.root) && exists|steps: Seq<Step>|
                    {
                        &&& #[trigger] is_evaluation(graph, (request.root, request.time), steps)
                        &&& walk::resolved_by::<H>(steps)
                        &&& calls::served(old(hooks).calls(), final(hooks).calls(), steps, false)
                        &&& table@ == memo::tables(steps)[(request.root, request.time)]
                    },
                Err(Error::NotFound) => !graph.has(request.root) && final(hooks).calls()
                    == old(hooks).calls(),
                Err(Error::State) => graph.has(request.root) && exists|steps: Seq<Step>|
                    {
                        &&& #[trigger] walk::walked(
                            graph,
                            (request.root, request.time),
                            Seq::empty(),
                            steps,
                        )
                        &&& !memo::tables(steps).contains_key((request.root, request.time))
                        &&& walk::resolved_by::<H>(steps)
                        &&& calls::served(old(hooks).calls(), final(hooks).calls(), steps, true)
                    },
                Err(Error::Failed(_)) => false,
            },
            calls::paced(old(hooks).calls(), final(hooks).calls()),
            old(hooks).steady() ==> final(hooks).steady() && r is Ok == graph.has(request.root),
    {
        if !graph.is_valid(request.root) {
            return Err(Error::NotFound);
        }
        let mut memo: Memo = Memo::new(graph.node_count());
        let ghost fresh = memo.history();
        match walk::walk_dfs(graph, &mut memo, request.root, request.time, hooks) {
            Ok(_) => {},
            Err(e) => {
                proof {
                    assert(walk::gained(fresh, memo.history()) =~= memo.history());
                    assert(fresh =~= Seq::empty());
                    assert(walk::walked(
                        graph,
                        (request.root, request.time),
                        Seq::empty(),
                        memo.history(),
                    ));
                }
                return Err(e);
            },
        }
        assert(walk::gained(fresh, memo.history()) =~= memo.history());
        assert(is_evaluation(graph, (request.root, request.time), memo.history()));
        match memo.take(request.root, request.time) {
            Some(table) => Ok(table),
            None => Ok(NodeValueTable::new()),
        }
    }

    /// Evaluate the graph as one sweep of its live nodes, from the input
    /// endpoint to the output endpoint, and return the frame.
    ///
    /// Each live node is swept once, the smallest first among those whose
    /// live feeders were swept, and what the hooks leave in its table is
    /// what its consumers see. A node that pulls an input at another time
    /// has that evaluated by a walk upstream. A connection from outside
    /// the live set brings no value.
    ///
    /// `NotFound` when an endpoint is missing; `Failed` when the live
    /// nodes cannot be ordered, naming a cycle among them, or when the
    /// output is not live; `State` when the hooks answer a poll with a
    /// stop. The hooks are handed the output of every node that was
    /// evaluated, in order, and nothing else.
    pub fn eval_graph_bfs<H: RenderHooks>(
        &mut self,
        graph: &Graph,
        time: Rational,
        hooks: &mut H,
    ) -> (r: Result<NodeValue, Error>)
        requires
            graph.wf(),
            graph.spec_endpoints() matches Some((input, output)) ==> pass::bounded_at(
                graph,
                schedule::live_set(graph.edge_models(), input, output),
                time,
            ),
        ensures
            final(self).invalidated() == old(self).invalidated(),
            match graph.spec_endpoints() {
                None => r == Err::<NodeValue, Error>(Error::NotFound) && final(hooks).calls()
                    == old(hooks).calls(),
                Some((input, output)) => {
                    let live = schedule::live_set(graph.edge_models(), input, output);
                    let before = old(hooks).calls();
                    let after = final(hooks).calls();
                    match r {
                        Ok(frame) => live.contains(output) && sweep_ends::<H>(
                            graph,
                            time,
                            live,
                            output,
                            before,
                            after,
                            frame@,
                        ),
                        Err(Error::NotFound) => false,
                        Err(Error::State) => !old(hooks).steady() && sweep_stops::<H>(
                            graph,
                            time,
                            live,
                            before,
                            after,
                        ),
                        Err(Error::Failed(message)) => sweep_fails::<H>(
                            graph,
                            time,
                            live,
                            output,
                            before,
                            after,
                            message@,
                        ),
                    }
                },
            },
            old(hooks).steady() ==> final(hooks).steady(),
    {
        let (input, output) = match graph.endpoints() {
            Some(pair) => pair,
            None => {
                return Err(Error::NotFound);
            },
        };
        let ghost edges = graph.edge_models();
        let ghost keys = choose|keys: Set<Key>| #[trigger]
            pass::is_closed(graph, keys) && forall|n: NodeId| #[trigger]
                schedule::live_set(edges, input, output).contains(n) ==> keys.contains((n, time));
        let live: NodeSet = schedule::live_nodes(graph, input, output);
        let mut done: NodeSet = NodeSet::new(graph.node_count());
        let mut memo: Memo = Memo::new(graph.node_count());
        let ghost mut order: Seq<NodeId> = Seq::empty();
        proof {
            assert(done@ =~= order.to_set());
            calls::lemma_served_nothing(hooks.calls());
            assert(memo.history() =~= Seq::empty());
        }
        loop
            invariant
                graph.wf(),
                edges == graph.edge_models(),
                pass::is_closed(graph, keys),
                forall|n: NodeId| #[trigger] live@.contains(n) ==> keys.contains((n, time)),
                sweep_served(
                    graph,
                    time,
                    live@,
                    old(hooks).calls(),
                    hooks.calls(),
                    memo.history(),
                    false,
                ),
                memo.wf(),
                memo.capacity() == graph.entries().len(),
                live.capacity() == graph.entries().len(),
                done.capacity() == graph.entries().len(),
                forall|n: NodeId| #[trigger] live@.contains(n) ==> graph.has(n),
                done@ == order.to_set(),
                schedule::is_order(edges, live@, order),
                sweeping(graph, time, live@, order, memo.history()),
                graph.spec_endpoints() == Some((input, output)),
                live@ == schedule::live_set(edges, input, output),
                *self == *old(self),
                old(hooks).steady() ==> hooks.steady(),
                walk::resolved_by::<H>(memo.history()),
            ensures
                schedule::is_full_order(edges, live@, order),
            decreases done.room(),
        {
            let node: NodeId = match schedule::next_ready(graph, &live, &done) {
                Some(node) => node,
                None => {
                    break ;
                },
            };
            let ghost asked = hooks.calls();
            let stop: bool = hooks.is_cancelled();
            if stop {
                proof {
                    lemma_sweep_stopped(
                        graph,
                        time,
                        live@,
                        old(hooks).calls(),
                        asked,
                        memo.history(),
                    );
                    assert(sweeping(graph, time, live@, order, memo.history()));
                    assert(sweep_stops::<H>(
                        graph,
                        time,
                        live@,
                        old(hooks).calls(),
                        hooks.calls(),
                    ));
                }
                return Err(Error::State);
            }
            let entry: &NodeEntry = match graph.get(node) {
                Some(entry) => entry,
                None => {
                    break ;
                },
            };
            let ghost key: Key = (node, time);
            let ghost start = memo.history();
            assert(pass::is_closed(graph, keys) && keys.contains(key));
            let outcome = pull_adjusted_upstreams(graph, &mut memo, entry, node, time, hooks);
            let ghost pulled = memo.history();
            proof {
                lemma_sweep_pulled(graph, time, live@, order, node, start, pulled);
                if pass::punctual(graph, live@, time) {
                    assert(forall|d: Key| #[trigger]
                        pass::depends(graph, (node, time), d) ==> d.1 == time);
                }
                lemma_sweep_pull_served(
                    graph,
                    time,
                    live@,
                    old(hooks).calls(),
                    asked,
                    hooks.calls(),
                    start,
                    pulled,
                    outcome is Err,
                );
            }
            match outcome {
                Ok(_) => {},
                Err(e) => {
                    return Err(e);
                },
            }
            let ghost handed = hooks.calls();
            let evaluated: bool = memo.contains(node, time);
            if !evaluated {
                walk::run_node(graph, &mut memo, entry, node, time, hooks);
                proof {
                    let step = memo.history().last();
                    assert(memo.history() =~= pulled.push(step));
                    lemma_sweep_evaluated(graph, time, live@, order, node, pulled, step);
                    lemma_sweep_step_served(
                        graph,
                        time,
                        live@,
                        old(hooks).calls(),
                        asked,
                        handed,
                        pulled,
                        step,
                    );
                }
            } else {
                proof {
                    lemma_sweep_skipped(graph, time, live@, order, node, pulled);
                }
            }
            done.insert(node);
            proof {
                let longer = order.push(node);
                lemma_order_extends(edges, live@, order, node);
                assert(done@ =~= longer.to_set()) by {
                    lemma_pushed_set(order, node);
                }
                order = longer;
            }
        }
        let residual: bool = schedule::first_residual(&live, &done, graph.node_count()).is_some();
        if residual {
            let cycle: Vec<NodeId> = schedule::find_cycle(graph, &live, &done);
            let message: String = schedule::cycle_message(&cycle);
            assert(schedule::is_found_cycle(
                edges,
                schedule::residual(live@, order.to_set()),
                cycle@,
            ));
            assert(sweeping(graph, time, live@, order, memo.history()));
            return Err(Error::Failed(message));
        }
        assert(sweeping(graph, time, live@, order, memo.history()));
        if !live.contains(output) {
            return Err(Error::Failed(UNREACHABLE_MESSAGE.to_string()));
        }
        assert(is_sweep(graph, time, live@, order, memo.history()));
        assert(order.contains(output)) by {
            assert(live@.contains(output));
            assert(order.to_set().contains(output));
        }
        match memo.get(output, time) {
            Some(table) => Ok(frame_of(table)),
            None => Ok(NodeValue::Empty),
        }
    }

    /// Mark what is downstream of `from` as out of date, after one of its
    /// inputs changed over `range`.
    pub fn invalidate_downstream(&mut self, graph: &Graph, from: NodeId, range: TimeRange)
        requires
            graph.wf(),
        ensures
            final(self).invalidated().no_duplicates(),
            final(self).invalidated().len() > 0,
            final(self).invalidated()[0] == from,
            forall|n: NodeId| #[trigger]
                final(self).invalidated().contains(n) <==> reach::reaches(
                    graph.edge_models(),
                    from,
                    n,
                ),
            marks_downstream(graph.edge_models(), from, final(self).invalidated()),
    {
        let ghost edges = graph.edge_models();
        let mut walked: Vec<NodeId> = Vec::new();
        walked.push(from);
        let mut seen: NodeSet = NodeSet::new(graph.node_count());
        proof {
            reach::lemma_reaches_itself(edges, from);
        }
        if !graph.is_valid(from) {
            proof {
                assert(walked@ =~= seq![from]);
                assert forall|n: NodeId| reach::reaches(edges, from, n) implies n == from by {
                    let path = choose|path: Seq<NodeId>| #[trigger]
                        reach::is_path(edges, path) && path[0] == from && path.last() == n;
                    if path.len() > 1 {
                        assert(graph::linked(edges, path[0], path[1]));
                    }
                }
                assert(walked@.contains(from)) by {
                    assert(walked@[0] == from);
                }
            }
            self.last_invalidation = walked;
            return ;
        }
        seen.insert(from);
        let mut queue: Vec<NodeId> = graph.downstream(from);
        proof {
            assert forall|k: int| 0 <= k < queue@.len() implies graph.has(#[trigger] queue@[k])
                && reach::reaches(edges, from, queue@[k]) by {
                assert(queue@.contains(queue@[k]));
                reach::lemma_outgoing_linked(edges, from, queue@[k]);
                reach::lemma_reaches_step(edges, from, from, queue@[k]);
            }
            assert forall|a: NodeId, b: NodeId|
                #![trigger graph::linked(edges, a, b)]
                graph::linked(edges, a, b) && seen@.contains(a) implies seen@.contains(b)
                || queue@.contains(b) by {
                reach::lemma_outgoing_linked(edges, a, b);
            }
            assert(walked@[0] == from);
        }
        while queue.len() > 0
            invariant
                graph.wf(),
                edges == graph.edge_models(),
                seen.capacity() == graph.entries().len(),
                walked@.len() > 0,
                walked@[0] == from,
                walked@.no_duplicates(),
                seen@.contains(from),
                forall|n: NodeId| #[trigger] seen@.contains(n) <==> walked@.contains(n),
                forall|n: NodeId| #[trigger]
                    seen@.contains(n) ==> reach::reaches(edges, from, n),
                forall|k: int|
                    0 <= k < queue@.len() ==> graph.has(#[trigger] queue@[k]) && reach::reaches(
                        edges,
                        from,
                        queue@[k],
                    ),
                forall|a: NodeId, b: NodeId|
                    #![trigger graph::linked(edges, a, b)]
                    graph::linked(edges, a, b) && seen@.contains(a) ==> seen@.contains(b)
                        || queue@.contains(b),
            decreases seen.room(), queue.len(),
        {
            let ghost before = queue@;
            let node: NodeId = queue.pop().unwrap();
            assert(node == before[before.len() - 1]);
            assert forall|m: NodeId| before.contains(m) implies m == node || queue@.contains(m) by {
                let k = choose|k: int| 0 <= k < before.len() && before[k] == m;
                if k < before.len() - 1 {
                    assert(queue@[k] == m);
                }
            }
            if seen.contains(node) {
                continue ;
            }
            let ghost listed = walked@;
            seen.insert(node);
            walked.push(node);
            proof {
                assert forall|n: NodeId| #[trigger] seen@.contains(n) <==> walked@.contains(n) by {
                    if listed.contains(n) {
                        let k = choose|k: int| 0 <= k < listed.len() && listed[k] == n;
                        assert(walked@[k] == n);
                    }
                    assert(walked@[listed.len() as int] == node);
                    if walked@.contains(n) && n != node {
                        let k = choose|k: int| 0 <= k < walked@.len() && walked@[k] == n;
                        assert(listed[k] == n);
                    }
                }
            }
            let mut next: Vec<NodeId> = graph.downstream(node);
            let ghost kept = queue@;
            let ghost added = next@;
            queue.append(&mut next);
            proof {
                assert forall|k: int| 0 <= k < queue@.len() implies graph.has(
                    #[trigger] queue@[k],
                ) && reach::reaches(edges, from, queue@[k]) by {
                    if k >= kept.len() {
                        assert(added.contains(added[k - kept.len()]));
                        reach::lemma_outgoing_linked(edges, node, queue@[k]);
                        reach::lemma_reaches_step(edges, from, node, queue@[k]);
                    } else {
                        assert(queue@[k] == kept[k]);
                    }
                }
                assert forall|a: NodeId, b: NodeId|
                    #![trigger graph::linked(edges, a, b)]
                    graph::linked(edges, a, b) && seen@.contains(a) implies seen@.contains(b)
                    || queue@.contains(b) by {
                    reach::lemma_outgoing_linked(edges, a, b);
                    if a == node {
                        let k = choose|k: int| 0 <= k < added.len() && added[k] == b;
                        assert(queue@[kept.len() + k] == b);
                    } else if !seen@.contains(b) {
                        assert(kept.contains(b));
                        let k = choose|k: int| 0 <= k < kept.len() && kept[k] == b;
                        assert(queue@[k] == b);
                    }
                }
            }
        }
        proof {
            assert forall|n: NodeId| #[trigger] walked@.contains(n) <==> reach::reaches(
                edges,
                from,
                n,
            ) by {
                if reach::reaches(edges, from, n) {
                    reach::lemma_closed_forward(edges, from, n, seen@);
                }
                assert(seen@.contains(n) <==> walked@.contains(n));
            }
        }
        self.last_invalidation = walked;
    }
}

/// Adding a node to a list adds it to the list's members.
proof fn lemma_pushed_set(order: Seq<NodeId>, node: NodeId)
    ensures
        order.push(node).to_set() == order.to_set().insert(node),
{
    let longer = order.push(node);
    assert forall|n: NodeId| longer.to_set().contains(n) <==> order.to_set().insert(
        node,
    ).contains(n) by {
        if order.contains(n) {
            let k = choose|k: int| 0 <= k < order.len() && order[k] == n;
            assert(longer[k] == n);
        }
        assert(longer[order.len() as int] == node);
        if longer.contains(n) && n != node {
            let k = choose|k: int| 0 <= k < longer.len() && longer[k] == n;
            assert(order[k] == n);
        }
    }
    assert(longer.to_set() =~= order.to_set().insert(node));
}

/// A sweep order goes on with the smallest node that is ready.
proof fn lemma_order_extends(
    edges: Seq<graph::EdgeModel>,
    live: Set<NodeId>,
    order: Seq<NodeId>,
    node: NodeId,
)
    requires
        schedule::is_order(edges, live, order),
        schedule::next_swept(edges, live, order.to_set(), node),
    ensures
        schedule::is_order(edges, live, order.push(node)),
{
    let longer = order.push(node);
    assert forall|k: int| 0 <= k < longer.len() implies #[trigger] schedule::next_swept(
        edges,
        live,
        longer.subrange(0, k).to_set(),
        longer[k],
    ) by {
        if k < order.len() {
            assert(longer.subrange(0, k) =~= order.subrange(0, k));
            assert(schedule::next_swept(edges, live, order.subrange(0, k).to_set(), order[k]));
        } else {
            assert(longer.subrange(0, k) =~= order);
        }
    }
}

/// What was pulled for a live node belongs to the sweep.
proof fn lemma_sweep_pulled(
    graph: &Graph,
    time: Rational,
    live: Set<NodeId>,
    order: Seq<NodeId>,
    node: NodeId,
    before: Seq<Step>,
    after: Seq<Step>,
)
    requires
        live.contains(node),
        graph.has(node),
        sweeping(graph, time, live, order, before),
        walk::walked(graph, (node, time), before, after),
        pass::punctual(graph, live, time) ==> after == before,
    ensures
        sweeping(graph, time, live, order, after),
{
    assert forall|i: int| 0 <= i < after.len() implies wanted(
        graph,
        time,
        live,
        (#[trigger] after[i]).key(),
    ) && (pass::complete(graph, after, i) || swept(graph, time, live, after, i)) by {
        if i < before.len() {
            assert(after[i] == after.subrange(0, before.len() as int)[i]);
            assert(after[i] == before[i]);
            assert(after.subrange(0, i) =~= before.subrange(0, i)) by {
                assert forall|j: int| 0 <= j < i implies after[j] == before[j] by {
                    assert(after[j] == after.subrange(0, before.len() as int)[j]);
                }
            }
            if pass::complete(graph, before, i) {
                assert(pass::complete(graph, after, i));
            } else {
                assert(swept(graph, time, live, before, i));
                assert(swept(graph, time, live, after, i));
            }
        } else {
            assert(pass::needs(graph, (node, time), after[i].key()));
        }
    }
    assert forall|n: NodeId| #[trigger] order.contains(n) implies memo::tables(
        after,
    ).contains_key((n, time)) by {
        memo::lemma_tables_grow(before, after, (n, time));
    }
}

/// A stop between two nodes.
proof fn lemma_sweep_stopped(
    graph: &Graph,
    time: Rational,
    live: Set<NodeId>,
    before: Seq<HookCall>,
    asked: Seq<HookCall>,
    steps: Seq<Step>,
)
    requires
        sweep_served(graph, time, live, before, asked, steps, false),
    ensures
        sweep_served(graph, time, live, before, asked.push(HookCall::Poll(true)), steps, true),
{
    calls::lemma_served_poll(before, asked, steps, true);
}

/// A poll, and the calls of what was pulled for a node.
proof fn lemma_sweep_pull_served(
    graph: &Graph,
    time: Rational,
    live: Set<NodeId>,
    before: Seq<HookCall>,
    asked: Seq<HookCall>,
    handed: Seq<HookCall>,
    start: Seq<Step>,
    pulled: Seq<Step>,
    stopped: bool,
)
    requires
        sweep_served(graph, time, live, before, asked, start, false),
        start.len() <= pulled.len(),
        pulled.subrange(0, start.len() as int) == start,
        calls::served(
            asked.push(HookCall::Poll(false)),
            handed,
            walk::gained(start, pulled),
            stopped,
        ),
        pass::punctual(graph, live, time) ==> !stopped,
    ensures
        calls::served(before, handed, pulled, stopped),
        stopped ==> sweep_served(graph, time, live, before, handed, pulled, true),
{
    calls::lemma_served_poll(before, asked, start, false);
    calls::lemma_served_joined(
        before,
        asked.push(HookCall::Poll(false)),
        handed,
        start,
        walk::gained(start, pulled),
        stopped,
    );
    assert(start + walk::gained(start, pulled) =~= pulled) by {
        assert forall|i: int| 0 <= i < start.len() implies pulled[i] == start[i] by {
            assert(pulled[i] == pulled.subrange(0, start.len() as int)[i]);
        }
    }
}

/// The output of a node, after its poll and what was pulled for it.
proof fn lemma_sweep_step_served(
    graph: &Graph,
    time: Rational,
    live: Set<NodeId>,
    before: Seq<HookCall>,
    asked: Seq<HookCall>,
    handed: Seq<HookCall>,
    pulled: Seq<Step>,
    step: Step,
)
    requires
        calls::served(before, handed, pulled, false),
        pass::punctual(graph, live, time) ==> handed == asked.push(HookCall::Poll(false))
            && calls::in_turns(before, asked, pulled, false),
    ensures
        sweep_served(
            graph,
            time,
            live,
            before,
            handed.push(calls::resolution(step)),
            pulled.push(step),
            false,
        ),
{
    calls::lemma_served_step(before, handed, pulled, step);
    if pass::punctual(graph, live, time) {
        calls::lemma_in_turns_step(before, asked, pulled, step);
    }
}

/// A live node evaluated in its turn belongs to the sweep.
proof fn lemma_sweep_evaluated(
    graph: &Graph,
    time: Rational,
    live: Set<NodeId>,
    order: Seq<NodeId>,
    node: NodeId,
    before: Seq<Step>,
    step: Step,
)
    requires
        sweeping(graph, time, live, order, before),
        schedule::ready(graph.edge_models(), live, order.to_set(), node),
        step.key() == (node, time),
        pass::runs(graph, before, step),
        !memo::tables(before).contains_key((node, time)),
        forall|d: Key| #[trigger]
            pass::depends(graph, (node, time), d) && d.1 != time && graph.has(d.0) ==> memo::tables(
                before,
            ).contains_key(d),
    ensures
        sweeping(graph, time, live, order.push(node), before.push(step)),
{
    let after = before.push(step);
    let longer = order.push(node);
    pass::lemma_pass_extends(graph, before, step);
    assert(after.drop_last() =~= before);
    assert forall|i: int| 0 <= i < after.len() implies wanted(
        graph,
        time,
        live,
        (#[trigger] after[i]).key(),
    ) && (pass::complete(graph, after, i) || swept(graph, time, live, after, i)) by {
        if i < before.len() {
            assert(after[i] == before[i]);
            assert(after.subrange(0, i) =~= before.subrange(0, i));
            if pass::complete(graph, before, i) {
                assert(pass::complete(graph, after, i));
            } else {
                assert(swept(graph, time, live, before, i));
                assert(swept(graph, time, live, after, i));
            }
        } else {
            assert(after.subrange(0, i) =~= before);
            pass::lemma_needs_itself(graph, (node, time));
            assert(wanted(graph, time, live, after[i].key()));
            assert forall|m: NodeId| #[trigger]
                graph::linked(graph.edge_models(), m, node) && live.contains(
                    m,
                ) implies memo::tables(before).contains_key((m, time)) by {
                assert(order.to_set().contains(m));
                assert(order.contains(m));
            }
            assert(swept(graph, time, live, after, i));
        }
    }
    assert forall|n: NodeId| #[trigger] longer.contains(n) implies memo::tables(
        after,
    ).contains_key((n, time)) by {
        if n != node {
            let k = choose|k: int| 0 <= k < longer.len() && longer[k] == n;
            assert(order[k] == n);
            assert(order.contains(n));
        }
    }
}

/// A live node that a walk already evaluated is not evaluated again.
proof fn lemma_sweep_skipped(
    graph: &Graph,
    time: Rational,
    live: Set<NodeId>,
    order: Seq<NodeId>,
    node: NodeId,
    steps: Seq<Step>,
)
    requires
        sweeping(graph, time, live, order, steps),
        schedule::ready(graph.edge_models(), live, order.to_set(), node),
        memo::tables(steps).contains_key((node, time)),
    ensures
        sweeping(graph, time, live, order.push(node), steps),
        !pass::punctual(graph, live, time),
{
    let longer = order.push(node);
    assert forall|n: NodeId| #[trigger] longer.contains(n) implies memo::tables(
        steps,
    ).contains_key((n, time)) by {
        if n != node {
            let k = choose|k: int| 0 <= k < longer.len() && longer[k] == n;
            assert(order[k] == n);
            assert(order.contains(n));
        }
    }
    if pass::punctual(graph, live, time) {
        memo::lemma_tables_key(steps, (node, time));
        let i = choose|i: int| 0 <= i < steps.len() && (#[trigger] steps[i]).key() == (node, time);
        assert(order[i] == node);
        assert(order.to_set().contains(node));
    }
}

/// The frame of a table is its most recent texture. Without a texture it is
/// the last value, and an empty table has none.
pub proof fn law_frames_are_the_latest_texture(table: &NodeValueTable, r: NodeValue, j: int)
    requires
        call_ensures(frame_of, (table,), r),
    ensures
        rows::is_latest(table@, j, ValueType::Texture) ==> r@ == table@[j].1,
        (forall|k: int| 0 <= k < table@.len() ==> (#[trigger] table@[k]).0 != ValueType::Texture)
            && table@.len() > 0 ==> r@ == table@[table@.len() - 1].1,
        table@.len() == 0 ==> r@ == ValueModel::Empty,
{
    rows::lemma_latest(table@, ValueType::Texture, j);
}

/// An evaluation answers with the table that the render hooks left for the
/// root, which is evaluated once.
pub proof fn law_evaluations_answer_with_the_roots_table(
    graph: &Graph,
    root: Key,
    steps: Seq<Step>,
    j: int,
)
    requires
        is_evaluation(graph, root, steps),
        0 <= j < steps.len(),
        steps[j].key() == root,
    ensures
        memo::tables(steps)[root] == steps[j].table,
        forall|k: int| 0 <= k < steps.len() && (#[trigger] steps[k]).key() == root ==> k == j,
{
    assert forall|k: int| 0 <= k < steps.len() && (#[trigger] steps[k]).key() == root implies k
        == j by {
        if k < j {
            lemma_keys_differ(graph, steps, k, j);
        } else if j < k {
            lemma_keys_differ(graph, steps, j, k);
        }
    }
    memo::lemma_last_step_counts(steps, j);
}

/// No key is evaluated twice.
proof fn lemma_keys_differ(graph: &Graph, steps: Seq<Step>, a: int, b: int)
    requires
        pass::is_pass(graph, steps),
        0 <= a < b < steps.len(),
    ensures
        steps[a].key() != steps[b].key(),
{
    let earlier = steps.subrange(0, b);
    assert(!memo::tables(earlier).contains_key(steps[b].key()));
    assert(earlier[a].key() == steps[a].key());
    memo::lemma_tables_key(earlier, steps[a].key());
}

/// Whether `frame` is what a table shows: its most recent texture, else its
/// last value, else nothing.
pub open spec fn is_frame(table: Seq<TableEntry>, frame: ValueModel) -> bool {
    &&& forall|j: int| #[trigger]
        rows::is_latest(table, j, ValueType::Texture) ==> frame == table[j].1
    &&& (forall|k: int| 0 <= k < table.len() ==> (#[trigger] table[k]).0 != ValueType::Texture)
        && table.len() > 0 ==> frame == table[table.len() - 1].1
    &&& table.len() == 0 ==> frame == ValueModel::Empty
}

/// A sweep puts out the frame that the render hooks left in the table of
/// the output endpoint, at the time of the sweep.
pub proof fn law_sweeps_put_out_the_frame_of_the_output<H: RenderHooks>(
    graph: &Graph,
    time: Rational,
    live: Set<NodeId>,
    output: NodeId,
    before: Seq<HookCall>,
    after: Seq<HookCall>,
    frame: ValueModel,
)
    requires
        sweep_ends::<H>(graph, time, live, output, before, after, frame),
        live.contains(output),
    ensures
        exists|order: Seq<NodeId>, steps: Seq<Step>, j: int|
            {
                &&& #[trigger] is_sweep(graph, time, live, order, steps)
                &&& sweep_served(graph, time, live, before, after, steps, false)
                &&& 0 <= j < steps.len()
                &&& (#[trigger] steps[j]).node == output
                &&& steps[j].time == time
                &&& is_frame(steps[j].table, frame)
            },
{
    let (order, steps) = choose|order: Seq<NodeId>, steps: Seq<Step>|
        {
            &&& #[trigger] is_sweep(graph, time, live, order, steps)
            &&& walk::resolved_by::<H>(steps)
            &&& sweep_served(graph, time, live, before, after, steps, false)
            &&& frame == frame_value(memo::tables(steps)[(output, time)])
        };
    assert(order.to_set().contains(output));
    assert(order.contains(output));
    memo::lemma_tables_key(steps, (output, time));
    let j = choose|j: int| 0 <= j < steps.len() && (#[trigger] steps[j]).key() == (output, time);
    assert forall|k: int| j < k < steps.len() implies (#[trigger] steps[k]).key()
        != steps[j].key() by {
        lemma_keys_differ(graph, steps, j, k);
    }
    memo::lemma_last_step_counts(steps, j);
    let table = steps[j].table;
    assert forall|i: int| #[trigger] rows::is_latest(table, i, ValueType::Texture) implies frame
        == table[i].1 by {
        rows::lemma_latest(table, ValueType::Texture, i);
    }
    rows::lemma_latest(table, ValueType::Texture, 0);
    assert(is_frame(table, frame));
}

/// Whether `marked` holds exactly what `from` leads to, itself among it.
pub open spec fn marks_downstream(
    edges: Seq<EdgeModel>,
    from: NodeId,
    marked: Seq<NodeId>,
) -> bool {
    forall|n: NodeId| #[trigger] marked.contains(n) <==> reach::reaches(edges, from, n)
}

/// A change marks its own node, and every node that an edge leads to from a
/// marked one. Whatever else is marked is led to by a marked node.
pub proof fn law_changes_spread_along_the_edges(
    edges: Seq<EdgeModel>,
    from: NodeId,
    marked: Seq<NodeId>,
    e: EdgeModel,
    n: NodeId,
)
    requires
        marks_downstream(edges, from, marked),
    ensures
        marked.contains(from),
        edges.contains(e) && marked.contains(e.from) ==> marked.contains(e.to),
        marked.contains(n) && n != from ==> exists|k: int|
            0 <= k < edges.len() && (#[trigger] edges[k]).to == n && marked.contains(edges[k].from),
{
    reach::lemma_reaches_itself(edges, from);
    if edges.contains(e) && marked.contains(e.from) {
        let k = choose|k: int| 0 <= k < edges.len() && edges[k] == e;
        assert(edges[k].from == e.from);
        assert(graph::linked(edges, e.from, e.to));
        reach::lemma_reaches_step(edges, from, e.from, e.to);
    }
    if marked.contains(n) && n != from {
        let path = choose|path: Seq<NodeId>| #[trigger]
            reach::is_path(edges, path) && path[0] == from && path.last() == n;
        assert(path.len() > 1);
        let at = path.len() - 2;
        let short = path.drop_last();
        assert forall|i: int| 0 <= i < short.len() - 1 implies graph::linked(
            edges,
            #[trigger] short[i],
            short[i + 1],
        ) by {
            assert(graph::linked(edges, path[i], path[i + 1]));
        }
        assert(reach::is_path(edges, short) && short[0] == from && short.last() == path[at]);
        assert(reach::reaches(edges, from, path[at]));
        assert(marked.contains(path[at]));
        assert(graph::linked(edges, path[at], path[at + 1]));
        let k = choose|k: int|
            0 <= k < edges.len() && (#[trigger] edges[k]).from == path[at] && edges[k].to == path[at
                + 1];
        assert(edges[k].to == n);
    }
}

} // verus!
