//! The node graph: nodes and the edges between them.

use vstd::prelude::*;

use crate::builtin::{AnyBehavior, BuiltIn};
use crate::error::Error;
use crate::id::NodeId;
use crate::input;
use crate::node;
use crate::node::{BoxedBehavior, BoxedRouting, NodeBehavior, NodeCore};
use crate::nodes::graphendpoints;
use crate::reach;
use crate::text;

verus! {

/// An edge: the output of `from` feeds an input of `to`.
#[derive(PartialEq, Debug)]
pub struct Edge {
    /// The node the edge starts at.
    pub from: NodeId,
    /// The node the edge ends at.
    pub to: NodeId,
    /// The input it ends at.
    pub input: String,
    /// The element of an array input; `-1` otherwise.
    pub element: i32,
}

/// What an [`Edge`] connects.
#[verifier::ext_equal]
pub struct EdgeModel {
    pub from: NodeId,
    pub to: NodeId,
    pub input: Seq<char>,
    pub element: i32,
}

/// A connection as the consuming node sees it: the source, the input and
/// the element.
pub type Connection = (NodeId, Seq<char>, i32);

impl Edge {
    /// What this edge connects.
    pub open spec fn view(&self) -> EdgeModel {
        EdgeModel { from: self.from, to: self.to, input: self.input@, element: self.element }
    }
}

/// The order of edges: by source, target, input and element.
pub open spec fn edge_less(a: EdgeModel, b: EdgeModel) -> bool {
    ||| a.from.0 < b.from.0
    ||| a.from == b.from && a.to.0 < b.to.0
    ||| a.from == b.from && a.to == b.to && text::text_less(a.input, b.input)
    ||| a.from == b.from && a.to == b.to && a.input == b.input && a.element < b.element
}

/// The edges stand in ascending order, each once.
pub open spec fn edges_sorted(edges: Seq<EdgeModel>) -> bool {
    forall|i: int, j: int| 0 <= i < j < edges.len() ==> #[trigger] edge_less(edges[i], edges[j])
}

/// The edges that end at `node`, in order.
pub open spec fn incoming(edges: Seq<EdgeModel>, node: NodeId) -> Seq<Connection>
    decreases edges.len(),
{
    if edges.len() == 0 {
        Seq::empty()
    } else {
        let rest = incoming(edges.drop_last(), node);
        let last = edges.last();
        if last.to == node {
            rest.push((last.from, last.input, last.element))
        } else {
            rest
        }
    }
}

/// The edges that start at `node`, in order, each with its target.
pub open spec fn outgoing(edges: Seq<EdgeModel>, node: NodeId) -> Seq<Connection>
    decreases edges.len(),
{
    if edges.len() == 0 {
        Seq::empty()
    } else {
        let rest = outgoing(edges.drop_last(), node);
        let last = edges.last();
        if last.from == node {
            rest.push((last.to, last.input, last.element))
        } else {
            rest
        }
    }
}

/// Some edge leads from `a` to `b`.
pub open spec fn linked(edges: Seq<EdgeModel>, a: NodeId, b: NodeId) -> bool {
    exists|i: int| 0 <= i < edges.len() && (#[trigger] edges[i]).from == a && edges[i].to == b
}

/// What a list of connections says.
pub open spec fn connection_models(list: Seq<(NodeId, String, i32)>) -> Seq<Connection> {
    list.map_values(|c: (NodeId, String, i32)| (c.0, c.1@, c.2))
}

/// The nodes a list of connections names.
pub open spec fn ends(list: Seq<Connection>) -> Seq<NodeId> {
    list.map_values(|c: Connection| c.0)
}

/// A connection is an edge.
pub proof fn lemma_connection_is_edge(edges: Seq<EdgeModel>, node: NodeId, c: Connection)
    ensures
        incoming(edges, node).contains(c) <==> edges.contains(
            (EdgeModel { from: c.0, to: node, input: c.1, element: c.2 }),
        ),
    decreases edges.len(),
{
    let e = EdgeModel { from: c.0, to: node, input: c.1, element: c.2 };
    if edges.len() > 0 {
        let fewer = edges.drop_last();
        let rest = incoming(fewer, node);
        let all = incoming(edges, node);
        lemma_connection_is_edge(fewer, node, c);
        if edges.contains(e) {
            let i = choose|i: int| 0 <= i < edges.len() && edges[i] == e;
            if i < fewer.len() {
                assert(fewer[i] == e);
                let k = choose|k: int| 0 <= k < rest.len() && rest[k] == c;
                assert(all[k] == c);
            } else {
                assert(all.last() == c);
            }
        }
        if all.contains(c) {
            let k = choose|k: int| 0 <= k < all.len() && all[k] == c;
            if k < rest.len() {
                assert(rest[k] == c);
                let i = choose|i: int| 0 <= i < fewer.len() && fewer[i] == e;
                assert(edges[i] == e);
            } else {
                assert(edges[edges.len() - 1] == e);
            }
        }
    }
}

/// The order of edges is transitive.
proof fn lemma_edge_less_transitive(a: EdgeModel, b: EdgeModel, c: EdgeModel)
    requires
        edge_less(a, b),
        edge_less(b, c),
    ensures
        edge_less(a, c),
{
    if text::text_less(a.input, b.input) && text::text_less(b.input, c.input) {
        text::lemma_text_less_transitive(a.input, b.input, c.input);
    }
}

/// No edge precedes itself, and two edges never precede each other.
proof fn lemma_edge_less_strict(a: EdgeModel, b: EdgeModel)
    requires
        edge_less(a, b),
    ensures
        a != b,
        !edge_less(b, a),
{
    if text::text_less(a.input, b.input) {
        text::lemma_text_less_asymmetric(a.input, b.input);
    }
    text::lemma_text_less_irreflexive(a.input);
}

/// Two different edges are always ordered one way.
proof fn lemma_edge_less_total(a: EdgeModel, b: EdgeModel)
    ensures
        edge_less(a, b) || edge_less(b, a) || a == b,
{
    text::lemma_text_less_total(a.input, b.input);
}

/// Whether `a` precedes `b`.
fn edge_precedes(a: &Edge, b: &Edge) -> (r: bool)
    ensures
        r == edge_less(a@, b@),
{
    if a.from != b.from {
        a.from.0 < b.from.0
    } else if a.to != b.to {
        a.to.0 < b.to.0
    } else if !text::same(a.input.as_str(), b.input.as_str()) {
        text::precedes(a.input.as_str(), b.input.as_str())
    } else {
        proof {
            text::lemma_text_less_irreflexive(a.input@);
        }
        a.element < b.element
    }
}

/// A node of the graph.
pub struct NodeEntry {
    /// The node's state.
    pub core: NodeCore,
    /// The node's behavior.
    pub behavior: AnyBehavior,
    /// Where the node pulls its inputs; `None` takes every edge as it is.
    pub routing: Option<BoxedRouting>,
    /// The behavior's type id.
    pub type_id: String,
}

impl NodeEntry {
    /// The node to pull for a connection.
    pub open spec fn source(&self, connection: Connection) -> NodeId {
        match self.routing {
            None => connection.0,
            Some(r) => match r.routing.spec_output(&self.core, connection.1, connection.2) {
                Some(other) => other,
                None => connection.0,
            },
        }
    }

    /// The time to pull an input element at.
    pub open spec fn pull_time(
        &self,
        input: Seq<char>,
        element: i32,
        time: crate::rational::Rational,
    ) -> crate::rational::Rational {
        match self.routing {
            None => time,
            Some(r) => r.routing.spec_time(
                &self.core,
                input,
                element,
                crate::rational::TimeRange { start: time, end: time },
                true,
            ).start,
        }
    }

    /// The elements of an array input that count at `time`; none means
    /// all.
    pub open spec fn active(&self, input: Seq<char>, time: crate::rational::Rational) -> Seq<i32> {
        match self.routing {
            None => Seq::empty(),
            Some(r) => r.routing.spec_active(input, time),
        }
    }
}

/// Nodes and the edges between them.
pub struct Graph {
    nodes: Vec<NodeEntry>,
    edges: Vec<Edge>,
}

/// The first node whose type id is `type_id`, from index `from` on.
pub open spec fn first_of_type(
    nodes: Seq<NodeEntry>,
    type_id: Seq<char>,
    from: int,
) -> Option<NodeId>
    decreases nodes.len() - from,
{
    if from < 0 || from >= nodes.len() {
        None
    } else if nodes[from].type_id@ == type_id {
        Some(NodeId(from as u64))
    } else {
        first_of_type(nodes, type_id, from + 1)
    }
}

/// A node of the host's own: it does what `behavior` does.
fn custom(behavior: BoxedBehavior) -> (r: AnyBehavior)
    ensures
        r == AnyBehavior::Custom(behavior),
{
    AnyBehavior::Custom(behavior)
}

/// How a node is routed that pulls its inputs through `routing`.
fn routed_by(routing: BoxedRouting) -> (r: Option<BoxedRouting>)
    ensures
        r == Some(routing),
{
    Some(routing)
}

impl Graph {
    /// The nodes, by index.
    pub closed spec fn entries(&self) -> Seq<NodeEntry> {
        self.nodes@
    }

    /// The edges, in order.
    pub closed spec fn edge_models(&self) -> Seq<EdgeModel> {
        self.edges@.map_values(|e: Edge| e@)
    }

    /// Whether `id` names a node of this graph.
    pub open spec fn has(&self, id: NodeId) -> bool {
        id.0 < self.entries().len()
    }

    /// The node called `id`.
    pub open spec fn entry(&self, id: NodeId) -> NodeEntry {
        self.entries()[id.0 as int]
    }

    /// The edges are in order and connect nodes of this graph.
    pub open spec fn wf(&self) -> bool {
        &&& edges_sorted(self.edge_models())
        &&& forall|i: int|
            0 <= i < self.edge_models().len() ==> self.has((#[trigger] self.edge_models()[i]).from)
                && self.has(self.edge_models()[i].to)
    }

    /// The input and the output endpoint, when the graph has both.
    pub open spec fn spec_endpoints(&self) -> Option<(NodeId, NodeId)> {
        match (
            first_of_type(self.entries(), graphendpoints::GRAPH_INPUT_TYPE_ID@, 0),
            first_of_type(self.entries(), graphendpoints::GRAPH_OUTPUT_TYPE_ID@, 0),
        ) {
            (Some(input), Some(output)) => Some((input, output)),
            _ => None,
        }
    }

    /// An empty graph.
    pub fn new() -> (r: Graph)
        ensures
            r.wf(),
            r.entries() == Seq::<NodeEntry>::empty(),
            r.edge_models() == Seq::<EdgeModel>::empty(),
    {
        let r = Graph { nodes: Vec::new(), edges: Vec::new() };
        assert(r.edge_models() =~= Seq::<EdgeModel>::empty());
        r
    }

    /// Add a node of the host's own.
    pub fn add_node(&mut self, core: NodeCore, behavior: BoxedBehavior) -> (r: NodeId)
        requires
            old(self).wf(),
        ensures
            final(self).wf(),
            r.0 == old(self).entries().len(),
            final(self).entries().len() == old(self).entries().len() + 1,
            final(self).entries().drop_last() == old(self).entries(),
            final(self).entries().last().core == core,
            final(self).entries().last().behavior == AnyBehavior::Custom(behavior),
            final(self).entries().last().type_id@ == behavior.behavior.spec_type_id(),
            final(self).entries().last().routing is None,
            final(self).edge_models() == old(self).edge_models(),
    {
        let type_id: String = behavior.behavior.type_id().to_string();
        let boxed = custom(behavior);
        self.add_entry(NodeEntry { core, behavior: boxed, routing: None, type_id })
    }

    /// Add a node of a built-in type.
    pub fn add_built_in(&mut self, core: NodeCore, node: BuiltIn) -> (r: NodeId)
        requires
            old(self).wf(),
        ensures
            final(self).wf(),
            r.0 == old(self).entries().len(),
            final(self).entries().len() == old(self).entries().len() + 1,
            final(self).entries().drop_last() == old(self).entries(),
            final(self).entries().last().core == core,
            final(self).entries().last().behavior == AnyBehavior::BuiltIn(node),
            final(self).entries().last().type_id@ == node.spec_type_id(),
            final(self).entries().last().routing is None,
            final(self).edge_models() == old(self).edge_models(),
    {
        let type_id: String = node.type_id().to_string();
        self.add_entry(
            NodeEntry { core, behavior: AnyBehavior::BuiltIn(node), routing: None, type_id },
        )
    }

    /// Add a node of the host's own that pulls its inputs through
    /// `routing`.
    pub fn add_routed_node(
        &mut self,
        core: NodeCore,
        behavior: BoxedBehavior,
        routing: BoxedRouting,
    ) -> (r: NodeId)
        requires
            old(self).wf(),
        ensures
            final(self).wf(),
            r.0 == old(self).entries().len(),
            final(self).entries().len() == old(self).entries().len() + 1,
            final(self).entries().drop_last() == old(self).entries(),
            final(self).entries().last().core == core,
            final(self).entries().last().behavior == AnyBehavior::Custom(behavior),
            final(self).entries().last().type_id@ == behavior.behavior.spec_type_id(),
            final(self).entries().last().routing == Some(routing),
            final(self).edge_models() == old(self).edge_models(),
    {
        let type_id: String = behavior.behavior.type_id().to_string();
        let boxed = custom(behavior);
        let routed = routed_by(routing);
        self.add_entry(NodeEntry { core, behavior: boxed, routing: routed, type_id })
    }

    /// Append a node.
    fn add_entry(&mut self, entry: NodeEntry) -> (r: NodeId)
        requires
            old(self).wf(),
        ensures
            final(self).wf(),
            r.0 == old(self).entries().len(),
            final(self).entries() == old(self).entries().push(entry),
            final(self).edge_models() == old(self).edge_models(),
    {
        let id: NodeId = NodeId(self.nodes.len() as u64);
        self.nodes.push(entry);
        assert(self.entries() =~= old(self).entries().push(entry));
        assert(self.edge_models() =~= old(self).edge_models());
        id
    }

    /// Whether `id` names a node of this graph.
    pub fn is_valid(&self, id: NodeId) -> (r: bool)
        ensures
            r == self.has(id),
    {
        id.0 < self.nodes.len() as u64
    }

    /// The number of nodes.
    pub fn node_count(&self) -> (r: usize)
        ensures
            r == self.entries().len(),
    {
        self.nodes.len()
    }

    /// The number of edges.
    pub fn edge_count(&self) -> (r: usize)
        ensures
            r == self.edge_models().len(),
    {
        self.edges.len()
    }

    /// The nodes that an edge connects.
    pub fn edge_ends(&self, index: usize) -> (r: (NodeId, NodeId))
        requires
            index < self.edge_models().len(),
        ensures
            r.0 == self.edge_models()[index as int].from,
            r.1 == self.edge_models()[index as int].to,
    {
        (self.edges[index].from, self.edges[index].to)
    }

    /// Borrow a node.
    pub fn get(&self, id: NodeId) -> (r: Option<&NodeEntry>)
        ensures
            match r {
                Some(entry) => self.has(id) && *entry == self.entry(id),
                None => !self.has(id),
            },
    {
        let count: usize = self.nodes.len();
        if id.0 < count as u64 {
            Some(&self.nodes[id.0 as usize])
        } else {
            None
        }
    }

    /// The edges that end at `node`: source, input and element, in edge
    /// order.
    pub fn input_connections(&self, node: NodeId) -> (r: Vec<(NodeId, String, i32)>)
        ensures
            connection_models(r@) == incoming(self.edge_models(), node),
    {
        let mut out: Vec<(NodeId, String, i32)> = Vec::new();
        let mut i: usize = 0;
        assert(self.edge_models().subrange(0, 0) =~= Seq::empty());
        assert(connection_models(out@) =~= Seq::empty());
        while i < self.edges.len()
            invariant
                i <= self.edges@.len(),
                connection_models(out@) == incoming(
                    self.edge_models().subrange(0, i as int),
                    node,
                ),
            decreases self.edges@.len() - i,
        {
            let edge: &Edge = &self.edges[i];
            let ghost before = out@;
            proof {
                let longer = self.edge_models().subrange(0, i + 1);
                assert(longer.drop_last() =~= self.edge_models().subrange(0, i as int));
                assert(longer.last() == edge@);
            }
            if edge.to == node {
                out.push((edge.from, edge.input.clone(), edge.element));
                assert(connection_models(out@) =~= connection_models(before).push(
                    (edge.from, edge.input@, edge.element),
                ));
            }
            i = i + 1;
        }
        assert(self.edge_models().subrange(0, i as int) =~= self.edge_models());
        out
    }

    /// The edges that start at `node`: target, input and element, in edge
    /// order.
    pub fn output_connections(&self, node: NodeId) -> (r: Vec<(NodeId, String, i32)>)
        ensures
            connection_models(r@) == outgoing(self.edge_models(), node),
    {
        let mut out: Vec<(NodeId, String, i32)> = Vec::new();
        let mut i: usize = 0;
        assert(self.edge_models().subrange(0, 0) =~= Seq::empty());
        assert(connection_models(out@) =~= Seq::empty());
        while i < self.edges.len()
            invariant
                i <= self.edges@.len(),
                connection_models(out@) == outgoing(
                    self.edge_models().subrange(0, i as int),
                    node,
                ),
            decreases self.edges@.len() - i,
        {
            let edge: &Edge = &self.edges[i];
            let ghost before = out@;
            proof {
                let longer = self.edge_models().subrange(0, i + 1);
                assert(longer.drop_last() =~= self.edge_models().subrange(0, i as int));
                assert(longer.last() == edge@);
            }
            if edge.from == node {
                out.push((edge.to, edge.input.clone(), edge.element));
                assert(connection_models(out@) =~= connection_models(before).push(
                    (edge.to, edge.input@, edge.element),
                ));
            }
            i = i + 1;
        }
        assert(self.edge_models().subrange(0, i as int) =~= self.edge_models());
        out
    }

    /// The nodes that feed `node`, in edge order.
    pub fn upstream(&self, node: NodeId) -> (r: Vec<NodeId>)
        ensures
            r@ == ends(incoming(self.edge_models(), node)),
    {
        ends_of(&self.input_connections(node))
    }

    /// The nodes that `node` feeds, in edge order.
    pub fn downstream(&self, node: NodeId) -> (r: Vec<NodeId>)
        ensures
            r@ == ends(outgoing(self.edge_models(), node)),
    {
        ends_of(&self.output_connections(node))
    }

    /// Insert an edge at its place in the order.
    fn put_edge(&mut self, edge: Edge)
        requires
            old(self).wf(),
            old(self).has(edge.from),
            old(self).has(edge.to),
        ensures
            final(self).wf(),
            final(self).entries() == old(self).entries(),
            final(self).edge_models().to_set() == old(self).edge_models().to_set().insert(edge@),
    {
        let mut at: usize = 0;
        while at < self.edges.len() && edge_precedes(&self.edges[at], &edge)
            invariant
                at <= self.edges@.len(),
                forall|i: int|
                    0 <= i < at ==> edge_less(#[trigger] self.edge_models()[i], edge@),
            decreases self.edges@.len() - at,
        {
            at = at + 1;
        }
        let ghost list = self.edge_models();
        if at < self.edges.len() && !edge_precedes(&edge, &self.edges[at]) {
            proof {
                lemma_edge_less_total(list[at as int], edge@);
                assert(list.contains(list[at as int]));
                assert(list.to_set() =~= list.to_set().insert(edge@));
            }
            return ;
        }
        self.edges.insert(at, edge);
        proof {
            assert(self.entries() =~= old(self).entries());
            let longer = self.edge_models();
            assert(longer =~= list.insert(at as int, edge@));
            assert forall|i: int| at <= i < list.len() implies edge_less(
                edge@,
                #[trigger] list[i],
            ) by {
                if i > at {
                    assert(edge_less(list[at as int], list[i]));
                    lemma_edge_less_transitive(edge@, list[at as int], list[i]);
                }
            }
            assert forall|i: int, j: int| 0 <= i < j < longer.len() implies #[trigger] edge_less(
                longer[i],
                longer[j],
            ) by {
                if j < at {
                    assert(edge_less(list[i], list[j]));
                } else if i > at {
                    assert(edge_less(list[i - 1], list[j - 1]));
                } else if i < at && j > at {
                    assert(edge_less(list[i], list[j - 1]));
                } else if i == at {
                    assert(edge_less(edge@, list[j - 1]));
                } else {
                    assert(edge_less(list[i], edge@));
                }
            }
            assert forall|i: int| 0 <= i < longer.len() implies self.has(
                (#[trigger] longer[i]).from,
            ) && self.has(longer[i].to) by {
                if i < at {
                    assert(longer[i] == list[i]);
                } else if i > at {
                    assert(longer[i] == list[i - 1]);
                }
            }
            assert forall|e: EdgeModel| longer.to_set().contains(e) <==> list.to_set().insert(
                edge@,
            ).contains(e) by {
                if list.contains(e) {
                    let i = choose|i: int| 0 <= i < list.len() && list[i] == e;
                    if i < at {
                        assert(longer[i] == e);
                    } else {
                        assert(longer[i + 1] == e);
                    }
                }
                assert(longer[at as int] == edge@);
                if longer.contains(e) {
                    let i = choose|i: int| 0 <= i < longer.len() && longer[i] == e;
                    if i < at {
                        assert(list[i] == e);
                    } else if i > at {
                        assert(list[i - 1] == e);
                    }
                }
            }
            assert(longer.to_set() =~= list.to_set().insert(edge@));
        }
    }

    /// Connect the output of `from` to an input of `to`.
    ///
    /// Refused with `NotFound` when a node or the input does not exist,
    /// and with `State` when the input takes no edges or the edge would
    /// close a cycle.
    pub fn connect(&mut self, from: NodeId, to: NodeId, name: &str, element: i32) -> (r: Result<
        (),
        Error,
    >)
        requires
            old(self).wf(),
        ensures
            final(self).wf(),
            final(self).entries() == old(self).entries(),
            r == old(self).connect_answer(from, to, name@),
            r is Ok ==> final(self).edge_models().to_set()
                == old(self).edge_models().to_set().insert(
                (EdgeModel { from, to, input: name@, element }),
            ),
            r is Err ==> final(self).edge_models() == old(self).edge_models(),
    {
        if !self.is_valid(from) {
            return Err(Error::NotFound);
        }
        match self.get(to) {
            None => {
                return Err(Error::NotFound);
            },
            Some(entry) => match entry.core.get_input(name) {
                None => {
                    return Err(Error::NotFound);
                },
                Some(declared) => {
                    if !declared.is_connectable() {
                        return Err(Error::State);
                    }
                },
            },
        }
        let cone = reach::reachable(self, to, false);
        if cone.contains(from) {
            return Err(Error::State);
        }
        self.put_edge(Edge { from, to, input: name.to_string(), element });
        Ok(())
    }

    /// How [`Graph::connect`] answers.
    pub open spec fn connect_answer(&self, from: NodeId, to: NodeId, name: Seq<char>) -> Result<
        (),
        Error,
    > {
        if !self.has(from) || !self.has(to) {
            Err(Error::NotFound)
        } else {
            match input::find_input(self.entry(to).core.input_models(), name) {
                None => Err(Error::NotFound),
                Some(declared) => {
                    if declared.flags & input::flags::NOT_CONNECTABLE != 0 || reach::reaches(
                        self.edge_models(),
                        to,
                        from,
                    ) {
                        Err(Error::State)
                    } else {
                        Ok(())
                    }
                },
            }
        }
    }

    /// Connect two existing nodes without looking at the input or at
    /// cycles.
    pub fn force_connect(&mut self, from: NodeId, to: NodeId, name: &str, element: i32)
        requires
            old(self).wf(),
            old(self).has(from),
            old(self).has(to),
        ensures
            final(self).wf(),
            final(self).entries() == old(self).entries(),
            final(self).edge_models().to_set() == old(self).edge_models().to_set().insert(
                (EdgeModel { from, to, input: name@, element }),
            ),
    {
        self.put_edge(Edge { from, to, input: name.to_string(), element });
    }

    /// Remove an edge, if it is there.
    pub fn disconnect(&mut self, from: NodeId, to: NodeId, name: &str, element: i32)
        requires
            old(self).wf(),
        ensures
            final(self).wf(),
            final(self).entries() == old(self).entries(),
            final(self).edge_models().to_set() == old(self).edge_models().to_set().remove(
                (EdgeModel { from, to, input: name@, element }),
            ),
    {
        let ghost target = EdgeModel { from, to, input: name@, element };
        let ghost list = self.edge_models();
        let mut at: usize = 0;
        while at < self.edges.len()
            invariant
                at <= self.edges@.len(),
                old(self).wf(),
                *self == *old(self),
                list == self.edge_models(),
                target == (EdgeModel { from, to, input: name@, element }),
                forall|i: int| 0 <= i < at ==> #[trigger] list[i] != target,
            decreases self.edges@.len() - at,
        {
            let edge: &Edge = &self.edges[at];
            assert(list[at as int] == edge@);
            if edge.from == from && edge.to == to && edge.element == element && text::same(
                edge.input.as_str(),
                name,
            ) {
                assert(list[at as int] == target);
                self.edges.remove(at);
                proof {
                    let shorter = self.edge_models();
                    assert(shorter =~= list.remove(at as int));
                    assert forall|i: int, j: int|
                        0 <= i < j < shorter.len() implies #[trigger] edge_less(
                        shorter[i],
                        shorter[j],
                    ) by {
                        let k = if i < at { i } else { i + 1 };
                        let l = if j < at { j } else { j + 1 };
                        assert(edge_less(list[k], list[l]));
                    }
                    assert forall|i: int| 0 <= i < shorter.len() implies self.has(
                        (#[trigger] shorter[i]).from,
                    ) && self.has(shorter[i].to) by {
                        let k = if i < at { i } else { i + 1 };
                        assert(shorter[i] == list[k]);
                    }
                    assert forall|e: EdgeModel| shorter.to_set().contains(e)
                        <==> list.to_set().remove(target).contains(e) by {
                        if list.contains(e) && e != target {
                            let i = choose|i: int| 0 <= i < list.len() && list[i] == e;
                            let k = if i < at { i } else { i - 1 };
                            assert(shorter[k] == e);
                        }
                        if shorter.contains(e) {
                            let i = choose|i: int| 0 <= i < shorter.len() && shorter[i] == e;
                            let k = if i < at { i } else { i + 1 };
                            assert(list[k] == e);
                            if k < at {
                                assert(edge_less(list[k], list[at as int]));
                                lemma_edge_less_strict(list[k], list[at as int]);
                            } else {
                                assert(edge_less(list[at as int], list[k]));
                                lemma_edge_less_strict(list[at as int], list[k]);
                            }
                        }
                    }
                    assert(shorter.to_set() =~= list.to_set().remove(target));
                }
                return ;
            }
            at = at + 1;
        }
        assert(list.to_set() =~= list.to_set().remove(target));
    }

    /// The first node whose type id is `type_id`.
    fn find_type(&self, type_id: &str) -> (r: Option<NodeId>)
        ensures
            r == first_of_type(self.entries(), type_id@, 0),
            r matches Some(id) ==> self.has(id) && self.entry(id).type_id@ == type_id@,
    {
        let mut i: usize = 0;
        while i < self.nodes.len()
            invariant
                i <= self.nodes@.len(),
                first_of_type(self.entries(), type_id@, 0) == first_of_type(
                    self.entries(),
                    type_id@,
                    i as int,
                ),
            decreases self.nodes@.len() - i,
        {
            if text::same(self.nodes[i].type_id.as_str(), type_id) {
                return Some(NodeId(i as u64));
            }
            i = i + 1;
        }
        None
    }

    /// The input and the output endpoint, when the graph has both.
    pub fn endpoints(&self) -> (r: Option<(NodeId, NodeId)>)
        ensures
            r == self.spec_endpoints(),
            r matches Some((input, output)) ==> self.has(input) && self.has(output),
    {
        match self.find_type(graphendpoints::GRAPH_INPUT_TYPE_ID) {
            None => None,
            Some(input) => match self.find_type(graphendpoints::GRAPH_OUTPUT_TYPE_ID) {
                None => None,
                Some(output) => Some((input, output)),
            },
        }
    }

    /// Whether `id` is one of the graph's endpoint nodes.
    pub fn is_endpoint(&self, id: NodeId) -> (r: bool)
        ensures
            r == (self.has(id) && (self.entry(id).type_id@ == graphendpoints::GRAPH_INPUT_TYPE_ID@
                || self.entry(id).type_id@ == graphendpoints::GRAPH_OUTPUT_TYPE_ID@)),
    {
        match self.get(id) {
            Some(entry) => text::same(entry.type_id.as_str(), graphendpoints::GRAPH_INPUT_TYPE_ID)
                || text::same(entry.type_id.as_str(), graphendpoints::GRAPH_OUTPUT_TYPE_ID),
            None => false,
        }
    }

    /// The endpoint pair, created and wired input to output where the
    /// graph lacks it. A graph that has both endpoints is left as it is.
    pub fn ensure_endpoints(&mut self) -> (r: (NodeId, NodeId))
        requires
            old(self).wf(),
        ensures
            final(self).wf(),
            final(self).has(r.0),
            final(self).has(r.1),
            final(self).spec_endpoints() == Some(r),
            old(self).spec_endpoints() is Some ==> *final(self) == *old(self),
            old(self).spec_endpoints() is None ==> {
                &&& final(self).edge_models().to_set() == old(self).edge_models().to_set().insert(
                    pair_edge(r.0, r.1),
                )
                &&& final(self).entries().len() == old(self).entries().len() + lacking(
                    old(self).entries(),
                    graphendpoints::GRAPH_INPUT_TYPE_ID@,
                ) + lacking(old(self).entries(), graphendpoints::GRAPH_OUTPUT_TYPE_ID@)
                &&& lacking(old(self).entries(), graphendpoints::GRAPH_INPUT_TYPE_ID@) == 1
                    ==> is_new_input(final(self).entry(r.0))
                &&& lacking(old(self).entries(), graphendpoints::GRAPH_OUTPUT_TYPE_ID@) == 1
                    ==> is_new_output(final(self).entry(r.1))
                &&& lacking(old(self).entries(), graphendpoints::GRAPH_INPUT_TYPE_ID@) == 1
                    && lacking(old(self).entries(), graphendpoints::GRAPH_OUTPUT_TYPE_ID@) == 1
                    ==> is_new_pair(&*final(self), r.0, r.1)
                &&& final(self).entries().subrange(0, old(self).entries().len() as int)
                    == old(self).entries()
            },
    {
        match self.endpoints() {
            Some(pair) => {
                return pair;
            },
            None => {},
        }
        let input: NodeId = match self.find_type(graphendpoints::GRAPH_INPUT_TYPE_ID) {
            Some(id) => id,
            None => {
                let (core, behavior) = graphendpoints::create_graph_input();
                let id = self.add_built_in(core, BuiltIn::GraphInput(behavior));
                proof {
                    lemma_type_appended(
                        old(self).entries(),
                        self.entries(),
                        graphendpoints::GRAPH_INPUT_TYPE_ID@,
                        0,
                    );
                    reveal_strlit("org.olivevideoeditor.Olive.graphinput");
                    reveal_strlit("org.olivevideoeditor.Olive.graphoutput");
                    assert(graphendpoints::GRAPH_INPUT_TYPE_ID@.len()
                        < graphendpoints::GRAPH_OUTPUT_TYPE_ID@.len());
                    lemma_type_kept(
                        old(self).entries(),
                        self.entries(),
                        graphendpoints::GRAPH_OUTPUT_TYPE_ID@,
                        0,
                    );
                }
                id
            },
        };
        let ghost middle = self.entries();
        assert(middle.subrange(0, old(self).entries().len() as int) =~= old(self).entries());
        let output: NodeId = match self.find_type(graphendpoints::GRAPH_OUTPUT_TYPE_ID) {
            Some(id) => id,
            None => {
                let (core, behavior) = graphendpoints::create_graph_output();
                let id = self.add_built_in(core, BuiltIn::GraphOutput(behavior));
                proof {
                    lemma_type_appended(
                        middle,
                        self.entries(),
                        graphendpoints::GRAPH_OUTPUT_TYPE_ID@,
                        0,
                    );
                    lemma_type_kept(
                        middle,
                        self.entries(),
                        graphendpoints::GRAPH_INPUT_TYPE_ID@,
                        0,
                    );
                    assert(self.entries().subrange(0, middle.len() as int) =~= middle);
                }
                id
            },
        };
        proof {
            assert(self.entries().subrange(0, old(self).entries().len() as int)
                =~= old(self).entries()) by {
                assert(self.entries().subrange(0, middle.len() as int) =~= middle);
                assert forall|i: int| 0 <= i < old(self).entries().len() implies
                    self.entries()[i] == old(self).entries()[i] by {
                    assert(self.entries()[i] == self.entries().subrange(0, middle.len() as int)[i]);
                    assert(middle[i] == middle.subrange(0, old(self).entries().len() as int)[i]);
                }
            }
        }
        self.force_connect(input, output, graphendpoints::GRAPH_OUTPUT_INPUT, -1);
        proof {
            let (before, after) = (old(self).edge_models(), self.edge_models());
            let pair = pair_edge(input, output);
            assert(after.to_set().contains(pair));
            assert forall|k: int| 0 <= k < after.len() && #[trigger] after[k] != pair implies exists|
                j: int,
            | 0 <= j < before.len() && #[trigger] before[j] == after[k] by {
                assert(after.to_set().contains(after[k]));
                assert(before.to_set().contains(after[k]));
            }
        }
        (input, output)
    }
}

/// How many nodes of a type a graph lacks: one, unless it has one.
pub open spec fn lacking(entries: Seq<NodeEntry>, type_id: Seq<char>) -> int {
    if first_of_type(entries, type_id, 0) is None {
        1
    } else {
        0
    }
}

/// The edge from the input endpoint to the output endpoint.
pub open spec fn pair_edge(input: NodeId, output: NodeId) -> EdgeModel {
    EdgeModel {
        from: input,
        to: output,
        input: graphendpoints::GRAPH_OUTPUT_INPUT@,
        element: -1i32,
    }
}

/// Whether the endpoints of a graph are new ones that only the edge between
/// them touches.
pub open spec fn is_new_pair(graph: &Graph, input: NodeId, output: NodeId) -> bool {
    &&& graph.spec_endpoints() == Some((input, output))
    &&& graph.has(input)
    &&& graph.has(output)
    &&& is_new_input(graph.entry(input))
    &&& is_new_output(graph.entry(output))
    &&& graph.edge_models().contains(pair_edge(input, output))
    &&& forall|k: int|
        #![trigger graph.edge_models()[k]]
        0 <= k < graph.edge_models().len() && (graph.edge_models()[k].from == input
            || graph.edge_models()[k].to == input || graph.edge_models()[k].from == output
            || graph.edge_models()[k].to == output) ==> graph.edge_models()[k] == pair_edge(
            input,
            output,
        )
}

/// Whether a node is a new input endpoint.
pub open spec fn is_new_input(entry: NodeEntry) -> bool {
    &&& entry.type_id@ == graphendpoints::GRAPH_INPUT_TYPE_ID@
    &&& entry.behavior == AnyBehavior::BuiltIn(BuiltIn::GraphInput(graphendpoints::GraphInputNode))
    &&& graphendpoints::created_graph_input(&entry.core)
    &&& entry.routing is None
}

/// Whether a node is a new output endpoint.
pub open spec fn is_new_output(entry: NodeEntry) -> bool {
    &&& entry.type_id@ == graphendpoints::GRAPH_OUTPUT_TYPE_ID@
    &&& entry.behavior == AnyBehavior::BuiltIn(
        BuiltIn::GraphOutput(graphendpoints::GraphOutputNode),
    )
    &&& graphendpoints::created_graph_output(&entry.core)
    &&& entry.routing is None
}

/// Appending a node of a type that was missing makes it the first one.
proof fn lemma_type_appended(
    before: Seq<NodeEntry>,
    after: Seq<NodeEntry>,
    type_id: Seq<char>,
    from: int,
)
    requires
        0 <= from <= before.len(),
        after.len() == before.len() + 1,
        after.drop_last() == before,
        after.last().type_id@ == type_id,
        first_of_type(before, type_id, from) is None,
    ensures
        first_of_type(after, type_id, from) == Some(NodeId(before.len() as u64)),
    decreases before.len() - from,
{
    if from < before.len() {
        assert(after[from] == before[from]);
        lemma_type_appended(before, after, type_id, from + 1);
    }
}

/// Appending a node of another type leaves the first one of a type as it
/// was.
proof fn lemma_type_kept(
    before: Seq<NodeEntry>,
    after: Seq<NodeEntry>,
    type_id: Seq<char>,
    from: int,
)
    requires
        0 <= from <= before.len(),
        after.len() == before.len() + 1,
        after.drop_last() == before,
        first_of_type(before, type_id, from) is Some || after.last().type_id@ != type_id,
    ensures
        first_of_type(after, type_id, from) == first_of_type(before, type_id, from),
    decreases before.len() - from,
{
    if from < before.len() {
        assert(after[from] == before[from]);
        if before[from].type_id@ != type_id {
            lemma_type_kept(before, after, type_id, from + 1);
        }
    } else {
        assert(first_of_type(after, type_id, from + 1) is None);
    }
}

/// The nodes a list of connections names.
fn ends_of(list: &Vec<(NodeId, String, i32)>) -> (r: Vec<NodeId>)
    ensures
        r@ == ends(connection_models(list@)),
{
    let mut out: Vec<NodeId> = Vec::new();
    let mut i: usize = 0;
    while i < list.len()
        invariant
            i <= list@.len(),
            out@ =~= ends(connection_models(list@)).subrange(0, i as int),
        decreases list@.len() - i,
    {
        out.push(list[i].0);
        i = i + 1;
    }
    out
}

/// Whether some path leads from a node to another, or they are the same.
pub open spec fn leads(edges: Seq<EdgeModel>, path: Seq<NodeId>, a: NodeId, b: NodeId) -> bool {
    &&& path.len() > 0
    &&& path[0] == a
    &&& path[path.len() - 1] == b
    &&& forall|i: int|
        0 <= i < path.len() - 1 ==> exists|k: int|
            #![trigger edges[k]]
            0 <= k < edges.len() && edges[k].from == #[trigger] path[i] && edges[k].to == path[i
                + 1]
}

/// A connection is refused as not found exactly where one of the nodes or
/// the input does not exist. Of the others it is refused exactly where the
/// input takes no edges or the target leads to the source. A connection
/// that is made adds its edge and no other; a refused one changes nothing.
pub proof fn law_connections_are_refused_for_cause(
    graph: &mut Graph,
    from: NodeId,
    to: NodeId,
    name: &str,
    element: i32,
    r: Result<(), Error>,
    at: int,
    path: Seq<NodeId>,
    e: EdgeModel,
)
    requires
        old(graph).wf(),
        call_ensures(Graph::connect, (graph, from, to, name, element), r),
    ensures
        final(graph).entries() == old(graph).entries(),
        from.0 >= old(graph).entries().len() || to.0 >= old(graph).entries().len() ==> r == Err::<
            (),
            Error,
        >(Error::NotFound),
        old(graph).has(to) && (forall|k: int|
            0 <= k < old(graph).entry(to).core.inputs@.len() ==> (#[trigger] old(graph).entry(to).core.inputs@[k]).id@ != name@) ==> r == Err::<(), Error>(Error::NotFound),
        old(graph).has(from) && old(graph).has(to) && node::is_first_declared(
            old(graph).entry(to).core.inputs@,
            at,
            name@,
        ) ==> {
            let closed = old(graph).entry(to).core.inputs@[at].flags & input::flags::NOT_CONNECTABLE
                != 0;
            &&& closed ==> r == Err::<(), Error>(Error::State)
            &&& leads(old(graph).edge_models(), path, to, from) ==> r == Err::<(), Error>(
                Error::State,
            )
            &&& r == Err::<(), Error>(Error::State) && !closed ==> exists|p: Seq<NodeId>| #[trigger]
                leads(old(graph).edge_models(), p, to, from)
            &&& r is Ok || r == Err::<(), Error>(Error::State)
        },
        r is Ok ==> (final(graph).edge_models().contains(e) <==> old(graph).edge_models().contains(e)
            || (e.from == from && e.to == to && e.input == name@ && e.element == element)),
        r is Err ==> final(graph).edge_models() == old(graph).edge_models(),
{
    let edges = old(graph).edge_models();
    if old(graph).has(to) {
        let core = old(graph).entry(to).core;
        assert(core.input_models().skip(0) =~= core.input_models());
        node::lemma_input_found(&core, name@, 0);
    }
    if leads(edges, path, to, from) {
        assert forall|i: int| 0 <= i < path.len() - 1 implies linked(
            edges,
            #[trigger] path[i],
            path[i + 1],
        ) by {
            let k = choose|k: int|
                #![trigger edges[k]]
                0 <= k < edges.len() && edges[k].from == path[i] && edges[k].to == path[i + 1];
            assert(edges[k].from == path[i]);
        }
        assert(reach::is_path(edges, path) && path[0] == to && path.last() == from);
        assert(reach::reaches(edges, to, from));
    }
    if reach::reaches(edges, to, from) {
        let p = choose|p: Seq<NodeId>| #[trigger]
            reach::is_path(edges, p) && p[0] == to && p.last() == from;
        assert forall|i: int| 0 <= i < p.len() - 1 implies exists|k: int|
            #![trigger edges[k]]
            0 <= k < edges.len() && edges[k].from == #[trigger] p[i] && edges[k].to == p[i + 1] by {
            assert(linked(edges, p[i], p[i + 1]));
        }
        assert(leads(edges, p, to, from));
    }
    if r is Ok {
        let added = EdgeModel { from, to, input: name@, element };
        assert(final(graph).edge_models().to_set().contains(e) <==> edges.to_set().insert(
            added,
        ).contains(e));
    }
}

/// Removing an edge takes that edge out and leaves every other.
pub proof fn law_disconnecting_removes_one_edge(
    graph: &mut Graph,
    from: NodeId,
    to: NodeId,
    name: &str,
    element: i32,
    e: EdgeModel,
)
    requires
        old(graph).wf(),
        call_ensures(Graph::disconnect, (graph, from, to, name, element), ()),
    ensures
        final(graph).entries() == old(graph).entries(),
        final(graph).edge_models().contains(e) <==> old(graph).edge_models().contains(e) && !(e.from
            == from && e.to == to && e.input == name@ && e.element == element),
{
    let removed = EdgeModel { from, to, input: name@, element };
    assert(final(graph).edge_models().to_set().contains(e) <==> old(graph).edge_models().to_set().remove(removed).contains(e));
}

/// An outgoing connection is an edge.
proof fn lemma_outgoing_is_edge(edges: Seq<EdgeModel>, node: NodeId, c: Connection)
    ensures
        outgoing(edges, node).contains(c) <==> edges.contains(
            (EdgeModel { from: node, to: c.0, input: c.1, element: c.2 }),
        ),
    decreases edges.len(),
{
    let e = EdgeModel { from: node, to: c.0, input: c.1, element: c.2 };
    if edges.len() > 0 {
        let fewer = edges.drop_last();
        let rest = outgoing(fewer, node);
        let all = outgoing(edges, node);
        lemma_outgoing_is_edge(fewer, node, c);
        if edges.contains(e) {
            let i = choose|i: int| 0 <= i < edges.len() && edges[i] == e;
            if i < fewer.len() {
                assert(fewer[i] == e);
                let k = choose|k: int| 0 <= k < rest.len() && rest[k] == c;
                assert(all[k] == c);
            } else {
                assert(all.last() == c);
            }
        }
        if all.contains(c) {
            let k = choose|k: int| 0 <= k < all.len() && all[k] == c;
            if k < rest.len() {
                assert(rest[k] == c);
                let i = choose|i: int| 0 <= i < fewer.len() && fewer[i] == e;
                assert(edges[i] == e);
            } else {
                assert(edges[edges.len() - 1] == e);
            }
        }
    }
}

/// The connections of a node are the edges at it: those that end there for
/// the inputs, and those that start there for the outputs, each with the
/// node at its other end. The nodes before and behind it are those ends.
pub proof fn law_connections_are_the_edges_at_a_node(
    graph: &Graph,
    node: NodeId,
    inputs: Vec<(NodeId, String, i32)>,
    outputs: Vec<(NodeId, String, i32)>,
    before: Vec<NodeId>,
    behind: Vec<NodeId>,
    c: Connection,
    k: int,
)
    requires
        call_ensures(Graph::input_connections, (graph, node), inputs),
        call_ensures(Graph::output_connections, (graph, node), outputs),
        call_ensures(Graph::upstream, (graph, node), before),
        call_ensures(Graph::downstream, (graph, node), behind),
    ensures
        connection_models(inputs@).contains(c) <==> graph.edge_models().contains(
            (EdgeModel { from: c.0, to: node, input: c.1, element: c.2 }),
        ),
        connection_models(outputs@).contains(c) <==> graph.edge_models().contains(
            (EdgeModel { from: node, to: c.0, input: c.1, element: c.2 }),
        ),
        before@.len() == inputs@.len(),
        0 <= k < inputs@.len() ==> before@[k] == inputs@[k].0,
        behind@.len() == outputs@.len(),
        0 <= k < outputs@.len() ==> behind@[k] == outputs@[k].0,
{
    lemma_connection_is_edge(graph.edge_models(), node, c);
    lemma_outgoing_is_edge(graph.edge_models(), node, c);
    let (first, second) = (connection_models(inputs@), connection_models(outputs@));
    assert(first.len() == inputs@.len() && second.len() == outputs@.len());
    if 0 <= k < inputs@.len() {
        assert(first[k].0 == inputs@[k].0);
    }
    if 0 <= k < outputs@.len() {
        assert(second[k].0 == outputs@[k].0);
    }
}

/// Where a connection stands among the edges.
proof fn lemma_incoming_place(edges: Seq<EdgeModel>, node: NodeId, i: int, j: int) -> (r: (
    int,
    int,
))
    requires
        0 <= i < j < incoming(edges, node).len(),
    ensures
        0 <= r.0 < r.1 < edges.len(),
        edges[r.0].to == node,
        edges[r.1].to == node,
        incoming(edges, node)[i] == (edges[r.0].from, edges[r.0].input, edges[r.0].element),
        incoming(edges, node)[j] == (edges[r.1].from, edges[r.1].input, edges[r.1].element),
    decreases edges.len(),
{
    let fewer = edges.drop_last();
    let rest = incoming(fewer, node);
    if j < rest.len() {
        let r = lemma_incoming_place(fewer, node, i, j);
        assert(fewer[r.0] == edges[r.0] && fewer[r.1] == edges[r.1]);
        r
    } else {
        let a = lemma_incoming_at(fewer, node, i);
        assert(fewer[a] == edges[a]);
        (a, edges.len() - 1)
    }
}

proof fn lemma_incoming_at(edges: Seq<EdgeModel>, node: NodeId, i: int) -> (r: int)
    requires
        0 <= i < incoming(edges, node).len(),
    ensures
        0 <= r < edges.len(),
        edges[r].to == node,
        incoming(edges, node)[i] == (edges[r].from, edges[r].input, edges[r].element),
    decreases edges.len(),
{
    let fewer = edges.drop_last();
    if i < incoming(fewer, node).len() {
        let r = lemma_incoming_at(fewer, node, i);
        assert(fewer[r] == edges[r]);
        r
    } else {
        edges.len() - 1
    }
}

/// The connections into a node come by the number of the source, then by
/// the name of the input, then by the element.
pub proof fn law_connections_come_in_order(
    graph: &Graph,
    node: NodeId,
    r: Vec<(NodeId, String, i32)>,
    i: int,
    j: int,
)
    requires
        graph.wf(),
        call_ensures(Graph::input_connections, (graph, node), r),
        0 <= i < j < r@.len(),
    ensures
        r@[i].0.0 <= r@[j].0.0,
        r@[i].0 == r@[j].0 ==> r@[i].1@ == r@[j].1@ || text::text_less(r@[i].1@, r@[j].1@),
        r@[i].0 == r@[j].0 && r@[i].1@ == r@[j].1@ ==> r@[i].2 < r@[j].2,
{
    let list = connection_models(r@);
    assert(list[i] == (r@[i].0, r@[i].1@, r@[i].2));
    assert(list[j] == (r@[j].0, r@[j].1@, r@[j].2));
    let (a, b) = lemma_incoming_place(graph.edge_models(), node, i, j);
    assert(edge_less(graph.edge_models()[a], graph.edge_models()[b]));
    text::lemma_text_less_irreflexive(r@[i].1@);
}

/// Whether `id` is the first node of a type.
pub open spec fn is_first_of_type(entries: Seq<NodeEntry>, type_id: Seq<char>, id: NodeId) -> bool {
    &&& id.0 < entries.len()
    &&& entries[id.0 as int].type_id@ == type_id
    &&& forall|k: int| 0 <= k < id.0 ==> (#[trigger] entries[k]).type_id@ != type_id
}

proof fn lemma_first_of_type(entries: Seq<NodeEntry>, type_id: Seq<char>, from: int)
    requires
        0 <= from <= entries.len(),
        entries.len() <= u64::MAX,
        forall|k: int| 0 <= k < from ==> (#[trigger] entries[k]).type_id@ != type_id,
    ensures
        match first_of_type(entries, type_id, from) {
            Some(id) => is_first_of_type(entries, type_id, id),
            None => forall|k: int|
                0 <= k < entries.len() ==> (#[trigger] entries[k]).type_id@ != type_id,
        },
    decreases entries.len() - from,
{
    if from < entries.len() && entries[from].type_id@ != type_id {
        lemma_first_of_type(entries, type_id, from + 1);
    }
}

/// The endpoints of a graph are its first input endpoint and its first
/// output endpoint, and a graph that lacks one of them has none.
pub proof fn law_endpoints_are_the_first_of_their_types(
    graph: &Graph,
    r: Option<(NodeId, NodeId)>,
)
    requires
        call_ensures(Graph::endpoints, (graph,), r),
        graph.entries().len() <= u64::MAX,
    ensures
        r matches Some(pair) ==> is_first_of_type(
            graph.entries(),
            "org.olivevideoeditor.Olive.graphinput"@,
            pair.0,
        ) && is_first_of_type(
            graph.entries(),
            "org.olivevideoeditor.Olive.graphoutput"@,
            pair.1,
        ),
        r is None ==> (forall|k: int|
            0 <= k < graph.entries().len() ==> (#[trigger] graph.entries()[k]).type_id@
                != "org.olivevideoeditor.Olive.graphinput"@) || (forall|k: int|
            0 <= k < graph.entries().len() ==> (#[trigger] graph.entries()[k]).type_id@
                != "org.olivevideoeditor.Olive.graphoutput"@),
{
    lemma_first_of_type(graph.entries(), "org.olivevideoeditor.Olive.graphinput"@, 0);
    lemma_first_of_type(graph.entries(), "org.olivevideoeditor.Olive.graphoutput"@, 0);
}

/// Endpoints that were missing are wired: an edge leads from the input
/// endpoint to the texture input of the output endpoint. Every node and
/// every edge that was there stays.
pub proof fn law_missing_endpoints_are_wired(
    graph: &mut Graph,
    r: (NodeId, NodeId),
    e: EdgeModel,
    k: int,
)
    requires
        old(graph).wf(),
        call_ensures(Graph::ensure_endpoints, (graph,), r),
        old(graph).spec_endpoints() is None,
    ensures
        final(graph).edge_models().contains(e) <==> old(graph).edge_models().contains(e) || (e.from
            == r.0 && e.to == r.1 && e.input == "tex_in"@ && e.element == -1),
        0 <= k < old(graph).entries().len() ==> final(graph).entries()[k] == old(graph).entries()[k],
        final(graph).entries().len() <= old(graph).entries().len() + 2,
{
    let added = EdgeModel { from: r.0, to: r.1, input: "tex_in"@, element: -1i32 };
    assert(final(graph).edge_models().to_set().contains(e) <==> old(graph).edge_models().to_set().insert(added).contains(e));
    if 0 <= k < old(graph).entries().len() {
        assert(final(graph).entries().subrange(0, old(graph).entries().len() as int)[k] == final(graph).entries()[k]);
    }
}

} // verus!
