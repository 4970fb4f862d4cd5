//! Reachability along the edges of a graph.

use vstd::prelude::*;

use crate::graph;
use crate::graph::{EdgeModel, Graph};
use crate::id::NodeId;

verus! {

/// A set of nodes of one graph.
pub struct NodeSet {
    flags: Vec<bool>,
}

/// The number of flags that are not set.
pub open spec fn unset(flags: Seq<bool>) -> nat
    decreases flags.len(),
{
    if flags.len() == 0 {
        0
    } else {
        unset(flags.drop_last()) + (if flags.last() {
            0nat
        } else {
            1nat
        })
    }
}

/// Setting a flag leaves one fewer unset.
proof fn lemma_unset_update(flags: Seq<bool>, i: int)
    requires
        0 <= i < flags.len(),
        !flags[i],
    ensures
        unset(flags.update(i, true)) + 1 == unset(flags),
    decreases flags.len(),
{
    let changed = flags.update(i, true);
    if i == flags.len() - 1 {
        assert(changed.drop_last() =~= flags.drop_last());
    } else {
        assert(changed.drop_last() =~= flags.drop_last().update(i, true));
        lemma_unset_update(flags.drop_last(), i);
    }
}

impl NodeSet {
    /// The members.
    pub closed spec fn view(&self) -> Set<NodeId> {
        Set::new(|n: NodeId| n.0 < self.flags@.len() && self.flags@[n.0 as int])
    }

    /// The ids that can be members are those below this number.
    pub closed spec fn capacity(&self) -> nat {
        self.flags@.len()
    }

    /// The number of ids that could still become members.
    pub closed spec fn room(&self) -> nat {
        unset(self.flags@)
    }

    /// An empty set over the ids below `count`.
    pub fn new(count: usize) -> (r: NodeSet)
        ensures
            r@ == Set::<NodeId>::empty(),
            r.capacity() == count,
    {
        let mut flags: Vec<bool> = Vec::new();
        let mut i: usize = 0;
        while i < count
            invariant
                i <= count,
                flags@.len() == i,
                forall|j: int| 0 <= j < i ==> !flags@[j],
            decreases count - i,
        {
            flags.push(false);
            i = i + 1;
        }
        let r = NodeSet { flags };
        assert(r@ =~= Set::<NodeId>::empty());
        r
    }

    /// Whether `id` is a member.
    pub fn contains(&self, id: NodeId) -> (r: bool)
        ensures
            r == self@.contains(id),
    {
        let count: usize = self.flags.len();
        if id.0 < count as u64 {
            self.flags[id.0 as usize]
        } else {
            false
        }
    }

    /// Make `id` a member; whether it was none before.
    pub fn insert(&mut self, id: NodeId) -> (r: bool)
        requires
            id.0 < old(self).capacity(),
        ensures
            r == !old(self)@.contains(id),
            final(self)@ == old(self)@.insert(id),
            final(self).capacity() == old(self).capacity(),
            r ==> final(self).room() + 1 == old(self).room(),
            !r ==> final(self).room() == old(self).room(),
    {
        let count: usize = self.flags.len();
        let index: usize = id.0 as usize;
        if self.flags[index] {
            assert(self@ =~= old(self)@.insert(id));
            false
        } else {
            proof {
                lemma_unset_update(self.flags@, index as int);
            }
            self.flags.set(index, true);
            assert(self@ =~= old(self)@.insert(id));
            true
        }
    }
}

/// Consecutive nodes of `path` are linked.
pub open spec fn is_path(edges: Seq<EdgeModel>, path: Seq<NodeId>) -> bool {
    &&& path.len() > 0
    &&& forall|i: int|
        0 <= i < path.len() - 1 ==> graph::linked(edges, #[trigger] path[i], path[i + 1])
}

/// Some path leads from `a` to `b`; every node reaches itself.
pub open spec fn reaches(edges: Seq<EdgeModel>, a: NodeId, b: NodeId) -> bool {
    exists|path: Seq<NodeId>| #[trigger]
        is_path(edges, path) && path[0] == a && path.last() == b
}

/// Every node reaches itself.
pub proof fn lemma_reaches_itself(edges: Seq<EdgeModel>, a: NodeId)
    ensures
        reaches(edges, a, a),
{
    let path = seq![a];
    assert(is_path(edges, path));
}

/// A path can be extended by an edge at its end.
pub proof fn lemma_reaches_step(edges: Seq<EdgeModel>, a: NodeId, b: NodeId, c: NodeId)
    requires
        reaches(edges, a, b),
        graph::linked(edges, b, c),
    ensures
        reaches(edges, a, c),
{
    let path = choose|path: Seq<NodeId>| #[trigger]
        is_path(edges, path) && path[0] == a && path.last() == b;
    let longer = path.push(c);
    assert forall|i: int| 0 <= i < longer.len() - 1 implies graph::linked(
        edges,
        #[trigger] longer[i],
        longer[i + 1],
    ) by {
        if i < path.len() - 1 {
            assert(graph::linked(edges, path[i], path[i + 1]));
        }
    }
    assert(is_path(edges, longer));
}

/// A path can be extended by an edge at its start.
pub proof fn lemma_reaches_prefix(edges: Seq<EdgeModel>, a: NodeId, b: NodeId, c: NodeId)
    requires
        graph::linked(edges, a, b),
        reaches(edges, b, c),
    ensures
        reaches(edges, a, c),
{
    let path = choose|path: Seq<NodeId>| #[trigger]
        is_path(edges, path) && path[0] == b && path.last() == c;
    let longer = seq![a] + path;
    assert forall|i: int| 0 <= i < longer.len() - 1 implies graph::linked(
        edges,
        #[trigger] longer[i],
        longer[i + 1],
    ) by {
        if i > 0 {
            assert(graph::linked(edges, path[i - 1], path[i]));
        }
    }
    assert(is_path(edges, longer));
    assert(longer.last() == c);
}

/// Two paths can be joined.
pub proof fn lemma_reaches_transitive(edges: Seq<EdgeModel>, a: NodeId, b: NodeId, c: NodeId)
    requires
        reaches(edges, a, b),
        reaches(edges, b, c),
    ensures
        reaches(edges, a, c),
{
    let path = choose|path: Seq<NodeId>| #[trigger]
        is_path(edges, path) && path[0] == b && path.last() == c;
    lemma_reaches_along(edges, a, path, path.len() - 1);
}

proof fn lemma_reaches_along(edges: Seq<EdgeModel>, a: NodeId, path: Seq<NodeId>, upto: int)
    requires
        is_path(edges, path),
        0 <= upto < path.len(),
        reaches(edges, a, path[0]),
    ensures
        reaches(edges, a, path[upto]),
    decreases upto,
{
    if upto > 0 {
        lemma_reaches_along(edges, a, path, upto - 1);
        lemma_reaches_step(edges, a, path[upto - 1], path[upto]);
    }
}

/// `n` can be reached from `root` by walking against or along the edges.
pub open spec fn walkable(
    edges: Seq<EdgeModel>,
    root: NodeId,
    n: NodeId,
    upstream: bool,
) -> bool {
    if upstream {
        reaches(edges, n, root)
    } else {
        reaches(edges, root, n)
    }
}

/// The sources of the incoming edges are the nodes linked to `node`.
pub proof fn lemma_incoming_linked(edges: Seq<EdgeModel>, node: NodeId, m: NodeId)
    ensures
        graph::ends(graph::incoming(edges, node)).contains(m) <==> graph::linked(edges, m, node),
    decreases edges.len(),
{
    if edges.len() > 0 {
        let shorter = edges.drop_last();
        let last = edges.last();
        lemma_incoming_linked(shorter, node, m);
        let rest = graph::incoming(shorter, node);
        let all = graph::incoming(edges, node);
        if graph::linked(shorter, m, node) {
            let i = choose|i: int|
                0 <= i < shorter.len() && (#[trigger] shorter[i]).from == m && shorter[i].to
                    == node;
            assert(edges[i].from == m && edges[i].to == node);
            let k = choose|k: int| 0 <= k < graph::ends(rest).len() && graph::ends(rest)[k] == m;
            assert(graph::ends(all)[k] == m);
        }
        if graph::linked(edges, m, node) {
            let i = choose|i: int|
                0 <= i < edges.len() && (#[trigger] edges[i]).from == m && edges[i].to == node;
            if i < shorter.len() {
                assert(shorter[i].from == m);
            } else {
                assert(graph::ends(all)[rest.len() as int] == m);
            }
        }
        if graph::ends(all).contains(m) {
            let k = choose|k: int| 0 <= k < graph::ends(all).len() && graph::ends(all)[k] == m;
            if k < rest.len() {
                assert(graph::ends(rest)[k] == m);
            } else {
                assert(edges[edges.len() - 1].from == m);
            }
        }
    }
}

/// The targets of the outgoing edges are the nodes `node` is linked to.
pub proof fn lemma_outgoing_linked(edges: Seq<EdgeModel>, node: NodeId, m: NodeId)
    ensures
        graph::ends(graph::outgoing(edges, node)).contains(m) <==> graph::linked(edges, node, m),
    decreases edges.len(),
{
    if edges.len() > 0 {
        let shorter = edges.drop_last();
        let last = edges.last();
        lemma_outgoing_linked(shorter, node, m);
        let rest = graph::outgoing(shorter, node);
        let all = graph::outgoing(edges, node);
        if graph::linked(shorter, node, m) {
            let i = choose|i: int|
                0 <= i < shorter.len() && (#[trigger] shorter[i]).from == node && shorter[i].to
                    == m;
            assert(edges[i].from == node && edges[i].to == m);
            let k = choose|k: int| 0 <= k < graph::ends(rest).len() && graph::ends(rest)[k] == m;
            assert(graph::ends(all)[k] == m);
        }
        if graph::linked(edges, node, m) {
            let i = choose|i: int|
                0 <= i < edges.len() && (#[trigger] edges[i]).from == node && edges[i].to == m;
            if i < shorter.len() {
                assert(shorter[i].from == node);
            } else {
                assert(graph::ends(all)[rest.len() as int] == m);
            }
        }
        if graph::ends(all).contains(m) {
            let k = choose|k: int| 0 <= k < graph::ends(all).len() && graph::ends(all)[k] == m;
            if k < rest.len() {
                assert(graph::ends(rest)[k] == m);
            } else {
                assert(edges[edges.len() - 1].from == node);
            }
        }
    }
}

/// A set that holds `root` and every node next to its members holds every
/// node walkable from `root`.
proof fn lemma_closed_covers(
    edges: Seq<EdgeModel>,
    root: NodeId,
    n: NodeId,
    upstream: bool,
    set: Set<NodeId>,
)
    requires
        set.contains(root),
        forall|a: NodeId, b: NodeId|
            #![trigger graph::linked(edges, a, b)]
            graph::linked(edges, a, b) ==> if upstream {
                set.contains(b) ==> set.contains(a)
            } else {
                set.contains(a) ==> set.contains(b)
            },
        walkable(edges, root, n, upstream),
    ensures
        set.contains(n),
{
    if upstream {
        let path = choose|path: Seq<NodeId>| #[trigger]
            is_path(edges, path) && path[0] == n && path.last() == root;
        lemma_closed_path(edges, path, 0, true, set);
    } else {
        let path = choose|path: Seq<NodeId>| #[trigger]
            is_path(edges, path) && path[0] == root && path.last() == n;
        lemma_closed_path(edges, path, path.len() - 1, false, set);
    }
}

/// A set that holds `root` and whatever its members feed holds every node
/// that `root` reaches.
pub proof fn lemma_closed_forward(
    edges: Seq<EdgeModel>,
    root: NodeId,
    n: NodeId,
    set: Set<NodeId>,
)
    requires
        set.contains(root),
        forall|a: NodeId, b: NodeId|
            #![trigger graph::linked(edges, a, b)]
            graph::linked(edges, a, b) && set.contains(a) ==> set.contains(b),
        reaches(edges, root, n),
    ensures
        set.contains(n),
{
    lemma_closed_covers(edges, root, n, false, set);
}

proof fn lemma_closed_path(
    edges: Seq<EdgeModel>,
    path: Seq<NodeId>,
    at: int,
    upstream: bool,
    set: Set<NodeId>,
)
    requires
        is_path(edges, path),
        0 <= at < path.len(),
        upstream ==> set.contains(path.last()),
        !upstream ==> set.contains(path[0]),
        forall|a: NodeId, b: NodeId|
            #![trigger graph::linked(edges, a, b)]
            graph::linked(edges, a, b) ==> if upstream {
                set.contains(b) ==> set.contains(a)
            } else {
                set.contains(a) ==> set.contains(b)
            },
    ensures
        set.contains(path[at]),
    decreases
            if upstream {
                path.len() - at
            } else {
                at
            },
{
    if upstream {
        if at < path.len() - 1 {
            lemma_closed_path(edges, path, at + 1, upstream, set);
            assert(graph::linked(edges, path[at], path[at + 1]));
        }
    } else {
        if at > 0 {
            lemma_closed_path(edges, path, at - 1, upstream, set);
            assert(graph::linked(edges, path[at - 1], path[at]));
        }
    }
}

/// Every node walkable from `root`, `root` among them.
pub fn reachable(graph: &Graph, root: NodeId, upstream: bool) -> (r: NodeSet)
    requires
        graph.wf(),
        graph.has(root),
    ensures
        r.capacity() == graph.entries().len(),
        forall|n: NodeId| #[trigger]
            r@.contains(n) <==> walkable(graph.edge_models(), root, n, upstream),
{
    let ghost edges = graph.edge_models();
    let mut seen: NodeSet = NodeSet::new(graph.node_count());
    let mut stack: Vec<NodeId> = Vec::new();
    stack.push(root);
    proof {
        lemma_reaches_itself(edges, root);
        assert(stack@[0] == root);
    }
    while stack.len() > 0
        invariant
            graph.wf(),
            edges == graph.edge_models(),
            seen.capacity() == graph.entries().len(),
            seen@.contains(root) || stack@.contains(root),
            forall|k: int|
                0 <= k < stack@.len() ==> graph.has(#[trigger] stack@[k]) && walkable(
                    edges,
                    root,
                    stack@[k],
                    upstream,
                ),
            forall|n: NodeId| #[trigger] seen@.contains(n) ==> walkable(edges, root, n, upstream),
            forall|a: NodeId, b: NodeId|
                #![trigger graph::linked(edges, a, b)]
                graph::linked(edges, a, b) ==> if upstream {
                    seen@.contains(b) ==> seen@.contains(a) || stack@.contains(a)
                } else {
                    seen@.contains(a) ==> seen@.contains(b) || stack@.contains(b)
                },
        decreases seen.room(), stack.len(),
    {
        let ghost before = stack@;
        let ghost seen_before = seen@;
        let node: NodeId = stack.pop().unwrap();
        assert(node == before[before.len() - 1]);
        assert(stack@ == before.drop_last());
        assert forall|m: NodeId| before.contains(m) implies m == node || stack@.contains(m) by {
            let k = choose|k: int| 0 <= k < before.len() && before[k] == m;
            if k < before.len() - 1 {
                assert(stack@[k] == m);
            }
        }
        if !seen.insert(node) {
            assert(seen@ =~= seen_before);
            continue ;
        }
        let mut next: Vec<NodeId> = if upstream {
            graph.upstream(node)
        } else {
            graph.downstream(node)
        };
        let ghost added = next@;
        let ghost kept = stack@;
        proof {
            assert forall|m: NodeId| added.contains(m) implies graph.has(m) && walkable(
                edges,
                root,
                m,
                upstream,
            ) by {
                if upstream {
                    lemma_incoming_linked(edges, node, m);
                    lemma_reaches_prefix(edges, m, node, root);
                } else {
                    lemma_outgoing_linked(edges, node, m);
                    lemma_reaches_step(edges, root, node, m);
                }
            }
        }
        stack.append(&mut next);
        proof {
            assert forall|k: int| 0 <= k < stack@.len() implies graph.has(#[trigger] stack@[k])
                && walkable(edges, root, stack@[k], upstream) by {
                if k >= kept.len() {
                    assert(added.contains(added[k - kept.len()]));
                } else {
                    assert(stack@[k] == kept[k]);
                }
            }
            assert forall|m: NodeId| kept.contains(m) || added.contains(m) implies stack@.contains(
                m,
            ) by {
                if kept.contains(m) {
                    let k = choose|k: int| 0 <= k < kept.len() && kept[k] == m;
                    assert(stack@[k] == m);
                } else {
                    let k = choose|k: int| 0 <= k < added.len() && added[k] == m;
                    assert(stack@[kept.len() + k] == m);
                }
            }
            assert forall|a: NodeId, b: NodeId|
                #![trigger graph::linked(edges, a, b)]
                graph::linked(edges, a, b) implies if upstream {
                seen@.contains(b) ==> seen@.contains(a) || stack@.contains(a)
            } else {
                seen@.contains(a) ==> seen@.contains(b) || stack@.contains(b)
            } by {
                lemma_incoming_linked(edges, b, a);
                lemma_outgoing_linked(edges, a, b);
            }
        }
    }
    proof {
        assert forall|n: NodeId| walkable(edges, root, n, upstream) implies #[trigger]
            seen@.contains(n) by {
            lemma_closed_covers(edges, root, n, upstream, seen@);
        }
    }
    seen
}

/// No edge leads back to where a path from its end can come from.
pub open spec fn acyclic(edges: Seq<EdgeModel>) -> bool {
    forall|i: int|
        0 <= i < edges.len() ==> !reaches(edges, (#[trigger] edges[i]).to, edges[i].from)
}

/// An edge of a graph that has one more edge is the new one or an old
/// one.
proof fn lemma_new_link(
    before: Seq<EdgeModel>,
    after: Seq<EdgeModel>,
    added: EdgeModel,
    a: NodeId,
    b: NodeId,
)
    requires
        after.to_set() == before.to_set().insert(added),
        graph::linked(after, a, b),
    ensures
        graph::linked(before, a, b) || (a == added.from && b == added.to),
{
    let i = choose|i: int|
        0 <= i < after.len() && (#[trigger] after[i]).from == a && after[i].to == b;
    let e = after[i];
    assert(after.to_set().contains(e));
    if e != added {
        assert(before.to_set().contains(e));
        let j = choose|j: int| 0 <= j < before.len() && before[j] == e;
        assert(before[j].from == a && before[j].to == b);
    }
}

/// A path of a graph that has one more edge is an old path, or leads over
/// the new edge: from its start to the edge, and from the edge to its
/// end.
proof fn lemma_new_path(
    before: Seq<EdgeModel>,
    after: Seq<EdgeModel>,
    added: EdgeModel,
    path: Seq<NodeId>,
)
    requires
        after.to_set() == before.to_set().insert(added),
        is_path(after, path),
    ensures
        reaches(before, path[0], path.last()) || (reaches(before, path[0], added.from) && reaches(
            before,
            added.to,
            path.last(),
        )),
    decreases path.len(),
{
    if path.len() == 1 {
        lemma_reaches_itself(before, path[0]);
    } else {
        let shorter = path.drop_last();
        let mid = shorter.last();
        let end = path.last();
        assert forall|i: int| 0 <= i < shorter.len() - 1 implies graph::linked(
            after,
            #[trigger] shorter[i],
            shorter[i + 1],
        ) by {
            assert(graph::linked(after, path[i], path[i + 1]));
        }
        lemma_new_path(before, after, added, shorter);
        assert(graph::linked(after, path[path.len() - 2], path[path.len() - 2 + 1]));
        lemma_new_link(before, after, added, mid, end);
        if mid == added.from && end == added.to {
            lemma_reaches_itself(before, added.to);
        }
        if graph::linked(before, mid, end) {
            if reaches(before, path[0], mid) {
                lemma_reaches_step(before, path[0], mid, end);
            } else {
                lemma_reaches_step(before, added.to, mid, end);
            }
        }
    }
}

/// An edge added to a graph without cycles makes no cycle unless its end
/// reaches its start, which is what [`Graph::connect`] refuses.
pub proof fn law_connecting_makes_no_cycle(
    before: Seq<EdgeModel>,
    after: Seq<EdgeModel>,
    added: EdgeModel,
)
    requires
        acyclic(before),
        after.to_set() == before.to_set().insert(added),
        !reaches(before, added.to, added.from),
    ensures
        acyclic(after),
{
    assert forall|i: int| 0 <= i < after.len() implies !reaches(
        after,
        (#[trigger] after[i]).to,
        after[i].from,
    ) by {
        let e = after[i];
        if reaches(after, e.to, e.from) {
            let path = choose|path: Seq<NodeId>| #[trigger]
                is_path(after, path) && path[0] == e.to && path.last() == e.from;
            lemma_new_path(before, after, added, path);
            assert(after.to_set().contains(e));
            if e == added {
                if reaches(before, e.to, added.from) {
                } else {
                    assert(reaches(before, e.to, e.from));
                }
            } else {
                assert(before.to_set().contains(e));
                let j = choose|j: int| 0 <= j < before.len() && before[j] == e;
                assert(!reaches(before, before[j].to, before[j].from));
                assert(reaches(before, e.to, added.from) && reaches(before, added.to, e.from));
                assert(graph::linked(before, e.from, e.to));
                lemma_reaches_step(before, added.to, e.from, e.to);
                lemma_reaches_transitive(before, added.to, e.to, added.from);
            }
        }
    }
}

} // verus!
