//! The depth-first walk that evaluates a node and everything upstream of
//! it, on an explicit stack so that deep chains do not exhaust the call
//! stack.

use vstd::prelude::*;

use crate::calls;
use crate::calls::HookCall;
use crate::error::Error;
use crate::graph;
use crate::graph::{Connection, Graph, NodeEntry};
use crate::id::NodeId;
use crate::memo;
use crate::memo::{Key, Memo, Step};
use crate::pass;
use crate::rational::Rational;
use crate::rows;
use crate::value::{NodeValueRow, NodeValueTable, TableEntry, ValueModel};

verus! {

/// Backend hooks supplied by the renderer.
pub trait RenderHooks {
    /// The calls made on the hooks so far.
    open spec fn calls(&self) -> Seq<HookCall> {
        arbitrary()
    }

    /// Whether an evaluation is never stopped. Hooks that say nothing may
    /// stop it.
    open spec fn steady(&self) -> bool {
        false
    }

    /// Whether the hooks may turn the output `emitted` of a node into
    /// `left`. Hooks that say nothing may do anything.
    open spec fn changes(
        node: NodeId,
        row: Map<Seq<char>, ValueModel>,
        emitted: Seq<TableEntry>,
        left: Seq<TableEntry>,
    ) -> bool {
        true
    }

    /// Whether cached textures may be used.
    fn use_cache(&self) -> (r: bool)
        default_ensures
            !r,
    {
        false
    }

    /// Turn a node's finished output into a backend job or texture.
    fn resolve(&mut self, node: NodeId, row: &NodeValueRow, table: &mut NodeValueTable)
        ensures
            Self::changes(node, row@, old(table)@, final(table)@),
            final(self).calls() == old(self).calls().push(
                (HookCall::Resolve {
                    node,
                    row: row@,
                    emitted: old(table)@,
                    left: final(table)@,
                }),
            ),
            old(self).steady() ==> final(self).steady(),
    ;

    /// Asked between nodes: whether the evaluation is to stop.
    fn is_cancelled(&mut self) -> (r: bool)
        ensures
            final(self).calls() == old(self).calls().push(HookCall::Poll(r)),
            old(self).steady() ==> !r && final(self).steady(),
    ;
}

/// The hooks of an offline evaluation: nothing is rendered and nothing is
/// cancelled.
pub struct Offline {
    made: Ghost<Seq<HookCall>>,
}

impl Offline {
    /// Hooks that were not called yet.
    pub fn new() -> (r: Offline)
        ensures
            r.calls() == Seq::<HookCall>::empty(),
    {
        Offline { made: Ghost(Seq::empty()) }
    }
}

impl RenderHooks for Offline {
    closed spec fn calls(&self) -> Seq<HookCall> {
        self.made@
    }

    open spec fn steady(&self) -> bool {
        true
    }

    open spec fn changes(
        node: NodeId,
        row: Map<Seq<char>, ValueModel>,
        emitted: Seq<TableEntry>,
        left: Seq<TableEntry>,
    ) -> bool {
        left == emitted
    }

    fn resolve(&mut self, node: NodeId, row: &NodeValueRow, table: &mut NodeValueTable) {
        proof {
            self.made@ = self.made@.push(
                HookCall::Resolve { node, row: row@, emitted: table@, left: table@ },
            );
        }
    }

    fn is_cancelled(&mut self) -> (r: bool) {
        proof {
            self.made@ = self.made@.push(HookCall::Poll(false));
        }
        false
    }
}

/// Whether every step's table is what the hooks may have left of its
/// output.
pub open spec fn resolved_by<H: RenderHooks>(steps: Seq<Step>) -> bool {
    forall|i: int|
        0 <= i < steps.len() ==> H::changes(
            (#[trigger] steps[i]).node,
            steps[i].row,
            steps[i].emitted,
            steps[i].table,
        )
}

/// One more step that the hooks resolved.
proof fn lemma_resolved_step<H: RenderHooks>(steps: Seq<Step>, longer: Seq<Step>)
    requires
        resolved_by::<H>(steps),
        longer.len() == steps.len() + 1,
        longer.drop_last() == steps,
        H::changes(
            longer.last().node,
            longer.last().row,
            longer.last().emitted,
            longer.last().table,
        ),
    ensures
        resolved_by::<H>(longer),
{
    assert forall|i: int| 0 <= i < longer.len() implies H::changes(
        (#[trigger] longer[i]).node,
        longer[i].row,
        longer[i].emitted,
        longer[i].table,
    ) by {
        if i < steps.len() {
            assert(longer.drop_last()[i] == longer[i]);
            assert(steps[i] == longer[i]);
        }
    }
}

/// A frame of the walk: on the way in, a node's upstreams are queued; on
/// the way out, the node is evaluated.
#[derive(Clone, Copy)]
enum Frame {
    Enter(NodeId, Rational),
    Exit(NodeId, Rational),
}

/// The key a frame is about.
spec fn frame_key(frame: Frame) -> Key {
    match frame {
        Frame::Enter(node, time) => (node, time),
        Frame::Exit(node, time) => (node, time),
    }
}

/// A set of keys.
struct KeySet {
    slots: Vec<Vec<Rational>>,
}

impl KeySet {
    spec fn view(&self) -> Set<Key> {
        Set::new(
            |k: Key| k.0.0 < self.slots@.len() && self.slots@[k.0.0 as int]@.contains(k.1),
        )
    }

    spec fn capacity(&self) -> nat {
        self.slots@.len()
    }

    fn new(count: usize) -> (r: KeySet)
        ensures
            r@ == Set::<Key>::empty(),
            r.capacity() == count,
    {
        let mut slots: Vec<Vec<Rational>> = Vec::new();
        let mut i: usize = 0;
        while i < count
            invariant
                i <= count,
                slots@.len() == i,
                forall|j: int| 0 <= j < i ==> (#[trigger] slots@[j])@.len() == 0,
            decreases count - i,
        {
            slots.push(Vec::new());
            i = i + 1;
        }
        let r = KeySet { slots };
        assert(r@ =~= Set::<Key>::empty());
        r
    }

    fn contains(&self, node: NodeId, time: Rational) -> (r: bool)
        ensures
            r == self@.contains((node, time)),
    {
        let count: usize = self.slots.len();
        if node.0 >= count as u64 {
            return false;
        }
        let slot: &Vec<Rational> = &self.slots[node.0 as usize];
        let mut i: usize = 0;
        while i < slot.len()
            invariant
                i <= slot@.len(),
                node.0 < self.slots@.len(),
                slot@ == self.slots@[node.0 as int]@,
                forall|j: int| 0 <= j < i ==> slot@[j] != time,
            decreases slot@.len() - i,
        {
            if slot[i] == time {
                assert(slot@[i as int] == time);
                return true;
            }
            i = i + 1;
        }
        false
    }

    fn insert(&mut self, node: NodeId, time: Rational)
        requires
            node.0 < old(self).capacity(),
        ensures
            final(self)@ == old(self)@.insert((node, time)),
            final(self).capacity() == old(self).capacity(),
    {
        let count: usize = self.slots.len();
        let index: usize = node.0 as usize;
        let mut slot: Vec<Rational> = Vec::new();
        std::mem::swap(&mut slot, &mut self.slots[index]);
        let ghost before = slot@;
        slot.push(time);
        let ghost after = slot@;
        self.slots.set(index, slot);
        proof {
            assert forall|k: Key| self@.contains(k) <==> old(self)@.insert((node, time)).contains(
                k,
            ) by {
                if k.0 == node {
                    assert(after.contains(k.1) <==> before.contains(k.1) || k.1 == time) by {
                        if before.contains(k.1) {
                            let j = choose|j: int| 0 <= j < before.len() && before[j] == k.1;
                            assert(after[j] == k.1);
                        }
                        assert(after[before.len() as int] == time);
                        if after.contains(k.1) {
                            let j = choose|j: int| 0 <= j < after.len() && after[j] == k.1;
                            if j < before.len() {
                                assert(before[j] == k.1);
                            }
                        }
                    }
                }
            }
            assert(self@ =~= old(self)@.insert((node, time)));
        }
    }
}

/// `d` is evaluated, needs `k`, or is still on the stack above `p`.
spec fn settled(
    graph: &Graph,
    known: Set<Key>,
    stack: Seq<Frame>,
    p: int,
    k: Key,
    d: Key,
) -> bool {
    ||| known.contains(d)
    ||| pass::needs(graph, d, k)
    ||| exists|q: int| p < q < stack.len() && frame_key(#[trigger] stack[q]) == d
}

/// What holds of the stack between two frames: every frame is needed by
/// the root; what a node waiting to be evaluated pulls is settled; a node
/// waiting needs every frame above it; a node entered is evaluated or
/// waits; and so does the root.
spec fn stack_ok(
    graph: &Graph,
    known: Set<Key>,
    entered: Set<Key>,
    stack: Seq<Frame>,
    root: Key,
) -> bool {
    &&& forall|q: int|
        0 <= q < stack.len() ==> pass::needs(graph, root, frame_key(#[trigger] stack[q]))
    &&& forall|p: int|
        0 <= p < stack.len() && (#[trigger] stack[p]) is Exit ==> graph.has(
            frame_key(stack[p]).0,
        ) && !known.contains(frame_key(stack[p]))
    &&& forall|p: int, q: int|
        0 <= p < q < stack.len() && (#[trigger] stack[p]) is Exit ==> pass::needs(
            graph,
            frame_key(stack[p]),
            frame_key(#[trigger] stack[q]),
        )
    &&& forall|p: int, q: int|
        0 <= p < q < stack.len() && (#[trigger] stack[p]) is Exit && (#[trigger] stack[q]) is Exit
            ==> frame_key(stack[p]) != frame_key(stack[q])
    &&& forall|p: int, d: Key|
        0 <= p < stack.len() && (#[trigger] stack[p]) is Exit && #[trigger] pass::depends(
            graph,
            frame_key(stack[p]),
            d,
        ) && graph.has(d.0) ==> settled(graph, known, stack, p, frame_key(stack[p]), d)
    &&& forall|k: Key| #[trigger] entered.contains(k) ==> known.contains(k) || exists|q: int|
        0 <= q < stack.len() && #[trigger] stack[q] == Frame::Exit(k.0, k.1)
    &&& forall|p: int|
        0 <= p < stack.len() && (#[trigger] stack[p]) is Exit ==> entered.contains(
            frame_key(stack[p]),
        )
    &&& graph.has(root.0) ==> known.contains(root) || exists|q: int|
        0 <= q < stack.len() && frame_key(#[trigger] stack[q]) == root
}

/// A frame that asks for a node already evaluated, missing from the
/// graph or waiting further down can be dropped.
proof fn lemma_drop_enter(
    graph: &Graph,
    known: Set<Key>,
    entered: Set<Key>,
    stack: Seq<Frame>,
    root: Key,
)
    requires
        stack.len() > 0,
        stack.last() is Enter,
        stack_ok(graph, known, entered, stack, root),
        known.contains(frame_key(stack.last())) || !graph.has(frame_key(stack.last()).0)
            || entered.contains(frame_key(stack.last())),
    ensures
        stack_ok(graph, known, entered, stack.drop_last(), root),
{
    let shorter = stack.drop_last();
    let top = frame_key(stack.last());
    let last = stack.len() - 1;
    assert forall|k: Key| #[trigger] entered.contains(k) implies known.contains(k) || exists|q: int|
        0 <= q < shorter.len() && #[trigger] shorter[q] == Frame::Exit(k.0, k.1) by {
        if !known.contains(k) {
            let q = choose|q: int|
                0 <= q < stack.len() && #[trigger] stack[q] == Frame::Exit(k.0, k.1);
            assert(shorter[q] == Frame::Exit(k.0, k.1));
        }
    }
    assert forall|p: int, d: Key|
        0 <= p < shorter.len() && (#[trigger] shorter[p]) is Exit && #[trigger] pass::depends(
            graph,
            frame_key(shorter[p]),
            d,
        ) && graph.has(d.0) implies settled(
        graph,
        known,
        shorter,
        p,
        frame_key(shorter[p]),
        d,
    ) by {
        let k = frame_key(stack[p]);
        assert(shorter[p] == stack[p]);
        assert(settled(graph, known, stack, p, k, d));
        if !known.contains(d) && !pass::needs(graph, d, k) {
            let q = choose|q: int| p < q < stack.len() && frame_key(#[trigger] stack[q]) == d;
            if q < last {
                assert(frame_key(shorter[q]) == d);
            } else {
                assert(d == top);
                assert(entered.contains(d));
                let e = choose|e: int|
                    0 <= e < shorter.len() && #[trigger] shorter[e] == Frame::Exit(d.0, d.1);
                assert(stack[e] == Frame::Exit(d.0, d.1));
                if e > p {
                    assert(frame_key(shorter[e]) == d);
                } else if e == p {
                    pass::lemma_needs_itself(graph, d);
                } else {
                    assert(pass::needs(graph, frame_key(stack[e]), frame_key(stack[p])));
                }
            }
        }
    }
    if graph.has(root.0) && !known.contains(root) {
        let q = choose|q: int| 0 <= q < stack.len() && frame_key(#[trigger] stack[q]) == root;
        if q < last {
            assert(frame_key(shorter[q]) == root);
        } else {
            let e = choose|e: int|
                0 <= e < shorter.len() && #[trigger] shorter[e] == Frame::Exit(root.0, root.1);
            assert(frame_key(shorter[e]) == root);
        }
    }
    assert forall|p: int, q: int| 0 <= p < q < shorter.len() && (#[trigger] shorter[p]) is Exit
        implies pass::needs(graph, frame_key(shorter[p]), frame_key(#[trigger] shorter[q])) by {
        assert(pass::needs(graph, frame_key(stack[p]), frame_key(stack[q])));
    }
}

/// Entering a node puts it on the stack to be evaluated, below what it
/// pulls.
proof fn lemma_enter(
    graph: &Graph,
    known: Set<Key>,
    entered: Set<Key>,
    stack: Seq<Frame>,
    queued: Seq<Frame>,
    root: Key,
)
    requires
        stack.len() > 0,
        stack.last() is Enter,
        stack_ok(graph, known, entered, stack, root),
        graph.has(frame_key(stack.last()).0),
        !known.contains(frame_key(stack.last())),
        !entered.contains(frame_key(stack.last())),
        forall|j: int|
            0 <= j < queued.len() ==> (#[trigger] queued[j]) is Enter && pass::depends(
                graph,
                frame_key(stack.last()),
                frame_key(queued[j]),
            ),
        forall|d: Key| #[trigger]
            pass::depends(graph, frame_key(stack.last()), d) ==> known.contains(d)
                || entered.insert(frame_key(stack.last())).contains(d) || exists|j: int|
                0 <= j < queued.len() && frame_key(#[trigger] queued[j]) == d,
    ensures
        stack_ok(
            graph,
            known,
            entered.insert(frame_key(stack.last())),
            stack.drop_last().push(
                Frame::Exit(frame_key(stack.last()).0, frame_key(stack.last()).1),
            ) + queued,
            root,
        ),
{
    let k = frame_key(stack.last());
    let base = stack.drop_last();
    let at = base.len() as int;
    let exit = Frame::Exit(k.0, k.1);
    let after = base.push(exit) + queued;
    let marked = entered.insert(k);
    assert forall|q: int| 0 <= q < after.len() implies pass::needs(
        graph,
        root,
        frame_key(#[trigger] after[q]),
    ) by {
        if q < at {
            assert(after[q] == stack[q]);
        } else {
            assert(pass::needs(graph, root, frame_key(stack[at])));
            if q > at {
                assert(after[q] == queued[q - at - 1]);
                pass::lemma_needs_step(graph, root, k, frame_key(queued[q - at - 1]));
            }
        }
    }
    assert forall|p: int| 0 <= p < after.len() && (#[trigger] after[p]) is Exit implies p <= at by {
        if p > at {
            assert(after[p] == queued[p - at - 1]);
        }
    }
    assert forall|p: int, q: int| 0 <= p < q < after.len() && (#[trigger] after[p]) is Exit
        implies pass::needs(graph, frame_key(after[p]), frame_key(#[trigger] after[q])) by {
        if p < at {
            assert(after[p] == stack[p]);
            if q < at {
                assert(after[q] == stack[q]);
            } else {
                assert(pass::needs(graph, frame_key(stack[p]), frame_key(stack[at])));
                if q > at {
                    assert(after[q] == queued[q - at - 1]);
                    pass::lemma_needs_step(
                        graph,
                        frame_key(stack[p]),
                        k,
                        frame_key(queued[q - at - 1]),
                    );
                }
            }
        } else {
            assert(after[q] == queued[q - at - 1]);
            pass::lemma_needs_itself(graph, k);
            pass::lemma_needs_step(graph, k, k, frame_key(queued[q - at - 1]));
        }
    }
    assert forall|p: int, q: int|
        0 <= p < q < after.len() && (#[trigger] after[p]) is Exit && (#[trigger] after[q]) is Exit
        implies frame_key(after[p]) != frame_key(after[q]) by {
        assert(after[p] == stack[p]);
        if q < at {
            assert(after[q] == stack[q]);
        } else {
            assert(entered.contains(frame_key(stack[p])));
        }
    }
    assert forall|e: Key| #[trigger] marked.contains(e) implies known.contains(e) || exists|q: int|
        0 <= q < after.len() && #[trigger] after[q] == Frame::Exit(e.0, e.1) by {
        if e == k {
            assert(after[at] == Frame::Exit(e.0, e.1));
        } else if !known.contains(e) {
            assert(entered.contains(e));
            let q = choose|q: int|
                0 <= q < stack.len() && #[trigger] stack[q] == Frame::Exit(e.0, e.1);
            assert(after[q] == stack[q]);
        }
    }
    assert forall|p: int| 0 <= p < after.len() && (#[trigger] after[p]) is Exit implies
        marked.contains(frame_key(after[p])) && graph.has(frame_key(after[p]).0)
        && !known.contains(frame_key(after[p])) by {
        if p < at {
            assert(after[p] == stack[p]);
        }
    }
    assert forall|p: int, d: Key|
        0 <= p < after.len() && (#[trigger] after[p]) is Exit && #[trigger] pass::depends(
            graph,
            frame_key(after[p]),
            d,
        ) && graph.has(d.0) implies settled(graph, known, after, p, frame_key(after[p]), d) by {
        if p < at {
            assert(after[p] == stack[p]);
            assert(settled(graph, known, stack, p, frame_key(stack[p]), d));
            if !known.contains(d) && !pass::needs(graph, d, frame_key(stack[p])) {
                let q = choose|q: int| p < q < stack.len() && frame_key(#[trigger] stack[q]) == d;
                assert(frame_key(after[q]) == d);
            }
        } else {
            if !known.contains(d) {
                if exists|j: int| 0 <= j < queued.len() && frame_key(#[trigger] queued[j]) == d {
                    let j = choose|j: int|
                        0 <= j < queued.len() && frame_key(#[trigger] queued[j]) == d;
                    assert(after[at + 1 + j] == queued[j]);
                } else {
                    assert(marked.contains(d));
                    if d == k {
                        pass::lemma_needs_itself(graph, d);
                    } else {
                        let q = choose|q: int|
                            0 <= q < stack.len() && #[trigger] stack[q] == Frame::Exit(d.0, d.1);
                        assert(pass::needs(graph, frame_key(stack[q]), frame_key(stack[at])));
                    }
                }
            }
        }
    }
    if graph.has(root.0) && !known.contains(root) {
        let q = choose|q: int| 0 <= q < stack.len() && frame_key(#[trigger] stack[q]) == root;
        if q < at {
            assert(frame_key(after[q]) == root);
        } else {
            assert(frame_key(after[at]) == root);
        }
    }
}

/// Leaving a node evaluates it.
proof fn lemma_exit(
    graph: &Graph,
    known: Set<Key>,
    entered: Set<Key>,
    stack: Seq<Frame>,
    root: Key,
)
    requires
        stack.len() > 0,
        stack.last() is Exit,
        stack_ok(graph, known, entered, stack, root),
    ensures
        stack_ok(
            graph,
            known.insert(frame_key(stack.last())),
            entered,
            stack.drop_last(),
            root,
        ),
        forall|d: Key| #[trigger]
            pass::depends(graph, frame_key(stack.last()), d) && graph.has(d.0) ==> known.contains(
                d,
            ) || pass::needs(graph, d, frame_key(stack.last())),
{
    let k = frame_key(stack.last());
    let shorter = stack.drop_last();
    let last = stack.len() - 1;
    let now = known.insert(k);
    assert forall|d: Key| #[trigger] pass::depends(graph, k, d) && graph.has(d.0) implies
        known.contains(d) || pass::needs(graph, d, k) by {
        assert(settled(graph, known, stack, last, frame_key(stack[last]), d));
    }
    assert forall|p: int, q: int| 0 <= p < q < shorter.len() && (#[trigger] shorter[p]) is Exit
        implies pass::needs(graph, frame_key(shorter[p]), frame_key(#[trigger] shorter[q])) by {
        assert(pass::needs(graph, frame_key(stack[p]), frame_key(stack[q])));
    }
    assert forall|p: int| 0 <= p < shorter.len() && (#[trigger] shorter[p]) is Exit implies
        graph.has(frame_key(shorter[p]).0) && !now.contains(frame_key(shorter[p])) by {
        assert(shorter[p] == stack[p]);
        assert(frame_key(stack[p]) != frame_key(stack[last]));
    }
    assert forall|e: Key| #[trigger] entered.contains(e) implies now.contains(e) || exists|q: int|
        0 <= q < shorter.len() && #[trigger] shorter[q] == Frame::Exit(e.0, e.1) by {
        if !now.contains(e) {
            let q = choose|q: int|
                0 <= q < stack.len() && #[trigger] stack[q] == Frame::Exit(e.0, e.1);
            assert(shorter[q] == stack[q]);
        }
    }
    assert forall|p: int, d: Key|
        0 <= p < shorter.len() && (#[trigger] shorter[p]) is Exit && #[trigger] pass::depends(
            graph,
            frame_key(shorter[p]),
            d,
        ) && graph.has(d.0) implies settled(graph, now, shorter, p, frame_key(shorter[p]), d) by {
        assert(shorter[p] == stack[p]);
        assert(settled(graph, known, stack, p, frame_key(stack[p]), d));
        if !now.contains(d) && !pass::needs(graph, d, frame_key(stack[p])) {
            let q = choose|q: int| p < q < stack.len() && frame_key(#[trigger] stack[q]) == d;
            assert(frame_key(shorter[q]) == d);
        }
    }
    if graph.has(root.0) && !now.contains(root) {
        let q = choose|q: int| 0 <= q < stack.len() && frame_key(#[trigger] stack[q]) == root;
        assert(frame_key(shorter[q]) == root);
    }
}

/// Evaluate `node` at `time` from the memo, hand the result to the hooks
/// and record what they left.
pub fn run_node<H: RenderHooks>(
    graph: &Graph,
    memo: &mut Memo,
    entry: &NodeEntry,
    node: NodeId,
    time: Rational,
    hooks: &mut H,
)
    requires
        graph.has(node),
        *entry == graph.entry(node),
        old(memo).wf(),
        old(memo).capacity() == graph.entries().len(),
    ensures
        final(memo).wf(),
        final(memo).capacity() == old(memo).capacity(),
        final(memo).history().len() == old(memo).history().len() + 1,
        final(memo).history().drop_last() == old(memo).history(),
        final(memo).history().last().key() == (node, time),
        pass::runs(graph, old(memo).history(), final(memo).history().last()),
        resolved_by::<H>(old(memo).history()) ==> resolved_by::<H>(final(memo).history()),
        final(hooks).calls() == old(hooks).calls().push(
            calls::resolution(final(memo).history().last()),
        ),
        old(hooks).steady() ==> final(hooks).steady(),
{
    let row: NodeValueRow = rows::build_row(graph, memo, entry, node, time);
    let mut table: NodeValueTable = NodeValueTable::new();
    entry.behavior.value(&entry.core, &row, time, &mut table);
    let ghost emitted = table@;
    hooks.resolve(node, &row, &mut table);
    memo.record(node, time, table, Ghost(row@), Ghost(emitted));
    assert(memo.history().drop_last() =~= old(memo).history());
    proof {
        if resolved_by::<H>(old(memo).history()) {
            lemma_resolved_step::<H>(old(memo).history(), memo.history());
        }
    }
}

/// The keys that a memo knows.
pub open spec fn known(memo: &Memo) -> Set<Key> {
    memo::tables(memo.history()).dom()
}

/// What a walk from `root` adds to the history `before`: a pass stays a
/// pass, every new step is needed by the root, and everything it pulls
/// was evaluated before it unless the graph has a cycle there. What was
/// known is not evaluated again and stays as it is.
pub open spec fn walked(graph: &Graph, root: Key, before: Seq<Step>, after: Seq<Step>) -> bool {
    &&& before.len() <= after.len()
    &&& after.subrange(0, before.len() as int) == before
    &&& pass::is_pass(graph, before) ==> pass::is_pass(graph, after)
    &&& forall|i: int|
        before.len() <= i < after.len() ==> pass::needs(graph, root, (#[trigger] after[i]).key())
            && pass::complete(graph, after, i) && pass::runs(graph, after.subrange(0, i), after[i])
            && !memo::tables(after.subrange(0, i)).contains_key(after[i].key())
            && !memo::tables(before).contains_key(after[i].key())
    &&& memo::tables(before).submap_of(memo::tables(after))
}

/// The steps that a history gained.
pub open spec fn gained(before: Seq<Step>, after: Seq<Step>) -> Seq<Step> {
    after.skip(before.len() as int)
}

/// A walk that goes on by one evaluated node.
proof fn lemma_walked_step(
    graph: &Graph,
    root: Key,
    before: Seq<Step>,
    middle: Seq<Step>,
    step: Step,
)
    requires
        walked(graph, root, before, middle),
        pass::runs(graph, middle, step),
        !memo::tables(middle).contains_key(step.key()),
        pass::needs(graph, root, step.key()),
        forall|d: Key| #[trigger]
            pass::depends(graph, step.key(), d) && graph.has(d.0) ==> memo::tables(
                middle,
            ).contains_key(d) || pass::needs(graph, d, step.key()),
    ensures
        walked(graph, root, before, middle.push(step)),
{
    let after = middle.push(step);
    assert(after.subrange(0, before.len() as int) =~= middle.subrange(0, before.len() as int));
    if pass::is_pass(graph, middle) {
        pass::lemma_pass_extends(graph, middle, step);
    }
    assert forall|i: int| before.len() <= i < after.len() implies pass::needs(
        graph,
        root,
        (#[trigger] after[i]).key(),
    ) && pass::complete(graph, after, i) && pass::runs(graph, after.subrange(0, i), after[i])
        && !memo::tables(after.subrange(0, i)).contains_key(after[i].key()) && !memo::tables(
        before,
    ).contains_key(after[i].key()) by {
        if i < middle.len() {
            assert(after[i] == middle[i]);
            assert(after.subrange(0, i) =~= middle.subrange(0, i));
            assert(pass::complete(graph, middle, i));
        } else {
            assert(after.subrange(0, i) =~= middle);
            if memo::tables(before).contains_key(step.key()) {
                memo::lemma_tables_grow(before, middle, step.key());
            }
        }
    }
    assert(after.drop_last() =~= middle);
    assert(memo::tables(before).submap_of(memo::tables(after)));
}

/// Walk upstream from `root` at `time`, evaluating into the memo whatever
/// it does not hold yet.
///
/// A node is evaluated once per time, after everything it pulls. Ends
/// with `State` when the hooks cancel.
pub fn walk_dfs<H: RenderHooks>(
    graph: &Graph,
    memo: &mut Memo,
    root: NodeId,
    time: Rational,
    hooks: &mut H,
) -> (r: Result<(), Error>)
    requires
        graph.wf(),
        old(memo).wf(),
        old(memo).capacity() == graph.entries().len(),
        pass::bounded(graph, (root, time)),
    ensures
        final(memo).wf(),
        final(memo).capacity() == old(memo).capacity(),
        walked(graph, (root, time), old(memo).history(), final(memo).history()),
        r is Ok && graph.has(root) ==> known(final(memo)).contains((root, time)),
        r matches Err(e) ==> e == Error::State,
        r is Err && !known(old(memo)).contains((root, time)) ==> !known(final(memo)).contains(
            (root, time),
        ),
        old(hooks).steady() ==> r is Ok && final(hooks).steady(),
        resolved_by::<H>(old(memo).history()) ==> resolved_by::<H>(final(memo).history()),
        calls::served(
            old(hooks).calls(),
            final(hooks).calls(),
            gained(old(memo).history(), final(memo).history()),
            r is Err,
        ),
        calls::paced(old(hooks).calls(), final(hooks).calls()),
        old(hooks).calls().len() < final(hooks).calls().len(),
{
    let ghost start: Key = (root, time);
    let ghost keys = choose|keys: Set<Key>| #[trigger]
        pass::is_closed(graph, keys) && keys.contains(start);
    let mut entered: KeySet = KeySet::new(graph.node_count());
    let mut stack: Vec<Frame> = Vec::new();
    stack.push(Frame::Enter(root, time));
    proof {
        pass::lemma_needs_itself(graph, start);
        assert(frame_key(stack@[0]) == start);
        assert(stack_ok(graph, known(memo), entered@, stack@, start));
        assert(memo.history().subrange(0, memo.history().len() as int) =~= memo.history());
        assert(gained(memo.history(), memo.history()) =~= Seq::empty());
        calls::lemma_served_nothing(hooks.calls());
    }
    while stack.len() > 0
        invariant
            calls::served(
                old(hooks).calls(),
                hooks.calls(),
                gained(old(memo).history(), memo.history()),
                false,
            ),
            calls::paced(old(hooks).calls(), hooks.calls()),
            stack@.len() == 0 ==> old(hooks).calls().len() < hooks.calls().len(),
            graph.wf(),
            memo.wf(),
            memo.capacity() == graph.entries().len(),
            old(memo).capacity() == graph.entries().len(),
            entered.capacity() == graph.entries().len(),
            start == (root, time),
            pass::is_closed(graph, keys),
            keys.contains(start),
            entered@.subset_of(keys),
            forall|q: int| 0 <= q < stack@.len() ==> keys.contains(frame_key(#[trigger] stack@[q])),
            stack_ok(graph, known(memo), entered@, stack@, start),
            stack@.len() > 0 ==> frame_key(stack@[0]) == start,
            stack@.len() > 0 && stack@[0] is Enter ==> stack@.len() == 1 && memo.history()
                == old(memo).history(),
            walked(graph, start, old(memo).history(), memo.history()),
            old(hooks).steady() ==> hooks.steady(),
            resolved_by::<H>(old(memo).history()) ==> resolved_by::<H>(memo.history()),
        decreases keys.difference(entered@).len(), stack.len(),
    {
        let ghost before = stack@;
        let frame: Frame = stack.pop().unwrap();
        assert(stack@ == before.drop_last());
        assert(frame == before.last());
        let ghost asked = hooks.calls();
        let stop: bool = hooks.is_cancelled();
        proof {
            calls::lemma_served_poll(
                old(hooks).calls(),
                asked,
                gained(old(memo).history(), memo.history()),
                stop,
            );
        }
        if stop {
            return Err(Error::State);
        }
        match frame {
            Frame::Enter(node, at) => {
                if memo.contains(node, at) {
                    proof {
                        lemma_drop_enter(graph, known(memo), entered@, before, start);
                    }
                    continue ;
                }
                let entry: &NodeEntry = match graph.get(node) {
                    Some(entry) => entry,
                    None => {
                        proof {
                            lemma_drop_enter(graph, known(memo), entered@, before, start);
                        }
                        continue ;
                    },
                };
                if entered.contains(node, at) {
                    proof {
                        lemma_drop_enter(graph, known(memo), entered@, before, start);
                    }
                    continue ;
                }
                let ghost key: Key = (node, at);
                let ghost marked = entered@.insert(key);
                let ghost unmarked = entered@;
                entered.insert(node, at);
                stack.push(Frame::Exit(node, at));
                let ghost based = stack@;
                let connections = graph.input_connections(node);
                let ghost models = graph::incoming(graph.edge_models(), node);
                let mut i: usize = 0;
                while i < connections.len()
                    invariant
                        graph.wf(),
                        memo.wf(),
                        graph.has(node),
                        *entry == graph.entry(node),
                        key == (node, at),
                        entered@ == marked,
                        i <= connections@.len(),
                        graph::connection_models(connections@) == models,
                        models == graph::incoming(graph.edge_models(), node),
                        pass::is_closed(graph, keys),
                        keys.contains(key),
                        based.len() <= stack@.len(),
                        stack@.subrange(0, based.len() as int) == based,
                        forall|j: int|
                            based.len() <= j < stack@.len() ==> (#[trigger] stack@[j]) is Enter
                                && pass::depends(graph, key, frame_key(stack@[j])),
                        forall|k: int|
                            0 <= k < i ==> known(memo).contains(
                                #[trigger] pass::pulls(graph, key)[k],
                            ) || marked.contains(pass::pulls(graph, key)[k]) || exists|j: int|
                                based.len() <= j < stack@.len() && frame_key(
                                    #[trigger] stack@[j],
                                ) == pass::pulls(graph, key)[k],
                    decreases connections@.len() - i,
                {
                    let c: &(NodeId, String, i32) = &connections[i];
                    let ghost model: Connection = (c.0, c.1@, c.2);
                    assert(model == models[i as int]);
                    let source: NodeId = rows::source_of(entry, c.0, c.1.as_str(), c.2);
                    let adjusted: Rational = rows::adjusted_time(entry, c.1.as_str(), c.2, at);
                    let ghost pull: Key = (source, adjusted);
                    assert(pull == pass::pulls(graph, key)[i as int]);
                    assert(pass::pulls(graph, key).contains(pull));
                    let ghost queued = stack@;
                    if !memo.contains(source, adjusted) && !entered.contains(source, adjusted) {
                        stack.push(Frame::Enter(source, adjusted));
                        assert(frame_key(stack@[queued.len() as int]) == pull);
                        assert(stack@.subrange(0, based.len() as int) =~= queued.subrange(
                            0,
                            based.len() as int,
                        ));
                    }
                    assert forall|k: int| 0 <= k < i + 1 implies known(memo).contains(
                        #[trigger] pass::pulls(graph, key)[k],
                    ) || marked.contains(pass::pulls(graph, key)[k]) || exists|j: int|
                        based.len() <= j < stack@.len() && frame_key(#[trigger] stack@[j])
                            == pass::pulls(graph, key)[k] by {
                        if k < i && !known(memo).contains(pass::pulls(graph, key)[k])
                            && !marked.contains(pass::pulls(graph, key)[k]) {
                            let j = choose|j: int|
                                based.len() <= j < queued.len() && frame_key(
                                    #[trigger] queued[j],
                                ) == pass::pulls(graph, key)[k];
                            assert(stack@[j] == queued[j]);
                        }
                    }
                    i = i + 1;
                }
                proof {
                    let queued = stack@.subrange(based.len() as int, stack@.len() as int);
                    assert(stack@ =~= based + queued);
                    assert(based =~= before.drop_last().push(Frame::Exit(key.0, key.1)));
                    assert forall|d: Key| #[trigger] pass::depends(graph, key, d) implies known(
                        memo,
                    ).contains(d) || marked.contains(d) || exists|j: int|
                        0 <= j < queued.len() && frame_key(#[trigger] queued[j]) == d by {
                        let k = choose|k: int|
                            0 <= k < pass::pulls(graph, key).len() && pass::pulls(graph, key)[k]
                                == d;
                        if !known(memo).contains(d) && !marked.contains(d) {
                            let j = choose|j: int|
                                based.len() <= j < stack@.len() && frame_key(#[trigger] stack@[j])
                                    == pass::pulls(graph, key)[k];
                            assert(queued[j - based.len()] == stack@[j]);
                        }
                    }
                    assert forall|j: int| 0 <= j < queued.len() implies (
                    #[trigger] queued[j]) is Enter && pass::depends(
                        graph,
                        key,
                        frame_key(queued[j]),
                    ) by {
                        assert(queued[j] == stack@[based.len() + j]);
                    }
                    lemma_enter(graph, known(memo), unmarked, before, queued, start);
                    assert forall|q: int| 0 <= q < stack@.len() implies keys.contains(
                        frame_key(#[trigger] stack@[q]),
                    ) by {
                        if q < based.len() - 1 {
                            assert(stack@[q] == based[q]);
                            assert(based[q] == before[q]);
                        } else if q == based.len() - 1 {
                            assert(stack@[q] == based[q]);
                        } else {
                            assert(pass::depends(graph, key, frame_key(stack@[q])));
                        }
                    }
                    let rest = keys.difference(unmarked);
                    assert(keys.difference(marked) =~= rest.remove(key));
                    assert(rest.contains(key));
                    vstd::set::axiom_set_difference_finite(keys, unmarked);
                    vstd::set::axiom_set_remove_len(rest, key);
                }
            },
            Frame::Exit(node, at) => {
                let ghost key: Key = (node, at);
                let ghost history = memo.history();
                let ghost had = known(memo);
                assert(before[before.len() - 1] is Exit);
                match graph.get(node) {
                    Some(entry) => {
                        proof {
                            lemma_exit(graph, known(memo), entered@, before, start);
                        }
                        let ghost handed = hooks.calls();
                        run_node(graph, memo, entry, node, at, hooks);
                        proof {
                            let step = memo.history().last();
                            assert(memo.history() =~= history.push(step));
                            calls::lemma_served_step(
                                old(hooks).calls(),
                                handed,
                                gained(old(memo).history(), history),
                                step,
                            );
                            assert(gained(old(memo).history(), memo.history()) =~= gained(
                                old(memo).history(),
                                history,
                            ).push(step));
                            assert(known(memo) =~= had.insert(key));
                            lemma_walked_step(graph, start, old(memo).history(), history, step);
                        }
                    },
                    None => {},
                }
            },
        }
    }
    Ok(())
}

} // verus!
