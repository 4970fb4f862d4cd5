//! The memo of one evaluation pass: the output table of every node
//! evaluated so far, by node and time.

use vstd::prelude::*;

use crate::id::NodeId;
use crate::rational::Rational;
use crate::value::{NodeValueTable, TableEntry, ValueModel};

verus! {

/// A node at a time.
pub type Key = (NodeId, Rational);

/// One evaluation: the row a node was given, the table it put out, and
/// the table the render hooks left.
pub struct Step {
    pub node: NodeId,
    pub time: Rational,
    pub row: Map<Seq<char>, ValueModel>,
    pub emitted: Seq<TableEntry>,
    pub table: Seq<TableEntry>,
}

impl Step {
    /// The node and the time that were evaluated.
    pub open spec fn key(self) -> Key {
        (self.node, self.time)
    }
}

/// The tables known after `steps`.
pub open spec fn tables(steps: Seq<Step>) -> Map<Key, Seq<TableEntry>>
    decreases steps.len(),
{
    if steps.len() == 0 {
        Map::empty()
    } else {
        tables(steps.drop_last()).insert(steps.last().key(), steps.last().table)
    }
}

/// Later steps keep the keys of earlier ones.
pub proof fn lemma_tables_grow(steps: Seq<Step>, longer: Seq<Step>, key: Key)
    requires
        steps.len() <= longer.len(),
        longer.subrange(0, steps.len() as int) == steps,
        tables(steps).contains_key(key),
    ensures
        tables(longer).contains_key(key),
    decreases longer.len(),
{
    if longer.len() == steps.len() {
        assert(longer =~= steps);
    } else {
        assert(longer.drop_last().subrange(0, steps.len() as int) =~= steps);
        lemma_tables_grow(steps, longer.drop_last(), key);
    }
}

/// A key is known exactly when some step evaluated it.
pub proof fn lemma_tables_key(steps: Seq<Step>, key: Key)
    ensures
        tables(steps).contains_key(key) <==> exists|i: int|
            0 <= i < steps.len() && (#[trigger] steps[i]).key() == key,
    decreases steps.len(),
{
    if steps.len() > 0 {
        let shorter = steps.drop_last();
        lemma_tables_key(shorter, key);
        if tables(shorter).contains_key(key) {
            let i = choose|i: int| 0 <= i < shorter.len() && (#[trigger] shorter[i]).key() == key;
            assert(steps[i].key() == key);
        }
        if exists|i: int| 0 <= i < steps.len() && (#[trigger] steps[i]).key() == key {
            let i = choose|i: int| 0 <= i < steps.len() && (#[trigger] steps[i]).key() == key;
            if i < shorter.len() {
                assert(shorter[i].key() == key);
            }
        }
    }
}

/// The table of a key is that of the last step that evaluated it.
pub proof fn lemma_last_step_counts(steps: Seq<Step>, j: int)
    requires
        0 <= j < steps.len(),
        forall|k: int| j < k < steps.len() ==> (#[trigger] steps[k]).key() != steps[j].key(),
    ensures
        tables(steps)[steps[j].key()] == steps[j].table,
    decreases steps.len(),
{
    if j < steps.len() - 1 {
        let shorter = steps.drop_last();
        assert(steps.last() == steps[steps.len() - 1]);
        assert forall|k: int| j < k < shorter.len() implies (#[trigger] shorter[k]).key()
            != shorter[j].key() by {
            assert(shorter[k] == steps[k]);
        }
        lemma_last_step_counts(shorter, j);
    }
}

/// The table that a slot holds for a time: the last entry counts.
spec fn slot_table(slot: Seq<(Rational, NodeValueTable)>, time: Rational) -> Option<
    Seq<TableEntry>,
>
    decreases slot.len(),
{
    if slot.len() == 0 {
        None
    } else if slot.last().0 == time {
        Some(slot.last().1@)
    } else {
        slot_table(slot.drop_last(), time)
    }
}

/// The tables evaluated in one pass.
pub struct Memo {
    slots: Vec<Vec<(Rational, NodeValueTable)>>,
    steps: Ghost<Seq<Step>>,
}

impl Memo {
    /// The evaluations that filled the memo.
    pub closed spec fn history(&self) -> Seq<Step> {
        self.steps@
    }

    /// The number of nodes the memo is for.
    pub closed spec fn capacity(&self) -> nat {
        self.slots@.len()
    }

    /// The memo holds exactly the tables of its history.
    pub closed spec fn wf(&self) -> bool {
        &&& forall|n: NodeId, t: Rational|
            #![trigger tables(self.steps@).contains_key((n, t))]
            tables(self.steps@).contains_key((n, t)) ==> n.0 < self.slots@.len()
        &&& forall|n: int, t: Rational|
            0 <= n < self.slots@.len() ==> #[trigger] slot_table(self.slots@[n]@, t) == (if tables(
                self.steps@,
            ).contains_key((NodeId(n as u64), t)) {
                Some(tables(self.steps@)[(NodeId(n as u64), t)])
            } else {
                None
            })
    }

    /// An empty memo for `count` nodes.
    pub fn new(count: usize) -> (r: Memo)
        ensures
            r.wf(),
            r.history() == Seq::<Step>::empty(),
            r.capacity() == count,
    {
        let mut slots: Vec<Vec<(Rational, NodeValueTable)>> = Vec::new();
        let mut i: usize = 0;
        while i < count
            invariant
                i <= count,
                slots@.len() == i,
                forall|j: int| 0 <= j < i ==> (#[trigger] slots@[j])@.len() == 0,
            decreases count - i,
        {
            slots.push(Vec::new());
            i = i + 1;
        }
        Memo { slots, steps: Ghost(Seq::empty()) }
    }

    /// The table of `node` at `time`, when it was evaluated.
    pub fn get(&self, node: NodeId, time: Rational) -> (r: Option<&NodeValueTable>)
        requires
            self.wf(),
        ensures
            match r {
                Some(table) => tables(self.history()).contains_key((node, time))
                    && tables(self.history())[(node, time)] == table@,
                None => !tables(self.history()).contains_key((node, time)),
            },
    {
        let count: usize = self.slots.len();
        if node.0 >= count as u64 {
            return None;
        }
        let slot: &Vec<(Rational, NodeValueTable)> = &self.slots[node.0 as usize];
        let mut i: usize = slot.len();
        assert(slot@.subrange(0, slot@.len() as int) =~= slot@);
        while i > 0
            invariant
                i <= slot@.len(),
                self.wf(),
                node.0 < self.slots@.len(),
                slot@ == self.slots@[node.0 as int]@,
                slot_table(slot@, time) == slot_table(slot@.subrange(0, i as int), time),
            decreases i,
        {
            let ghost prefix = slot@.subrange(0, i as int);
            i = i - 1;
            assert(prefix.drop_last() =~= slot@.subrange(0, i as int));
            assert(prefix.last() == slot@[i as int]);
            if slot[i].0 == time {
                assert(slot_table(self.slots@[node.0 as int]@, time) is Some);
                return Some(&slot[i].1);
            }
        }
        assert(slot_table(self.slots@[node.0 as int]@, time) is None);
        None
    }

    /// Whether `node` was evaluated at `time`.
    pub fn contains(&self, node: NodeId, time: Rational) -> (r: bool)
        requires
            self.wf(),
        ensures
            r == tables(self.history()).contains_key((node, time)),
    {
        self.get(node, time).is_some()
    }

    /// The table of `node` at `time`, out of a memo that is done with.
    pub fn take(self, node: NodeId, time: Rational) -> (r: Option<NodeValueTable>)
        requires
            self.wf(),
        ensures
            match r {
                Some(table) => tables(self.history()).contains_key((node, time))
                    && tables(self.history())[(node, time)] == table@,
                None => !tables(self.history()).contains_key((node, time)),
            },
    {
        match self.get(node, time) {
            Some(table) => Some(table.clone()),
            None => None,
        }
    }

    /// Record an evaluation.
    pub fn record(
        &mut self,
        node: NodeId,
        time: Rational,
        table: NodeValueTable,
        Ghost(row): Ghost<Map<Seq<char>, ValueModel>>,
        Ghost(emitted): Ghost<Seq<TableEntry>>,
    )
        requires
            old(self).wf(),
            node.0 < old(self).capacity(),
        ensures
            final(self).wf(),
            final(self).capacity() == old(self).capacity(),
            final(self).history() == old(self).history().push(
                (Step { node, time, row, emitted, table: table@ }),
            ),
    {
        let count: usize = self.slots.len();
        let index: usize = node.0 as usize;
        let ghost step = Step { node, time, row, emitted, table: table@ };
        let ghost before = self.slots@[index as int]@;
        let mut slot: Vec<(Rational, NodeValueTable)> = Vec::new();
        std::mem::swap(&mut slot, &mut self.slots[index]);
        slot.push((time, table));
        self.slots.set(index, slot);
        proof {
            let steps = old(self).steps@.push(step);
            self.steps@ = steps;
            assert(steps.drop_last() =~= old(self).steps@);
            assert(self.slots@[index as int]@.drop_last() =~= before);
            assert forall|n: NodeId, t: Rational|
                #![trigger tables(self.steps@).contains_key((n, t))]
                tables(self.steps@).contains_key((n, t)) implies n.0 < self.slots@.len() by {
                if (n, t) != (node, time) {
                    assert(tables(old(self).steps@).contains_key((n, t)));
                }
            }
            assert forall|n: int, t: Rational| 0 <= n < self.slots@.len() implies #[trigger] slot_table(
                self.slots@[n]@,
                t,
            ) == (if tables(steps).contains_key((NodeId(n as u64), t)) {
                Some(tables(steps)[(NodeId(n as u64), t)])
            } else {
                None
            }) by {
                assert(slot_table(old(self).slots@[n]@, t) == slot_table(
                    old(self).slots@[n]@,
                    t,
                ));
                if n != index {
                    assert(self.slots@[n] == old(self).slots@[n]);
                    assert(NodeId(n as u64) != node);
                }
            }
        }
    }
}

} // verus!
