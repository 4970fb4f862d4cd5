//! The calls that an evaluation makes on its render hooks.

use vstd::prelude::*;

use crate::id::NodeId;
use crate::memo::Step;
use crate::value::{TableEntry, ValueModel};

verus! {

/// One call on render hooks.
#[verifier::ext_equal]
pub enum HookCall {
    /// A node's output was handed over: what the node put out, and what
    /// the hooks left of it.
    Resolve {
        node: NodeId,
        row: Map<Seq<char>, ValueModel>,
        emitted: Seq<TableEntry>,
        left: Seq<TableEntry>,
    },
    /// The hooks were asked whether to stop, and answered.
    Poll(bool),
}

/// The call that hands the output of a step over.
pub open spec fn resolution(step: Step) -> HookCall {
    HookCall::Resolve {
        node: step.node,
        row: step.row,
        emitted: step.emitted,
        left: step.table,
    }
}

/// The calls that hand the outputs of steps over.
pub open spec fn resolutions_of(steps: Seq<Step>) -> Seq<HookCall> {
    steps.map_values(|s: Step| resolution(s))
}

/// The calls in a list that hand an output over.
pub open spec fn resolutions(calls: Seq<HookCall>) -> Seq<HookCall>
    decreases calls.len(),
{
    if calls.len() == 0 {
        Seq::empty()
    } else if calls.last() is Resolve {
        resolutions(calls.drop_last()).push(calls.last())
    } else {
        resolutions(calls.drop_last())
    }
}

/// Whether the calls grew from `before` to `after` by handing over exactly
/// the outputs of `steps`, in order, and by polls: none of them answered
/// with a stop, except the last call where the evaluation was `stopped`.
pub open spec fn served(
    before: Seq<HookCall>,
    after: Seq<HookCall>,
    steps: Seq<Step>,
    stopped: bool,
) -> bool {
    &&& before.len() <= after.len()
    &&& after.subrange(0, before.len() as int) == before
    &&& resolutions(after.skip(before.len() as int)) == resolutions_of(steps)
    &&& forall|i: int|
        before.len() <= i < after.len() && (#[trigger] after[i]) is Poll ==> after[i]
            == HookCall::Poll(stopped && i == after.len() - 1)
    &&& stopped ==> before.len() < after.len() && after.last() == HookCall::Poll(true)
}

/// Whether every output that was handed over since `before` was preceded
/// by a poll.
pub open spec fn paced(before: Seq<HookCall>, after: Seq<HookCall>) -> bool {
    forall|i: int|
        before.len() <= i < after.len() && (#[trigger] after[i]) is Resolve ==> before.len() < i
            && after[i - 1] is Poll
}

/// Whether polls and outputs took turns since `before`: one poll, then the
/// output of one step, and so on; a stop comes with one more poll.
pub open spec fn in_turns(
    before: Seq<HookCall>,
    after: Seq<HookCall>,
    steps: Seq<Step>,
    stopped: bool,
) -> bool {
    &&& after.len() == before.len() + 2 * steps.len() + (if stopped {
        1int
    } else {
        0int
    })
    &&& forall|k: int|
        0 <= k < steps.len() ==> after[before.len() + 2 * k] == HookCall::Poll(false)
            && after[before.len() + 2 * k + 1] == resolution(#[trigger] steps[k])
    &&& stopped ==> after.last() == HookCall::Poll(true)
}

/// No call serves no step.
pub proof fn lemma_served_nothing(calls: Seq<HookCall>)
    ensures
        served(calls, calls, Seq::empty(), false),
        paced(calls, calls),
        in_turns(calls, calls, Seq::empty(), false),
{
    assert(calls.subrange(0, calls.len() as int) =~= calls);
    assert(calls.skip(calls.len() as int) =~= Seq::empty());
    assert(resolutions_of(Seq::empty()) =~= Seq::empty());
}

/// One more poll.
pub proof fn lemma_served_poll(
    before: Seq<HookCall>,
    after: Seq<HookCall>,
    steps: Seq<Step>,
    stop: bool,
)
    requires
        served(before, after, steps, false),
    ensures
        served(before, after.push(HookCall::Poll(stop)), steps, stop),
        paced(before, after) ==> paced(before, after.push(HookCall::Poll(stop))),
        in_turns(before, after, steps, false) && stop ==> in_turns(
            before,
            after.push(HookCall::Poll(stop)),
            steps,
            true,
        ),
{
    let longer = after.push(HookCall::Poll(stop));
    let n = before.len() as int;
    assert(longer.subrange(0, n) =~= after.subrange(0, n));
    assert(longer.skip(n).drop_last() =~= after.skip(n));
    assert(longer.skip(n).last() == HookCall::Poll(stop));
    assert forall|i: int| n <= i < longer.len() && (#[trigger] longer[i]) is Poll implies longer[i]
        == HookCall::Poll(stop && i == longer.len() - 1) by {
        if i < after.len() {
            assert(longer[i] == after[i]);
        }
    }
    if paced(before, after) {
        assert forall|i: int| n <= i < longer.len() && (#[trigger] longer[i]) is Resolve implies n
            < i && longer[i - 1] is Poll by {
            assert(longer[i] == after[i]);
        }
    }
}

/// One more output.
pub proof fn lemma_served_step(
    before: Seq<HookCall>,
    after: Seq<HookCall>,
    steps: Seq<Step>,
    step: Step,
)
    requires
        served(before, after, steps, false),
    ensures
        served(before, after.push(resolution(step)), steps.push(step), false),
        paced(before, after) && before.len() < after.len() && after.last() is Poll ==> paced(
            before,
            after.push(resolution(step)),
        ),
{
    let longer = after.push(resolution(step));
    let n = before.len() as int;
    assert(longer.subrange(0, n) =~= after.subrange(0, n));
    assert(longer.skip(n).drop_last() =~= after.skip(n));
    assert(longer.skip(n).last() == resolution(step));
    assert(resolutions_of(steps.push(step)) =~= resolutions_of(steps).push(resolution(step)));
    assert forall|i: int| n <= i < longer.len() && (#[trigger] longer[i]) is Poll implies longer[i]
        == HookCall::Poll(false) by {
        assert(longer[i] == after[i]);
    }
    if paced(before, after) && n < after.len() && after.last() is Poll {
        assert forall|i: int| n <= i < longer.len() && (#[trigger] longer[i]) is Resolve implies n
            < i && longer[i - 1] is Poll by {
            if i < after.len() {
                assert(longer[i] == after[i]);
            }
        }
    }
}

/// A poll and an output in turn.
pub proof fn lemma_in_turns_step(
    before: Seq<HookCall>,
    after: Seq<HookCall>,
    steps: Seq<Step>,
    step: Step,
)
    requires
        in_turns(before, after, steps, false),
    ensures
        in_turns(
            before,
            after.push(HookCall::Poll(false)).push(resolution(step)),
            steps.push(step),
            false,
        ),
{
    let longer = after.push(HookCall::Poll(false)).push(resolution(step));
    let more = steps.push(step);
    assert forall|k: int| 0 <= k < more.len() implies longer[before.len() + 2 * k]
        == HookCall::Poll(false) && longer[before.len() + 2 * k + 1] == resolution(
        #[trigger] more[k],
    ) by {
        if k < steps.len() {
            assert(more[k] == steps[k]);
        }
    }
}

/// The outputs handed over in two lists.
proof fn lemma_resolutions_joined(a: Seq<HookCall>, b: Seq<HookCall>)
    ensures
        resolutions(a + b) == resolutions(a) + resolutions(b),
    decreases b.len(),
{
    if b.len() == 0 {
        assert(a + b =~= a);
        assert(resolutions(a) + resolutions(b) =~= resolutions(a));
    } else {
        assert((a + b).drop_last() =~= a + b.drop_last());
        lemma_resolutions_joined(a, b.drop_last());
        assert(resolutions(a + b) =~= resolutions(a) + resolutions(b));
    }
}

/// Calls in a row serve the steps in a row.
pub proof fn lemma_served_joined(
    first: Seq<HookCall>,
    second: Seq<HookCall>,
    third: Seq<HookCall>,
    earlier: Seq<Step>,
    later: Seq<Step>,
    stopped: bool,
)
    requires
        served(first, second, earlier, false),
        served(second, third, later, stopped),
    ensures
        served(first, third, earlier + later, stopped),
        paced(first, second) && paced(second, third) ==> paced(first, third),
{
    let n = first.len() as int;
    let m = second.len() as int;
    assert forall|i: int| 0 <= i < m implies third[i] == second[i] by {
        assert(third[i] == third.subrange(0, m)[i]);
    }
    assert(third.subrange(0, n) =~= second.subrange(0, n));
    assert(third.skip(n) =~= second.skip(n) + third.skip(m));
    lemma_resolutions_joined(second.skip(n), third.skip(m));
    assert(resolutions_of(earlier + later) =~= resolutions_of(earlier) + resolutions_of(later));
    assert forall|i: int| n <= i < third.len() && (#[trigger] third[i]) is Poll implies third[i]
        == HookCall::Poll(stopped && i == third.len() - 1) by {
        if i < m {
            assert(second[i] == third[i]);
            if stopped {
                assert(m < third.len());
            }
        }
    }
    if paced(first, second) && paced(second, third) {
        assert forall|i: int| n <= i < third.len() && (#[trigger] third[i]) is Resolve implies n < i
            && third[i - 1] is Poll by {
            if i < m {
                assert(second[i] == third[i]);
            }
        }
    }
}

/// Where two outputs that were handed over stand among the calls.
proof fn lemma_resolution_places(calls: Seq<HookCall>, i: int, j: int) -> (r: (int, int))
    requires
        0 <= i < j < resolutions(calls).len(),
    ensures
        0 <= r.0 < r.1 < calls.len(),
        calls[r.0] == resolutions(calls)[i],
        calls[r.1] == resolutions(calls)[j],
    decreases calls.len(),
{
    let fewer = calls.drop_last();
    let rest = resolutions(fewer);
    if j < rest.len() {
        let r = lemma_resolution_places(fewer, i, j);
        assert(fewer[r.0] == calls[r.0] && fewer[r.1] == calls[r.1]);
        r
    } else {
        let a = lemma_resolution_place(fewer, i);
        assert(fewer[a] == calls[a]);
        (a, calls.len() - 1)
    }
}

proof fn lemma_resolution_place(calls: Seq<HookCall>, i: int) -> (r: int)
    requires
        0 <= i < resolutions(calls).len(),
    ensures
        0 <= r < calls.len(),
        calls[r] == resolutions(calls)[i],
    decreases calls.len(),
{
    let fewer = calls.drop_last();
    if i < resolutions(fewer).len() {
        let r = lemma_resolution_place(fewer, i);
        assert(fewer[r] == calls[r]);
        r
    } else {
        calls.len() - 1
    }
}

/// Every call that hands an output over does so for one of the steps.
proof fn lemma_resolved_call(calls: Seq<HookCall>, k: int)
    requires
        0 <= k < calls.len(),
        calls[k] is Resolve,
    ensures
        resolutions(calls).contains(calls[k]),
    decreases calls.len(),
{
    let fewer = calls.drop_last();
    if k < fewer.len() {
        assert(fewer[k] == calls[k]);
        lemma_resolved_call(fewer, k);
        let rest = resolutions(fewer);
        let i = choose|i: int| 0 <= i < rest.len() && rest[i] == calls[k];
        assert(resolutions(calls)[i] == calls[k]);
    } else {
        assert(resolutions(calls).last() == calls[k]);
    }
}

/// The hooks are handed the output of every step: what the node put out for
/// its row, of which they leave the step's table. Earlier steps come
/// earlier, no other output is handed over, and what was called before
/// stays.
pub proof fn law_hooks_get_the_outputs_in_order(
    before: Seq<HookCall>,
    after: Seq<HookCall>,
    steps: Seq<Step>,
    stopped: bool,
    i: int,
    j: int,
    k: int,
)
    requires
        served(before, after, steps, stopped),
        0 <= i < j < steps.len(),
    ensures
        exists|a: int, b: int|
            #![trigger after[a], after[b]]
            before.len() <= a < b < after.len() && after[a] == (HookCall::Resolve {
                node: steps[i].node,
                row: steps[i].row,
                emitted: steps[i].emitted,
                left: steps[i].table,
            }) && after[b] == (HookCall::Resolve {
                node: steps[j].node,
                row: steps[j].row,
                emitted: steps[j].emitted,
                left: steps[j].table,
            }),
        before.len() <= k < after.len() && after[k] is Resolve ==> exists|s: int|
            0 <= s < steps.len() && after[k] == (HookCall::Resolve {
                node: (#[trigger] steps[s]).node,
                row: steps[s].row,
                emitted: steps[s].emitted,
                left: steps[s].table,
            }),
        0 <= k < before.len() ==> after[k] == before[k],
{
    let n = before.len() as int;
    let made = after.skip(n);
    let list = resolutions_of(steps);
    assert(list[i] == resolution(steps[i]) && list[j] == resolution(steps[j]));
    let (a, b) = lemma_resolution_places(made, i, j);
    assert(made[a] == after[a + n] && made[b] == after[b + n]);
    if n <= k < after.len() && after[k] is Resolve {
        assert(made[k - n] == after[k]);
        lemma_resolved_call(made, k - n);
        let s = choose|s: int| 0 <= s < list.len() && list[s] == after[k];
        assert(list[s] == resolution(steps[s]));
    }
    if 0 <= k < n {
        assert(after.subrange(0, n)[k] == after[k]);
    }
}

} // verus!
