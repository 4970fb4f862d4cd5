//! The graph's virtual endpoints.
//!
//! Every project graph carries exactly one pair, created by
//! [`crate::graph::Graph::ensure_endpoints`] and wired input to output.
//! The input endpoint is where evaluation starts; every branch converges
//! on the output endpoint, and its value is the frame. Neither produces
//! pixels: the input forwards what its row carries, the output hands its
//! `tex_in` value back out.

use vstd::prelude::*;

use crate::factory::{NodeKind, NodeMeta};
use crate::input;
use crate::input::{Input, InputModel};
use crate::node;
use crate::node::{Category, NodeBehavior, NodeCore};
use crate::nodes::effect;
use crate::rational::Rational;
use crate::text;
use crate::value::{NodeValue, NodeValueRow, NodeValueTable, TableEntry, ValueModel};

verus! {

/// Type id of the graph input endpoint; the graph finds the endpoint by
/// it.
pub const GRAPH_INPUT_TYPE_ID: &'static str = "org.olivevideoeditor.Olive.graphinput";

/// Type id of the graph output endpoint.
pub const GRAPH_OUTPUT_TYPE_ID: &'static str = "org.olivevideoeditor.Olive.graphoutput";

/// The texture input of the input endpoint: where a footage, generator
/// or composite node feeds the graph.
pub const GRAPH_INPUT_FEED_INPUT: &'static str = "feed_in";

/// The output port of the input endpoint.
pub const GRAPH_INPUT_OUTPUT: &'static str = "tex_out";

/// The texture input of the output endpoint.
pub const GRAPH_OUTPUT_INPUT: &'static str = "tex_in";

/// The graph input node.
pub struct GraphInputNode;

/// The graph output node.
pub struct GraphOutputNode;

/// The entries that declared inputs forward from a row: each input with
/// a value, under its declared type.
pub open spec fn forwarded(
    inputs: Seq<InputModel>,
    row: Map<Seq<char>, ValueModel>,
) -> Seq<TableEntry>
    decreases inputs.len(),
{
    if inputs.len() == 0 {
        Seq::empty()
    } else {
        let rest = forwarded(inputs.drop_last(), row);
        let last = inputs.last();
        if row.contains_key(last.id) && row[last.id] != ValueModel::Empty {
            rest.push((last.value_type, row[last.id], None))
        } else {
            rest
        }
    }
}

impl NodeBehavior for GraphInputNode {
    open spec fn spec_name(&self) -> Seq<char> {
        "Graph Input"@
    }

    open spec fn spec_type_id(&self) -> Seq<char> {
        GRAPH_INPUT_TYPE_ID@
    }

    open spec fn emits(
        &self,
        core: &NodeCore,
        row: Map<Seq<char>, ValueModel>,
        time: Rational,
        before: Seq<TableEntry>,
        after: Seq<TableEntry>,
    ) -> bool {
        after == before + forwarded(core.input_models(), row)
    }

    fn name(&self) -> (r: &str) {
        "Graph Input"
    }

    fn type_id(&self) -> (r: &str) {
        GRAPH_INPUT_TYPE_ID
    }

    fn categories(&self) -> (r: &[Category])
        ensures
            r@ == seq![Category::Input],
    {
        &[Category::Input]
    }

    fn description(&self) -> (r: &str)
        ensures
            r@
                == "The graph's input endpoint: the evaluation walk starts here and its row is forwarded downstream."@,
    {
        "The graph's input endpoint: the evaluation walk starts here and its row is forwarded downstream."
    }

    /// `feed_in` is shown as "Feed"; any other id is shown as it is.
    fn input_name<'a>(&self, id: &'a str) -> (r: &'a str)
        ensures
            r@ == (if id@ == GRAPH_INPUT_FEED_INPUT@ {
                "Feed"@
            } else {
                id@
            }),
    {
        if text::same(id, GRAPH_INPUT_FEED_INPUT) {
            "Feed"
        } else {
            id
        }
    }

    /// Forward the row: every declared input that carries a value is put
    /// out under its declared type.
    fn value(
        &self,
        core: &NodeCore,
        inputs: &NodeValueRow,
        time: Rational,
        table: &mut NodeValueTable,
    ) {
        let mut i: usize = 0;
        assert(core.input_models().subrange(0, 0) =~= Seq::empty());
        assert(table@ =~= old(table)@ + forwarded(core.input_models().subrange(0, 0), inputs@));
        while i < core.inputs.len()
            invariant
                i <= core.inputs@.len(),
                table@ == old(table)@ + forwarded(
                    core.input_models().subrange(0, i as int),
                    inputs@,
                ),
            decreases core.inputs@.len() - i,
        {
            let declared: &Input = &core.inputs[i];
            proof {
                let longer = core.input_models().subrange(0, i + 1);
                assert(longer.drop_last() =~= core.input_models().subrange(0, i as int));
                assert(longer.last() == declared@);
            }
            let ghost before = table@;
            match inputs.get(declared.id.as_str()) {
                Some(value) => match value {
                    NodeValue::Empty => {},
                    _ => {
                        table.push(declared.value_type, value.clone(), None);
                    },
                },
                None => {},
            }
            assert(table@ =~= old(table)@ + forwarded(
                core.input_models().subrange(0, i + 1),
                inputs@,
            ));
            i = i + 1;
        }
        assert(core.input_models().subrange(0, i as int) =~= core.input_models());
    }

    /// The endpoint pair is fixed: neither node can be copied.
    fn duplicate(&self, core: &NodeCore) -> (r: Option<Self>)
        ensures
            r is None,
    {
        None
    }
}

impl NodeBehavior for GraphOutputNode {
    open spec fn spec_name(&self) -> Seq<char> {
        "Graph Output"@
    }

    open spec fn spec_type_id(&self) -> Seq<char> {
        GRAPH_OUTPUT_TYPE_ID@
    }

    open spec fn emits(
        &self,
        core: &NodeCore,
        row: Map<Seq<char>, ValueModel>,
        time: Rational,
        before: Seq<TableEntry>,
        after: Seq<TableEntry>,
    ) -> bool {
        let id = GRAPH_OUTPUT_INPUT@;
        if row.contains_key(id) && row[id] != ValueModel::Empty {
            match input::find_input(core.input_models(), id) {
                Some(declared) => after == before.push((declared.value_type, row[id], None)),
                None => after == before,
            }
        } else {
            after == before
        }
    }

    fn name(&self) -> (r: &str) {
        "Graph Output"
    }

    fn type_id(&self) -> (r: &str) {
        GRAPH_OUTPUT_TYPE_ID
    }

    fn categories(&self) -> (r: &[Category])
        ensures
            r@ == seq![Category::Output],
    {
        &[Category::Output]
    }

    fn description(&self) -> (r: &str)
        ensures
            r@
                == "The graph's output endpoint: every live branch converges here; the node's value is the frame."@,
    {
        "The graph's output endpoint: every live branch converges here; the node's value is the frame."
    }

    /// `tex_in` is shown as "Texture"; any other id is shown as it is.
    fn input_name<'a>(&self, id: &'a str) -> (r: &'a str)
        ensures
            r@ == (if id@ == GRAPH_OUTPUT_INPUT@ {
                "Texture"@
            } else {
                id@
            }),
    {
        if text::same(id, GRAPH_OUTPUT_INPUT) {
            "Texture"
        } else {
            id
        }
    }

    /// Put the incoming texture out as this node's own value; nothing
    /// incoming, nothing put out.
    fn value(
        &self,
        core: &NodeCore,
        inputs: &NodeValueRow,
        time: Rational,
        table: &mut NodeValueTable,
    ) {
        match inputs.get(GRAPH_OUTPUT_INPUT) {
            Some(value) => match value {
                NodeValue::Empty => {},
                _ => match core.input_data_type(GRAPH_OUTPUT_INPUT) {
                    Some(kind) => {
                        table.push(kind, value.clone(), None);
                    },
                    None => {},
                },
            },
            None => {},
        }
    }

    /// The endpoint pair is fixed: neither node can be copied.
    fn duplicate(&self, core: &NodeCore) -> (r: Option<Self>)
        ensures
            r is None,
    {
        None
    }
}

/// The state of a new input endpoint.
pub open spec fn created_graph_input(core: &NodeCore) -> bool {
    node::fresh_core(
        core,
        seq![effect::texture_input(GRAPH_INPUT_FEED_INPUT@)],
        Seq::empty(),
        node::flags::DONT_SHOW_IN_CREATE_MENU,
    )
}

/// The state of a new output endpoint.
pub open spec fn created_graph_output(core: &NodeCore) -> bool {
    node::fresh_core(
        core,
        seq![effect::texture_input(GRAPH_OUTPUT_INPUT@)],
        Seq::empty(),
        node::flags::DONT_SHOW_IN_CREATE_MENU,
    )
}

/// The input endpoint: one texture input, `feed_in`, and hidden from
/// create menus.
pub fn create_graph_input() -> (r: (NodeCore, GraphInputNode))
    ensures
        created_graph_input(&r.0),
{
    let mut core = NodeCore::new();
    core.add_input(effect::texture(GRAPH_INPUT_FEED_INPUT));
    core.flags = node::flags::DONT_SHOW_IN_CREATE_MENU;
    assert(core.input_models() =~= seq![node::enabled_input()] + seq![
        effect::texture_input(GRAPH_INPUT_FEED_INPUT@),
    ]);
    (core, GraphInputNode)
}

/// The output endpoint: one texture input, `tex_in`, and hidden from
/// create menus.
pub fn create_graph_output() -> (r: (NodeCore, GraphOutputNode))
    ensures
        created_graph_output(&r.0),
{
    let mut core = NodeCore::new();
    core.add_input(effect::texture(GRAPH_OUTPUT_INPUT));
    core.flags = node::flags::DONT_SHOW_IN_CREATE_MENU;
    assert(core.input_models() =~= seq![node::enabled_input()] + seq![
        effect::texture_input(GRAPH_OUTPUT_INPUT@),
    ]);
    (core, GraphOutputNode)
}

/// Register both endpoint types, so that a loaded project's missing
/// endpoints can be rebuilt by type id.
pub fn register(meta: &mut Vec<NodeMeta>)
    ensures
        final(meta)@.len() == old(meta)@.len() + 2,
        final(meta)@.subrange(0, old(meta)@.len() as int) == old(meta)@,
        final(meta)@[old(meta)@.len() as int].describes(
            GRAPH_INPUT_TYPE_ID@,
            "Graph Input"@,
            seq![Category::Input],
            NodeKind::GraphInput,
        ),
        final(meta)@[old(meta)@.len() as int + 1].describes(
            GRAPH_OUTPUT_TYPE_ID@,
            "Graph Output"@,
            seq![Category::Output],
            NodeKind::GraphOutput,
        ),
{
    meta.push(
        NodeMeta {
            type_id: GRAPH_INPUT_TYPE_ID,
            name: "Graph Input",
            categories: &[Category::Input],
            kind: NodeKind::GraphInput,
        },
    );
    meta.push(
        NodeMeta {
            type_id: GRAPH_OUTPUT_TYPE_ID,
            name: "Graph Output",
            categories: &[Category::Output],
            kind: NodeKind::GraphOutput,
        },
    );
    assert(meta@.subrange(0, old(meta)@.len() as int) =~= old(meta)@);
}

/// How many of the first `n` inputs have a value in a row.
pub open spec fn carried(inputs: Seq<Input>, row: Map<Seq<char>, ValueModel>, n: int) -> int
    decreases n,
{
    if n <= 0 {
        0
    } else {
        carried(inputs, row, n - 1) + (if row.contains_key(inputs[n - 1].id@) && !(
        row[inputs[n - 1].id@] is Empty) {
            1int
        } else {
            0int
        })
    }
}

/// The input endpoint puts out every value that its row carries on a
/// declared input, in the order of the inputs, each under the type of its
/// input, and nothing else.
pub proof fn law_the_input_endpoint_forwards_its_row(
    core: &NodeCore,
    row: Map<Seq<char>, ValueModel>,
    time: Rational,
    before: Seq<TableEntry>,
    after: Seq<TableEntry>,
    at: int,
)
    requires
        GraphInputNode.emits(core, row, time, before, after),
        0 <= at < core.inputs@.len(),
    ensures
        after.len() == before.len() + carried(core.inputs@, row, core.inputs@.len() as int),
        forall|k: int| 0 <= k < before.len() ==> after[k] == before[k],
        row.contains_key(core.inputs@[at].id@) && !(row[core.inputs@[at].id@] is Empty)
            ==> after[before.len() + carried(core.inputs@, row, at)] == (
            core.inputs@[at].value_type,
            row[core.inputs@[at].id@],
            None::<Seq<char>>,
        ),
{
    assert(core.input_models().subrange(0, core.inputs@.len() as int) =~= core.input_models());
    lemma_forwarded(core, row, core.inputs@.len() as int, at);
}

proof fn lemma_forwarded(
    core: &NodeCore,
    row: Map<Seq<char>, ValueModel>,
    n: int,
    at: int,
)
    requires
        0 <= at,
        0 <= n <= core.inputs@.len(),
    ensures
        ({
            let list = forwarded(core.input_models().subrange(0, n), row);
            &&& list.len() == carried(core.inputs@, row, n)
            &&& 0 <= carried(core.inputs@, row, n)
            &&& at < n ==> 0 <= carried(core.inputs@, row, at)
            &&& at < n && row.contains_key(core.inputs@[at].id@) && !(
            row[core.inputs@[at].id@] is Empty) ==> carried(core.inputs@, row, at) < list.len()
                && list[carried(core.inputs@, row, at)] == (
                core.inputs@[at].value_type,
                row[core.inputs@[at].id@],
                None::<Seq<char>>,
            )
        }),
    decreases n,
{
    if n > 0 {
        lemma_forwarded(core, row, n - 1, at);
        let longer = core.input_models().subrange(0, n);
        assert(longer.drop_last() =~= core.input_models().subrange(0, n - 1));
        assert(longer.last() == core.inputs@[n - 1]@);
    }
}

/// The output endpoint hands its texture value back out, under the type of
/// its input; nothing where it has no value or no such input.
pub proof fn law_the_output_endpoint_hands_its_value_on(
    core: &NodeCore,
    row: Map<Seq<char>, ValueModel>,
    time: Rational,
    before: Seq<TableEntry>,
    after: Seq<TableEntry>,
    at: int,
)
    requires
        GraphOutputNode.emits(core, row, time, before, after),
    ensures
        !row.contains_key("tex_in"@) || row["tex_in"@] is Empty ==> after == before,
        row.contains_key("tex_in"@) && !(row["tex_in"@] is Empty) && node::is_first_declared(
            core.inputs@,
            at,
            "tex_in"@,
        ) ==> after == before.push(
            (core.inputs@[at].value_type, row["tex_in"@], None::<Seq<char>>),
        ),
        (forall|k: int| 0 <= k < core.inputs@.len() ==> (#[trigger] core.inputs@[k]).id@
            != "tex_in"@) ==> after == before,
{
    assert(core.input_models().skip(0) =~= core.input_models());
    node::lemma_input_found(core, "tex_in"@, 0);
}

} // verus!
