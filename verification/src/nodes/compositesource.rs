//! Composite source: hands a texture that the renderer prepared to the
//! head of an effect chain. The renderer makes and removes such nodes
//! itself, so the type is hidden from menus and not registered.

use vstd::prelude::*;

use crate::input::InputModel;
use crate::node;
use crate::node::{Category, NodeBehavior, NodeCore};
use crate::nodes::effect;
use crate::rational::Rational;
use crate::text;
use crate::value::{NodeValue, NodeValueRow, NodeValueTable, TableEntry, ValueModel, ValueType};

verus! {

/// The type id.
pub const TYPE_ID: &'static str = "org.olivevideoeditor.Olive.composite_source";

/// The prepared texture: the node's effect input.
pub const TEXTURE_INPUT: &'static str = "tex_in";

/// The composite source node.
pub struct CompositeSource;

impl NodeBehavior for CompositeSource {
    open spec fn spec_name(&self) -> Seq<char> {
        "Composite Source"@
    }

    open spec fn spec_type_id(&self) -> Seq<char> {
        TYPE_ID@
    }

    open spec fn emits(
        &self,
        core: &NodeCore,
        row: Map<Seq<char>, ValueModel>,
        time: Rational,
        before: Seq<TableEntry>,
        after: Seq<TableEntry>,
    ) -> bool {
        if row.contains_key(TEXTURE_INPUT@) && !(row[TEXTURE_INPUT@] is Empty) {
            after == before.push(effect::texture_entry(row[TEXTURE_INPUT@]))
        } else {
            after == before
        }
    }

    fn name(&self) -> (r: &str) {
        "Composite Source"
    }

    fn type_id(&self) -> (r: &str) {
        TYPE_ID
    }

    fn categories(&self) -> (r: &[Category])
        ensures
            r@ == seq![Category::Generator],
    {
        &[Category::Generator]
    }

    fn description(&self) -> (r: &str)
        ensures
            r@ == "Supplies a renderer-composed texture to an effect chain."@,
    {
        "Supplies a renderer-composed texture to an effect chain."
    }

    fn input_name<'a>(&self, id: &'a str) -> (r: &'a str)
        ensures
            r@ == (if id@ == TEXTURE_INPUT@ {
                "Texture"@
            } else {
                id@
            }),
    {
        if text::same(id, TEXTURE_INPUT) {
            "Texture"
        } else {
            id
        }
    }

    /// The row's texture, passed on; nothing when none was prepared.
    fn value(
        &self,
        core: &NodeCore,
        inputs: &NodeValueRow,
        time: Rational,
        table: &mut NodeValueTable,
    ) {
        match inputs.get(TEXTURE_INPUT) {
            Some(NodeValue::Empty) => {},
            Some(_) => {
                effect::push_row_texture(table, inputs, TEXTURE_INPUT);
            },
            None => {},
        }
    }

    fn duplicate(&self, core: &NodeCore) -> (r: Option<Self>)
        ensures
            r == Some(CompositeSource),
    {
        Some(CompositeSource)
    }
}

/// The inputs a new node declares after the enabled toggle.
pub open spec fn declared() -> Seq<InputModel> {
    seq![effect::texture_input(TEXTURE_INPUT@)]
}

/// The state of a new node.
pub open spec fn created(core: &NodeCore) -> bool {
    node::fresh_core(
        core,
        declared(),
        TEXTURE_INPUT@,
        node::flags::DONT_SHOW_IN_CREATE_MENU,
    )
}

/// A new node: the texture alone, hidden from menus.
pub fn create() -> (r: (NodeCore, CompositeSource))
    ensures
        created(&r.0),
{
    let mut core = NodeCore::new();
    core.add_input(effect::texture(TEXTURE_INPUT));
    core.flags = node::flags::DONT_SHOW_IN_CREATE_MENU;
    core.effect_input = TEXTURE_INPUT.to_string();
    assert(core.input_models() =~= seq![node::enabled_input()] + declared());
    (core, CompositeSource)
}

/// The composite source hands the value on its texture input on, and puts
/// nothing out where there is none.
pub proof fn law_the_source_is_handed_on(
    core: &NodeCore,
    row: Map<Seq<char>, ValueModel>,
    time: Rational,
    before: Seq<TableEntry>,
    after: Seq<TableEntry>,
)
    requires
        CompositeSource.emits(core, row, time, before, after),
    ensures
        !row.contains_key("tex_in"@) || row["tex_in"@] == ValueModel::Empty ==> after == before,
        row.contains_key("tex_in"@) && row["tex_in"@] != ValueModel::Empty ==> after
            == before.push((ValueType::Texture, row["tex_in"@], None::<Seq<char>>)),
{
}

} // verus!
