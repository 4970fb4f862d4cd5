//! What the built-in nodes share: how they read their parameters and how
//! they put out their jobs.

use vstd::prelude::*;

use crate::double;
use crate::double::Double;
use crate::handle;
use crate::handle::{Boxed, HandleModel};
use crate::id;
use crate::id::NodeId;
use crate::input;
use crate::input::{Input, InputModel};
use crate::jobs::{Job, JobModel, ShaderJobModel, ShaderJobPayload};
use crate::node::NodeCore;
use crate::rational::Rational;
use crate::text;
use crate::value::{
    Color, NodeValue, NodeValueRow, NodeValueTable, TableEntry, ValueModel, ValueType, Vec2,
};

verus! {

/// The value of a parameter: the row's where the row has one, else the
/// node's own at `time`.
pub open spec fn resolved(
    core: &NodeCore,
    row: Map<Seq<char>, ValueModel>,
    id: Seq<char>,
    time: Rational,
) -> ValueModel {
    if row.contains_key(id) {
        row[id]
    } else {
        core.value_at(id, -1i32, time)
    }
}

/// Whether the row carries a texture on `id`.
pub open spec fn has_texture(row: Map<Seq<char>, ValueModel>, id: Seq<char>) -> bool {
    row.contains_key(id) && row[id] is Texture
}

/// One shader pass of a node over `params`.
pub open spec fn shader_pass(
    type_id: Seq<char>,
    shader_id: Seq<char>,
    core: &NodeCore,
    time: Rational,
    params: Map<Seq<char>, ValueModel>,
    iterative_input: Seq<char>,
) -> ShaderJobModel {
    ShaderJobModel {
        node_id: id::invalid_id(),
        time,
        iterations: 1,
        type_id,
        shader_id,
        effect_input: core.effect_input@,
        params,
        iterative_input,
    }
}

/// A table entry with a texture value.
pub open spec fn texture_entry(value: ValueModel) -> TableEntry {
    (ValueType::Texture, value, None)
}

/// A table entry with a shader pass boxed by itself.
pub open spec fn shader_entry(pass: ShaderJobModel) -> TableEntry {
    texture_entry(ValueModel::Texture(HandleModel::Shader(pass)))
}

/// A table entry with a shader pass boxed as a job.
pub open spec fn job_entry(pass: ShaderJobModel) -> TableEntry {
    texture_entry(ValueModel::Texture(HandleModel::Job(JobModel::Shader(pass))))
}

/// What a node over two textures puts out: the job when the row has both,
/// the one it has when it has one, and nothing when it has none.
pub open spec fn pair_entries(
    row: Map<Seq<char>, ValueModel>,
    first: Seq<char>,
    second: Seq<char>,
    job: TableEntry,
) -> Seq<TableEntry> {
    if has_texture(row, first) && has_texture(row, second) {
        seq![job]
    } else if has_texture(row, first) {
        seq![texture_entry(row[first])]
    } else if has_texture(row, second) {
        seq![texture_entry(row[second])]
    } else {
        Seq::empty()
    }
}

/// A texture input that cannot be keyframed.
pub open spec fn texture_input(id: Seq<char>) -> InputModel {
    input::plain_input(id, ValueType::Texture, ValueModel::Empty).flagged(
        input::flags::NOT_KEYFRAMABLE,
    )
}

/// A float input.
pub open spec fn float_input(id: Seq<char>, default: u64) -> InputModel {
    input::plain_input(id, ValueType::Float, ValueModel::Float(Double { bits: default }))
}

/// A float input with a lower bound.
pub open spec fn bounded_input(id: Seq<char>, default: u64, min: u64) -> InputModel {
    float_input(id, default).described(
        seq![("min"@, ValueModel::Float(Double { bits: min }))],
    )
}

/// A toggle.
pub open spec fn toggle_input(id: Seq<char>, default: bool) -> InputModel {
    input::plain_input(id, ValueType::Boolean, ValueModel::Boolean(default))
}

/// A float input with a range and a display style.
pub open spec fn ranged_input(
    id: Seq<char>,
    default: u64,
    min: u64,
    max: u64,
    view: Seq<char>,
) -> InputModel {
    float_input(id, default).described(
        seq![
            ("min"@, ValueModel::Float(Double { bits: min })),
            ("max"@, ValueModel::Float(Double { bits: max })),
            ("view"@, ValueModel::Text(view)),
        ],
    )
}

/// The property that lists the labels of a combo input, comma separated.
pub open spec fn combo_property(names: Seq<&'static str>) -> (Seq<char>, ValueModel) {
    (
        "combobox_strings"@,
        ValueModel::Binary(vstd::utf8::encode_utf8(text::joined(text::texts_of(names), ','))),
    )
}

/// A combo input that can neither be connected nor be keyframed, with its
/// labels.
pub open spec fn labeled_combo_input(id: Seq<char>, names: Seq<&'static str>) -> InputModel {
    input::plain_input(id, ValueType::Combo, ValueModel::Combo(0)).flagged(
        input::flags::NOT_CONNECTABLE | input::flags::NOT_KEYFRAMABLE,
    ).described(seq![combo_property(names)])
}

/// A color input.
pub open spec fn color_input(id: Seq<char>, r: u64, g: u64, b: u64) -> InputModel {
    input::plain_input(
        id,
        ValueType::Color,
        ValueModel::Color(
            Color {
                r: Double { bits: r },
                g: Double { bits: g },
                b: Double { bits: b },
                a: Double { bits: double::ONE },
            },
        ),
    )
}

/// A color input with a color control.
pub open spec fn picked_color_input(id: Seq<char>, r: u64, g: u64, b: u64) -> InputModel {
    color_input(id, r, g, b).described(seq![("view"@, ValueModel::Text("color"@))])
}

/// A point input.
pub open spec fn point_input(id: Seq<char>, x: u64, y: u64) -> InputModel {
    input::plain_input(
        id,
        ValueType::Vec2,
        ValueModel::Vec2(Vec2 { x: Double { bits: x }, y: Double { bits: y } }),
    )
}

/// A point input whose coordinates are not negative.
pub open spec fn extent_input(id: Seq<char>, x: u64, y: u64) -> InputModel {
    point_input(id, x, y).described(
        seq![
            (
                "min"@,
                ValueModel::Vec2(
                    Vec2 { x: Double { bits: double::ZERO }, y: Double { bits: double::ZERO } },
                ),
            ),
        ],
    )
}

/// The value of a parameter: the row's where the row has one, else the
/// node's own at `time`.
pub fn resolve(core: &NodeCore, inputs: &NodeValueRow, id: &str, time: Rational) -> (r: NodeValue)
    ensures
        r@ == resolved(core, inputs@, id@, time),
{
    match inputs.get(id) {
        Some(v) => v.clone(),
        None => core.value_at_time(id, -1, time),
    }
}

/// Whether the row carries a texture on `id`.
pub fn is_texture(inputs: &NodeValueRow, id: &str) -> (r: bool)
    ensures
        r == has_texture(inputs@, id@),
{
    match inputs.get(id) {
        Some(NodeValue::Texture(_)) => true,
        _ => false,
    }
}

/// One shader pass of a node over `params`.
pub fn shader_payload(
    type_id: &str,
    shader_id: &str,
    core: &NodeCore,
    time: Rational,
    params: NodeValueRow,
    iterative_input: &str,
) -> (r: ShaderJobPayload)
    ensures
        r@ == shader_pass(type_id@, shader_id@, core, time, params@, iterative_input@),
{
    ShaderJobPayload {
        node_id: NodeId::invalid(),
        time,
        iterations: 1,
        type_id: type_id.to_string(),
        shader_id: shader_id.to_string(),
        effect_input: core.effect_input.clone(),
        params,
        iterative_input: iterative_input.to_string(),
    }
}

/// Put out a shader pass boxed by itself.
pub fn push_shader(table: &mut NodeValueTable, payload: ShaderJobPayload)
    ensures
        final(table)@ == old(table)@.push(shader_entry(payload@)),
{
    table.push(
        ValueType::Texture,
        NodeValue::Texture(handle::make_owned(Boxed::Shader(payload))),
        None,
    );
}

/// Put out a shader pass boxed as a job.
pub fn push_shader_job(table: &mut NodeValueTable, payload: ShaderJobPayload)
    ensures
        final(table)@ == old(table)@.push(job_entry(payload@)),
{
    table.push(
        ValueType::Texture,
        NodeValue::Texture(handle::make_owned(Boxed::Job(Job::ShaderJob(payload)))),
        None,
    );
}

/// Put out the row's value of `id` as a texture.
pub fn push_row_texture(table: &mut NodeValueTable, inputs: &NodeValueRow, id: &str)
    requires
        inputs@.contains_key(id@),
    ensures
        final(table)@ == old(table)@.push(texture_entry(inputs@[id@])),
{
    match inputs.get(id) {
        Some(v) => {
            table.push(ValueType::Texture, v.clone(), None);
        },
        None => {},
    }
}

/// Put out the one texture that the row has, where it does not have both.
pub fn push_single(table: &mut NodeValueTable, inputs: &NodeValueRow, first: &str, second: &str)
    requires
        !(has_texture(inputs@, first@) && has_texture(inputs@, second@)),
    ensures
        forall|job: TableEntry|
            final(table)@ == old(table)@ + #[trigger] pair_entries(inputs@, first@, second@, job),
{
    if is_texture(inputs, first) {
        push_row_texture(table, inputs, first);
        assert(table@ =~= old(table)@ + seq![texture_entry(inputs@[first@])]);
    } else if is_texture(inputs, second) {
        push_row_texture(table, inputs, second);
        assert(table@ =~= old(table)@ + seq![texture_entry(inputs@[second@])]);
    } else {
        assert(table@ =~= old(table)@ + Seq::empty());
    }
}

/// Declare a texture input that cannot be keyframed.
pub fn texture(id: &str) -> (r: Input)
    ensures
        r@ == texture_input(id@),
{
    Input::new(id, ValueType::Texture, NodeValue::Empty).with_flags(input::flags::NOT_KEYFRAMABLE)
}

/// Declare a float input.
pub fn float(id: &str, default: u64) -> (r: Input)
    ensures
        r@ == float_input(id@, default),
{
    Input::new(id, ValueType::Float, NodeValue::Float(Double { bits: default }))
}

/// Declare a float input with a lower bound.
pub fn bounded(id: &str, default: u64, min: u64) -> (r: Input)
    ensures
        r@ == bounded_input(id@, default, min),
{
    let r = float(id, default).with_property("min", NodeValue::Float(Double { bits: min }));
    assert(r@.properties =~= bounded_input(id@, default, min).properties);
    r
}

/// Declare a toggle.
pub fn toggle(id: &str, default: bool) -> (r: Input)
    ensures
        r@ == toggle_input(id@, default),
{
    Input::new(id, ValueType::Boolean, NodeValue::Boolean(default))
}

/// Declare a float input with a range and a display style.
pub fn ranged(id: &str, default: u64, min: u64, max: u64, view: &str) -> (r: Input)
    ensures
        r@ == ranged_input(id@, default, min, max, view@),
{
    let r = float(id, default).with_property(
        "min",
        NodeValue::Float(Double { bits: min }),
    ).with_property("max", NodeValue::Float(Double { bits: max })).with_property(
        "view",
        NodeValue::Text(view.to_string()),
    );
    assert(r@.properties =~= ranged_input(id@, default, min, max, view@).properties);
    r
}

/// Declare a combo input that can neither be connected nor be keyframed,
/// with its labels.
pub fn labeled_combo(id: &str, names: &[&'static str]) -> (r: Input)
    ensures
        r@ == labeled_combo_input(id@, names@),
{
    let list: String = text::join(names, ',');
    let r = Input::new(id, ValueType::Combo, NodeValue::Combo(0)).with_flags(
        input::flags::NOT_CONNECTABLE | input::flags::NOT_KEYFRAMABLE,
    ).with_property(
        "combobox_strings",
        NodeValue::Binary(vstd::slice::slice_to_vec(list.as_str().as_bytes())),
    );
    assert(r@.properties =~= seq![combo_property(names@)]);
    r
}

/// Declare a color input.
pub fn color(id: &str, r: u64, g: u64, b: u64) -> (declared: Input)
    ensures
        declared@ == color_input(id@, r, g, b),
{
    Input::new(
        id,
        ValueType::Color,
        NodeValue::Color(
            Color {
                r: Double { bits: r },
                g: Double { bits: g },
                b: Double { bits: b },
                a: Double { bits: double::ONE },
            },
        ),
    )
}

/// Declare a color input with a color control.
pub fn picked_color(id: &str, r: u64, g: u64, b: u64) -> (declared: Input)
    ensures
        declared@ == picked_color_input(id@, r, g, b),
{
    let declared = color(id, r, g, b).with_property("view", NodeValue::Text("color".to_string()));
    assert(declared@.properties =~= picked_color_input(id@, r, g, b).properties);
    declared
}

/// Declare a point input.
pub fn point(id: &str, x: u64, y: u64) -> (r: Input)
    ensures
        r@ == point_input(id@, x, y),
{
    Input::new(
        id,
        ValueType::Vec2,
        NodeValue::Vec2(Vec2 { x: Double { bits: x }, y: Double { bits: y } }),
    )
}

/// Declare a point input whose coordinates are not negative.
pub fn extent(id: &str, x: u64, y: u64) -> (r: Input)
    ensures
        r@ == extent_input(id@, x, y),
{
    let r = point(id, x, y).with_property(
        "min",
        NodeValue::Vec2(
            Vec2 { x: Double { bits: double::ZERO }, y: Double { bits: double::ZERO } },
        ),
    );
    assert(r@.properties =~= extent_input(id@, x, y).properties);
    r
}

} // verus!
