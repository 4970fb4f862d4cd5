//! The base of generators that draw over an optional backdrop.

use vstd::prelude::*;

use crate::handle;
use crate::handle::{Boxed, CHandle, HandleModel};
use crate::id;
use crate::id::NodeId;
use crate::jobs::{Job, JobModel, ShaderJobModel, ShaderJobPayload};
use crate::nodes::effect;
use crate::nodes::merge;
use crate::rational::Rational;
use crate::value::{
    NodeValue, NodeValueRow, NodeValueTable, TableEntry, ValueModel, ValueType,
};

verus! {

/// The backdrop texture of a generator: its effect input.
pub const BASE_INPUT: &'static str = "base_in";

/// The shader id of the merge pass.
pub const MERGE_SHADER_ID: &'static str = "mrg";

/// Fragment shader of the merge pass: the blend layer over the base, both
/// premultiplied. A layer that is not bound leaves the other one alone.
pub const MERGE_FRAG: &'static str = r#"uniform sampler2D base_in;
uniform sampler2D blend_in;

uniform bool base_in_enabled;
uniform bool blend_in_enabled;

in vec2 ove_texcoord;
out vec4 frag_color;

void main(void) {
    vec4 base_col = vec4(0.0);
    if (base_in_enabled) {
        base_col = texture(base_in, ove_texcoord);
    }

    if (blend_in_enabled) {
        vec4 blend_col = texture(blend_in, ove_texcoord);
        base_col *= 1.0 - blend_col.a;
        base_col += blend_col;
    }

    frag_color = base_col;
}
"#;

/// The fragment shader of the merge pass.
pub fn merge_shader_frag() -> (r: &'static str)
    ensures
        r@ == MERGE_FRAG@,
{
    MERGE_FRAG
}

/// The pass that draws `blend` over `base`.
pub open spec fn merge_pass(base: ValueModel, blend: ValueModel, time: Rational) -> ShaderJobModel {
    ShaderJobModel {
        node_id: id::invalid_id(),
        time,
        iterations: 1,
        type_id: merge::TYPE_ID@,
        shader_id: MERGE_SHADER_ID@,
        effect_input: BASE_INPUT@,
        params: Map::<Seq<char>, ValueModel>::empty().insert(merge::BASE_INPUT@, base).insert(
            merge::BLEND_INPUT@,
            blend,
        ),
        iterative_input: Seq::empty(),
    }
}

/// What a generator puts out: its job alone, or over the backdrop when
/// the row has one. The merge is boxed the way the job is.
pub open spec fn mergable_entry(
    row: Map<Seq<char>, ValueModel>,
    job: HandleModel,
    time: Rational,
) -> TableEntry {
    if effect::has_texture(row, BASE_INPUT@) {
        let pass = merge_pass(row[BASE_INPUT@], ValueModel::Texture(job), time);
        if job is Shader {
            effect::shader_entry(pass)
        } else {
            effect::job_entry(pass)
        }
    } else {
        effect::texture_entry(ValueModel::Texture(job))
    }
}

/// The generator base.
pub struct GeneratorWithMerge;

impl GeneratorWithMerge {
    /// Put out a generator's job: alone, or drawn over the backdrop when
    /// the row has one.
    pub fn push_mergable_job(
        inputs: &NodeValueRow,
        job: CHandle,
        time: Rational,
        table: &mut NodeValueTable,
    )
        ensures
            final(table)@ == old(table)@.push(mergable_entry(inputs@, job@, time)),
    {
        match inputs.get(BASE_INPUT) {
            Some(base) => match base {
                NodeValue::Texture(_) => {
                    let bare: bool = handle::boxed_shader(&job).is_some();
                    let mut params: NodeValueRow = NodeValueRow::new();
                    params.insert(merge::BASE_INPUT.to_string(), base.clone());
                    params.insert(merge::BLEND_INPUT.to_string(), NodeValue::Texture(job));
                    let payload = ShaderJobPayload {
                        node_id: NodeId::invalid(),
                        time,
                        iterations: 1,
                        type_id: merge::TYPE_ID.to_string(),
                        shader_id: MERGE_SHADER_ID.to_string(),
                        effect_input: BASE_INPUT.to_string(),
                        params,
                        iterative_input: String::new(),
                    };
                    if bare {
                        effect::push_shader(table, payload);
                    } else {
                        effect::push_shader_job(table, payload);
                    }
                },
                _ => {
                    table.push(ValueType::Texture, NodeValue::Texture(job), None);
                },
            },
            None => {
                table.push(ValueType::Texture, NodeValue::Texture(job), None);
            },
        }
    }
}

} // verus!
