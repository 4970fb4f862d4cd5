//! The flip shader and its uniforms.

use vstd::prelude::*;

verus! {

/// Mirror left and right.
pub const HORIZONTAL_INPUT: &'static str = "horiz_in";

/// Mirror top and bottom.
pub const VERTICAL_INPUT: &'static str = "vert_in";

/// Fragment shader: mirror the sample coordinates about the center of the
/// frame.
pub const SHADER_FRAG: &'static str = r#"uniform sampler2D tex_in;

uniform bool horiz_in;
uniform bool vert_in;

in vec2 ove_texcoord;
out vec4 frag_color;

void main(void) {
    vec2 new_coord = ove_texcoord;

    if (horiz_in) new_coord.x = 1.0 - new_coord.x;
    if (vert_in) new_coord.y = 1.0 - new_coord.y;

    frag_color = texture(tex_in, new_coord);
}
"#;

} // verus!
