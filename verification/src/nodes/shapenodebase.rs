//! The base of nodes that draw inside a rectangle.

use vstd::prelude::*;

use crate::text;

verus! {

/// The center of the rectangle, from the center of the frame.
pub const POSITION_INPUT: &'static str = "pos_in";

/// The size of the rectangle.
pub const SIZE_INPUT: &'static str = "size_in";

/// The color of the shape.
pub const COLOR_INPUT: &'static str = "color_in";

/// The shape base.
pub struct ShapeNodeBase;

/// The human-readable name of a shape input; any other id is its own
/// name.
pub open spec fn shape_input_name(id: Seq<char>) -> Seq<char> {
    if id == POSITION_INPUT@ {
        "Position"@
    } else if id == SIZE_INPUT@ {
        "Size"@
    } else if id == COLOR_INPUT@ {
        "Color"@
    } else {
        id
    }
}

impl ShapeNodeBase {
    /// The human-readable name of a shape input; any other id is its own
    /// name.
    pub fn input_name<'a>(id: &'a str) -> (r: &'a str)
        ensures
            r@ == shape_input_name(id@),
    {
        if text::same(id, POSITION_INPUT) {
            "Position"
        } else if text::same(id, SIZE_INPUT) {
            "Size"
        } else if text::same(id, COLOR_INPUT) {
            "Color"
        } else {
            id
        }
    }
}

} // verus!
