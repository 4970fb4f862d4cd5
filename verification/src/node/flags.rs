//! Flag bits of a node.

use vstd::prelude::*;

verus! {

/// The node is not offered in create menus.
pub const DONT_SHOW_IN_CREATE_MENU: u32 = 1;

/// The node is a video effect.
pub const VIDEO_EFFECT: u32 = 2;

/// The node is an audio effect.
pub const AUDIO_EFFECT: u32 = 4;

/// The node is a project item.
pub const IS_ITEM: u32 = 8;

} // verus!
