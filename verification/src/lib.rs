//! The evaluation core of a node-based video editor: node values, the
//! node graph and its traversal, the built-in effect nodes, and the
//! text and panel logic around them.

pub mod text;
pub mod words;
pub mod textset;
pub mod double;
pub mod error;
pub mod id;
pub mod rational;
pub mod handle;
pub mod jobs;
pub mod value;
pub mod input;
pub mod node;
pub mod builtin;
pub mod factory;
pub mod nodes;
pub mod graph;
pub mod reach;
pub mod markup;
pub mod memo;
pub mod placeholder;
pub mod rows;
pub mod schedule;
pub mod pass;
pub mod calls;
pub mod walk;
pub mod traverser;
pub mod upstream;
pub mod endpoints;
pub mod effect_library;
pub mod textengine;
pub mod raster;
pub mod lut;
pub mod display;
