# oak_node

The node graph of a video editor, verified with Verus: the graph and its
evaluation, the built-in effect and generator nodes, and the rules behind the
text engine, the effect library and the display path.

## Layout

- `src/graph.rs`, `src/reach.rs`, `src/schedule.rs`: the graph, what is
  reachable in it, and the order a sweep visits its nodes in.
- `src/walk.rs`, `src/traverser.rs`, `src/rows.rs`, `src/memo.rs`,
  `src/pass.rs`, `src/calls.rs`, `src/upstream.rs`, `src/endpoints.rs`:
  evaluation, what every evaluation does, which calls of the render hooks it
  makes, and what nodes see of each other.
- `src/node.rs`, `src/input.rs`, `src/value.rs`, `src/handle.rs`,
  `src/jobs.rs`: nodes, their inputs, values and render jobs.
- `src/nodes/`, `src/builtin.rs`, `src/factory.rs`: the built-in node types.
- `src/markup.rs`, `src/placeholder.rs`, `src/textengine.rs`,
  `src/raster.rs`: texts, from markup to pixels.
- `src/effect_library.rs`: the rows of the effect library panel.
- `src/lut.rs`, `src/display.rs`: lookup tables and the display path.
- `src/double.rs`, `src/rational.rs`: numbers. A floating point number is
  held as its bits; the library compares, rounds and converts it, and leaves
  other arithmetic to the host.
- `app/`: the host side, with fonts, the graphics device and stored settings.

Public proof functions whose names start with `law_` state what holds of the
library as a whole.
