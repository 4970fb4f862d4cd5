//! Three-dimensional lookup tables.

use oak_node::lut::{Lut3d, DISPLAY_EDGE, DISPLAY_HI, DISPLAY_LO};

/// The table of `f` over the cube between `lo` and `hi`.
fn table(edge: u32, lo: f32, hi: f32, f: impl Fn([f32; 3]) -> [f32; 3]) -> Lut3d {
    let last = (edge.max(2) - 1) as f32;
    let step = |i: u32| lo + (hi - lo) * (i as f32 / last);
    Lut3d::build(edge, [lo.to_bits(); 3], [hi.to_bits(); 3], |r, g, b| {
        f([step(r), step(g), step(b)]).map(f32::to_bits)
    })
}

#[test]
fn built_tables_cover_the_corners() {
    let lut = table(2, -1.0, 2.0, |c| [c[0] * 2.0, c[1], c[2]]);
    assert_eq!(lut.sample(0, 0, 0).map(f32::from_bits), [-2.0, -1.0, -1.0]);
    assert_eq!(lut.sample(1, 1, 1).map(f32::from_bits), [4.0, 2.0, 2.0]);
    assert_eq!(lut.sample(1, 0, 1).map(f32::from_bits), [4.0, -1.0, 2.0]);
    assert_eq!(lut.domain(), ([(-1.0f32).to_bits(); 3], [2.0f32.to_bits(); 3]));
}

#[test]
fn red_varies_fastest() {
    let lut = Lut3d::build(3, [0; 3], [1; 3], |r, g, b| [r, g, b]);
    assert_eq!(lut.data.len(), 81);
    assert_eq!(lut.data[..9], [0, 0, 0, 1, 0, 0, 2, 0, 0]);
    assert_eq!(lut.index(0, 1, 0), 9);
    assert_eq!(lut.index(0, 0, 1), 27);
    assert_eq!(lut.index(2, 2, 2), 78);
    assert_eq!(lut.sample(2, 0, 1), [2, 0, 1]);
}

#[test]
fn samples_have_their_own_places() {
    let lut = Lut3d::build(4, [0; 3], [1; 3], |_, _, _| [0; 3]);
    let mut places = Vec::new();
    for b in 0..4 {
        for g in 0..4 {
            for r in 0..4 {
                places.push(lut.index(r, g, b));
            }
        }
    }
    assert_eq!(places, (0..64).map(|k| k * 3).collect::<Vec<usize>>());
}

#[test]
fn edges_below_two_are_two() {
    assert_eq!(Lut3d::build(0, [0; 3], [0; 3], |r, g, b| [r, g, b]).edge, 2);
    assert_eq!(Lut3d::build(1, [0; 3], [0; 3], |r, g, b| [r, g, b]).data.len(), 24);
}

#[test]
fn neighbors_stop_at_the_edge() {
    let lut = Lut3d::build(3, [0; 3], [0; 3], |r, g, b| [r, g, b]);
    assert_eq!(lut.neighbor(0), 1);
    assert_eq!(lut.neighbor(1), 2);
    assert_eq!(lut.neighbor(2), 2);
}

#[test]
fn the_display_table_reaches_into_negative_and_bright_values() {
    assert_eq!(DISPLAY_EDGE, 65);
    assert_eq!(DISPLAY_LO.map(f32::from_bits), [-0.25; 3]);
    assert_eq!(DISPLAY_HI.map(f32::from_bits), [4.0; 3]);
}

#[test]
fn cells_have_eight_corners() {
    let lut = Lut3d::build(3, [0; 3], [1; 3], |r, g, b| [r, g, b]);
    assert_eq!(
        lut.corners(0, 1, 1),
        [
            [0, 1, 1],
            [1, 1, 1],
            [0, 2, 1],
            [1, 2, 1],
            [0, 1, 2],
            [1, 1, 2],
            [0, 2, 2],
            [1, 2, 2],
        ]
    );
    assert_eq!(lut.corners(2, 2, 2), [[2, 2, 2]; 8]);
}
