//! Handing frames and tables to the display.

use oak_node::display::{add_alpha, can_upload, drop_alpha, LutCache, LutStep};
use oak_node::lut::Lut3d;

fn lut(fill: u32) -> Lut3d {
    Lut3d::build(2, [0; 3], [1; 3], |_, _, _| [fill; 3])
}

#[test]
fn tables_are_built_once_for_their_settings() {
    let mut cache = LutCache::new();
    assert_eq!(cache.next_step("a", true), LutStep::Rebuild);
    assert!(cache.known("a").is_none());
    cache.record("a", lut(1), true);
    assert_eq!(cache.next_step("a", true), LutStep::Keep);
    assert_eq!(cache.next_step("a", false), LutStep::Reinstall);
    assert_eq!(cache.next_step("b", true), LutStep::Rebuild);
    assert_eq!(cache.known("a").expect("known").data[0], 1);
    assert!(cache.known("b").is_none());
}

#[test]
fn refused_tables_are_not_remembered() {
    let mut cache = LutCache::new();
    cache.record("a", lut(1), false);
    assert_eq!(cache.next_step("a", true), LutStep::Rebuild);
    cache.record("a", lut(1), true);
    cache.record("b", lut(2), false);
    assert_eq!(cache.known("a").expect("kept").data[0], 1);
    cache.record("b", lut(2), true);
    assert!(cache.known("a").is_none());
}

#[test]
fn uploads_need_four_values_per_pixel() {
    assert!(can_upload(2, 3, 24));
    assert!(!can_upload(2, 3, 23));
    assert!(!can_upload(0, 3, 0));
    assert!(!can_upload(3, 0, 0));
    // The product does not wrap around.
    assert!(!can_upload(0x1_0000, 0x1_0000, 0));
}

#[test]
fn alpha_is_added_and_dropped() {
    assert_eq!(add_alpha(&vec![1, 2, 3, 4, 5, 6], 9), vec![1, 2, 3, 9, 4, 5, 6, 9]);
    assert_eq!(drop_alpha(&vec![1, 2, 3, 9, 4, 5, 6, 9]), vec![1, 2, 3, 4, 5, 6]);
    assert_eq!(drop_alpha(&add_alpha(&vec![7, 8, 9], 0)), vec![7, 8, 9]);
    assert_eq!(drop_alpha(&vec![1, 2, 3]), Vec::<u32>::new());
    assert_eq!(add_alpha(&vec![1, 2, 3, 4], 9), vec![1, 2, 3, 9]);
}
