use string_art::{CoverageMap, COVERAGE_CAP};

#[test]
fn counts_start_at_zero() {
    let map = CoverageMap::new(20, 10, 1000, 2);
    assert_eq!(map.width(), 20);
    assert_eq!(map.height(), 10);
    assert_eq!(map.count_at(0, 0), 0);
    assert_eq!(map.count_at(19, 9), 0);
}

#[test]
fn counts_saturate_at_the_cap() {
    let mut map = CoverageMap::new(10, 10, 1000, 2);
    let pixels = vec![(5, 5)];
    for _ in 0..15 {
        map.add_chord(&pixels);
    }
    assert_eq!(map.count_at(5, 5), COVERAGE_CAP);
    assert_eq!(COVERAGE_CAP, 10);
}

#[test]
fn counts_floor_at_zero() {
    let mut map = CoverageMap::new(10, 10, 1000, 2);
    map.add_chord(&vec![(4, 4), (4, 4)]);
    assert_eq!(map.count_at(4, 4), 2);
    map.remove_chord(&vec![(4, 4), (4, 4), (4, 4)]);
    assert_eq!(map.count_at(4, 4), 0);
}

#[test]
fn pixels_off_the_image_are_ignored() {
    let mut map = CoverageMap::new(10, 10, 1000, 2);
    map.add_chord(&vec![(-1, 3), (10, 3), (3, 10), (3, -2), (2, 3)]);
    assert_eq!(map.count_at(-1, 3), 0);
    assert_eq!(map.count_at(10, 3), 0);
    assert_eq!(map.count_at(2, 3), 1);
    map.remove_chord(&vec![(-1, 3)]);
    assert_eq!(map.count_at(2, 3), 1);
}

#[test]
fn only_pixels_within_the_score_radius_count() {
    // 100 by 100: centre (50, 50), half the smaller side 50, radius 0.5 -> 25 pixels.
    let mut map = CoverageMap::new(100, 100, 500, 2);
    map.add_chord(&vec![(50, 50), (75, 50), (76, 50), (50, 26), (68, 68)]);
    assert_eq!(map.count_at(50, 50), 1);
    assert_eq!(map.count_at(75, 50), 1);
    assert_eq!(map.count_at(76, 50), 0);
    assert_eq!(map.count_at(50, 26), 1);
    assert_eq!(map.count_at(68, 68), 0);
}

#[test]
fn contested_pixels_sit_exactly_at_the_level() {
    let mut map = CoverageMap::new(10, 10, 1000, 2);
    map.add_chord(&vec![(1, 1), (2, 2), (2, 2), (3, 3), (3, 3), (3, 3)]);
    assert!(!map.is_contested(1, 1));
    assert!(map.is_contested(2, 2));
    assert!(!map.is_contested(3, 3));
    assert!(!map.is_contested(0, 0));
}

#[test]
fn shading_marks_the_contested_level() {
    let mut map = CoverageMap::new(10, 10, 1000, 2);
    map.add_chord(&vec![(1, 1), (2, 2), (2, 2), (3, 3), (3, 3), (3, 3)]);
    assert_eq!(map.shade_at(0, 0), (0, 0, 0));
    assert_eq!(map.shade_at(1, 1), (0, 0, 0));
    assert_eq!(map.shade_at(2, 2), (255, 0, 0));
    assert_eq!(map.shade_at(3, 3), (255, 255, 255));
}
