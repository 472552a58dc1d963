use std::cell::Cell;
use string_art::{ComboCache, StringCombo};

fn ring_distance(n: usize, x: usize, y: usize) -> usize {
    let d = if x > y { x - y } else { y - x };
    d.min(n - d)
}

#[test]
fn short_pairs_are_banned_at_start() {
    let cache = ComboCache::new(6, 2, 2);
    for x in 0..6 {
        for y in 0..6 {
            for c in 0..2 {
                let expected = if ring_distance(6, x, y) <= 2 {
                    StringCombo::Banned
                } else {
                    StringCombo::Allowed(None)
                };
                assert_eq!(cache.state_at(x, y, c), expected, "pair {x}-{y}");
            }
        }
    }
    assert_eq!(cache.state_at(0, 3, 0), StringCombo::Allowed(None));
    assert_eq!(cache.state_at(1, 4, 1), StringCombo::Allowed(None));
    assert_eq!(cache.state_at(0, 2, 0), StringCombo::Banned);
    assert_eq!(cache.state_at(4, 4, 0), StringCombo::Banned);
}

#[test]
fn live_chords_are_listed_once_in_order() {
    let cache = ComboCache::new(6, 1, 2);
    assert_eq!(cache.live_chords(), vec![(3, 0), (4, 1), (5, 2)]);
    assert!(cache.is_live(0, 3));
    assert!(!cache.is_live(0, 2));
}

#[test]
fn a_score_is_cached_once_found() {
    let mut cache = ComboCache::new(8, 1, 2);
    let calls = Cell::new(0u32);
    let scorer = |a: usize, b: usize, _c: usize| {
        calls.set(calls.get() + 1);
        assert!(a > b);
        Some(250_000)
    };
    assert_eq!(cache.calculate_current_score(0, 1, 5, &scorer), Some(250_000));
    assert_eq!(cache.calculate_current_score(0, 5, 1, &scorer), Some(250_000));
    assert_eq!(calls.get(), 1);
    assert_eq!(cache.state_at(1, 5, 0), StringCombo::Allowed(Some(250_000)));
}

#[test]
fn a_missing_score_is_not_cached() {
    let mut cache = ComboCache::new(8, 1, 2);
    let calls = Cell::new(0u32);
    let scorer = |_a: usize, _b: usize, _c: usize| {
        calls.set(calls.get() + 1);
        None
    };
    assert_eq!(cache.calculate_current_score(0, 0, 4, &scorer), None);
    assert_eq!(cache.calculate_current_score(0, 0, 4, &scorer), None);
    assert_eq!(calls.get(), 2);
    assert_eq!(cache.state_at(0, 4, 0), StringCombo::Allowed(None));
}

#[test]
fn banned_chords_have_no_score() {
    let mut cache = ComboCache::new(8, 1, 2);
    let scorer = |_a: usize, _b: usize, _c: usize| -> Option<i64> { panic!("a banned chord is never scored") };
    assert_eq!(cache.calculate_current_score(0, 0, 1, &scorer), None);
}

#[test]
fn filling_consumes_the_chord_for_other_colors() {
    let mut cache = ComboCache::new(8, 3, 2);
    cache.set_combo_to_filled(0, 4, 1);
    assert_eq!(cache.state_at(4, 0, 1), StringCombo::Filled);
    assert_eq!(cache.state_at(4, 0, 0), StringCombo::Banned);
    assert_eq!(cache.state_at(4, 0, 2), StringCombo::Banned);
    assert_eq!(cache.state_at(1, 5, 1), StringCombo::Allowed(None));
}

#[test]
fn crossing_chord_loses_its_score_and_others_keep_theirs() {
    let mut cache = ComboCache::new(10, 1, 2);
    let scorer = |a: usize, b: usize, _c: usize| Some((a * 10 + b) as i64);
    // {2, 7} crosses {0, 5} at a proper point; {6, 9} does not meet it.
    assert_eq!(cache.calculate_current_score(0, 2, 7, &scorer), Some(72));
    assert_eq!(cache.calculate_current_score(0, 6, 9, &scorer), Some(96));
    assert_eq!(cache.calculate_current_score(0, 0, 5, &scorer), Some(50));
    cache.set_combo_to_filled(0, 5, 0);
    cache.unscore_intersected(0, 5);
    assert_eq!(cache.state_at(2, 7, 0), StringCombo::Allowed(None));
    assert_eq!(cache.state_at(6, 9, 0), StringCombo::Allowed(Some(96)));
    assert_eq!(cache.state_at(0, 5, 0), StringCombo::Filled);
    let rescored = |_a: usize, _b: usize, _c: usize| Some(11);
    assert_eq!(cache.calculate_current_score(0, 2, 7, &rescored), Some(11));
}

#[test]
fn chords_sharing_a_peg_keep_their_score() {
    let mut cache = ComboCache::new(10, 1, 2);
    let scorer = |_a: usize, _b: usize, _c: usize| Some(5);
    cache.calculate_current_score(0, 5, 9, &scorer);
    cache.set_combo_to_filled(0, 5, 0);
    cache.unscore_intersected(0, 5);
    assert_eq!(cache.state_at(5, 9, 0), StringCombo::Allowed(Some(5)));
}
