use string_art::engine::check_scoring_fractions;
use string_art::{ConfigError, PathStep, StringCombo, StringPath, MISS_SCORE};

fn flat_scorer(_a: usize, _b: usize, _c: usize) -> Option<i64> {
    Some(500_000)
}

#[test]
fn configuration_errors() {
    assert_eq!(StringPath::new(2, (100, 100), 900, 1, 5, 2).err(), Some(ConfigError::TooFewPegs));
    assert_eq!(StringPath::new(10, (100, 100), 900, 0, 5, 2).err(), Some(ConfigError::NoColors));
    assert_eq!(StringPath::new(10, (100, 100), 900, 1, 0, 2).err(), Some(ConfigError::ZeroPathLength));
    assert_eq!(StringPath::new(10, (100, 100), 0, 1, 5, 2).err(), Some(ConfigError::RadiusOutOfRange));
    assert_eq!(StringPath::new(10, (100, 100), 1000, 1, 5, 2).err(), Some(ConfigError::RadiusOutOfRange));
    assert!(StringPath::new(3, (100, 100), 999, 1, 1, 0).is_ok());
}

#[test]
fn fresh_engine_starts_at_peg_zero() {
    let sp = StringPath::new(10, (100, 100), 900, 3, 5, 2).unwrap();
    assert_eq!(sp.cur_idxs(), &vec![0, 0, 0]);
    assert_eq!(sp.cur_scores(), &vec![None, None, None]);
    assert_eq!(sp.cur_step(), 0);
    assert!(sp.path().is_empty());
    assert_eq!(sp.color_count(), 3);
    assert_eq!(sp.pegs().len(), 10);
}

#[test]
fn engine_stops_after_path_length_steps() {
    let mut sp = StringPath::new(10, (100, 100), 900, 1, 5, 2).unwrap();
    let mut steps = 0;
    while sp.step(&flat_scorer) {
        steps += 1;
        assert!(steps <= 5);
    }
    assert_eq!(steps, 5);
    assert_eq!(sp.cur_step(), 5);
    assert_eq!(sp.path().len(), 5);
    assert!(!sp.step(&flat_scorer));
    assert_eq!(sp.path().len(), 5);
}

#[test]
fn unscorable_color_takes_miss_steps() {
    let mut sp = StringPath::new(10, (100, 100), 900, 1, 3, 2).unwrap();
    let scorer = |_a: usize, _b: usize, _c: usize| -> Option<i64> { None };
    while sp.step(&scorer) {}
    let expected = vec![
        PathStep { from_idx: 0, to_idx: 1, color_idx: 0, score: MISS_SCORE },
        PathStep { from_idx: 1, to_idx: 2, color_idx: 0, score: MISS_SCORE },
        PathStep { from_idx: 2, to_idx: 3, color_idx: 0, score: MISS_SCORE },
    ];
    assert_eq!(sp.path(), &expected);
    assert_eq!(sp.cur_idxs(), &vec![3]);
    assert_eq!(sp.last_drawn(), None);
}

#[test]
fn best_destination_has_the_highest_score() {
    let mut sp = StringPath::new(10, (100, 100), 900, 1, 5, 2).unwrap();
    // From peg 0 the allowed destinations are 3 ..= 7.
    let scorer = |a: usize, b: usize, _c: usize| Some(if a == 6 && b == 0 { 900_000 } else { 100_000 });
    let props = sp.get_best_steps(&scorer);
    assert_eq!(props, vec![Some(PathStep { from_idx: 0, to_idx: 6, color_idx: 0, score: 900_000 })]);
}

#[test]
fn ties_go_to_the_first_destination() {
    let mut sp = StringPath::new(10, (100, 100), 900, 1, 5, 2).unwrap();
    let props = sp.get_best_steps(&flat_scorer);
    assert_eq!(props, vec![Some(PathStep { from_idx: 0, to_idx: 3, color_idx: 0, score: 500_000 })]);
}

#[test]
fn a_chord_goes_only_to_its_best_color() {
    let mut sp = StringPath::new(10, (100, 100), 900, 2, 5, 2).unwrap();
    // Color 1 beats color 0 on every chord, so color 0 has no candidate.
    let scorer = |_a: usize, _b: usize, c: usize| Some(if c == 1 { 300_000 } else { 200_000 });
    let props = sp.get_best_steps(&scorer);
    assert_eq!(props[0], None);
    assert_eq!(props[1], Some(PathStep { from_idx: 0, to_idx: 3, color_idx: 1, score: 300_000 }));
}

#[test]
fn equal_colors_go_to_the_first_color() {
    let mut sp = StringPath::new(10, (100, 100), 900, 2, 5, 2).unwrap();
    let props = sp.get_best_steps(&flat_scorer);
    assert_eq!(props[0], Some(PathStep { from_idx: 0, to_idx: 3, color_idx: 0, score: 500_000 }));
    assert_eq!(props[1], None);
}

#[test]
fn a_round_draws_the_chosen_color_and_misses_the_rest() {
    let mut sp = StringPath::new(10, (100, 100), 900, 2, 5, 2).unwrap();
    let scorer = |_a: usize, _b: usize, c: usize| Some(if c == 1 { 300_000 } else { 200_000 });
    let props = sp.get_best_steps(&scorer);
    sp.commit_round(&props, Some(1));
    let drawn = PathStep { from_idx: 0, to_idx: 3, color_idx: 1, score: 300_000 };
    assert_eq!(
        sp.path(),
        &vec![PathStep { from_idx: 0, to_idx: 1, color_idx: 0, score: MISS_SCORE }, drawn]
    );
    assert_eq!(sp.cur_idxs(), &vec![1, 3]);
    assert_eq!(sp.cur_scores(), &vec![None, Some(300_000)]);
    assert_eq!(sp.last_drawn(), Some(drawn));
    assert_eq!(sp.cur_step(), 1);
    let cache = sp.combo_scores();
    assert_eq!(cache.state_at(0, 3, 1), StringCombo::Filled);
    assert_eq!(cache.state_at(0, 3, 0), StringCombo::Banned);
    // {0, 6} shares a peg with {0, 3}: its score stays.
    assert_eq!(cache.state_at(0, 6, 1), StringCombo::Allowed(Some(300_000)));
    assert_eq!(cache.state_at(1, 5, 0), StringCombo::Allowed(None));
}

#[test]
fn the_only_positive_color_is_always_drawn() {
    let mut sp = StringPath::new(12, (100, 100), 900, 3, 4, 2).unwrap();
    let scorer = |_a: usize, _b: usize, c: usize| Some(if c == 2 { 400_000 } else { -200_000 });
    assert!(sp.step(&scorer));
    let drawn = sp.last_drawn().unwrap();
    assert_eq!(drawn.color_idx, 2);
    assert_eq!(sp.path().len(), 3);
    assert_eq!(sp.path()[2], drawn);
    assert_eq!(sp.cur_idxs()[2], drawn.to_idx);
}

#[test]
fn filled_chords_are_never_proposed_again() {
    let mut sp = StringPath::new(10, (100, 100), 900, 1, 40, 2).unwrap();
    let mut drawn: Vec<(usize, usize)> = Vec::new();
    while sp.step(&flat_scorer) {
        if let Some(s) = sp.last_drawn() {
            let key = (s.from_idx.max(s.to_idx), s.from_idx.min(s.to_idx));
            assert!(!drawn.contains(&key));
            drawn.push(key);
        }
    }
    for (a, b) in drawn {
        assert_eq!(sp.combo_scores().state_at(a, b, 0), StringCombo::Filled);
    }
}

#[test]
fn cleaning_collapses_miss_hops() {
    let mut sp = StringPath::new(10, (100, 100), 900, 1, 3, 2).unwrap();
    let none = |_a: usize, _b: usize, _c: usize| -> Option<i64> { None };
    // Three misses: 0 -> 1 -> 2 -> 3.
    while sp.step(&none) {}
    let cleaned = sp.cleaned_path();
    // 0 -> 1 and 0 -> 2 are banned (too short); 0 -> 3 is allowed.
    assert_eq!(cleaned, vec![PathStep { from_idx: 0, to_idx: 3, color_idx: 0, score: 0 }]);
}

#[test]
fn cleaning_keeps_long_steps() {
    let mut sp = StringPath::new(10, (100, 100), 900, 1, 2, 2).unwrap();
    while sp.step(&flat_scorer) {}
    assert_eq!(sp.cleaned_path(), sp.path().clone());
}

#[test]
fn scoring_fractions_are_checked() {
    assert_eq!(check_scoring_fractions(0, 500), Err(ConfigError::ScoreRadiusOutOfRange));
    assert_eq!(check_scoring_fractions(1000, 500), Err(ConfigError::ScoreRadiusOutOfRange));
    assert_eq!(check_scoring_fractions(500, 1001), Err(ConfigError::EdgeWeightOutOfRange));
    assert_eq!(check_scoring_fractions(999, 1000), Ok(()));
    assert_eq!(check_scoring_fractions(1, 0), Ok(()));
}
