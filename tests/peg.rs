use string_art::PegGroup;

#[test]
fn test_distance() {
    let pg = PegGroup::new_circle_at_center(10, (10, 10), 900);
    assert_eq!(pg.steps_between(0, 5), pg.steps_between(5, 0));
    assert_eq!(pg.steps_between(0, 1), 1);
    assert_eq!(pg.steps_between(0, 9), 1);
    assert_eq!(pg.steps_between(5, 5), 0);
    assert_eq!(pg.clockwise_steps_between(0, 1), 9);
    assert_eq!(pg.cclockwise_steps_between(0, 1), 1);
    assert_eq!(pg.clockwise_steps_between(5, 6), pg.clockwise_steps_between(8, 9));
    assert_eq!(pg.cclockwise_steps_between(5, 6), pg.cclockwise_steps_between(8, 9));
}

#[test]
fn distance_is_symmetric_on_every_pair() {
    let pg = PegGroup::new_circle_at_center(10, (100, 100), 500);
    for i in 0..10 {
        assert_eq!(pg.steps_between(i, i), 0);
        for j in 0..10 {
            assert_eq!(pg.steps_between(i, j), pg.steps_between(j, i));
        }
    }
}

#[test]
fn ways_round_add_up_to_the_ring() {
    let pg = PegGroup::new_circle_at_center(7, (50, 80), 950);
    for i in 0..7 {
        for j in 0..7 {
            if i != j {
                assert_eq!(pg.clockwise_steps_between(i, j) + pg.cclockwise_steps_between(i, j), 7);
            }
        }
    }
}

#[test]
fn counter_clockwise_from_a_higher_peg_wraps_round() {
    let pg = PegGroup::new_circle_at_center(10, (10, 10), 900);
    assert_eq!(pg.cclockwise_steps_between(5, 0), 5);
    assert_eq!(pg.cclockwise_steps_between(9, 1), 2);
    assert_eq!(pg.clockwise_steps_between(9, 1), 8);
    assert_eq!(pg.clockwise_steps_between(3, 3), 10);
    assert_eq!(pg.steps_between(9, 1), 2);
    assert_eq!(pg.steps_between(2, 7), 5);
}

#[test]
fn ring_keeps_its_layout() {
    let pg = PegGroup::new_circle_at_center(12, (640, 480), 950);
    assert_eq!(pg.len(), 12);
    assert_eq!(pg.dimensions(), (640, 480));
    assert_eq!(pg.radius_permille(), 950);
}
