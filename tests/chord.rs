use geo::algorithm::line_intersection::{line_intersection, LineIntersection};
use geo::{Coord, Line};
use string_art::chord::{classify_chords, do_intersect};
use string_art::ChordIntersection;

#[test]
fn interleaved_ends_cross_properly() {
    assert_eq!(classify_chords((0, 4), (2, 6)), ChordIntersection::SinglePoint { is_proper: true });
    assert!(do_intersect((0, 4), (2, 6)));
    assert!(do_intersect((4, 0), (6, 2)));
}

#[test]
fn nested_chords_do_not_meet() {
    assert_eq!(classify_chords((0, 6), (2, 4)), ChordIntersection::Disjoint);
    assert!(!do_intersect((0, 6), (2, 4)));
    assert!(!do_intersect((0, 2), (3, 5)));
}

#[test]
fn shared_peg_is_not_a_proper_crossing() {
    assert_eq!(classify_chords((0, 4), (4, 7)), ChordIntersection::SinglePoint { is_proper: false });
    assert!(!do_intersect((0, 4), (4, 7)));
}

#[test]
fn same_chord_overlaps() {
    assert_eq!(classify_chords((3, 8), (8, 3)), ChordIntersection::Collinear);
    assert!(do_intersect((3, 8), (3, 8)));
}

#[test]
fn point_chord_touches_only_its_peg() {
    assert_eq!(classify_chords((2, 2), (2, 5)), ChordIntersection::SinglePoint { is_proper: false });
    assert_eq!(classify_chords((3, 3), (2, 5)), ChordIntersection::Disjoint);
}

fn ring(n: usize) -> Vec<Coord<f64>> {
    (0..n)
        .map(|i| {
            let angle = std::f64::consts::PI * 2.0 * (i as f64) / (n as f64);
            Coord { x: 50.0 + angle.cos() * 45.0, y: 50.0 + angle.sin() * 40.0 }
        })
        .collect()
}

#[test]
fn crossing_agrees_with_segment_geometry() {
    let n = 12;
    let pegs = ring(n);
    for a0 in 0..n {
        for a1 in a0 + 1..n {
            for b0 in 0..n {
                for b1 in b0 + 1..n {
                    let la = Line::new(pegs[a0], pegs[a1]);
                    let lb = Line::new(pegs[b0], pegs[b1]);
                    let expected = match line_intersection(la, lb) {
                        None => false,
                        Some(LineIntersection::SinglePoint { is_proper, .. }) => is_proper,
                        Some(LineIntersection::Collinear { .. }) => true,
                    };
                    assert_eq!(do_intersect((a0, a1), (b0, b1)), expected, "{a0}-{a1} vs {b0}-{b1}");
                }
            }
        }
    }
}
