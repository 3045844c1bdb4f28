use pair_enum::MAX_TRIANGULAR;
use pair_enum::OrderedPairGenerator;
use pair_enum::fst;
use pair_enum::index_to_pair;
use pair_enum::pair_to_index;
use pair_enum::snd;

#[test]
fn sequencer_first_ten() {
    let mut g = OrderedPairGenerator::new();
    let expected: [(u32, u32); 10] = [
        (0, 1),
        (1, 0),
        (0, 2),
        (1, 1),
        (2, 0),
        (0, 3),
        (1, 2),
        (2, 1),
        (3, 0),
        (0, 4),
    ];
    for e in expected {
        assert_eq!(g.advance(), e);
    }
}

#[test]
fn indexer_first_ten() {
    let expected: [(u32, u32); 10] = [
        (0, 0),
        (0, 1),
        (1, 0),
        (0, 2),
        (1, 1),
        (2, 0),
        (0, 3),
        (1, 2),
        (2, 1),
        (3, 0),
    ];
    for (n, e) in expected.iter().enumerate() {
        assert_eq!(index_to_pair(n as u32), *e);
        assert_eq!(fst(n as u32), e.0);
        assert_eq!(snd(n as u32), e.1);
    }
}

#[test]
fn boundary_position_zero() {
    assert_eq!(index_to_pair(0), (0, 0));
    assert_eq!(pair_to_index((0, 0)), 0);
}

#[test]
fn index_round_trip_bounded() {
    for n in 0..10_000u32 {
        assert_eq!(pair_to_index(index_to_pair(n)), n);
    }
}

#[test]
fn pair_round_trip_bounded() {
    for a in 0..100u32 {
        for b in 0..100 - a {
            let p = (a, b);
            assert_eq!(index_to_pair(pair_to_index(p)), p);
        }
    }
}

#[test]
fn no_collisions_bounded() {
    for n1 in 0..300u32 {
        for n2 in 0..300 {
            if n1 != n2 {
                assert_ne!(index_to_pair(n1), index_to_pair(n2));
            }
        }
    }
}

#[test]
fn sequencer_matches_indexer() {
    let mut g = OrderedPairGenerator::new();
    for k in 1..=2_000u32 {
        assert_eq!(g.advance(), index_to_pair(k));
    }
}

#[test]
fn seeded_sequencer() {
    let mut g = OrderedPairGenerator::newp((2, 0));
    assert_eq!(g.advance(), (0, 3));
    assert_eq!(g.advance(), (1, 2));
    let mut h = OrderedPairGenerator::newp((0, 2));
    assert_eq!(h.advance(), (1, 1));
    assert_eq!(h.advance(), (2, 0));
}

#[test]
fn pair_to_index_formula() {
    assert_eq!(pair_to_index((1, 2)), 7);
    assert_eq!(pair_to_index((2, 1)), 8);
    assert_eq!(pair_to_index((3, 0)), 9);
    assert_eq!(pair_to_index((0, 4)), 10);
    assert_eq!(pair_to_index((5, 5)), 60);
}

#[test]
fn largest_supported_positions() {
    // MAX_TRIANGULAR is triangular(92681), the start of diagonal 92681.
    assert_eq!(fst(MAX_TRIANGULAR), 0);
    // The position just before it is the last pair of diagonal 92680.
    assert_eq!(fst(MAX_TRIANGULAR - 1), 92680);
    assert_eq!(snd(MAX_TRIANGULAR - 1), 0);
    assert_eq!(index_to_pair(MAX_TRIANGULAR - 1), (92680, 0));
    assert_eq!(pair_to_index((92680, 0)), MAX_TRIANGULAR - 1);
    assert_eq!(pair_to_index((0, 92681)), MAX_TRIANGULAR);
}
