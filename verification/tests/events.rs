use pacman_lite::events::Direction;
use pacman_lite::grid_pos::GridPos;

#[test]
fn deltas_are_unit_cardinals() {
    assert_eq!(Direction::Up.to_delta(), GridPos::new(0, 1));
    assert_eq!(Direction::Down.to_delta(), GridPos::new(0, -1));
    assert_eq!(Direction::Left.to_delta(), GridPos::new(-1, 0));
    assert_eq!(Direction::Right.to_delta(), GridPos::new(1, 0));
}

#[test]
fn from_ivec2_roundtrips_every_direction() {
    for dir in Direction::ALL {
        assert_eq!(Direction::from_ivec2(dir.to_delta()), Some(dir));
    }
}

#[test]
fn from_ivec2_rejects_non_cardinal_deltas() {
    assert_eq!(Direction::from_ivec2(GridPos::zero()), None);
    assert_eq!(Direction::from_ivec2(GridPos::new(2, 0)), None);
    assert_eq!(Direction::from_ivec2(GridPos::new(1, 1)), None);
    assert_eq!(Direction::from_ivec2(GridPos::new(-1, -1)), None);
    assert_eq!(Direction::from_ivec2(GridPos::new(0, -2)), None);
}

#[test]
fn opposite_is_involutive_and_distinct() {
    for dir in Direction::ALL {
        assert_eq!(dir.opposite().opposite(), dir);
        assert_ne!(dir.opposite(), dir);
    }
}

#[test]
fn opposite_deltas_cancel() {
    for dir in Direction::ALL {
        assert_eq!(dir.to_delta().plus(dir.opposite().to_delta()), GridPos::zero());
    }
}

#[test]
fn all_lists_exactly_four_distinct_directions() {
    assert_eq!(Direction::ALL.len(), 4);
    for (i, a) in Direction::ALL.iter().enumerate() {
        for b in &Direction::ALL[i + 1..] {
            assert_ne!(a, b);
        }
    }
}

#[test]
fn grid_pos_arithmetic_matches_components() {
    let a = GridPos::new(3, -4);
    let b = GridPos::new(-1, 2);
    assert_eq!(a.plus(b), GridPos::new(2, -2));
    assert_eq!(a.minus(b), GridPos::new(4, -6));
    assert_eq!(a.times(3), GridPos::new(9, -12));
    assert_eq!(pacman_lite::grid_pos::manhattan(a, b), 10);
}
