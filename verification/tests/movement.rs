use fhtw_roboter_wettsammeln::movement::{neighbour, step_from, try_step, DOWN, LEFT, RIGHT, UP};
use fhtw_roboter_wettsammeln::{WorldMap, WorldPosition};

/// A map whose tiles hold exactly the scores given, row after row.
fn map_with(width: usize, height: usize, scores: &[usize]) -> WorldMap {
    let mut map = WorldMap::new(width, height);
    let max = scores.iter().copied().max().unwrap_or(0) + 1;
    let draws: Vec<usize> = scores.iter().map(|s| if *s == 0 { 0 } else { *s - 1 }).collect();
    map.scatter(&draws, max);
    for (index, score) in scores.iter().enumerate() {
        if *score == 0 {
            let pos = WorldPosition::new(&map, index % width, index / width);
            assert_eq!(map.deduct_score_at(&pos), 1);
        }
    }
    map
}

fn coordinates(pos: Option<WorldPosition>) -> Option<(usize, usize)> {
    pos.map(|p| (p.x(), p.y()))
}

#[test]
fn neighbour_in_each_direction() {
    let map = WorldMap::new(3, 3);
    let middle = WorldPosition::new(&map, 1, 1);
    assert_eq!(coordinates(neighbour(&middle, &map, LEFT)), Some((0, 1)));
    assert_eq!(coordinates(neighbour(&middle, &map, UP)), Some((1, 0)));
    assert_eq!(coordinates(neighbour(&middle, &map, RIGHT)), Some((2, 1)));
    assert_eq!(coordinates(neighbour(&middle, &map, DOWN)), Some((1, 2)));
    // direction numbers count modulo 4
    assert_eq!(coordinates(neighbour(&middle, &map, 4)), Some((0, 1)));
    assert_eq!(coordinates(neighbour(&middle, &map, 7)), Some((1, 2)));
    assert_eq!(coordinates(neighbour(&middle, &map, 255)), Some((1, 2)));
}

#[test]
fn no_neighbour_beyond_the_edges() {
    let map = WorldMap::new(3, 2);
    let top_left = WorldPosition::new(&map, 0, 0);
    assert_eq!(coordinates(neighbour(&top_left, &map, LEFT)), None);
    assert_eq!(coordinates(neighbour(&top_left, &map, UP)), None);
    assert_eq!(coordinates(neighbour(&top_left, &map, RIGHT)), Some((1, 0)));
    assert_eq!(coordinates(neighbour(&top_left, &map, DOWN)), Some((0, 1)));

    let top_right = WorldPosition::new(&map, 2, 0);
    assert_eq!(coordinates(neighbour(&top_right, &map, LEFT)), Some((1, 0)));
    assert_eq!(coordinates(neighbour(&top_right, &map, UP)), None);
    assert_eq!(coordinates(neighbour(&top_right, &map, RIGHT)), None);
    assert_eq!(coordinates(neighbour(&top_right, &map, DOWN)), Some((2, 1)));

    let bottom_left = WorldPosition::new(&map, 0, 1);
    assert_eq!(coordinates(neighbour(&bottom_left, &map, LEFT)), None);
    assert_eq!(coordinates(neighbour(&bottom_left, &map, UP)), Some((0, 0)));
    assert_eq!(coordinates(neighbour(&bottom_left, &map, RIGHT)), Some((1, 1)));
    assert_eq!(coordinates(neighbour(&bottom_left, &map, DOWN)), None);

    let bottom_right = WorldPosition::new(&map, 2, 1);
    assert_eq!(coordinates(neighbour(&bottom_right, &map, LEFT)), Some((1, 1)));
    assert_eq!(coordinates(neighbour(&bottom_right, &map, UP)), Some((2, 0)));
    assert_eq!(coordinates(neighbour(&bottom_right, &map, RIGHT)), None);
    assert_eq!(coordinates(neighbour(&bottom_right, &map, DOWN)), None);
}

#[test]
fn rotation_starts_with_the_direction_given() {
    let map = WorldMap::new(3, 3);
    let middle = WorldPosition::new(&map, 1, 1);
    assert_eq!(coordinates(step_from(&middle, &map, false, 0)), Some((0, 1)));
    assert_eq!(coordinates(step_from(&middle, &map, false, 1)), Some((1, 0)));
    assert_eq!(coordinates(step_from(&middle, &map, false, 2)), Some((2, 1)));
    assert_eq!(coordinates(step_from(&middle, &map, false, 3)), Some((1, 2)));
    assert_eq!(coordinates(step_from(&middle, &map, false, 4)), Some((0, 1)));
    assert_eq!(coordinates(step_from(&middle, &map, false, 6)), Some((2, 1)));
    assert_eq!(coordinates(step_from(&middle, &map, false, 255)), Some((1, 2)));
}

#[test]
fn rotation_goes_on_to_the_next_open_direction() {
    let map = WorldMap::new(3, 3);
    let top_left = WorldPosition::new(&map, 0, 0);
    // left and up leave the map: right is the next in turn
    assert_eq!(coordinates(step_from(&top_left, &map, false, 0)), Some((1, 0)));
    assert_eq!(coordinates(step_from(&top_left, &map, false, 1)), Some((1, 0)));
    assert_eq!(coordinates(step_from(&top_left, &map, false, 2)), Some((1, 0)));
    assert_eq!(coordinates(step_from(&top_left, &map, false, 3)), Some((0, 1)));

    let bottom_right = WorldPosition::new(&map, 2, 2);
    // right and down leave the map: after down the rotation wraps round to left
    assert_eq!(coordinates(step_from(&bottom_right, &map, false, 0)), Some((1, 2)));
    assert_eq!(coordinates(step_from(&bottom_right, &map, false, 1)), Some((2, 1)));
    assert_eq!(coordinates(step_from(&bottom_right, &map, false, 2)), Some((1, 2)));
    assert_eq!(coordinates(step_from(&bottom_right, &map, false, 3)), Some((1, 2)));
}

#[test]
fn no_step_on_a_single_tile() {
    let mut map = WorldMap::new(1, 1);
    assert_eq!(map.randomize_fields(3), Ok(()));
    let only = WorldPosition::new(&map, 0, 0);
    for first in 0..8 {
        assert_eq!(coordinates(step_from(&only, &map, false, first)), None);
        assert_eq!(coordinates(step_from(&only, &map, true, first)), None);
    }
    for _ in 0..20 {
        assert_eq!(coordinates(try_step(&only, &map, false)), None);
        assert_eq!(coordinates(try_step(&only, &map, true)), None);
    }
}

#[test]
fn steps_on_a_single_row_and_a_single_column() {
    let row = WorldMap::new(3, 1);
    let left_end = WorldPosition::new(&row, 0, 0);
    let middle = WorldPosition::new(&row, 1, 0);
    let right_end = WorldPosition::new(&row, 2, 0);
    for first in 0..4 {
        assert_eq!(coordinates(step_from(&left_end, &row, false, first)), Some((1, 0)));
        assert_eq!(coordinates(step_from(&right_end, &row, false, first)), Some((1, 0)));
    }
    assert_eq!(coordinates(step_from(&middle, &row, false, 0)), Some((0, 0)));
    assert_eq!(coordinates(step_from(&middle, &row, false, 1)), Some((2, 0)));
    assert_eq!(coordinates(step_from(&middle, &row, false, 2)), Some((2, 0)));
    assert_eq!(coordinates(step_from(&middle, &row, false, 3)), Some((0, 0)));

    let column = WorldMap::new(1, 3);
    let top = WorldPosition::new(&column, 0, 0);
    let middle = WorldPosition::new(&column, 0, 1);
    let bottom = WorldPosition::new(&column, 0, 2);
    for first in 0..4 {
        assert_eq!(coordinates(step_from(&top, &column, false, first)), Some((0, 1)));
        assert_eq!(coordinates(step_from(&bottom, &column, false, first)), Some((0, 1)));
    }
    assert_eq!(coordinates(step_from(&middle, &column, false, 0)), Some((0, 0)));
    assert_eq!(coordinates(step_from(&middle, &column, false, 1)), Some((0, 0)));
    assert_eq!(coordinates(step_from(&middle, &column, false, 2)), Some((0, 2)));
    assert_eq!(coordinates(step_from(&middle, &column, false, 3)), Some((0, 2)));
}

#[test]
fn score_check_skips_empty_tiles() {
    // around the middle: left 0, up 2, right 0, down 7
    let map = map_with(3, 3, &[1, 2, 1, 0, 9, 0, 1, 7, 1]);
    let middle = WorldPosition::new(&map, 1, 1);
    assert_eq!(coordinates(step_from(&middle, &map, true, 0)), Some((1, 0)));
    assert_eq!(coordinates(step_from(&middle, &map, true, 1)), Some((1, 0)));
    assert_eq!(coordinates(step_from(&middle, &map, true, 2)), Some((1, 2)));
    assert_eq!(coordinates(step_from(&middle, &map, true, 3)), Some((1, 2)));
    // without the check the empty tiles are as good as any
    assert_eq!(coordinates(step_from(&middle, &map, false, 0)), Some((0, 1)));
    assert_eq!(coordinates(step_from(&middle, &map, false, 2)), Some((2, 1)));
    for _ in 0..50 {
        let next = coordinates(try_step(&middle, &map, true));
        assert!(next == Some((1, 0)) || next == Some((1, 2)));
    }
}

#[test]
fn score_check_finds_nothing_among_empty_neighbours() {
    let map = map_with(3, 3, &[1, 0, 1, 0, 5, 0, 1, 0, 1]);
    let middle = WorldPosition::new(&map, 1, 1);
    for first in 0..4 {
        assert_eq!(coordinates(step_from(&middle, &map, true, first)), None);
    }
    assert_eq!(coordinates(try_step(&middle, &map, true)), None);
    assert!(coordinates(try_step(&middle, &map, false)).is_some());
}

#[test]
fn score_magnitude_does_not_matter() {
    // the rotation alone decides between a tile with 1 and a tile with 100
    let map = map_with(3, 1, &[1, 0, 100]);
    let middle = WorldPosition::new(&map, 1, 0);
    assert_eq!(coordinates(step_from(&middle, &map, true, 0)), Some((0, 0)));
    assert_eq!(coordinates(step_from(&middle, &map, true, 3)), Some((0, 0)));
    assert_eq!(coordinates(step_from(&middle, &map, true, 1)), Some((2, 0)));
    assert_eq!(coordinates(step_from(&middle, &map, true, 2)), Some((2, 0)));
}

#[test]
fn try_step_reaches_every_open_direction() {
    let map = WorldMap::new(3, 3);
    let middle = WorldPosition::new(&map, 1, 1);
    let mut seen = Vec::new();
    for _ in 0..400 {
        let next = coordinates(try_step(&middle, &map, false)).expect("four ways are open");
        assert!(next == (0, 1) || next == (1, 0) || next == (2, 1) || next == (1, 2));
        if !seen.contains(&next) {
            seen.push(next);
        }
    }
    assert_eq!(seen.len(), 4);
}

#[test]
fn the_step_leaves_the_start_untouched() {
    let map = WorldMap::new(2, 2);
    let start = WorldPosition::new(&map, 1, 1);
    let next = step_from(&start, &map, false, 0).expect("left is open");
    assert_eq!((next.x(), next.y()), (0, 1));
    assert_eq!((start.x(), start.y()), (1, 1));
    assert!(next.is_on(&map));
}
