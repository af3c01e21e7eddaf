//! The movement policy: one step in an orthogonal direction, chosen by a
//! random rotation of the four directions.

use vstd::prelude::*;
use crate::chance::random_u8;
use crate::map::{MapView, WorldMap};
use crate::position::{PositionView, WorldPosition};

verus! {

/// Direction number of a step to the left (towards column 0).
pub const LEFT: u8 = 0;

/// Direction number of a step up (towards row 0).
pub const UP: u8 = 1;

/// Direction number of a step to the right.
pub const RIGHT: u8 = 2;

/// Direction number of a step down.
pub const DOWN: u8 = 3;

/// The position one step away from `from` in direction `dir`, or `None`
/// where that step would leave the map.
pub open spec fn target(from: PositionView, dir: int) -> Option<PositionView> {
    if dir == LEFT {
        if from.x > 0 {
            Some(PositionView { x: (from.x - 1) as nat, ..from })
        } else {
            None
        }
    } else if dir == UP {
        if from.y > 0 {
            Some(PositionView { y: (from.y - 1) as nat, ..from })
        } else {
            None
        }
    } else if dir == RIGHT {
        if from.x + 1 < from.width {
            Some(PositionView { x: from.x + 1, ..from })
        } else {
            None
        }
    } else {
        if from.y + 1 < from.height {
            Some(PositionView { y: from.y + 1, ..from })
        } else {
            None
        }
    }
}

/// A step from `from` in direction `dir` is allowed: it stays on the map and,
/// if `check_score` is set, ends on a tile that holds score.
pub open spec fn open_way(from: PositionView, map: MapView, dir: int, check_score: bool) -> bool {
    match target(from, dir) {
        Some(to) => !check_score || map.score(to) > 0,
        None => false,
    }
}

/// Looks at the directions `first + tried`, `first + tried + 1`, ... up to
/// `first + 3`, each taken modulo 4, and gives the target of the earliest one
/// that is an open way, or `None` if there is none among them.
pub open spec fn scan(
    from: PositionView,
    map: MapView,
    check_score: bool,
    first: int,
    tried: int,
) -> Option<PositionView>
    decreases 4 - tried,
{
    if tried >= 4 {
        None
    } else if open_way(from, map, (first + tried) % 4, check_score) {
        target(from, (first + tried) % 4)
    } else {
        scan(from, map, check_score, first, tried + 1)
    }
}

/// The policy's choice when the rotation starts with direction `first`: the
/// target of the earliest open way among `first`, `first + 1`, `first + 2`
/// and `first + 3` (modulo 4), or `None` if no way is open.
pub open spec fn next_position(
    from: PositionView,
    map: MapView,
    check_score: bool,
    first: int,
) -> Option<PositionView> {
    scan(from, map, check_score, first, 0)
}

/// The two positions are orthogonal neighbours on the same map.
pub open spec fn adjacent(a: PositionView, b: PositionView) -> bool {
    &&& a.width == b.width
    &&& a.height == b.height
    &&& {
        ||| a.y == b.y && (a.x == b.x + 1 || b.x == a.x + 1)
        ||| a.x == b.x && (a.y == b.y + 1 || b.y == a.y + 1)
    }
}

/// The model of an optional position.
pub open spec fn view_of(pos: Option<WorldPosition>) -> Option<PositionView> {
    match pos {
        Some(p) => Some(p@),
        None => None,
    }
}

/// A position on the map has its index among the map's tiles.
pub proof fn lemma_in_bounds_is_covered(map: MapView, pos: PositionView)
    requires
        map.wf(),
        map.owns(pos),
        pos.in_bounds(),
    ensures
        map.covers(pos),
        pos.index() < map.width * map.height,
{
    assert(pos.y * pos.width + pos.width <= pos.height * pos.width) by (nonlinear_arith)
        requires
            pos.y + 1 <= pos.height,
    ;
    assert(pos.height * pos.width == pos.width * pos.height) by (nonlinear_arith);
}

/// A step never leaves the map: the target of a step from a position on the
/// map is an orthogonal neighbour that lies on the map too.
pub proof fn lemma_target_stays_inside(from: PositionView, dir: int)
    requires
        from.in_bounds(),
    ensures
        match target(from, dir) {
            Some(to) => to.in_bounds() && adjacent(from, to),
            None => true,
        },
{
}

/// What the policy chooses, whatever the rotation: a neighbouring position on
/// the map, reached by an open way; and it chooses nothing exactly when none
/// of the four ways is open.
pub proof fn lemma_next_position(from: PositionView, map: MapView, check_score: bool, first: int)
    requires
        from.in_bounds(),
        0 <= first < 4,
    ensures
        match next_position(from, map, check_score, first) {
            Some(to) => {
                &&& to.in_bounds()
                &&& adjacent(from, to)
                &&& check_score ==> map.score(to) > 0
                &&& exists|dir: int| 0 <= dir < 4 && open_way(from, map, dir, check_score)
                        && target(from, dir) == Some(to)
            },
            None => forall|dir: int| 0 <= dir < 4 ==> !open_way(from, map, dir, check_score),
        },
{
    reveal_with_fuel(scan, 5);
    lemma_target_stays_inside(from, first % 4);
    lemma_target_stays_inside(from, (first + 1) % 4);
    lemma_target_stays_inside(from, (first + 2) % 4);
    lemma_target_stays_inside(from, (first + 3) % 4);
}

/// The position one step from `current` in direction `dir` (taken modulo 4),
/// or `None` where the step would leave the map.
pub fn neighbour(current: &WorldPosition, map: &WorldMap, dir: u8) -> (next: Option<WorldPosition>)
    requires
        map@.owns(current@),
        current@.in_bounds(),
    ensures
        view_of(next) == target(current@, (dir % 4) as int),
{
    let dir: u8 = dir % 4;
    if dir == LEFT {
        let x: usize = current.x();
        if x > 0 {
            let mut new_pos = current.clone();
            new_pos.set_x(x - 1);
            Some(new_pos)
        } else {
            None
        }
    } else if dir == UP {
        let y: usize = current.y();
        if y > 0 {
            let mut new_pos = current.clone();
            new_pos.set_y(y - 1);
            Some(new_pos)
        } else {
            None
        }
    } else if dir == RIGHT {
        let x: usize = current.x();
        if x < map.width() - 1 {
            let mut new_pos = current.clone();
            new_pos.set_x(x + 1);
            Some(new_pos)
        } else {
            None
        }
    } else {
        let y: usize = current.y();
        if y < map.height() - 1 {
            let mut new_pos = current.clone();
            new_pos.set_y(y + 1);
            Some(new_pos)
        } else {
            None
        }
    }
}

/// The policy with the rotation given: tries the four directions in the order
/// `first`, `first + 1`, `first + 2`, `first + 3` (modulo 4) and returns the
/// target of the earliest step that stays on the map and, if `check_score` is
/// set, ends on a tile with score. Returns `None` if no direction will do.
pub fn step_from(
    current: &WorldPosition,
    map: &WorldMap,
    check_score: bool,
    first: u8,
) -> (next: Option<WorldPosition>)
    requires
        map.wf(),
        map@.owns(current@),
        current@.in_bounds(),
    ensures
        view_of(next) == next_position(current@, map@, check_score, (first % 4) as int),
{
    let start: u8 = first % 4;
    let mut tried: u8 = 0;
    while tried < 4
        invariant
            tried <= 4,
            start == first % 4,
            map.wf(),
            map@.owns(current@),
            current@.in_bounds(),
            scan(current@, map@, check_score, start as int, tried as int) == next_position(
                current@,
                map@,
                check_score,
                start as int,
            ),
        decreases 4 - tried,
    {
        let dir: u8 = (start + tried) % 4;
        match neighbour(current, map, dir) {
            Some(new_pos) => {
                proof {
                    lemma_target_stays_inside(current@, dir as int);
                    lemma_in_bounds_is_covered(map@, new_pos@);
                }
                if !check_score || map.score_at(&new_pos) > 0 {
                    return Some(new_pos);
                }
            },
            None => {},
        }
        tried = tried + 1;
    }
    None
}

/// Takes a step in a random, valid, orthogonal direction: draws the direction
/// that the rotation starts with and applies the policy of [`step_from`].
/// Returns `None` if none of the four directions is valid.
pub fn try_step(current: &WorldPosition, map: &WorldMap, check_score: bool) -> (next: Option<
    WorldPosition,
>)
    requires
        map.wf(),
        map@.owns(current@),
        current@.in_bounds(),
    ensures
        exists|first: int|
            0 <= first < 4 && view_of(next) == #[trigger] next_position(
                current@,
                map@,
                check_score,
                first,
            ),
        next matches Some(to) ==> {
            &&& to@.in_bounds()
            &&& adjacent(current@, to@)
            &&& check_score ==> map@.score(to@) > 0
        },
        next is None <==> forall|dir: int|
            0 <= dir < 4 ==> !open_way(current@, map@, dir, check_score),
{
    let first: u8 = random_u8() % 4;
    proof {
        lemma_next_position(current@, map@, check_score, first as int);
    }
    step_from(current, map, check_score, first)
}

} // verus!
