//! The robots: each owns a position and a score, moves in its own way and
//! takes score from the map turn by turn.

use vstd::prelude::*;
use crate::map::{MapView, WorldMap};
use crate::movement::{
    adjacent, lemma_in_bounds_is_covered, lemma_next_position, next_position, open_way, try_step,
    view_of,
};
use crate::position::{PositionView, WorldPosition};

verus! {

/// Mathematical model of a robot.
pub struct BotView {
    /// Number of the robot, used only to tell robots apart in reports.
    pub id: nat,
    /// Score collected so far.
    pub score: nat,
    /// Where the robot stands.
    pub position: PositionView,
}

/// The robot can take a turn on the map: the map is sound, the robot's score
/// together with all score that is left on the map fits into a `usize`, and,
/// as long as the map holds score, the robot stands on one of its tiles.
pub open spec fn ready(bot: BotView, map: MapView) -> bool {
    &&& map.wf()
    &&& bot.score + map.remaining <= usize::MAX
    &&& map.remaining > 0 ==> map.owns(bot.position) && bot.position.in_bounds()
}

/// Where a position ends up when the policy's choice is taken, and where it
/// stays when the policy chooses nothing.
pub open spec fn follow(from: PositionView, choice: Option<PositionView>) -> PositionView {
    match choice {
        Some(to) => to,
        None => from,
    }
}

/// A move of a robot that wanders aimlessly: one step by the policy that
/// ignores score, for some rotation of the directions; no move at all if the
/// policy finds no way.
pub open spec fn random_move(from: PositionView, map: MapView, to: PositionView) -> bool {
    exists|first: int|
        0 <= first < 4 && to == follow(from, #[trigger] next_position(from, map, false, first))
}

/// No step from the position stays on the map: the map has no other tile.
pub open spec fn no_way(from: PositionView, map: MapView) -> bool {
    forall|dir: int| 0 <= dir < 4 ==> !open_way(from, map, dir, false)
}

/// No neighbouring tile that a step could reach holds score.
pub open spec fn no_score_nearby(from: PositionView, map: MapView) -> bool {
    forall|dir: int| 0 <= dir < 4 ==> !open_way(from, map, dir, true)
}

/// A move of a nearsighted robot: one step by the policy that wants score at
/// the target, for some rotation of the directions; or, where no neighbouring
/// tile holds score, a move as an aimless robot makes it.
pub open spec fn nearsighted_move(from: PositionView, map: MapView, to: PositionView) -> bool {
    ||| exists|first: int|
        0 <= first < 4 && #[trigger] next_position(from, map, true, first) == Some(to)
    ||| no_score_nearby(from, map) && random_move(from, map, to)
}

/// What all robots can do.
pub trait Robot {
    /// The model of the robot.
    spec fn model(&self) -> BotView;

    /// The moves that a robot of this kind may make in one turn: the relation
    /// holds of a position, a map and the position that a move may lead to.
    spec fn moves() -> spec_fn(PositionView, MapView, PositionView) -> bool;

    /// Teleports the robot to a random location in the map.
    fn randomize_position(&mut self)
        requires
            old(self).model().position.width > 0,
            old(self).model().position.height > 0,
        ensures
            final(self).model().position.in_bounds(),
            final(self).model().position.width == old(self).model().position.width,
            final(self).model().position.height == old(self).model().position.height,
            final(self).model().id == old(self).model().id,
            final(self).model().score == old(self).model().score,
    ;

    /// Returns the amount of score collected by the robot.
    fn score(&self) -> (score: usize)
        ensures
            score == self.model().score,
    ;

    /// Returns where the robot stands.
    fn position(&self) -> (pos: &WorldPosition)
        ensures
            pos@ == self.model().position,
    ;

    /// Takes one turn, if there is score left on the map: the robot moves as
    /// robots of its kind do, then harvests the tile it stands on and adds
    /// what it took to its score. Returns whether the turn took place.
    ///
    /// The counter of remaining score is looked at once, before the move: on
    /// a map without score nothing happens and the answer is `false`, which
    /// ends the robot's run. Calling `turn` until it answers `false` is the
    /// whole of a run.
    fn turn(&mut self, map: &mut WorldMap) -> (running: bool)
        requires
            ready(old(self).model(), old(map)@),
        ensures
            running == (old(map)@.remaining > 0),
            !running ==> final(self).model() == old(self).model() && final(map)@ == old(map)@,
            running ==> {
                &&& (Self::moves())(
                    old(self).model().position,
                    old(map)@,
                    final(self).model().position,
                )
                &&& final(map)@ == old(map)@.harvest(final(self).model().position)
                &&& final(self).model().score == old(self).model().score + old(map)@.yield_at(
                    final(self).model().position,
                )
            },
            final(self).model().id == old(self).model().id,
            old(self).model().score <= final(self).model().score <= old(self).model().score + 1,
            final(self).model().score + final(map)@.remaining == old(self).model().score + old(
                map,
            )@.remaining,
            ready(final(self).model(), final(map)@),
    ;

    /// Sends the robot on a rampage through the map: it takes turn after
    /// turn until all score is gone, or until `turns` turns are over. Returns
    /// whether the map holds no score at the end.
    fn run(&mut self, map: &mut WorldMap, turns: usize) -> (finished: bool)
        requires
            ready(old(self).model(), old(map)@),
        ensures
            finished == (final(map)@.remaining == 0),
            exists|taken: nat|
                taken <= turns && #[trigger] after_turns(
                    Self::moves(),
                    old(self).model(),
                    old(map)@,
                    taken,
                    final(self).model(),
                    final(map)@,
                ) && (taken < turns ==> final(map)@.remaining == 0),
            final(self).model().id == old(self).model().id,
            final(map)@.width == old(map)@.width,
            final(map)@.height == old(map)@.height,
            old(self).model().score <= final(self).model().score <= old(self).model().score
                + turns,
            final(self).model().score + final(map)@.remaining == old(self).model().score + old(
                map,
            )@.remaining,
            ready(final(self).model(), final(map)@),
    {
        let mut left: usize = turns;
        while left > 0
            invariant
                left <= turns,
                ready(self.model(), map@),
                after_turns(
                    Self::moves(),
                    old(self).model(),
                    old(map)@,
                    (turns - left) as nat,
                    self.model(),
                    map@,
                ),
                self.model().id == old(self).model().id,
                map@.width == old(map)@.width,
                map@.height == old(map)@.height,
                old(self).model().score <= self.model().score <= old(self).model().score + (turns
                    - left),
                self.model().score + map@.remaining == old(self).model().score + old(
                    map,
                )@.remaining,
            decreases left,
        {
            let ghost bot_before = self.model();
            let ghost map_before = map@;
            if !self.turn(map) {
                return true;
            }
            proof {
                lemma_one_more_turn(
                    Self::moves(),
                    old(self).model(),
                    old(map)@,
                    (turns - left) as nat,
                    bot_before,
                    map_before,
                    self.model(),
                    map@,
                );
            }
            left = left - 1;
        }
        map.score_left() == 0
    }
}

/// One turn leads from the first robot and map to the second, where `moves`
/// are the moves that the robot may make: the map held score, the robot made
/// one of its moves, harvested the tile it came to and added what it took to
/// its score.
pub open spec fn one_turn(
    moves: spec_fn(PositionView, MapView, PositionView) -> bool,
    bot: BotView,
    map: MapView,
    next_bot: BotView,
    next_map: MapView,
) -> bool {
    &&& map.remaining > 0
    &&& moves(bot.position, map, next_bot.position)
    &&& next_map == map.harvest(next_bot.position)
    &&& next_bot.score == bot.score + map.yield_at(next_bot.position)
    &&& next_bot.id == bot.id
}

/// A number of turns, one after the other, lead from the first robot and map
/// to the last.
pub open spec fn after_turns(
    moves: spec_fn(PositionView, MapView, PositionView) -> bool,
    bot: BotView,
    map: MapView,
    turns: nat,
    last_bot: BotView,
    last_map: MapView,
) -> bool
    decreases turns,
{
    if turns == 0 {
        last_bot == bot && last_map == map
    } else {
        exists|mid_bot: BotView, mid_map: MapView|
            after_turns(moves, bot, map, (turns - 1) as nat, mid_bot, mid_map)
                && #[trigger] one_turn(moves, mid_bot, mid_map, last_bot, last_map)
    }
}

/// One more turn after a number of turns makes that number plus one.
pub proof fn lemma_one_more_turn(
    moves: spec_fn(PositionView, MapView, PositionView) -> bool,
    bot: BotView,
    map: MapView,
    turns: nat,
    mid_bot: BotView,
    mid_map: MapView,
    last_bot: BotView,
    last_map: MapView,
)
    requires
        after_turns(moves, bot, map, turns, mid_bot, mid_map),
        one_turn(moves, mid_bot, mid_map, last_bot, last_map),
    ensures
        after_turns(moves, bot, map, turns + 1, last_bot, last_map),
{
    assert(((turns + 1) - 1) as nat == turns);
}

/// A move of either kind ends on the map it started on, and on the starting
/// tile or one of its orthogonal neighbours.
pub proof fn lemma_moves_stay_inside(from: PositionView, map: MapView, to: PositionView)
    requires
        from.in_bounds(),
        random_move(from, map, to) || nearsighted_move(from, map, to),
    ensures
        to.in_bounds(),
        to.width == from.width,
        to.height == from.height,
        to == from || adjacent(from, to),
{
    if random_move(from, map, to) {
        let first: int = choose|first: int|
            0 <= first < 4 && to == follow(from, #[trigger] next_position(from, map, false, first));
        lemma_next_position(from, map, false, first);
    } else {
        let first: int = choose|first: int|
            0 <= first < 4 && #[trigger] next_position(from, map, true, first) == Some(to);
        lemma_next_position(from, map, true, first);
    }
}

/// Moves aimlessly, taking score at every step.
pub struct RandomBot {
    id: usize,
    score: usize,
    pos: WorldPosition,
}

impl RandomBot {
    /// Makes robot number `id` for `map`, at the map's first tile and with
    /// no score.
    pub fn new(id: usize, map: &WorldMap) -> (bot: Self)
        ensures
            bot.model() == (BotView {
                id: id as nat,
                score: 0,
                position: PositionView { x: 0, y: 0, width: map@.width, height: map@.height },
            }),
    {
        RandomBot { id, score: 0, pos: WorldPosition::new(map, 0, 0) }
    }

    /// Steps in a random direction that stays on the map, or stays in place
    /// if there is none.
    pub fn step(&mut self, map: &WorldMap)
        requires
            map.wf(),
            map@.owns(old(self).model().position),
            old(self).model().position.in_bounds(),
        ensures
            random_move(old(self).model().position, map@, final(self).model().position),
            final(self).model().position == old(self).model().position <==> no_way(
                old(self).model().position,
                map@,
            ),
            final(self).model().position.in_bounds(),
            map@.owns(final(self).model().position),
            final(self).model().id == old(self).model().id,
            final(self).model().score == old(self).model().score,
    {
        let next = try_step(&self.pos, map, false);
        proof {
            lemma_moves_stay_inside(self.pos@, map@, follow(self.pos@, view_of(next)));
        }
        if let Some(new_pos) = next {
            self.pos = new_pos;
        }
    }

    /// Number of the robot.
    pub fn id(&self) -> (id: usize)
        ensures
            id == self.model().id,
    {
        self.id
    }
}

impl Robot for RandomBot {
    closed spec fn model(&self) -> BotView {
        BotView { id: self.id as nat, score: self.score as nat, position: self.pos@ }
    }

    open spec fn moves() -> spec_fn(PositionView, MapView, PositionView) -> bool {
        |from: PositionView, map: MapView, to: PositionView| random_move(from, map, to)
    }

    fn randomize_position(&mut self) {
        self.pos.randomize();
    }

    fn score(&self) -> (score: usize) {
        self.score
    }

    fn position(&self) -> (pos: &WorldPosition) {
        &self.pos
    }

    fn turn(&mut self, map: &mut WorldMap) -> (running: bool) {
        if map.score_left() > 0 {
            self.step(map);
            proof {
                lemma_in_bounds_is_covered(map@, self.pos@);
            }
            let harvested: usize = map.deduct_score_at(&self.pos);
            self.score = self.score + harvested;
            assert((Self::moves())(old(self).model().position, old(map)@, self.model().position));
            true
        } else {
            false
        }
    }
}

/// Moves towards orthogonally adjacent score and takes some, else wanders
/// aimlessly.
pub struct NearsightBot {
    id: usize,
    score: usize,
    pos: WorldPosition,
}

impl NearsightBot {
    /// Makes robot number `id` for `map`, at the map's first tile and with
    /// no score.
    pub fn new(id: usize, map: &WorldMap) -> (bot: Self)
        ensures
            bot.model() == (BotView {
                id: id as nat,
                score: 0,
                position: PositionView { x: 0, y: 0, width: map@.width, height: map@.height },
            }),
    {
        NearsightBot { id, score: 0, pos: WorldPosition::new(map, 0, 0) }
    }

    /// Steps to a neighbouring tile that holds score if there is one, else
    /// in any direction that stays on the map, else stays in place.
    pub fn step(&mut self, map: &WorldMap)
        requires
            map.wf(),
            map@.owns(old(self).model().position),
            old(self).model().position.in_bounds(),
        ensures
            nearsighted_move(old(self).model().position, map@, final(self).model().position),
            !no_score_nearby(old(self).model().position, map@) ==> map@.score(
                final(self).model().position,
            ) > 0,
            final(self).model().position == old(self).model().position <==> no_way(
                old(self).model().position,
                map@,
            ),
            final(self).model().position.in_bounds(),
            map@.owns(final(self).model().position),
            final(self).model().id == old(self).model().id,
            final(self).model().score == old(self).model().score,
    {
        // Go to score if possible
        let near = try_step(&self.pos, map, true);
        if let Some(new_pos) = near {
            proof {
                let dir: int = choose|dir: int| 0 <= dir < 4 && open_way(self.pos@, map@, dir, true);
                assert(open_way(self.pos@, map@, dir, false));
            }
            self.pos = new_pos;
        } else {
            // Go elsewhere to find score farther away
            let far = try_step(&self.pos, map, false);
            proof {
                lemma_moves_stay_inside(self.pos@, map@, follow(self.pos@, view_of(far)));
            }
            if let Some(new_pos) = far {
                self.pos = new_pos;
            }
        }
    }

    /// Number of the robot.
    pub fn id(&self) -> (id: usize)
        ensures
            id == self.model().id,
    {
        self.id
    }
}

impl Robot for NearsightBot {
    closed spec fn model(&self) -> BotView {
        BotView { id: self.id as nat, score: self.score as nat, position: self.pos@ }
    }

    open spec fn moves() -> spec_fn(PositionView, MapView, PositionView) -> bool {
        |from: PositionView, map: MapView, to: PositionView| nearsighted_move(from, map, to)
    }

    fn randomize_position(&mut self) {
        self.pos.randomize();
    }

    fn score(&self) -> (score: usize) {
        self.score
    }

    fn position(&self) -> (pos: &WorldPosition) {
        &self.pos
    }

    fn turn(&mut self, map: &mut WorldMap) -> (running: bool) {
        if map.score_left() > 0 {
            self.step(map);
            proof {
                lemma_in_bounds_is_covered(map@, self.pos@);
            }
            let harvested: usize = map.deduct_score_at(&self.pos);
            self.score = self.score + harvested;
            assert((Self::moves())(old(self).model().position, old(map)@, self.model().position));
            true
        } else {
            false
        }
    }
}

} // verus!
