//! A contest of several robots on one map: how their scores add up, and who
//! has won.

use vstd::prelude::*;
use crate::map::{lemma_harvest, MapView};
use crate::position::PositionView;

verus! {

/// One harvest in the course of a contest.
pub struct Harvest {
    /// Which robot harvests, counted from 0.
    pub who: int,
    /// The tile that it harvests.
    pub at: PositionView,
}

/// A contest at some moment: the map and the score of each robot.
pub struct Standing {
    /// The map.
    pub map: MapView,
    /// Score of each robot.
    pub scores: Seq<nat>,
}

/// Sum of the robots' scores.
pub open spec fn team_score(scores: Seq<nat>) -> nat
    decreases scores.len(),
{
    if scores.len() == 0 {
        0
    } else {
        team_score(scores.drop_last()) + scores.last()
    }
}

/// The harvest is one that the contest allows: by one of the robots, at one of
/// the map's tiles.
pub open spec fn allowed(standing: Standing, harvest: Harvest) -> bool {
    0 <= harvest.who < standing.scores.len() && standing.map.covers(harvest.at)
}

/// The contest after one harvest: what the tile yields goes from the map to
/// the robot that harvested.
pub open spec fn credit(standing: Standing, harvest: Harvest) -> Standing {
    Standing {
        map: standing.map.harvest(harvest.at),
        scores: standing.scores.update(
            harvest.who,
            standing.scores[harvest.who] + standing.map.yield_at(harvest.at),
        ),
    }
}

/// The contest after a run of harvests, made one after the other in the order
/// given, whichever robots they come from.
pub open spec fn play(start: Standing, run: Seq<Harvest>) -> Standing
    decreases run.len(),
{
    if run.len() == 0 {
        start
    } else {
        credit(play(start, run.drop_last()), run.last())
    }
}

/// Every harvest of the run is allowed.
pub open spec fn all_allowed(start: Standing, run: Seq<Harvest>) -> bool {
    forall|k: int|
        0 <= k < run.len() ==> 0 <= (#[trigger] run[k]).who < start.scores.len()
            && start.map.covers(run[k].at)
}

/// Raising one robot's score raises the sum by as much.
pub proof fn lemma_team_score_update(scores: Seq<nat>, who: int, score: nat)
    requires
        0 <= who < scores.len(),
    ensures
        team_score(scores.update(who, score)) == team_score(scores) - scores[who] + score,
    decreases scores.len(),
{
    let changed = scores.update(who, score);
    if who == scores.len() - 1 {
        assert(changed.drop_last() == scores.drop_last());
    } else {
        lemma_team_score_update(scores.drop_last(), who, score);
        assert(changed.drop_last() == scores.drop_last().update(who, score));
    }
}

/// One harvest loses no point and counts none twice: what leaves the map is
/// what the robot gains.
pub proof fn lemma_credit_conserves(standing: Standing, harvest: Harvest)
    requires
        standing.map.wf(),
        allowed(standing, harvest),
    ensures
        credit(standing, harvest).map.wf(),
        credit(standing, harvest).map.width == standing.map.width,
        credit(standing, harvest).map.height == standing.map.height,
        credit(standing, harvest).scores.len() == standing.scores.len(),
        team_score(credit(standing, harvest).scores) + credit(standing, harvest).map.remaining
            == team_score(standing.scores) + standing.map.remaining,
        credit(standing, harvest).map.remaining <= standing.map.remaining,
{
    lemma_harvest(standing.map, harvest.at);
    lemma_team_score_update(
        standing.scores,
        harvest.who,
        standing.scores[harvest.who] + standing.map.yield_at(harvest.at),
    );
}

/// However the robots' harvests interleave, the robots' scores and the score
/// left on the map add up to what they added up to at the start, and the
/// score left on the map never grows.
pub proof fn lemma_play_conserves(start: Standing, run: Seq<Harvest>)
    requires
        start.map.wf(),
        all_allowed(start, run),
    ensures
        play(start, run).map.wf(),
        play(start, run).map.width == start.map.width,
        play(start, run).map.height == start.map.height,
        play(start, run).map.tiles.len() == start.map.tiles.len(),
        play(start, run).scores.len() == start.scores.len(),
        team_score(play(start, run).scores) + play(start, run).map.remaining == team_score(
            start.scores,
        ) + start.map.remaining,
        play(start, run).map.remaining <= start.map.remaining,
    decreases run.len(),
{
    if run.len() > 0 {
        let earlier = run.drop_last();
        assert forall|k: int| 0 <= k < earlier.len() implies 0 <= (#[trigger] earlier[k]).who
            < start.scores.len() && start.map.covers(earlier[k].at) by {
            assert(earlier[k] == run[k]);
        }
        lemma_play_conserves(start, earlier);
        let before = play(start, earlier);
        assert(allowed(before, run.last())) by {
            assert(run[run.len() - 1] == run.last());
        }
        lemma_credit_conserves(before, run.last());
    }
}

/// A contest that starts with all scores at 0 and goes on until the map is
/// empty hands the robots, between them, exactly the score that the map held
/// at the start.
pub proof fn lemma_finished_contest(start: Standing, run: Seq<Harvest>)
    requires
        start.map.wf(),
        all_allowed(start, run),
        team_score(start.scores) == 0,
        play(start, run).map.remaining == 0,
    ensures
        team_score(play(start, run).scores) == start.map.remaining,
{
    lemma_play_conserves(start, run);
}

/// Picks the winner: the place of the highest score, and among equal highest
/// scores the one that comes first.
pub fn best_robot(scores: &Vec<usize>) -> (best: usize)
    requires
        scores.len() > 0,
    ensures
        best < scores.len(),
        forall|i: int| 0 <= i < scores.len() ==> scores[i] <= scores[best as int],
        forall|i: int| 0 <= i < best ==> scores[i] < scores[best as int],
{
    let mut best: usize = 0;
    let mut seen: usize = 1;
    while seen < scores.len()
        invariant
            best < seen <= scores.len(),
            forall|i: int| 0 <= i < seen ==> scores[i] <= scores[best as int],
            forall|i: int| 0 <= i < best ==> scores[i] < scores[best as int],
        decreases scores.len() - seen,
    {
        if scores[seen] > scores[best] {
            best = seen;
        }
        seen = seen + 1;
    }
    best
}

} // verus!
