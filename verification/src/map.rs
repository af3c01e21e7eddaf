//! The world map: a rectangle of tiles, each holding some score.

use vstd::prelude::*;
use crate::chance::random_usize;
use crate::position::{PositionView, WorldPosition};

verus! {

/// Sum of the scores of a row of tiles.
pub open spec fn total(tiles: Seq<usize>) -> nat
    decreases tiles.len(),
{
    if tiles.len() == 0 {
        0
    } else {
        total(tiles.drop_last()) + tiles.last() as nat
    }
}

/// The score that a tile gets from a random draw when scores go from 1 up to
/// `max_field_score`.
pub open spec fn score_from_draw(draw: usize, max_field_score: usize) -> usize {
    (draw % max_field_score + 1) as usize
}

/// Every score lies between `low` and `high`.
pub open spec fn all_within(tiles: Seq<usize>, low: nat, high: nat) -> bool {
    forall|i: int| 0 <= i < tiles.len() ==> low <= #[trigger] tiles[i] <= high
}

/// A parameter that no map can work with: a dimension of 0 where tiles are
/// wanted, or a largest tile score of 0, which leaves no score to draw.
#[derive(Clone, Copy, Debug, PartialEq, Eq)]
pub struct InvalidParameter;

/// Mathematical model of a world map.
pub struct MapView {
    /// Number of columns.
    pub width: nat,
    /// Number of rows.
    pub height: nat,
    /// Score of each tile, row after row.
    pub tiles: Seq<usize>,
    /// The running counter of score that is left on the map.
    pub remaining: nat,
}

impl MapView {
    /// There is one tile per coordinate pair, and the counter equals the sum
    /// of all tile scores.
    pub open spec fn wf(self) -> bool {
        &&& self.width * self.height <= usize::MAX
        &&& self.tiles.len() == self.width * self.height
        &&& self.remaining == total(self.tiles)
    }

    /// The position belongs to a map of these dimensions.
    pub open spec fn owns(self, pos: PositionView) -> bool {
        pos.width == self.width && pos.height == self.height
    }

    /// The position's index names one of the tiles.
    pub open spec fn covers(self, pos: PositionView) -> bool {
        pos.index() < self.tiles.len()
    }

    /// Score of the tile at the position.
    pub open spec fn score(self, pos: PositionView) -> nat {
        self.tiles[pos.index() as int] as nat
    }

    /// What one harvest at the position brings in: 1 while the tile holds
    /// score, else 0.
    pub open spec fn yield_at(self, pos: PositionView) -> nat {
        if self.score(pos) > 0 {
            1
        } else {
            0
        }
    }

    /// The map after one harvest at the position: a tile that holds score
    /// loses one point, and so does the counter; an empty tile leaves the
    /// map as it is.
    pub open spec fn harvest(self, pos: PositionView) -> MapView {
        if self.score(pos) > 0 {
            MapView {
                tiles: self.tiles.update(pos.index() as int, (self.score(pos) - 1) as usize),
                remaining: (self.remaining - 1) as nat,
                ..self
            }
        } else {
            self
        }
    }
}

/// Replacing one tile's score changes the sum by the difference.
pub proof fn lemma_total_update(tiles: Seq<usize>, index: int, score: usize)
    requires
        0 <= index < tiles.len(),
    ensures
        total(tiles.update(index, score)) == total(tiles) - tiles[index] + score,
    decreases tiles.len(),
{
    let changed = tiles.update(index, score);
    if index == tiles.len() - 1 {
        assert(changed.drop_last() == tiles.drop_last());
    } else {
        lemma_total_update(tiles.drop_last(), index, score);
        assert(changed.drop_last() == tiles.drop_last().update(index, score));
    }
}

/// Scores that all lie between `low` and `high` add up to a sum between
/// `low` and `high` times their number.
pub proof fn lemma_total_bounds(tiles: Seq<usize>, low: nat, high: nat)
    requires
        all_within(tiles, low, high),
    ensures
        tiles.len() * low <= total(tiles) <= tiles.len() * high,
    decreases tiles.len(),
{
    if tiles.len() > 0 {
        let rest = tiles.drop_last();
        assert forall|i: int| 0 <= i < rest.len() implies low <= #[trigger] rest[i] <= high by {
            assert(rest[i] == tiles[i]);
        }
        lemma_total_bounds(rest, low, high);
        assert(low <= tiles[tiles.len() - 1] <= high);
        assert(tiles.len() * low == rest.len() * low + low) by (nonlinear_arith)
            requires
                tiles.len() == rest.len() + 1,
        ;
        assert(tiles.len() * high == rest.len() * high + high) by (nonlinear_arith)
            requires
                tiles.len() == rest.len() + 1,
        ;
    } else {
        assert(tiles.len() * low == 0 && tiles.len() * high == 0) by (nonlinear_arith)
            requires
                tiles.len() == 0,
        ;
    }
}

/// The sum is at least as large as each single score.
pub proof fn lemma_total_covers_each(tiles: Seq<usize>, index: int)
    requires
        0 <= index < tiles.len(),
    ensures
        tiles[index] <= total(tiles),
    decreases tiles.len(),
{
    if index < tiles.len() - 1 {
        lemma_total_covers_each(tiles.drop_last(), index);
    }
}

/// Where the sum is positive, some tile holds score.
pub proof fn lemma_score_is_somewhere(tiles: Seq<usize>)
    requires
        total(tiles) > 0,
    ensures
        exists|i: int| 0 <= i < tiles.len() && #[trigger] tiles[i] > 0,
    decreases tiles.len(),
{
    if tiles.last() > 0 {
        assert(tiles[tiles.len() - 1] > 0);
    } else {
        let rest = tiles.drop_last();
        lemma_score_is_somewhere(rest);
        let i: int = choose|i: int| 0 <= i < rest.len() && #[trigger] rest[i] > 0;
        assert(tiles[i] > 0);
    }
}

/// What a harvest does. On a tile that holds score `s > 0` it leaves `s - 1`
/// there, takes one point off the counter and brings in 1; the tile's index
/// and all other tiles stay as they are. On a tile without score it brings in
/// 0 and changes nothing. Either way the map stays sound.
pub proof fn lemma_harvest(map: MapView, pos: PositionView)
    requires
        map.wf(),
        map.covers(pos),
    ensures
        map.harvest(pos).wf(),
        map.harvest(pos).width == map.width,
        map.harvest(pos).height == map.height,
        map.score(pos) > 0 ==> {
            &&& map.yield_at(pos) == 1
            &&& map.harvest(pos).score(pos) == map.score(pos) - 1
            &&& map.harvest(pos).remaining == map.remaining - 1
            &&& forall|i: int|
                0 <= i < map.tiles.len() && i != pos.index() ==> map.harvest(pos).tiles[i]
                    == map.tiles[i]
        },
        map.score(pos) == 0 ==> map.yield_at(pos) == 0 && map.harvest(pos) == map,
{
    if map.score(pos) > 0 {
        lemma_total_update(map.tiles, pos.index() as int, (map.score(pos) - 1) as usize);
        lemma_total_covers_each(map.tiles, pos.index() as int);
    }
}

/// A harvest right after a harvest that took a tile's last point finds
/// nothing there: it brings in 0 and changes nothing.
pub proof fn lemma_harvest_again(map: MapView, pos: PositionView)
    requires
        map.wf(),
        map.covers(pos),
        map.score(pos) == 1,
    ensures
        map.harvest(pos).yield_at(pos) == 0,
        map.harvest(pos).harvest(pos) == map.harvest(pos),
{
    lemma_harvest(map, pos);
}

/// The score read at a tile changes only by a harvest at that very tile,
/// and then by exactly what the harvest brings in.
pub proof fn lemma_score_after_harvest(map: MapView, at: PositionView, read: PositionView)
    requires
        map.wf(),
        map.covers(at),
        map.covers(read),
    ensures
        read.index() != at.index() ==> map.harvest(at).score(read) == map.score(read),
        read.index() == at.index() ==> map.harvest(at).score(read) == map.score(read)
            - map.yield_at(at),
{
}

/// A map without remaining score stays so: every tile is at 0, so that a
/// harvest anywhere brings in 0 and changes nothing.
pub proof fn lemma_exhausted_map(map: MapView, pos: PositionView)
    requires
        map.wf(),
        map.covers(pos),
        map.remaining == 0,
    ensures
        map.score(pos) == 0,
        map.yield_at(pos) == 0,
        map.harvest(pos) == map,
{
    lemma_total_covers_each(map.tiles, pos.index() as int);
}

/// The counter of remaining score never grows by a harvest.
pub proof fn lemma_harvest_never_adds(map: MapView, pos: PositionView)
    requires
        map.wf(),
        map.covers(pos),
    ensures
        map.harvest(pos).remaining + map.yield_at(pos) == map.remaining,
        map.harvest(pos).remaining <= map.remaining,
{
    lemma_harvest(map, pos);
}

/// Rectangular area for robots to collect score in.
pub struct WorldMap {
    width: usize,
    height: usize,
    score_left: usize,
    fields: Vec<usize>,
}

impl View for WorldMap {
    type V = MapView;

    closed spec fn view(&self) -> MapView {
        MapView {
            width: self.width as nat,
            height: self.height as nat,
            tiles: self.fields@,
            remaining: self.score_left as nat,
        }
    }
}

impl WorldMap {
    /// The invariant of a map, stated on its model.
    pub open spec fn wf(&self) -> bool {
        self@.wf()
    }

    /// Creates a new, empty world map of the given dimensions: every tile
    /// holds score 0. A dimension of 0 gives a map without tiles.
    pub fn new(width: usize, height: usize) -> (map: Self)
        requires
            width * height <= usize::MAX,
        ensures
            map.wf(),
            map@.width == width,
            map@.height == height,
            map@.remaining == 0,
            map@.tiles == Seq::new((width * height) as nat, |i: int| 0usize),
    {
        let count: usize = width * height;
        let mut fields: Vec<usize> = Vec::with_capacity(count);
        let mut filled: usize = 0;
        while filled < count
            invariant
                filled <= count,
                fields@ == Seq::new(filled as nat, |i: int| 0usize),
                total(fields@) == 0,
            decreases count - filled,
        {
            fields.push(0);
            filled = filled + 1;
            assert(fields@.drop_last() == Seq::new((filled - 1) as nat, |i: int| 0usize));
        }
        WorldMap { width, height, score_left: 0, fields }
    }

    /// Creates a new, empty world map after checking the dimensions: a map
    /// needs at least one column and one row.
    pub fn try_new(width: usize, height: usize) -> (result: Result<Self, InvalidParameter>)
        requires
            width * height <= usize::MAX,
        ensures
            result is Err <==> width == 0 || height == 0,
            result matches Ok(map) ==> {
                &&& map.wf()
                &&& map@.width == width
                &&& map@.height == height
                &&& map@.remaining == 0
                &&& map@.tiles == Seq::new((width * height) as nat, |i: int| 0usize)
            },
    {
        if width == 0 || height == 0 {
            Err(InvalidParameter)
        } else {
            Ok(WorldMap::new(width, height))
        }
    }

    /// Gives every tile the score that its draw stands for: tile `i` gets
    /// `draws[i] % max_field_score + 1`, whatever it held before, and the
    /// counter of remaining score becomes the sum of the new scores.
    pub fn scatter(&mut self, draws: &Vec<usize>, max_field_score: usize)
        requires
            old(self).wf(),
            max_field_score > 0,
            draws.len() == old(self)@.tiles.len(),
            old(self)@.tiles.len() * max_field_score <= usize::MAX,
        ensures
            final(self).wf(),
            final(self)@.width == old(self)@.width,
            final(self)@.height == old(self)@.height,
            final(self)@.tiles == Seq::new(
                draws.len() as nat,
                |i: int| score_from_draw(draws[i], max_field_score),
            ),
    {
        let count: usize = self.fields.len();
        let mut sum: usize = 0;
        let mut done: usize = 0;
        while done < count
            invariant
                done <= count,
                count == self.fields.len(),
                count == draws.len(),
                max_field_score > 0,
                count * max_field_score <= usize::MAX,
                self.width == old(self).width,
                self.height == old(self).height,
                forall|i: int|
                    0 <= i < done ==> self.fields[i] == score_from_draw(draws[i], max_field_score),
                sum == total(self.fields@.take(done as int)),
                sum <= done * max_field_score,
            decreases count - done,
        {
            let score: usize = draws[done] % max_field_score + 1;
            proof {
                assert((done + 1) * max_field_score <= count * max_field_score) by (nonlinear_arith)
                    requires
                        done + 1 <= count,
                ;
                assert((done + 1) * max_field_score == done * max_field_score + max_field_score)
                    by (nonlinear_arith);
                let before = self.fields@;
                let after = before.update(done as int, score);
                assert(after.take(done + 1).drop_last() == before.take(done as int));
            }
            self.fields.set(done, score);
            sum = sum + score;
            done = done + 1;
        }
        assert(self.fields@.take(count as int) == self.fields@);
        self.score_left = sum;
    }

    /// Sets all tiles to a random score between (and including) 1 and
    /// `max_field_score` each, and the counter of remaining score to their
    /// sum. Fails, and leaves the map alone, if `max_field_score` is 0.
    ///
    /// It is meant to be called once, before the first harvest. The exclusive
    /// reference keeps every harvest out while the scores are being set.
    pub fn randomize_fields(&mut self, max_field_score: usize) -> (result: Result<
        (),
        InvalidParameter,
    >)
        requires
            old(self).wf(),
            old(self)@.tiles.len() * max_field_score <= usize::MAX,
        ensures
            result is Err <==> max_field_score == 0,
            result is Err ==> final(self)@ == old(self)@,
            result is Ok ==> {
                &&& final(self).wf()
                &&& final(self)@.width == old(self)@.width
                &&& final(self)@.height == old(self)@.height
                &&& all_within(final(self)@.tiles, 1, max_field_score as nat)
                &&& final(self)@.remaining == total(final(self)@.tiles)
                &&& final(self)@.tiles.len() <= final(self)@.remaining
                &&& final(self)@.remaining <= final(self)@.tiles.len() * max_field_score
            },
    {
        if max_field_score == 0 {
            return Err(InvalidParameter);
        }
        let count: usize = self.fields.len();
        let mut draws: Vec<usize> = Vec::with_capacity(count);
        while draws.len() < count
            invariant
                draws.len() <= count,
            decreases count - draws.len(),
        {
            draws.push(random_usize());
        }
        self.scatter(&draws, max_field_score);
        proof {
            lemma_total_bounds(self@.tiles, 1, max_field_score as nat);
        }
        Ok(())
    }

    /// Lowers the score at the given position by 1, to a minimum of 0, and
    /// returns the number of points taken: 1 if the tile held score, else 0.
    /// The counter of remaining score goes down by what was taken.
    pub fn deduct_score_at(&mut self, pos: &WorldPosition) -> (harvested: usize)
        requires
            old(self).wf(),
            old(self)@.covers(pos@),
        ensures
            final(self).wf(),
            final(self)@ == old(self)@.harvest(pos@),
            harvested == old(self)@.yield_at(pos@),
    {
        let idx: usize = pos.to_index();
        let score: usize = self.fields[idx];
        if score > 0 {
            proof {
                lemma_total_update(self.fields@, idx as int, (score - 1) as usize);
                lemma_total_covers_each(self.fields@, idx as int);
            }
            self.fields.set(idx, score - 1);
            self.score_left = self.score_left - 1;
            1
        } else {
            0
        }
    }

    /// Returns the amount of score at the given position.
    pub fn score_at(&self, pos: &WorldPosition) -> (score: usize)
        requires
            self@.covers(pos@),
        ensures
            score == self@.score(pos@),
    {
        assert(self.fields@.len() == self.fields.len());
        let idx: usize = pos.to_index();
        self.fields[idx]
    }

    /// Returns the counter of score remaining on the map.
    pub fn score_left(&self) -> (left: usize)
        ensures
            left == self@.remaining,
    {
        self.score_left
    }

    /// Number of columns.
    pub fn width(&self) -> (width: usize)
        ensures
            width == self@.width,
    {
        self.width
    }

    /// Number of rows.
    pub fn height(&self) -> (height: usize)
        ensures
            height == self@.height,
    {
        self.height
    }
}

} // verus!
