//! Positions on a world map.

use vstd::prelude::*;
use crate::chance::random_usize;
use crate::map::WorldMap;

verus! {

/// Mathematical model of a position: a coordinate pair together with the
/// dimensions of the map that the position was made for.
pub struct PositionView {
    /// Column.
    pub x: nat,
    /// Row.
    pub y: nat,
    /// Number of columns of the map.
    pub width: nat,
    /// Number of rows of the map.
    pub height: nat,
}

/// The value that a setter stores for `value` on an axis of length `extent`:
/// `value` itself while it is a valid coordinate, else `extent`.
pub open spec fn clamp(value: nat, extent: nat) -> nat {
    if value < extent {
        value
    } else {
        extent
    }
}

impl PositionView {
    /// Both coordinates name a tile of the map.
    pub open spec fn in_bounds(self) -> bool {
        self.x < self.width && self.y < self.height
    }

    /// Place of the tile in the map's row-after-row order.
    pub open spec fn index(self) -> nat {
        self.x + self.y * self.width
    }
}

/// A position bound to the dimensions of a `WorldMap`.
pub struct WorldPosition {
    x: usize,
    y: usize,
    map_width: usize,
    map_height: usize,
}

impl View for WorldPosition {
    type V = PositionView;

    closed spec fn view(&self) -> PositionView {
        PositionView {
            x: self.x as nat,
            y: self.y as nat,
            width: self.map_width as nat,
            height: self.map_height as nat,
        }
    }
}

impl Clone for WorldPosition {
    fn clone(&self) -> (copy: Self)
        ensures
            copy@ == self@,
    {
        WorldPosition {
            x: self.x,
            y: self.y,
            map_width: self.map_width,
            map_height: self.map_height,
        }
    }
}

impl WorldPosition {
    /// Makes the position `(x, y)` for `map`. The coordinates are stored as
    /// given, also where they lie outside the map.
    pub fn new(map: &WorldMap, x: usize, y: usize) -> (pos: Self)
        ensures
            pos@ == (PositionView { x: x as nat, y: y as nat, width: map@.width, height: map@.height }),
    {
        WorldPosition { x, y, map_width: map.width(), map_height: map.height() }
    }

    /// Column.
    pub fn x(&self) -> (x: usize)
        ensures
            x == self@.x,
    {
        self.x
    }

    /// Row.
    pub fn y(&self) -> (y: usize)
        ensures
            y == self@.y,
    {
        self.y
    }

    /// Sets the column. A value at or past the map's width is replaced by the
    /// width itself, which is one past the last column: the position is then
    /// not `in_bounds`.
    pub fn set_x(&mut self, x: usize)
        ensures
            final(self)@ == (PositionView { x: clamp(x as nat, old(self)@.width), ..old(self)@ }),
    {
        if x < self.map_width {
            self.x = x;
        } else {
            self.x = self.map_width;
        }
    }

    /// Sets the row. A value at or past the map's height is replaced by the
    /// height itself, which is one past the last row: the position is then
    /// not `in_bounds`.
    pub fn set_y(&mut self, y: usize)
        ensures
            final(self)@ == (PositionView { y: clamp(y as nat, old(self)@.height), ..old(self)@ }),
    {
        if y < self.map_height {
            self.y = y;
        } else {
            self.y = self.map_height;
        }
    }

    /// Says whether the position was made for a map of `map`'s dimensions and
    /// names one of its tiles.
    pub fn is_on(&self, map: &WorldMap) -> (on: bool)
        ensures
            on == (map@.owns(self@) && self@.in_bounds()),
    {
        self.map_width == map.width() && self.map_height == map.height() && self.x
            < self.map_width && self.y < self.map_height
    }

    /// Gives the tile's place in the map's row-after-row order: the column
    /// plus the row times the map's width.
    pub fn to_index(&self) -> (index: usize)
        requires
            self@.index() <= usize::MAX,
        ensures
            index == self@.index(),
    {
        assert(self@.y * self@.width <= self@.index());
        self.x + self.y * self.map_width
    }

    /// Moves to the position that two random draws stand for: column
    /// `draw_x` modulo the width, row `draw_y` modulo the height.
    pub fn place(&mut self, draw_x: usize, draw_y: usize)
        requires
            old(self)@.width > 0,
            old(self)@.height > 0,
        ensures
            final(self)@ == (PositionView {
                x: (draw_x as nat) % old(self)@.width,
                y: (draw_y as nat) % old(self)@.height,
                ..old(self)@
            }),
            final(self)@.in_bounds(),
    {
        self.x = draw_x % self.map_width;
        self.y = draw_y % self.map_height;
    }

    /// Sets to a random position within the bounds of the map.
    pub fn randomize(&mut self)
        requires
            old(self)@.width > 0,
            old(self)@.height > 0,
        ensures
            final(self)@.in_bounds(),
            final(self)@.width == old(self)@.width,
            final(self)@.height == old(self)@.height,
    {
        let draw_x: usize = random_usize();
        let draw_y: usize = random_usize();
        self.place(draw_x, draw_y);
    }
}

} // verus!
