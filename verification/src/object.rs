//! A positioned, movable actor. Movement is collision-checked against the
//! grid: a step onto a blocking cell, or off the grid, is rejected as a
//! no-op, never performed and never read out of bounds.

use crate::grid::Grid;
use vstd::prelude::*;

verus! {

/// A display colour as plain red, green and blue components; the rendering
/// layer converts it to whatever its console library expects.
#[derive(Clone, Copy, Debug, PartialEq, Eq, Structural)]
pub struct Color {
    pub r: u8,
    pub g: u8,
    pub b: u8,
}

/// A thing on the map: the player, or any other actor. Position is in grid
/// coordinates; the glyph and colour are display data the core never reads.
#[derive(Clone, Copy, Debug)]
pub struct Object {
    pub x: i32,
    pub y: i32,
    pub glyph: char,
    pub color: Color,
}

impl Object {
    /// Places a new object at `(x, y)`.
    pub fn new(x: i32, y: i32, glyph: char, color: Color) -> (o: Object)
        ensures
            o.x == x,
            o.y == y,
            o.glyph == glyph,
            o.color == color,
    {
        Object { x, y, glyph, color }
    }

    /// Moves the object by `(dx, dy)` if the target cell is on the grid and
    /// does not block movement; otherwise leaves the position unchanged.
    /// Returns whether the move happened. The target is computed without
    /// overflow and never read when it lies off the grid.
    pub fn move_by(&mut self, dx: i32, dy: i32, map: &Grid) -> (moved: bool)
        requires
            map.wf(),
        ensures
            final(self).glyph == old(self).glyph,
            final(self).color == old(self).color,
            moved == (map.in_bounds(old(self).x + dx, old(self).y + dy) && !map.tile(
                old(self).x + dx,
                old(self).y + dy,
            ).blocked),
            moved ==> final(self).x == old(self).x + dx && final(self).y == old(self).y + dy,
            !moved ==> final(self).x == old(self).x && final(self).y == old(self).y,
    {
        let tx: i64 = self.x as i64 + dx as i64;
        let ty: i64 = self.y as i64 + dy as i64;
        if 0 <= tx && tx < map.width as i64 && 0 <= ty && ty < map.height as i64 {
            let txi: i32 = tx as i32;
            let tyi: i32 = ty as i32;
            if !map.get(txi, tyi).blocked {
                self.x = txi;
                self.y = tyi;
                return true;
            }
        }
        false
    }
}

} // verus!
