//! An instruction pointer that carries its own heading.
//!
//! Unlike [`crate::interpreter::Ip`], which pairs a position with the grid's
//! dimensions and is steered from outside, this pointer stores its delta as a
//! pair of components. That makes turning, reversing and stepping relative to
//! the current heading natural, which is what the extended instructions for
//! turns and reversal need.

use vstd::prelude::*;

use crate::interpreter::grid::lemma_wrap_step_is_mod;
use crate::interpreter::grid::wrap_step;

verus! {

/// A position on a toroidal grid together with the heading the pointer is
/// travelling in.
#[derive(Clone, Copy, Debug, PartialEq, Eq, Structural)]
pub struct IP {
    /// Position along the horizontal axis.
    pub x: i64,
    /// Position along the vertical axis.
    pub y: i64,
    /// Horizontal component of the heading.
    pub dx: i64,
    /// Vertical component of the heading.
    pub dy: i64,
}

impl IP {
    /// The position lies on a `width` by `height` torus.
    pub open spec fn on_torus(self, width: usize, height: usize) -> bool {
        &&& 0 < width
        &&& 0 < height
        &&& 0 <= self.x < width
        &&& 0 <= self.y < height
    }

    /// The heading is a unit vector or zero in each axis.
    pub open spec fn unit_heading(self) -> bool {
        -1 <= self.dx <= 1 && -1 <= self.dy <= 1
    }

    /// Both axes of the torus fit comfortably in the coordinate type, so a
    /// wrapped step can never overflow.
    pub open spec fn small_torus(width: usize, height: usize) -> bool {
        width as int <= 0x4000_0000_0000_0000 && height as int <= 0x4000_0000_0000_0000
    }

    pub fn new(x: i64, y: i64, dx: i64, dy: i64) -> (r: IP)
        ensures
            r == (IP { x, y, dx, dy }),
    {
        IP { x, y, dx, dy }
    }

    /// The pointer one step ahead on the current heading.
    pub fn new_straight(&self, width: usize, height: usize) -> (r: IP)
        requires
            self.on_torus(width, height),
            self.unit_heading(),
            IP::small_torus(width, height),
        ensures
            r.dx == self.dx && r.dy == self.dy,
            r.on_torus(width, height),
            r.x == wrap_step(self.x as int, self.dx as int, width as int),
            r.y == wrap_step(self.y as int, self.dy as int, height as int),
    {
        let mut new = *self;
        new.advance(width, height);
        new
    }

    /// The pointer turned a quarter turn clockwise and stepped once.
    pub fn new_turn_right(&self, width: usize, height: usize) -> (r: IP)
        requires
            self.on_torus(width, height),
            self.unit_heading(),
            IP::small_torus(width, height),
        ensures
            r.dx == self.dy && r.dy == -self.dx,
            r.on_torus(width, height),
            r.x == wrap_step(self.x as int, self.dy as int, width as int),
            r.y == wrap_step(self.y as int, -self.dx as int, height as int),
    {
        let mut new = *self;
        new.rotate_right();
        new.advance(width, height);
        new
    }

    /// The pointer turned a quarter turn counterclockwise and stepped once.
    pub fn new_turn_left(&self, width: usize, height: usize) -> (r: IP)
        requires
            self.on_torus(width, height),
            self.unit_heading(),
            IP::small_torus(width, height),
        ensures
            r.dx == -self.dy && r.dy == self.dx,
            r.on_torus(width, height),
            r.x == wrap_step(self.x as int, -self.dy as int, width as int),
            r.y == wrap_step(self.y as int, self.dx as int, height as int),
    {
        let mut new = *self;
        new.rotate_left();
        new.advance(width, height);
        new
    }

    /// The pointer headed left and stepped once.
    pub fn new_left(&self, width: usize, height: usize) -> (r: IP)
        requires
            self.on_torus(width, height),
            IP::small_torus(width, height),
        ensures
            r.dx == -1 && r.dy == 0,
            r.on_torus(width, height),
            r.x == wrap_step(self.x as int, -1, width as int),
            r.y == self.y,
    {
        let mut new = *self;
        new.left();
        new.advance(width, height);
        new
    }

    /// The pointer headed right and stepped once.
    pub fn new_right(&self, width: usize, height: usize) -> (r: IP)
        requires
            self.on_torus(width, height),
            IP::small_torus(width, height),
        ensures
            r.dx == 1 && r.dy == 0,
            r.on_torus(width, height),
            r.x == wrap_step(self.x as int, 1, width as int),
            r.y == self.y,
    {
        let mut new = *self;
        new.right();
        new.advance(width, height);
        new
    }

    /// The pointer headed up and stepped once.
    pub fn new_up(&self, width: usize, height: usize) -> (r: IP)
        requires
            self.on_torus(width, height),
            IP::small_torus(width, height),
        ensures
            r.dx == 0 && r.dy == -1,
            r.on_torus(width, height),
            r.x == self.x,
            r.y == wrap_step(self.y as int, -1, height as int),
    {
        let mut new = *self;
        new.up();
        new.advance(width, height);
        new
    }

    /// The pointer headed down and stepped once.
    pub fn new_down(&self, width: usize, height: usize) -> (r: IP)
        requires
            self.on_torus(width, height),
            IP::small_torus(width, height),
        ensures
            r.dx == 0 && r.dy == 1,
            r.on_torus(width, height),
            r.x == self.x,
            r.y == wrap_step(self.y as int, 1, height as int),
    {
        let mut new = *self;
        new.down();
        new.advance(width, height);
        new
    }

    /// The current heading as `(dx, dy)`.
    pub fn delta(&self) -> (r: (i64, i64))
        ensures
            r.0 == self.dx && r.1 == self.dy,
    {
        (self.dx, self.dy)
    }

    /// One toroidal step along the current heading: each axis moves by its
    /// delta component and wraps modulo the corresponding dimension.
    pub fn advance(&mut self, width: usize, height: usize)
        requires
            old(self).on_torus(width, height),
            -(width as int) <= old(self).dx as int <= width as int,
            -(height as int) <= old(self).dy as int <= height as int,
            IP::small_torus(width, height),
        ensures
            final(self).dx == old(self).dx && final(self).dy == old(self).dy,
            final(self).on_torus(width, height),
            final(self).x == wrap_step(old(self).x as int, old(self).dx as int, width as int),
            final(self).y == wrap_step(old(self).y as int, old(self).dy as int, height as int),
            final(self).x as int % (width as int) == (old(self).x + old(self).dx) % (width as int),
            final(self).y as int % (height as int) == (old(self).y + old(self).dy) % (
            height as int),
    {
        proof {
            lemma_wrap_step_is_mod(self.x as int, self.dx as int, width as int);
            lemma_wrap_step_is_mod(self.y as int, self.dy as int, height as int);
        }
        self.x = self.x + self.dx;
        self.y = self.y + self.dy;

        if self.x >= width as i64 {
            self.x = self.x - width as i64;
        } else if self.x < 0 {
            self.x = self.x + width as i64;
        }

        if self.y >= height as i64 {
            self.y = self.y - height as i64;
        } else if self.y < 0 {
            self.y = self.y + height as i64;
        }
    }

    /// Heads the pointer left.
    pub fn left(&mut self)
        ensures
            *final(self) == (IP { dx: -1i64, dy: 0i64, ..*old(self) }),
    {
        self.dx = -1;
        self.dy = 0;
    }

    /// Heads the pointer right.
    pub fn right(&mut self)
        ensures
            *final(self) == (IP { dx: 1i64, dy: 0i64, ..*old(self) }),
    {
        self.dx = 1;
        self.dy = 0;
    }

    /// Heads the pointer up.
    pub fn up(&mut self)
        ensures
            *final(self) == (IP { dx: 0i64, dy: -1i64, ..*old(self) }),
    {
        self.dx = 0;
        self.dy = -1;
    }

    /// Heads the pointer down.
    pub fn down(&mut self)
        ensures
            *final(self) == (IP { dx: 0i64, dy: 1i64, ..*old(self) }),
    {
        self.dx = 0;
        self.dy = 1;
    }

    /// Turns the heading a quarter turn clockwise.
    pub fn rotate_right(&mut self)
        requires
            old(self).dx > i64::MIN,
        ensures
            final(self).dx == old(self).dy,
            final(self).dy == -old(self).dx,
            final(self).x == old(self).x && final(self).y == old(self).y,
    {
        let new_dx = self.dy;
        let new_dy = -self.dx;

        self.dx = new_dx;
        self.dy = new_dy;
    }

    /// Turns the heading a quarter turn counterclockwise.
    pub fn rotate_left(&mut self)
        requires
            old(self).dy > i64::MIN,
        ensures
            final(self).dx == -old(self).dy,
            final(self).dy == old(self).dx,
            final(self).x == old(self).x && final(self).y == old(self).y,
    {
        let new_dx = -self.dy;
        let new_dy = self.dx;

        self.dx = new_dx;
        self.dy = new_dy;
    }

    /// Reverses the heading.
    pub fn flip(&mut self)
        requires
            old(self).dx > i64::MIN,
            old(self).dy > i64::MIN,
        ensures
            final(self).dx == -old(self).dx,
            final(self).dy == -old(self).dy,
            final(self).x == old(self).x && final(self).y == old(self).y,
    {
        self.dx = -self.dx;
        self.dy = -self.dy;
    }
}

} // verus!
