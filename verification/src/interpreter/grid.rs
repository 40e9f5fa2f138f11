use vstd::arithmetic::div_mod::{
    lemma_mod_add_multiples_vanish, lemma_mod_sub_multiples_vanish, lemma_small_mod,
};
use vstd::prelude::*;

use crate::error::Error;

verus! {

/// A direction the instruction pointer travels in.
#[derive(Clone, Copy, Debug, PartialEq, Eq, Structural)]
pub enum Delta {
    Left,
    Right,
    Up,
    Down,
}

impl Delta {
    /// The unit step `(dx, dy)` of this direction.
    pub open spec fn step(self) -> (int, int) {
        match self {
            Delta::Left => (-1int, 0int),
            Delta::Right => (1int, 0int),
            Delta::Up => (0int, -1int),
            Delta::Down => (0int, 1int),
        }
    }

    fn values(self) -> (r: (i32, i32))
        ensures
            r.0 as int == self.step().0,
            r.1 as int == self.step().1,
    {
        match self {
            Delta::Left => (-1, 0),
            Delta::Right => (1, 0),
            Delta::Up => (0, -1),
            Delta::Down => (0, 1),
        }
    }
}

/// One toroidal step along a single axis: the value moves by `delta` and
/// wraps modulo `max`.
pub open spec fn wrap_step(value: int, delta: int, max: int) -> int {
    let moved = value + delta;
    if moved >= max {
        moved - max
    } else if moved < 0 {
        moved + max
    } else {
        moved
    }
}

/// A step within one axis, wrapped to `[0, max)`.
///
/// The wrap only compensates a single crossing, so the step must not
/// overshoot by more than one whole axis; negating the least representable
/// step would overflow, so that one stays out.
fn clamped_add(value: usize, delta: i32, max: usize) -> (r: usize)
    requires
        0 < max,
        value < max,
        -(max as int) <= delta as int <= max as int,
        i32::MIN < delta,
    ensures
        r < max,
        r as int == wrap_step(value as int, delta as int, max as int),
        r as int % (max as int) == (value + delta) % (max as int),
{
    proof {
        lemma_wrap_step_is_mod(value as int, delta as int, max as int);
    }
    if delta < 0 {
        let step = (-delta) as usize;
        if step > value {
            max - (step - value)
        } else {
            value - step
        }
    } else {
        let step = delta as usize;
        if step >= max - value {
            step - (max - value)
        } else {
            value + step
        }
    }
}

/// A step wrapped into `[0, max)` lands exactly on the residue of the moved
/// value modulo the axis length, provided the step cannot overshoot by more
/// than one whole axis.
pub proof fn lemma_wrap_step_is_mod(value: int, delta: int, max: int)
    requires
        0 < max,
        0 <= value < max,
        -max <= delta <= max,
    ensures
        0 <= wrap_step(value, delta, max) < max,
        wrap_step(value, delta, max) % max == (value + delta) % max,
{
    let moved = value + delta;
    let wrapped = wrap_step(value, delta, max);
    if moved >= max {
        lemma_mod_sub_multiples_vanish(moved, max);
        lemma_small_mod(wrapped as nat, max as nat);
    } else if moved < 0 {
        lemma_mod_add_multiples_vanish(moved, max);
        lemma_small_mod(wrapped as nat, max as nat);
    } else {
        lemma_small_mod(wrapped as nat, max as nat);
    }
}

/// The instruction pointer: a position on a toroidal grid together with the
/// grid's dimensions.
#[derive(Clone, Copy, Debug, PartialEq, Eq, Structural)]
pub struct Ip {
    /// Position along the horizontal axis.
    pub x: usize,
    /// Position along the vertical axis.
    pub y: usize,
    /// Width of the torus.
    pub w: usize,
    /// Height of the torus.
    pub h: usize,
}

impl Ip {
    /// The pointer stays strictly inside its torus.
    pub open spec fn wf(self) -> bool {
        self.x < self.w && self.y < self.h
    }

    pub fn new(x: usize, y: usize, w: usize, h: usize) -> (r: Self)
        requires
            x < w,
            y < h,
        ensures
            r == (Ip { x, y, w, h }),
            r.wf(),
    {
        Self { x, y, w, h }
    }

    /// The pointer after one toroidal step in the given direction.
    pub open spec fn stepped(self, delta: Delta) -> Ip {
        Ip {
            x: wrap_step(self.x as int, delta.step().0, self.w as int) as usize,
            y: wrap_step(self.y as int, delta.step().1, self.h as int) as usize,
            ..self
        }
    }

    /// One toroidal step: each axis moves by the delta's component and wraps
    /// modulo the corresponding dimension, so the pointer never leaves the
    /// grid.
    pub fn advance(&mut self, delta: Delta)
        requires
            old(self).wf(),
        ensures
            *final(self) == old(self).stepped(delta),
            final(self).wf(),
            final(self).w == old(self).w,
            final(self).h == old(self).h,
            final(self).x as int == wrap_step(old(self).x as int, delta.step().0, old(self).w as int),
            final(self).y as int == wrap_step(old(self).y as int, delta.step().1, old(self).h as int),
            final(self).x as int % (old(self).w as int) == (old(self).x + delta.step().0) % (
            old(self).w as int),
            final(self).y as int % (old(self).h as int) == (old(self).y + delta.step().1) % (
            old(self).h as int),
    {
        let (dx, dy) = delta.values();
        self.x = clamped_add(self.x, dx, self.w);
        self.y = clamped_add(self.y, dy, self.h);
    }

    /// The coordinate along the horizontal axis.
    pub fn row(&self) -> (r: usize)
        ensures
            r == self.x,
    {
        self.x
    }

    /// The coordinate along the vertical axis.
    pub fn col(&self) -> (r: usize)
        ensures
            r == self.y,
    {
        self.y
    }
}

/// An immutable rectangular field of cells, addressed by an [`Ip`].
///
/// The outer sequence holds one row of cells per vertical coordinate; an
/// `Ip`'s `x` selects within a row and its `y` selects the row.
#[derive(Debug)]
pub struct Grid<T>(Vec<Vec<T>>);

impl<T> View for Grid<T> {
    type V = Seq<Seq<T>>;

    closed spec fn view(&self) -> Seq<Seq<T>> {
        self.0@.map_values(|row: Vec<T>| row@)
    }
}

/// A row padded with spaces to the given width.
pub open spec fn padded_row(row: Seq<char>, width: int) -> Seq<char> {
    row + Seq::new((width - row.len()) as nat, |j: int| ' ')
}

/// The length of the longest row.
pub open spec fn max_row_len(rows: Seq<Seq<char>>) -> int
    decreases rows.len(),
{
    if rows.len() == 0 {
        0
    } else {
        let rest = max_row_len(rows.drop_last());
        if rows.last().len() > rest {
            rows.last().len() as int
        } else {
            rest
        }
    }
}

impl Grid<char> {
    /// Builds a program grid from its source lines: ragged lines are padded
    /// on the right with spaces to the longest line's length. A source with
    /// no lines, or whose lines are all empty, has no cells and is rejected
    /// with a shape error.
    pub fn from_lines(lines: Vec<Vec<char>>) -> (r: Result<Self, Error>)
        ensures
            match r {
                Ok(g) => {
                    &&& g@.len() == lines@.len()
                    &&& g.width() == max_row_len(lines@.map_values(|row: Vec<char>| row@))
                    &&& forall|i: int|
                        0 <= i < lines@.len() ==> #[trigger] g@[i] == padded_row(
                            lines@[i]@,
                            g.width(),
                        )
                },
                Err(e) => e is GridShape,
            },
            r is Ok <==> (lines@.len() > 0 && max_row_len(
                lines@.map_values(|row: Vec<char>| row@),
            ) > 0),
    {
        let ghost rows = lines@.map_values(|row: Vec<char>| row@);

        let mut len: usize = 0;
        let mut i: usize = 0;
        while i < lines.len()
            invariant
                0 <= i <= lines@.len(),
                rows == lines@.map_values(|row: Vec<char>| row@),
                rows.len() == lines@.len(),
                len == max_row_len(rows.subrange(0, i as int)),
            decreases lines@.len() - i,
        {
            proof {
                assert(rows.subrange(0, i + 1).drop_last() =~= rows.subrange(0, i as int));
                assert(rows.subrange(0, i + 1).last() == rows[i as int]);
            }
            if lines[i].len() > len {
                len = lines[i].len();
            }
            i += 1;
        }
        proof {
            assert(rows.subrange(0, rows.len() as int) =~= rows);
        }

        if lines.len() == 0 || len == 0 {
            return Err(Error::GridShape);
        }

        let mut padded: Vec<Vec<char>> = Vec::new();
        let mut i: usize = 0;
        let mut lines = lines;
        while i < lines.len()
            invariant
                0 <= i <= lines@.len(),
                rows == lines@.map_values(|row: Vec<char>| row@),
                rows.len() == lines@.len(),
                len == max_row_len(rows),
                len > 0,
                padded@.len() == i,
                forall|j: int|
                    0 <= j < i ==> #[trigger] padded@[j]@ == padded_row(rows[j], len as int),
                forall|j: int| 0 <= j < i ==> #[trigger] padded@[j]@.len() == len,
            decreases lines@.len() - i,
        {
            proof {
                lemma_max_row_len_bounds(rows, i as int);
            }
            let mut row: Vec<char> = Vec::new();
            let mut j: usize = 0;
            while j < lines[i].len()
                invariant
                    0 <= i < lines@.len(),
                    rows == lines@.map_values(|row: Vec<char>| row@),
                    0 <= j <= rows[i as int].len(),
                    row@ =~= rows[i as int].subrange(0, j as int),
                decreases lines@[i as int]@.len() - j,
            {
                row.push(lines[i][j]);
                proof {
                    assert(row@ =~= rows[i as int].subrange(0, j + 1 as int));
                }
                j += 1;
            }
            proof {
                assert(row@ =~= rows[i as int]);
            }
            while row.len() < len
                invariant
                    rows[i as int].len() <= row@.len() <= len,
                    row@.subrange(0, rows[i as int].len() as int) =~= rows[i as int],
                    forall|j: int|
                        rows[i as int].len() <= j < row@.len() ==> #[trigger] row@[j] == ' ',
                decreases len - row@.len(),
            {
                row.push(' ');
            }
            proof {
                assert(row@ =~= padded_row(rows[i as int], len as int));
            }
            padded.push(row);
            i += 1;
        }

        proof {
            assert(padded@.map_values(|row: Vec<char>| row@).len() == padded@.len());
            let pview = padded@.map_values(|row: Vec<char>| row@);
            assert forall|j: int| 0 <= j < pview.len() implies #[trigger] pview[j].len()
                == pview[0].len() by {
                assert(padded@[j]@.len() == len);
                assert(padded@[0]@.len() == len);
            }
        }
        match Grid::new(padded) {
            Ok(g) => {
                proof {
                    assert(g.width() == len);
                }
                Ok(g)
            }
            Err(e) => Err(e),
        }
    }
}

/// Every row is at most as long as the longest.
proof fn lemma_max_row_len_bounds(rows: Seq<Seq<char>>, i: int)
    requires
        0 <= i < rows.len(),
    ensures
        rows[i].len() <= max_row_len(rows),
        max_row_len(rows) >= 0,
    decreases rows.len(),
{
    if rows.len() > 0 {
        if i == rows.len() - 1 {
            if rows.len() > 1 {
                lemma_max_row_len_bounds(rows.drop_last(), 0);
            }
        } else {
            lemma_max_row_len_bounds(rows.drop_last(), i);
            assert(rows.drop_last()[i] == rows[i]);
        }
    }
}

/// Every row of the field has the same length.
pub open spec fn all_rows_equal_spec<T>(rows: Seq<Seq<T>>) -> bool {
    forall|i: int| 0 <= i < rows.len() ==> #[trigger] rows[i].len() == rows[0].len()
}

fn all_rows_equal<T>(grid: &Vec<Vec<T>>) -> (r: bool)
    ensures
        r == all_rows_equal_spec(grid@.map_values(|row: Vec<T>| row@)),
{
    let ghost rows = grid@.map_values(|row: Vec<T>| row@);
    let mut i: usize = 0;
    let mut eq = true;
    while i < grid.len()
        invariant
            0 <= i <= grid.len(),
            rows == grid@.map_values(|row: Vec<T>| row@),
            rows.len() == grid.len(),
            eq == (forall|j: int| 0 <= j < i ==> #[trigger] rows[j].len() == rows[0].len()),
        decreases grid.len() - i,
    {
        let same = grid[i].len() == grid[0].len();
        proof {
            assert(rows[i as int] == grid@[i as int]@);
            assert(rows[0] == grid@[0]@);
        }
        if !same {
            eq = false;
        } else {
            proof {
                if eq {
                    assert forall|j: int| 0 <= j < i + 1 implies #[trigger] rows[j].len()
                        == rows[0].len() by {
                        if j < i {
                            assert(rows[j].len() == rows[0].len());
                        }
                    }
                }
            }
        }
        i += 1;
    }
    eq
}

impl<T> Grid<T> {
    /// A grid is well formed when it has at least one row, at least one
    /// column, and all rows share one width. Every grid that can be
    /// constructed is well formed.
    #[verifier::type_invariant]
    pub open spec fn wf(&self) -> bool {
        &&& self@.len() > 0
        &&& self@[0].len() > 0
        &&& all_rows_equal_spec(self@)
    }

    /// The number of rows.
    pub open spec fn height(&self) -> int {
        self@.len() as int
    }

    /// The shared width of the rows.
    pub open spec fn width(&self) -> int {
        self@[0].len() as int
    }

    /// Builds a grid from its rows.
    ///
    /// Construction fails with a shape error unless the rows all have one
    /// length and the grid has at least one cell.
    pub fn new(vec: Vec<Vec<T>>) -> (r: Result<Self, Error>)
        ensures
            match r {
                Ok(g) => {
                    &&& g@ == vec@.map_values(|row: Vec<T>| row@)
                    &&& g.wf()
                },
                Err(e) => {
                    &&& e is GridShape
                    &&& {
                        ||| vec@.len() == 0
                        ||| vec@[0]@.len() == 0
                        ||| !all_rows_equal_spec(vec@.map_values(|row: Vec<T>| row@))
                    }
                },
            },
            (vec@.len() > 0 && vec@[0]@.len() > 0 && all_rows_equal_spec(
                vec@.map_values(|row: Vec<T>| row@),
            )) <==> r is Ok,
    {
        if vec.len() == 0 || vec[0].len() == 0 || !all_rows_equal(&vec) {
            Err(Error::GridShape)
        } else {
            Ok(Grid(vec))
        }
    }

    /// The initial instruction pointer: the top-left cell, with the torus
    /// dimensions taken from the grid.
    pub fn ip(&self) -> (r: Ip)
        requires
            self.wf(),
        ensures
            r.x == 0 && r.y == 0,
            r.w == self.width() && r.h == self.height(),
            r.wf(),
    {
        proof {
            assert(self@[0] == self.0@[0]@);
        }
        Ip::new(0, 0, self.0[0].len(), self.0.len())
    }

    /// A structurally equal copy of this grid, for cell types that copy.
    pub fn duplicate(&self) -> (g: Self) where T: Copy
        ensures
            g@ == self@,
    {
        let mut rows: Vec<Vec<T>> = Vec::new();
        let mut i: usize = 0;
        while i < self.0.len()
            invariant
                0 <= i <= self.0.len(),
                rows@.map_values(|row: Vec<T>| row@) =~= self@.subrange(0, i as int),
            decreases self.0.len() - i,
        {
            let mut row: Vec<T> = Vec::new();
            let mut j: usize = 0;
            while j < self.0[i].len()
                invariant
                    0 <= i < self.0.len(),
                    0 <= j <= self.0@[i as int].len(),
                    row@ =~= self.0@[i as int]@.subrange(0, j as int),
                decreases self.0[i as int].len() - j,
            {
                row.push(self.0[i][j]);
                proof {
                    assert(row@ =~= self.0@[i as int]@.subrange(0, j + 1 as int));
                }
                j += 1;
            }
            proof {
                assert(row@ =~= self.0@[i as int]@);
                assert(self@[i as int] == self.0@[i as int]@);
            }
            let ghost prev = rows@;
            rows.push(row);
            proof {
                assert(prev.map_values(|row: Vec<T>| row@).len() == prev.len());
                assert(prev.len() == i);
                assert forall|k: int| 0 <= k < i + 1 implies rows@.map_values(|row: Vec<T>| row@)[k]
                    == #[trigger] self@.subrange(0, i + 1 as int)[k] by {
                    if k < i {
                        assert(prev.map_values(|row: Vec<T>| row@)[k] == self@.subrange(
                            0,
                            i as int,
                        )[k]);
                        assert(rows@[k] == prev[k]);
                    } else {
                        assert(rows@[k] == row);
                    }
                }
                assert(rows@.map_values(|row: Vec<T>| row@) =~= self@.subrange(0, i + 1 as int));
            }
            i += 1;
        }
        proof {
            use_type_invariant(self);
            assert(rows@.map_values(|row: Vec<T>| row@) =~= self@);
        }
        Grid(rows)
    }

    /// The cell under the given pointer; total because a well-formed pointer
    /// on this grid's torus is always in bounds.
    pub fn at(&self, index: &Ip) -> (r: &T)
        requires
            self.wf(),
            index.wf(),
            index.w == self.width(),
            index.h == self.height(),
        ensures
            *r == self@[index.y as int][index.x as int],
    {
        proof {
            assert(self@[index.y as int] == self.0@[index.y as int]@);
            assert(self@[index.y as int].len() == self@[0].len());
        }
        &self.0[index.col()][index.row()]
    }
}

} // verus!
