use vstd::prelude::*;

use crate::frame::{CellUpdate, Frame};
use crate::GameError;

verus! {

/// A heading of the snake on the grid.
#[derive(Clone, Copy, Debug, PartialEq, Eq, Structural)]
pub enum Direction {
    Up,
    Down,
    Left,
    Right,
}

/// The unit step a head takes in one move, as `(row delta, col delta)`.
/// Rows grow downward, columns grow rightward.
pub open spec fn step_vec(d: Direction) -> (int, int) {
    match d {
        Direction::Up => (-1, 0),
        Direction::Down => (1, 0),
        Direction::Left => (0, -1),
        Direction::Right => (0, 1),
    }
}

/// Cell `i` of a body laid out backward from `head`: `i` unit steps away
/// from `head`, opposite to the heading `dir`.
pub open spec fn layout_cell(head: (i32, i32), dir: Direction, i: int) -> (int, int) {
    match dir {
        Direction::Up => (head.0 + i, head.1 as int),
        Direction::Down => (head.0 - i, head.1 as int),
        Direction::Left => (head.0 as int, head.1 + i),
        Direction::Right => (head.0 as int, head.1 - i),
    }
}

/// Whether some cell of `body` sits at row `r`, column `c`.
pub open spec fn occupies(body: Seq<(i32, i32)>, r: int, c: int) -> bool {
    exists|j: int| 0 <= j < body.len() && body[j].0 == r && body[j].1 == c
}

/// Whether `body` is the straight line laid out backward from `head`
/// against heading `dir`.
pub open spec fn is_layout(body: Seq<(i32, i32)>, head: (i32, i32), dir: Direction) -> bool {
    forall|i: int|
        0 <= i < body.len() ==> (#[trigger] body[i]).0 == layout_cell(head, dir, i).0 && body[i].1
            == layout_cell(head, dir, i).1
}

/// Whether every cell of the backward layout of `length` cells from `head`
/// has non-negative coordinates.
pub open spec fn layout_non_negative(head: (i32, i32), dir: Direction, length: int) -> bool {
    forall|i: int|
        0 <= i < length ==> (#[trigger] layout_cell(head, dir, i)).0 >= 0 && layout_cell(
            head,
            dir,
            i,
        ).1 >= 0
}

/// Whether every cell of the backward layout of `length` cells from `head`
/// fits the machine's cell coordinates.
pub open spec fn layout_fits(head: (i32, i32), dir: Direction, length: int) -> bool {
    forall|i: int|
        0 <= i < length ==> i32::MIN <= (#[trigger] layout_cell(head, dir, i)).0 <= i32::MAX
            && i32::MIN <= layout_cell(head, dir, i).1 <= i32::MAX
}

/// The snake: an ordered sequence of occupied cells, head first, plus the
/// current heading.
#[derive(Debug)]
pub struct Snake {
    pub body: Vec<(i32, i32)>,
    pub dir: Direction,
}

impl Snake {
    /// Lays out `length` cells extending backward from `head`, opposite to
    /// `dir`. Fails softly, with an empty body, if any generated cell would
    /// carry a negative coordinate; an empty body is a construction failure,
    /// not a playable snake.
    pub fn new(head: (i32, i32), dir: Direction, length: usize) -> (s: Snake)
        requires
            length <= 0x7fff_ffff,
            layout_fits(head, dir, length as int),
        ensures
            s.dir == dir,
            layout_non_negative(head, dir, length as int) ==> s.body@.len() == length
                && is_layout(s.body@, head, dir),
            !layout_non_negative(head, dir, length as int) ==> s.body@.len() == 0,
    {
        let mut b: Vec<(i32, i32)> = Vec::new();
        let mut x: usize = 0;
        while x < length
            invariant
                x <= length,
                length <= 0x7fff_ffff,
                layout_fits(head, dir, length as int),
                b@.len() == x,
                is_layout(b@, head, dir),
            decreases length - x,
        {
            proof {
                assert(i32::MIN <= (layout_cell(head, dir, x as int)).0 <= i32::MAX);
            }
            let xi = x as i32;
            let cell: (i32, i32) = match dir {
                Direction::Up => (head.0 + xi, head.1),
                Direction::Down => (head.0 - xi, head.1),
                Direction::Left => (head.0, head.1 + xi),
                Direction::Right => (head.0, head.1 - xi),
            };
            b.push(cell);
            x += 1;
        }

        let mut y: usize = 0;
        while y < length
            invariant
                y <= length,
                b@.len() == length,
                is_layout(b@, head, dir),
                forall|i: int| 0 <= i < y ==> (#[trigger] b@[i]).0 >= 0 && b@[i].1 >= 0,
            decreases length - y,
        {
            let cell = b[y];
            if cell.0 < 0 || cell.1 < 0 {
                proof {
                    assert(layout_cell(head, dir, y as int).0 < 0 || layout_cell(
                        head,
                        dir,
                        y as int,
                    ).1 < 0);
                }
                return Snake { body: Vec::new(), dir };
            }
            y += 1;
        }

        proof {
            assert forall|i: int| 0 <= i < length implies (#[trigger] layout_cell(
                head,
                dir,
                i,
            )).0 >= 0 && layout_cell(head, dir, i).1 >= 0 by {
                assert(b@[i].0 >= 0 && b@[i].1 >= 0);
            }
        }
        Snake { body: b, dir }
    }

    /// The number of cells the snake occupies.
    pub fn len(&self) -> (n: usize)
        ensures
            n == self.body@.len(),
    {
        self.body.len()
    }

    /// The cell the snake's head occupies.
    pub fn head(&self) -> (h: (i32, i32))
        requires
            self.body@.len() >= 1,
        ensures
            h == self.body@[0],
    {
        self.body[0]
    }

    /// Appends `d` at the tail end; used exactly once per food-eaten event to
    /// grow the length by one. Every prior body cell is left unchanged.
    pub fn add_tail(&mut self, d: (i32, i32))
        ensures
            final(self).body@ == old(self).body@.push(d),
            final(self).dir == old(self).dir,
    {
        self.body.push(d);
    }

    /// O(length) membership query against the body.
    pub fn included(&self, point: &(usize, usize)) -> (b: bool)
        requires
            point.0 <= 0x7fff_ffff,
            point.1 <= 0x7fff_ffff,
        ensures
            b == occupies(self.body@, point.0 as int, point.1 as int),
    {
        self.contains_cell(point.0 as i32, point.1 as i32)
    }

    /// Walks the body looking for the cell `(r, c)`.
    fn contains_cell(&self, r: i32, c: i32) -> (b: bool)
        ensures
            b == occupies(self.body@, r as int, c as int),
    {
        let mut j: usize = 0;
        while j < self.body.len()
            invariant
                j <= self.body@.len(),
                forall|i: int|
                    0 <= i < j ==> !((#[trigger] self.body@[i]).0 == r && self.body@[i].1 == c),
            decreases self.body@.len() - j,
        {
            let cell = self.body[j];
            if cell.0 == r && cell.1 == c {
                return true;
            }
            j += 1;
        }
        false
    }

    /// Paints this snake through the renderer: the occupied-cell glyph for
    /// every body cell, head first. Stale cells are not cleared here; the
    /// caller erases the one cell a move vacated.
    pub fn show(&self, frame: &Frame) -> (res: Result<Vec<CellUpdate>, GameError>)
        requires
            frame.wf(),
        ensures
            frame.holds_body(self.body@) <==> res is Ok,
            res matches Ok(v) ==> v@.len() == self.body@.len() && (forall|i: int|
                0 <= i < self.body@.len() ==> v@[i] == frame.update_at(
                    (#[trigger] self.body@[i]).0 as int,
                    self.body@[i].1 as int,
                    crate::frame::snake_glyph(),
                )),
            res matches Err(e) ==> e == GameError::OutOfBounds,
    {
        frame.show(self)
    }

    /// Sets the heading to `*k` and advances one step: the tail cell is
    /// vacated first, so moving into the cell the tail leaves this step is
    /// legal; moving into any other body cell is a fatal collision. On
    /// success the popped tail cell is returned, so the caller can discard it
    /// (no growth) or hand it back through `add_tail` (growth).
    pub fn move_one_step(&mut self, k: &Direction) -> (res: Result<(i32, i32), GameError>)
        requires
            old(self).body@.len() >= 2,
            i32::MIN < old(self).body@[0].0 < i32::MAX,
            i32::MIN < old(self).body@[0].1 < i32::MAX,
        ensures
            final(self).dir == *k,
            ({
                let rest = old(self).body@.drop_last();
                let nr = old(self).body@[0].0 + step_vec(*k).0;
                let nc = old(self).body@[0].1 + step_vec(*k).1;
                let moved = final(self).body@;
                if occupies(rest, nr, nc) {
                    res == Err::<(i32, i32), GameError>(GameError::Collision) && moved == rest
                } else {
                    res == Ok::<(i32, i32), GameError>(old(self).body@.last()) && moved.len() == old(
                        self,
                    ).body@.len() && moved[0].0 == nr && moved[0].1 == nc && (forall|j: int|
                        1 <= j < moved.len() ==> #[trigger] moved[j] == rest[j - 1])
                }
            }),
    {
        self.dir = *k;
        let step: (i32, i32) = match self.dir {
            Direction::Up => (-1, 0),
            Direction::Down => (1, 0),
            Direction::Left => (0, -1),
            Direction::Right => (0, 1),
        };

        let tail = self.body.pop().unwrap();
        let a = self.body[0];
        let new_head = (a.0 + step.0, a.1 + step.1);

        if self.contains_cell(new_head.0, new_head.1) {
            return Err(GameError::Collision);
        }

        self.body.insert(0, new_head);
        Ok(tail)
    }
}

/// Every successfully constructed snake has pairwise distinct body cells:
/// the backward layout never visits one cell twice.
pub proof fn lemma_layout_distinct(body: Seq<(i32, i32)>, head: (i32, i32), dir: Direction)
    requires
        is_layout(body, head, dir),
    ensures
        body.no_duplicates(),
{
    assert forall|i: int, j: int|
        0 <= i < body.len() && 0 <= j < body.len() && i != j implies body[i] != body[j] by {
        match dir {
            Direction::Up => assert(body[i].0 != body[j].0),
            Direction::Down => assert(body[i].0 != body[j].0),
            Direction::Left => assert(body[i].1 != body[j].1),
            Direction::Right => assert(body[i].1 != body[j].1),
        }
    }
}

/// A straight snake that advances along its own heading never collides with
/// any cell of its body: the stepped head lies strictly ahead of every
/// laid-out cell.
pub proof fn lemma_straight_move_free(body: Seq<(i32, i32)>, head: (i32, i32), dir: Direction)
    requires
        is_layout(body, head, dir),
        body.len() >= 1,
    ensures
        !occupies(body, body[0].0 + step_vec(dir).0, body[0].1 + step_vec(dir).1),
        !occupies(body.drop_last(), body[0].0 + step_vec(dir).0, body[0].1 + step_vec(dir).1),
{
    let nr = body[0].0 + step_vec(dir).0;
    let nc = body[0].1 + step_vec(dir).1;
    assert forall|j: int| 0 <= j < body.len() implies !(body[j].0 == nr && body[j].1 == nc) by {
        match dir {
            Direction::Up => assert(body[j].0 > nr),
            Direction::Down => assert(body[j].0 < nr),
            Direction::Left => assert(body[j].1 > nc),
            Direction::Right => assert(body[j].1 < nc),
        }
    }
    assert forall|j: int|
        0 <= j < body.drop_last().len() implies !((#[trigger] body.drop_last()[j]).0 == nr
        && body.drop_last()[j].1 == nc) by {
        assert(body.drop_last()[j] == body[j]);
    }
}

} // verus!
