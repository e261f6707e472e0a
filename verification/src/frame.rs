use vstd::prelude::*;

use crate::snake::Snake;
use crate::GameError;

verus! {

/// The glyph painted on every cell the snake occupies.
pub open spec fn snake_glyph() -> char {
    '\u{25fc}'
}

/// The glyph painted on the food cell.
pub open spec fn food_glyph() -> char {
    'x'
}

/// The glyph painted on an empty cell.
pub open spec fn empty_glyph() -> char {
    '.'
}

/// One differential update of the character grid: move the cursor `up` lines
/// up from the grid's bottom line, `col` columns right from the line start,
/// and paint `glyph` there.
#[derive(Clone, Copy, Debug, PartialEq, Eq)]
pub struct CellUpdate {
    pub up: usize,
    pub col: usize,
    pub glyph: char,
}

/// The character grid: `row` lines of `col` cells. It owns no display
/// handle; it computes the minimal cell updates a display must apply.
#[derive(Clone, Copy, Debug)]
pub struct Frame {
    pub row: usize,
    pub col: usize,
}

impl Frame {
    /// A board that can host a game: at least one cell each way, and few
    /// enough cells for every coordinate and cell count to fit the cell
    /// arithmetic.
    pub open spec fn wf(self) -> bool {
        1 <= self.row && 1 <= self.col && self.row * self.col <= 0x7fff_ffff
    }

    /// Whether `(r, c)` lies on the grid.
    pub open spec fn in_bounds(self, r: int, c: int) -> bool {
        0 <= r < self.row && 0 <= c < self.col
    }

    /// Whether every cell of `body` lies on the grid.
    pub open spec fn holds_body(self, body: Seq<(i32, i32)>) -> bool {
        forall|i: int|
            0 <= i < body.len() ==> self.in_bounds(
                (#[trigger] body[i]).0 as int,
                body[i].1 as int,
            )
    }

    /// The update that paints `glyph` at grid cell `(r, c)`.
    pub open spec fn update_at(self, r: int, c: int, glyph: char) -> CellUpdate {
        CellUpdate { up: (self.row - r) as usize, col: c as usize, glyph }
    }

    pub fn new(row: usize, col: usize) -> (f: Frame)
        requires
            1 <= row,
            1 <= col,
            row * col <= 0x7fff_ffff,
        ensures
            f.row == row,
            f.col == col,
            f.wf(),
    {
        Frame { row, col }
    }

    /// Computes the single-cell update that paints `glyph` at `(row, col)`,
    /// or reports `OutOfBounds` when the target lies outside the grid.
    pub fn write(&self, row: i32, col: i32, glyph: char) -> (res: Result<CellUpdate, GameError>)
        requires
            self.wf(),
        ensures
            res == if self.in_bounds(row as int, col as int) {
                Ok::<CellUpdate, GameError>(self.update_at(row as int, col as int, glyph))
            } else {
                Err::<CellUpdate, GameError>(GameError::OutOfBounds)
            },
    {
        if row < 0 || col < 0 {
            return Err(GameError::OutOfBounds);
        }
        if row as usize >= self.row || col as usize >= self.col {
            return Err(GameError::OutOfBounds);
        }
        Ok(CellUpdate { up: self.row - row as usize, col: col as usize, glyph })
    }

    /// Computes the updates that paint the occupied-cell glyph over every
    /// cell of the snake's body, head first; reports `OutOfBounds` when some
    /// body cell lies outside the grid. Vacated cells are not cleared here:
    /// the caller erases the tail cell a move gave back.
    pub fn show(&self, snake: &Snake) -> (res: Result<Vec<CellUpdate>, GameError>)
        requires
            self.wf(),
        ensures
            self.holds_body(snake.body@) <==> res is Ok,
            res matches Ok(v) ==> v@.len() == snake.body@.len() && (forall|i: int|
                0 <= i < snake.body@.len() ==> v@[i] == self.update_at(
                    (#[trigger] snake.body@[i]).0 as int,
                    snake.body@[i].1 as int,
                    snake_glyph(),
                )),
            res matches Err(e) ==> e == GameError::OutOfBounds,
    {
        let mut v: Vec<CellUpdate> = Vec::new();
        let mut i: usize = 0;
        while i < snake.body.len()
            invariant
                self.wf(),
                i <= snake.body@.len(),
                v@.len() == i,
                forall|j: int|
                    0 <= j < i ==> self.in_bounds(
                        (#[trigger] snake.body@[j]).0 as int,
                        snake.body@[j].1 as int,
                    ),
                forall|j: int|
                    0 <= j < i ==> v@[j] == self.update_at(
                        (#[trigger] snake.body@[j]).0 as int,
                        snake.body@[j].1 as int,
                        snake_glyph(),
                    ),
            decreases snake.body@.len() - i,
        {
            let cell = snake.body[i];
            match self.write(cell.0, cell.1, '\u{25fc}') {
                Ok(u) => v.push(u),
                Err(e) => {
                    return Err(e);
                },
            }
            i += 1;
        }
        Ok(v)
    }
}

} // verus!
