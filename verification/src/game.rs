use vstd::prelude::*;

use crate::frame::{empty_glyph, food_glyph, snake_glyph, CellUpdate, Frame};
use crate::snake::{
    layout_cell, layout_non_negative, lemma_layout_distinct, occupies, step_vec, Direction, Snake,
};
use crate::speed::{speed_thresholds, Speed};
use crate::GameError;

verus! {

/// The state the loop is in after a tick.
#[derive(Clone, Copy, Debug, PartialEq, Eq, Structural)]
pub enum Outcome {
    Running,
    Won,
    Dead,
    Quit,
}

/// The direction a three-byte input chunk decodes to: the escape-sequence
/// triple `ESC [ A/B/C/D` means Up/Down/Right/Left, anything else nothing.
pub open spec fn parse_key_spec(b0: Option<u8>, b1: Option<u8>, b2: Option<u8>) -> Option<
    Direction,
> {
    if b0 == Some(27u8) && b1 == Some(91u8) {
        if b2 == Some(65u8) {
            Some(Direction::Up)
        } else if b2 == Some(66u8) {
            Some(Direction::Down)
        } else if b2 == Some(67u8) {
            Some(Direction::Right)
        } else if b2 == Some(68u8) {
            Some(Direction::Left)
        } else {
            None
        }
    } else {
        None
    }
}

/// The heading a tick works with: the freshly decoded direction if the
/// input chunk holds one, else the previous heading.
pub open spec fn next_heading_spec(
    h: Direction,
    b0: Option<u8>,
    b1: Option<u8>,
    b2: Option<u8>,
) -> Direction {
    match parse_key_spec(b0, b1, b2) {
        Some(d) => d,
        None => h,
    }
}

/// Decodes one three-byte input chunk into a direction, if it is the
/// arrow-key escape sequence.
pub fn parse_key(buff: &[Option<u8>; 3]) -> (res: Option<Direction>)
    ensures
        res == parse_key_spec(buff@[0], buff@[1], buff@[2]),
{
    if let Some(x) = buff[0] {
        if x == 27u8 {
            if let Some(y) = buff[1] {
                if y == 91u8 {
                    if let Some(z) = buff[2] {
                        if z == 65u8 {
                            return Some(Direction::Up);
                        }
                        if z == 66u8 {
                            return Some(Direction::Down);
                        }
                        if z == 67u8 {
                            return Some(Direction::Right);
                        }
                        if z == 68u8 {
                            return Some(Direction::Left);
                        }
                    }
                }
            }
        }
    }
    None
}

/// One whole game: the board, the snake, the food cell, the speed ratchet,
/// the tick counter and the last commanded heading. The loop around it only
/// sleeps, reads bytes and applies the returned cell updates.
#[derive(Debug)]
pub struct Game {
    pub frame: Frame,
    pub snake: Snake,
    pub food: (usize, usize),
    pub speed: Speed,
    pub count: usize,
    pub heading: Direction,
}

impl Game {
    /// The game invariant while the loop keeps running: a live snake of at
    /// least two pairwise distinct on-board cells that do not fill the
    /// board, food on a free cell, a well-formed speed ratchet, and a tick
    /// count still short of the current level.
    pub open spec fn wf(self) -> bool {
        &&& self.frame.wf()
        &&& self.snake.body@.len() >= 2
        &&& self.snake.body@.no_duplicates()
        &&& self.frame.holds_body(self.snake.body@)
        &&& self.snake.body@.len() < self.frame.row * self.frame.col
        &&& self.frame.in_bounds(self.food.0 as int, self.food.1 as int)
        &&& !occupies(self.snake.body@, self.food.0 as int, self.food.1 as int)
        &&& self.speed.wf()
        &&& self.count < self.speed.current
    }

    /// How many cells the board has.
    pub open spec fn board_cells(self) -> int {
        self.frame.row * self.frame.col
    }

    /// Whether the next tick is one on which the snake moves.
    pub open spec fn is_move_tick(self) -> bool {
        self.count + 1 == self.speed.current
    }

    /// The cell the head advances to under heading `k`.
    pub open spec fn new_head(self, k: Direction) -> (int, int) {
        (self.snake.body@[0].0 + step_vec(k).0, self.snake.body@[0].1 + step_vec(k).1)
    }

    /// Whether advancing under `k` is fatal: the new head hits a body cell
    /// other than the one the tail vacates, or leaves the board.
    pub open spec fn move_blocked(self, k: Direction) -> bool {
        occupies(self.snake.body@.drop_last(), self.new_head(k).0, self.new_head(k).1)
            || !self.frame.in_bounds(self.new_head(k).0, self.new_head(k).1)
    }

    /// Whether advancing under `k` lands the head on the food cell.
    pub open spec fn move_eats(self, k: Direction) -> bool {
        !self.move_blocked(k) && self.new_head(k).0 == self.food.0 && self.new_head(k).1
            == self.food.1
    }

    /// Sets up a whole game on a `row` by `col` board: the snake starts at
    /// `(1, 1)` heading right with length two, the first food cell is drawn
    /// at random among the free cells, and the speed ratchet starts at the
    /// slowest level. Returns the game and the updates that first paint the
    /// food and the snake, or `StartupConfig` when the board cannot host
    /// this start.
    pub fn new(row: usize, col: usize) -> (res: Result<(Game, Vec<CellUpdate>), GameError>)
        ensures
            res is Ok <==> (2 <= row && 2 <= col && row * col <= 0x7fff_ffff),
            res matches Err(e) ==> e == GameError::StartupConfig,
            res matches Ok(p) ==> ({
                let g = p.0;
                &&& g.wf()
                &&& g.frame.row == row
                &&& g.frame.col == col
                &&& g.snake.body@.len() == 2
                &&& g.snake.body@[0] == (1i32, 1i32)
                &&& g.snake.body@[1] == (1i32, 0i32)
                &&& g.snake.dir == Direction::Right
                &&& g.heading == Direction::Right
                &&& g.count == 0
                &&& g.speed.current == 10
                &&& g.speed.last_len == 2
                &&& g.speed.multiples@ == speed_thresholds()
                &&& !occupies(g.snake.body@, g.food.0 as int, g.food.1 as int)
                &&& g.frame.in_bounds(g.food.0 as int, g.food.1 as int)
                &&& p.1@.len() == 3
                &&& p.1@[0] == g.frame.update_at(g.food.0 as int, g.food.1 as int, food_glyph())
                &&& p.1@[1] == g.frame.update_at(1, 1, snake_glyph())
                &&& p.1@[2] == g.frame.update_at(1, 0, snake_glyph())
            }),
    {
        if row < 2 || col < 2 {
            return Err(GameError::StartupConfig);
        }
        if row > 0x7fff_ffff || col > 0x7fff_ffff {
            proof {
                assert(row * col > 0x7fff_ffff) by (nonlinear_arith)
                    requires
                        2 <= row,
                        2 <= col,
                        row > 0x7fff_ffff || col > 0x7fff_ffff,
                ;
            }
            return Err(GameError::StartupConfig);
        }
        proof {
            assert((row as int) * (col as int) <= 0x7fff_ffff * 0x7fff_ffff) by (nonlinear_arith)
                requires
                    0 <= row <= 0x7fff_ffff,
                    0 <= col <= 0x7fff_ffff,
            ;
        }
        let cells = (row as u64) * (col as u64);
        if cells > 0x7fff_ffff {
            return Err(GameError::StartupConfig);
        }

        let frame = Frame::new(row, col);
        proof {
            assert forall|i: int|
                0 <= i < 2 implies i32::MIN <= (#[trigger] layout_cell(
                (1i32, 1i32),
                Direction::Right,
                i,
            )).0 <= i32::MAX && i32::MIN <= layout_cell(
                (1i32, 1i32),
                Direction::Right,
                i,
            ).1 <= i32::MAX by {}
        }
        let snake = Snake::new((1, 1), Direction::Right, 2);
        proof {
            assert forall|i: int|
                0 <= i < 2 implies (#[trigger] layout_cell(
                (1i32, 1i32),
                Direction::Right,
                i,
            )).0 >= 0 && layout_cell((1i32, 1i32), Direction::Right, i).1 >= 0 by {}
            assert(layout_non_negative((1i32, 1i32), Direction::Right, 2));
            assert(snake.body@.len() == 2);
            assert(snake.body@[0] == (1i32, 1i32));
            assert(snake.body@[1] == (1i32, 0i32));
            lemma_layout_distinct(snake.body@, (1i32, 1i32), Direction::Right);
            assert forall|i: int|
                0 <= i < snake.body@.len() implies frame.in_bounds(
                (#[trigger] snake.body@[i]).0 as int,
                snake.body@[i].1 as int,
            ) by {
                assert(i == 0 || i == 1);
            }
            assert(2 < row * col) by (nonlinear_arith)
                requires
                    2 <= row,
                    2 <= col,
            ;
        }
        let food = match frame.random_point(&snake) {
            Ok(p) => p,
            Err(_) => {
                proof {
                    assert(false);
                }
                return Err(GameError::StartupConfig);
            },
        };
        let mut updates: Vec<CellUpdate> = Vec::new();
        let fu = match frame.write(food.0 as i32, food.1 as i32, 'x') {
            Ok(u) => u,
            Err(_) => {
                proof {
                    assert(false);
                }
                return Err(GameError::StartupConfig);
            },
        };
        updates.push(fu);
        let mut body_updates = match frame.show(&snake) {
            Ok(v) => v,
            Err(_) => {
                proof {
                    assert(false);
                }
                return Err(GameError::StartupConfig);
            },
        };
        updates.append(&mut body_updates);
        let speed = Speed::new(snake.len());
        let game = Game { frame, snake, food, speed, count: 0, heading: Direction::Right };
        Ok((game, updates))
    }

    /// Advances the game by one tick: a leading `q` byte quits; otherwise
    /// the heading follows the decoded input; on every speed-level-th tick
    /// the snake moves, a fatal move ends the game, eating grows the snake
    /// and either wins the game or places new food, and the returned updates
    /// repaint exactly the changed cells followed by the snake's body.
    pub fn tick(&mut self, input: &[Option<u8>; 3]) -> (r: (Outcome, Vec<CellUpdate>))
        requires
            old(self).wf(),
        ensures
            final(self).frame == old(self).frame,
            input@[0] == Some(113u8) ==> r.0 == Outcome::Quit && *final(self) == *old(self)
                && r.1@.len() == 0,
            input@[0] != Some(113u8) ==> final(self).heading == next_heading_spec(
                old(self).heading,
                input@[0],
                input@[1],
                input@[2],
            ),
            input@[0] != Some(113u8) && !old(self).is_move_tick() ==> r.0 == Outcome::Running
                && final(self).count == old(self).count + 1 && final(self).snake == old(self).snake
                && final(self).food == old(self).food && final(self).speed == old(self).speed
                && r.1@.len() == 0 && final(self).wf(),
            input@[0] != Some(113u8) && old(self).is_move_tick() ==> ({
                let g0 = *old(self);
                let k = next_heading_spec(g0.heading, input@[0], input@[1], input@[2]);
                let nh = g0.new_head(k);
                let blocked = g0.move_blocked(k);
                let eats = g0.move_eats(k);
                let total = g0.board_cells();
                let len0 = g0.snake.body@.len();
                let body1 = final(self).snake.body@;
                &&& final(self).snake.dir == k
                &&& (blocked ==> r.0 == Outcome::Dead && final(self).food == g0.food
                    && final(self).speed == g0.speed && r.1@.len() == 0)
                &&& (!blocked ==> body1[0].0 == nh.0 && body1[0].1 == nh.1 && (forall|j: int|
                    1 <= j < body1.len() ==> #[trigger] body1[j] == g0.snake.body@[j - 1]))
                &&& (!blocked && eats ==> body1.len() == len0 + 1)
                &&& (!blocked && !eats ==> body1.len() == len0 && final(self).food == g0.food)
                &&& (!blocked && eats && len0 + 1 == total ==> r.0 == Outcome::Won
                    && final(self).food == g0.food && r.1@.len() == 0)
                &&& (!blocked && !(eats && len0 + 1 == total) ==> ({
                    &&& r.0 == Outcome::Running
                    &&& final(self).wf()
                    &&& final(self).count == 0
                    &&& final(self).frame.in_bounds(
                        final(self).food.0 as int,
                        final(self).food.1 as int,
                    )
                    &&& !occupies(body1, final(self).food.0 as int, final(self).food.1 as int)
                    &&& (g0.speed.due(body1.len() as int) ==> final(self).speed.current
                        == g0.speed.current - 1)
                    &&& (!g0.speed.due(body1.len() as int) ==> final(self).speed == g0.speed)
                    &&& r.1@.len() == body1.len() + 1
                    &&& (eats ==> r.1@[0] == g0.frame.update_at(
                        final(self).food.0 as int,
                        final(self).food.1 as int,
                        food_glyph(),
                    ))
                    &&& (!eats ==> r.1@[0] == g0.frame.update_at(
                        g0.snake.body@.last().0 as int,
                        g0.snake.body@.last().1 as int,
                        empty_glyph(),
                    ))
                    &&& (forall|j: int|
                        0 <= j < body1.len() ==> r.1@[j + 1] == g0.frame.update_at(
                            (#[trigger] body1[j]).0 as int,
                            body1[j].1 as int,
                            snake_glyph(),
                        ))
                }))
            }),
    {
        if let Some(x) = input[0] {
            if x == 113u8 {
                return (Outcome::Quit, Vec::new());
            }
        }

        let k = match parse_key(input) {
            Some(d) => d,
            None => self.heading,
        };
        self.heading = k;

        let cnt1 = self.count + 1;
        if cnt1 != self.speed.current {
            self.count = cnt1;
            return (Outcome::Running, Vec::new());
        }
        self.count = 0;

        proof {
            assert(self.frame.in_bounds(
                self.snake.body@[0].0 as int,
                self.snake.body@[0].1 as int,
            ));
            assert(self.frame.row <= self.frame.row * self.frame.col && self.frame.col
                <= self.frame.row * self.frame.col) by (nonlinear_arith)
                requires
                    1 <= self.frame.row,
                    1 <= self.frame.col,
            ;
        }
        let ghost body0 = self.snake.body@;
        let ghost rest = body0.drop_last();

        let tail = match self.snake.move_one_step(&k) {
            Ok(t) => t,
            Err(_) => {
                return (Outcome::Dead, Vec::new());
            },
        };
        let h = self.snake.head();
        if h.0 < 0 || h.1 < 0 || h.0 as usize >= self.frame.row || h.1 as usize
            >= self.frame.col {
            return (Outcome::Dead, Vec::new());
        }
        let ghost moved = self.snake.body@;
        proof {
            assert forall|i: int|
                0 <= i < moved.len() implies self.frame.in_bounds(
                (#[trigger] moved[i]).0 as int,
                moved[i].1 as int,
            ) by {
                if i >= 1 {
                    assert(moved[i] == rest[i - 1]);
                    assert(rest[i - 1] == body0[i - 1]);
                }
            }
            assert(moved.no_duplicates()) by {
                assert forall|a: int, b: int|
                    0 <= a < moved.len() && 0 <= b < moved.len() && a != b implies moved[a]
                    != moved[b] by {
                    if a >= 1 && b >= 1 {
                        assert(moved[a] == body0[a - 1] && moved[b] == body0[b - 1]);
                    } else {
                        let o = if a == 0 {
                            b
                        } else {
                            a
                        };
                        if moved[o] == moved[0] {
                            assert(moved[o] == rest[o - 1]);
                            assert(occupies(rest, moved[0].0 as int, moved[0].1 as int));
                            assert(false);
                        }
                    }
                }
            }
        }

        let mut updates: Vec<CellUpdate> = Vec::new();
        let ate = h.0 as usize == self.food.0 && h.1 as usize == self.food.1;
        if ate {
            self.snake.add_tail(tail);
            let ghost body1 = self.snake.body@;
            proof {
                assert(body1.len() == body0.len() + 1);
                assert forall|j: int|
                    1 <= j < body1.len() implies #[trigger] body1[j] == body0[j - 1] by {
                    if j < body1.len() - 1 {
                        assert(body1[j] == moved[j]);
                        assert(moved[j] == rest[j - 1]);
                        assert(rest[j - 1] == body0[j - 1]);
                    } else {
                        assert(body1[j] == body0.last());
                    }
                }
                assert(body1.no_duplicates()) by {
                    assert forall|a: int, b: int|
                        0 <= a < body1.len() && 0 <= b < body1.len() && a != b implies body1[a]
                        != body1[b] by {
                        if a >= 1 && b >= 1 {
                            assert(body1[a] == body0[a - 1] && body1[b] == body0[b - 1]);
                        } else {
                            let o = if a == 0 {
                                b
                            } else {
                                a
                            };
                            assert(body1[o] == body0[o - 1]);
                            if body1[o] == body1[0] {
                                assert(occupies(
                                    body0,
                                    old(self).food.0 as int,
                                    old(self).food.1 as int,
                                ));
                                assert(false);
                            }
                        }
                    }
                }
                assert forall|i: int|
                    0 <= i < body1.len() implies self.frame.in_bounds(
                    (#[trigger] body1[i]).0 as int,
                    body1[i].1 as int,
                ) by {
                    if i == 0 {
                        assert(body1[0] == moved[0]);
                    } else {
                        assert(body1[i] == body0[i - 1]);
                    }
                }
            }
            let len1 = self.snake.len();
            let total = self.frame.row * self.frame.col;
            if len1 == total {
                return (Outcome::Won, updates);
            }
            let newfood = match self.frame.random_point(&self.snake) {
                Ok(p) => p,
                Err(_) => {
                    proof {
                        assert(false);
                    }
                    return (Outcome::Dead, Vec::new());
                },
            };
            self.food = newfood;
            let fu = match self.frame.write(newfood.0 as i32, newfood.1 as i32, 'x') {
                Ok(u) => u,
                Err(_) => {
                    proof {
                        assert(false);
                    }
                    return (Outcome::Dead, Vec::new());
                },
            };
            updates.push(fu);
        } else {
            let eu = match self.frame.write(tail.0, tail.1, '.') {
                Ok(u) => u,
                Err(_) => {
                    proof {
                        assert(occupies(body0, tail.0 as int, tail.1 as int));
                        assert(false);
                    }
                    return (Outcome::Dead, Vec::new());
                },
            };
            updates.push(eu);
            proof {
                assert(!occupies(self.snake.body@, self.food.0 as int, self.food.1 as int)) by {
                    let body1 = self.snake.body@;
                    if occupies(body1, self.food.0 as int, self.food.1 as int) {
                        let j = choose|j: int|
                            0 <= j < body1.len() && body1[j].0 == self.food.0 as int
                                && body1[j].1 == self.food.1 as int;
                        if j >= 1 {
                            assert(body1[j] == body0[j - 1]);
                            assert(occupies(body0, self.food.0 as int, self.food.1 as int));
                        }
                        assert(false);
                    }
                }
            }
        }

        let mut body_updates = match self.frame.show(&self.snake) {
            Ok(v) => v,
            Err(_) => {
                proof {
                    assert(false);
                }
                return (Outcome::Dead, Vec::new());
            },
        };
        updates.append(&mut body_updates);
        let len_now = self.snake.len();
        self.speed.adjust(len_now);
        (Outcome::Running, updates)
    }
}

} // verus!

