use vstd::prelude::*;

use vstd::arithmetic::div_mod::{
    lemma_fundamental_div_mod, lemma_fundamental_div_mod_converse, lemma_mod_pos_bound,
    lemma_multiply_divide_lt,
};
use vstd::seq_lib::*;

use crate::frame::Frame;
use crate::snake::{occupies, Snake};
use crate::GameError;

verus! {

/// All cells of a `rows` by `cols` board, in row-major order.
pub open spec fn grid_seq(rows: int, cols: int) -> Seq<(int, int)> {
    Seq::new((rows * cols) as nat, |k: int| (k / cols, k % cols))
}

/// The predicate that holds of the cells `body` leaves free.
pub open spec fn free_pred(body: Seq<(i32, i32)>) -> spec_fn((int, int)) -> bool {
    |c: (int, int)| !occupies(body, c.0, c.1)
}

/// The free cells of the board in row-major order: the stable enumeration
/// the food picker draws from.
pub open spec fn free_seq(rows: int, cols: int, body: Seq<(i32, i32)>) -> Seq<(int, int)> {
    grid_seq(rows, cols).filter(free_pred(body))
}

/// Row-major cell `r * cols + c` of the grid is exactly `(r, c)`.
proof fn lemma_grid_cell(rows: int, cols: int, r: int, c: int)
    requires
        1 <= cols,
        0 <= r < rows,
        0 <= c < cols,
    ensures
        0 <= r * cols + c < rows * cols,
        grid_seq(rows, cols)[r * cols + c] == (r, c),
{
    assert(0 <= r * cols + c < rows * cols) by (nonlinear_arith)
        requires
            1 <= cols,
            0 <= r < rows,
            0 <= c < cols,
    ;
    lemma_fundamental_div_mod_converse(r * cols + c, cols, r, c);
}

/// Row-major enumeration never lists one cell twice.
proof fn lemma_grid_no_dup(rows: int, cols: int)
    requires
        1 <= cols,
    ensures
        grid_seq(rows, cols).no_duplicates(),
{
    let g = grid_seq(rows, cols);
    assert forall|k1: int, k2: int|
        0 <= k1 < g.len() && 0 <= k2 < g.len() && k1 != k2 implies g[k1] != g[k2] by {
        if g[k1] == g[k2] {
            lemma_fundamental_div_mod(k1, cols);
            lemma_fundamental_div_mod(k2, cols);
            assert(false);
        }
    }
}

/// Filtering by predicates that agree on every element gives one sequence.
proof fn lemma_filter_agree<A>(s: Seq<A>, p: spec_fn(A) -> bool, q: spec_fn(A) -> bool)
    requires
        forall|i: int| 0 <= i < s.len() ==> p(#[trigger] s[i]) == q(s[i]),
    ensures
        s.filter(p) == s.filter(q),
    decreases s.len(),
{
    reveal(Seq::filter);
    if s.len() > 0 {
        assert forall|i: int|
            0 <= i < s.drop_last().len() implies p(#[trigger] s.drop_last()[i]) == q(
            s.drop_last()[i],
        ) by {
            assert(s.drop_last()[i] == s[i]);
        }
        lemma_filter_agree(s.drop_last(), p, q);
        assert(p(s.last()) == q(s.last()));
    }
}

/// Filtering by a predicate that holds of every element changes nothing.
proof fn lemma_filter_all<A>(s: Seq<A>, p: spec_fn(A) -> bool)
    requires
        forall|i: int| 0 <= i < s.len() ==> p(#[trigger] s[i]),
    ensures
        s.filter(p) == s,
    decreases s.len(),
{
    reveal(Seq::filter);
    if s.len() > 0 {
        assert forall|i: int| 0 <= i < s.drop_last().len() implies p(#[trigger] s.drop_last()[i]) by {
            assert(s.drop_last()[i] == s[i]);
        }
        lemma_filter_all(s.drop_last(), p);
        assert(p(s.last()));
        assert(s.drop_last().push(s.last()) =~= s);
    }
}

/// Forbidding exactly one listed element shortens a duplicate-free
/// sequence's filtered form by exactly one entry.
proof fn lemma_filter_remove_one<A>(s: Seq<A>, p: spec_fn(A) -> bool, q: spec_fn(A) -> bool, e: A)
    requires
        s.no_duplicates(),
        s.contains(e),
        p(e),
        !q(e),
        forall|x: A| x != e ==> #[trigger] p(x) == q(x),
    ensures
        s.filter(q).len() + 1 == s.filter(p).len(),
    decreases s.len(),
{
    reveal(Seq::filter);
    let rest = s.drop_last();
    assert(rest.no_duplicates());
    if s.last() == e {
        assert forall|i: int| 0 <= i < rest.len() implies p(#[trigger] rest[i]) == q(rest[i]) by {
            assert(rest[i] == s[i]);
            assert(rest[i] != e);
        }
        lemma_filter_agree(rest, p, q);
    } else {
        let j = choose|j: int| 0 <= j < s.len() && s[j] == e;
        assert(rest[j] == e);
        assert(rest.contains(e));
        lemma_filter_remove_one(rest, p, q, e);
        assert(p(s.last()) == q(s.last()));
    }
}

/// A filtered prefix is a prefix of the filtered whole.
proof fn lemma_filter_take_prefix<A>(s: Seq<A>, p: spec_fn(A) -> bool, k: int)
    requires
        0 <= k <= s.len(),
    ensures
        s.take(k).filter(p).len() <= s.filter(p).len(),
        s.take(k).filter(p) == s.filter(p).take(s.take(k).filter(p).len() as int),
    decreases s.len() - k,
{
    reveal(Seq::filter);
    if k == s.len() {
        assert(s.take(k) =~= s);
        assert(s.filter(p).take(s.filter(p).len() as int) =~= s.filter(p));
    } else {
        lemma_filter_take_prefix(s, p, k + 1);
        let t0 = s.take(k);
        let t1 = s.take(k + 1);
        assert(t1.drop_last() =~= t0);
        assert(t1.last() == s[k]);
        let n1 = t1.filter(p).len() as int;
        if p(s[k]) {
            assert(t1.filter(p) == t0.filter(p).push(s[k]));
            assert(t0.filter(p) =~= s.filter(p).take(n1 - 1));
        } else {
            assert(t1.filter(p) == t0.filter(p));
        }
    }
}

/// On a board that holds every cell of a duplicate-free `body`, the free
/// cells number exactly the board's cells minus the body's.
pub proof fn lemma_free_cell_count(rows: int, cols: int, body: Seq<(i32, i32)>)
    requires
        1 <= rows,
        1 <= cols,
        body.no_duplicates(),
        forall|i: int|
            0 <= i < body.len() ==> 0 <= (#[trigger] body[i]).0 < rows && 0 <= body[i].1 < cols,
    ensures
        free_seq(rows, cols, body).len() == rows * cols - body.len(),
    decreases body.len(),
{
    let g = grid_seq(rows, cols);
    assert(rows * cols >= 1) by (nonlinear_arith)
        requires
            1 <= rows,
            1 <= cols,
    ;
    if body.len() == 0 {
        assert forall|idx: int| 0 <= idx < g.len() implies free_pred(body)(#[trigger] g[idx]) by {
            assert(!occupies(body, g[idx].0, g[idx].1));
        }
        lemma_filter_all(g, free_pred(body));
    } else {
        let body0 = body.drop_last();
        let b = body.last();
        assert(body0.no_duplicates());
        assert forall|i: int|
            0 <= i < body0.len() implies 0 <= (#[trigger] body0[i]).0 < rows && 0 <= body0[i].1
            < cols by {
            assert(body0[i] == body[i]);
        }
        lemma_free_cell_count(rows, cols, body0);

        let e = (b.0 as int, b.1 as int);
        let p = free_pred(body0);
        let q = free_pred(body);
        lemma_grid_no_dup(rows, cols);
        lemma_grid_cell(rows, cols, e.0, e.1);
        assert(g[e.0 * cols + e.1] == e);
        assert(g.contains(e));

        assert(p(e)) by {
            if occupies(body0, e.0, e.1) {
                let j = choose|j: int|
                    0 <= j < body0.len() && body0[j].0 == e.0 && body0[j].1 == e.1;
                assert(body[j] == body[body.len() - 1]);
                assert(false);
            }
        }
        assert(!q(e)) by {
            assert(body[body.len() - 1].0 == e.0 && body[body.len() - 1].1 == e.1);
        }
        assert forall|x: (int, int)| x != e implies #[trigger] p(x) == q(x) by {
            if occupies(body, x.0, x.1) {
                let j = choose|j: int| 0 <= j < body.len() && body[j].0 == x.0 && body[j].1 == x.1;
                if j == body.len() - 1 {
                    assert(x == e);
                } else {
                    assert(body0[j] == body[j]);
                    assert(occupies(body0, x.0, x.1));
                }
            }
            if occupies(body0, x.0, x.1) {
                let j = choose|j: int|
                    0 <= j < body0.len() && body0[j].0 == x.0 && body0[j].1 == x.1;
                assert(body[j] == body0[j]);
                assert(occupies(body, x.0, x.1));
            }
        }
        lemma_filter_remove_one(g, p, q, e);
    }
}

/// Returns the `i`-th free cell of the board in the row-major enumeration:
/// the single deterministic walk the food picker indexes into.
pub fn nth_free_cell(frame: &Frame, snake: &Snake, i: usize) -> (cell: (usize, usize))
    requires
        frame.wf(),
        i < free_seq(frame.row as int, frame.col as int, snake.body@).len(),
    ensures
        cell.0 < frame.row,
        cell.1 < frame.col,
        (cell.0 as int, cell.1 as int) == free_seq(frame.row as int, frame.col as int, snake.body@)[i as int],
{
    let total = frame.row * frame.col;
    let ghost gr = frame.row as int;
    let ghost gc = frame.col as int;
    let ghost g = grid_seq(gr, gc);
    let ghost p = free_pred(snake.body@);

    let mut k: usize = 0;
    let mut cnt: usize = 0;
    while k < total
        invariant
            frame.wf(),
            gr == frame.row as int,
            gc == frame.col as int,
            g == grid_seq(gr, gc),
            p == free_pred(snake.body@),
            total == frame.row * frame.col,
            k <= total,
            cnt <= i,
            i < free_seq(gr, gc, snake.body@).len(),
            cnt == g.take(k as int).filter(p).len(),
        decreases total - k,
    {
        let r = k / frame.col;
        let c = k % frame.col;
        proof {
            lemma_multiply_divide_lt(k as int, gc, gr);
            assert(gc * gr == gr * gc) by (nonlinear_arith);
            lemma_mod_pos_bound(k as int, gc);
            assert(gr <= gr * gc && gc <= gr * gc) by (nonlinear_arith)
                requires
                    1 <= gr,
                    1 <= gc,
            ;
            assert(g[k as int] == (r as int, c as int));
        }
        let is_free = !snake.included(&(r, c));
        proof {
            reveal(Seq::filter);
            assert(g.take(k as int + 1).drop_last() =~= g.take(k as int));
            assert(g.take(k as int + 1).last() == g[k as int]);
            assert(is_free == p(g[k as int]));
        }
        if is_free {
            if cnt == i {
                proof {
                    lemma_filter_take_prefix(g, p, k as int + 1);
                    let t0f = g.take(k as int).filter(p);
                    let t1f = g.take(k as int + 1).filter(p);
                    let fs = free_seq(gr, gc, snake.body@);
                    assert(t1f == t0f.push(g[k as int]));
                    assert(t1f.len() == i + 1);
                    assert(fs == g.filter(p));
                    assert(t1f == fs.take(t1f.len() as int));
                    assert(fs.take(i as int + 1)[i as int] == fs[i as int]);
                    assert(fs[i as int] == g[k as int]);
                }
                return (r, c);
            }
            cnt += 1;
        }
        k += 1;
    }
    proof {
        assert(g.take(total as int) =~= g);
        assert(cnt == free_seq(gr, gc, snake.body@).len());
        assert(false);
    }
    (0, 0)
}

/// Relies on rand::random_range over the half-open range `0..bound`: the
/// draw is uniform over the range, so in particular strictly below `bound`.
#[verifier::external_body]
fn pick_index(bound: usize) -> (r: usize)
    requires
        1 <= bound,
    ensures
        r < bound,
{
    rand::random_range(0..bound)
}

impl Frame {
    /// Picks a cell not occupied by the snake, uniformly at random among the
    /// free cells: with `F` free cells left it draws one index below `F` and
    /// walks the row-major set difference to that index, a single bounded
    /// pass whatever the fill ratio. Reports `NoFreeCell` when the board is
    /// full.
    pub fn random_point(&self, s: &Snake) -> (res: Result<(usize, usize), GameError>)
        requires
            self.wf(),
            s.body@.no_duplicates(),
            self.holds_body(s.body@),
        ensures
            res is Ok <==> s.body@.len() < self.row * self.col,
            res matches Ok(p) ==> self.in_bounds(p.0 as int, p.1 as int) && !occupies(
                s.body@,
                p.0 as int,
                p.1 as int,
            ),
            res matches Err(e) ==> e == GameError::NoFreeCell,
    {
        let total = self.row * self.col;
        let len = s.len();
        if len >= total {
            return Err(GameError::NoFreeCell);
        }
        proof {
            lemma_free_cell_count(self.row as int, self.col as int, s.body@);
        }
        let ind = pick_index(total - len);
        let cell = nth_free_cell(self, s, ind);
        proof {
            let g = grid_seq(self.row as int, self.col as int);
            let p = free_pred(s.body@);
            g.lemma_filter_pred(p, ind as int);
            assert(p(g.filter(p)[ind as int]));
        }
        Ok(cell)
    }
}

} // verus!
