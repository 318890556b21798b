//! Cell-index arithmetic on the flattened, toroidal board.
//!
//! A board of width `w` has `w * w` cells, numbered row-major: cell `c` lies
//! in row `c / w` and column `c % w`. Moving off any edge reappears on the
//! directly opposite edge, in the same row (horizontal moves) or the same
//! column (vertical moves).

use vstd::prelude::*;

verus! {

/// A heading on the board. The snake always has one; there is no idle state.
#[derive(Clone, Copy, PartialEq, Eq, Structural, Debug)]
pub enum Direction {
    Up,
    Down,
    Left,
    Right,
}

/// Row of a cell index under row-major flattening.
pub open spec fn row_of(cell: nat, width: nat) -> nat {
    cell / width
}

/// Column of a cell index under row-major flattening.
pub open spec fn col_of(cell: nat, width: nat) -> nat {
    cell % width
}

/// The cell reached from `head` by one move in `dir` on a toroidal board of
/// the given width: horizontal moves wrap within the head's row, vertical
/// moves wrap over the whole board, keeping the column.
pub open spec fn next_cell_spec(head: nat, width: nat, dir: Direction) -> nat {
    let size = width * width;
    let row = row_of(head, width);
    match dir {
        Direction::Right => row * width + (head + 1) % width,
        Direction::Left => row * width + ((head + width - 1) as nat) % width,
        Direction::Up => ((head + size - width) as nat) % size,
        Direction::Down => (head + width) % size,
    }
}

/// Every move lands on the board: the next cell is always below `width * width`.
pub proof fn lemma_next_cell_in_range(head: nat, width: nat, dir: Direction)
    requires
        1 <= width,
        head < width * width,
    ensures
        next_cell_spec(head, width, dir) < width * width,
{
    let size = width * width;
    let row = row_of(head, width);
    lemma_row_in_range(head, width);
    match dir {
        Direction::Right => {
            assert((head + 1) % width < width) by {
                vstd::arithmetic::div_mod::lemma_mod_bound((head + 1) as int, width as int);
            }
            assert(row * width + width <= width * width) by (nonlinear_arith)
                requires row + 1 <= width;
        },
        Direction::Left => {
            assert(((head + width - 1) as nat) % width < width) by {
                vstd::arithmetic::div_mod::lemma_mod_bound((head + width - 1) as int, width as int);
            }
            assert(row * width + width <= width * width) by (nonlinear_arith)
                requires row + 1 <= width;
        },
        Direction::Up => {
            vstd::arithmetic::div_mod::lemma_mod_bound((head + size - width) as int, size as int);
            assert(((head + size - width) as nat) % size < size);
        },
        Direction::Down => {
            vstd::arithmetic::div_mod::lemma_mod_bound((head + width) as int, size as int);
        },
    }
}

/// Wrap invariant: a horizontal move keeps the head's row and steps the
/// column by one modulo the width, so walking off the left or right edge
/// reappears in the same row on the opposite edge; a vertical move keeps the
/// column and steps the row by one modulo the width, so walking off the top
/// or bottom edge reappears in the same column on the opposite edge.
pub proof fn lemma_next_cell_wraps(head: nat, width: nat, dir: Direction)
    requires
        1 <= width,
        head < width * width,
    ensures
        ({
            let next = next_cell_spec(head, width, dir);
            let row = row_of(head, width);
            let col = col_of(head, width);
            match dir {
                Direction::Right => row_of(next, width) == row && col_of(next, width) == (col
                    + 1) % width,
                Direction::Left => row_of(next, width) == row && col_of(next, width) == ((col
                    + width - 1) as nat) % width,
                Direction::Up => col_of(next, width) == col && row_of(next, width) == ((row + width
                    - 1) as nat) % width,
                Direction::Down => col_of(next, width) == col && row_of(next, width) == (row
                    + 1) % width,
            }
        }),
{
    let size = width * width;
    let next = next_cell_spec(head, width, dir);
    let row = row_of(head, width);
    let col = col_of(head, width);
    vstd::arithmetic::div_mod::lemma_fundamental_div_mod(head as int, width as int);
    vstd::arithmetic::div_mod::lemma_mod_bound(head as int, width as int);
    lemma_row_in_range(head, width);
    match dir {
        Direction::Right => {
            let r = (head + 1) % width;
            assert(head + 1 == width * row + (col + 1));
            vstd::arithmetic::div_mod::lemma_mod_multiples_vanish(
                row as int,
                col + 1 as int,
                width as int,
            );
            vstd::arithmetic::div_mod::lemma_mod_bound((head + 1) as int, width as int);
            vstd::arithmetic::div_mod::lemma_fundamental_div_mod_converse(
                next as int,
                width as int,
                row as int,
                r as int,
            );
        },
        Direction::Left => {
            let r = ((head + width - 1) as nat) % width;
            assert(head + width - 1 == width * row + (col + width - 1));
            vstd::arithmetic::div_mod::lemma_mod_multiples_vanish(
                row as int,
                col + width - 1,
                width as int,
            );
            vstd::arithmetic::div_mod::lemma_mod_bound((head + width - 1) as int, width as int);
            vstd::arithmetic::div_mod::lemma_fundamental_div_mod_converse(
                next as int,
                width as int,
                row as int,
                r as int,
            );
        },
        Direction::Up => {
            let q = (row + width - 1) as nat;
            assert(head + size - width == width * q + col) by (nonlinear_arith)
                requires
                    head == width * row + col,
                    size == width * width,
                    q == row + width - 1,
                    width >= 1,
            ;
            lemma_vertical_step(q, col, width);
            vstd::arithmetic::div_mod::lemma_mod_bound(q as int, width as int);
            vstd::arithmetic::div_mod::lemma_fundamental_div_mod_converse(
                next as int,
                width as int,
                (q % width) as int,
                col as int,
            );
        },
        Direction::Down => {
            let q = row + 1;
            assert(head + width == width * q + col) by (nonlinear_arith)
                requires
                    head == width * row + col,
                    q == row + 1,
            ;
            lemma_vertical_step(q, col, width);
            vstd::arithmetic::div_mod::lemma_mod_bound(q as int, width as int);
            vstd::arithmetic::div_mod::lemma_fundamental_div_mod_converse(
                next as int,
                width as int,
                (q % width) as int,
                col as int,
            );
        },
    }
}

/// A vertical move in terms of rows: reducing `width * q + col` modulo the
/// board size lands on row `q % width`, column `col`.
proof fn lemma_vertical_step(q: nat, col: nat, width: nat)
    requires
        1 <= width,
        col < width,
    ensures
        (width * q + col) % (width * width) == width * (q % width) + col,
{
    let size = width * width;
    let k = q / width;
    let qr = q % width;
    vstd::arithmetic::div_mod::lemma_fundamental_div_mod(q as int, width as int);
    vstd::arithmetic::div_mod::lemma_mod_bound(q as int, width as int);
    assert(width * q + col == size * k + (width * qr + col)) by (nonlinear_arith)
        requires
            q == width * k + qr,
            size == width * width,
    ;
    assert(width * qr + col < size) by (nonlinear_arith)
        requires
            qr < width,
            col < width,
            size == width * width,
            width >= 1,
    ;
    vstd::arithmetic::div_mod::lemma_mod_multiples_vanish(
        k as int,
        (width * qr + col) as int,
        size as int,
    );
    vstd::arithmetic::div_mod::lemma_small_mod((width * qr + col) as nat, size as nat);
}

/// On a board at least three cells wide, two moves in one direction never
/// return to the starting cell: a horizontal move changes the column twice
/// modulo the width, a vertical one the row, and stepping twice modulo at
/// least three is never the identity.
pub proof fn lemma_next_cell_period(head: nat, width: nat, dir: Direction)
    requires
        3 <= width,
        head < width * width,
    ensures
        next_cell_spec(next_cell_spec(head, width, dir), width, dir) != head,
{
    let mid = next_cell_spec(head, width, dir);
    let back = next_cell_spec(mid, width, dir);
    lemma_next_cell_in_range(head, width, dir);
    lemma_next_cell_wraps(head, width, dir);
    lemma_next_cell_wraps(mid, width, dir);
    lemma_row_in_range(head, width);
    vstd::arithmetic::div_mod::lemma_mod_bound(head as int, width as int);
    match dir {
        Direction::Right => {
            lemma_step_mod_twice(col_of(head, width), width, 1);
        },
        Direction::Left => {
            lemma_step_mod_twice(col_of(head, width), width, (width - 1) as nat);
        },
        Direction::Up => {
            lemma_step_mod_twice(row_of(head, width), width, (width - 1) as nat);
        },
        Direction::Down => {
            lemma_step_mod_twice(row_of(head, width), width, 1);
        },
    }
}

/// Stepping a coordinate twice by a stride that is neither zero nor half the
/// width, modulo the width, never lands back on the coordinate.
proof fn lemma_step_mod_twice(c: nat, width: nat, stride: nat)
    requires
        3 <= width,
        c < width,
        1 <= stride < width,
        2 * stride != width,
    ensures
        ((c + stride) % width + stride) % width != c,
{
    vstd::arithmetic::div_mod::lemma_mod_bound((c + stride) as int, width as int);
    let once = (c + stride) % width;
    if c + stride < width {
        vstd::arithmetic::div_mod::lemma_small_mod((c + stride) as nat, width);
    } else {
        assert(c + stride == width * 1 + (c + stride - width));
        vstd::arithmetic::div_mod::lemma_mod_multiples_vanish(
            1,
            (c + stride - width) as int,
            width as int,
        );
        vstd::arithmetic::div_mod::lemma_small_mod((c + stride - width) as nat, width);
    }
    if once + stride < width {
        vstd::arithmetic::div_mod::lemma_small_mod((once + stride) as nat, width);
    } else {
        assert(once + stride == width * 1 + (once + stride - width));
        vstd::arithmetic::div_mod::lemma_mod_multiples_vanish(
            1,
            (once + stride - width) as int,
            width as int,
        );
        vstd::arithmetic::div_mod::lemma_small_mod((once + stride - width) as nat, width);
    }
}

/// A cell on the board lies in a row below `width`.
pub proof fn lemma_row_in_range(cell: nat, width: nat)
    requires
        1 <= width,
        cell < width * width,
    ensures
        row_of(cell, width) < width,
{
    assert(cell / width < width) by (nonlinear_arith)
        requires 1 <= width, cell < width * width;
}

} // verus!
