//! The playing field: its dimensions, its cells, and the rules that decide
//! whether a set of cells may stand on it.
use crate::tetromino::{as_points, is_catalog_name, is_shape_name, SHAPE_SIZE};
use vstd::prelude::*;

verus! {

pub const BOARD_ROWS: usize = 21;

pub const BOARD_COLS: usize = 10;

/// What an empty cell holds; a filled cell holds the name of the shape that
/// was locked there.
pub const EMPTY_CELL: char = '_';

/// Column of the top-left corner of a newly spawned piece; its row is 0.
pub const SPAWN_COLUMN: usize = (BOARD_COLS - SHAPE_SIZE) / 2;

pub type Board = [[char; BOARD_COLS]; BOARD_ROWS];

/// The board as rows of cells, top row first.
pub open spec fn rows_of(b: Board) -> Seq<Seq<char>> {
    b@.map_values(|row: [char; BOARD_COLS]| row@)
}

pub open spec fn in_bounds(c: (int, int)) -> bool {
    0 <= c.0 < BOARD_ROWS && 0 <= c.1 < BOARD_COLS
}

pub open spec fn is_free(rows: Seq<Seq<char>>, c: (int, int)) -> bool {
    rows[c.0][c.1] == EMPTY_CELL
}

/// Every cell is on the board and empty.
pub open spec fn placeable(rows: Seq<Seq<char>>, cells: Seq<(int, int)>) -> bool {
    forall|k: int| 0 <= k < cells.len() ==> in_bounds(#[trigger] cells[k]) && is_free(rows, cells[k])
}

/// Why a piece may not stand where a move would put it. A horizontal overflow
/// carries the signed shift that would bring the piece back: negative past the
/// left edge, positive past the right edge.
#[derive(Clone, Copy, Debug, PartialEq, Eq, Structural)]
pub enum MoveNotAllowedError {
    TooFarLeft(i32),
    TooFarRight(i32),
    TooFarDown,
    OverlapsWithOccupied,
}

/// How far past a side edge a column lies: negative on the left, positive on
/// the right, 0 on the board.
pub open spec fn column_overflow(col: int) -> int {
    if col < 0 {
        col
    } else if col >= BOARD_COLS {
        col + 1 - BOARD_COLS
    } else {
        0
    }
}

pub open spec fn magnitude(x: int) -> int {
    if x < 0 {
        -x
    } else {
        x
    }
}

/// The column overflow of largest magnitude among the cells, the first one
/// on ties; 0 when every column is on the board.
pub open spec fn widest_overflow(cells: Seq<(int, int)>) -> int
    decreases cells.len(),
{
    if cells.len() == 0 {
        0
    } else {
        let w = widest_overflow(cells.drop_last());
        let o = column_overflow(cells.last().1);
        if magnitude(o) > magnitude(w) {
            o
        } else {
            w
        }
    }
}

/// Some cell lies below the bottom row.
pub open spec fn below_board(cells: Seq<(int, int)>) -> bool {
    exists|k: int| 0 <= k < cells.len() && (#[trigger] cells[k]).0 >= BOARD_ROWS
}

/// Some cell lies on a filled cell of the board.
pub open spec fn on_filled(rows: Seq<Seq<char>>, cells: Seq<(int, int)>) -> bool {
    exists|k: int| 0 <= k < cells.len() && !is_free(rows, #[trigger] cells[k])
}

/// A cell below the bottom row decides, even when another cell overlaps;
/// otherwise a cell on a filled cell does.
pub open spec fn vertical_outcome(rows: Seq<Seq<char>>, cells: Seq<(int, int)>) -> Result<(), MoveNotAllowedError> {
    if below_board(cells) {
        Err(MoveNotAllowedError::TooFarDown)
    } else if on_filled(rows, cells) {
        Err(MoveNotAllowedError::OverlapsWithOccupied)
    } else {
        Ok(())
    }
}

/// The verdict on cells a move would occupy: side overflows come first, so
/// that a caller can shift the piece back; then the bottom edge and filled cells.
pub open spec fn move_outcome(rows: Seq<Seq<char>>, cells: Seq<(int, int)>) -> Result<(), MoveNotAllowedError> {
    let w = widest_overflow(cells);
    if w < 0 {
        Err(MoveNotAllowedError::TooFarLeft(w as i32))
    } else if w > 0 {
        Err(MoveNotAllowedError::TooFarRight(w as i32))
    } else {
        vertical_outcome(rows, cells)
    }
}

/// Every cell is at or below the top row and its coordinates fit in an `i32`
/// (columns strictly above `i32::MIN`, so that a distance can be negated).
pub open spec fn representable(cells: Seq<(int, int)>) -> bool {
    forall|k: int|
        0 <= k < cells.len() ==> 0 <= (#[trigger] cells[k]).0 <= i32::MAX && i32::MIN < cells[k].1 <= i32::MAX
}

pub proof fn lemma_widest_zero(cells: Seq<(int, int)>)
    ensures
        widest_overflow(cells) == 0 <==> forall|k: int|
            0 <= k < cells.len() ==> 0 <= (#[trigger] cells[k]).1 < BOARD_COLS,
    decreases cells.len(),
{
    if cells.len() > 0 {
        lemma_widest_zero(cells.drop_last());
        if widest_overflow(cells) == 0 {
            assert forall|k: int| 0 <= k < cells.len() implies 0 <= (#[trigger] cells[k]).1 < BOARD_COLS by {
                if k < cells.len() - 1 {
                    assert(cells.drop_last()[k] == cells[k]);
                }
            }
        } else {
            if forall|k: int| 0 <= k < cells.len() ==> 0 <= (#[trigger] cells[k]).1 < BOARD_COLS {
                assert forall|k: int| 0 <= k < cells.drop_last().len() implies 0 <= (
                #[trigger] cells.drop_last()[k]).1 < BOARD_COLS by {
                    assert(cells.drop_last()[k] == cells[k]);
                }
                assert(0 <= cells[cells.len() - 1].1 < BOARD_COLS);
            }
        }
    }
}

proof fn lemma_vertical_ok(rows: Seq<Seq<char>>, cells: Seq<(int, int)>)
    requires
        forall|k: int| 0 <= k < cells.len() ==> 0 <= (#[trigger] cells[k]).0 && 0 <= cells[k].1 < BOARD_COLS,
    ensures
        vertical_outcome(rows, cells) is Ok <==> placeable(rows, cells),
{
    if placeable(rows, cells) {
        assert forall|k: int| 0 <= k < cells.len() implies (#[trigger] cells[k]).0 < BOARD_ROWS by {
            assert(in_bounds(cells[k]));
        }
    }
}

/// A move is allowed exactly when every cell it would occupy is on the board
/// and empty.
pub proof fn lemma_outcome_ok(rows: Seq<Seq<char>>, cells: Seq<(int, int)>)
    requires
        forall|k: int| 0 <= k < cells.len() ==> 0 <= (#[trigger] cells[k]).0,
    ensures
        move_outcome(rows, cells) is Ok <==> placeable(rows, cells),
{
    lemma_widest_zero(cells);
    if widest_overflow(cells) == 0 {
        lemma_vertical_ok(rows, cells);
    } else {
        if placeable(rows, cells) {
            assert forall|k: int| 0 <= k < cells.len() implies 0 <= (#[trigger] cells[k]).1 < BOARD_COLS by {
                assert(in_bounds(cells[k]));
            }
        }
    }
}

pub open spec fn row_full(row: Seq<char>) -> bool {
    forall|j: int| 0 <= j < row.len() ==> row[j] != EMPTY_CELL
}

pub open spec fn empty_row() -> Seq<char> {
    Seq::new(BOARD_COLS as nat, |c: int| EMPTY_CELL)
}

/// The rows that are not full, in their order.
pub open spec fn kept_rows(rows: Seq<Seq<char>>) -> Seq<Seq<char>> {
    rows.filter(|row: Seq<char>| !row_full(row))
}

pub open spec fn full_row_count(rows: Seq<Seq<char>>) -> int {
    rows.len() - kept_rows(rows).len()
}

/// The board once its full rows are removed: the other rows keep their
/// order and sink to the bottom, and empty rows fill the top.
pub open spec fn cleared(rows: Seq<Seq<char>>) -> Seq<Seq<char>> {
    Seq::new(full_row_count(rows) as nat, |i: int| empty_row()) + kept_rows(rows)
}

/// The board with the given cells filled with `name`.
pub open spec fn stamped(rows: Seq<Seq<char>>, cells: Seq<(int, int)>, name: char) -> Seq<Seq<char>> {
    Seq::new(
        rows.len(),
        |r: int| Seq::new(rows[r].len(), |c: int| if cells.contains((r, c)) { name } else { rows[r][c] }),
    )
}

pub fn row_is_full(board: &Board, i: usize) -> (full: bool)
    requires
        i < BOARD_ROWS,
    ensures
        full == row_full(rows_of(*board)[i as int]),
{
    let mut j: usize = 0;
    while j < BOARD_COLS
        invariant
            i < BOARD_ROWS,
            j <= BOARD_COLS,
            forall|c: int| 0 <= c < j ==> board[i as int][c] != EMPTY_CELL,
        decreases BOARD_COLS - j,
    {
        if board[i][j] == EMPTY_CELL {
            return false;
        }
        j += 1;
    }
    true
}

/// Moves every row above row `i` one row down; the top row stays as it was.
fn shift_rows_down(board: &mut Board, i: usize)
    requires
        i < BOARD_ROWS,
    ensures
        forall|r: int| 0 <= r < i ==> final(board)[r + 1] == old(board)[r],
        final(board)[0] == old(board)[0],
        forall|r: int| i < r < BOARD_ROWS ==> final(board)[r] == old(board)[r],
{
    let mut r: usize = i;
    while r > 0
        invariant
            r <= i < BOARD_ROWS,
            forall|x: int| r < x <= i ==> board[x] == old(board)[x - 1],
            forall|x: int| 0 <= x <= r ==> board[x] == old(board)[x],
            forall|x: int| i < x < BOARD_ROWS ==> board[x] == old(board)[x],
        decreases r,
    {
        board[r] = board[r - 1];
        r -= 1;
    }
}

/// Removes the full rows: scanning from the bottom, a full row is replaced by
/// the rows above it and the same index is checked again; the rows freed at
/// the top are emptied. Returns the number of rows removed.
#[verifier::rlimit(40)]
pub fn remove_full_rows(board: &mut Board) -> (n: usize)
    ensures
        rows_of(*final(board)) == cleared(rows_of(*old(board))),
        n == full_row_count(rows_of(*old(board))),
{
    let ghost orig = rows_of(*board);
    let mut n_cleared: usize = 0;
    // Rows of the board as it was on entry, counted from the top, that the scan has not
    // reached yet; the scan stands at index `n_cleared + remaining - 1`.
    let mut remaining: usize = BOARD_ROWS;
    while remaining > 0
        invariant
            n_cleared + remaining <= BOARD_ROWS,
            orig.len() == BOARD_ROWS,
            forall|r: int| 0 <= r < remaining ==> rows_of(*board)[n_cleared + r] == orig[r],
            rows_of(*board).subrange(n_cleared + remaining, BOARD_ROWS as int) == kept_rows(
                orig.subrange(remaining as int, BOARD_ROWS as int),
            ),
        decreases remaining,
    {
        let i = n_cleared + remaining - 1;
        let ghost before = rows_of(*board);
        let ghost tail = orig.subrange(remaining as int, BOARD_ROWS as int);
        proof {
            assert(orig.subrange(remaining - 1, BOARD_ROWS as int) =~= seq![orig[remaining - 1]] + tail);
            tail.lemma_filter_prepend(orig[remaining - 1], |row: Seq<char>| !row_full(row));
        }
        let ghost before_arr = *board;
        if row_is_full(board, i) {
            shift_rows_down(board, i);
            n_cleared += 1;
            remaining -= 1;
            proof {
                let after = rows_of(*board);
                assert forall|r: int| 0 <= r < remaining implies after[n_cleared + r] == orig[r] by {
                    assert(board[n_cleared + r] == before_arr[n_cleared - 1 + r]);
                    assert(after[n_cleared + r] == board[n_cleared + r]@);
                    assert(before[n_cleared - 1 + r] == before_arr[n_cleared - 1 + r]@);
                }
                assert(after.subrange(n_cleared + remaining, BOARD_ROWS as int) =~= before.subrange(
                    n_cleared + remaining,
                    BOARD_ROWS as int,
                ));
            }
        } else {
            remaining -= 1;
            proof {
                assert(before.subrange(n_cleared + remaining, BOARD_ROWS as int) =~= seq![before[i as int]]
                    + before.subrange(n_cleared + remaining + 1, BOARD_ROWS as int));
            }
        }
    }
    let ghost kept = kept_rows(orig);
    assert(orig.subrange(0, BOARD_ROWS as int) =~= orig);
    let mut r: usize = 0;
    while r < n_cleared
        invariant
            n_cleared <= BOARD_ROWS,
            r <= n_cleared,
            rows_of(*board).subrange(n_cleared as int, BOARD_ROWS as int) == kept,
            forall|x: int| 0 <= x < r ==> rows_of(*board)[x] == empty_row(),
        decreases n_cleared - r,
    {
        let ghost before = rows_of(*board);
        board[r] = [EMPTY_CELL; BOARD_COLS];
        proof {
            let after = rows_of(*board);
            assert(after[r as int] =~= empty_row());
            assert forall|x: int| 0 <= x < r implies after[x] == empty_row() by {
                assert(after[x] == board[x]@);
                assert(before[x] == board[x]@);
            }
            assert(after.subrange(n_cleared as int, BOARD_ROWS as int) =~= before.subrange(
                n_cleared as int,
                BOARD_ROWS as int,
            ));
        }
        r += 1;
    }
    proof {
        let after = rows_of(*board);
        assert(after =~= after.subrange(0, n_cleared as int) + after.subrange(n_cleared as int, BOARD_ROWS as int));
        assert(after.subrange(0, n_cleared as int) =~= Seq::new(n_cleared as nat, |i: int| empty_row()));
    }
    n_cleared
}

/// Fills the given cells with `name`.
pub fn stamp_cells(board: &mut Board, cells: &Vec<(i32, i32)>, name: char)
    requires
        forall|k: int| 0 <= k < cells@.len() ==> in_bounds(#[trigger] as_points(cells@)[k]),
    ensures
        rows_of(*final(board)) == stamped(rows_of(*old(board)), as_points(cells@), name),
{
    let ghost pts = as_points(cells@);
    let mut k: usize = 0;
    while k < cells.len()
        invariant
            k <= cells@.len(),
            pts == as_points(cells@),
            forall|k: int| 0 <= k < cells@.len() ==> in_bounds(#[trigger] as_points(cells@)[k]),
            forall|r: int, c: int|
                0 <= r < BOARD_ROWS && 0 <= c < BOARD_COLS ==> #[trigger] board[r][c] == if pts.take(
                    k as int,
                ).contains((r, c)) {
                    name
                } else {
                    old(board)[r][c]
                },
        decreases cells@.len() - k,
    {
        let (row, col) = cells[k];
        assert(in_bounds(pts[k as int]));
        let ghost before_arr = *board;
        board[row as usize][col as usize] = name;
        proof {
            let t0 = pts.take(k as int);
            let t1 = pts.take(k + 1);
            assert(t1 =~= t0.push(pts[k as int]));
            assert forall|r: int, c: int| 0 <= r < BOARD_ROWS && 0 <= c < BOARD_COLS implies #[trigger] board[r][c]
                == if t1.contains((r, c)) {
                name
            } else {
                old(board)[r][c]
            } by {
                if t1.contains((r, c)) && !t0.contains((r, c)) {
                    let j = choose|j: int| 0 <= j < t1.len() && t1[j] == (r, c);
                    if j < k {
                        assert(t0[j] == (r, c));
                    }
                }
                if t0.contains((r, c)) {
                    let j = choose|j: int| 0 <= j < t0.len() && t0[j] == (r, c);
                    assert(t1[j] == (r, c));
                }
                if (r, c) == pts[k as int] {
                    assert(t1[k as int] == (r, c));
                } else {
                    assert(board[r][c] == before_arr[r][c]);
                }
            }
        }
        k += 1;
    }
    proof {
        assert(pts.take(k as int) =~= pts);
        let lhs = rows_of(*board);
        let rhs = stamped(rows_of(*old(board)), pts, name);
        assert forall|r: int| 0 <= r < BOARD_ROWS implies lhs[r] =~= rhs[r] by {
            assert forall|c: int| 0 <= c < BOARD_COLS implies lhs[r][c] == rhs[r][c] by {
                assert(board[r][c] == lhs[r][c]);
            }
        }
        assert(lhs =~= rhs);
    }
}

/// Whether every cell is on the board and empty.
pub fn placeable_on(board: &Board, cells: &Vec<(i32, i32)>) -> (ok: bool)
    ensures
        ok == placeable(rows_of(*board), as_points(cells@)),
{
    let ghost pts = as_points(cells@);
    let mut k: usize = 0;
    while k < cells.len()
        invariant
            k <= cells@.len(),
            pts == as_points(cells@),
            forall|j: int| 0 <= j < k ==> in_bounds(#[trigger] pts[j]) && is_free(rows_of(*board), pts[j]),
        decreases cells@.len() - k,
    {
        let (row, col) = cells[k];
        if row < 0 || row >= BOARD_ROWS as i32 || col < 0 || col >= BOARD_COLS as i32 {
            assert(!in_bounds(pts[k as int]));
            return false;
        }
        if board[row as usize][col as usize] != EMPTY_CELL {
            assert(rows_of(*board)[row as int][col as int] == board[row as int][col as int]);
            assert(!is_free(rows_of(*board), pts[k as int]));
            return false;
        }
        assert(rows_of(*board)[row as int][col as int] == board[row as int][col as int]);
        k += 1;
    }
    true
}

/// Cells that all lie on the board are refused, if at all, for overlapping.
pub proof fn lemma_outcome_on_board(rows: Seq<Seq<char>>, cells: Seq<(int, int)>)
    requires
        forall|k: int| 0 <= k < cells.len() ==> in_bounds(#[trigger] cells[k]),
    ensures
        move_outcome(rows, cells) is Ok || move_outcome(rows, cells) == Err::<(), MoveNotAllowedError>(
            MoveNotAllowedError::OverlapsWithOccupied,
        ),
{
    lemma_widest_zero(cells);
    assert forall|k: int| 0 <= k < cells.len() implies 0 <= (#[trigger] cells[k]).1 < BOARD_COLS by {
        assert(in_bounds(cells[k]));
    }
}

/// A cell is empty or holds the name of a catalog shape.
pub open spec fn cell_valid(c: char) -> bool {
    c == EMPTY_CELL || is_shape_name(c)
}

pub open spec fn row_valid(row: Seq<char>) -> bool {
    forall|c: int| 0 <= c < row.len() ==> cell_valid(#[trigger] row[c])
}

/// Every cell of the board is empty or holds a catalog name.
pub open spec fn board_valid(rows: Seq<Seq<char>>) -> bool {
    forall|r: int| 0 <= r < rows.len() ==> row_valid(#[trigger] rows[r])
}

/// Locking a piece with a catalog name into a valid board, then clearing
/// rows, leaves a valid board.
pub proof fn lemma_lock_keeps_board_valid(rows: Seq<Seq<char>>, cells: Seq<(int, int)>, name: char)
    requires
        board_valid(rows),
        is_shape_name(name),
    ensures
        board_valid(stamped(rows, cells, name)),
        board_valid(cleared(stamped(rows, cells, name))),
{
    let b = stamped(rows, cells, name);
    assert forall|r: int| 0 <= r < b.len() implies row_valid(#[trigger] b[r]) by {
        assert forall|c: int| 0 <= c < b[r].len() implies cell_valid(#[trigger] b[r][c]) by {
            assert(row_valid(rows[r]));
        }
    }
    let kept = kept_rows(b);
    let n = full_row_count(b);
    let out = cleared(b);
    assert forall|r: int| 0 <= r < out.len() implies row_valid(#[trigger] out[r]) by {
        if r >= n {
            assert(out[r] == kept[r - n]);
            assert(kept.contains(kept[r - n]));
            b.lemma_filter_contains_rev(|row: Seq<char>| !row_full(row), kept[r - n]);
        }
    }
}

/// Whether every cell of the board is empty or holds a catalog name.
pub fn board_is_valid(board: &Board) -> (ok: bool)
    ensures
        ok == board_valid(rows_of(*board)),
{
    let mut r: usize = 0;
    while r < BOARD_ROWS
        invariant
            r <= BOARD_ROWS,
            forall|x: int| 0 <= x < r ==> row_valid(#[trigger] rows_of(*board)[x]),
        decreases BOARD_ROWS - r,
    {
        let mut c: usize = 0;
        while c < BOARD_COLS
            invariant
                r < BOARD_ROWS,
                c <= BOARD_COLS,
                forall|x: int| 0 <= x < r ==> row_valid(#[trigger] rows_of(*board)[x]),
                forall|y: int| 0 <= y < c ==> cell_valid(#[trigger] board[r as int][y]),
            decreases BOARD_COLS - c,
        {
            let v = board[r][c];
            if v != EMPTY_CELL && !is_catalog_name(v) {
                assert(rows_of(*board)[r as int][c as int] == v);
                return false;
            }
            c += 1;
        }
        assert forall|y: int| 0 <= y < rows_of(*board)[r as int].len() implies cell_valid(
            #[trigger] rows_of(*board)[r as int][y],
        ) by {
            assert(rows_of(*board)[r as int][y] == board[r as int][y]);
        }
        r += 1;
    }
    true
}

/// With no full row among them, all rows are kept.
pub proof fn lemma_no_full_rows(rows: Seq<Seq<char>>)
    requires
        forall|r: int| 0 <= r < rows.len() ==> !row_full(#[trigger] rows[r]),
    ensures
        kept_rows(rows) == rows,
    decreases rows.len(),
{
    reveal(Seq::filter);
    if rows.len() > 0 {
        let rest = rows.drop_last();
        assert forall|r: int| 0 <= r < rest.len() implies !row_full(#[trigger] rest[r]) by {
            assert(rest[r] == rows[r]);
        }
        lemma_no_full_rows(rest);
        assert(!row_full(rows.last()));
        assert(rest.push(rows.last()) =~= rows);
    }
}

/// When only the bottom row is full, clearing removes it, moves every other
/// row down by one and leaves an empty row on top.
pub proof fn lemma_clear_bottom_row(rows: Seq<Seq<char>>)
    requires
        rows.len() == BOARD_ROWS,
        row_full(rows[BOARD_ROWS - 1]),
        forall|r: int| 0 <= r < BOARD_ROWS - 1 ==> !row_full(#[trigger] rows[r]),
    ensures
        full_row_count(rows) == 1,
        cleared(rows) == seq![empty_row()] + rows.subrange(0, BOARD_ROWS - 1),
{
    let top = rows.subrange(0, BOARD_ROWS - 1);
    assert forall|r: int| 0 <= r < top.len() implies !row_full(#[trigger] top[r]) by {
        assert(top[r] == rows[r]);
    }
    lemma_no_full_rows(top);
    reveal(Seq::filter);
    assert(rows.drop_last() =~= top);
    assert(kept_rows(rows) == kept_rows(top));
    assert(cleared(rows) =~= seq![empty_row()] + top);
}

} // verus!
