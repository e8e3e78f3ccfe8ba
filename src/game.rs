//! The game state machine: the active and next pieces on the board, moves,
//! rotations with a wall kick, gravity ticks, locking, row clearing, score and
//! level.
use crate::board::{
    lemma_no_full_rows, lemma_clear_bottom_row, row_full, board_is_valid, board_valid, lemma_lock_keeps_board_valid, cleared, empty_row, full_row_count, in_bounds, is_free, lemma_outcome_ok, lemma_outcome_on_board,
    lemma_widest_zero, magnitude, move_outcome, placeable, placeable_on,
    remove_full_rows, representable, rows_of, stamp_cells, stamped, widest_overflow, Board,
    MoveNotAllowedError, BOARD_COLS, BOARD_ROWS, EMPTY_CELL, SPAWN_COLUMN,
};
use crate::input::{arrow_named, arrow_step, parse_arrow, step_of, Arrow};
use crate::notify::{notes_of, piece_note, post, NoteView, Notification, NumberChannel, PieceChannel};
use crate::rules::{
    lemma_lines_needed_bounds_level, lines_needed, lines_needed_for_level, points_for, score_for_lines,
    wait_ticks, wait_ticks_for_level,
};
use crate::tetromino::{
    as_points, bag_draw, catalog_entry, is_bag_order, lemma_cells_shift, moved_piece, piece_cells,
    rotated_piece, shifted, is_mask, is_shape_name, lemma_cells_near, SHAPE_SIZE, BagView, PieceView, ShapeView, Tetromino, TetrominoShapeGenerator, N_SHAPES,
};
use vstd::prelude::*;

verus! {

/// The view of a game.
pub struct GameView {
    pub board: Seq<Seq<char>>,
    pub current: PieceView,
    pub next: PieceView,
    pub bag: BagView,
    pub level: int,
    pub total_lines: int,
    pub score: int,
    pub wait_ticks: int,
    pub game_over: bool,
    pub notes: Seq<NoteView>,
}

/// What holds of every game between two operations: the active piece lies on
/// the board at or below the top row, it overlaps no locked cell while the game
/// is on, the next piece waits at the origin, and every board cell is empty or
/// holds a catalog name.
pub open spec fn consistent(v: GameView) -> bool {
    &&& board_valid(v.board)
    &&& forall|k: int| 0 <= k < piece_cells(v.current).len() ==> in_bounds(#[trigger] piece_cells(v.current)[k])
    &&& v.current.pos.0 >= 0
    &&& !v.game_over ==> placeable(v.board, piece_cells(v.current))
    &&& v.next.pos == (0int, 0int)
    &&& is_bag_order(v.bag.order)
    &&& v.bag.cursor <= N_SHAPES
}

/// A piece of the given shape where new pieces appear: row 0, `SPAWN_COLUMN`.
pub open spec fn spawn_piece(shape: ShapeView) -> PieceView {
    PieceView { shape, pos: (0, SPAWN_COLUMN as int) }
}

/// `x + y`, or `max` when the sum is larger.
pub open spec fn capped_sum(x: int, y: int, max: int) -> int {
    if x + y > max {
        max
    } else {
        x + y
    }
}

/// The state once full rows are removed from the board; if there were any,
/// the board, the new score and the points just won are announced, the lines
/// are counted, and the level rises by one when the total reaches the
/// threshold of the current level, which is then announced.
pub open spec fn after_clear(v: GameView) -> GameView {
    let n = full_row_count(v.board);
    let b = cleared(v.board);
    let points = points_for(n, v.level);
    let score = if n > 0 {
        capped_sum(v.score, points, u64::MAX as int)
    } else {
        v.score
    };
    let lines = if n > 0 {
        capped_sum(v.total_lines, n, u32::MAX as int)
    } else {
        v.total_lines
    };
    let up = n > 0 && lines >= lines_needed(v.level);
    let level = if up {
        v.level + 1
    } else {
        v.level
    };
    let level_notes = if up {
        seq![NoteView::Number(NumberChannel::Level, level)]
    } else {
        Seq::empty()
    };
    let clear_notes = if n > 0 {
        seq![
            NoteView::Board(b),
            NoteView::Number(NumberChannel::Score, score),
            NoteView::Number(NumberChannel::ScoreIncrease, points),
        ] + level_notes
    } else {
        Seq::empty()
    };
    GameView { board: b, level, total_lines: lines, score, notes: v.notes + clear_notes, ..v }
}

/// The state once the active piece is merged into the board, full rows are
/// cleared, and the board is announced.
pub open spec fn locked(v: GameView) -> GameView {
    let w = after_clear(
        GameView { board: stamped(v.board, piece_cells(v.current), v.current.shape.name), ..v },
    );
    GameView { notes: w.notes.push(NoteView::Board(w.board)), ..w }
}

/// `w` follows `v` by a spawn: the next piece becomes the active one at the
/// spawn position, a fresh next piece is drawn at the origin, and the game is
/// over exactly when the new active piece overlaps a locked cell. On success
/// both pieces are announced, else the end of the game.
pub open spec fn spawned(v: GameView, w: GameView) -> bool {
    let cur = spawn_piece(v.next.shape);
    &&& w.board == v.board
    &&& w.level == v.level
    &&& w.total_lines == v.total_lines
    &&& w.score == v.score
    &&& w.wait_ticks == v.wait_ticks
    &&& w.current == cur
    &&& bag_draw(v.bag, w.bag, w.next.shape)
    &&& w.next.pos == (0int, 0int)
    &&& w.game_over == !placeable(v.board, piece_cells(cur))
    &&& w.notes == v.notes + if w.game_over {
        seq![NoteView::GameOver]
    } else {
        seq![piece_note(PieceChannel::Current, cur), piece_note(PieceChannel::Next, w.next)]
    }
}

/// The active piece can go no further down: it is locked, rows are cleared and
/// the next piece spawns.
pub open spec fn lock_and_spawn(v: GameView, w: GameView) -> bool {
    spawned(locked(v), w)
}

/// `v` with `p` as its active piece, announced.
pub open spec fn with_current(v: GameView, p: PieceView) -> GameView {
    GameView {
        board: v.board,
        current: p,
        next: v.next,
        bag: v.bag,
        level: v.level,
        total_lines: v.total_lines,
        score: v.score,
        wait_ticks: v.wait_ticks,
        game_over: v.game_over,
        notes: v.notes.push(piece_note(PieceChannel::Current, p)),
    }
}

/// The cells the active piece would occupy after `step`.
pub open spec fn target(v: GameView, step: (int, int)) -> Seq<(int, int)> {
    shifted(piece_cells(v.current), step)
}

/// `v` with its active piece moved by `step`, announced.
pub open spec fn moved(v: GameView, step: (int, int)) -> GameView {
    with_current(v, moved_piece(v.current, step))
}

/// A hard drop from `v` moves the piece down `k` rows: each of the first `k`
/// rows down is free for it, the next one is not.
pub open spec fn drop_distance(v: GameView, k: nat) -> bool {
    &&& forall|j: int| 1 <= j <= k ==> #[trigger] placeable(v.board, target(v, (j, 0)))
    &&& !placeable(v.board, target(v, (k + 1int, 0int)))
}

/// `v` with its active piece `k` rows lower, not announced.
pub open spec fn dropped(v: GameView, k: nat) -> GameView {
    GameView { current: moved_piece(v.current, (k as int, 0)), ..v }
}

/// The full state announced when play starts or restarts.
pub open spec fn snapshot_notes(v: GameView) -> Seq<NoteView> {
    seq![
        piece_note(PieceChannel::Current, v.current),
        piece_note(PieceChannel::Next, v.next),
        NoteView::Number(NumberChannel::Score, v.score),
        NoteView::Number(NumberChannel::Level, v.level),
        NoteView::Board(v.board),
    ]
}

pub open spec fn empty_board() -> Seq<Seq<char>> {
    Seq::new(BOARD_ROWS as nat, |r: int| empty_row())
}

/// `v` is a fresh game: empty board, counters at zero, two pieces drawn one
/// after the other from `bag`, the first at the spawn position.
pub open spec fn fresh(bag: BagView, v: GameView) -> bool {
    &&& v.board == empty_board()
    &&& v.current.pos == spawn_piece(v.current.shape).pos
    &&& v.next.pos == (0int, 0int)
    &&& exists|mid: BagView| bag_draw(bag, mid, v.current.shape) && bag_draw(mid, v.bag, v.next.shape)
    &&& v.level == 0
    &&& v.total_lines == 0
    &&& v.score == 0
    &&& v.wait_ticks == wait_ticks(0)
    &&& !v.game_over
}

/// A piece whose columns lie within four of `left`, with `left` near the
/// board, overflows by at most three columns.
proof fn lemma_widest_bounds(cells: Seq<(int, int)>, left: int)
    requires
        -3 <= left < BOARD_COLS,
        forall|k: int| 0 <= k < cells.len() ==> left <= (#[trigger] cells[k]).1 < left + 4,
    ensures
        -3 <= widest_overflow(cells) <= 3,
    decreases cells.len(),
{
    if cells.len() > 0 {
        assert forall|k: int| 0 <= k < cells.drop_last().len() implies left <= (
        #[trigger] cells.drop_last()[k]).1 < left + 4 by {
            assert(cells.drop_last()[k] == cells[k]);
        }
        lemma_widest_bounds(cells.drop_last(), left);
        assert(left <= cells.last().1 < left + 4);
    }
}

/// Locking a piece never lowers the score, the count of cleared lines or the
/// level, and raises the level by at most one.
pub proof fn lemma_lock_keeps_counters(v: GameView, w: GameView)
    requires
        lock_and_spawn(v, w),
        0 <= v.score <= u64::MAX,
        0 <= v.total_lines <= u32::MAX,
        v.level >= 0,
    ensures
        w.score >= v.score,
        w.total_lines >= v.total_lines,
        v.level <= w.level <= v.level + 1,
{
    let b = stamped(v.board, piece_cells(v.current), v.current.shape.name);
    let n = full_row_count(b);
    assert(points_for(n, v.level) >= 0) by (nonlinear_arith)
        requires
            v.level >= 0,
            points_for(n, v.level) == crate::rules::base_points(n) * (v.level + 1),
            crate::rules::base_points(n) >= 0,
    ;
}

/// When only the bottom row is full, clearing takes away exactly that row:
/// the rows above move down by one, the top row is empty, one line is counted,
/// the score rises by 100 times the level plus one, and the board, the score
/// and that increase are announced once each.
pub proof fn lemma_single_row_clear(v: GameView)
    requires
        v.board.len() == BOARD_ROWS,
        row_full(v.board[BOARD_ROWS - 1]),
        forall|r: int| 0 <= r < BOARD_ROWS - 1 ==> !row_full(#[trigger] v.board[r]),
        v.level >= 0,
        0 <= v.score,
        v.score + 100 * (v.level + 1) <= u64::MAX,
        0 <= v.total_lines < u32::MAX,
    ensures
        after_clear(v).board == seq![empty_row()] + v.board.subrange(0, BOARD_ROWS - 1),
        after_clear(v).score == v.score + 100 * (v.level + 1),
        after_clear(v).total_lines == v.total_lines + 1,
        after_clear(v).notes.subrange(v.notes.len() as int, v.notes.len() + 3int) == seq![
            NoteView::Board(after_clear(v).board),
            NoteView::Number(NumberChannel::Score, v.score + 100 * (v.level + 1)),
            NoteView::Number(NumberChannel::ScoreIncrease, 100 * (v.level + 1)),
        ],
{
    lemma_clear_bottom_row(v.board);
    let w = after_clear(v);
    assert(w.notes.subrange(v.notes.len() as int, v.notes.len() + 3int) =~= seq![
        NoteView::Board(w.board),
        NoteView::Number(NumberChannel::Score, v.score + 100 * (v.level + 1)),
        NoteView::Number(NumberChannel::ScoreIncrease, 100 * (v.level + 1)),
    ]);
}

/// The level is compared with the threshold of the current level only: when
/// rows are cleared it rises by one exactly when the new line count reaches
/// that threshold, never by more, and a rise is announced once, last.
pub proof fn lemma_level_threshold(v: GameView)
    requires
        full_row_count(v.board) > 0,
        0 <= v.total_lines,
        v.total_lines + full_row_count(v.board) <= u32::MAX,
    ensures
        ({
            let n = full_row_count(v.board);
            let up = v.total_lines + n >= lines_needed(v.level);
            let w = after_clear(v);
            &&& w.total_lines == v.total_lines + n
            &&& w.level == if up {
                v.level + 1
            } else {
                v.level
            }
            &&& w.notes.len() == v.notes.len() + if up {
                4int
            } else {
                3int
            }
            &&& up ==> w.notes.last() == NoteView::Number(NumberChannel::Level, v.level + 1)
            &&& forall|i: int|
                v.notes.len() <= i < v.notes.len() + 3 ==> !(#[trigger] w.notes[i] matches NoteView::Number(
                    NumberChannel::Level,
                    _,
                ))
        }),
{
}

/// A spawn onto filled cells ends the game: the end is announced once and
/// nothing else, and board, score, lines and level stay as they were.
pub proof fn lemma_blocked_spawn(v: GameView, w: GameView)
    requires
        spawned(v, w),
        !placeable(v.board, piece_cells(spawn_piece(v.next.shape))),
    ensures
        w.game_over,
        w.notes == v.notes.push(NoteView::GameOver),
        w.board == v.board,
        w.score == v.score,
        w.total_lines == v.total_lines,
        w.level == v.level,
{
    assert(v.notes + seq![NoteView::GameOver] =~= v.notes.push(NoteView::GameOver));
}

/// A piece locked low on an otherwise empty board fills no row: the board
/// then holds exactly that piece, nothing is scored, and the next piece
/// appears at the spawn position, row 0 and column `SPAWN_COLUMN`, with the
/// game still on.
pub proof fn lemma_lock_on_empty_board(v: GameView, w: GameView)
    requires
        lock_and_spawn(v, w),
        v.board == empty_board(),
        forall|k: int|
            0 <= k < piece_cells(v.current).len() ==> in_bounds(#[trigger] piece_cells(v.current)[k])
                && piece_cells(v.current)[k].0 >= SHAPE_SIZE,
    ensures
        w.board == stamped(empty_board(), piece_cells(v.current), v.current.shape.name),
        w.current == spawn_piece(v.next.shape),
        w.current.pos == (0int, SPAWN_COLUMN as int),
        !w.game_over,
        w.score == v.score,
        w.total_lines == v.total_lines,
        w.level == v.level,
{
    let cells = piece_cells(v.current);
    let b = stamped(empty_board(), cells, v.current.shape.name);
    let p = v.current.pos.1;
    lemma_cells_near(v.current.shape.mask, v.current.pos);
    let free_col: int = if p >= SHAPE_SIZE { 0 } else { BOARD_COLS - 1 };
    assert forall|r: int| 0 <= r < b.len() implies !row_full(#[trigger] b[r]) by {
        if cells.contains((r, free_col)) {
            let k = choose|k: int| 0 <= k < cells.len() && cells[k] == (r, free_col);
            assert(p <= cells[k].1 < p + SHAPE_SIZE);
        }
        assert(b[r][free_col] == EMPTY_CELL);
    }
    lemma_no_full_rows(b);
    assert(cleared(b) =~= b);
    let spawn = spawn_piece(v.next.shape);
    let sc = piece_cells(spawn);
    lemma_cells_near(spawn.shape.mask, spawn.pos);
    assert forall|k: int| 0 <= k < sc.len() implies in_bounds(#[trigger] sc[k]) && is_free(b, sc[k]) by {
        let c = sc[k];
        if cells.contains(c) {
            let j = choose|j: int| 0 <= j < cells.len() && cells[j] == c;
            assert(cells[j].0 >= SHAPE_SIZE);
        }
        assert(b[c.0][c.1] == EMPTY_CELL);
    }
}

pub struct Game {
    board: Board,
    current_tetromino: Tetromino,
    next_tetromino: Tetromino,
    tetromino_shape_generator: TetrominoShapeGenerator,
    level: u16,
    total_lines_cleared: u32,
    score: u64,
    wait_ticks_remaining: u32,
    game_over: bool,
    notifications: Vec<Notification>,
}

impl View for Game {
    type V = GameView;

    closed spec fn view(&self) -> GameView {
        GameView {
            board: rows_of(self.board),
            current: self.current_tetromino@,
            next: self.next_tetromino@,
            bag: self.tetromino_shape_generator@,
            level: self.level as int,
            total_lines: self.total_lines_cleared as int,
            score: self.score as int,
            wait_ticks: self.wait_ticks_remaining as int,
            game_over: self.game_over,
            notes: notes_of(self.notifications@),
        }
    }
}

impl Game {
    /// The pieces and the generator are well formed and the next piece waits at the origin.
    closed spec fn parts_wf(&self) -> bool {
        &&& self.current_tetromino.wf()
        &&& self.next_tetromino.wf()
        &&& self.tetromino_shape_generator.wf()
        &&& self.next_tetromino@.pos == (0int, 0int)
    }

    pub closed spec fn wf(&self) -> bool {
        &&& self.parts_wf()
        &&& consistent(self@)
    }

    pub proof fn lemma_wf(&self)
        requires
            self.wf(),
        ensures
            consistent(self@),
            self@.board.len() == BOARD_ROWS,
            forall|r: int| 0 <= r < BOARD_ROWS ==> (#[trigger] self@.board[r]).len() == BOARD_COLS,
            is_mask(self@.current.shape.mask),
            is_mask(self@.next.shape.mask),
            is_shape_name(self@.current.shape.name),
            is_shape_name(self@.next.shape.name),
            0 <= self@.level <= u16::MAX,
            0 <= self@.total_lines <= u32::MAX,
            0 <= self@.score <= u64::MAX,
            0 <= self@.wait_ticks <= u32::MAX,
    {
        self.current_tetromino.lemma_wf();
        self.next_tetromino.lemma_wf();
    }

    fn update_score(&mut self, n_lines_cleared: u32)
        ensures
            final(self).parts_wf() == old(self).parts_wf(),
            final(self)@ == (GameView {
                score: capped_sum(old(self)@.score, points_for(n_lines_cleared as int, old(self)@.level), u64::MAX as int),
                notes: old(self)@.notes + seq![
                    NoteView::Number(NumberChannel::Score, capped_sum(old(self)@.score, points_for(n_lines_cleared as int, old(self)@.level), u64::MAX as int)),
                    NoteView::Number(NumberChannel::ScoreIncrease, points_for(n_lines_cleared as int, old(self)@.level)),
                ],
                ..old(self)@
            }),
    {
        let points = score_for_lines(n_lines_cleared, self.level);
        self.score = self.score.saturating_add(points);
        post(&mut self.notifications, Notification::Number { kind: NumberChannel::Score, value: self.score });
        post(&mut self.notifications, Notification::Number { kind: NumberChannel::ScoreIncrease, value: points });
        proof {
            let o = old(self)@;
            assert(self@.notes =~= o.notes + seq![
                NoteView::Number(NumberChannel::Score, capped_sum(o.score, points_for(n_lines_cleared as int, o.level), u64::MAX as int)),
                NoteView::Number(NumberChannel::ScoreIncrease, points_for(n_lines_cleared as int, o.level)),
            ]);
        }
    }

    fn update_level(&mut self, n_lines_cleared: u32)
        ensures
            final(self).parts_wf() == old(self).parts_wf(),
            ({
                let lines = capped_sum(old(self)@.total_lines, n_lines_cleared as int, u32::MAX as int);
                let up = lines >= lines_needed(old(self)@.level);
                final(self)@ == (GameView {
                    total_lines: lines,
                    level: if up { old(self)@.level + 1 } else { old(self)@.level },
                    notes: old(self)@.notes + if up {
                        seq![NoteView::Number(NumberChannel::Level, old(self)@.level + 1)]
                    } else {
                        Seq::empty()
                    },
                    ..old(self)@
                })
            }),
    {
        self.total_lines_cleared = self.total_lines_cleared.saturating_add(n_lines_cleared);
        let lines_needed = lines_needed_for_level(self.level);
        if self.total_lines_cleared as u64 >= lines_needed {
            proof {
                lemma_lines_needed_bounds_level(self.level as int);
            }
            self.level += 1;
            post(&mut self.notifications, Notification::Number { kind: NumberChannel::Level, value: self.level as u64 });
            assert(self@.notes =~= old(self)@.notes + seq![NoteView::Number(NumberChannel::Level, old(self)@.level + 1)]);
        } else {
            assert(self@.notes =~= old(self)@.notes + Seq::empty());
        }
    }

    /// Removes full rows and, if there were any, announces the board and
    /// updates score and level.
    fn clear_full_rows(&mut self)
        ensures
            final(self).parts_wf() == old(self).parts_wf(),
            final(self)@ == after_clear(old(self)@),
    {
        let n_cleared = remove_full_rows(&mut self.board);
        if n_cleared > 0 {
            post(&mut self.notifications, Notification::Board { rows: self.board });
            let ghost v1 = self@;
            self.update_score(n_cleared as u32);
            let ghost v2 = self@;
            self.update_level(n_cleared as u32);
            proof {
                let o = old(self)@;
                let e = after_clear(o);
                assert(v1.notes == o.notes.push(NoteView::Board(e.board)));
                assert(self@.notes =~= e.notes);
                assert(self@.board == e.board);
            }
        } else {
            assert(self@.notes =~= after_clear(old(self)@).notes);
        }
    }

    /// Merges the active piece into the board, clears full rows and announces the board.
    fn add_current_tetromino_to_board(&mut self)
        requires
            old(self).parts_wf(),
            forall|k: int|
                0 <= k < piece_cells(old(self)@.current).len() ==> in_bounds(
                    #[trigger] piece_cells(old(self)@.current)[k],
                ),
            board_valid(old(self)@.board),
        ensures
            final(self).parts_wf(),
            final(self)@ == locked(old(self)@),
            board_valid(final(self)@.board),
    {
        proof {
            self.current_tetromino.lemma_wf();
            lemma_lock_keeps_board_valid(self@.board, piece_cells(self@.current), self@.current.shape.name);
        }
        let shape_name = self.current_tetromino.get_shape_name();
        let cells = self.current_tetromino.get_occupied_positions();
        assert forall|k: int| 0 <= k < cells@.len() implies in_bounds(#[trigger] as_points(cells@)[k]) by {
            assert(as_points(cells@)[k] == piece_cells(old(self)@.current)[k]);
        }
        stamp_cells(&mut self.board, cells, shape_name);
        self.clear_full_rows();
        post(&mut self.notifications, Notification::Board { rows: self.board });
    }

    /// Promotes the next piece to the spawn position and draws a new next
    /// piece; fails, ending the game, when the new active piece overlaps.
    fn set_new_tetromino(&mut self) -> (r: Result<(), ()>)
        requires
            old(self).parts_wf(),
            !old(self)@.game_over,
            board_valid(old(self)@.board),
        ensures
            final(self).wf(),
            spawned(old(self)@, final(self)@),
            r is Ok == !final(self)@.game_over,
    {
        let shape = self.next_tetromino.get_shape();
        self.current_tetromino = Tetromino::new((0, SPAWN_COLUMN as i32), shape);
        let drawn = self.tetromino_shape_generator.make_random();
        self.next_tetromino = Tetromino::new((0, 0), drawn);
        let ghost cells = piece_cells(self@.current);
        proof {
            self.current_tetromino.lemma_wf();
            assert(shifted(cells, (0, 0)) =~= cells);
            assert forall|k: int| 0 <= k < cells.len() implies in_bounds(#[trigger] cells[k]) by {
                assert(0 <= cells[k].0 < 4);
            }
            lemma_outcome_on_board(self@.board, cells);
            lemma_outcome_ok(self@.board, cells);
            self.tetromino_shape_generator.lemma_wf();
        }
        match self.check_move(&self.current_tetromino, &(0, 0)) {
            Ok(()) => {
                post(&mut self.notifications, Notification::of_piece(PieceChannel::Current, &self.current_tetromino));
                post(&mut self.notifications, Notification::of_piece(PieceChannel::Next, &self.next_tetromino));
                assert(self@.notes =~= old(self)@.notes + seq![
                    piece_note(PieceChannel::Current, self@.current),
                    piece_note(PieceChannel::Next, self@.next),
                ]);
                Ok(())
            },
            Err(e) => {
                assert(e == MoveNotAllowedError::OverlapsWithOccupied);
                self.game_over = true;
                post(&mut self.notifications, Notification::GameOver);
                assert(self@.notes =~= old(self)@.notes + seq![NoteView::GameOver]);
                Err(())
            },
        }
    }

    /// The active piece lies on the board at or below the top row, so its
    /// corner is close to the board and any unit step keeps it representable.
    proof fn lemma_current_near(&self)
        requires
            self.wf(),
        ensures
            0 <= self@.current.pos.0 < BOARD_ROWS,
            -3 <= self@.current.pos.1 < BOARD_COLS,
            forall|k: int|
                0 <= k < piece_cells(self@.current).len() ==> self@.current.pos.0 <= (
                #[trigger] piece_cells(self@.current)[k]).0 < self@.current.pos.0 + 4
                    && self@.current.pos.1 <= piece_cells(self@.current)[k].1 < self@.current.pos.1 + 4,
    {
        self.current_tetromino.lemma_wf();
        let c = piece_cells(self@.current)[0];
        assert(in_bounds(c));
    }

    /// Facts about the cells the active piece would occupy after a small step.
    proof fn lemma_step(&self, step: (int, int))
        requires
            self.wf(),
            0 <= step.0 <= 1,
            -4 <= step.1 <= 4,
        ensures
            representable(target(self@, step)),
            move_outcome(self@.board, target(self@, step)) is Ok <==> placeable(self@.board, target(self@, step)),
            piece_cells(moved_piece(self@.current, step)) == target(self@, step),
    {
        self.lemma_current_near();
        let t = target(self@, step);
        assert forall|k: int| 0 <= k < t.len() implies 0 <= (#[trigger] t[k]).0 && (0 <= t[k].0 <= i32::MAX
            && i32::MIN < t[k].1 <= i32::MAX) by {
            assert(t[k] == (piece_cells(self@.current)[k].0 + step.0, piece_cells(self@.current)[k].1 + step.1));
        }
        lemma_outcome_ok(self@.board, t);
        lemma_cells_shift(self@.current.shape.mask, self@.current.pos, step);
    }

    /// Moves the active piece by a step already found legal, and announces it.
    fn move_current(&mut self, step: (i32, i32))
        requires
            old(self).wf(),
            0 <= step.0 <= 1,
            -4 <= step.1 <= 4,
            placeable(old(self)@.board, target(old(self)@, (step.0 as int, step.1 as int))),
        ensures
            final(self).wf(),
            final(self)@ == moved(old(self)@, (step.0 as int, step.1 as int)),
    {
        proof {
            self.lemma_step((step.0 as int, step.1 as int));
            self.lemma_current_near();
        }
        self.current_tetromino.move_pos(step);
        post(&mut self.notifications, Notification::of_piece(PieceChannel::Current, &self.current_tetromino));
    }

    /// Moves the active piece one cell down, left or right, for the keys
    /// `"ArrowDown"`, `"ArrowLeft"` and `"ArrowRight"`; any other key changes
    /// nothing. Returns whether the piece moved. When it cannot go down it is
    /// locked and the next piece spawns, and `false` is returned.
    pub fn proces_arrow_key(&mut self, key: &str) -> (ok: bool)
        requires
            old(self).wf(),
        ensures
            final(self).wf(),
            old(self)@.game_over || arrow_named(key@) is None ==> !ok && final(self)@ == old(self)@,
            !old(self)@.game_over && arrow_named(key@) is Some ==> ({
                let arrow = arrow_named(key@);
                let step = (arrow_step(arrow).0 as int, arrow_step(arrow).1 as int);
                if placeable(old(self)@.board, target(old(self)@, step)) {
                    ok && final(self)@ == moved(old(self)@, step)
                } else if arrow == Some(Arrow::Down) {
                    !ok && lock_and_spawn(old(self)@, final(self)@)
                } else {
                    !ok && final(self)@ == old(self)@
                }
            }),
    {
        if self.game_over {
            return false;
        }
        let arrow = parse_arrow(key);
        if arrow.is_none() {
            // Not an arrow key: nothing to do.
            return false;
        }
        let step = step_of(arrow);
        proof {
            self.lemma_step((step.0 as int, step.1 as int));
        }
        match self.check_move(&self.current_tetromino, &step) {
            Ok(_) => {
                self.move_current(step);
                true
            },
            Err(_) => {
                // The piece can go no further down: it stays, and the next one comes.
                if let Some(Arrow::Down) = arrow {
                    proof {
                        self.lemma_current_near();
                    }
                    self.add_current_tetromino_to_board();
                    let _ = self.set_new_tetromino();
                }
                false
            },
        }
    }

    /// Drops the active piece as far as it can go, then locks it and spawns
    /// the next piece. Does nothing once the game is over.
    pub fn process_hard_drop(&mut self)
        requires
            old(self).wf(),
        ensures
            final(self).wf(),
            old(self)@.game_over ==> final(self)@ == old(self)@,
            !old(self)@.game_over ==> exists|k: nat|
                drop_distance(old(self)@, k) && lock_and_spawn(dropped(old(self)@, k), final(self)@),
    {
        if self.game_over {
            return;
        }
        let ghost start = self@;
        let ghost mut k: nat = 0;
        let step: (i32, i32) = (1, 0);
        proof {
            self.lemma_step((1, 0));
            self.lemma_current_near();
            lemma_cells_shift(start.current.shape.mask, start.current.pos, (0, 0));
            assert(start.current == moved_piece(start.current, (0, 0)));
            assert(self@ == dropped(start, 0));
        }
        while self.check_move(&self.current_tetromino, &step).is_ok()
            invariant
                step == (1i32, 0i32),
                self.wf(),
                !self@.game_over,
                self@ == dropped(start, k),
                forall|j: int| 1 <= j <= k ==> #[trigger] placeable(start.board, target(start, (j, 0))),
                representable(target(self@, (1, 0))),
                move_outcome(self@.board, target(self@, (1, 0))) is Ok <==> placeable(
                    self@.board,
                    target(self@, (1, 0)),
                ),
                target(self@, (1, 0)) == target(start, (k + 1int, 0int)),
            decreases BOARD_ROWS - self@.current.pos.0,
        {
            proof {
                self.lemma_current_near();
            }
            let ghost before = self@;
            assert(placeable(before.board, target(before, (1, 0))));
            self.current_tetromino.move_pos(step);
            proof {
                lemma_cells_shift(before.current.shape.mask, before.current.pos, (1, 0));
                assert(self@.current == moved_piece(before.current, (1, 0)));
                assert(piece_cells(self@.current) == target(before, (1, 0)));
                assert(placeable(self@.board, piece_cells(self@.current)));
                assert(consistent(self@));
                self.lemma_step((1, 0));
                k = k + 1;
                lemma_cells_shift(start.current.shape.mask, start.current.pos, (k as int, 0));
                lemma_cells_shift(start.current.shape.mask, start.current.pos, (k + 1int, 0int));
                lemma_cells_shift(self@.current.shape.mask, self@.current.pos, (1, 0));
                assert(self@ == dropped(start, k));
                self.lemma_current_near();
            }
        }
        proof {
            self.lemma_current_near();
            assert(drop_distance(start, k));
        }
        self.add_current_tetromino_to_board();
        let _ = self.set_new_tetromino();
    }

    /// Turns the active piece a quarter turn, `"clockwise"` or
    /// `"counter-clockwise"`. If the turned piece sticks out past a side edge,
    /// it is shifted back once by the overflow. Returns whether the piece
    /// turned. Any other word leaves the shape as it is; the piece, still
    /// valid where it stands, is committed and announced as for a turn.
    pub fn process_rotation(&mut self, direction: &str) -> (ok: bool)
        requires
            old(self).wf(),
        ensures
            final(self).wf(),
            old(self)@.game_over ==> !ok && final(self)@ == old(self)@,
            !old(self)@.game_over ==> ({
                let turned = rotated_piece(old(self)@.current, direction@);
                let w = widest_overflow(piece_cells(turned));
                let kicked = moved_piece(turned, (0, -w));
                if placeable(old(self)@.board, piece_cells(turned)) {
                    ok && final(self)@ == with_current(old(self)@, turned)
                } else if w != 0 && placeable(old(self)@.board, piece_cells(kicked)) {
                    ok && final(self)@ == with_current(old(self)@, kicked)
                } else {
                    !ok && final(self)@ == old(self)@
                }
            }),
    {
        if self.game_over {
            return false;
        }
        proof {
            self.lemma_current_near();
        }
        let mut tetromino = Tetromino::new(self.current_tetromino.get_position(), self.current_tetromino.get_shape());
        tetromino.rotate(direction);
        let ghost turned = tetromino@;
        let ghost cells = piece_cells(turned);
        proof {
            tetromino.lemma_wf();
            assert(shifted(cells, (0, 0)) =~= cells);
            assert forall|k: int| 0 <= k < cells.len() implies 0 <= (#[trigger] cells[k]).0 && (0 <= cells[k].0
                <= i32::MAX && i32::MIN < cells[k].1 <= i32::MAX) by {}
            lemma_outcome_ok(self@.board, cells);
            lemma_widest_bounds(cells, turned.pos.1);
        }
        // Check whether the turned piece may stand where it is.
        match self.check_move(&tetromino, &(0, 0)) {
            Ok(_) => {
                self.current_tetromino = tetromino;
                post(&mut self.notifications, Notification::of_piece(PieceChannel::Current, &self.current_tetromino));
                true
            },
            Err(e) => {
                // Past a side edge: shift the piece back by the overflow, once.
                let overflow: Option<i32> = match e {
                    MoveNotAllowedError::TooFarLeft(x) => Some(x),
                    MoveNotAllowedError::TooFarRight(x) => Some(x),
                    _ => None,
                };
                match overflow {
                    Some(x) => {
                        assert(x == widest_overflow(cells));
                        let step = (0, -x);
                        let ghost kick = (0int, -widest_overflow(cells));
                        proof {
                            assert forall|k: int| 0 <= k < shifted(cells, kick).len() implies 0 <= (
                            #[trigger] shifted(cells, kick)[k]).0 && (0 <= shifted(cells, kick)[k].0 <= i32::MAX
                                && i32::MIN < shifted(cells, kick)[k].1 <= i32::MAX) by {}
                            lemma_outcome_ok(self@.board, shifted(cells, kick));
                            lemma_cells_shift(turned.shape.mask, turned.pos, kick);
                        }
                        match self.check_move(&tetromino, &step) {
                            Ok(()) => {
                                tetromino.move_pos(step);
                                self.current_tetromino = tetromino;
                                post(&mut self.notifications, Notification::of_piece(PieceChannel::Current, &self.current_tetromino));
                                true
                            },
                            Err(_) => false,
                        }
                    },
                    None => false,
                }
            },
        }
    }

    fn reset_wait_ticks(&mut self)
        ensures
            final(self).parts_wf() == old(self).parts_wf(),
            final(self)@ == (GameView { wait_ticks: wait_ticks(old(self)@.level), ..old(self)@ }),
    {
        self.wait_ticks_remaining = wait_ticks_for_level(self.level);
    }

    /// Advances the game by one tick of the clock. While the piece still
    /// waits, the tick only counts down; otherwise the wait starts again from
    /// the level's value and the piece steps down, or is locked and the next
    /// one spawns. Returns whether the game is still on.
    pub fn tick(&mut self) -> (on: bool)
        requires
            old(self).wf(),
        ensures
            final(self).wf(),
            old(self)@.game_over ==> !on && final(self)@ == old(self)@,
            !old(self)@.game_over && old(self)@.wait_ticks > 0 ==> on && final(self)@ == (GameView {
                wait_ticks: old(self)@.wait_ticks - 1,
                ..old(self)@
            }),
            !old(self)@.game_over && old(self)@.wait_ticks == 0 ==> ({
                let v = GameView { wait_ticks: wait_ticks(old(self)@.level), ..old(self)@ };
                if placeable(v.board, target(v, (1, 0))) {
                    on && final(self)@ == moved(v, (1, 0))
                } else {
                    lock_and_spawn(v, final(self)@) && on == !final(self)@.game_over
                }
            }),
    {
        if self.game_over {
            // The game does not move on once it is over.
            return false;
        }
        if self.wait_ticks_remaining > 0 {
            // Only the countdown moves on this tick.
            self.wait_ticks_remaining -= 1;
            return true;
        }
        self.reset_wait_ticks();
        let step = (1, 0);
        proof {
            self.lemma_step((1, 0));
        }
        match self.check_move(&self.current_tetromino, &step) {
            Ok(_) => {
                self.move_current(step);
                true
            },
            Err(_) => {
                proof {
                    self.lemma_current_near();
                }
                self.add_current_tetromino_to_board();
                match self.set_new_tetromino() {
                    Ok(_) => true,
                    Err(_) => false,
                }
            },
        }
    }

    /// Announces the whole state: both pieces, score, level and board.
    pub fn emit_all(&mut self)
        requires
            old(self).wf(),
        ensures
            final(self).wf(),
            final(self)@ == (GameView { notes: old(self)@.notes + snapshot_notes(old(self)@), ..old(self)@ }),
    {
        self.post_snapshot();
    }

    fn post_snapshot(&mut self)
        requires
            old(self).parts_wf(),
        ensures
            final(self).parts_wf(),
            final(self)@ == (GameView { notes: old(self)@.notes + snapshot_notes(old(self)@), ..old(self)@ }),
    {
        post(&mut self.notifications, Notification::of_piece(PieceChannel::Current, &self.current_tetromino));
        post(&mut self.notifications, Notification::of_piece(PieceChannel::Next, &self.next_tetromino));
        post(&mut self.notifications, Notification::Number { kind: NumberChannel::Score, value: self.score });
        post(&mut self.notifications, Notification::Number { kind: NumberChannel::Level, value: self.level as u64 });
        post(&mut self.notifications, Notification::Board { rows: self.board });
        assert(self@.notes =~= old(self)@.notes + snapshot_notes(old(self)@));
    }

    /// Puts a fresh board, fresh pieces and zeroed counters in place, without
    /// announcing anything; the generator keeps its state.
    fn restart(&mut self)
        requires
            old(self).parts_wf(),
        ensures
            final(self).wf(),
            fresh(old(self)@.bag, final(self)@),
            final(self)@.notes == old(self)@.notes,
    {
        self.board = [[EMPTY_CELL; BOARD_COLS]; BOARD_ROWS];
        let first = self.tetromino_shape_generator.make_random();
        let ghost mid = self.tetromino_shape_generator@;
        self.current_tetromino = Tetromino::new((0, SPAWN_COLUMN as i32), first);
        let second = self.tetromino_shape_generator.make_random();
        self.next_tetromino = Tetromino::new((0, 0), second);
        self.level = 0;
        self.score = 0;
        self.total_lines_cleared = 0;
        self.game_over = false;
        self.reset_wait_ticks();
        proof {
            self.tetromino_shape_generator.lemma_wf();
            self.current_tetromino.lemma_wf();
            assert(self@.board =~~= empty_board());
            assert forall|r: int| 0 <= r < BOARD_ROWS implies crate::board::row_valid(#[trigger] self@.board[r]) by {
                assert(self@.board[r] == empty_row());
            }
            let cells = piece_cells(self@.current);
            assert forall|k: int| 0 <= k < cells.len() implies in_bounds(#[trigger] cells[k]) && is_free(
                self@.board,
                cells[k],
            ) by {
                assert(0 <= cells[k].0 < 4);
            }
            assert(bag_draw(old(self)@.bag, mid, self@.current.shape));
        }
    }

    /// Starts a game over in place: fresh board and pieces drawn from the
    /// generator, counters at zero, and the whole state announced.
    pub fn reset(&mut self)
        requires
            old(self).wf(),
        ensures
            final(self).wf(),
            fresh(old(self)@.bag, final(self)@),
            final(self)@.notes == old(self)@.notes + snapshot_notes(final(self)@),
    {
        self.restart();
        self.post_snapshot();
    }

    /// A new game with a freshly shuffled generator. Nothing is announced yet.
    pub fn new() -> (g: Self)
        ensures
            g.wf(),
            exists|bag: BagView| bag.cursor == 0 && is_bag_order(bag.order) && fresh(bag, g@),
            g@.notes.len() == 0,
    {
        let generator = TetrominoShapeGenerator::new();
        let ghost bag = generator@;
        proof {
            generator.lemma_wf();
        }
        let mut g = Self::placeholder(generator);
        g.restart();
        g
    }

    /// A game whose pieces come straight from the catalog; it is only a
    /// starting point for `restart`.
    fn placeholder(generator: TetrominoShapeGenerator) -> (g: Self)
        requires
            generator.wf(),
        ensures
            g.parts_wf(),
            g@.bag == generator@,
            g@.notes.len() == 0,
    {
        let shape = catalog_entry(0);
        let g = Game {
            board: [[EMPTY_CELL; BOARD_COLS]; BOARD_ROWS],
            current_tetromino: Tetromino::new((0, SPAWN_COLUMN as i32), shape),
            next_tetromino: Tetromino::new((0, 0), shape),
            tetromino_shape_generator: generator,
            level: 0,
            total_lines_cleared: 0,
            score: 0,
            wait_ticks_remaining: 0,
            game_over: false,
            notifications: Vec::new(),
        };
        assert(g@.notes =~= Seq::<NoteView>::empty());
        g
    }

    /// Hands out the notifications posted so far, oldest first, and forgets them.
    pub fn take_notifications(&mut self) -> (out: Vec<Notification>)
        requires
            old(self).wf(),
        ensures
            final(self).wf(),
            notes_of(out@) == old(self)@.notes,
            final(self)@ == (GameView { notes: Seq::empty(), ..old(self)@ }),
    {
        let mut out: Vec<Notification> = Vec::new();
        std::mem::swap(&mut out, &mut self.notifications);
        assert(self@.notes =~= Seq::<NoteView>::empty());
        out
    }

    /// A game in progress with the given board, active piece and counters; the
    /// next piece comes from a freshly shuffled generator. `None` when the
    /// active piece is above the top row, off the board, or on a filled cell,
    /// or when a board cell holds something other than `EMPTY_CELL` or a
    /// catalog name.
    pub fn from_parts(board: Board, current: Tetromino, level: u16, total_lines_cleared: u32, score: u64) -> (r:
        Option<Self>)
        requires
            current.wf(),
        ensures
            r is Some <==> current@.pos.0 >= 0 && placeable(rows_of(board), piece_cells(current@))
                && board_valid(rows_of(board)),
            r matches Some(g) ==> {
                &&& g.wf()
                &&& g@.board == rows_of(board)
                &&& g@.current == current@
                &&& g@.next.pos == (0int, 0int)
                &&& g@.level == level
                &&& g@.total_lines == total_lines_cleared
                &&& g@.score == score
                &&& g@.wait_ticks == wait_ticks(level as int)
                &&& !g@.game_over
                &&& g@.notes.len() == 0
            },
    {
        if current.get_position().0 < 0 || !placeable_on(&board, current.get_occupied_positions())
            || !board_is_valid(&board) {
            return None;
        }
        let mut generator = TetrominoShapeGenerator::new();
        let drawn = generator.make_random();
        let mut g = Game {
            board,
            current_tetromino: current,
            next_tetromino: Tetromino::new((0, 0), drawn),
            tetromino_shape_generator: generator,
            level,
            total_lines_cleared,
            score,
            wait_ticks_remaining: 0,
            game_over: false,
            notifications: Vec::new(),
        };
        g.reset_wait_ticks();
        proof {
            g.tetromino_shape_generator.lemma_wf();
            assert(g@.notes =~= Seq::<NoteView>::empty());
        }
        Some(g)
    }

    pub fn get_board(&self) -> (b: Board)
        ensures
            rows_of(b) == self@.board,
    {
        self.board
    }

    pub fn current_tetromino(&self) -> (t: &Tetromino)
        requires
            self.wf(),
        ensures
            t.wf(),
            t@ == self@.current,
    {
        &self.current_tetromino
    }

    pub fn next_tetromino(&self) -> (t: &Tetromino)
        requires
            self.wf(),
        ensures
            t.wf(),
            t@ == self@.next,
    {
        &self.next_tetromino
    }

    pub fn get_level(&self) -> (l: u16)
        ensures
            l == self@.level,
    {
        self.level
    }

    pub fn get_score(&self) -> (s: u64)
        ensures
            s == self@.score,
    {
        self.score
    }

    pub fn get_total_lines_cleared(&self) -> (n: u32)
        ensures
            n == self@.total_lines,
    {
        self.total_lines_cleared
    }

    pub fn get_wait_ticks_remaining(&self) -> (n: u32)
        ensures
            n == self@.wait_ticks,
    {
        self.wait_ticks_remaining
    }

    pub fn get_game_over(&self) -> (over: bool)
        ensures
            over == self@.game_over,
    {
        self.game_over
    }

    /// Decides whether `tetromino`, moved by `step` = `(rows, columns)`, may
    /// stand on the board.
    pub fn check_move(&self, tetromino: &Tetromino, step: &(i32, i32)) -> (r: Result<(), MoveNotAllowedError>)
        requires
            tetromino.wf(),
            representable(shifted(piece_cells(tetromino@), (step.0 as int, step.1 as int))),
        ensures
            r == move_outcome(self@.board, shifted(piece_cells(tetromino@), (step.0 as int, step.1 as int))),
    {
        let positions = tetromino.get_occupied_positions();
        let ghost cells = shifted(piece_cells(tetromino@), (step.0 as int, step.1 as int));
        // Too far left or right is checked first, so that the position can be adjusted.
        let mut largest_dist: i32 = 0;
        let mut err: Option<MoveNotAllowedError> = None;
        let mut k: usize = 0;
        while k < positions.len()
            invariant
                k <= positions@.len(),
                cells.len() == positions@.len(),
                as_points(positions@) == piece_cells(tetromino@),
                cells == shifted(piece_cells(tetromino@), (step.0 as int, step.1 as int)),
                representable(cells),
                largest_dist == magnitude(widest_overflow(cells.take(k as int))),
                err == (if widest_overflow(cells.take(k as int)) < 0 {
                    Some(MoveNotAllowedError::TooFarLeft(widest_overflow(cells.take(k as int)) as i32))
                } else if widest_overflow(cells.take(k as int)) > 0 {
                    Some(MoveNotAllowedError::TooFarRight(widest_overflow(cells.take(k as int)) as i32))
                } else {
                    None
                }),
            decreases positions@.len() - k,
        {
            let occupied_pos = positions[k];
            assert(cells[k as int] == (occupied_pos.0 + step.0, occupied_pos.1 + step.1));
            let col = occupied_pos.1 + step.1;
            proof {
                assert(cells.take(k + 1).drop_last() =~= cells.take(k as int));
            }
            if col < 0 {
                let dist = -col;
                if dist > largest_dist {
                    largest_dist = dist;
                    err = Some(MoveNotAllowedError::TooFarLeft(-dist));
                }
            } else if col >= BOARD_COLS as i32 {
                let dist = col - (BOARD_COLS as i32 - 1);
                if dist > largest_dist {
                    largest_dist = dist;
                    err = Some(MoveNotAllowedError::TooFarRight(dist));
                }
            }
            k += 1;
        }
        assert(cells.take(k as int) =~= cells);
        if let Some(err_value) = err {
            return Err(err_value);
        }
        // Then too far down, or on an occupied cell: no adjustment helps there.
        // Below the board is checked over all cells first, since such a piece
        // is not on the board at all.
        proof {
            lemma_widest_zero(cells);
        }
        let mut k: usize = 0;
        while k < positions.len()
            invariant
                k <= positions@.len(),
                cells.len() == positions@.len(),
                as_points(positions@) == piece_cells(tetromino@),
                cells == shifted(piece_cells(tetromino@), (step.0 as int, step.1 as int)),
                representable(cells),
                widest_overflow(cells) == 0,
                forall|j: int| 0 <= j < k ==> (#[trigger] cells[j]).0 < BOARD_ROWS,
            decreases positions@.len() - k,
        {
            let occupied_pos = positions[k];
            assert(cells[k as int] == (occupied_pos.0 + step.0, occupied_pos.1 + step.1));
            let row = occupied_pos.0 + step.0;
            if row >= BOARD_ROWS as i32 {
                return Err(MoveNotAllowedError::TooFarDown);
            }
            k += 1;
        }
        let mut k: usize = 0;
        while k < positions.len()
            invariant
                k <= positions@.len(),
                cells.len() == positions@.len(),
                as_points(positions@) == piece_cells(tetromino@),
                cells == shifted(piece_cells(tetromino@), (step.0 as int, step.1 as int)),
                representable(cells),
                widest_overflow(cells) == 0,
                forall|j: int| 0 <= j < cells.len() ==> 0 <= (#[trigger] cells[j]).1 < BOARD_COLS,
                forall|j: int| 0 <= j < cells.len() ==> (#[trigger] cells[j]).0 < BOARD_ROWS,
                forall|j: int| 0 <= j < k ==> is_free(self@.board, #[trigger] cells[j]),
            decreases positions@.len() - k,
        {
            let occupied_pos = positions[k];
            assert(cells[k as int] == (occupied_pos.0 + step.0, occupied_pos.1 + step.1));
            let row = occupied_pos.0 + step.0;
            let col = occupied_pos.1 + step.1;
            if self.board[row as usize][col as usize] != EMPTY_CELL {
                assert(!is_free(self@.board, cells[k as int]));
                return Err(MoveNotAllowedError::OverlapsWithOccupied);
            }
            assert(is_free(self@.board, cells[k as int]));
            k += 1;
        }
        Ok(())
    }
}

} // verus!
