//! What the engine reports to its observers, as plain values. Each mutation
//! appends its notifications in order; whoever runs the engine delivers them
//! before the next mutation starts.
use crate::board::{rows_of, Board};
use crate::tetromino::{as_points, piece_cells, PieceView, Tetromino};
use vstd::prelude::*;

verus! {

#[derive(Clone, Copy, Debug, PartialEq, Eq, Structural)]
pub enum PieceChannel {
    Current,
    Next,
}

#[derive(Clone, Copy, Debug, PartialEq, Eq, Structural)]
pub enum NumberChannel {
    Score,
    ScoreIncrease,
    Level,
}

/// One announcement of a state change.
pub enum Notification {
    /// A piece: its shape name and its occupied cells in row-major order.
    Piece { channel: PieceChannel, name: char, cells: Vec<(i32, i32)> },
    /// The whole board, `EMPTY_CELL` where nothing is locked.
    Board { rows: Board },
    /// A score, a score increase or a level.
    Number { kind: NumberChannel, value: u64 },
    /// The game is over.
    GameOver,
}

pub enum NoteView {
    Piece(PieceChannel, char, Seq<(int, int)>),
    Board(Seq<Seq<char>>),
    Number(NumberChannel, int),
    GameOver,
}

impl View for Notification {
    type V = NoteView;

    open spec fn view(&self) -> NoteView {
        match self {
            Notification::Piece { channel, name, cells } => NoteView::Piece(*channel, *name, as_points(cells@)),
            Notification::Board { rows } => NoteView::Board(rows_of(*rows)),
            Notification::Number { kind, value } => NoteView::Number(*kind, *value as int),
            Notification::GameOver => NoteView::GameOver,
        }
    }
}

pub open spec fn piece_note(channel: PieceChannel, p: PieceView) -> NoteView {
    NoteView::Piece(channel, p.shape.name, piece_cells(p))
}

pub open spec fn notes_of(v: Seq<Notification>) -> Seq<NoteView> {
    v.map_values(|n: Notification| n@)
}

/// The name of the channel a notification goes out on.
pub open spec fn channel_of(n: NoteView) -> Seq<char> {
    match n {
        NoteView::Piece(PieceChannel::Current, _, _) => "current_tetromino"@,
        NoteView::Piece(PieceChannel::Next, _, _) => "next_tetromino"@,
        NoteView::Board(_) => "board"@,
        NoteView::Number(NumberChannel::Score, _) => "score"@,
        NoteView::Number(NumberChannel::ScoreIncrease, _) => "score_increase"@,
        NoteView::Number(NumberChannel::Level, _) => "level"@,
        NoteView::GameOver => "game_over"@,
    }
}

impl Notification {
    pub fn channel_name(&self) -> (name: &'static str)
        ensures
            name@ == channel_of(self@),
    {
        match self {
            Notification::Piece { channel: PieceChannel::Current, .. } => "current_tetromino",
            Notification::Piece { channel: PieceChannel::Next, .. } => "next_tetromino",
            Notification::Board { .. } => "board",
            Notification::Number { kind: NumberChannel::Score, .. } => "score",
            Notification::Number { kind: NumberChannel::ScoreIncrease, .. } => "score_increase",
            Notification::Number { kind: NumberChannel::Level, .. } => "level",
            Notification::GameOver => "game_over",
        }
    }

    /// A snapshot of a piece.
    pub fn of_piece(channel: PieceChannel, t: &Tetromino) -> (n: Notification)
        requires
            t.wf(),
        ensures
            n@ == piece_note(channel, t@),
    {
        let src = t.get_occupied_positions();
        let mut cells: Vec<(i32, i32)> = Vec::new();
        let mut k: usize = 0;
        while k < src.len()
            invariant
                k <= src@.len(),
                cells@ == src@.take(k as int),
            decreases src@.len() - k,
        {
            cells.push(src[k]);
            proof {
                assert(src@.take(k + 1) =~= src@.take(k as int).push(src@[k as int]));
            }
            k += 1;
        }
        assert(src@.take(k as int) =~= src@);
        Notification::Piece { channel, name: t.get_shape_name(), cells }
    }
}

/// Appends a notification to a log.
pub fn post(log: &mut Vec<Notification>, n: Notification)
    ensures
        notes_of(final(log)@) == notes_of(old(log)@).push(n@),
{
    let ghost before = log@;
    log.push(n);
    assert(notes_of(log@) =~= notes_of(before).push(n@));
}

} // verus!
