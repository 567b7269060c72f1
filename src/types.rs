use vstd::prelude::*;

verus! {

/// Marker type naming the application's operation and response types.
pub struct CheckersAbi;

/// The content of one square of the board.
#[derive(Debug, Clone, Copy, PartialEq, Eq, Structural, Default)]
pub enum Piece {
    #[default]
    Empty,
    Red,
    Black,
    RedKing,
    BlackKing,
}

impl Piece {
    pub open spec fn red(self) -> bool {
        self == Piece::Red || self == Piece::RedKing
    }

    pub open spec fn black(self) -> bool {
        self == Piece::Black || self == Piece::BlackKing
    }

    pub open spec fn king(self) -> bool {
        self == Piece::RedKing || self == Piece::BlackKing
    }

    pub open spec fn kinged(self) -> Piece {
        match self {
            Piece::Red => Piece::RedKing,
            Piece::Black => Piece::BlackKing,
            other => other,
        }
    }

    pub fn is_red(&self) -> (r: bool)
        ensures
            r == self.red(),
    {
        match self {
            Piece::Red | Piece::RedKing => true,
            _ => false,
        }
    }

    pub fn is_black(&self) -> (r: bool)
        ensures
            r == self.black(),
    {
        match self {
            Piece::Black | Piece::BlackKing => true,
            _ => false,
        }
    }

    pub fn is_king(&self) -> (r: bool)
        ensures
            r == self.king(),
    {
        match self {
            Piece::RedKing | Piece::BlackKing => true,
            _ => false,
        }
    }

    pub fn is_empty(&self) -> (r: bool)
        ensures
            r == (*self == Piece::Empty),
    {
        match self {
            Piece::Empty => true,
            _ => false,
        }
    }

    pub fn to_king(&self) -> (r: Piece)
        ensures
            r == self.kinged(),
    {
        match self {
            Piece::Red => Piece::RedKing,
            Piece::Black => Piece::BlackKing,
            other => *other,
        }
    }
}

#[derive(Debug, Clone, Copy, PartialEq, Eq, Structural, Default)]
pub enum GameStatus {
    #[default]
    Pending,
    Active,
    Finished,
}

#[derive(Debug, Clone, Copy, PartialEq, Eq, Structural)]
pub enum GameResult {
    RedWins,
    BlackWins,
    Draw,
    InProgress,
}

#[derive(Debug, Clone, Copy, PartialEq, Eq, Structural, Default)]
pub enum PlayerType {
    #[default]
    Human,
    AI,
}

/// The side to move.
#[derive(Debug, Clone, Copy, PartialEq, Eq, Structural, Default)]
pub enum Turn {
    #[default]
    Red,
    Black,
}

impl Turn {
    pub open spec fn other(self) -> Turn {
        match self {
            Turn::Red => Turn::Black,
            Turn::Black => Turn::Red,
        }
    }

    /// True when `p` is one of this side's pieces.
    pub open spec fn owns(self, p: Piece) -> bool {
        match self {
            Turn::Red => p.red(),
            Turn::Black => p.black(),
        }
    }

    pub fn opposite(&self) -> (r: Turn)
        ensures
            r == self.other(),
    {
        match self {
            Turn::Red => Turn::Black,
            Turn::Black => Turn::Red,
        }
    }
}

#[derive(Debug, Clone, Copy, PartialEq, Eq, Structural, Default)]
pub enum DrawOfferState {
    #[default]
    NoOffer,
    OfferedByRed,
    OfferedByBlack,
}

#[derive(Debug, Clone, Copy, PartialEq, Eq, Structural, Default)]
pub enum ColorPreference {
    #[default]
    Red,
    Black,
    Random,
}

/// One move as recorded in a game's history.
#[derive(Debug, Clone)]
pub struct CheckersMove {
    pub from_row: u8,
    pub from_col: u8,
    pub to_row: u8,
    pub to_col: u8,
    pub captured_row: Option<u8>,
    pub captured_col: Option<u8>,
    pub promoted: bool,
    pub timestamp: u64,
}

impl CheckersMove {
    pub fn new(from_row: u8, from_col: u8, to_row: u8, to_col: u8) -> (m: CheckersMove)
        ensures
            m.from_row == from_row,
            m.from_col == from_col,
            m.to_row == to_row,
            m.to_col == to_col,
            m.captured_row.is_none(),
            m.captured_col.is_none(),
            !m.promoted,
            m.timestamp == 0,
    {
        CheckersMove {
            from_row,
            from_col,
            to_row,
            to_col,
            captured_row: None,
            captured_col: None,
            promoted: false,
            timestamp: 0,
        }
    }

    pub fn with_capture(self, captured_row: u8, captured_col: u8) -> (m: CheckersMove)
        ensures
            m == (CheckersMove {
                captured_row: Some(captured_row),
                captured_col: Some(captured_col),
                ..self
            }),
    {
        let mut m = self;
        m.captured_row = Some(captured_row);
        m.captured_col = Some(captured_col);
        m
    }

    pub fn with_promotion(self) -> (m: CheckersMove)
        ensures
            m == (CheckersMove { promoted: true, ..self }),
    {
        let mut m = self;
        m.promoted = true;
        m
    }
}

/// The time controls offered; several map onto one rating category.
#[derive(Debug, Clone, Copy, PartialEq, Eq, Structural, Hash, Default)]
pub enum TimeControl {
    #[default]
    Bullet1_0,
    Bullet2_1,
    Blitz3_0,
    Blitz5_3,
    Rapid10_0,
}

impl TimeControl {
    pub open spec fn initial_spec(self) -> u64 {
        match self {
            TimeControl::Bullet1_0 => 60_000,
            TimeControl::Bullet2_1 => 120_000,
            TimeControl::Blitz3_0 => 180_000,
            TimeControl::Blitz5_3 => 300_000,
            TimeControl::Rapid10_0 => 600_000,
        }
    }

    pub open spec fn increment_spec(self) -> u64 {
        match self {
            TimeControl::Bullet1_0 => 0,
            TimeControl::Bullet2_1 => 1_000,
            TimeControl::Blitz3_0 => 0,
            TimeControl::Blitz5_3 => 3_000,
            TimeControl::Rapid10_0 => 0,
        }
    }

    pub open spec fn all_spec() -> Seq<TimeControl> {
        seq![
            TimeControl::Bullet1_0,
            TimeControl::Bullet2_1,
            TimeControl::Blitz3_0,
            TimeControl::Blitz5_3,
            TimeControl::Rapid10_0,
        ]
    }

    /// Every time control, fastest first.
    pub fn all() -> (v: Vec<TimeControl>)
        ensures
            v@ == Self::all_spec(),
    {
        vec![
            TimeControl::Bullet1_0,
            TimeControl::Bullet2_1,
            TimeControl::Blitz3_0,
            TimeControl::Blitz5_3,
            TimeControl::Rapid10_0,
        ]
    }

    /// Starting time on each side's clock, in milliseconds.
    pub fn initial_time_ms(&self) -> (r: u64)
        ensures
            r == self.initial_spec(),
    {
        match self {
            TimeControl::Bullet1_0 => 60_000,
            TimeControl::Bullet2_1 => 120_000,
            TimeControl::Blitz3_0 => 180_000,
            TimeControl::Blitz5_3 => 300_000,
            TimeControl::Rapid10_0 => 600_000,
        }
    }

    /// Time added to a side's clock after each of its moves, in milliseconds.
    pub fn increment_ms(&self) -> (r: u64)
        ensures
            r == self.increment_spec(),
    {
        match self {
            TimeControl::Bullet1_0 => 0,
            TimeControl::Bullet2_1 => 1_000,
            TimeControl::Blitz3_0 => 0,
            TimeControl::Blitz5_3 => 3_000,
            TimeControl::Rapid10_0 => 0,
        }
    }
}

/// A player waiting in the matchmaking queue.
#[derive(Debug, Clone)]
pub struct QueueEntry {
    pub chain_id: String,
    pub time_control: TimeControl,
    pub joined_at: u64,
}

impl QueueEntry {
    pub fn new(chain_id: String, time_control: TimeControl, joined_at: u64) -> (e: QueueEntry)
        ensures
            e.chain_id@ == chain_id@,
            e.time_control == time_control,
            e.joined_at == joined_at,
    {
        QueueEntry { chain_id, time_control, joined_at }
    }
}

/// Number of queued players for one time control.
#[derive(Debug, Clone)]
pub struct QueueStatus {
    pub time_control: TimeControl,
    pub player_count: u32,
}

} // verus!
