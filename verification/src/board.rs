//! Pieces, squares and positions as plain data.

use vstd::prelude::*;

verus! {

/// The six kinds of chess piece.
#[derive(Clone, Copy, PartialEq, Eq, Debug, Structural)]
pub enum Piece {
    Pawn,
    Knight,
    Bishop,
    Rook,
    Queen,
    King,
}

/// The two sides.
#[derive(Clone, Copy, PartialEq, Eq, Debug, Structural)]
pub enum Color {
    White,
    Black,
}

/// What castling a side may still do.
#[derive(Clone, Copy, PartialEq, Eq, Debug, Structural)]
pub enum Castling {
    NoRights,
    KingSide,
    QueenSide,
    Both,
}

/// Whether play goes on from a position.
#[derive(Clone, Copy, PartialEq, Eq, Debug, Structural)]
pub enum Status {
    /// The side to move has a legal move.
    Ongoing,
    /// The side to move has no legal move and is not in check.
    Stalemate,
    /// The side to move has no legal move and is in check.
    Checkmate,
    /// The placement is not one the rules of chess can be played from: a
    /// king is missing, a side has more than 16 pieces, or the rules turn it
    /// down for another reason, such as a check to the side that is not to
    /// move.
    Invalid,
}

/// A move: the square a piece leaves, the square it reaches, and the piece a
/// pawn turns into on the last rank. Squares are numbered 0 (a1) to 63 (h8),
/// rank by rank.
#[derive(Clone, Copy, PartialEq, Eq, Debug, Structural)]
pub struct Move {
    pub from: u8,
    pub to: u8,
    pub promotion: Option<Piece>,
}

/// The mathematical content of a position.
pub struct PositionView {
    /// What stands on each of the 64 squares.
    pub squares: Seq<Option<(Piece, Color)>>,
    pub side_to_move: Color,
    pub white_castling: Castling,
    pub black_castling: Castling,
    /// The file, 0 (a) to 7 (h), of a pawn that may be taken en passant.
    pub en_passant: Option<int>,
}

/// A chess position: the placement of the pieces, the side to move, the
/// castling rights and the en passant file. It always has 64 squares.
pub struct Position {
    pub(crate) squares: Vec<Option<(Piece, Color)>>,
    pub(crate) side_to_move: Color,
    pub(crate) white_castling: Castling,
    pub(crate) black_castling: Castling,
    pub(crate) en_passant: Option<u8>,
}

impl Piece {
    /// The place of the piece in the order pawn, knight, bishop, rook, queen, king.
    pub open spec fn rank_in_order(self) -> int {
        match self {
            Piece::Pawn => 0,
            Piece::Knight => 1,
            Piece::Bishop => 2,
            Piece::Rook => 3,
            Piece::Queen => 4,
            Piece::King => 5,
        }
    }

    pub fn index(self) -> (i: usize)
        ensures
            i == self.rank_in_order(),
    {
        match self {
            Piece::Pawn => 0,
            Piece::Knight => 1,
            Piece::Bishop => 2,
            Piece::Rook => 3,
            Piece::Queen => 4,
            Piece::King => 5,
        }
    }

    /// The piece at a place in the order; past the end, the king.
    pub fn from_index(i: usize) -> (p: Piece)
        ensures
            i <= 5 ==> p.rank_in_order() == i,
            i > 5 ==> p == Piece::King,
    {
        if i == 0 {
            Piece::Pawn
        } else if i == 1 {
            Piece::Knight
        } else if i == 2 {
            Piece::Bishop
        } else if i == 3 {
            Piece::Rook
        } else if i == 4 {
            Piece::Queen
        } else {
            Piece::King
        }
    }
}

impl Color {
    pub open spec fn opposite(self) -> Color {
        match self {
            Color::White => Color::Black,
            Color::Black => Color::White,
        }
    }

    /// 0 for White, 1 for Black.
    pub fn index(self) -> (i: usize)
        ensures
            i == (if self == Color::White { 0int } else { 1int }),
    {
        match self {
            Color::White => 0,
            Color::Black => 1,
        }
    }

    /// White for 0, Black for anything else.
    pub fn from_index(i: usize) -> (c: Color)
        ensures
            c == (if i == 0 { Color::White } else { Color::Black }),
    {
        if i == 0 {
            Color::White
        } else {
            Color::Black
        }
    }
}

impl Castling {
    /// Bit 0 stands for the king's side, bit 1 for the queen's side.
    pub open spec fn bits(self) -> int {
        match self {
            Castling::NoRights => 0,
            Castling::KingSide => 1,
            Castling::QueenSide => 2,
            Castling::Both => 3,
        }
    }

    pub fn index(self) -> (i: usize)
        ensures
            i == self.bits(),
    {
        match self {
            Castling::NoRights => 0,
            Castling::KingSide => 1,
            Castling::QueenSide => 2,
            Castling::Both => 3,
        }
    }

    /// The rights with the given bits; past 3, both.
    pub fn from_index(i: usize) -> (c: Castling)
        ensures
            i <= 3 ==> c.bits() == i,
            i > 3 ==> c == Castling::Both,
    {
        if i == 0 {
            Castling::NoRights
        } else if i == 1 {
            Castling::KingSide
        } else if i == 2 {
            Castling::QueenSide
        } else {
            Castling::Both
        }
    }
}

/// The back rank of the initial position, file by file.
pub open spec fn back_rank_piece(file: int) -> Piece {
    if file == 0 || file == 7 {
        Piece::Rook
    } else if file == 1 || file == 6 {
        Piece::Knight
    } else if file == 2 || file == 5 {
        Piece::Bishop
    } else if file == 3 {
        Piece::Queen
    } else {
        Piece::King
    }
}

/// What stands on a square of the initial position.
pub open spec fn initial_square(sq: int) -> Option<(Piece, Color)> {
    if 0 <= sq < 8 {
        Some((back_rank_piece(sq), Color::White))
    } else if 8 <= sq < 16 {
        Some((Piece::Pawn, Color::White))
    } else if 48 <= sq < 56 {
        Some((Piece::Pawn, Color::Black))
    } else if 56 <= sq < 64 {
        Some((back_rank_piece(sq - 56), Color::Black))
    } else {
        None
    }
}

/// The initial position of a game of chess.
pub open spec fn initial_view() -> PositionView {
    PositionView {
        squares: Seq::new(64, |sq: int| initial_square(sq)),
        side_to_move: Color::White,
        white_castling: Castling::Both,
        black_castling: Castling::Both,
        en_passant: None,
    }
}

/// The square of the same file on the rank that mirrors it (first and eighth
/// rank change places, second and seventh, and so on).
pub open spec fn mirror_square(sq: int) -> int {
    (7 - sq / 8) * 8 + sq % 8
}

/// The same piece in the other colour.
pub open spec fn swap_color(s: Option<(Piece, Color)>) -> Option<(Piece, Color)> {
    match s {
        Some((p, c)) => Some((p, c.opposite())),
        None => None,
    }
}

/// The position seen from the other side: ranks flipped, colours swapped.
pub open spec fn mirror_view(v: PositionView) -> PositionView {
    PositionView {
        squares: Seq::new(64, |sq: int| swap_color(v.squares[mirror_square(sq)])),
        side_to_move: v.side_to_move.opposite(),
        white_castling: v.black_castling,
        black_castling: v.white_castling,
        en_passant: v.en_passant,
    }
}

impl View for Position {
    type V = PositionView;

    closed spec fn view(&self) -> PositionView {
        PositionView {
            squares: self.squares@,
            side_to_move: self.side_to_move,
            white_castling: self.white_castling,
            black_castling: self.black_castling,
            en_passant: match self.en_passant {
                Some(f) => Some(f as int),
                None => None,
            },
        }
    }
}

fn back_rank(file: usize) -> (p: Piece)
    ensures
        p == back_rank_piece(file as int),
{
    if file == 0 || file == 7 {
        Piece::Rook
    } else if file == 1 || file == 6 {
        Piece::Knight
    } else if file == 2 || file == 5 {
        Piece::Bishop
    } else if file == 3 {
        Piece::Queen
    } else {
        Piece::King
    }
}

fn initial_at(sq: usize) -> (s: Option<(Piece, Color)>)
    ensures
        s == initial_square(sq as int),
{
    if sq < 8 {
        Some((back_rank(sq), Color::White))
    } else if sq < 16 {
        Some((Piece::Pawn, Color::White))
    } else if 48 <= sq && sq < 56 {
        Some((Piece::Pawn, Color::Black))
    } else if 56 <= sq && sq < 64 {
        Some((back_rank(sq - 56), Color::Black))
    } else {
        None
    }
}

fn swapped(s: Option<(Piece, Color)>) -> (r: Option<(Piece, Color)>)
    ensures
        r == swap_color(s),
{
    match s {
        Some((p, c)) => match c {
            Color::White => Some((p, Color::Black)),
            Color::Black => Some((p, Color::White)),
        },
        None => None,
    }
}

fn same_square(a: Option<(Piece, Color)>, b: Option<(Piece, Color)>) -> (r: bool)
    ensures
        r == (a == b),
{
    match (a, b) {
        (Some((p, c)), Some((q, d))) => p == q && c == d,
        (None, None) => true,
        _ => false,
    }
}

fn same_file(a: Option<u8>, b: Option<u8>) -> (r: bool)
    ensures
        r == (a == b),
{
    match (a, b) {
        (Some(x), Some(y)) => x == y,
        (None, None) => true,
        _ => false,
    }
}

impl Position {
    #[verifier::type_invariant]
    spec fn shaped(&self) -> bool {
        &&& self.squares@.len() == 64
        &&& (self.en_passant matches Some(f) ==> f < 8)
    }

    /// A position from its parts, if there are 64 squares and the en passant
    /// file, where there is one, is below 8.
    pub fn new(
        squares: Vec<Option<(Piece, Color)>>,
        side_to_move: Color,
        white_castling: Castling,
        black_castling: Castling,
        en_passant: Option<u8>,
    ) -> (r: Option<Position>)
        ensures
            r.is_some() == (squares@.len() == 64 && (en_passant matches Some(f) ==> f < 8)),
            r matches Some(p) ==> p@ == (PositionView {
                squares: squares@,
                side_to_move,
                white_castling,
                black_castling,
                en_passant: match en_passant {
                    Some(f) => Some(f as int),
                    None => None,
                },
            }),
    {
        if squares.len() != 64 {
            return None;
        }
        match en_passant {
            Some(f) => {
                if f >= 8 {
                    return None;
                }
            },
            None => {},
        }
        Some(Position { squares, side_to_move, white_castling, black_castling, en_passant })
    }

    /// The initial position of a game of chess.
    pub fn initial() -> (r: Position)
        ensures
            r@ == initial_view(),
    {
        let mut squares: Vec<Option<(Piece, Color)>> = Vec::new();
        let mut sq: usize = 0;
        while sq < 64
            invariant
                sq <= 64,
                squares@.len() == sq,
                forall|i: int| 0 <= i < sq ==> squares@[i] == initial_square(i),
            decreases 64 - sq,
        {
            squares.push(initial_at(sq));
            sq = sq + 1;
        }
        assert(squares@ =~= initial_view().squares);
        Position {
            squares,
            side_to_move: Color::White,
            white_castling: Castling::Both,
            black_castling: Castling::Both,
            en_passant: None,
        }
    }

    /// What stands on a square.
    pub fn piece_at(&self, sq: u8) -> (r: Option<(Piece, Color)>)
        requires
            sq < 64,
        ensures
            r == self@.squares[sq as int],
    {
        proof {
            use_type_invariant(self);
        }
        self.squares[sq as usize]
    }

    pub fn side_to_move(&self) -> (c: Color)
        ensures
            c == self@.side_to_move,
    {
        self.side_to_move
    }

    /// The castling rights of a side.
    pub fn castling(&self, side: Color) -> (c: Castling)
        ensures
            c == (if side == Color::White { self@.white_castling } else { self@.black_castling }),
    {
        match side {
            Color::White => self.white_castling,
            Color::Black => self.black_castling,
        }
    }

    /// The file of a pawn that may be taken en passant.
    pub fn en_passant(&self) -> (f: Option<u8>)
        ensures
            match f {
                Some(x) => self@.en_passant == Some(x as int),
                None => self@.en_passant.is_none(),
            },
    {
        self.en_passant
    }

    /// A second copy of the position.
    pub fn copy(&self) -> (r: Position)
        ensures
            r@ == self@,
    {
        proof {
            use_type_invariant(self);
        }
        let mut squares: Vec<Option<(Piece, Color)>> = Vec::new();
        let mut sq: usize = 0;
        while sq < 64
            invariant
                sq <= 64,
                self.squares@.len() == 64,
                squares@.len() == sq,
                forall|i: int| 0 <= i < sq ==> squares@[i] == self.squares@[i],
            decreases 64 - sq,
        {
            squares.push(self.squares[sq]);
            sq = sq + 1;
        }
        assert(squares@ =~= self.squares@);
        Position {
            squares,
            side_to_move: self.side_to_move,
            white_castling: self.white_castling,
            black_castling: self.black_castling,
            en_passant: self.en_passant,
        }
    }

    /// Whether two positions hold the same.
    pub fn same(&self, other: &Position) -> (r: bool)
        ensures
            r == (self@ == other@),
    {
        proof {
            use_type_invariant(self);
            use_type_invariant(other);
        }
        if self.side_to_move != other.side_to_move || self.white_castling != other.white_castling
            || self.black_castling != other.black_castling || !same_file(
            self.en_passant,
            other.en_passant,
        ) {
            return false;
        }
        let mut sq: usize = 0;
        while sq < 64
            invariant
                sq <= 64,
                self.squares@.len() == 64,
                other.squares@.len() == 64,
                forall|i: int| 0 <= i < sq ==> self.squares@[i] == other.squares@[i],
            decreases 64 - sq,
        {
            if !same_square(self.squares[sq], other.squares[sq]) {
                return false;
            }
            sq = sq + 1;
        }
        assert(self.squares@ =~= other.squares@);
        true
    }

    /// The position seen from the other side: ranks flipped, colours swapped.
    pub fn mirror(&self) -> (r: Position)
        ensures
            r@ == mirror_view(self@),
    {
        proof {
            use_type_invariant(self);
        }
        let mut squares: Vec<Option<(Piece, Color)>> = Vec::new();
        let mut sq: usize = 0;
        while sq < 64
            invariant
                sq <= 64,
                self.squares@.len() == 64,
                squares@.len() == sq,
                forall|i: int| 0 <= i < sq ==> squares@[i] == swap_color(self.squares@[mirror_square(i)]),
            decreases 64 - sq,
        {
            let from: usize = (7 - sq / 8) * 8 + sq % 8;
            squares.push(swapped(self.squares[from]));
            sq = sq + 1;
        }
        assert(squares@ =~= mirror_view(self@).squares);
        let side: Color = match self.side_to_move {
            Color::White => Color::Black,
            Color::Black => Color::White,
        };
        Position {
            squares,
            side_to_move: side,
            white_castling: self.black_castling,
            black_castling: self.white_castling,
            en_passant: self.en_passant,
        }
    }
}

} // verus!
