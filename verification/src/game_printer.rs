//! The board as text.

use vstd::prelude::*;
use vstd::string::StringExecFns;
use crate::board::{Color, Piece, Position, PositionView};

verus! {

/// The file letters as White sees them, left to right.
pub open spec fn header_text(perspective: Color) -> Seq<char> {
    if perspective == Color::White {
        "    A  B  C  D  E  F  G  H    "@
    } else {
        "    H  G  F  E  D  C  B  A    "@
    }
}

/// A blank and the letter of a piece.
pub open spec fn piece_letter(piece: Piece) -> Seq<char> {
    match piece {
        Piece::Bishop => " B"@,
        Piece::King => " K"@,
        Piece::Knight => " N"@,
        Piece::Pawn => " P"@,
        Piece::Queen => " Q"@,
        Piece::Rook => " R"@,
    }
}

/// The mark behind a piece: a star for Black, a blank for White.
pub open spec fn color_marker(color: Color) -> Seq<char> {
    if color == Color::Black {
        "*"@
    } else {
        " "@
    }
}

/// A piece in three characters: a blank, its letter, its colour's mark.
pub open spec fn piece_text(piece: Piece, color: Color) -> Seq<char> {
    piece_letter(piece) + color_marker(color)
}

/// A square in three characters.
pub open spec fn square_text(s: Option<(Piece, Color)>) -> Seq<char> {
    match s {
        Some((piece, color)) => piece_text(piece, color),
        None => " _ "@,
    }
}

/// The number of a rank, 1 for the first.
pub open spec fn rank_label(rank: int) -> Seq<char> {
    if rank == 0 {
        "1"@
    } else if rank == 1 {
        "2"@
    } else if rank == 2 {
        "3"@
    } else if rank == 3 {
        "4"@
    } else if rank == 4 {
        "5"@
    } else if rank == 5 {
        "6"@
    } else if rank == 6 {
        "7"@
    } else {
        "8"@
    }
}

/// The square that is `n`-th in a line of text: White reads the files from a
/// to h, Black from h to a.
pub open spec fn column_at(perspective: Color, n: int) -> int {
    if perspective == Color::White {
        n
    } else {
        7 - n
    }
}

/// The rank that is `n`-th from the top: White has the eighth rank on top,
/// Black the first.
pub open spec fn row_at(perspective: Color, n: int) -> int {
    if perspective == Color::White {
        7 - n
    } else {
        n
    }
}

/// The first `n` squares of a rank's line.
pub open spec fn squares_text(v: PositionView, perspective: Color, rank: int, n: int) -> Seq<char>
    decreases n,
{
    if n <= 0 {
        Seq::empty()
    } else {
        squares_text(v, perspective, rank, n - 1) + square_text(
            v.squares[square_index(rank, column_at(perspective, n - 1))],
        )
    }
}

/// The line of a rank: its number, two blanks, its eight squares, a line break.
pub open spec fn rank_text(v: PositionView, perspective: Color, rank: int) -> Seq<char> {
    rank_label(rank) + "  "@ + squares_text(v, perspective, rank, 8) + "\n"@
}

/// The lines of the first `n` ranks from the top.
pub open spec fn ranks_text(v: PositionView, perspective: Color, n: int) -> Seq<char>
    decreases n,
{
    if n <= 0 {
        Seq::empty()
    } else {
        ranks_text(v, perspective, n - 1) + rank_text(v, perspective, row_at(perspective, n - 1))
    }
}

/// The board as text: the file letters, an empty line, and the eight ranks
/// from the far side of the board to the near one.
pub open spec fn board_text(v: PositionView, perspective: Color) -> Seq<char> {
    header_text(perspective) + "\n\n"@ + ranks_text(v, perspective, 8)
}

/// The number of the square on a rank and a file, both counted from 0 and
/// taken modulo 8.
pub open spec fn square_index(row: int, col: int) -> int {
    (row % 8) * 8 + col % 8
}

fn wrap8(i: i32) -> (r: u8)
    ensures
        r == i as int % 8,
{
    if i >= 0 {
        (i % 8) as u8
    } else {
        let k: i32 = (-(i + 1)) % 8;
        (7 - k) as u8
    }
}

/// The rank with the given number, counted from 0 and taken modulo 8.
pub fn make_rank(row: i32) -> (rank: u8)
    ensures
        rank == row as int % 8,
{
    wrap8(row)
}

/// The file with the given number, counted from 0 and taken modulo 8.
pub fn make_file(col: i32) -> (file: u8)
    ensures
        file == col as int % 8,
{
    wrap8(col)
}

/// The number of the square on a rank and a file.
pub fn to_square(row: i32, col: i32) -> (square: u8)
    ensures
        square == square_index(row as int, col as int),
        square < 64,
{
    make_rank(row) * 8 + make_file(col)
}

/// A piece in three characters.
pub fn piece_to_string(piece: Piece, color: Color) -> (text: String)
    ensures
        text@ == piece_text(piece, color),
{
    let marker: &str = if color == Color::Black {
        "*"
    } else {
        " "
    };
    let base: &str = match piece {
        Piece::Bishop => " B",
        Piece::King => " K",
        Piece::Knight => " N",
        Piece::Pawn => " P",
        Piece::Queen => " Q",
        Piece::Rook => " R",
    };
    let mut text: String = String::from_str(base);
    text.append(marker);
    text
}

fn rank_number(rank: i32) -> (label: &'static str)
    requires
        0 <= rank < 8,
    ensures
        label@ == rank_label(rank as int),
{
    if rank == 0 {
        "1"
    } else if rank == 1 {
        "2"
    } else if rank == 2 {
        "3"
    } else if rank == 3 {
        "4"
    } else if rank == 4 {
        "5"
    } else if rank == 5 {
        "6"
    } else if rank == 6 {
        "7"
    } else {
        "8"
    }
}

/// The board as text, seen from one side.
pub fn board_to_string(board: &Position, perspective: Color) -> (text: String)
    ensures
        text@ == board_text(board@, perspective),
{
    let white: bool = perspective == Color::White;
    let mut res: String = String::from_str(
        if white {
            "    A  B  C  D  E  F  G  H    "
        } else {
            "    H  G  F  E  D  C  B  A    "
        },
    );
    res.append("\n\n");
    let mut n: i32 = 0;
    while n < 8
        invariant
            0 <= n <= 8,
            white == (perspective == Color::White),
            res@ == header_text(perspective) + "\n\n"@ + ranks_text(board@, perspective, n as int),
        decreases 8 - n,
    {
        let row: i32 = if white {
            7 - n
        } else {
            n
        };
        let ghost start = res@;
        res.append(rank_number(row));
        res.append("  ");
        let mut m: i32 = 0;
        while m < 8
            invariant
                0 <= m <= 8,
                0 <= row < 8,
                white == (perspective == Color::White),
                res@ == start + rank_label(row as int) + "  "@ + squares_text(
                    board@,
                    perspective,
                    row as int,
                    m as int,
                ),
            decreases 8 - m,
        {
            let col: i32 = if white {
                m
            } else {
                7 - m
            };
            let square: u8 = to_square(row, col);
            match board.piece_at(square) {
                Some((piece, color)) => {
                    let cell: String = piece_to_string(piece, color);
                    res.append(cell.as_str());
                },
                None => {
                    res.append(" _ ");
                },
            }
            proof {
                let before = squares_text(board@, perspective, row as int, m as int);
                let cell = square_text(board@.squares[square as int]);
                assert(start + rank_label(row as int) + "  "@ + before + cell =~= start
                    + rank_label(row as int) + "  "@ + (before + cell));
            }
            m = m + 1;
        }
        res.append("\n");
        proof {
            let head = header_text(perspective) + "\n\n"@;
            let line = rank_text(board@, perspective, row as int);
            assert(res@ =~= head + (ranks_text(board@, perspective, n as int) + line));
        }
        n = n + 1;
    }
    res
}

} // verus!
