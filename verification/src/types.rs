use vstd::prelude::*;

verus! {

/// The two sides.
#[derive(Copy, Clone, Debug, PartialEq, Eq, Structural)]
pub enum Color {
    White,
    Black,
}

impl Color {
    /// Index of the color in per-color tables (White = 0, Black = 1).
    pub open spec fn spec_index(self) -> int {
        match self {
            Color::White => 0,
            Color::Black => 1,
        }
    }

    pub fn index(self) -> (r: usize)
        ensures
            r == self.spec_index(),
            r < 2,
    {
        match self {
            Color::White => 0,
            Color::Black => 1,
        }
    }

    pub open spec fn spec_flip(self) -> Color {
        match self {
            Color::White => Color::Black,
            Color::Black => Color::White,
        }
    }

    /// The opposite color.
    pub fn flip(self) -> (r: Color)
        ensures
            r == self.spec_flip(),
            r != self,
    {
        match self {
            Color::White => Color::Black,
            Color::Black => Color::White,
        }
    }
}

pub open spec fn color_from_index(i: int) -> Color {
    if i == 0 {
        Color::White
    } else {
        Color::Black
    }
}

/// The six kinds of chess men.
#[derive(Copy, Clone, Debug, PartialEq, Eq, Structural)]
pub enum PieceType {
    Pawn,
    Knight,
    Bishop,
    Rook,
    Queen,
    King,
}

impl PieceType {
    /// Index in per-piece-type tables (Pawn = 0 .. King = 5).
    pub open spec fn spec_index(self) -> int {
        match self {
            PieceType::Pawn => 0,
            PieceType::Knight => 1,
            PieceType::Bishop => 2,
            PieceType::Rook => 3,
            PieceType::Queen => 4,
            PieceType::King => 5,
        }
    }

    pub fn index(self) -> (r: usize)
        ensures
            r == self.spec_index(),
            r < 6,
    {
        match self {
            PieceType::Pawn => 0,
            PieceType::Knight => 1,
            PieceType::Bishop => 2,
            PieceType::Rook => 3,
            PieceType::Queen => 4,
            PieceType::King => 5,
        }
    }
}

pub open spec fn piece_type_from_index(i: int) -> PieceType {
    if i == 0 {
        PieceType::Pawn
    } else if i == 1 {
        PieceType::Knight
    } else if i == 2 {
        PieceType::Bishop
    } else if i == 3 {
        PieceType::Rook
    } else if i == 4 {
        PieceType::Queen
    } else {
        PieceType::King
    }
}

pub proof fn lemma_piece_type_index_roundtrip(pt: PieceType)
    ensures
        piece_type_from_index(pt.spec_index()) == pt,
        0 <= pt.spec_index() < 6,
{
}

/// Maps an index in 0..6 to its piece type.
pub fn piece_type_of_index(i: usize) -> (pt: PieceType)
    requires
        i < 6,
    ensures
        pt == piece_type_from_index(i as int),
        pt.spec_index() == i,
{
    if i == 0 {
        PieceType::Pawn
    } else if i == 1 {
        PieceType::Knight
    } else if i == 2 {
        PieceType::Bishop
    } else if i == 3 {
        PieceType::Rook
    } else if i == 4 {
        PieceType::Queen
    } else {
        PieceType::King
    }
}

pub const NUM_PIECE_TYPES: usize = 6;

pub const NUM_COLORS: usize = 2;

pub const NUM_SQUARES: usize = 64;

/// Piece values used by the static exchange evaluation, indexed by piece type.
pub open spec fn see_value(pt: PieceType) -> i32 {
    match pt {
        PieceType::Pawn => 100,
        PieceType::Knight => 300,
        PieceType::Bishop => 300,
        PieceType::Rook => 500,
        PieceType::Queen => 900,
        PieceType::King => 0,
    }
}

pub fn see_piece_value(pt: PieceType) -> (v: i32)
    ensures
        v == see_value(pt),
{
    match pt {
        PieceType::Pawn => 100,
        PieceType::Knight => 300,
        PieceType::Bishop => 300,
        PieceType::Rook => 500,
        PieceType::Queen => 900,
        PieceType::King => 0,
    }
}

/// A colored piece, encoded as `color * 6 + piece_type`.
#[derive(Copy, Clone, Debug, PartialEq, Eq, Structural)]
pub struct Piece(pub u8);

impl Piece {
    /// A piece code is meaningful when it lies in 0..12.
    pub open spec fn wf(self) -> bool {
        self.0 < 12
    }

    pub open spec fn spec_new(color: Color, piece_type: PieceType) -> Piece {
        Piece((color.spec_index() * 6 + piece_type.spec_index()) as u8)
    }

    pub open spec fn spec_color(self) -> Color {
        if self.0 < 6 {
            Color::White
        } else {
            Color::Black
        }
    }

    pub open spec fn spec_piece_type(self) -> PieceType {
        piece_type_from_index((self.0 % 6) as int)
    }

    pub fn new(color: Color, piece_type: PieceType) -> (p: Piece)
        ensures
            p == Piece::spec_new(color, piece_type),
            p.wf(),
            p.spec_color() == color,
            p.spec_piece_type() == piece_type,
    {
        Piece((color.index() as u8) * 6 + (piece_type.index() as u8))
    }

    pub fn color(self) -> (c: Color)
        ensures
            c == self.spec_color(),
    {
        if self.0 < 6 {
            Color::White
        } else {
            Color::Black
        }
    }

    pub fn piece_type(self) -> (pt: PieceType)
        ensures
            pt == self.spec_piece_type(),
    {
        let r = self.0 % 6;
        if r == 0 {
            PieceType::Pawn
        } else if r == 1 {
            PieceType::Knight
        } else if r == 2 {
            PieceType::Bishop
        } else if r == 3 {
            PieceType::Rook
        } else if r == 4 {
            PieceType::Queen
        } else {
            PieceType::King
        }
    }
}

/// Encoding and decoding a piece give back its color and type.
pub proof fn lemma_piece_roundtrip(p: Piece)
    requires
        p.wf(),
    ensures
        Piece::spec_new(p.spec_color(), p.spec_piece_type()) == p,
{
}

/// A board square 0..63 (a1 = 0, h1 = 7, a8 = 56, h8 = 63).
#[derive(Copy, Clone, Debug, PartialEq, Eq, Structural)]
pub struct Square(pub u8);

impl Square {
    pub fn new(sq: u8) -> (s: Square)
        requires
            sq < 64,
        ensures
            s.0 == sq,
    {
        Square(sq)
    }

    pub fn rank(self) -> (r: u8)
        ensures
            r == self.0 / 8,
    {
        self.0 / 8
    }

    pub fn file(self) -> (f: u8)
        ensures
            f == self.0 % 8,
    {
        self.0 % 8
    }
}


/// A move packed in 16 bits: bits 0-5 source square, bits 6-11 destination
/// square, bits 12-15 a flag (see the `FLAG_*` constants).
#[derive(Copy, Clone, Debug, PartialEq, Eq, Structural)]
pub struct Move(pub u16);

pub open spec fn spec_from_sq(m: u16) -> u8 {
    (m & 0x3F) as u8
}

pub open spec fn spec_to_sq(m: u16) -> u8 {
    ((m >> 6) & 0x3F) as u8
}

pub open spec fn spec_flag(m: u16) -> u16 {
    m & 0xF000
}

pub open spec fn spec_is_capture(m: u16) -> bool {
    (m & 0x4000) != 0
}

pub open spec fn spec_is_promotion(m: u16) -> bool {
    (m & 0x8000) != 0
}

pub open spec fn spec_move_bits(from: u8, to: u8, flags: u16) -> u16 {
    flags | ((to as u16) << 6u16) | (from as u16)
}

/// The piece type a promotion flag names: bits 12-13 select knight, bishop, rook, queen.
pub open spec fn spec_promotion_type(m: u16) -> PieceType {
    let k = (m >> 12) & 0x3;
    if k == 0 {
        PieceType::Knight
    } else if k == 1 {
        PieceType::Bishop
    } else if k == 2 {
        PieceType::Rook
    } else {
        PieceType::Queen
    }
}

/// A flag value is one of the sixteen codes, held in the top four bits.
pub open spec fn flag_ok(flags: u16) -> bool {
    flags % 4096 == 0
}

impl Move {
    pub const FLAG_QUIET: u16 = 0x0000;
    pub const FLAG_DBL_PUSH: u16 = 0x1000;
    pub const FLAG_K_CASTLE: u16 = 0x2000;
    pub const FLAG_Q_CASTLE: u16 = 0x3000;
    pub const FLAG_CAPTURE: u16 = 0x4000;
    pub const FLAG_EP: u16 = 0x5000;
    pub const FLAG_PR_KNIGHT: u16 = 0x8000;
    pub const FLAG_PR_BISHOP: u16 = 0x9000;
    pub const FLAG_PR_ROOK: u16 = 0xA000;
    pub const FLAG_PR_QUEEN: u16 = 0xB000;
    pub const FLAG_PC_KNIGHT: u16 = 0xC000;
    pub const FLAG_PC_BISHOP: u16 = 0xD000;
    pub const FLAG_PC_ROOK: u16 = 0xE000;
    pub const FLAG_PC_QUEEN: u16 = 0xF000;

    pub fn new(from: u8, to: u8, flags: u16) -> (m: Move)
        ensures
            m.0 == spec_move_bits(from, to, flags),
    {
        Move(flags | ((to as u16) << 6u16) | (from as u16))
    }

    pub fn none() -> (m: Move)
        ensures
            m.0 == 0,
    {
        Move(0)
    }

    pub fn from_sq(self) -> (s: u8)
        ensures
            s == spec_from_sq(self.0),
            s < 64,
    {
        let r = (self.0 & 0x3F) as u8;
        proof {
            move_bit_facts(self.0, 0, 0, 0);
        }
        r
    }

    pub fn to_sq(self) -> (s: u8)
        ensures
            s == spec_to_sq(self.0),
            s < 64,
    {
        let r = ((self.0 >> 6u16) & 0x3F) as u8;
        proof {
            move_bit_facts(self.0, 0, 0, 0);
        }
        r
    }

    pub fn flag(self) -> (f: u16)
        ensures
            f == spec_flag(self.0),
    {
        self.0 & 0xF000
    }

    pub fn is_capture(self) -> (b: bool)
        ensures
            b == spec_is_capture(self.0),
    {
        (self.0 & 0x4000) != 0
    }

    pub fn is_en_passant(self) -> (b: bool)
        ensures
            b == (spec_flag(self.0) == Move::FLAG_EP),
    {
        self.flag() == Self::FLAG_EP
    }

    pub fn is_promotion(self) -> (b: bool)
        ensures
            b == spec_is_promotion(self.0),
    {
        (self.0 & 0x8000) != 0
    }

    pub fn promotion_type(self) -> (pt: PieceType)
        ensures
            pt == spec_promotion_type(self.0),
    {
        let k = (self.0 >> 12u16) & 0x3;
        if k == 0 {
            PieceType::Knight
        } else if k == 1 {
            PieceType::Bishop
        } else if k == 2 {
            PieceType::Rook
        } else {
            PieceType::Queen
        }
    }
}

/// Bit facts about packed moves, proved by bit-blasting.
proof fn move_bit_facts(m: u16, fr: u16, tw: u16, flags: u16)
    by (bit_vector)
    ensures
        (m & 0x3F) < 64,
        ((m >> 6u16) & 0x3F) < 64,
        (fr < 64 && tw < 64 && flags % 4096 == 0) ==> {
            &&& (flags | (tw << 6u16) | fr) & 0x3F == fr
            &&& ((flags | (tw << 6u16) | fr) >> 6u16) & 0x3F == tw
            &&& (flags | (tw << 6u16) | fr) & 0xF000 == flags
            &&& ((flags | (tw << 6u16) | fr) & 0x4000 != 0) == ((flags / 16384) % 2 == 1)
            &&& ((flags | (tw << 6u16) | fr) & 0x8000 != 0) == (flags >= 32768)
        },
{
}

pub proof fn lemma_move_squares(m: u16)
    ensures
        spec_from_sq(m) < 64,
        spec_to_sq(m) < 64,
{
    move_bit_facts(m, 0, 0, 0);
}

/// Packing a move and reading it back gives the source square, the
/// destination square and the flag that went in.
pub proof fn lemma_move_roundtrip(from: u8, to: u8, flags: u16)
    requires
        from < 64,
        to < 64,
        flag_ok(flags),
    ensures
        spec_from_sq(spec_move_bits(from, to, flags)) == from,
        spec_to_sq(spec_move_bits(from, to, flags)) == to,
        spec_flag(spec_move_bits(from, to, flags)) == flags,
        spec_is_capture(spec_move_bits(from, to, flags)) == ((flags / 16384) % 2 == 1),
        spec_is_promotion(spec_move_bits(from, to, flags)) == (flags >= 32768),
{
    move_bit_facts(0, from as u16, to as u16, flags);
}

/// Castling rights as four bits: white king side, white queen side, black
/// king side, black queen side.
#[derive(Copy, Clone, Debug, PartialEq, Eq, Structural)]
pub struct CastlingRights(pub u8);

impl CastlingRights {
    pub const WK: u8 = 1;
    pub const WQ: u8 = 2;
    pub const BK: u8 = 4;
    pub const BQ: u8 = 8;
    pub const ANY: u8 = 15;

    pub fn new(rights: u8) -> (c: CastlingRights)
        ensures
            c.0 == rights,
    {
        CastlingRights(rights)
    }

    pub fn has_wk(self) -> (b: bool)
        ensures
            b == (self.0 & 1 != 0),
    {
        (self.0 & Self::WK) != 0
    }

    pub fn has_wq(self) -> (b: bool)
        ensures
            b == (self.0 & 2 != 0),
    {
        (self.0 & Self::WQ) != 0
    }

    pub fn has_bk(self) -> (b: bool)
        ensures
            b == (self.0 & 4 != 0),
    {
        (self.0 & Self::BK) != 0
    }

    pub fn has_bq(self) -> (b: bool)
        ensures
            b == (self.0 & 8 != 0),
    {
        (self.0 & Self::BQ) != 0
    }
}

} // verus!
