use vstd::prelude::*;
use crate::types::{Color, PieceType, Square};

verus! {

/// King buckets after the horizontal mirror: two files per rank on e-h.
pub const KING_BUCKETS: usize = 32;

/// Piece kinds per bucket: ten non-king pieces and one shared king plane.
pub const NUM_PIECE_TYPES_IN_FEATURES: usize = 11;

/// Features per king bucket: 11 x 64.
pub const FEATURES_PER_BUCKET: usize = 704;

/// Input features of the feature transformer: 32 x 11 x 64.
pub const HALFKA_FEATURES: usize = 22528;

pub const HALFKP_FEATURES: usize = 22528;

/// Width of the feature transformer output (the accumulator).
pub const TRANSFORMED_SIZE: usize = 768;

/// Bucket of each (mirrored) king square.
pub const KING_BUCKET_TABLE: [usize; 64] = [
    0, 1, 2, 3, 3, 2, 1, 0,
    4, 5, 6, 7, 7, 6, 5, 4,
    8, 9, 10, 11, 11, 10, 9, 8,
    12, 13, 14, 15, 15, 14, 13, 12,
    16, 17, 18, 19, 19, 18, 17, 16,
    20, 21, 22, 23, 23, 22, 21, 20,
    24, 25, 26, 27, 27, 26, 25, 24,
    28, 29, 30, 31, 31, 30, 29, 28,
];

/// Bucket of king square `s`: four per rank, files mirrored about the centre.
pub open spec fn king_bucket(s: int) -> int {
    4 * (s / 8) + (if s % 8 < 4 {
        s % 8
    } else {
        7 - s % 8
    })
}

/// Base offset of a piece plane inside a bucket: pawns, knights, bishops,
/// rooks, queens each take two planes (white then black), kings share one.
pub open spec fn spec_piece_sq_index(piece_color: Color, pt: PieceType) -> int {
    if pt == PieceType::King {
        640
    } else {
        128 * pt.spec_index() + 64 * piece_color.spec_index()
    }
}

/// A square seen from `perspective`: unchanged for White, turned half a
/// circle for Black (rank and file both flipped).
pub open spec fn spec_orient_sq(sq: int, perspective: Color) -> int {
    if perspective == Color::White {
        sq
    } else {
        (sq as u8 ^ 63u8) as int
    }
}

/// A king square seen from `perspective` before the mirror: unchanged for
/// White, rank-flipped for Black.
pub open spec fn spec_rank_flip(sq: int, perspective: Color) -> int {
    if perspective == Color::White {
        sq
    } else {
        (sq as u8 ^ 56u8) as int
    }
}

/// A king square mirrored onto files e-h.
pub open spec fn spec_orient_king_sq(ksq: int) -> int {
    if ksq % 8 < 4 {
        (ksq as u8 ^ 7u8) as int
    } else {
        ksq
    }
}

/// The feature index of a piece for the accumulator of `perspective`, whose
/// own king stands on `ksq`.
pub open spec fn spec_feature_index_for_perspective(
    perspective: Color,
    ksq: int,
    piece_sq: int,
    pt: PieceType,
    piece_color: Color,
) -> int {
    king_bucket(spec_orient_king_sq(spec_rank_flip(ksq, perspective))) * 704
        + spec_piece_sq_index(piece_color, pt) + spec_orient_sq(piece_sq, perspective)
}

/// The white-perspective feature index.
pub open spec fn spec_feature_index(ksq: int, piece_sq: int, pt: PieceType, piece_color: Color) -> int {
    king_bucket(spec_orient_king_sq(ksq)) * 704 + spec_piece_sq_index(piece_color, pt) + piece_sq
}

/// Mirroring a square across the board's middle rank (`^ 56`) or file (`^ 7`).
pub proof fn lemma_xor_square(s: u8)
    by (bit_vector)
    requires
        s < 64,
    ensures
        (s ^ 56u8) < 64,
        (s ^ 7u8) < 64,
        ((s ^ 7u8) % 8) == 7 - s % 8,
        (s ^ 7u8) / 8 == s / 8,
        (s ^ 56u8) % 8 == s % 8,
        (s ^ 56u8) / 8 == 7 - s / 8,
        (s ^ 63u8) < 64,
        (s ^ 63u8) % 8 == 7 - s % 8,
        (s ^ 63u8) / 8 == 7 - s / 8,
        (s as usize) & 7 == (s as usize) % 8,
{
}

/// Base offset of the plane of a piece of `piece_color` and type `pt`.
pub fn piece_sq_index(perspective: Color, piece_color: Color, pt: PieceType) -> (r: usize)
    ensures
        r == spec_piece_sq_index(piece_color, pt),
        r <= 640,
{
    let friendly = perspective == piece_color;
    match (pt, friendly, perspective) {
        (PieceType::Pawn, true, Color::White) => 0,
        (PieceType::Pawn, false, Color::White) => 64,
        (PieceType::Pawn, true, Color::Black) => 64,
        (PieceType::Pawn, false, Color::Black) => 0,
        (PieceType::Knight, true, Color::White) => 128,
        (PieceType::Knight, false, Color::White) => 192,
        (PieceType::Knight, true, Color::Black) => 192,
        (PieceType::Knight, false, Color::Black) => 128,
        (PieceType::Bishop, true, Color::White) => 256,
        (PieceType::Bishop, false, Color::White) => 320,
        (PieceType::Bishop, true, Color::Black) => 320,
        (PieceType::Bishop, false, Color::Black) => 256,
        (PieceType::Rook, true, Color::White) => 384,
        (PieceType::Rook, false, Color::White) => 448,
        (PieceType::Rook, true, Color::Black) => 448,
        (PieceType::Rook, false, Color::Black) => 384,
        (PieceType::Queen, true, Color::White) => 512,
        (PieceType::Queen, false, Color::White) => 576,
        (PieceType::Queen, true, Color::Black) => 576,
        (PieceType::Queen, false, Color::Black) => 512,
        (PieceType::King, _, _) => 640,
    }
}

/// Orient a square for a perspective: White keeps it, Black turns it half a
/// circle (rank and file both flipped).
pub fn orient_sq(sq: Square, perspective: Color) -> (r: usize)
    requires
        sq.0 < 64,
    ensures
        r == spec_orient_sq(sq.0 as int, perspective),
        r < 64,
{
    proof {
        lemma_xor_square(sq.0);
    }
    if perspective == Color::White {
        sq.0 as usize
    } else {
        (sq.0 ^ 63u8) as usize
    }
}

/// Orient the king square for the bucket lookup: files a-d are mirrored to h-e.
pub fn orient_king_sq(ksq: Square) -> (r: usize)
    requires
        ksq.0 < 64,
    ensures
        r == spec_orient_king_sq(ksq.0 as int),
        r < 64,
        r % 8 >= 4,
{
    proof {
        lemma_xor_square(ksq.0);
    }
    let sq = ksq.0 as usize;
    let file = sq & 7;
    if file < 4 {
        (ksq.0 ^ 7u8) as usize
    } else {
        sq
    }
}

fn king_bucket_of(s: usize) -> (b: usize)
    requires
        s < 64,
    ensures
        b == king_bucket(s as int),
        b < 32,
{
    let b = KING_BUCKET_TABLE[s];
    proof {
        assert(KING_BUCKET_TABLE[s as int] == king_bucket(s as int));
    }
    b
}

/// The HalfKAv2_hm feature index in white's orientation (the king square is
/// only mirrored, the piece square is used as it stands).
pub fn feature_index(ksq: Square, piece_sq: Square, pt: PieceType, piece_color: Color) -> (r: usize)
    requires
        ksq.0 < 64,
        piece_sq.0 < 64,
    ensures
        r == spec_feature_index(ksq.0 as int, piece_sq.0 as int, pt, piece_color),
        r < HALFKA_FEATURES,
{
    let oriented_ksq = orient_king_sq(ksq);
    let bucket = king_bucket_of(oriented_ksq);
    let psi = piece_sq_index(Color::White, piece_color, pt);
    let sq = piece_sq.0 as usize;
    bucket * FEATURES_PER_BUCKET + psi + sq
}

/// The feature index of a piece for the accumulator of `perspective`, whose
/// king stands on `ksq`. For Black the king square is flipped rank-wise
/// before the mirror, and the piece square is turned half a circle.
pub fn feature_index_for_perspective(
    perspective: Color,
    ksq: Square,
    piece_sq: Square,
    pt: PieceType,
    piece_color: Color,
) -> (r: usize)
    requires
        ksq.0 < 64,
        piece_sq.0 < 64,
    ensures
        r == spec_feature_index_for_perspective(
            perspective,
            ksq.0 as int,
            piece_sq.0 as int,
            pt,
            piece_color,
        ),
        r < HALFKA_FEATURES,
{
    proof {
        lemma_xor_square(ksq.0);
    }
    let oriented_ksq = if perspective == Color::White {
        orient_king_sq(ksq)
    } else {
        orient_king_sq(Square::new(ksq.0 ^ 56u8))
    };
    let bucket = king_bucket_of(oriented_ksq);
    let oriented_piece_sq = orient_sq(piece_sq, perspective);
    let psi = piece_sq_index(perspective, piece_color, pt);
    bucket * FEATURES_PER_BUCKET + psi + oriented_piece_sq
}

} // verus!
