use vstd::prelude::*;
use std::sync::Arc;
use crate::board::Board;
use crate::nnue::NNUE;
use crate::types::{CastlingRights, Color, Piece, PieceType, Square};
use vstd::compute::RangeAll;

verus! {

/// White space as `char::is_whitespace` has it (the Unicode White_Space property).
pub open spec fn is_ws(c: char) -> bool {
    let u = c as u32;
    (9 <= u <= 13) || u == 32 || u == 0x85 || u == 0xA0 || u == 0x1680 || (0x2000 <= u <= 0x200A) || u == 0x2028
        || u == 0x2029 || u == 0x202F || u == 0x205F || u == 0x3000
}

fn is_whitespace(c: char) -> (r: bool)
    ensures
        r == is_ws(c),
{
    let u = c as u32;
    (9 <= u && u <= 13) || u == 32 || u == 0x85 || u == 0xA0 || u == 0x1680 || (0x2000 <= u && u <= 0x200A) || u
        == 0x2028 || u == 0x2029 || u == 0x202F || u == 0x205F || u == 0x3000
}

/// The maximal runs of non-white-space characters of `s`, in order.
pub open spec fn fields(s: Seq<char>) -> Seq<Seq<char>>
    decreases s.len(),
{
    if s.len() == 0 {
        Seq::empty()
    } else {
        let pre = fields(s.drop_last());
        let c = s.last();
        if is_ws(c) {
            pre
        } else if s.len() >= 2 && !is_ws(s[s.len() - 2]) {
            pre.update(pre.len() - 1, pre.last().push(c))
        } else {
            pre.push(seq![c])
        }
    }
}

proof fn lemma_fields_nonempty(s: Seq<char>)
    requires
        s.len() >= 1,
        !is_ws(s.last()),
    ensures
        fields(s).len() >= 1,
    decreases s.len(),
{
    if s.len() >= 2 && !is_ws(s[s.len() - 2]) {
        lemma_fields_nonempty(s.drop_last());
    }
}

pub(crate) fn to_chars(s: &str) -> (v: Vec<char>)
    ensures
        v@ == s@,
{
    let mut v: Vec<char> = Vec::new();
    for c in it: s.chars()
        invariant
            v@ == it.seq().take(it.index() as int),
    {
        v.push(c);
    }
    proof {
        assert(v@ =~= s@);
    }
    v
}

/// `v` holds the views of the vectors of `r`.
pub open spec fn views(r: Seq<Vec<char>>) -> Seq<Seq<char>> {
    r.map_values(|x: Vec<char>| x@)
}

fn split_fields(s: &Vec<char>) -> (r: Vec<Vec<char>>)
    ensures
        views(r@) == fields(s@),
{
    let mut r: Vec<Vec<char>> = Vec::new();
    let mut i: usize = 0;
    while i < s.len()
        invariant
            i <= s@.len(),
            views(r@) == fields(s@.take(i as int)),
        decreases s@.len() - i,
    {
        let c = s[i];
        proof {
            assert(s@.take(i + 1).drop_last() =~= s@.take(i as int));
            assert(s@.take(i + 1).last() == c);
        }
        if is_whitespace(c) {
        } else if i > 0 && !is_whitespace(s[i - 1]) {
            proof {
                assert(s@.take(i as int).last() == s@[i - 1]);
                lemma_fields_nonempty(s@.take(i as int));
                assert(s@.take(i + 1)[i - 1] == s@[i - 1]);
            }
            let mut f = r.pop().unwrap();
            f.push(c);
            r.push(f);
            proof {
                assert(views(r@) =~= fields(s@.take(i + 1)));
            }
        } else {
            let mut f: Vec<char> = Vec::new();
            f.push(c);
            r.push(f);
            proof {
                assert(f@ =~= seq![c]);
                assert(views(r@) =~= fields(s@.take(i + 1)));
            }
        }
        i = i + 1;
    }
    proof {
        assert(s@.take(s@.len() as int) =~= s@);
    }
    r
}

/// The piece a FEN letter names: upper case for White, lower case for Black.
pub open spec fn piece_of_char(c: char) -> Option<Piece> {
    let w = Color::White;
    let b = Color::Black;
    if c == 'P' {
        Some(Piece::spec_new(w, PieceType::Pawn))
    } else if c == 'N' {
        Some(Piece::spec_new(w, PieceType::Knight))
    } else if c == 'B' {
        Some(Piece::spec_new(w, PieceType::Bishop))
    } else if c == 'R' {
        Some(Piece::spec_new(w, PieceType::Rook))
    } else if c == 'Q' {
        Some(Piece::spec_new(w, PieceType::Queen))
    } else if c == 'K' {
        Some(Piece::spec_new(w, PieceType::King))
    } else if c == 'p' {
        Some(Piece::spec_new(b, PieceType::Pawn))
    } else if c == 'n' {
        Some(Piece::spec_new(b, PieceType::Knight))
    } else if c == 'b' {
        Some(Piece::spec_new(b, PieceType::Bishop))
    } else if c == 'r' {
        Some(Piece::spec_new(b, PieceType::Rook))
    } else if c == 'q' {
        Some(Piece::spec_new(b, PieceType::Queen))
    } else if c == 'k' {
        Some(Piece::spec_new(b, PieceType::King))
    } else {
        None
    }
}

fn piece_from_char(c: char) -> (r: Option<Piece>)
    ensures
        r == piece_of_char(c),
        r matches Some(p) ==> p.wf(),
{
    let color = if c == 'P' || c == 'N' || c == 'B' || c == 'R' || c == 'Q' || c == 'K' {
        Color::White
    } else {
        Color::Black
    };
    let pt = if c == 'P' || c == 'p' {
        PieceType::Pawn
    } else if c == 'N' || c == 'n' {
        PieceType::Knight
    } else if c == 'B' || c == 'b' {
        PieceType::Bishop
    } else if c == 'R' || c == 'r' {
        PieceType::Rook
    } else if c == 'Q' || c == 'q' {
        PieceType::Queen
    } else if c == 'K' || c == 'k' {
        PieceType::King
    } else {
        return None;
    };
    Some(Piece::new(color, pt))
}

pub open spec fn is_digit(c: char) -> bool {
    48 <= (c as u32) <= 57
}

pub open spec fn digit_of(c: char) -> int {
    (c as u32) - 48
}

/// Rank and file the placement field stands at after reading `f`: it starts
/// on the eighth rank's first file; '/' goes down a rank to the first file,
/// a digit skips that many files, anything else takes one file.
pub open spec fn place_pos(f: Seq<char>) -> (int, int)
    decreases f.len(),
{
    if f.len() == 0 {
        (7, 0)
    } else {
        let p = place_pos(f.drop_last());
        let c = f.last();
        if c == '/' {
            (p.0 - 1, 0)
        } else if is_digit(c) {
            (p.0, p.1 + digit_of(c))
        } else {
            (p.0, p.1 + 1)
        }
    }
}

/// The square a piece letter read after `f` lands on, as an 8-bit value.
pub open spec fn next_square(f: Seq<char>) -> int {
    (place_pos(f).0 * 8 + place_pos(f).1) % 256
}

/// 0 while the placement field is well formed so far; 1 from the first
/// character that is neither a piece letter, a digit nor '/'; 2 from the
/// first piece whose square is off the board.
pub open spec fn place_status(f: Seq<char>) -> int
    decreases f.len(),
{
    if f.len() == 0 {
        0
    } else {
        let st = place_status(f.drop_last());
        let c = f.last();
        if st != 0 {
            st
        } else if c == '/' || is_digit(c) {
            0
        } else if piece_of_char(c) is None {
            1
        } else if next_square(f.drop_last()) < 64 {
            0
        } else {
            2
        }
    }
}

/// The piece the placement field `f` puts on square `s`, the last one if several.
pub open spec fn placed_at(f: Seq<char>, s: int) -> Option<Piece>
    decreases f.len(),
{
    if f.len() == 0 {
        None
    } else if piece_of_char(f.last()) is Some && next_square(f.drop_last()) == s {
        piece_of_char(f.last())
    } else {
        placed_at(f.drop_last(), s)
    }
}

/// Whether the placement field puts a piece on a square already taken.
pub open spec fn clash(f: Seq<char>) -> bool
    decreases f.len(),
{
    f.len() > 0 && (clash(f.drop_last()) || (piece_of_char(f.last()) is Some && placed_at(
        f.drop_last(),
        next_square(f.drop_last()),
    ) is Some))
}

proof fn lemma_status_prefix(f: Seq<char>, i: int)
    requires
        0 <= i <= f.len(),
        place_status(f.take(i)) != 0,
    ensures
        place_status(f) == place_status(f.take(i)),
    decreases f.len() - i,
{
    if i < f.len() {
        assert(f.take(i + 1).drop_last() =~= f.take(i));
        lemma_status_prefix(f, i + 1);
    } else {
        assert(f.take(i) =~= f);
    }
}

proof fn lemma_place_bounds(f: Seq<char>)
    ensures
        7 - f.len() <= place_pos(f).0 <= 7,
        0 <= place_pos(f).1 <= 9 * f.len(),
    decreases f.len(),
{
    if f.len() > 0 {
        lemma_place_bounds(f.drop_last());
    }
}

/// The castling rights the letters of `f` grant: K, Q, k, q; others are ignored.
pub open spec fn castle_bits(f: Seq<char>) -> u8
    decreases f.len(),
{
    if f.len() == 0 {
        0
    } else {
        let r = castle_bits(f.drop_last());
        let c = f.last();
        if c == 'K' {
            r | CastlingRights::WK
        } else if c == 'Q' {
            r | CastlingRights::WQ
        } else if c == 'k' {
            r | CastlingRights::BK
        } else if c == 'q' {
            r | CastlingRights::BQ
        } else {
            r
        }
    }
}

/// The low byte of a character's code.
pub open spec fn low_byte(c: char) -> int {
    ((c as u32) % 256) as int
}

/// The en passant field can be read: "-", or a file letter and a rank
/// digit naming a square of the board.
pub open spec fn ep_ok(f: Seq<char>) -> bool {
    f == seq!['-'] || (f.len() >= 2 && low_byte(f[0]) >= 97 && low_byte(f[1]) >= 49 && (low_byte(f[1]) - 49) * 8
        + (low_byte(f[0]) - 97) < 64)
}

/// The en passant square the field names.
pub open spec fn ep_of(f: Seq<char>) -> Option<Square> {
    if f == seq!['-'] {
        None
    } else {
        Some(Square(((low_byte(f[1]) - 49) * 8 + (low_byte(f[0]) - 97)) as u8))
    }
}

/// The value of a decimal digit string.
pub open spec fn decimal_value(d: Seq<char>) -> int
    decreases d.len(),
{
    if d.len() == 0 {
        0
    } else {
        decimal_value(d.drop_last()) * 10 + digit_of(d.last())
    }
}

/// The digits of an unsigned number: without a leading '+'.
pub open spec fn unsigned_digits(s: Seq<char>) -> Seq<char> {
    if s.len() > 0 && s[0] == '+' {
        s.drop_first()
    } else {
        s
    }
}

pub open spec fn all_digits(d: Seq<char>) -> bool {
    forall|i: int| 0 <= i < d.len() ==> is_digit(#[trigger] d[i])
}

/// What `str::parse` gives for an unsigned integer type whose largest value
/// is `max`: an optional '+', then at least one decimal digit, the value at
/// most `max`.
pub open spec fn parse_uint(s: Seq<char>, max: int) -> Option<int> {
    let d = unsigned_digits(s);
    if d.len() > 0 && all_digits(d) && decimal_value(d) <= max {
        Some(decimal_value(d))
    } else {
        None
    }
}

/// The inputs on which reading a FEN string would break down: a piece off
/// the board, or an en passant field that does not name a square.
pub open spec fn fen_breaks(s: Seq<char>) -> bool {
    let fs = fields(s);
    fs.len() >= 4 && (place_status(fs[0]) == 2 || (place_status(fs[0]) == 0 && !ep_ok(fs[3])))
}

/// The FEN strings refused: fewer than four fields, an unknown character in
/// the placement, or two pieces on one square.
pub open spec fn fen_refused(s: Seq<char>) -> bool {
    let fs = fields(s);
    fs.len() < 4 || place_status(fs[0]) == 1 || clash(fs[0])
}

/// `b` holds the position the FEN string `s` describes: pieces, side to
/// move, castling rights, en passant square and move counters.
pub open spec fn fen_position(s: Seq<char>, b: Board) -> bool {
    let fs = fields(s);
    &&& forall|sq: int| 0 <= sq < 64 ==> b.piece_on_sq[sq] == placed_at(fs[0], sq)
    &&& b.side_to_move == (if fs[1] == seq!['w'] {
        Color::White
    } else {
        Color::Black
    })
    &&& b.castling.0 == castle_bits(fs[2])
    &&& b.en_passant == ep_of(fs[3])
    &&& b.halfmove_clock == (if fs.len() >= 5 {
        match parse_uint(fs[4], 255) {
            Some(v) => v,
            None => 0,
        }
    } else {
        0
    })
    &&& b.fullmove_number == (if fs.len() >= 6 {
        match parse_uint(fs[5], 65535) {
            Some(v) => v,
            None => 1,
        }
    } else {
        1
    })
}

/// `b` is the position the FEN string `s` describes, with no history.
pub open spec fn fen_describes(s: Seq<char>, b: Board) -> bool {
    fen_position(s, b) && b.position_history@.len() == 0
}

/// The decimal value of `s` from index `start` on: `None` unless that part
/// is a nonempty run of digits whose value is at most `max`.
fn parse_digits_from(s: &Vec<char>, start: usize, max: u64) -> (r: Option<u64>)
    requires
        start <= s@.len(),
    ensures
        ({
            let d = s@.subrange(start as int, s@.len() as int);
            match r {
                Some(v) => d.len() > 0 && all_digits(d) && decimal_value(d) <= max && v == decimal_value(d),
                None => !(d.len() > 0 && all_digits(d) && decimal_value(d) <= max),
            }
        }),
{
    let ghost d = s@.subrange(start as int, s@.len() as int);
    if start >= s.len() {
        return None;
    }
    let mut acc: u64 = 0;
    let mut i: usize = start;
    while i < s.len()
        invariant
            start <= i <= s@.len(),
            d == s@.subrange(start as int, s@.len() as int),
            acc == decimal_value(d.take(i - start)),
            acc <= max,
            forall|k: int| 0 <= k < i - start ==> is_digit(#[trigger] d[k]),
        decreases s@.len() - i,
    {
        let c = s[i];
        proof {
            assert(d.take(i - start + 1).drop_last() =~= d.take(i - start));
            assert(d[i - start] == c);
        }
        let u = c as u32;
        if !(48 <= u && u <= 57) {
            proof {
                assert(!is_digit(d[i - start]));
                assert(!all_digits(d));
            }
            return None;
        }
        let dg: u64 = (u - 48) as u64;
        if dg > max || acc > (max - dg) / 10 {
            proof {
                assert(acc * 10 + dg > max) by (nonlinear_arith)
                    requires
                        dg > max || acc > (max - dg) / 10,
                        dg <= 9,
                ;
                assert(decimal_value(d.take(i - start + 1)) == acc * 10 + dg);
                if all_digits(d) {
                    lemma_decimal_prefix(d, i - start + 1);
                }
            }
            return None;
        }
        proof {
            assert(acc * 10 + dg <= max) by (nonlinear_arith)
                requires
                    dg <= max,
                    acc <= (max - dg) / 10,
            ;
        }
        acc = acc * 10 + dg;
        i = i + 1;
    }
    proof {
        assert(d.take(d.len() as int) =~= d);
    }
    Some(acc)
}

/// `str::parse` for an unsigned integer type whose largest value is `max`.
pub(crate) fn parse_unsigned(s: &Vec<char>, max: u64) -> (r: Option<u64>)
    ensures
        r matches Some(v) ==> parse_uint(s@, max as int) == Some(v as int),
        r is None ==> parse_uint(s@, max as int) is None,
{
    let start: usize = if s.len() > 0 && s[0] == '+' {
        1
    } else {
        0
    };
    proof {
        assert(unsigned_digits(s@) =~= s@.subrange(start as int, s@.len() as int));
    }
    parse_digits_from(s, start, max)
}

/// What `str::parse::<i32>` gives: an optional sign, then at least one
/// decimal digit, the value inside the range of `i32`.
pub open spec fn parse_i32_spec(s: Seq<char>) -> Option<int> {
    if s.len() > 0 && s[0] == '-' {
        let d = s.drop_first();
        if d.len() > 0 && all_digits(d) && decimal_value(d) <= 2147483648 {
            Some(-decimal_value(d))
        } else {
            None
        }
    } else {
        parse_uint(s, 2147483647)
    }
}

/// `str::parse::<i32>`.
pub(crate) fn parse_signed(s: &Vec<char>) -> (r: Option<i32>)
    ensures
        r matches Some(v) ==> parse_i32_spec(s@) == Some(v as int),
        r is None ==> parse_i32_spec(s@) is None,
{
    if s.len() > 0 && s[0] == '-' {
        proof {
            assert(s@.drop_first() =~= s@.subrange(1, s@.len() as int));
        }
        match parse_digits_from(s, 1, 2147483648) {
            Some(v) => {
                if v == 2147483648 {
                    Some(i32::MIN)
                } else {
                    Some(-(v as i32))
                }
            },
            None => None,
        }
    } else {
        match parse_unsigned(s, 2147483647) {
            Some(v) => Some(v as i32),
            None => None,
        }
    }
}

proof fn lemma_decimal_prefix(d: Seq<char>, k: int)
    requires
        0 <= k <= d.len(),
        forall|i: int| 0 <= i < d.len() ==> is_digit(#[trigger] d[i]),
    ensures
        decimal_value(d.take(k)) <= decimal_value(d),
    decreases d.len() - k,
{
    if k < d.len() {
        lemma_decimal_prefix(d, k + 1);
        assert(d.take(k + 1).drop_last() =~= d.take(k));
        assert(decimal_value(d.take(k + 1)) == decimal_value(d.take(k)) * 10 + digit_of(d[k]));
        assert(decimal_value(d.take(k)) >= 0) by {
            lemma_decimal_nonneg(d.take(k));
        }
    } else {
        assert(d.take(k) =~= d);
    }
}

proof fn lemma_decimal_nonneg(d: Seq<char>)
    requires
        forall|i: int| 0 <= i < d.len() ==> is_digit(#[trigger] d[i]),
    ensures
        decimal_value(d) >= 0,
    decreases d.len(),
{
    if d.len() > 0 {
        lemma_decimal_nonneg(d.drop_last());
        assert(is_digit(d[d.len() - 1]));
    }
}


proof fn lemma_clash_prefix(f: Seq<char>, i: int)
    requires
        0 <= i <= f.len(),
        clash(f.take(i)),
    ensures
        clash(f),
    decreases f.len() - i,
{
    if i < f.len() {
        assert(f.take(i + 1).drop_last() =~= f.take(i));
        lemma_clash_prefix(f, i + 1);
    } else {
        assert(f.take(i) =~= f);
    }
}

proof fn lemma_field_lengths(s: Seq<char>)
    ensures
        forall|k: int| 0 <= k < fields(s).len() ==> #[trigger] fields(s)[k].len() <= s.len(),
    decreases s.len(),
{
    if s.len() > 0 {
        let pre = fields(s.drop_last());
        lemma_field_lengths(s.drop_last());
        let c = s.last();
        if !is_ws(c) && s.len() >= 2 && !is_ws(s[s.len() - 2]) {
            lemma_fields_nonempty(s.drop_last());
            assert(pre[pre.len() - 1].len() <= s.len() - 1);
            assert forall|k: int| 0 <= k < fields(s).len() implies #[trigger] fields(s)[k].len() <= s.len() by {
                if k < pre.len() - 1 {
                    assert(fields(s)[k] == pre[k]);
                }
            }
        } else if !is_ws(c) {
            assert forall|k: int| 0 <= k < fields(s).len() implies #[trigger] fields(s)[k].len() <= s.len() by {
                if k < pre.len() {
                    assert(fields(s)[k] == pre[k]);
                }
            }
        }
    }
}

/// Whether the en passant field `f` can be read.
fn ep_field_ok(f: &Vec<char>) -> (r: bool)
    ensures
        r == ep_ok(f@),
{
    if f.len() == 1 && f[0] == '-' {
        proof {
            assert(f@ =~= seq!['-']);
        }
        return true;
    }
    proof {
        if f@ == seq!['-'] {
            assert(f@.len() == 1 && f@[0] == '-');
        }
    }
    if f.len() < 2 {
        return false;
    }
    let lo0 = (f[0] as u32) % 256;
    let lo1 = (f[1] as u32) % 256;
    lo0 >= 97 && lo1 >= 49 && (lo1 - 49) * 8 + (lo0 - 97) < 64
}

/// Whether `Board::from_fen` can read `fen`: false exactly when a piece of
/// the placement field lands off the board, or the placement is well formed
/// and the en passant field names no square.  The length bound is that of
/// `Board::from_fen`.
pub fn fen_readable(fen: &str) -> (r: bool)
    requires
        fen@.len() <= 238_609_287,
    ensures
        r == !fen_breaks(fen@),
{
    let chars = to_chars(fen);
    let parts = split_fields(&chars);
    let ghost fs = fields(fen@);
    proof {
        assert(views(parts@).len() == parts@.len());
        lemma_field_lengths(fen@);
    }
    if parts.len() < 4 {
        return true;
    }
    let place = &parts[0];
    let ghost f0 = fs[0];
    proof {
        assert(place@ == views(parts@)[0]);
        assert(f0.len() <= 238_609_287);
    }
    let mut rank: i32 = 7;
    let mut file: i32 = 0;
    let mut i: usize = 0;
    while i < place.len()
        invariant
            place@ == f0,
            f0.len() <= 238_609_287,
            i <= f0.len(),
            rank == place_pos(f0.take(i as int)).0,
            file == place_pos(f0.take(i as int)).1,
            place_status(f0.take(i as int)) == 0,
            fs == fields(fen@),
            fs.len() >= 4,
            f0 == fs[0],
        decreases f0.len() - i,
    {
        let ch = place[i];
        let ghost pre = f0.take(i as int);
        proof {
            assert(f0.take(i + 1).drop_last() =~= pre);
            assert(f0.take(i + 1).last() == ch);
            lemma_place_bounds(pre);
        }
        let u = ch as u32;
        if ch == '/' {
            rank = rank - 1;
            file = 0;
        } else if 48 <= u && u <= 57 {
            file = file + (u as i32 - 48);
        } else {
            match piece_from_char(ch) {
                None => {
                    proof {
                        assert(place_status(f0.take(i + 1)) == 1);
                        lemma_status_prefix(f0, i + 1);
                    }
                    return true;
                },
                Some(_) => {
                    let v = rank * 8 + file;
                    let rem = v % 256;
                    let sqv: i32 = if rem < 0 {
                        rem + 256
                    } else {
                        rem
                    };
                    proof {
                        assert(sqv == next_square(pre));
                    }
                    if sqv >= 64 {
                        proof {
                            assert(place_status(f0.take(i + 1)) == 2);
                            lemma_status_prefix(f0, i + 1);
                        }
                        return false;
                    }
                    file = file + 1;
                },
            }
        }
        i = i + 1;
    }
    proof {
        assert(f0.take(f0.len() as int) =~= f0);
        assert(parts@[3]@ == views(parts@)[3]);
    }
    ep_field_ok(&parts[3])
}

impl Board {
    /// The position the FEN string `fen` describes: piece placement, side to
    /// move, castling rights, en passant square and, when present, the two
    /// move counters (a counter that does not parse reads as 0 and 1). The
    /// key is computed from scratch; the accumulator is left empty.  The
    /// square counters of the placement field are `i32`: a string of at most
    /// 238,609,287 characters keeps `rank * 8 + file` within them.
    #[verifier::rlimit(50)]
    pub fn from_fen(fen: &str, nnue: Arc<NNUE>) -> (r: Option<Board>)
        requires
            nnue.wf(),
            fen@.len() <= 238_609_287,
            !fen_breaks(fen@),
        ensures
            r is None <==> fen_refused(fen@),
            r matches Some(b) ==> b.wf() && fen_describes(fen@, b) && b.nnue == nnue,
    {
        let chars = to_chars(fen);
        let parts = split_fields(&chars);
        let ghost fs = fields(fen@);
        proof {
            assert(views(parts@).len() == parts@.len());
            lemma_field_lengths(fen@);
        }
        if parts.len() < 4 {
            return None;
        }
        let mut board = Board::empty(nnue);
        let place = &parts[0];
        let ghost f0 = fs[0];
        proof {
            assert(place@ == views(parts@)[0]);
            assert(place@ == f0);
            assert(f0.len() <= 238_609_287);
        }
        let mut rank: i32 = 7;
        let mut file: i32 = 0;
        let mut i: usize = 0;
        while i < place.len()
            invariant
                place@ == f0,
                f0.len() <= 238_609_287,
                place_status(f0) != 2,
                i <= f0.len(),
                rank == place_pos(f0.take(i as int)).0,
                file == place_pos(f0.take(i as int)).1,
                place_status(f0.take(i as int)) == 0,
                !clash(f0.take(i as int)),
                forall|s: int| 0 <= s < 64 ==> board.piece_on_sq[s] == placed_at(f0.take(i as int), s),
                board.parts_ok(),
                board.side_to_move == Color::White,
                board.en_passant is None,
                board.castling.0 == 0,
                board.halfmove_clock == 0,
                board.fullmove_number == 1,
                board.position_history@.len() == 0,
                board.nnue == nnue,
                fs == fields(fen@),
                f0 == fs[0],
            decreases f0.len() - i,
        {
            let ch = place[i];
            let ghost pre = f0.take(i as int);
            proof {
                assert(f0.take(i + 1).drop_last() =~= pre);
                assert(f0.take(i + 1).last() == ch);
                lemma_place_bounds(pre);
            }
            let u = ch as u32;
            if ch == '/' {
                rank = rank - 1;
                file = 0;
            } else if 48 <= u && u <= 57 {
                file = file + (u as i32 - 48);
            } else {
                match piece_from_char(ch) {
                    None => {
                        proof {
                            assert(place_status(f0.take(i + 1)) == 1);
                            lemma_status_prefix(f0, i + 1);
                        }
                        return None;
                    },
                    Some(piece) => {
                        let v = rank * 8 + file;
                        let rem = v % 256;
                        let sqv: i32 = if rem < 0 {
                            rem + 256
                        } else {
                            rem
                        };
                        proof {
                            assert(sqv == next_square(pre));
                            if sqv >= 64 {
                                assert(place_status(f0.take(i + 1)) == 2);
                                lemma_status_prefix(f0, i + 1);
                            }
                        }
                        let sq = sqv as u8;
                        if board.piece_on_sq[sq as usize].is_some() {
                            proof {
                                assert(clash(f0.take(i + 1)));
                                lemma_clash_prefix(f0, i + 1);
                            }
                            return None;
                        }
                        board.put_piece(piece, Square::new(sq));
                        file = file + 1;
                    },
                }
            }
            i = i + 1;
            proof {
                assert forall|s: int| 0 <= s < 64 implies board.piece_on_sq[s] == placed_at(f0.take(i as int), s) by {
                    assert(f0.take(i as int).drop_last() =~= pre);
                }
            }
        }
        proof {
            assert(f0.take(f0.len() as int) =~= f0);
        }
        let side_field = &parts[1];
        proof {
            assert(side_field@ == views(parts@)[1]);
        }
        board.side_to_move = if side_field.len() == 1 && side_field[0] == 'w' {
            proof {
                assert(side_field@ =~= seq!['w']);
            }
            Color::White
        } else {
            Color::Black
        };
        let cfield = &parts[2];
        proof {
            assert(cfield@ == views(parts@)[2]);
        }
        let mut c_rights: u8 = 0;
        let mut k: usize = 0;
        while k < cfield.len()
            invariant
                k <= cfield@.len(),
                c_rights == castle_bits(cfield@.take(k as int)),
            decreases cfield@.len() - k,
        {
            let ch = cfield[k];
            proof {
                assert(cfield@.take(k + 1).drop_last() =~= cfield@.take(k as int));
                assert(cfield@.take(k + 1).last() == ch);
            }
            if ch == 'K' {
                c_rights = c_rights | CastlingRights::WK;
            } else if ch == 'Q' {
                c_rights = c_rights | CastlingRights::WQ;
            } else if ch == 'k' {
                c_rights = c_rights | CastlingRights::BK;
            } else if ch == 'q' {
                c_rights = c_rights | CastlingRights::BQ;
            }
            k = k + 1;
        }
        proof {
            assert(cfield@.take(cfield@.len() as int) =~= cfield@);
        }
        board.castling = CastlingRights::new(c_rights);
        let efield = &parts[3];
        proof {
            assert(efield@ == views(parts@)[3]);
        }
        if efield.len() == 1 && efield[0] == '-' {
            proof {
                assert(efield@ =~= seq!['-']);
            }
        } else {
            proof {
                assert(efield@ != seq!['-']);
                assert(ep_ok(efield@));
            }
            let lo0 = ((efield[0] as u32) % 256) as u8;
            let lo1 = ((efield[1] as u32) % 256) as u8;
            let ep_file = lo0 - 97;
            let ep_rank = lo1 - 49;
            let sq = ep_rank * 8 + ep_file;
            board.en_passant = Some(Square::new(sq));
        }
        if parts.len() >= 5 {
            proof {
                assert(parts@[4]@ == views(parts@)[4]);
            }
            board.halfmove_clock = match parse_unsigned(&parts[4], 255) {
                Some(v) => v as u8,
                None => 0,
            };
        }
        if parts.len() >= 6 {
            proof {
                assert(parts@[5]@ == views(parts@)[5]);
            }
            board.fullmove_number = match parse_unsigned(&parts[5], 65535) {
                Some(v) => v as u16,
                None => 1,
            };
        }
        board.zobrist_key = board.compute_hash();
        Some(board)
    }
}


/// The FEN letter of a piece: upper case for White.
pub open spec fn char_of_piece(p: Piece) -> char {
    let c = match p.spec_piece_type() {
        PieceType::Pawn => 'p',
        PieceType::Knight => 'n',
        PieceType::Bishop => 'b',
        PieceType::Rook => 'r',
        PieceType::Queen => 'q',
        PieceType::King => 'k',
    };
    if p.spec_color() == Color::White {
        ((c as u32) - 32) as char
    } else {
        c
    }
}

fn piece_char(p: Piece) -> (c: char)
    ensures
        c == char_of_piece(p),
{
    let white = p.color() == Color::White;
    match p.piece_type() {
        PieceType::Pawn => if white { 'P' } else { 'p' },
        PieceType::Knight => if white { 'N' } else { 'n' },
        PieceType::Bishop => if white { 'B' } else { 'b' },
        PieceType::Rook => if white { 'R' } else { 'r' },
        PieceType::Queen => if white { 'Q' } else { 'q' },
        PieceType::King => if white { 'K' } else { 'k' },
    }
}

/// The character of a decimal digit.
pub open spec fn digit_char(n: int) -> char {
    ((48 + n) as u8) as char
}

fn digit(n: u32) -> (c: char)
    requires
        n < 10,
    ensures
        c == digit_char(n as int),
{
    ((48 + n) as u8) as char
}

/// Decimal digits of `n`, most significant first.
pub open spec fn decimal_text(n: nat) -> Seq<char>
    decreases n,
{
    if n < 10 {
        seq![digit_char(n as int)]
    } else {
        decimal_text(n / 10) + seq![digit_char((n % 10) as int)]
    }
}

fn push_decimal(out: &mut Vec<char>, n: u32)
    ensures
        final(out)@ == old(out)@ + decimal_text(n as nat),
    decreases n,
{
    if n >= 10 {
        push_decimal(out, n / 10);
    }
    out.push(digit(n % 10));
    proof {
        assert(final(out)@ =~= old(out)@ + decimal_text(n as nat)) by {
            if n < 10 {
                assert(n % 10 == n);
            }
        }
    }
}

/// Rank `r` of the placement field from file `f` on, with `empty` empty
/// squares counted but not yet written.
pub open spec fn rank_text(b: &Board, r: int, f: int, empty: int) -> Seq<char>
    decreases 8 - f,
{
    if f >= 8 {
        if empty > 0 {
            seq![digit_char(empty)]
        } else {
            Seq::empty()
        }
    } else {
        match b.piece_on_sq[r * 8 + f] {
            Some(p) => (if empty > 0 {
                seq![digit_char(empty)]
            } else {
                Seq::empty()
            }) + seq![char_of_piece(p)] + rank_text(b, r, f + 1, 0),
            None => rank_text(b, r, f + 1, empty + 1),
        }
    }
}

/// The placement field from rank `r` down to the first rank.
pub open spec fn placement_text(b: &Board, r: int) -> Seq<char>
    decreases r,
{
    if r <= 0 {
        rank_text(b, 0, 0, 0)
    } else {
        rank_text(b, r, 0, 0) + seq!['/'] + placement_text(b, r - 1)
    }
}

/// The castling field: the letters of the rights held, or "-".
pub open spec fn castling_text(c: u8) -> Seq<char> {
    let t = (if c & 1 != 0 {
        seq!['K']
    } else {
        Seq::empty()
    }) + (if c & 2 != 0 {
        seq!['Q']
    } else {
        Seq::empty()
    }) + (if c & 4 != 0 {
        seq!['k']
    } else {
        Seq::empty()
    }) + (if c & 8 != 0 {
        seq!['q']
    } else {
        Seq::empty()
    });
    if t.len() == 0 {
        seq!['-']
    } else {
        t
    }
}

/// The en passant field: file letter and rank digit, or "-".
pub open spec fn ep_text(ep: Option<Square>) -> Seq<char> {
    match ep {
        Some(s) => seq![((s.0 % 8) + 97) as char, ((s.0 / 8) + 49) as char],
        None => seq!['-'],
    }
}

/// The FEN string of a position.
pub open spec fn fen_text(b: &Board) -> Seq<char> {
    placement_text(b, 7) + seq![' '] + seq![if b.side_to_move == Color::White {
        'w'
    } else {
        'b'
    }] + seq![' '] + castling_text(b.castling.0) + seq![' '] + ep_text(b.en_passant) + seq![' '] + decimal_text(
        b.halfmove_clock as nat,
    ) + seq![' '] + decimal_text(b.fullmove_number as nat)
}

/// Collects characters into a `String`.
#[verifier::external_body]
pub(crate) fn string_from_chars(v: &Vec<char>) -> (s: String)
    ensures
        s@ == v@,
{
    v.iter().collect()
}


fn push_castling(out: &mut Vec<char>, c: CastlingRights)
    ensures
        final(out)@ == old(out)@ + castling_text(c.0),
{
    let ghost c0 = out@;
    if c.has_wk() {
        out.push('K');
    }
    if c.has_wq() {
        out.push('Q');
    }
    if c.has_bk() {
        out.push('k');
    }
    if c.has_bq() {
        out.push('q');
    }
    if !c.has_wk() && !c.has_wq() && !c.has_bk() && !c.has_bq() {
        out.push('-');
    }
    proof {
        assert(out@ =~= c0 + castling_text(c.0));
    }
}

fn push_ep(out: &mut Vec<char>, ep: Option<Square>)
    requires
        ep matches Some(e) ==> e.0 < 64,
    ensures
        final(out)@ == old(out)@ + ep_text(ep),
{
    let ghost e0 = out@;
    match ep {
        Some(sq) => {
            out.push(((sq.0 % 8) + 97) as char);
            out.push(((sq.0 / 8) + 49) as char);
        },
        None => {
            out.push('-');
        },
    }
    proof {
        assert(out@ =~= e0 + ep_text(ep));
    }
}

impl Board {
    fn push_rank_text(&self, out: &mut Vec<char>, rank: i32)
        requires
            0 <= rank <= 7,
        ensures
            final(out)@ == old(out)@ + rank_text(self, rank as int, 0, 0),
    {
        let ghost before = out@;
        let mut empty: i32 = 0;
        let mut file: i32 = 0;
        while file < 8
            invariant
                0 <= rank <= 7,
                0 <= file <= 8,
                0 <= empty <= file,
                out@ + rank_text(self, rank as int, file as int, empty as int) == before + rank_text(self, rank as int, 0, 0),
            decreases 8 - file,
        {
            let ghost o = out@;
            let ghost e0 = empty as int;
            let sq = (rank * 8 + file) as usize;
            match self.piece_on_sq[sq] {
                Some(piece) => {
                    if empty > 0 {
                        out.push(digit(empty as u32));
                        empty = 0;
                    }
                    out.push(piece_char(piece));
                    proof {
                        assert(out@ + rank_text(self, rank as int, file + 1, 0) =~= o + rank_text(self, rank as int, file as int, e0));
                    }
                },
                None => {
                    empty = empty + 1;
                },
            }
            file = file + 1;
        }
        if empty > 0 {
            out.push(digit(empty as u32));
        }
        proof {
            assert(out@ =~= before + rank_text(self, rank as int, 0, 0));
        }
    }

    fn push_fields(&self, out: &mut Vec<char>)
        requires
            self.en_passant matches Some(e) ==> e.0 < 64,
        ensures
            final(out)@ == old(out)@ + seq![' '] + seq![if self.side_to_move == Color::White {
                'w'
            } else {
                'b'
            }] + seq![' '] + castling_text(self.castling.0) + seq![' '] + ep_text(self.en_passant) + seq![' ']
                + decimal_text(self.halfmove_clock as nat) + seq![' '] + decimal_text(self.fullmove_number as nat),
    {
        let ghost o = out@;
        out.push(' ');
        out.push(if self.side_to_move == Color::White { 'w' } else { 'b' });
        out.push(' ');
        let ghost o1 = out@;
        push_castling(out, self.castling);
        out.push(' ');
        let ghost o2 = out@;
        push_ep(out, self.en_passant);
        out.push(' ');
        let ghost o3 = out@;
        push_decimal(out, self.halfmove_clock as u32);
        out.push(' ');
        let ghost o4 = out@;
        push_decimal(out, self.fullmove_number as u32);
        proof {
            let side = seq![if self.side_to_move == Color::White {
                'w'
            } else {
                'b'
            }];
            assert(o1 =~= o + seq![' '] + side + seq![' ']);
            assert(o2 =~= o1 + castling_text(self.castling.0) + seq![' ']);
            assert(o3 =~= o2 + ep_text(self.en_passant) + seq![' ']);
            assert(o4 =~= o3 + decimal_text(self.halfmove_clock as nat) + seq![' ']);
        }
    }

    /// The FEN string of the position.
    pub fn fen(&self) -> (s: String)
        requires
            self.en_passant matches Some(e) ==> e.0 < 64,
        ensures
            s@ == fen_text(self),
    {
        let mut out: Vec<char> = Vec::new();
        let mut rank: i32 = 7;
        while rank >= 0
            invariant
                -1 <= rank <= 7,
                rank >= 0 ==> out@ + placement_text(self, rank as int) == placement_text(self, 7),
                rank < 0 ==> out@ == placement_text(self, 7),
            decreases rank + 1,
        {
            let ghost before = out@;
            self.push_rank_text(&mut out, rank);
            if rank > 0 {
                out.push('/');
                proof {
                    assert(before + placement_text(self, rank as int) =~= out@ + placement_text(self, rank - 1));
                }
            } else {
                proof {
                    assert(placement_text(self, 0) == rank_text(self, 0, 0, 0));
                    assert(out@ =~= before + placement_text(self, 0));
                }
            }
            rank = rank - 1;
        }
        self.push_fields(&mut out);
        proof {
            assert(out@ =~= fen_text(self));
        }
        string_from_chars(&out)
    }
}


/// The starting position.
pub const START_FEN: &'static str = "rnbqkbnr/pppppppp/8/8/8/8/PPPPPPPP/RNBQKBNR w KQkq - 0 1";

/// The piece on square `s` in the starting position.
pub open spec fn start_piece(s: int) -> Option<Piece> {
    let back = |f: int|
        if f == 0 || f == 7 {
            PieceType::Rook
        } else if f == 1 || f == 6 {
            PieceType::Knight
        } else if f == 2 || f == 5 {
            PieceType::Bishop
        } else if f == 3 {
            PieceType::Queen
        } else {
            PieceType::King
        };
    if 0 <= s < 8 {
        Some(Piece::spec_new(Color::White, back(s)))
    } else if 8 <= s < 16 {
        Some(Piece::spec_new(Color::White, PieceType::Pawn))
    } else if 48 <= s < 56 {
        Some(Piece::spec_new(Color::Black, PieceType::Pawn))
    } else if 56 <= s < 64 {
        Some(Piece::spec_new(Color::Black, back(s - 56)))
    } else {
        None
    }
}

fn start_piece_at(s: u8) -> (p: Option<Piece>)
    requires
        s < 64,
    ensures
        p == start_piece(s as int),
        p matches Some(q) ==> q.wf(),
{
    let f = s % 8;
    let back = if f == 0 || f == 7 {
        PieceType::Rook
    } else if f == 1 || f == 6 {
        PieceType::Knight
    } else if f == 2 || f == 5 {
        PieceType::Bishop
    } else if f == 3 {
        PieceType::Queen
    } else {
        PieceType::King
    };
    if s < 8 {
        Some(Piece::new(Color::White, back))
    } else if s < 16 {
        Some(Piece::new(Color::White, PieceType::Pawn))
    } else if s < 48 {
        None
    } else if s < 56 {
        Some(Piece::new(Color::Black, PieceType::Pawn))
    } else {
        Some(Piece::new(Color::Black, back))
    }
}

impl Board {
    /// The starting position (the one `START_FEN` describes), its key
    /// computed from scratch and its accumulator left empty.
    pub fn new(nnue: Arc<NNUE>) -> (b: Board)
        requires
            nnue.wf(),
        ensures
            b.wf(),
            forall|s: int| 0 <= s < 64 ==> b.piece_on_sq[s] == start_piece(s),
            b.side_to_move == Color::White,
            b.castling.0 == CastlingRights::ANY,
            b.en_passant is None,
            b.halfmove_clock == 0,
            b.fullmove_number == 1,
            b.position_history@.len() == 0,
            b.nnue == nnue,
    {
        let mut board = Board::empty(nnue);
        let mut s: u8 = 0;
        while s < 64
            invariant
                s <= 64,
                board.parts_ok(),
                forall|t: int| 0 <= t < 64 ==> board.piece_on_sq[t] == (if t < s {
                    start_piece(t)
                } else {
                    None
                }),
                board.side_to_move == Color::White,
                board.en_passant is None,
                board.castling.0 == 0,
                board.halfmove_clock == 0,
                board.fullmove_number == 1,
                board.position_history@.len() == 0,
                board.nnue == nnue,
            decreases 64 - s,
        {
            match start_piece_at(s) {
                Some(p) => {
                    board.put_piece(p, Square::new(s));
                },
                None => {},
            }
            s = s + 1;
        }
        board.castling = CastlingRights::new(CastlingRights::ANY);
        board.zobrist_key = board.compute_hash();
        board
    }
}


// Reading back the FEN string of a position.

proof fn lemma_digit_char(n: int)
    requires
        0 <= n <= 9,
    ensures
        is_digit(digit_char(n)),
        digit_of(digit_char(n)) == n,
        !is_ws(digit_char(n)),
        digit_char(n) != '/',
        digit_char(n) != '+',
        piece_of_char(digit_char(n)) is None,
{
}

proof fn lemma_piece_char(p: Piece)
    requires
        p.wf(),
    ensures
        piece_of_char(char_of_piece(p)) == Some(p),
        !is_digit(char_of_piece(p)),
        char_of_piece(p) != '/',
        !is_ws(char_of_piece(p)),
{
}

/// The fields of `x`, a space, then `y`: those of `x`, then those of `y`.
proof fn lemma_fields_space(x: Seq<char>, y: Seq<char>)
    ensures
        fields(x + seq![' '] + y) == fields(x) + fields(y),
    decreases y.len(),
{
    let p = x + seq![' '];
    assert(p.drop_last() =~= x);
    if y.len() == 0 {
        assert(p + y =~= p);
        assert(fields(y) =~= Seq::<Seq<char>>::empty());
        assert(fields(x) + fields(y) =~= fields(x));
    } else {
        lemma_fields_space(x, y.drop_last());
        let s = p + y;
        assert(s.drop_last() =~= p + y.drop_last());
        assert(s.last() == y.last());
        if is_ws(y.last()) {
            assert(fields(s) =~= fields(x) + fields(y));
        } else if y.len() >= 2 && !is_ws(y[y.len() - 2]) {
            assert(s[s.len() - 2] == y[y.len() - 2]);
            lemma_fields_nonempty(y.drop_last());
            assert(fields(s) =~= fields(x) + fields(y));
        } else {
            if y.len() >= 2 {
                assert(s[s.len() - 2] == y[y.len() - 2]);
            } else {
                assert(s[s.len() - 2] == ' ');
            }
            assert(fields(s) =~= fields(x) + fields(y));
        }
    }
}

/// A word without white space is a single field.
proof fn lemma_fields_word(w: Seq<char>)
    requires
        w.len() >= 1,
        forall|i: int| 0 <= i < w.len() ==> !is_ws(#[trigger] w[i]),
    ensures
        fields(w) == seq![w],
    decreases w.len(),
{
    if w.len() == 1 {
        assert(w.drop_last() =~= Seq::<char>::empty());
        assert(fields(w.drop_last()) =~= Seq::<Seq<char>>::empty());
        assert(seq![w.last()] =~= w);
        assert(fields(w) =~= seq![w]);
    } else {
        lemma_fields_word(w.drop_last());
        assert(w.drop_last().push(w.last()) =~= w);
        assert(fields(w) =~= seq![w]);
    }
}

/// The decimal text of a number reads back as that number.
proof fn lemma_decimal_text(n: nat)
    ensures
        decimal_text(n).len() >= 1,
        all_digits(decimal_text(n)),
        decimal_value(decimal_text(n)) == n,
        decimal_text(n)[0] != '+',
        forall|i: int| 0 <= i < decimal_text(n).len() ==> !is_ws(#[trigger] decimal_text(n)[i]),
    decreases n,
{
    let t = decimal_text(n);
    if n < 10 {
        lemma_digit_char(n as int);
        assert(t.drop_last() =~= Seq::<char>::empty());
        assert(decimal_value(t) == decimal_value(t.drop_last()) * 10 + digit_of(t.last()));
    } else {
        lemma_decimal_text(n / 10);
        lemma_digit_char((n % 10) as int);
        let u = decimal_text(n / 10);
        assert(t.drop_last() =~= u);
        assert(t.last() == digit_char((n % 10) as int));
        assert(decimal_value(t) == decimal_value(t.drop_last()) * 10 + digit_of(t.last()));
        assert(decimal_value(t) == (n / 10) * 10 + n % 10);
        assert(t[0] == u[0]);
        assert forall|i: int| 0 <= i < t.len() implies is_digit(#[trigger] t[i]) && !is_ws(t[i]) by {
            if i < u.len() {
                assert(t[i] == u[i]);
            }
        }
    }
}

proof fn lemma_parse_decimal(n: nat, max: int)
    requires
        n <= max,
    ensures
        parse_uint(decimal_text(n), max) == Some(n as int),
{
    lemma_decimal_text(n);
    assert(unsigned_digits(decimal_text(n)) == decimal_text(n));
}

/// The four rights bits of a value below 16 rebuild it.
proof fn castling_word_fact(c: u8)
    by (bit_vector)
    ensures
        c < 16 ==> (if c & 8 != 0 {
            (if c & 4 != 0 {
                (if c & 2 != 0 {
                    (if c & 1 != 0 { 0u8 | 1u8 } else { 0u8 }) | 2u8
                } else {
                    (if c & 1 != 0 { 0u8 | 1u8 } else { 0u8 })
                }) | 4u8
            } else {
                (if c & 2 != 0 {
                    (if c & 1 != 0 { 0u8 | 1u8 } else { 0u8 }) | 2u8
                } else {
                    (if c & 1 != 0 { 0u8 | 1u8 } else { 0u8 })
                })
            }) | 8u8
        } else {
            (if c & 4 != 0 {
                (if c & 2 != 0 {
                    (if c & 1 != 0 { 0u8 | 1u8 } else { 0u8 }) | 2u8
                } else {
                    (if c & 1 != 0 { 0u8 | 1u8 } else { 0u8 })
                }) | 4u8
            } else {
                (if c & 2 != 0 {
                    (if c & 1 != 0 { 0u8 | 1u8 } else { 0u8 }) | 2u8
                } else {
                    (if c & 1 != 0 { 0u8 | 1u8 } else { 0u8 })
                })
            })
        }) == c,
{
}

/// Reading one more character of a castling field.
proof fn lemma_castle_bits_step(t: Seq<char>, present: bool, ch: char)
    ensures
        castle_bits(t + (if present { seq![ch] } else { Seq::empty() })) == (if present {
            castle_bits(t + seq![ch])
        } else {
            castle_bits(t)
        }),
        castle_bits(t + seq![ch]) == (if ch == 'K' {
            castle_bits(t) | CastlingRights::WK
        } else if ch == 'Q' {
            castle_bits(t) | CastlingRights::WQ
        } else if ch == 'k' {
            castle_bits(t) | CastlingRights::BK
        } else if ch == 'q' {
            castle_bits(t) | CastlingRights::BQ
        } else {
            castle_bits(t)
        }),
{
    assert((t + seq![ch]).drop_last() =~= t);
    if !present {
        assert(t + Seq::<char>::empty() =~= t);
    }
}

/// The castling field reads back as the rights it was written from.
proof fn lemma_castling_text(c: u8)
    requires
        c < 16,
    ensures
        castle_bits(castling_text(c)) == c,
        castling_text(c).len() >= 1,
        forall|i: int| 0 <= i < castling_text(c).len() ==> !is_ws(#[trigger] castling_text(c)[i]),
{
    let e = Seq::<char>::empty();
    let t1 = e + (if c & 1 != 0 { seq!['K'] } else { Seq::empty() });
    let t2 = t1 + (if c & 2 != 0 { seq!['Q'] } else { Seq::empty() });
    let t3 = t2 + (if c & 4 != 0 { seq!['k'] } else { Seq::empty() });
    let t4 = t3 + (if c & 8 != 0 { seq!['q'] } else { Seq::empty() });
    lemma_castle_bits_step(e, c & 1 != 0, 'K');
    lemma_castle_bits_step(t1, c & 2 != 0, 'Q');
    lemma_castle_bits_step(t2, c & 4 != 0, 'k');
    lemma_castle_bits_step(t3, c & 8 != 0, 'q');
    castling_word_fact(c);
    assert(castle_bits(e) == 0);
    let t = (if c & 1 != 0 { seq!['K'] } else { Seq::empty() }) + (if c & 2 != 0 {
        seq!['Q']
    } else {
        Seq::empty()
    }) + (if c & 4 != 0 { seq!['k'] } else { Seq::empty() }) + (if c & 8 != 0 {
        seq!['q']
    } else {
        Seq::empty()
    });
    assert(t =~= t4);
    if t.len() == 0 {
        assert(c & 1 == 0 && c & 2 == 0 && c & 4 == 0 && c & 8 == 0);
        assert(castling_text(c) == seq!['-']);
        assert(seq!['-'].drop_last() =~= e);
    }
}

/// How reading one more character of a placement field changes its
/// position, status, pieces and clashes.
proof fn lemma_read_char(p: Seq<char>, c: char)
    ensures
        place_pos(p + seq![c]) == (if c == '/' {
            (place_pos(p).0 - 1, 0)
        } else if is_digit(c) {
            (place_pos(p).0, place_pos(p).1 + digit_of(c))
        } else {
            (place_pos(p).0, place_pos(p).1 + 1)
        }),
        place_status(p + seq![c]) == (if place_status(p) != 0 {
            place_status(p)
        } else if c == '/' || is_digit(c) {
            0
        } else if piece_of_char(c) is None {
            1
        } else if next_square(p) < 64 {
            0
        } else {
            2
        }),
        forall|s: int|
            #[trigger] placed_at(p + seq![c], s) == (if piece_of_char(c) is Some && next_square(p) == s {
                piece_of_char(c)
            } else {
                placed_at(p, s)
            }),
        clash(p + seq![c]) == (clash(p) || (piece_of_char(c) is Some && placed_at(p, next_square(p)) is Some)),
{
    let q = p + seq![c];
    assert(q.drop_last() =~= p);
    assert(q.last() == c);
}

/// Square `s` comes before rank `r`, file `f` in the order the placement
/// field is written: on a higher rank, or on that rank at a lower file.
spec fn written_before(s: int, r: int, f: int) -> bool {
    0 <= s < 64 && (s / 8 > r || (s / 8 == r && s % 8 < f))
}

/// Having read `p`, the placement field stands at rank `r`, file `f`, well
/// formed and without clash, and has put the pieces of `b` on exactly the
/// squares written before that point.
spec fn placed_upto(p: Seq<char>, b: &Board, r: int, f: int) -> bool {
    &&& place_pos(p) == (r, f)
    &&& place_status(p) == 0
    &&& !clash(p)
    &&& forall|s: int|
        0 <= s < 64 ==> #[trigger] placed_at(p, s) == (if written_before(s, r, f) {
            b.piece_on_sq[s]
        } else {
            None
        })
    &&& forall|i: int| 0 <= i < p.len() ==> !is_ws(#[trigger] p[i])
}

/// Writing the pending empty squares as a digit, if there are any.
proof fn lemma_pending_digit(p: Seq<char>, b: &Board, r: int, f: int, empty: int)
    requires
        0 <= r <= 7,
        0 <= empty <= f <= 8,
        empty <= 8,
        placed_upto(p, b, r, f - empty),
        forall|k: int| f - empty <= k < f ==> #[trigger] b.piece_on_sq[r * 8 + k] is None,
    ensures
        placed_upto(p + (if empty > 0 { seq![digit_char(empty)] } else { Seq::empty() }), b, r, f),
{
    if empty > 0 {
        let d = digit_char(empty);
        lemma_digit_char(empty);
        lemma_read_char(p, d);
        let q = p + seq![d];
        assert forall|s: int| 0 <= s < 64 implies #[trigger] placed_at(q, s) == (if written_before(s, r, f) {
            b.piece_on_sq[s]
        } else {
            None
        }) by {
            assert(placed_at(q, s) == placed_at(p, s));
            if written_before(s, r, f) && !written_before(s, r, f - empty) {
                assert(s == r * 8 + s % 8);
                assert(b.piece_on_sq[r * 8 + s % 8] is None);
            }
        }
        assert forall|i: int| 0 <= i < q.len() implies !is_ws(#[trigger] q[i]) by {
            if i < p.len() {
                assert(q[i] == p[i]);
            }
        }
    } else {
        assert(p + Seq::<char>::empty() =~= p);
    }
}

/// Reading rank `r` of the placement text from file `f` on, with `empty`
/// empty squares pending, completes the rank.
proof fn lemma_rank_text(p: Seq<char>, b: &Board, r: int, f: int, empty: int)
    requires
        0 <= r <= 7,
        0 <= empty <= f <= 8,
        placed_upto(p, b, r, f - empty),
        forall|k: int| f - empty <= k < f ==> #[trigger] b.piece_on_sq[r * 8 + k] is None,
        forall|s: int| 0 <= s < 64 && #[trigger] b.piece_on_sq[s] is Some ==> b.piece_on_sq[s].unwrap().wf(),
    ensures
        placed_upto(p + rank_text(b, r, f, empty), b, r, 8),
    decreases 8 - f,
{
    if f >= 8 {
        lemma_pending_digit(p, b, r, f, empty);
    } else {
        match b.piece_on_sq[r * 8 + f] {
            Some(pc) => {
                let dig = if empty > 0 { seq![digit_char(empty)] } else { Seq::empty() };
                lemma_pending_digit(p, b, r, f, empty);
                let p1 = p + dig;
                let c = char_of_piece(pc);
                lemma_piece_char(pc);
                lemma_read_char(p1, c);
                let p2 = p1 + seq![c];
                assert(next_square(p1) == r * 8 + f);
                assert(!written_before(r * 8 + f, r, f));
                assert(placed_at(p1, r * 8 + f) is None);
                assert forall|s: int| 0 <= s < 64 implies #[trigger] placed_at(p2, s) == (if written_before(s, r, f + 1) {
                    b.piece_on_sq[s]
                } else {
                    None
                }) by {
                    if s != r * 8 + f {
                        assert(placed_at(p2, s) == placed_at(p1, s));
                        if written_before(s, r, f + 1) {
                            assert(written_before(s, r, f));
                        }
                    }
                }
                assert forall|i: int| 0 <= i < p2.len() implies !is_ws(#[trigger] p2[i]) by {
                    if i < p1.len() {
                        assert(p2[i] == p1[i]);
                    }
                }
                assert(placed_upto(p2, b, r, f + 1));
                lemma_rank_text(p2, b, r, f + 1, 0);
                assert(p + rank_text(b, r, f, empty) =~= p2 + rank_text(b, r, f + 1, 0));
            },
            None => {
                lemma_rank_text(p, b, r, f + 1, empty + 1);
            },
        }
    }
}

/// Reading the placement text from rank `r` down completes the board.
proof fn lemma_placement_text(p: Seq<char>, b: &Board, r: int)
    requires
        0 <= r <= 7,
        placed_upto(p, b, r, 0),
        forall|s: int| 0 <= s < 64 && #[trigger] b.piece_on_sq[s] is Some ==> b.piece_on_sq[s].unwrap().wf(),
    ensures
        placed_upto(p + placement_text(b, r), b, 0, 8),
    decreases r,
{
    lemma_rank_text(p, b, r, 0, 0);
    let q = p + rank_text(b, r, 0, 0);
    if r > 0 {
        lemma_read_char(q, '/');
        let q1 = q + seq!['/'];
        assert forall|s: int| 0 <= s < 64 implies #[trigger] placed_at(q1, s) == (if written_before(s, r - 1, 0) {
            b.piece_on_sq[s]
        } else {
            None
        }) by {
            assert(placed_at(q1, s) == placed_at(q, s));
            assert(written_before(s, r - 1, 0) == written_before(s, r, 8));
        }
        assert forall|i: int| 0 <= i < q1.len() implies !is_ws(#[trigger] q1[i]) by {
            if i < q.len() {
                assert(q1[i] == q[i]);
            }
        }
        lemma_placement_text(q1, b, r - 1);
        assert(p + placement_text(b, r) =~= q1 + placement_text(b, r - 1));
    } else {
        assert(placement_text(b, 0) == rank_text(b, 0, 0, 0));
    }
}

/// The en passant field reads back as the square it was written from.
proof fn lemma_ep_text(ep: Option<Square>)
    requires
        ep matches Some(e) ==> e.0 < 64,
    ensures
        ep_ok(ep_text(ep)),
        ep_of(ep_text(ep)) == ep,
        ep_text(ep).len() >= 1,
        forall|i: int| 0 <= i < ep_text(ep).len() ==> !is_ws(#[trigger] ep_text(ep)[i]),
{
    match ep {
        Some(e) => {
            let t = ep_text(ep);
            assert(low_byte(t[0]) == e.0 % 8 + 97);
            assert(low_byte(t[1]) == e.0 / 8 + 49);
            assert(t != seq!['-']) by {
                assert(t.len() != seq!['-'].len());
            }
        },
        None => {},
    }
}

/// Reading the FEN string of a position gives the position back: the string
/// is accepted, and it names the same pieces on the same squares, the same
/// side to move, castling rights, en passant square and move counters.
pub proof fn lemma_fen_roundtrip(b: Board)
    requires
        b.wf(),
        b.castling.0 < 16,
    ensures
        !fen_breaks(fen_text(&b)),
        !fen_refused(fen_text(&b)),
        fen_position(fen_text(&b), b),
{
    let sp = seq![' '];
    let t0 = placement_text(&b, 7);
    let t1 = seq![if b.side_to_move == Color::White { 'w' } else { 'b' }];
    let t2 = castling_text(b.castling.0);
    let t3 = ep_text(b.en_passant);
    let t4 = decimal_text(b.halfmove_clock as nat);
    let t5 = decimal_text(b.fullmove_number as nat);
    // The placement field.
    assert(placed_upto(Seq::<char>::empty(), &b, 7, 0)) by {
        assert forall|s: int| 0 <= s < 64 implies #[trigger] placed_at(Seq::<char>::empty(), s) == (if written_before(s, 7, 0) {
            b.piece_on_sq[s]
        } else {
            None
        }) by {}
    }
    lemma_placement_text(Seq::<char>::empty(), &b, 7);
    assert(Seq::<char>::empty() + t0 =~= t0);
    assert(t0.len() >= 1) by {
        assert(t0 == rank_text(&b, 7, 0, 0) + seq!['/'] + placement_text(&b, 6));
    }
    // The other fields.
    lemma_castling_text(b.castling.0);
    lemma_ep_text(b.en_passant);
    lemma_decimal_text(b.halfmove_clock as nat);
    lemma_decimal_text(b.fullmove_number as nat);
    lemma_parse_decimal(b.halfmove_clock as nat, 255);
    lemma_parse_decimal(b.fullmove_number as nat, 65535);
    // Splitting into fields.
    lemma_fields_word(t0);
    lemma_fields_word(t1);
    lemma_fields_word(t2);
    lemma_fields_word(t3);
    lemma_fields_word(t4);
    lemma_fields_word(t5);
    let x1 = t0 + sp + t1;
    let x2 = x1 + sp + t2;
    let x3 = x2 + sp + t3;
    let x4 = x3 + sp + t4;
    let x5 = x4 + sp + t5;
    lemma_fields_space(t0, t1);
    lemma_fields_space(x1, t2);
    lemma_fields_space(x2, t3);
    lemma_fields_space(x3, t4);
    lemma_fields_space(x4, t5);
    assert(x5 == fen_text(&b));
    let fs = fields(fen_text(&b));
    assert(fs =~= seq![t0, t1, t2, t3, t4, t5]);
    assert(fs[1] == seq!['w'] <==> b.side_to_move == Color::White) by {
        if b.side_to_move != Color::White {
            assert(t1[0] != 'w');
        }
    }
}

} // verus!
