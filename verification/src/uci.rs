use vstd::prelude::*;
use std::sync::Arc;
use crate::board::{Board, UndoState};
use crate::fen::{fen_breaks, fen_describes, fen_readable, fen_refused, low_byte, parse_i32_spec, parse_signed, parse_uint, parse_unsigned, start_piece, string_from_chars, to_chars};
use crate::movegen::{all_moves_listed, generate_pseudo_legal_moves, sound_from, MoveList};
use crate::nnue::NNUE;
use crate::types::{spec_from_sq, spec_is_promotion, spec_promotion_type, spec_to_sq, CastlingRights, Color, Move, Piece, PieceType};

verus! {

/// Whether the token `t` is the word `w`.
fn same_word(t: &String, w: &[char]) -> (r: bool)
    ensures
        r == (t@ == w@),
{
    let c = to_chars(t.as_str());
    if c.len() != w.len() {
        return false;
    }
    let mut i: usize = 0;
    while i < c.len()
        invariant
            c@ == t@,
            c.len() == w.len(),
            i <= c.len(),
            forall|k: int| 0 <= k < i ==> c@[k] == w@[k],
        decreases c.len() - i,
    {
        if c[i] != w[i] {
            return false;
        }
        i += 1;
    }
    proof {
        assert(c@ =~= w@);
    }
    true
}

/// `c` in lower case, for ASCII letters.
pub open spec fn ascii_lower(c: char) -> char {
    if 'A' <= c <= 'Z' {
        ((c as u32) + 32) as char
    } else {
        c
    }
}

/// The token `t`, put in lower case, is the lower-case word `w`.  (Only
/// ASCII letters lower-case to the letters of the option names used here.)
pub open spec fn lower_is(t: Seq<char>, w: Seq<char>) -> bool {
    t.len() == w.len() && forall|i: int| 0 <= i < t.len() ==> ascii_lower(#[trigger] t[i]) == w[i]
}

fn lower_word_is(t: &String, w: &[char]) -> (r: bool)
    ensures
        r == lower_is(t@, w@),
{
    let c = to_chars(t.as_str());
    if c.len() != w.len() {
        return false;
    }
    let mut i: usize = 0;
    while i < c.len()
        invariant
            c@ == t@,
            c.len() == w.len(),
            i <= c.len(),
            forall|k: int| 0 <= k < i ==> ascii_lower(#[trigger] c@[k]) == w@[k],
        decreases c.len() - i,
    {
        let ch = c[i];
        let u = ch as u32;
        let lower = if 65 <= u && u <= 90 {
            ((u + 32) as u8) as char
        } else {
            ch
        };
        proof {
            assert(lower == ascii_lower(ch));
        }
        if lower != w[i] {
            return false;
        }
        i += 1;
    }
    true
}

/// The commands of the UCI protocol that the engine answers.
#[derive(Copy, Clone, Debug, PartialEq, Eq, Structural)]
pub enum UciCommand {
    Uci,
    IsReady,
    SetOption,
    NewGame,
    Position,
    Go,
    Stop,
    Bench,
    Quit,
    Other,
}

/// The command the first token names.
pub open spec fn spec_command(tokens: Seq<String>) -> UciCommand {
    if tokens.len() == 0 {
        UciCommand::Other
    } else {
        let t = tokens[0]@;
        if t == seq!['u', 'c', 'i'] {
            UciCommand::Uci
        } else if t == seq!['i', 's', 'r', 'e', 'a', 'd', 'y'] {
            UciCommand::IsReady
        } else if t == seq!['s', 'e', 't', 'o', 'p', 't', 'i', 'o', 'n'] {
            UciCommand::SetOption
        } else if t == seq!['u', 'c', 'i', 'n', 'e', 'w', 'g', 'a', 'm', 'e'] {
            UciCommand::NewGame
        } else if t == seq!['p', 'o', 's', 'i', 't', 'i', 'o', 'n'] {
            UciCommand::Position
        } else if t == seq!['g', 'o'] {
            UciCommand::Go
        } else if t == seq!['s', 't', 'o', 'p'] {
            UciCommand::Stop
        } else if t == seq!['b', 'e', 'n', 'c', 'h'] {
            UciCommand::Bench
        } else if t == seq!['q', 'u', 'i', 't'] {
            UciCommand::Quit
        } else {
            UciCommand::Other
        }
    }
}

/// The command of a line split into tokens.
pub fn command_of(tokens: &Vec<String>) -> (c: UciCommand)
    ensures
        c == spec_command(tokens@),
{
    if tokens.len() == 0 {
        return UciCommand::Other;
    }
    let t = &tokens[0];
    if same_word(t, &['u', 'c', 'i']) {
        UciCommand::Uci
    } else if same_word(t, &['i', 's', 'r', 'e', 'a', 'd', 'y']) {
        UciCommand::IsReady
    } else if same_word(t, &['s', 'e', 't', 'o', 'p', 't', 'i', 'o', 'n']) {
        UciCommand::SetOption
    } else if same_word(t, &['u', 'c', 'i', 'n', 'e', 'w', 'g', 'a', 'm', 'e']) {
        UciCommand::NewGame
    } else if same_word(t, &['p', 'o', 's', 'i', 't', 'i', 'o', 'n']) {
        UciCommand::Position
    } else if same_word(t, &['g', 'o']) {
        UciCommand::Go
    } else if same_word(t, &['s', 't', 'o', 'p']) {
        UciCommand::Stop
    } else if same_word(t, &['b', 'e', 'n', 'c', 'h']) {
        UciCommand::Bench
    } else if same_word(t, &['q', 'u', 'i', 't']) {
        UciCommand::Quit
    } else {
        UciCommand::Other
    }
}

/// The largest number of search threads.
pub const MAX_THREADS: usize = 64;

/// `v` brought into `lo..=hi`.
pub open spec fn clamp(v: int, lo: int, hi: int) -> int {
    if v < lo {
        lo
    } else if v > hi {
        hi
    } else {
        v
    }
}

/// An engine option set with `setoption`.
#[derive(Copy, Clone, Debug, PartialEq, Eq, Structural)]
pub enum EngineOption {
    /// Number of search threads, 1 to 64.
    Threads(usize),
    /// Size of the transposition table in megabytes.
    Hash(usize),
}

/// The option `setoption name <name> value <v>` sets: `Threads` (clamped to
/// 1..=64) or `Hash`, the name read in any case; nothing for other names,
/// for a value that does not parse as `usize`, or for a shorter line.
pub open spec fn spec_setoption(tokens: Seq<String>) -> Option<EngineOption> {
    if tokens.len() >= 5 && tokens[1]@ == seq!['n', 'a', 'm', 'e'] {
        let value_word = tokens[3]@ == seq!['v', 'a', 'l', 'u', 'e'];
        if lower_is(tokens[2]@, seq!['t', 'h', 'r', 'e', 'a', 'd', 's']) && value_word {
            match parse_uint(tokens[4]@, usize::MAX as int) {
                Some(t) => Some(EngineOption::Threads(clamp(t, 1, 64) as usize)),
                None => None,
            }
        } else if lower_is(tokens[2]@, seq!['h', 'a', 's', 'h']) && value_word {
            match parse_uint(tokens[4]@, usize::MAX as int) {
                Some(mb) => Some(EngineOption::Hash(mb as usize)),
                None => None,
            }
        } else {
            None
        }
    } else {
        None
    }
}

/// Reads a `setoption` line.
pub fn parse_setoption(tokens: &Vec<String>) -> (r: Option<EngineOption>)
    ensures
        r == spec_setoption(tokens@),
{
    if tokens.len() < 5 || !same_word(&tokens[1], &['n', 'a', 'm', 'e']) {
        return None;
    }
    let value_word = same_word(&tokens[3], &['v', 'a', 'l', 'u', 'e']);
    if lower_word_is(&tokens[2], &['t', 'h', 'r', 'e', 'a', 'd', 's']) && value_word {
        let c = to_chars(tokens[4].as_str());
        match parse_unsigned(&c, usize::MAX as u64) {
            Some(t) => {
                let t = t as usize;
                let t = if t < 1 {
                    1
                } else if t > MAX_THREADS {
                    MAX_THREADS
                } else {
                    t
                };
                Some(EngineOption::Threads(t))
            },
            None => None,
        }
    } else if lower_word_is(&tokens[2], &['h', 'a', 's', 'h']) && value_word {
        let c = to_chars(tokens[4].as_str());
        match parse_unsigned(&c, usize::MAX as u64) {
            Some(mb) => Some(EngineOption::Hash(mb as usize)),
            None => None,
        }
    } else {
        None
    }
}

/// Settings of a benchmark run: table size, threads, depth, and where the
/// tokens of its position start.
#[derive(Copy, Clone, Debug, PartialEq, Eq, Structural)]
pub struct BenchArgs {
    pub hash: usize,
    pub threads: usize,
    pub depth: usize,
    pub fen_start: usize,
}

/// The number token `i` holds, if there is such a token and it parses.
pub open spec fn number_at(tokens: Seq<String>, i: int) -> Option<int> {
    if 0 <= i < tokens.len() {
        parse_uint(tokens[i]@, usize::MAX as int)
    } else {
        None
    }
}

/// Benchmark settings read from `tokens` at `start`: up to three numbers
/// in turn, hash (default 16), threads (clamped to 1..=64, default 1) and
/// depth (at least 1, default 13), each taken only if it parses; the
/// position's tokens follow them.
pub open spec fn spec_bench_args(tokens: Seq<String>, start: int) -> BenchArgs {
    let i0 = start;
    let hash = match number_at(tokens, i0) {
        Some(v) => v,
        None => 16,
    };
    let i1 = if number_at(tokens, i0) is Some { i0 + 1 } else { i0 };
    let threads = match number_at(tokens, i1) {
        Some(v) => clamp(v, 1, 64),
        None => 1,
    };
    let i2 = if number_at(tokens, i1) is Some { i1 + 1 } else { i1 };
    let depth = match number_at(tokens, i2) {
        Some(v) => if v < 1 { 1 } else { v },
        None => 13,
    };
    let i3 = if number_at(tokens, i2) is Some { i2 + 1 } else { i2 };
    BenchArgs { hash: hash as usize, threads: threads as usize, depth: depth as usize, fen_start: i3 as usize }
}

fn number_token(tokens: &Vec<String>, i: usize) -> (r: Option<usize>)
    ensures
        r matches Some(v) ==> number_at(tokens@, i as int) == Some(v as int),
        r is None ==> number_at(tokens@, i as int) is None,
{
    if i >= tokens.len() {
        return None;
    }
    let c = to_chars(tokens[i].as_str());
    match parse_unsigned(&c, usize::MAX as u64) {
        Some(v) => Some(v as usize),
        None => None,
    }
}

/// Reads the benchmark settings that start at token `start`.
pub fn parse_bench_args(tokens: &Vec<String>, start: usize) -> (r: BenchArgs)
    requires
        start <= tokens.len(),
    ensures
        r == spec_bench_args(tokens@, start as int),
{
    let mut i = start;
    let hash = match number_token(tokens, i) {
        Some(v) => {
            i += 1;
            v
        },
        None => 16,
    };
    let threads = match number_token(tokens, i) {
        Some(v) => {
            i += 1;
            if v < 1 {
                1
            } else if v > MAX_THREADS {
                MAX_THREADS
            } else {
                v
            }
        },
        None => 1,
    };
    let depth = match number_token(tokens, i) {
        Some(v) => {
            i += 1;
            if v < 1 {
                1
            } else {
                v
            }
        },
        None => 13,
    };
    BenchArgs { hash, threads, depth, fen_start: i }
}

/// The limits a `go` command sets, before the side to move is considered.
#[derive(Copy, Clone, Debug, PartialEq, Eq, Structural)]
pub struct GoParams {
    pub depth: u8,
    pub wtime: i32,
    pub btime: i32,
    pub winc: i32,
    pub binc: i32,
    pub movetime: i32,
}

/// The keyword a `go` token is: 1 depth, 2 wtime, 3 btime, 4 winc, 5 binc,
/// 6 movetime, 0 anything else.
pub open spec fn go_key(t: Seq<char>) -> int {
    if t == seq!['d', 'e', 'p', 't', 'h'] {
        1
    } else if t == seq!['w', 't', 'i', 'm', 'e'] {
        2
    } else if t == seq!['b', 't', 'i', 'm', 'e'] {
        3
    } else if t == seq!['w', 'i', 'n', 'c'] {
        4
    } else if t == seq!['b', 'i', 'n', 'c'] {
        5
    } else if t == seq!['m', 'o', 'v', 'e', 't', 'i', 'm', 'e'] {
        6
    } else {
        0
    }
}

/// A time value: what `str::parse::<i32>` gives, 0 when it fails.
pub open spec fn time_value(t: Seq<char>) -> i32 {
    match parse_i32_spec(t) {
        Some(v) => v as i32,
        None => 0,
    }
}

/// The parameters of a `go` command read from token `i` on: each keyword
/// takes the token after it as its value (a depth that does not parse as
/// `u8` reads as 6, a time as 0); other tokens are skipped.
pub open spec fn go_scan(tokens: Seq<String>, i: int, g: GoParams) -> GoParams
    decreases tokens.len() - i,
{
    if i < 0 || i >= tokens.len() || i + 1 >= tokens.len() {
        g
    } else {
        let k = go_key(tokens[i]@);
        let v = tokens[i + 1]@;
        if k == 1 {
            go_scan(tokens, i + 2, GoParams { depth: match parse_uint(v, 255) {
                Some(d) => d as u8,
                None => 6,
            }, ..g })
        } else if k == 2 {
            go_scan(tokens, i + 2, GoParams { wtime: time_value(v), ..g })
        } else if k == 3 {
            go_scan(tokens, i + 2, GoParams { btime: time_value(v), ..g })
        } else if k == 4 {
            go_scan(tokens, i + 2, GoParams { winc: time_value(v), ..g })
        } else if k == 5 {
            go_scan(tokens, i + 2, GoParams { binc: time_value(v), ..g })
        } else if k == 6 {
            go_scan(tokens, i + 2, GoParams { movetime: time_value(v), ..g })
        } else {
            go_scan(tokens, i + 1, g)
        }
    }
}

/// Every keyword the scan from token `i` meets has a token after it.
pub open spec fn go_complete(tokens: Seq<String>, i: int) -> bool
    decreases tokens.len() - i,
{
    if i < 0 || i >= tokens.len() {
        true
    } else if go_key(tokens[i]@) != 0 {
        i + 1 < tokens.len() && go_complete(tokens, i + 2)
    } else {
        go_complete(tokens, i + 1)
    }
}

/// Depth 6 and no times: where a `go` command starts.
pub open spec fn go_defaults() -> GoParams {
    GoParams { depth: 6, wtime: 0, btime: 0, winc: 0, binc: 0, movetime: 0 }
}

/// How the search is limited.
#[derive(Copy, Clone, Debug, PartialEq, Eq, Structural)]
pub enum TimeLimits {
    /// A fixed time per move, in milliseconds, as both soft and hard limit.
    Exact(u128),
    /// The side's clock and increment, in milliseconds.
    Clock(u128, u128),
    /// No time limit: the depth limit alone.
    Unlimited,
}

/// What a `go` command asks for: a depth limit and a time limit.
#[derive(Copy, Clone, Debug, PartialEq, Eq, Structural)]
pub struct GoPlan {
    pub depth: u8,
    pub limits: TimeLimits,
}

/// A fixed move time wins; otherwise the clock of the side to move counts
/// when it is positive; either way the depth limit becomes 64.
pub open spec fn spec_plan(g: GoParams, side: Color) -> GoPlan {
    if g.movetime > 0 {
        GoPlan { depth: 64, limits: TimeLimits::Exact(g.movetime as u128) }
    } else if (g.wtime > 0 && side == Color::White) || (g.btime > 0 && side == Color::Black) {
        let (time, inc) = if side == Color::White {
            (g.wtime as u128, g.winc as u128)
        } else {
            (g.btime as u128, g.binc as u128)
        };
        GoPlan { depth: 64, limits: TimeLimits::Clock(time, inc) }
    } else {
        GoPlan { depth: g.depth, limits: TimeLimits::Unlimited }
    }
}

/// The keyword of a `go` token.
fn go_key_of(t: &String) -> (k: u8)
    ensures
        k == go_key(t@),
{
    if same_word(t, &['d', 'e', 'p', 't', 'h']) {
        1
    } else if same_word(t, &['w', 't', 'i', 'm', 'e']) {
        2
    } else if same_word(t, &['b', 't', 'i', 'm', 'e']) {
        3
    } else if same_word(t, &['w', 'i', 'n', 'c']) {
        4
    } else if same_word(t, &['b', 'i', 'n', 'c']) {
        5
    } else if same_word(t, &['m', 'o', 'v', 'e', 't', 'i', 'm', 'e']) {
        6
    } else {
        0
    }
}

fn time_token(t: &String) -> (v: i32)
    ensures
        v == time_value(t@),
{
    let c = to_chars(t.as_str());
    match parse_signed(&c) {
        Some(v) => v,
        None => 0,
    }
}

/// Reads the parameters of a `go` command and decides its limits for the
/// side to move.  `None` when a keyword is the last token and has no value.
pub fn parse_go(tokens: &Vec<String>, side: Color) -> (r: Option<GoPlan>)
    ensures
        r is None <==> !go_complete(tokens@, 1),
        r matches Some(p) ==> p == spec_plan(go_scan(tokens@, 1, go_defaults()), side),
{
    let mut g = GoParams { depth: 6, wtime: 0, btime: 0, winc: 0, binc: 0, movetime: 0 };
    let mut i: usize = 1;
    while i < tokens.len()
        invariant
            1 <= i,
            go_scan(tokens@, i as int, g) == go_scan(tokens@, 1, go_defaults()),
            go_complete(tokens@, i as int) == go_complete(tokens@, 1),
        decreases tokens.len() - i,
    {
        let k = go_key_of(&tokens[i]);
        if k != 0 {
            if i + 1 >= tokens.len() {
                return None;
            }
            let v = &tokens[i + 1];
            if k == 1 {
                let c = to_chars(v.as_str());
                g.depth = match parse_unsigned(&c, 255) {
                    Some(d) => d as u8,
                    None => 6,
                };
            } else if k == 2 {
                g.wtime = time_token(v);
            } else if k == 3 {
                g.btime = time_token(v);
            } else if k == 4 {
                g.winc = time_token(v);
            } else if k == 5 {
                g.binc = time_token(v);
            } else {
                g.movetime = time_token(v);
            }
            i += 2;
        } else {
            i += 1;
        }
    }
    proof {
        assert(go_scan(tokens@, i as int, g) == g);
        assert(go_complete(tokens@, i as int));
    }
    let plan = if g.movetime > 0 {
        GoPlan { depth: 64, limits: TimeLimits::Exact(g.movetime as u128) }
    } else if (g.wtime > 0 && side == Color::White) || (g.btime > 0 && side == Color::Black) {
        let (time, inc) = if side == Color::White {
            (g.wtime as u128, g.winc as u128)
        } else {
            (g.btime as u128, g.binc as u128)
        };
        GoPlan { depth: 64, limits: TimeLimits::Clock(time, inc) }
    } else {
        GoPlan { depth: g.depth, limits: TimeLimits::Unlimited }
    };
    Some(plan)
}

/// The words of `ts` joined by single spaces.
pub open spec fn join_space(ts: Seq<Seq<char>>) -> Seq<char>
    decreases ts.len(),
{
    if ts.len() == 0 {
        Seq::empty()
    } else if ts.len() == 1 {
        ts[0]
    } else {
        join_space(ts.drop_last()) + seq![' '] + ts.last()
    }
}

proof fn lemma_join_len(ts: Seq<Seq<char>>, bound: int)
    requires
        bound >= 0,
        forall|k: int| 0 <= k < ts.len() ==> (#[trigger] ts[k]).len() <= bound,
    ensures
        join_space(ts).len() <= ts.len() * (bound + 1),
    decreases ts.len(),
{
    if ts.len() > 1 {
        let pre = ts.drop_last();
        assert forall|k: int| 0 <= k < pre.len() implies (#[trigger] pre[k]).len() <= bound by {
            assert(pre[k] == ts[k]);
        }
        lemma_join_len(pre, bound);
        assert(ts.last() == ts[ts.len() - 1]);
        assert((ts.len() - 1) * (bound + 1) + bound + 1 == ts.len() * (bound + 1)) by (nonlinear_arith);
    } else if ts.len() == 1 {
        assert(ts[0].len() <= bound);
    }
}

/// The character views of `tokens[lo..hi]`.
pub open spec fn token_views(tokens: Seq<String>, lo: int, hi: int) -> Seq<Seq<char>> {
    Seq::new((hi - lo) as nat, |k: int| tokens[lo + k]@)
}

/// The FEN string of a `position fen ...` command: tokens 2 to 7 joined by spaces.
pub open spec fn position_fen(tokens: Seq<String>) -> Seq<char> {
    join_space(token_views(tokens, 2, 8))
}

/// Where the moves of a `position` command would start: after `startpos`,
/// after the six FEN tokens, or (for anything else) at the first token.
pub open spec fn moves_index(tokens: Seq<String>) -> int {
    if tokens[1]@ == seq!['s', 't', 'a', 'r', 't', 'p', 'o', 's'] {
        2
    } else if tokens[1]@ == seq!['f', 'e', 'n'] {
        8
    } else {
        0
    }
}

/// The `position` command lists moves to play.
pub open spec fn has_moves(tokens: Seq<String>) -> bool {
    let k = moves_index(tokens);
    tokens.len() > k && tokens[k]@ == seq!['m', 'o', 'v', 'e', 's']
}

/// `b` is the starting position.
pub open spec fn is_start_position(b: Board) -> bool {
    &&& forall|s: int| 0 <= s < 64 ==> b.piece_on_sq[s] == start_piece(s)
    &&& b.side_to_move == Color::White
    &&& b.castling.0 == CastlingRights::ANY
    &&& b.en_passant is None
    &&& b.halfmove_clock == 0
    &&& b.fullmove_number == 1
    &&& b.position_history@.len() == 0
}

/// The number of bytes of a token, as `str::len` gives it.
pub open spec fn byte_len(t: Seq<char>) -> int {
    vstd::utf8::encode_utf8(t).len() as int
}

/// A move token of four bytes or more can be read: a file letter, a rank
/// digit, a file letter and a rank digit (judged by the low byte of each
/// character, which must not fall below 'a' and '1'), the squares they
/// name fitting in a byte, and a fifth character when the token has five
/// bytes.
pub open spec fn move_text_ok(t: Seq<char>) -> bool {
    &&& t.len() >= 4
    &&& low_byte(t[0]) >= 97 && low_byte(t[1]) >= 49 && low_byte(t[2]) >= 97 && low_byte(t[3]) >= 49
    &&& (low_byte(t[1]) - 49) * 8 + (low_byte(t[0]) - 97) <= 255
    &&& (low_byte(t[3]) - 49) * 8 + (low_byte(t[2]) - 97) <= 255
    &&& byte_len(t) == 5 ==> t.len() >= 5
}

/// A character takes at most four bytes.
proof fn lemma_encode_len(t: Seq<char>)
    ensures
        byte_len(t) <= 4 * t.len(),
    decreases t.len(),
{
    if t.len() > 0 {
        lemma_encode_len(t.drop_first());
        assert(vstd::utf8::encode_scalar(t[0] as u32).len() <= 4);
    }
}

fn join_fen_tokens(tokens: &Vec<String>) -> (s: String)
    requires
        tokens.len() >= 8,
    ensures
        s@ == position_fen(tokens@),
{
    let mut out: Vec<char> = Vec::new();
    let mut k: usize = 2;
    while k < 8
        invariant
            tokens.len() >= 8,
            2 <= k <= 8,
            out@ == join_space(token_views(tokens@, 2, k as int)),
        decreases 8 - k,
    {
        let c = to_chars(tokens[k].as_str());
        let ghost before = out@;
        if k > 2 {
            out.push(' ');
        }
        let mut j: usize = 0;
        let ghost mid = out@;
        while j < c.len()
            invariant
                j <= c.len(),
                out@ == mid + c@.take(j as int),
            decreases c.len() - j,
        {
            out.push(c[j]);
            proof {
                assert(c@.take(j + 1) =~= c@.take(j as int).push(c@[j as int]));
            }
            j += 1;
        }
        proof {
            assert(c@.take(c.len() as int) =~= c@);
            let vs = token_views(tokens@, 2, k + 1);
            assert(vs.drop_last() =~= token_views(tokens@, 2, k as int));
            assert(vs.last() == tokens@[k as int]@);
            if k > 2 {
                assert(out@ =~= join_space(vs));
            } else {
                assert(out@ =~= join_space(vs));
            }
        }
        k += 1;
    }
    string_from_chars(&out)
}

/// The origin square a move token names.
pub open spec fn token_from(t: Seq<char>) -> int {
    (low_byte(t[1]) - 49) * 8 + (low_byte(t[0]) - 97)
}

/// The target square a move token names.
pub open spec fn token_to(t: Seq<char>) -> int {
    (low_byte(t[3]) - 49) * 8 + (low_byte(t[2]) - 97)
}

/// The promotion a five-byte move token asks for, as the two promotion bits
/// of a move: queen, rook, bishop, and knight for anything else.
pub open spec fn token_promo(t: Seq<char>) -> u16 {
    if t[4] == 'q' {
        3
    } else if t[4] == 'r' {
        2
    } else if t[4] == 'b' {
        1
    } else {
        0
    }
}

/// Whether the move token `t` selects `m` on `b`: the squares agree and,
/// for a five-byte token, so does the promotion piece; a knight promotion
/// is told from a plain move by a pawn reaching the last rank (a selected
/// move with no piece on its origin square cannot be made).
pub open spec fn token_picks(t: Seq<char>, b: Board, m: u16) -> bool {
    &&& spec_from_sq(m) as int == token_from(t)
    &&& spec_to_sq(m) as int == token_to(t)
    &&& byte_len(t) == 5 ==> {
        let mp = (m >> 12u16) & 0x3u16;
        &&& mp == token_promo(t)
        &&& mp == 0 ==> match b.piece_on_sq[spec_from_sq(m) as int] {
            Some(p) => p.spec_piece_type() == PieceType::Pawn && (low_byte(t[3]) - 49 == 7 || low_byte(t[3])
                - 49 == 0),
            None => true,
        }
    }
}

/// The outcome of playing token `t` from `b` with `moves` listed: the
/// first move that the token selects is made (`ok` says whether it could
/// be), and with none selected nothing happens.
pub open spec fn picked_in(moves: Seq<Move>, t: Seq<char>, b: Board, b2: Board, ok: bool) -> bool {
    ||| (forall|i: int| 0 <= i < moves.len() ==> !token_picks(t, b, #[trigger] moves[i].0)) && ok && b2 == b
    ||| exists|j: int|
        0 <= j < moves.len() && #[trigger] token_picks(t, b, moves[j].0) && (forall|i: int|
            0 <= i < j ==> !token_picks(t, b, #[trigger] moves[i].0)) && ok == b.can_make(moves[j].0) && (ok
            ==> exists|u: UndoState| #[trigger] Board::made(b, b2, moves[j].0, u)) && (!ok ==> b2 == b)
}

/// What playing the move token `t` on `b` gives: `b2`, and `ok` when the
/// token could be played.  A token under four bytes is passed over; one
/// that cannot be read fails; otherwise the first move of a complete list
/// of `b`'s pseudo-legal moves that the token selects is made.
pub open spec fn token_played(b: Board, t: Seq<char>, b2: Board, ok: bool) -> bool {
    if byte_len(t) < 4 {
        ok && b2 == b
    } else if !move_text_ok(t) {
        !ok && b2 == b
    } else {
        exists|moves: Seq<Move>|
            sound_from(&b, moves, 0) && all_moves_listed(moves, &b) && #[trigger] picked_in(moves, t, b, b2, ok)
    }
}

/// Playing the move tokens `ts` one after another from `b`, stopping at
/// the first that fails, gives `b2`; `ok` when every one could be played.
pub open spec fn tokens_played(ts: Seq<Seq<char>>, b: Board, b2: Board, ok: bool) -> bool
    decreases ts.len(),
{
    if ts.len() == 0 {
        ok && b2 == b
    } else {
        exists|mid: Board, ok1: bool|
            #[trigger] token_played(b, ts[0], mid, ok1) && (if ok1 {
                tokens_played(ts.drop_first(), mid, b2, ok)
            } else {
                !ok && b2 == mid
            })
    }
}

/// Plays the first listed move that a move token names; `false` when the
/// token cannot be read, or when the move it selects cannot be made.
fn play_move_token(board: &mut Board, t: &String) -> (ok: bool)
    requires
        old(board).wf(),
        t@.len() <= 39_768_213,
    ensures
        final(board).wf(),
        token_played(*old(board), t@, *final(board), ok),
{
    let ghost b0 = *board;
    let mut list = MoveList::new();
    generate_pseudo_legal_moves(board, &mut list);
    let ghost moves = list.moves@;
    let nbytes = t.as_str().len();
    proof {
        lemma_encode_len(t@);
        assert(nbytes as int == byte_len(t@));
    }
    if nbytes < 4 {
        return true;
    }
    let c = to_chars(t.as_str());
    if c.len() < 4 {
        return false;
    }
    let lo0 = (c[0] as u32) % 256;
    let lo1 = (c[1] as u32) % 256;
    let lo2 = (c[2] as u32) % 256;
    let lo3 = (c[3] as u32) % 256;
    if lo0 < 97 || lo1 < 49 || lo2 < 97 || lo3 < 49 {
        return false;
    }
    let from_file = lo0 - 97;
    let from_rank = lo1 - 49;
    let to_file = lo2 - 97;
    let to_rank = lo3 - 49;
    if from_rank * 8 + from_file > 255 || to_rank * 8 + to_file > 255 {
        return false;
    }
    let from_sq = from_rank * 8 + from_file;
    let to_sq = to_rank * 8 + to_file;
    let five = nbytes == 5;
    let mut promo_type: u16 = 0;
    if five {
        if c.len() < 5 {
            return false;
        }
        let p = c[4];
        promo_type = if p == 'q' {
            3
        } else if p == 'r' {
            2
        } else if p == 'b' {
            1
        } else {
            0
        };
    }
    proof {
        assert(c@ == t@);
        assert(move_text_ok(t@));
    }
    let mut j: usize = 0;
    while j < list.count
        invariant
            list.wf(),
            board.wf(),
            *board == *old(board),
            *board == b0,
            list.moves@ == moves,
            sound_from(&b0, moves, 0),
            all_moves_listed(moves, &b0),
            nbytes as int == byte_len(t@),
            nbytes >= 4,
            move_text_ok(t@),
            from_sq == token_from(t@),
            to_sq == token_to(t@),
            to_rank == low_byte(t@[3]) - 49,
            five == (byte_len(t@) == 5),
            five ==> promo_type == token_promo(t@),
            j <= list.count,
            forall|i: int| 0 <= i < j ==> !token_picks(t@, b0, #[trigger] moves[i].0),
        decreases list.count - j,
    {
        let m = list.moves[j];
        if m.from_sq() as u32 == from_sq && m.to_sq() as u32 == to_sq {
            let m_promo = (m.0 >> 12u16) & 0x3;
            let chosen = if five {
                if m_promo == promo_type {
                    if m_promo != 0 {
                        true
                    } else {
                        match board.piece_on_sq[m.from_sq() as usize] {
                            Some(p) => p.piece_type() == PieceType::Pawn && (to_rank == 7 || to_rank == 0),
                            None => {
                                proof {
                                    assert(token_picks(t@, b0, moves[j as int].0));
                                    assert(picked_in(moves, t@, b0, *board, false));
                                }
                                return false;
                            },
                        }
                    }
                } else {
                    false
                }
            } else {
                true
            };
            proof {
                assert(chosen == token_picks(t@, b0, moves[j as int].0));
            }
            if chosen {
                if !board.can_make_move(m) {
                    proof {
                        assert(picked_in(moves, t@, b0, *board, false));
                    }
                    return false;
                }
                let undo = board.make_move(m);
                proof {
                    assert(Board::made(b0, *board, moves[j as int].0, undo));
                    assert(picked_in(moves, t@, b0, *board, true));
                }
                return true;
            }
        }
        j += 1;
    }
    proof {
        assert(picked_in(moves, t@, b0, *board, true));
    }
    true
}

/// How a `position` command sets the board up before its moves: `b0` is
/// the board it starts the moves from, given the board `old` it found, and
/// `ok` is false when its FEN string cannot be read (the board then stays
/// as it was).
pub open spec fn position_set_up(tokens: Seq<String>, old: Board, nnue: Arc<NNUE>, b0: Board, ok: bool) -> bool {
    let k = moves_index(tokens);
    &&& k == 2 ==> ok && is_start_position(b0) && b0.nnue == nnue
    &&& k == 8 && tokens.len() < 8 ==> ok && b0 == old
    &&& k == 8 && tokens.len() >= 8 ==> {
        let f = position_fen(tokens);
        &&& ok == !fen_breaks(f)
        &&& (!ok || fen_refused(f)) ==> b0 == old
        &&& ok && !fen_refused(f) ==> fen_describes(f, b0) && b0.nnue == nnue
    }
    &&& k == 0 ==> ok && b0 == old
}

/// Playing one more token in front of the rest.
proof fn lemma_played_step(ts: Seq<Seq<char>>, b: Board, mid: Board, ok1: bool, b2: Board, ok: bool)
    requires
        ts.len() > 0,
        token_played(b, ts[0], mid, ok1),
        ok1 ==> tokens_played(ts.drop_first(), mid, b2, ok),
        !ok1 ==> !ok && b2 == mid,
    ensures
        tokens_played(ts, b, b2, ok),
{
}

/// Sets up the position of a `position` command: `startpos` or `fen`
/// followed by six FEN tokens (an unreadable FEN leaves the board as it
/// was), then, after `moves`, plays the moves given in coordinate
/// notation one after another, each as the first generated move with its
/// squares (and, for a five-byte token, its promotion).  `false` when a
/// FEN string or a move token cannot be read, or a selected move cannot be
/// made.  Each token holds at most 39,768,213 characters, so that the six
/// FEN tokens joined stay within the length `Board::from_fen` reads.
pub fn parse_position(board: &mut Board, tokens: &Vec<String>, nnue: Arc<NNUE>) -> (ok: bool)
    requires
        old(board).wf(),
        nnue.wf(),
        forall|i: int| 0 <= i < tokens.len() ==> (#[trigger] tokens@[i])@.len() <= 39_768_213,
    ensures
        final(board).wf(),
        tokens.len() < 2 ==> ok && *final(board) == *old(board),
        tokens.len() >= 2 ==> exists|b0: Board, ok0: bool|
            #[trigger] position_set_up(tokens@, *old(board), nnue, b0, ok0) && if ok0 && has_moves(tokens@) {
                tokens_played(
                    token_views(tokens@, moves_index(tokens@) + 1, tokens.len() as int),
                    b0,
                    *final(board),
                    ok,
                )
            } else {
                ok == ok0 && *final(board) == b0
            },
{
    if tokens.len() < 2 {
        return true;
    }
    let mut moves_idx: usize = 0;
    if same_word(&tokens[1], &['s', 't', 'a', 'r', 't', 'p', 'o', 's']) {
        *board = Board::new(nnue);
        moves_idx = 2;
    } else if same_word(&tokens[1], &['f', 'e', 'n']) {
        if tokens.len() < 8 {
            proof {
                assert(position_set_up(tokens@, *old(board), nnue, *board, true));
            }
            return true;
        }
        let fen = join_fen_tokens(tokens);
        proof {
            let vs = token_views(tokens@, 2, 8);
            assert forall|k: int| 0 <= k < vs.len() implies (#[trigger] vs[k]).len() <= 39_768_213 by {
                assert(vs[k] == tokens@[2 + k]@);
            }
            lemma_join_len(vs, 39_768_213);
        }
        if !fen_readable(fen.as_str()) {
            proof {
                assert(position_set_up(tokens@, *old(board), nnue, *board, false));
            }
            return false;
        }
        match Board::from_fen(fen.as_str(), nnue) {
            Some(b) => {
                *board = b;
            },
            None => {},
        }
        moves_idx = 8;
    }
    let ghost b0 = *board;
    proof {
        assert(moves_idx == moves_index(tokens@));
        assert(position_set_up(tokens@, *old(board), nnue, b0, true));
    }
    if tokens.len() > moves_idx && same_word(&tokens[moves_idx], &['m', 'o', 'v', 'e', 's']) {
        let ghost n = tokens.len() as int;
        let ghost all = token_views(tokens@, moves_idx + 1, n);
        let mut i = moves_idx + 1;
        while i < tokens.len()
            invariant
                board.wf(),
                forall|i: int| 0 <= i < tokens.len() ==> (#[trigger] tokens@[i])@.len() <= 39_768_213,
                has_moves(tokens@),
                tokens.len() >= 2,
                n == tokens.len(),
                moves_idx + 1 <= i <= n,
                all == token_views(tokens@, moves_idx + 1, n),
                moves_idx == moves_index(tokens@),
                position_set_up(tokens@, *old(board), nnue, b0, true),
                forall|b2: Board, okx: bool|
                    #[trigger] tokens_played(token_views(tokens@, i as int, n), *board, b2, okx) ==> tokens_played(
                        all,
                        b0,
                        b2,
                        okx,
                    ),
            decreases tokens.len() - i,
        {
            let ghost before = *board;
            let ghost rest = token_views(tokens@, i as int, n);
            proof {
                assert(rest[0] == tokens@[i as int]@);
                assert(rest.drop_first() =~= token_views(tokens@, i + 1, n));
            }
            let played = play_move_token(board, &tokens[i]);
            if !played {
                proof {
                    lemma_played_step(rest, before, *board, false, *board, false);
                }
                return false;
            }
            proof {
                assert forall|b2: Board, okx: bool|
                    #[trigger] tokens_played(token_views(tokens@, i + 1, n), *board, b2, okx) implies tokens_played(
                        all,
                        b0,
                        b2,
                        okx,
                    ) by {
                    lemma_played_step(rest, before, *board, true, b2, okx);
                }
            }
            i += 1;
        }
        proof {
            assert(token_views(tokens@, i as int, n).len() == 0);
            assert(tokens_played(token_views(tokens@, i as int, n), *board, *board, true));
        }
    }
    true
}

/// A move in coordinate notation: origin file and rank, target file and
/// rank (the promotion piece is not written).
pub open spec fn uci_text(m: u16) -> Seq<char> {
    let from = spec_from_sq(m);
    let to = spec_to_sq(m);
    seq![
        ((from % 8) + 97) as char,
        ((from / 8) + 49) as char,
        ((to % 8) + 97) as char,
        ((to / 8) + 49) as char,
    ]
}

impl Move {
    /// The move in coordinate notation, such as `e2e4`.
    pub fn to_uci(self) -> (s: String)
        ensures
            s@ == uci_text(self.0),
    {
        let from = self.from_sq();
        let to = self.to_sq();
        let mut out: Vec<char> = Vec::new();
        out.push(((from % 8) + 97) as char);
        out.push(((from / 8) + 49) as char);
        out.push(((to % 8) + 97) as char);
        out.push(((to / 8) + 49) as char);
        proof {
            assert(out@ =~= uci_text(self.0));
        }
        string_from_chars(&out)
    }
}

/// The last letter of a five-byte move token names the promotion piece: a
/// move the token selects promotes to a queen for `q`, a rook for `r`, a
/// bishop for `b` and a knight for `n`.
pub proof fn lemma_token_promotion_letter(t: Seq<char>, b: Board, m: u16)
    requires
        byte_len(t) == 5,
        token_picks(t, b, m),
    ensures
        t[4] == 'q' ==> spec_promotion_type(m) == PieceType::Queen,
        t[4] == 'r' ==> spec_promotion_type(m) == PieceType::Rook,
        t[4] == 'b' ==> spec_promotion_type(m) == PieceType::Bishop,
        t[4] == 'n' ==> spec_promotion_type(m) == PieceType::Knight,
{
}

/// Played, a promotion that a five-byte token selects leaves on the target
/// square a piece of the mover's color and of the type the token's last
/// letter names.
pub proof fn lemma_token_promotion_played(t: Seq<char>, b: Board, b2: Board, m: u16, u: UndoState)
    requires
        byte_len(t) == 5,
        token_picks(t, b, m),
        spec_is_promotion(m),
        Board::made(b, b2, m, u),
        b.piece_on_sq[spec_from_sq(m) as int] is Some,
    ensures
        ({
            let c = b.piece_on_sq[spec_from_sq(m) as int].unwrap().spec_color();
            let placed = b2.piece_on_sq[spec_to_sq(m) as int];
            &&& t[4] == 'q' ==> placed == Some(Piece::spec_new(c, PieceType::Queen))
            &&& t[4] == 'r' ==> placed == Some(Piece::spec_new(c, PieceType::Rook))
            &&& t[4] == 'b' ==> placed == Some(Piece::spec_new(c, PieceType::Bishop))
            &&& t[4] == 'n' ==> placed == Some(Piece::spec_new(c, PieceType::Knight))
        }),
{
    lemma_token_promotion_letter(t, b, m);
    crate::types::lemma_move_squares(m);
    assert((m & 0x8000u16) != 0 ==> (m & 0xF000u16) != 0x5000u16 && (m & 0xF000u16) != 0x2000u16 && (m & 0xF000u16)
        != 0x3000u16) by (bit_vector);
    assert(b2.piece_on_sq@ == crate::board::mailbox_after_move(b.piece_on_sq@, m));
    assert(b2.piece_on_sq[spec_to_sq(m) as int] == b2.piece_on_sq@[spec_to_sq(m) as int]);
}

} // verus!
