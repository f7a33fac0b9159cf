//! Chess rules that the match referee applies: game results, material draws
//! and move time budgets.
use vstd::prelude::*;
use crate::types::GameResult;
use std::collections::HashMap;

verus! {

/// Extra time granted to an engine beyond its clock before a search is abandoned.
pub const UCI_CLOCK_GRACE_MS: u64 = 1_000;

/// Games reaching this many moves are adjudicated as draws.
pub const MAX_MOVES_PER_GAME: u32 = 500;

/// The standard starting position as an EPD record.
pub const STARTING_POSITION_EPD: &'static str = "rnbqkbnr/pppppppp/8/8/8/8/PPPPPPPP/RNBQKBNR w KQkq -";

/// The standard starting position as a FEN record.
pub const STARTING_POSITION_FEN: &'static str = "rnbqkbnr/pppppppp/8/8/8/8/PPPPPPPP/RNBQKBNR w KQkq - 0 1";

/// A side of the board.
#[derive(Debug, Clone, Copy, PartialEq, Eq, Structural)]
pub enum Side {
    White,
    Black,
}

/// The state of a position as the rules judge it.
#[derive(Debug, Clone, Copy, PartialEq, Eq, Structural)]
pub enum BoardStatus {
    /// The side to move has a legal move.
    Ongoing,
    /// The side to move is checkmated.
    Won,
    /// The side to move is stalemated, or the game is drawn by rule.
    Drawn,
}

/// The pieces on a board that decide whether mate is still possible.
/// Squares are numbered from a1 = 0 to h8 = 63, rank by rank.
pub struct Material {
    pub pawns: u32,
    pub rooks: u32,
    pub queens: u32,
    pub white_knights: u32,
    pub black_knights: u32,
    pub white_bishops: Vec<u8>,
    pub black_bishops: Vec<u8>,
}

/// The result recorded when `side` loses.
pub open spec fn loss_for(side: Side) -> GameResult {
    match side {
        Side::White => GameResult::BlackWin,
        Side::Black => GameResult::WhiteWin,
    }
}

/// The result recorded when `side` wins.
pub open spec fn win_for(side: Side) -> GameResult {
    match side {
        Side::White => GameResult::WhiteWin,
        Side::Black => GameResult::BlackWin,
    }
}

/// The result of a game in which `side_to_move` forfeits: its opponent wins.
pub fn opponent_win(side_to_move: Side) -> (r: GameResult)
    ensures
        r == loss_for(side_to_move),
{
    match side_to_move {
        Side::White => GameResult::BlackWin,
        Side::Black => GameResult::WhiteWin,
    }
}

/// `result` as seen by `side`: a win for `side` reads as a white win, a loss as
/// a black win, and a draw as a draw.
pub open spec fn spec_perspective(result: GameResult, side: Side) -> GameResult {
    match result {
        GameResult::Draw => GameResult::Draw,
        _ => if result == win_for(side) {
            GameResult::WhiteWin
        } else {
            GameResult::BlackWin
        },
    }
}

/// The game result from the point of view of `side_to_move`.
pub fn perspective_result(result: GameResult, side_to_move: Side) -> (r: GameResult)
    ensures
        r == spec_perspective(result, side_to_move),
{
    match (result, side_to_move) {
        (GameResult::Draw, _) => GameResult::Draw,
        (GameResult::WhiteWin, Side::White) => GameResult::WhiteWin,
        (GameResult::WhiteWin, Side::Black) => GameResult::BlackWin,
        (GameResult::BlackWin, Side::White) => GameResult::BlackWin,
        (GameResult::BlackWin, Side::Black) => GameResult::WhiteWin,
    }
}

/// Seen from White, a result is unchanged; taking a side's point of view twice
/// gives back the result it started from; a draw is a draw from either side.
pub proof fn law_perspective_round_trip(result: GameResult, side: Side)
    ensures
        spec_perspective(result, Side::White) == result,
        spec_perspective(spec_perspective(result, side), side) == result,
        spec_perspective(GameResult::Draw, side) == GameResult::Draw,
{
}

/// Whether square `sq` is a light square.
pub open spec fn is_light_square(sq: u8) -> bool {
    ((sq % 8) + (sq / 8)) % 2 == 1
}

/// All the given bishops stand on squares of one colour.
pub open spec fn same_square_colour(squares: Seq<u8>) -> bool {
    (forall|i: int| 0 <= i < squares.len() ==> is_light_square(#[trigger] squares[i]))
        || (forall|i: int| 0 <= i < squares.len() ==> !is_light_square(#[trigger] squares[i]))
}

impl Material {
    pub open spec fn bishops(&self) -> int {
        (self.white_bishops@.len() + self.black_bishops@.len()) as int
    }

    pub open spec fn knights(&self) -> int {
        self.white_knights + self.black_knights
    }

    /// Neither side can ever deliver mate: no pawns, rooks or queens, and the
    /// minor pieces are at most one piece, two knights, bishops all on one
    /// square colour, or one bishop against one knight.
    pub open spec fn spec_insufficient(&self) -> bool {
        if !(self.pawns == 0 && self.rooks == 0 && self.queens == 0) {
            false
        } else if self.bishops() + self.knights() <= 1 {
            true
        } else if self.bishops() == 0 {
            self.knights() <= 2
        } else if self.knights() == 0 {
            self.bishops() == 1 || same_square_colour(self.white_bishops@ + self.black_bishops@)
        } else {
            self.bishops() == 1 && self.knights() == 1
        }
    }
}

/// Which material can never deliver mate, counted piece by piece: any pawn,
/// rook or queen can; otherwise bare kings, a single minor piece, two
/// knights, and one bishop against one knight cannot, while a bishop with
/// two or more other minor pieces, three knights, or bishops on both square
/// colours can.
pub proof fn law_insufficient_material_by_pieces(m: &Material)
    ensures
        (m.pawns > 0 || m.rooks > 0 || m.queens > 0) ==> !m.spec_insufficient(),
        ({
            let b = m.white_bishops@.len() + m.black_bishops@.len();
            let n = m.white_knights + m.black_knights;
            m.pawns == 0 && m.rooks == 0 && m.queens == 0 ==> {
                &&& b + n <= 1 ==> m.spec_insufficient()
                &&& (b == 1 && n == 1) ==> m.spec_insufficient()
                &&& (b == 0 && n == 2) ==> m.spec_insufficient()
                &&& (b == 0 && n >= 3) ==> !m.spec_insufficient()
                &&& (b >= 1 && n >= 1 && b + n >= 3) ==> !m.spec_insufficient()
                &&& (n == 0 && b >= 2) ==> (m.spec_insufficient() <==> (
                    (forall|i: int| 0 <= i < m.white_bishops@.len() ==> is_light_square(#[trigger] m.white_bishops@[i])
                        == is_light_square(m.white_bishops@[0]) || m.white_bishops@.len() == 0)
                    && (forall|i: int| 0 <= i < m.black_bishops@.len() ==> is_light_square(#[trigger] m.black_bishops@[i])
                        == (if m.white_bishops@.len() > 0 { is_light_square(m.white_bishops@[0]) } else { is_light_square(m.black_bishops@[0]) }))
                ))
            }
        }),
{
    let w = m.white_bishops@;
    let k = m.black_bishops@;
    let all = w + k;
    if m.pawns == 0 && m.rooks == 0 && m.queens == 0 && m.white_knights + m.black_knights == 0 && w.len() + k.len() >= 2 {
        let c = if w.len() > 0 { is_light_square(w[0]) } else { is_light_square(k[0]) };
        assert(all[0] == (if w.len() > 0 { w[0] } else { k[0] }));
        if same_square_colour(all) {
            assert forall|i: int| 0 <= i < w.len() implies is_light_square(#[trigger] w[i]) == is_light_square(w[0]) by {
                assert(all[i] == w[i]);
                assert(all[0] == w[0]);
            }
            assert forall|i: int| 0 <= i < k.len() implies is_light_square(#[trigger] k[i]) == c by {
                assert(all[w.len() + i] == k[i]);
            }
        } else {
            let colour_ok = (forall|i: int| 0 <= i < w.len() ==> is_light_square(#[trigger] w[i]) == is_light_square(w[0]) || w.len() == 0)
                && (forall|i: int| 0 <= i < k.len() ==> is_light_square(#[trigger] k[i]) == c);
            if colour_ok {
                assert forall|i: int| 0 <= i < all.len() implies is_light_square(#[trigger] all[i]) == c by {
                    if i < w.len() {
                        assert(all[i] == w[i]);
                    } else {
                        assert(all[i] == k[i - w.len()]);
                    }
                }
                if c {
                    assert(forall|i: int| 0 <= i < all.len() ==> is_light_square(#[trigger] all[i]));
                } else {
                    assert(forall|i: int| 0 <= i < all.len() ==> !is_light_square(#[trigger] all[i]));
                }
            }
        }
    }
}

/// Whether some square of `squares` is light (`light`) or dark.
pub open spec fn has_square_of(squares: Seq<u8>, light: bool) -> bool {
    exists|i: int| 0 <= i < squares.len() && is_light_square(#[trigger] squares[i]) == light
}

/// Which square colours occur in `v`, added to those already seen.
fn scan_square_colours(v: &Vec<u8>, seen_light: bool, seen_dark: bool) -> (r: (bool, bool))
    ensures
        r.0 == (seen_light || has_square_of(v@, true)),
        r.1 == (seen_dark || has_square_of(v@, false)),
{
    let mut light = seen_light;
    let mut dark = seen_dark;
    let mut i: usize = 0;
    while i < v.len()
        invariant
            i <= v.len(),
            light == (seen_light || exists|j: int| 0 <= j < i && is_light_square(#[trigger] v@[j])),
            dark == (seen_dark || exists|j: int| 0 <= j < i && !is_light_square(#[trigger] v@[j])),
        decreases v.len() - i,
    {
        let sq = v[i];
        if (sq % 8 + sq / 8) % 2 == 1 {
            light = true;
        } else {
            dark = true;
        }
        i = i + 1;
    }
    (light, dark)
}

/// Whether all the bishops stand on squares of one colour.
fn bishops_are_single_color(white: &Vec<u8>, black: &Vec<u8>) -> (r: bool)
    ensures
        r == same_square_colour(white@ + black@),
{
    let (l1, d1) = scan_square_colours(white, false, false);
    let (light, dark) = scan_square_colours(black, l1, d1);
    proof {
        let all = white@ + black@;
        if has_square_of(all, true) {
            let j = choose|j: int| 0 <= j < all.len() && is_light_square(#[trigger] all[j]) == true;
            if j < white@.len() {
                assert(white@[j] == all[j]);
            } else {
                assert(black@[j - white@.len()] == all[j]);
            }
        }
        if has_square_of(all, false) {
            let j = choose|j: int| 0 <= j < all.len() && is_light_square(#[trigger] all[j]) == false;
            if j < white@.len() {
                assert(white@[j] == all[j]);
            } else {
                assert(black@[j - white@.len()] == all[j]);
            }
        }
        if has_square_of(white@, true) {
            let j = choose|j: int| 0 <= j < white@.len() && is_light_square(#[trigger] white@[j]) == true;
            assert(all[j] == white@[j]);
        }
        if has_square_of(white@, false) {
            let j = choose|j: int| 0 <= j < white@.len() && is_light_square(#[trigger] white@[j]) == false;
            assert(all[j] == white@[j]);
        }
        if has_square_of(black@, true) {
            let j = choose|j: int| 0 <= j < black@.len() && is_light_square(#[trigger] black@[j]) == true;
            assert(all[white@.len() + j] == black@[j]);
        }
        if has_square_of(black@, false) {
            let j = choose|j: int| 0 <= j < black@.len() && is_light_square(#[trigger] black@[j]) == false;
            assert(all[white@.len() + j] == black@[j]);
        }
    }
    !(light && dark)
}

/// Whether neither side has enough material left to checkmate.
pub fn has_insufficient_material(material: &Material) -> (r: bool)
    ensures
        r == material.spec_insufficient(),
{
    if !(material.pawns == 0 && material.rooks == 0 && material.queens == 0) {
        return false;
    }
    let bishops: u128 = material.white_bishops.len() as u128 + material.black_bishops.len() as u128;
    let knights: u128 = material.white_knights as u128 + material.black_knights as u128;
    let total_minors: u128 = bishops + knights;
    if total_minors == 0 || total_minors == 1 {
        return true;
    }
    if bishops == 0 {
        return total_minors <= 2;
    }
    if knights == 0 {
        if bishops == 1 {
            return true;
        }
        return bishops_are_single_color(&material.white_bishops, &material.black_bishops);
    }
    bishops == 1 && knights == 1
}

/// The result of a game whose side to move has no move to play.
pub open spec fn spec_no_move_result(material: &Material, status: BoardStatus, side_to_move: Side) -> GameResult {
    if material.spec_insufficient() {
        GameResult::Draw
    } else {
        match status {
            BoardStatus::Drawn => GameResult::Draw,
            _ => loss_for(side_to_move),
        }
    }
}

/// Decides the game when the side to move produced no move: a draw on
/// insufficient material or a drawn position, otherwise a loss for the side
/// to move.
pub fn resolve_no_move_result(material: &Material, status: BoardStatus, side_to_move: Side) -> (r: GameResult)
    ensures
        r == spec_no_move_result(material, status, side_to_move),
{
    if has_insufficient_material(material) {
        return GameResult::Draw;
    }
    match status {
        BoardStatus::Drawn => GameResult::Draw,
        BoardStatus::Won | BoardStatus::Ongoing => opponent_win(side_to_move),
    }
}

/// `a + b`, or `u64::MAX` when the sum does not fit.
pub open spec fn saturating_sum(a: int, b: int) -> int {
    if a + b > u64::MAX {
        u64::MAX as int
    } else {
        a + b
    }
}

/// How long, in milliseconds, to wait for an engine's move: its remaining
/// time plus the increment plus a grace period, saturating at `u64::MAX`.
pub fn per_move_timeout(remaining_ms: u64, increment_ms: u64) -> (r: u64)
    ensures
        r == saturating_sum(saturating_sum(remaining_ms as int, increment_ms as int), UCI_CLOCK_GRACE_MS as int),
{
    remaining_ms.saturating_add(increment_ms).saturating_add(UCI_CLOCK_GRACE_MS)
}

/// Whether two boards are the same position in the sense of
/// `cozy_chess::Board::same_position` (the FIDE repetition rule: the same
/// pieces, side to move, castling rights and capturable en-passant square).
/// The contract claims only that equal boards are the same position, as the
/// method's source shows; which other boards count as the same is left
/// unsaid.
#[verifier::external_body]
fn same_position(a: &cozy_chess::Board, b: &cozy_chess::Board) -> (r: bool)
    ensures
        *a == *b ==> r,
{
    a.same_position(b)
}

/// Copies a board with its derived `Clone`, which copies every field.
#[verifier::external_body]
fn clone_board(board: &cozy_chess::Board) -> (r: cozy_chess::Board)
    ensures
        r == *board,
{
    board.clone()
}

/// How many boards of `seen` equal `board`.
pub open spec fn count_equal(seen: Seq<cozy_chess::Board>, board: cozy_chess::Board) -> nat
    decreases seen.len(),
{
    if seen.len() == 0 {
        0
    } else {
        count_equal(seen.drop_last(), board) + if seen.last() == board {
            1nat
        } else {
            0nat
        }
    }
}

/// The smaller of `a` and `b`.
pub open spec fn min_int(a: int, b: int) -> int {
    if a <= b {
        a
    } else {
        b
    }
}

/// Records `board` among the positions seen so far in a game and returns
/// how many times its position has now occurred, at most 255: one more than
/// the earlier boards that `cozy_chess` finds to be the same position. Equal
/// boards always count; the contract leaves open which other boards do.
pub fn record_position(seen_positions: &mut Vec<cozy_chess::Board>, board: &cozy_chess::Board) -> (r: u8)
    ensures
        final(seen_positions)@ == old(seen_positions)@.push(*board),
        1 <= r,
        r <= old(seen_positions).len() + 1,
        r >= min_int(count_equal(old(seen_positions)@, *board) as int + 1, 255),
{
    let mut count: usize = 1;
    let mut k: usize = 0;
    while k < seen_positions.len()
        invariant
            k <= seen_positions.len(),
            1 <= count <= k + 1,
            count >= min_int(count_equal(seen_positions@.take(k as int), *board) as int + 1, 255),
        decreases seen_positions.len() - k,
    {
        proof {
            assert(seen_positions@.take(k + 1).drop_last() =~= seen_positions@.take(k as int));
            assert(seen_positions@.take(k + 1).last() == seen_positions@[k as int]);
        }
        if same_position(&seen_positions[k], board) && count < 255 {
            count = count + 1;
        }
        k = k + 1;
    }
    assert(seen_positions@.take(k as int) =~= seen_positions@);
    seen_positions.push(clone_board(board));
    if count > 255 {
        255
    } else {
        count as u8
    }
}

/// One more than `c`, at most 255.
pub open spec fn saturating_inc(c: u8) -> u8 {
    if c == 255 {
        255
    } else {
        (c + 1) as u8
    }
}

/// Counts one more occurrence of a position by its hash, at most 255, and
/// returns the count: the self-play games' repetition counter.
pub fn record_position_hash(seen: &mut HashMap<u64, u8>, hash: u64) -> (r: u8)
    ensures
        r == (if old(seen)@.contains_key(hash) {
            saturating_inc(old(seen)@[hash])
        } else {
            1u8
        }),
        final(seen)@ == old(seen)@.insert(hash, r),
{
    broadcast use vstd::std_specs::hash::group_hash_axioms;

    let count: u8 = match seen.get(&hash) {
        Some(c) => if *c == 255 {
            255
        } else {
            *c + 1
        },
        None => 1,
    };
    seen.insert(hash, count);
    count
}

} // verus!
