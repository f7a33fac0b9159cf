//! The decisions of a game between two engines: whose clock runs, when a
//! game ends and with what result, how the move text grows, and how a match
//! tallies its games.
use vstd::prelude::*;
use crate::chess_rules::{
    has_insufficient_material, loss_for, opponent_win, per_move_timeout, resolve_no_move_result,
    saturating_sum, spec_no_move_result, win_for, BoardStatus, Material, Side,
    MAX_MOVES_PER_GAME, UCI_CLOCK_GRACE_MS,
};
use crate::text::{decimal, push_char, push_decimal};
use crate::types::{GameResult, TimeControl};

verus! {

/// Which engine of a match produced a training sample.
#[derive(Debug, Clone, Copy, PartialEq, Eq, Structural)]
pub enum TrainingSampleSource {
    Dev,
    Base,
}

/// The engine that plays `side`: the development engine has White unless the
/// colours are swapped.
pub open spec fn spec_sample_source(side: Side, swap_colors: bool) -> TrainingSampleSource {
    if (side == Side::White) != swap_colors {
        TrainingSampleSource::Dev
    } else {
        TrainingSampleSource::Base
    }
}

/// The engine that searched for `side` in a game with the given colour swap.
pub fn sample_source(side: Side, swap_colors: bool) -> (r: TrainingSampleSource)
    ensures
        r == spec_sample_source(side, swap_colors),
{
    let is_white_turn = match side {
        Side::White => true,
        Side::Black => false,
    };
    if swap_colors == is_white_turn {
        TrainingSampleSource::Base
    } else {
        TrainingSampleSource::Dev
    }
}

/// Which rules a game is refereed by.
#[derive(Debug, Clone, Copy, PartialEq, Eq, Structural)]
pub enum GameRules {
    /// A rated match game: insufficient material draws, and a failing
    /// engine forfeits.
    Match,
    /// A self-play game for training data: only the board's own status
    /// decides, and a failing engine aborts the game.
    SelfPlay,
}

/// How the next search of a game is to be run, or that the game is over.
#[derive(Debug, Clone, Copy, PartialEq, Eq, Structural)]
pub enum TurnPlan {
    Finish(GameResult),
    /// Search a fixed number of nodes.
    Nodes(u64),
    /// Search on the clock, giving up after `timeout_ms`.
    Clock { wtime: u64, btime: u64, increment_ms: u64, timeout_ms: u64 },
}

/// What came back from the engine whose turn it was.
#[derive(Debug, Clone, Copy, PartialEq, Eq, Structural)]
pub enum SearchOutcome {
    /// The search itself failed.
    EngineFailed,
    /// The engine answered without a move, or with a null move.
    NoMove,
    /// The move could not be read as a move of this position.
    UnparsableMove,
    /// The move reads as a move but is not legal here.
    IllegalMove,
    /// A legal move.
    LegalMove,
}

/// What the referee makes of a search outcome.
#[derive(Debug, Clone, Copy, PartialEq, Eq, Structural)]
pub enum SearchVerdict {
    /// Play the move and go on.
    Play,
    /// The game is over.
    Finish(GameResult),
    /// The game is abandoned as failed.
    Abort,
}

/// The state of a game between two engines, apart from the board.
pub struct Referee {
    pub rules: GameRules,
    pub time_control: TimeControl,
    /// White's remaining time in milliseconds.
    pub wtime: u64,
    /// Black's remaining time in milliseconds.
    pub btime: u64,
    /// Moves played so far.
    pub move_count: u32,
    /// The moves so far in movetext form, such as `1. e2e4 e7e5`.
    pub pgn: String,
}

/// The clock of `side`.
pub open spec fn clock_of(wtime: u64, btime: u64, side: Side) -> u64 {
    match side {
        Side::White => wtime,
        Side::Black => btime,
    }
}

/// What a move adds to the movetext: a separating space after earlier moves,
/// the move number before a White move (or before a first move by Black, with
/// an ellipsis), then the move.
pub open spec fn pgn_after_move(pgn: Seq<char>, side: Side, fullmove: nat, first_move: bool, mv: Seq<char>) -> Seq<char> {
    let sep = if pgn.len() > 0 { seq![' '] } else { Seq::<char>::empty() };
    let number = if side == Side::White {
        decimal(fullmove) + seq!['.', ' ']
    } else if first_move {
        decimal(fullmove) + seq!['.', '.', '.', ' ']
    } else {
        Seq::<char>::empty()
    };
    pgn + sep + number + mv
}

impl Referee {
    /// A referee for a game that has not started: both clocks full.
    pub fn new(rules: GameRules, time_control: TimeControl) -> (r: Referee)
        ensures
            r.rules == rules,
            r.time_control == time_control,
            r.wtime == time_control.base_time_ms,
            r.btime == time_control.base_time_ms,
            r.move_count == 0,
            r.pgn@ == Seq::<char>::empty(),
    {
        Referee {
            rules,
            time_control,
            wtime: time_control.base_time_ms,
            btime: time_control.base_time_ms,
            move_count: 0,
            pgn: String::new(),
        }
    }

    /// The plan for the turn of `side`: a draw once the move limit is
    /// reached, a node-limited search when the time control sets nodes, and
    /// otherwise a search on the clock with `side`'s remaining time plus the
    /// increment and a grace period as the timeout.
    pub open spec fn spec_plan_turn(&self, side: Side) -> TurnPlan {
        if self.move_count >= MAX_MOVES_PER_GAME {
            TurnPlan::Finish(GameResult::Draw)
        } else {
            match self.time_control.nodes {
                Some(n) => TurnPlan::Nodes(n),
                None => TurnPlan::Clock {
                    wtime: self.wtime,
                    btime: self.btime,
                    increment_ms: self.time_control.increment_ms,
                    timeout_ms: saturating_sum(
                        saturating_sum(
                            clock_of(self.wtime, self.btime, side) as int,
                            self.time_control.increment_ms as int,
                        ),
                        UCI_CLOCK_GRACE_MS as int,
                    ) as u64,
                },
            }
        }
    }

    /// How the turn of `side` is to be played.
    pub fn plan_turn(&self, side: Side) -> (r: TurnPlan)
        ensures
            r == self.spec_plan_turn(side),
    {
        if self.move_count >= MAX_MOVES_PER_GAME {
            return TurnPlan::Finish(GameResult::Draw);
        }
        match self.time_control.nodes {
            Some(n) => TurnPlan::Nodes(n),
            None => {
                let remaining = match side {
                    Side::White => self.wtime,
                    Side::Black => self.btime,
                };
                TurnPlan::Clock {
                    wtime: self.wtime,
                    btime: self.btime,
                    increment_ms: self.time_control.increment_ms,
                    timeout_ms: per_move_timeout(remaining, self.time_control.increment_ms),
                }
            },
        }
    }

    /// Charges `elapsed_ms` of thinking to `side`'s clock. When the search
    /// took all of the time `side` had, `side` loses on time.
    pub fn charge_clock(&mut self, side: Side, elapsed_ms: u64) -> (r: Option<GameResult>)
        ensures
            ({
                let before = clock_of(old(self).wtime, old(self).btime, side);
                let after = if elapsed_ms >= before { 0 } else { before - elapsed_ms };
                &&& clock_of(final(self).wtime, final(self).btime, side) == after
                &&& r == (if elapsed_ms >= before { Some(loss_for(side)) } else { None })
            }),
            side == Side::White ==> final(self).btime == old(self).btime,
            side == Side::Black ==> final(self).wtime == old(self).wtime,
            final(self).rules == old(self).rules,
            final(self).time_control == old(self).time_control,
            final(self).move_count == old(self).move_count,
            final(self).pgn@ == old(self).pgn@,
    {
        let before = match side {
            Side::White => self.wtime,
            Side::Black => self.btime,
        };
        let after = before.saturating_sub(elapsed_ms);
        match side {
            Side::White => self.wtime = after,
            Side::Black => self.btime = after,
        }
        if elapsed_ms >= before {
            Some(opponent_win(side))
        } else {
            None
        }
    }

    /// The verdict on a search by `side`: a legal move is played; no move
    /// ends the game as the position decides; a bad move forfeits; a failed
    /// search forfeits in a match and aborts a self-play game, and so does an
    /// unreadable move in a self-play game.
    pub open spec fn spec_judge_search(
        &self,
        outcome: SearchOutcome,
        side: Side,
        material: &Material,
        status: BoardStatus,
    ) -> SearchVerdict {
        match outcome {
            SearchOutcome::LegalMove => SearchVerdict::Play,
            SearchOutcome::NoMove => SearchVerdict::Finish(self.spec_no_move(material, status, side)),
            SearchOutcome::IllegalMove => SearchVerdict::Finish(loss_for(side)),
            SearchOutcome::EngineFailed | SearchOutcome::UnparsableMove => if self.rules == GameRules::Match {
                SearchVerdict::Finish(loss_for(side))
            } else {
                SearchVerdict::Abort
            },
        }
    }

    /// The result when `side` has no move: under match rules also a draw on
    /// insufficient material; otherwise the board status decides.
    pub open spec fn spec_no_move(&self, material: &Material, status: BoardStatus, side: Side) -> GameResult {
        if self.rules == GameRules::Match {
            spec_no_move_result(material, status, side)
        } else {
            match status {
                BoardStatus::Drawn => GameResult::Draw,
                _ => loss_for(side),
            }
        }
    }

    /// Judges what the engine of `side` answered.
    pub fn judge_search(&self, outcome: SearchOutcome, side: Side, material: &Material, status: BoardStatus) -> (r: SearchVerdict)
        ensures
            r == self.spec_judge_search(outcome, side, material, status),
    {
        match outcome {
            SearchOutcome::LegalMove => SearchVerdict::Play,
            SearchOutcome::NoMove => {
                let result = match self.rules {
                    GameRules::Match => resolve_no_move_result(material, status, side),
                    GameRules::SelfPlay => match status {
                        BoardStatus::Drawn => GameResult::Draw,
                        BoardStatus::Won | BoardStatus::Ongoing => opponent_win(side),
                    },
                };
                SearchVerdict::Finish(result)
            },
            SearchOutcome::IllegalMove => SearchVerdict::Finish(opponent_win(side)),
            SearchOutcome::EngineFailed | SearchOutcome::UnparsableMove => match self.rules {
                GameRules::Match => SearchVerdict::Finish(opponent_win(side)),
                GameRules::SelfPlay => SearchVerdict::Abort,
            },
        }
    }

    /// Records the move `mv` that `side` played from a position with move
    /// number `fullmove`: it joins the movetext, the move count grows by one,
    /// and on a clock time control `side`'s clock gains the increment.
    pub fn record_move(&mut self, side: Side, fullmove: u32, mv: &str)
        requires
            old(self).move_count < MAX_MOVES_PER_GAME,
            old(self).time_control.nodes is None ==> clock_of(old(self).wtime, old(self).btime, side)
                + old(self).time_control.increment_ms <= u64::MAX,
        ensures
            final(self).pgn@ == pgn_after_move(old(self).pgn@, side, fullmove as nat, old(self).move_count == 0, mv@),
            final(self).move_count == old(self).move_count + 1,
            final(self).rules == old(self).rules,
            final(self).time_control == old(self).time_control,
            clock_of(final(self).wtime, final(self).btime, side) == clock_of(old(self).wtime, old(self).btime, side)
                + (if old(self).time_control.nodes is None { old(self).time_control.increment_ms } else { 0 }),
            side == Side::White ==> final(self).btime == old(self).btime,
            side == Side::Black ==> final(self).wtime == old(self).wtime,
    {
        let ghost before = self.pgn@;
        if !self.pgn.as_str().is_empty() {
            push_char(&mut self.pgn, ' ');
        }
        let ghost with_sep = self.pgn@;
        match side {
            Side::White => {
                push_decimal(&mut self.pgn, fullmove as u64);
                push_char(&mut self.pgn, '.');
                push_char(&mut self.pgn, ' ');
            },
            Side::Black => {
                if self.move_count == 0 {
                    push_decimal(&mut self.pgn, fullmove as u64);
                    push_char(&mut self.pgn, '.');
                    push_char(&mut self.pgn, '.');
                    push_char(&mut self.pgn, '.');
                    push_char(&mut self.pgn, ' ');
                }
            },
        }
        let ghost with_number = self.pgn@;
        self.pgn.append(mv);
        proof {
            let sep = if before.len() > 0 { seq![' '] } else { Seq::<char>::empty() };
            assert(with_sep =~= before + sep);
            let number = if side == Side::White {
                decimal(fullmove as nat) + seq!['.', ' ']
            } else if old(self).move_count == 0 {
                decimal(fullmove as nat) + seq!['.', '.', '.', ' ']
            } else {
                Seq::<char>::empty()
            };
            assert(with_number =~= with_sep + number);
            assert(self.pgn@ =~= before + sep + number + mv@);
        }
        self.move_count = self.move_count + 1;
        if self.time_control.nodes.is_none() {
            match side {
                Side::White => self.wtime = self.wtime + self.time_control.increment_ms,
                Side::Black => self.btime = self.btime + self.time_control.increment_ms,
            }
        }
    }

    /// The result after `mover` played, if the game is over: a third
    /// occurrence of the position draws, under match rules so does
    /// insufficient material, a mated opponent loses, and a drawn position
    /// draws.
    pub open spec fn spec_judge_after_move(
        &self,
        mover: Side,
        repetitions: u8,
        material: &Material,
        status: BoardStatus,
    ) -> Option<GameResult> {
        if repetitions >= 3 {
            Some(GameResult::Draw)
        } else if self.rules == GameRules::Match && material.spec_insufficient() {
            Some(GameResult::Draw)
        } else {
            match status {
                BoardStatus::Won => Some(win_for(mover)),
                BoardStatus::Drawn => Some(GameResult::Draw),
                BoardStatus::Ongoing => None,
            }
        }
    }

    /// Judges the position reached after `mover`'s move.
    pub fn judge_after_move(&self, mover: Side, repetitions: u8, material: &Material, status: BoardStatus) -> (r: Option<GameResult>)
        ensures
            r == self.spec_judge_after_move(mover, repetitions, material, status),
    {
        if repetitions >= 3 {
            return Some(GameResult::Draw);
        }
        if self.rules == GameRules::Match && has_insufficient_material(material) {
            return Some(GameResult::Draw);
        }
        match status {
            BoardStatus::Won => Some(match mover {
                Side::White => GameResult::WhiteWin,
                Side::Black => GameResult::BlackWin,
            }),
            BoardStatus::Drawn => Some(GameResult::Draw),
            BoardStatus::Ongoing => None,
        }
    }
}

/// Every game ends by the move limit: once a game has had its maximum number
/// of moves, the next plan is a draw, whatever the clocks say.
pub proof fn law_move_limit_draws(r: &Referee, side: Side)
    requires
        r.move_count >= MAX_MOVES_PER_GAME,
    ensures
        r.spec_plan_turn(side) == TurnPlan::Finish(GameResult::Draw),
{
}

/// On the clock, both engines are told White's and Black's own remaining
/// times: the plan for either side carries the referee's `wtime` as `wtime`
/// and its `btime` as `btime`, the two sides' plans differ at most in the
/// timeout, and the timeout is never shorter than the mover's remaining
/// time.
pub proof fn law_clock_plan_reports_each_clock(r: &Referee, side: Side)
    requires
        r.move_count < MAX_MOVES_PER_GAME,
        r.time_control.nodes is None,
    ensures
        r.spec_plan_turn(side) matches TurnPlan::Clock { wtime, btime, increment_ms, timeout_ms } && {
            &&& wtime == r.wtime
            &&& btime == r.btime
            &&& increment_ms == r.time_control.increment_ms
            &&& timeout_ms >= (match side { Side::White => r.wtime, Side::Black => r.btime })
        },
        r.spec_plan_turn(Side::White) matches TurnPlan::Clock { wtime: w1, btime: b1, .. } &&
            r.spec_plan_turn(Side::Black) matches TurnPlan::Clock { wtime: w2, btime: b2, .. } &&
            w1 == w2 && b1 == b2,
{
}

/// Wins, draws and losses of the development engine in a match.
#[derive(Debug, Clone, Copy, PartialEq, Eq, Structural)]
pub struct MatchTally {
    pub wins: u32,
    pub draws: u32,
    pub losses: u32,
}

/// `result` read from the development engine's side: it plays White unless
/// the colours are swapped.
pub open spec fn dev_view(result: GameResult, swap: bool) -> GameResult {
    if swap {
        match result {
            GameResult::WhiteWin => GameResult::BlackWin,
            GameResult::BlackWin => GameResult::WhiteWin,
            GameResult::Draw => GameResult::Draw,
        }
    } else {
        result
    }
}

/// The tally after one more game with `result`.
pub open spec fn spec_tally(t: MatchTally, result: GameResult, swap: bool) -> MatchTally {
    match dev_view(result, swap) {
        GameResult::WhiteWin => MatchTally { wins: (t.wins + 1) as u32, ..t },
        GameResult::BlackWin => MatchTally { losses: (t.losses + 1) as u32, ..t },
        GameResult::Draw => MatchTally { draws: (t.draws + 1) as u32, ..t },
    }
}

impl MatchTally {
    /// No games yet.
    pub fn new() -> (t: MatchTally)
        ensures
            t == (MatchTally { wins: 0, draws: 0, losses: 0 }),
    {
        MatchTally { wins: 0, draws: 0, losses: 0 }
    }

    /// Counts a finished game: a White win is a win for the development
    /// engine unless colours were swapped, when it is a loss, and the other
    /// way round for a Black win.
    pub fn record(&mut self, result: GameResult, swap: bool)
        requires
            old(self).wins < u32::MAX,
            old(self).draws < u32::MAX,
            old(self).losses < u32::MAX,
        ensures
            *final(self) == spec_tally(*old(self), result, swap),
    {
        match result {
            GameResult::WhiteWin => if !swap {
                self.wins = self.wins + 1;
            } else {
                self.losses = self.losses + 1;
            },
            GameResult::BlackWin => if !swap {
                self.losses = self.losses + 1;
            } else {
                self.wins = self.wins + 1;
            },
            GameResult::Draw => self.draws = self.draws + 1,
        }
    }
}

/// The colour of the development engine does not change how a game counts:
/// a result with swapped colours counts as the mirrored result without swap.
pub proof fn law_tally_ignores_colours(t: MatchTally, result: GameResult)
    ensures
        spec_tally(t, result, true) == spec_tally(t, dev_view(result, true), false),
{
}

/// Which opening and colour assignment game `game_number` of a match uses:
/// openings are played in turn, each twice, the second time with colours
/// swapped.
pub fn game_slot(game_number: u32, opening_count: usize) -> (r: (usize, bool))
    requires
        game_number >= 1,
        opening_count > 0,
    ensures
        r.0 == ((game_number - 1) / 2) % (opening_count as int),
        r.1 == ((game_number - 1) % 2 == 1),
{
    let index = ((game_number - 1) / 2) as usize;
    (index % opening_count, (game_number - 1) % 2 == 1)
}

} // verus!
