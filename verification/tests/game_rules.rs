use cozy_chess::{BitBoard, Board, Color, GameStatus, Piece};
use crucible::chess_rules::{
    has_insufficient_material, opponent_win, per_move_timeout, perspective_result,
    record_position, record_position_hash, resolve_no_move_result, BoardStatus, Material, Side,
    MAX_MOVES_PER_GAME,
};
use std::collections::HashMap;
use crucible::epd::parse_opening_board;
use crucible::match_runner::{
    game_slot, sample_source, GameRules, MatchTally, Referee, SearchOutcome, SearchVerdict,
    TrainingSampleSource, TurnPlan,
};
use crucible::types::{GameResult, TimeControl};
use crucible::uci::{
    go_clock_command, go_nodes_command, is_valid_move, parse_info, plays_a_move, position_argument,
    position_command, setoption_command, SearchInfo, SearchScore,
};

fn squares(bb: BitBoard) -> Vec<u8> {
    bb.into_iter().map(|sq| sq as u8).collect()
}

fn material_of(board: &Board) -> Material {
    Material {
        pawns: board.pieces(Piece::Pawn).len(),
        rooks: board.pieces(Piece::Rook).len(),
        queens: board.pieces(Piece::Queen).len(),
        white_knights: board.colored_pieces(Color::White, Piece::Knight).len(),
        black_knights: board.colored_pieces(Color::Black, Piece::Knight).len(),
        white_bishops: squares(board.colored_pieces(Color::White, Piece::Bishop)),
        black_bishops: squares(board.colored_pieces(Color::Black, Piece::Bishop)),
    }
}

fn status_of(board: &Board) -> BoardStatus {
    match board.status() {
        GameStatus::Ongoing => BoardStatus::Ongoing,
        GameStatus::Won => BoardStatus::Won,
        GameStatus::Drawn => BoardStatus::Drawn,
    }
}

fn side_of(board: &Board) -> Side {
    match board.side_to_move() {
        Color::White => Side::White,
        Color::Black => Side::Black,
    }
}

fn no_move_result(board: &Board) -> GameResult {
    resolve_no_move_result(&material_of(board), status_of(board), side_of(board))
}

#[test]
fn none_result_on_stalemate_is_draw() {
    let board = parse_opening_board("7k/5Q2/7K/8/8/8/8/8 b - - 0 1").unwrap();
    assert_eq!(no_move_result(&board), GameResult::Draw);
}

#[test]
fn none_result_on_checkmate_is_loss_for_side_to_move() {
    let board = parse_opening_board("7k/6Q1/6K1/8/8/8/8/8 b - - 0 1").unwrap();
    assert_eq!(no_move_result(&board), GameResult::WhiteWin);
}

#[test]
fn repeated_positions_trigger_threefold_counter() {
    let board = Board::default();
    let mut seen_positions = Vec::new();
    assert_eq!(record_position(&mut seen_positions, &board), 1);
    assert_eq!(record_position(&mut seen_positions, &board), 2);
    assert_eq!(record_position(&mut seen_positions, &board), 3);
}

#[test]
fn repetition_uses_fide_equivalent_positions() {
    let board_a =
        parse_opening_board("rnbqkbnr/pppppppp/8/8/4P3/8/PPPP1PPP/RNBQKBNR b KQkq e3 0 1").unwrap();
    let board_b =
        parse_opening_board("rnbqkbnr/pppppppp/8/8/4P3/8/PPPP1PPP/RNBQKBNR b KQkq - 4 3").unwrap();
    assert_ne!(board_a.hash(), board_b.hash());
    assert!(board_a.same_position(&board_b));

    let mut seen_positions = Vec::new();
    assert_eq!(record_position(&mut seen_positions, &board_a), 1);
    assert_eq!(record_position(&mut seen_positions, &board_b), 2);
}

#[test]
fn different_positions_do_not_repeat() {
    let start = Board::default();
    let after = parse_opening_board("rnbqkbnr/pppppppp/8/8/4P3/8/PPPP1PPP/RNBQKBNR b KQkq - 0 1").unwrap();
    let mut seen_positions = Vec::new();
    assert_eq!(record_position(&mut seen_positions, &start), 1);
    assert_eq!(record_position(&mut seen_positions, &after), 1);
    assert_eq!(record_position(&mut seen_positions, &start), 2);
    assert_eq!(seen_positions.len(), 3);
}

#[test]
fn position_hash_counter_saturates() {
    let mut seen: HashMap<u64, u8> = HashMap::new();
    assert_eq!(record_position_hash(&mut seen, 7), 1);
    assert_eq!(record_position_hash(&mut seen, 7), 2);
    assert_eq!(record_position_hash(&mut seen, 9), 1);
    seen.insert(7, 255);
    assert_eq!(record_position_hash(&mut seen, 7), 255);
    assert_eq!(seen.get(&9), Some(&1));
}

#[test]
fn insufficient_material_bare_kings_is_draw() {
    let board = parse_opening_board("8/8/8/8/8/8/4k3/4K3 w - - 0 1").unwrap();
    assert!(has_insufficient_material(&material_of(&board)));
    assert_eq!(no_move_result(&board), GameResult::Draw);
}

#[test]
fn insufficient_material_single_minor_is_draw() {
    let board = parse_opening_board("8/8/8/8/8/8/4k3/3NK3 w - - 0 1").unwrap();
    assert!(has_insufficient_material(&material_of(&board)));
}

#[test]
fn parses_standard_uci_castling_for_cozy_chess() {
    let board = parse_opening_board("r3k2r/8/8/8/8/8/8/R3K2R w KQkq - 0 1").unwrap();
    let mv = cozy_chess::util::parse_uci_move(&board, "e1g1").expect("failed to parse castle");
    assert!(board.is_legal(mv));
}

#[test]
fn black_to_move_opening_uses_ellipsis_pgn_prefix() {
    let board = parse_opening_board("7k/8/8/8/8/8/8/7K b - - 0 42").unwrap();
    let mut referee = Referee::new(GameRules::Match, TimeControl::stc());
    referee.record_move(side_of(&board), board.fullmove_number() as u32, "");
    assert_eq!(referee.pgn, "42... ");
}

#[test]
fn perspective_result_is_relative_to_side_to_move() {
    assert_eq!(perspective_result(GameResult::WhiteWin, Side::White), GameResult::WhiteWin);
    assert_eq!(perspective_result(GameResult::WhiteWin, Side::Black), GameResult::BlackWin);
    assert_eq!(perspective_result(GameResult::BlackWin, Side::White), GameResult::BlackWin);
    assert_eq!(perspective_result(GameResult::BlackWin, Side::Black), GameResult::WhiteWin);
}

#[test]
fn no_move_result_uses_board_side_to_move() {
    let board = parse_opening_board("7k/6Q1/6K1/8/8/8/8/8 b - - 0 1").unwrap();
    let referee = Referee::new(GameRules::SelfPlay, TimeControl::stc());
    let verdict = referee.judge_search(
        SearchOutcome::NoMove,
        side_of(&board),
        &material_of(&board),
        status_of(&board),
    );
    assert_eq!(verdict, SearchVerdict::Finish(GameResult::WhiteWin));
}

#[test]
fn perspective_twice_is_the_identity() {
    for result in [GameResult::WhiteWin, GameResult::BlackWin, GameResult::Draw] {
        for side in [Side::White, Side::Black] {
            assert_eq!(perspective_result(perspective_result(result, side), side), result);
        }
    }
}

#[test]
fn bishops_on_one_colour_cannot_mate() {
    // f1 (5) and c8 (58) are both light squares; f8 (61) is dark.
    let same = Material {
        pawns: 0,
        rooks: 0,
        queens: 0,
        white_knights: 0,
        black_knights: 0,
        white_bishops: vec![5],
        black_bishops: vec![58],
    };
    assert!(has_insufficient_material(&same));
    let opposite = Material { black_bishops: vec![61], ..same };
    assert!(!has_insufficient_material(&opposite));
    let knight_pair = Material {
        pawns: 0,
        rooks: 0,
        queens: 0,
        white_knights: 2,
        black_knights: 0,
        white_bishops: vec![],
        black_bishops: vec![],
    };
    assert!(has_insufficient_material(&knight_pair));
    let with_pawn = Material { pawns: 1, ..knight_pair };
    assert!(!has_insufficient_material(&with_pawn));
}

#[test]
fn move_timeouts_add_increment_and_grace() {
    assert_eq!(per_move_timeout(10_000, 100), 11_100);
    assert_eq!(per_move_timeout(u64::MAX - 5, 100), u64::MAX);
}

#[test]
fn forfeits_go_to_the_opponent() {
    assert_eq!(opponent_win(Side::White), GameResult::BlackWin);
    assert_eq!(opponent_win(Side::Black), GameResult::WhiteWin);
}

#[test]
fn referee_plans_turns_and_charges_clocks() {
    let mut referee = Referee::new(GameRules::Match, TimeControl::stc());
    assert_eq!(
        referee.plan_turn(Side::White),
        TurnPlan::Clock { wtime: 10_000, btime: 10_000, increment_ms: 100, timeout_ms: 11_100 }
    );
    assert_eq!(referee.charge_clock(Side::White, 400), None);
    assert_eq!(referee.wtime, 9_600);
    referee.record_move(Side::White, 1, "e2e4");
    assert_eq!(referee.wtime, 9_700);
    assert_eq!(referee.pgn, "1. e2e4");
    referee.record_move(Side::Black, 1, "e7e5");
    assert_eq!(referee.pgn, "1. e2e4 e7e5");
    assert_eq!(referee.charge_clock(Side::Black, 20_000), Some(GameResult::WhiteWin));
    assert_eq!(referee.btime, 0);

    let mut capped = Referee::new(GameRules::Match, TimeControl { base_time_ms: 0, increment_ms: 0, nodes: Some(5000) });
    assert_eq!(capped.plan_turn(Side::Black), TurnPlan::Nodes(5000));
    capped.move_count = MAX_MOVES_PER_GAME;
    assert_eq!(capped.plan_turn(Side::Black), TurnPlan::Finish(GameResult::Draw));
}

#[test]
fn referee_judges_positions_by_its_rules() {
    let bare = Material {
        pawns: 0,
        rooks: 0,
        queens: 0,
        white_knights: 0,
        black_knights: 0,
        white_bishops: vec![],
        black_bishops: vec![],
    };
    let rated = Referee::new(GameRules::Match, TimeControl::stc());
    let selfplay = Referee::new(GameRules::SelfPlay, TimeControl::stc());
    assert_eq!(rated.judge_after_move(Side::White, 1, &bare, BoardStatus::Ongoing), Some(GameResult::Draw));
    assert_eq!(selfplay.judge_after_move(Side::White, 1, &bare, BoardStatus::Ongoing), None);
    assert_eq!(selfplay.judge_after_move(Side::White, 3, &bare, BoardStatus::Ongoing), Some(GameResult::Draw));
    assert_eq!(selfplay.judge_after_move(Side::Black, 1, &bare, BoardStatus::Won), Some(GameResult::BlackWin));
    assert_eq!(rated.judge_search(SearchOutcome::EngineFailed, Side::White, &bare, BoardStatus::Ongoing), SearchVerdict::Finish(GameResult::BlackWin));
    assert_eq!(selfplay.judge_search(SearchOutcome::EngineFailed, Side::White, &bare, BoardStatus::Ongoing), SearchVerdict::Abort);
    assert_eq!(selfplay.judge_search(SearchOutcome::IllegalMove, Side::Black, &bare, BoardStatus::Ongoing), SearchVerdict::Finish(GameResult::WhiteWin));
    assert_eq!(rated.judge_search(SearchOutcome::LegalMove, Side::Black, &bare, BoardStatus::Ongoing), SearchVerdict::Play);
}

#[test]
fn match_tally_counts_from_the_development_side() {
    let mut tally = MatchTally::new();
    tally.record(GameResult::WhiteWin, false);
    tally.record(GameResult::WhiteWin, true);
    tally.record(GameResult::BlackWin, true);
    tally.record(GameResult::Draw, true);
    assert_eq!(tally, MatchTally { wins: 2, draws: 1, losses: 1 });
}

#[test]
fn games_pair_openings_with_both_colours() {
    assert_eq!(game_slot(1, 3), (0, false));
    assert_eq!(game_slot(2, 3), (0, true));
    assert_eq!(game_slot(3, 3), (1, false));
    assert_eq!(game_slot(7, 3), (0, false));
    assert_eq!(sample_source(Side::White, false), TrainingSampleSource::Dev);
    assert_eq!(sample_source(Side::White, true), TrainingSampleSource::Base);
    assert_eq!(sample_source(Side::Black, true), TrainingSampleSource::Dev);
}

#[test]
fn reads_depth_and_score_from_info_lines() {
    assert_eq!(
        parse_info("info depth 12 seldepth 15 score cp 34 nodes 5000 pv e2e4 e7e5"),
        Some(SearchInfo { depth: 12, score: Some(SearchScore::Cp(34)) })
    );
    assert_eq!(
        parse_info("info depth 20 score mate -3"),
        Some(SearchInfo { depth: 20, score: Some(SearchScore::Mate(-3)) })
    );
    assert_eq!(parse_info("info depth 7"), Some(SearchInfo { depth: 7, score: None }));
    // the last depth and score win
    assert_eq!(
        parse_info("info depth 3 score cp 10 depth 4 score cp -2147483648"),
        Some(SearchInfo { depth: 4, score: Some(SearchScore::Cp(-2147483648)) })
    );
    // an unreadable score keeps the one before
    assert_eq!(
        parse_info("info depth 5 score cp 9 score cp x"),
        Some(SearchInfo { depth: 5, score: Some(SearchScore::Cp(9)) })
    );
    assert_eq!(parse_info("info depth +6 score cp +8"), Some(SearchInfo { depth: 6, score: Some(SearchScore::Cp(8)) }));
}

#[test]
fn info_lines_without_a_depth_report_nothing() {
    assert_eq!(parse_info("info score cp 10"), None);
    assert_eq!(parse_info("info depth x score cp 10"), None);
    assert_eq!(parse_info("info depth 4 score cp 1 depth"), None);
    assert_eq!(parse_info("bestmove e2e4"), None);
    assert_eq!(parse_info("   "), None);
    assert_eq!(parse_info("info depth -1"), None);
    assert_eq!(parse_info("info depth 4294967296"), None);
    assert_eq!(parse_info("info depth 1 score cp 2147483648"), Some(SearchInfo { depth: 1, score: None }));
    assert_eq!(parse_info("info depth 1 score cp -+5"), Some(SearchInfo { depth: 1, score: None }));
}

#[test]
fn recognises_the_shape_of_uci_moves() {
    assert!(is_valid_move("e2e4"));
    assert!(is_valid_move("e7e8q"));
    assert!(is_valid_move("a1h8"));
    assert!(!is_valid_move("e7e8k"));
    assert!(!is_valid_move("e9e4"));
    assert!(!is_valid_move("i2e4"));
    assert!(!is_valid_move("e2e"));
    assert!(!is_valid_move("0000"));
    assert!(!is_valid_move("e2e4qq"));
}

#[test]
fn uci_commands_are_spelled_as_the_protocol_wants() {
    assert_eq!(position_argument("startpos"), "startpos");
    assert_eq!(position_argument("8/8/8/8/8/8/4k3/4K3 w - - 0 1"), "fen 8/8/8/8/8/8/4k3/4K3 w - - 0 1");
    assert_eq!(position_command("startpos", &vec![]), "position startpos");
    assert_eq!(
        position_command("startpos", &vec!["e2e4".to_string(), "e7e5".into(), "g1f3".into()]),
        "position startpos moves e2e4 e7e5 g1f3"
    );
    assert_eq!(go_clock_command(10000, 9500, 100, 0), "go wtime 10000 btime 9500 winc 100 binc 0");
    assert_eq!(go_nodes_command(25000), "go nodes 25000");
    assert_eq!(setoption_command("Hash", "16"), "setoption name Hash value 16");
    assert!(plays_a_move("e2e4"));
    assert!(!plays_a_move("(none)"));
    assert!(!plays_a_move("0000"));
}
