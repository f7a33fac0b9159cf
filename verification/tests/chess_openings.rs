use crucible::chess_rules::{STARTING_POSITION_EPD, STARTING_POSITION_FEN};
use crucible::epd::{
    assemble_opening_fen, normalize_opening_epd, parse_epd_operations, parse_opening_board,
    parse_opening_book, split_epd_position, ClockOpcode, OpeningError,
};

#[test]
fn normalizes_epd_to_full_fen() {
    assert_eq!(
        normalize_opening_epd(STARTING_POSITION_EPD).unwrap(),
        STARTING_POSITION_FEN
    );
}

#[test]
fn epd_clock_operations_set_fen_counters() {
    let fen = normalize_opening_epd("7k/8/8/8/8/8/8/7K b - - hmvc 12; fmvn 42;").unwrap();
    assert_eq!(fen, "7k/8/8/8/8/8/8/7K b - - 12 42");
}

#[test]
fn ignores_non_position_epd_operations() {
    let fen = normalize_opening_epd(
        r#"rnbqkbnr/pppppppp/8/8/8/8/PPPPPPPP/RNBQKBNR w KQkq - bm e4; id "start position";"#,
    )
    .unwrap();
    assert_eq!(fen, STARTING_POSITION_FEN);
}

#[test]
fn rejects_startpos_in_opening_book() {
    assert!(normalize_opening_epd("startpos").is_err());
}

#[test]
fn rejects_full_fen_as_opening_book_line() {
    assert!(normalize_opening_epd(STARTING_POSITION_FEN).is_err());
}

#[test]
fn splits_position_fields_from_operations() {
    let (position, operations) = split_epd_position("  7k/8/8/8/8/8/8/7K   b  -  -   hmvc 3;  ").unwrap();
    assert_eq!(position, "7k/8/8/8/8/8/8/7K b - -");
    assert_eq!(operations, "hmvc 3;");
    assert_eq!(split_epd_position("a b c"), Err(OpeningError::FieldCount));
}

#[test]
fn operation_errors_are_reported() {
    assert_eq!(parse_epd_operations("hmvc 101;"), Err(OpeningError::HalfmoveTooLarge));
    assert_eq!(parse_epd_operations("fmvn 0;"), Err(OpeningError::FullmoveZero));
    assert_eq!(
        parse_epd_operations("hmvc;"),
        Err(OpeningError::MissingValue(ClockOpcode::Hmvc))
    );
    assert_eq!(
        parse_epd_operations("fmvn 1 2;"),
        Err(OpeningError::TooManyOperands(ClockOpcode::Fmvn))
    );
    assert_eq!(
        parse_epd_operations("hmvc x;"),
        Err(OpeningError::InvalidValue(ClockOpcode::Hmvc))
    );
    assert_eq!(
        parse_epd_operations("fmvn 70000;"),
        Err(OpeningError::InvalidValue(ClockOpcode::Fmvn))
    );
    assert_eq!(parse_epd_operations("hmvc 1;;"), Err(OpeningError::EmptyOperation));
    assert_eq!(parse_epd_operations("id \"open"), Err(OpeningError::UnterminatedString));
    assert_eq!(parse_epd_operations("hmvc 1"), Err(OpeningError::UnterminatedOperations));
    assert_eq!(parse_epd_operations("id \"a;b\";").map(|c| c.fullmove_number), Ok(1));
}

#[test]
fn counters_accept_a_plus_sign_and_leading_zeros() {
    let clocks = parse_epd_operations("hmvc +007; fmvn 0042;").unwrap();
    assert_eq!(clocks.halfmove_clock, 7);
    assert_eq!(clocks.fullmove_number, 42);
}

#[test]
fn assembles_fen_from_rendered_position() {
    assert_eq!(
        assemble_opening_fen("8/8/8/8/8/8/8/K6k w - -", "hmvc 5;").unwrap(),
        "8/8/8/8/8/8/8/K6k w - - 5 1"
    );
    assert_eq!(
        assemble_opening_fen("8/8/8/8/8/8/8/K6k w - -", "").unwrap(),
        "8/8/8/8/8/8/8/K6k w - - 0 1"
    );
}

#[test]
fn illegal_and_invalid_positions_are_refused() {
    assert_eq!(
        normalize_opening_epd("zz/8/8/8/8/8/8/8 w - -"),
        Err(OpeningError::InvalidPosition)
    );
    assert_eq!(
        normalize_opening_epd("8/8/8/8/8/8/8/8 w - -"),
        Err(OpeningError::IllegalPosition)
    );
    assert!(parse_opening_board("not a fen").is_err());
    assert!(parse_opening_board(STARTING_POSITION_FEN).is_ok());
}

#[test]
fn parses_opening_books_line_by_line() {
    let book = "# openings\n\n7k/8/8/8/8/8/8/7K b - - hmvc 12; fmvn 42;\r\n  rnbqkbnr/pppppppp/8/8/8/8/PPPPPPPP/RNBQKBNR w KQkq -\n";
    let openings = parse_opening_book(book).unwrap().unwrap();
    assert_eq!(
        openings,
        vec![
            "7k/8/8/8/8/8/8/7K b - - 12 42".to_string(),
            STARTING_POSITION_FEN.to_string()
        ]
    );
    assert_eq!(parse_opening_book("# only comments\n\n").unwrap(), None);
    let err = parse_opening_book("# header\nstartpos\n").unwrap_err();
    assert_eq!(err.line, 2);
    assert_eq!(err.error, OpeningError::FieldCount);
}
