use move_accuracy::protocol::{parse_line, LineEvent, Score, ScoreError, MATE_SCORE};
use move_accuracy::session::{EngineConfig, ResponseReader, DEFAULT_ENGINE, DEFAULT_MOVETIME_MS};
use move_accuracy::text::{parse_i32, split_tokens};

fn chars(s: &str) -> Vec<char> {
    s.chars().collect()
}

#[test]
fn centipawn_line_parses_to_its_value() {
    let line = "info depth 12 seldepth 18 multipv 1 score cp 37 nodes 1234 nps 5000 pv e2e4";
    assert_eq!(parse_line(line), Ok(LineEvent::Scored(Score::Centipawns(37))));
}

#[test]
fn mate_line_parses_to_the_sentinel() {
    let line = "info depth 20 score mate -2 nodes 99 pv h5f7";
    assert_eq!(parse_line(line), Ok(LineEvent::Scored(Score::Mate)));
    assert_eq!(Score::Mate.value(), i32::MAX);
    assert_eq!(MATE_SCORE, i32::MAX);
}

#[test]
fn negative_centipawns_and_trailing_newline() {
    assert_eq!(
        parse_line("info depth 3 score cp -120\n"),
        Ok(LineEvent::Scored(Score::Centipawns(-120)))
    );
    assert_eq!(
        parse_line("info\tscore  cp\t+15 nodes 3\r\n"),
        Ok(LineEvent::Scored(Score::Centipawns(15)))
    );
}

#[test]
fn bestmove_line_finishes() {
    assert_eq!(parse_line("bestmove e2e4 ponder e7e5"), Ok(LineEvent::Finished));
    assert_eq!(parse_line("bestmove e2e4 score cp oops"), Ok(LineEvent::Finished));
}

#[test]
fn lines_without_score_are_ignored() {
    assert_eq!(parse_line("id name Stockfish 16"), Ok(LineEvent::Ignored));
    assert_eq!(parse_line("uciok"), Ok(LineEvent::Ignored));
    assert_eq!(parse_line(""), Ok(LineEvent::Ignored));
    assert_eq!(parse_line("info string scores are nice"), Ok(LineEvent::Ignored));
    assert_eq!(parse_line("  bestmove e2e4"), Ok(LineEvent::Ignored));
}

#[test]
fn malformed_scores_are_errors() {
    assert_eq!(parse_line("info depth 1 score"), Err(ScoreError::MissingKind));
    assert_eq!(parse_line("info score wdl 500 400 100"), Err(ScoreError::UnknownKind));
    assert_eq!(parse_line("info score cp"), Err(ScoreError::MissingValue));
    assert_eq!(parse_line("info score cp abc"), Err(ScoreError::MalformedValue));
    assert_eq!(parse_line("info score cp 2147483648"), Err(ScoreError::MalformedValue));
}

#[test]
fn only_the_first_score_token_counts() {
    assert_eq!(
        parse_line("info score cp 10 score cp 20"),
        Ok(LineEvent::Scored(Score::Centipawns(10)))
    );
}

#[test]
fn split_tokens_on_whitespace() {
    let toks = split_tokens("  info  depth\t5\n");
    assert_eq!(toks, vec![chars("info"), chars("depth"), chars("5")]);
    assert!(split_tokens("   ").is_empty());
    assert!(split_tokens("").is_empty());
}

#[test]
fn parse_i32_bounds_and_signs() {
    assert_eq!(parse_i32(&chars("0")), Some(0));
    assert_eq!(parse_i32(&chars("007")), Some(7));
    assert_eq!(parse_i32(&chars("+42")), Some(42));
    assert_eq!(parse_i32(&chars("-42")), Some(-42));
    assert_eq!(parse_i32(&chars("2147483647")), Some(i32::MAX));
    assert_eq!(parse_i32(&chars("-2147483648")), Some(i32::MIN));
    assert_eq!(parse_i32(&chars("2147483648")), None);
    assert_eq!(parse_i32(&chars("-2147483649")), None);
    assert_eq!(parse_i32(&chars("99999999999999999999")), None);
    assert_eq!(parse_i32(&chars("")), None);
    assert_eq!(parse_i32(&chars("-")), None);
    assert_eq!(parse_i32(&chars("+")), None);
    assert_eq!(parse_i32(&chars("12a")), None);
    assert_eq!(parse_i32(&chars("--1")), None);
}

#[test]
fn reader_keeps_the_last_score() {
    let mut reader = ResponseReader::new();
    assert_eq!(reader.evaluation, 0);
    assert_eq!(reader.feed("Stockfish 16 by the Stockfish developers"), Ok(false));
    assert_eq!(reader.evaluation, 0);
    assert_eq!(reader.feed("info depth 1 score cp 12 pv e2e4"), Ok(false));
    assert_eq!(reader.evaluation, 12);
    assert_eq!(reader.feed("info depth 2 score cp -8 pv e2e4 e7e5"), Ok(false));
    assert_eq!(reader.evaluation, -8);
    assert_eq!(reader.feed("bestmove e2e4 ponder e7e5"), Ok(true));
    assert_eq!(reader.evaluation, -8);
}

#[test]
fn reader_mate_and_errors() {
    let mut reader = ResponseReader::new();
    assert_eq!(reader.feed("info score mate 3"), Ok(false));
    assert_eq!(reader.evaluation, i32::MAX);
    assert_eq!(reader.feed("info score cp x"), Err(ScoreError::MalformedValue));
    assert_eq!(reader.evaluation, i32::MAX);
}

#[test]
fn reader_without_score_yields_zero() {
    let mut reader = ResponseReader::new();
    assert_eq!(reader.feed("readyok"), Ok(false));
    assert_eq!(reader.feed("bestmove (none)"), Ok(true));
    assert_eq!(reader.evaluation, 0);
}

#[test]
fn default_config() {
    let config = EngineConfig::default();
    assert_eq!(config.command, "stockfish");
    assert_eq!(DEFAULT_ENGINE, "stockfish");
    assert_eq!(config.movetime_ms, 1000);
    assert_eq!(DEFAULT_MOVETIME_MS, 1000);
}

#[test]
fn request_text_is_three_commands() {
    let config = EngineConfig::default();
    let fen = "rnbqkbnr/pppppppp/8/8/4P3/8/PPPP1PPP/RNBQKBNR b KQkq - 0 1";
    assert_eq!(
        config.request(fen),
        format!("uci\nposition fen {fen}\ngo movetime 1000\n")
    );
}

#[test]
fn request_text_movetime_digits() {
    for ms in [0u32, 7, 10, 250, 4294967295] {
        let config = EngineConfig { command: String::from("sf"), movetime_ms: ms };
        assert_eq!(config.request("x"), format!("uci\nposition fen x\ngo movetime {ms}\n"));
    }
}
