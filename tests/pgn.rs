use move_accuracy::pgn::main_line_moves;

fn texts(moves: Vec<Vec<char>>) -> Vec<String> {
    moves.into_iter().map(|m| m.into_iter().collect()).collect()
}

#[test]
fn main_line_skips_tags_numbers_and_result() {
    let pgn = "[Event \"Casual\"]\n[White \"A\"]\n[Black \"B\"]\n\n1. e4 e5 2. Nf3 Nc6 3.Bb5 a6 1-0\n";
    assert_eq!(texts(main_line_moves(pgn)), vec!["e4", "e5", "Nf3", "Nc6", "Bb5", "a6"]);
}

#[test]
fn main_line_skips_comments_variations_and_glyphs() {
    let pgn = "1. d4 {a solid start} d5 (1... Nf6 2. c4 (2. Nf3) e6) 2. c4!? $1 e6? ; the QGD\n3. Nc3 *";
    assert_eq!(texts(main_line_moves(pgn)), vec!["d4", "d5", "c4", "e6", "Nc3"]);
}

#[test]
fn main_line_black_move_numbers_and_draw() {
    let pgn = "12... Qxd4+ 13. O-O-O Kh8# 1/2-1/2";
    assert_eq!(texts(main_line_moves(pgn)), vec!["Qxd4+", "O-O-O", "Kh8#"]);
    assert_eq!(texts(main_line_moves("0-1")), Vec::<String>::new());
    assert_eq!(texts(main_line_moves("")), Vec::<String>::new());
}
