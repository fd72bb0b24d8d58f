use chess_rs::{Chess, ChessError, Figure, FigureType, Team};

fn empty_game() -> Chess {
    let mut chess = Chess::new();
    for row in 0..8 {
        for col in 0..8 {
            chess.fields[row][col].figure = None;
        }
    }
    chess
}

fn piece(figure: FigureType, team: Team) -> Option<Figure> {
    Some(Figure { figure, team, first_move: false })
}

#[test]
#[should_panic]
fn test_is_king_in_check() {
    let chess = Chess::new();
    chess.check_check(Team::Black).unwrap();
}

#[test]
fn test_is_king_in_check_two() {
    let mut chess = Chess::new();
    let figure = chess.fields[0][3].figure.unwrap();
    chess.fields[0][3].figure = None;

    chess.fields[3][4].figure = Some(figure);
    chess.fields[6][4].figure = None;

    chess.check_check(Team::White).unwrap();
}

#[test]
#[should_panic]
fn test_is_king_in_check_two_blocked() {
    let mut chess = Chess::new();
    let figure = chess.fields[0][3].figure.unwrap();
    chess.fields[0][3].figure = None;

    chess.fields[3][4].figure = Some(figure);
    // chess.fields[6][4].figure = None;

    chess.check_check(Team::White).unwrap();
}

#[test]
#[should_panic]
fn test_is_king_in_check_wrong_team() {
    let mut chess = Chess::new();
    let figure = chess.fields[0][3].figure.unwrap();
    chess.fields[0][3].figure = None;

    chess.fields[3][4].figure = Some(figure);
    // chess.fields[6][4].figure = None;

    chess.check_check(Team::Black).unwrap();
}

#[test]
fn initial_position_has_nobody_in_check() {
    let chess = Chess::new();
    assert_eq!(chess.is_in_check(Team::White), Ok(false));
    assert_eq!(chess.is_in_check(Team::Black), Ok(false));
    assert_eq!(chess.check_check(Team::White), None);
    assert_eq!(chess.check_check(Team::Black), None);
}

#[test]
fn rook_on_open_file_gives_check() {
    let mut chess = empty_game();
    chess.fields[7][4].figure = piece(FigureType::King, Team::White);
    chess.fields[2][4].figure = piece(FigureType::Rook, Team::Black);
    assert_eq!(chess.is_in_check(Team::White), Ok(true));
    assert_eq!(chess.check_check(Team::White), Some(()));
}

#[test]
fn rook_on_open_rank_gives_check() {
    let mut chess = empty_game();
    chess.fields[3][1].figure = piece(FigureType::King, Team::Black);
    chess.fields[3][7].figure = piece(FigureType::Rook, Team::White);
    assert_eq!(chess.is_in_check(Team::Black), Ok(true));
}

#[test]
fn blocked_rook_gives_no_check() {
    let mut chess = empty_game();
    chess.fields[7][4].figure = piece(FigureType::King, Team::White);
    chess.fields[2][4].figure = piece(FigureType::Rook, Team::Black);
    chess.fields[5][4].figure = piece(FigureType::Pawn, Team::White);
    assert_eq!(chess.is_in_check(Team::White), Ok(false));
    assert_eq!(chess.check_check(Team::White), None);

    // a blocker of the rook's own side shields the king as well
    chess.fields[5][4].figure = piece(FigureType::Knight, Team::Black);
    assert_eq!(chess.is_in_check(Team::White), Ok(false));
}

#[test]
fn own_rook_gives_no_check() {
    let mut chess = empty_game();
    chess.fields[7][4].figure = piece(FigureType::King, Team::White);
    chess.fields[2][4].figure = piece(FigureType::Rook, Team::White);
    assert_eq!(chess.is_in_check(Team::White), Ok(false));
}

#[test]
fn knight_and_pawn_give_check() {
    let mut chess = empty_game();
    chess.fields[4][4].figure = piece(FigureType::King, Team::White);
    chess.fields[2][3].figure = piece(FigureType::Knight, Team::Black);
    assert_eq!(chess.is_in_check(Team::White), Ok(true));

    chess.fields[2][3].figure = None;
    // a black pawn attacks the squares diagonally below it
    chess.fields[3][5].figure = piece(FigureType::Pawn, Team::Black);
    assert_eq!(chess.is_in_check(Team::White), Ok(true));

    // a pawn straight ahead of the king does not attack it
    chess.fields[3][5].figure = None;
    chess.fields[3][4].figure = piece(FigureType::Pawn, Team::Black);
    assert_eq!(chess.is_in_check(Team::White), Ok(false));
}

#[test]
fn side_without_king_is_an_error() {
    let mut chess = empty_game();
    chess.fields[2][4].figure = piece(FigureType::Rook, Team::Black);
    assert_eq!(chess.is_in_check(Team::White), Err(ChessError::KingAbsent));
    assert_eq!(chess.is_in_check(Team::Black), Err(ChessError::KingAbsent));
    // the presence-only query cannot tell the two apart
    assert_eq!(chess.check_check(Team::White), None);
}

#[test]
fn first_king_in_reading_order_counts() {
    let mut chess = empty_game();
    chess.fields[1][1].figure = piece(FigureType::King, Team::White);
    chess.fields[6][6].figure = piece(FigureType::King, Team::White);
    chess.fields[6][0].figure = piece(FigureType::Rook, Team::Black);
    assert_eq!(chess.is_in_check(Team::White), Ok(false));
    chess.fields[1][7].figure = piece(FigureType::Rook, Team::Black);
    assert_eq!(chess.is_in_check(Team::White), Ok(true));
}
