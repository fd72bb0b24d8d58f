use chess_rs::valid_moves::{
    bishop_moves, is_figure_on_field, is_move_valid, is_out_of_bounds, is_pawn_move_valid,
    pawn_moves, rook_moves, ValidMoves,
};
use chess_rs::{Chess, Field, Figure, FigureType, Team};

fn empty_fields() -> [[Field; 8]; 8] {
    let mut chess = Chess::new();
    for row in 0..8 {
        for col in 0..8 {
            chess.fields[row][col].figure = None;
        }
    }
    chess.fields
}

fn piece(figure: FigureType, team: Team) -> Figure {
    Figure { figure, team, first_move: false }
}

fn sorted(mut moves: Vec<(usize, usize)>) -> Vec<(usize, usize)> {
    moves.sort();
    moves
}

#[test]
fn rook_alone_reaches_the_edges() {
    let fields = empty_fields();
    let rook = piece(FigureType::Rook, Team::White);
    let moves = rook.valid_moves((3, 2), &fields);
    assert_eq!(moves.len(), 14);
    let in_row = moves.iter().filter(|m| m.0 == 3).count();
    let in_col = moves.iter().filter(|m| m.1 == 2).count();
    assert_eq!(in_row, 7);
    assert_eq!(in_col, 7);
    assert!(moves.contains(&(3, 0)));
    assert!(moves.contains(&(3, 7)));
    assert!(moves.contains(&(0, 2)));
    assert!(moves.contains(&(7, 2)));
    assert!(!moves.contains(&(3, 2)));
}

#[test]
fn rook_in_the_corner() {
    let fields = empty_fields();
    let rook = piece(FigureType::Rook, Team::Black);
    let moves = sorted(rook.valid_moves((0, 0), &fields));
    let mut expected = vec![];
    for i in 1..8 {
        expected.push((0, i));
        expected.push((i, 0));
    }
    assert_eq!(moves, sorted(expected));
}

#[test]
fn rook_stops_at_an_opposing_piece() {
    let mut fields = empty_fields();
    fields[4][4].figure = Some(piece(FigureType::Rook, Team::White));
    fields[4][7].figure = Some(piece(FigureType::Pawn, Team::Black));
    let moves = fields[4][4].figure.unwrap().valid_moves((4, 4), &fields);
    let right: Vec<(usize, usize)> =
        sorted(moves.iter().copied().filter(|m| m.0 == 4 && m.1 > 4).collect());
    assert_eq!(right, vec![(4, 5), (4, 6), (4, 7)]);
}

#[test]
fn rook_stops_before_a_piece_of_its_side() {
    let mut fields = empty_fields();
    fields[4][4].figure = Some(piece(FigureType::Rook, Team::White));
    fields[4][7].figure = Some(piece(FigureType::Pawn, Team::White));
    let moves = fields[4][4].figure.unwrap().valid_moves((4, 4), &fields);
    let right: Vec<(usize, usize)> =
        sorted(moves.iter().copied().filter(|m| m.0 == 4 && m.1 > 4).collect());
    assert_eq!(right, vec![(4, 5), (4, 6)]);
    // the other three directions are not affected
    assert_eq!(moves.len(), 2 + 4 + 4 + 3);
}

#[test]
fn rook_does_not_jump() {
    let mut fields = empty_fields();
    fields[4][4].figure = Some(piece(FigureType::Rook, Team::White));
    fields[4][5].figure = Some(piece(FigureType::Pawn, Team::Black));
    fields[4][6].figure = Some(piece(FigureType::Pawn, Team::Black));
    fields[3][4].figure = Some(piece(FigureType::Pawn, Team::White));
    let moves = fields[4][4].figure.unwrap().valid_moves((4, 4), &fields);
    assert!(moves.contains(&(4, 5)));
    assert!(!moves.contains(&(4, 6)));
    assert!(!moves.contains(&(4, 7)));
    assert!(!moves.contains(&(3, 4)));
    assert!(!moves.contains(&(2, 4)));
}

#[test]
fn knight_in_the_corner_has_two_moves() {
    let fields = empty_fields();
    let knight = piece(FigureType::Knight, Team::White);
    assert_eq!(sorted(knight.valid_moves((0, 0), &fields)), vec![(1, 2), (2, 1)]);
    assert_eq!(sorted(knight.valid_moves((7, 7), &fields)), vec![(5, 6), (6, 5)]);
    assert_eq!(sorted(knight.valid_moves((0, 7), &fields)), vec![(1, 5), (2, 6)]);
    assert_eq!(sorted(knight.valid_moves((7, 0), &fields)), vec![(5, 1), (6, 2)]);
}

#[test]
fn knight_in_the_centre_has_eight_moves() {
    let fields = empty_fields();
    let knight = piece(FigureType::Knight, Team::Black);
    let moves = sorted(knight.valid_moves((4, 4), &fields));
    assert_eq!(
        moves,
        vec![(2, 3), (2, 5), (3, 2), (3, 6), (5, 2), (5, 6), (6, 3), (6, 5)]
    );
}

#[test]
fn knight_jumps_and_captures() {
    let mut fields = empty_fields();
    for (r, c) in [(3, 3), (3, 4), (3, 5), (4, 3), (4, 5), (5, 3), (5, 4), (5, 5)] {
        fields[r][c].figure = Some(piece(FigureType::Pawn, Team::White));
    }
    fields[2][3].figure = Some(piece(FigureType::Pawn, Team::White));
    fields[2][5].figure = Some(piece(FigureType::Pawn, Team::Black));
    let knight = piece(FigureType::Knight, Team::White);
    let moves = knight.valid_moves((4, 4), &fields);
    assert_eq!(moves.len(), 7);
    assert!(!moves.contains(&(2, 3)));
    assert!(moves.contains(&(2, 5)));
}

#[test]
fn king_moves() {
    let mut fields = empty_fields();
    let king = piece(FigureType::King, Team::White);
    assert_eq!(king.valid_moves((4, 4), &fields).len(), 8);
    assert_eq!(sorted(king.valid_moves((0, 0), &fields)), vec![(0, 1), (1, 0), (1, 1)]);
    assert_eq!(king.valid_moves((7, 3), &fields).len(), 5);
    fields[3][4].figure = Some(piece(FigureType::Pawn, Team::White));
    fields[5][5].figure = Some(piece(FigureType::Queen, Team::Black));
    let moves = king.valid_moves((4, 4), &fields);
    assert_eq!(moves.len(), 7);
    assert!(!moves.contains(&(3, 4)));
    // the king may step onto an attacked square and capture a guarded piece
    assert!(moves.contains(&(5, 5)));
    assert!(moves.contains(&(4, 5)));
}

#[test]
fn bishop_moves_on_diagonals() {
    let mut fields = empty_fields();
    let bishop = piece(FigureType::Bishop, Team::White);
    assert_eq!(
        sorted(bishop.valid_moves((0, 0), &fields)),
        vec![(1, 1), (2, 2), (3, 3), (4, 4), (5, 5), (6, 6), (7, 7)]
    );
    assert_eq!(bishop.valid_moves((3, 3), &fields).len(), 13);
    fields[5][5].figure = Some(piece(FigureType::Pawn, Team::Black));
    fields[1][1].figure = Some(piece(FigureType::Pawn, Team::White));
    let moves = sorted(bishop.valid_moves((3, 3), &fields));
    assert_eq!(
        moves,
        vec![(0, 6), (1, 5), (2, 2), (2, 4), (4, 2), (4, 4), (5, 1), (5, 5), (6, 0)]
    );
}

#[test]
fn queen_moves_like_rook_and_bishop() {
    let fields = empty_fields();
    let queen = piece(FigureType::Queen, Team::Black);
    let moves = queen.valid_moves((3, 3), &fields);
    assert_eq!(moves.len(), 27);
    let rook = piece(FigureType::Rook, Team::Black).valid_moves((3, 3), &fields);
    let bishop = piece(FigureType::Bishop, Team::Black).valid_moves((3, 3), &fields);
    for m in rook.iter().chain(bishop.iter()) {
        assert!(moves.contains(m));
    }
    let unique = sorted(moves.clone());
    let mut deduped = unique.clone();
    deduped.dedup();
    assert_eq!(unique, deduped);
}

#[test]
fn pieces_of_the_initial_position() {
    let chess = Chess::new();
    let at = |r: usize, c: usize| {
        chess.fields[r][c].figure.unwrap().valid_moves((r, c), &chess.fields)
    };
    assert_eq!(at(7, 0), vec![]);
    assert_eq!(at(7, 2), vec![]);
    assert_eq!(at(7, 3), vec![]);
    assert_eq!(at(7, 4), vec![]);
    assert_eq!(sorted(at(7, 1)), vec![(5, 0), (5, 2)]);
    assert_eq!(sorted(at(0, 6)), vec![(2, 5), (2, 7)]);
    assert_eq!(sorted(at(6, 4)), vec![(4, 4), (5, 4)]);
    assert_eq!(sorted(at(1, 0)), vec![(2, 0), (3, 0)]);
}

#[test]
fn unmoved_pawn_has_two_forward_moves() {
    let fields = empty_fields();
    assert_eq!(sorted(pawn_moves((6, 3), &fields, Team::White, true)), vec![(4, 3), (5, 3)]);
    assert_eq!(sorted(pawn_moves((1, 3), &fields, Team::Black, true)), vec![(2, 3), (3, 3)]);
    let pawn = Figure { figure: FigureType::Pawn, team: Team::White, first_move: true };
    assert_eq!(sorted(pawn.valid_moves((6, 0), &fields)), vec![(4, 0), (5, 0)]);
}

#[test]
fn moved_pawn_has_one_forward_move() {
    let mut fields = empty_fields();
    assert_eq!(pawn_moves((5, 3), &fields, Team::White, false), vec![(4, 3)]);
    assert_eq!(pawn_moves((2, 3), &fields, Team::Black, false), vec![(3, 3)]);
    fields[4][3].figure = Some(piece(FigureType::Pawn, Team::Black));
    assert_eq!(pawn_moves((5, 3), &fields, Team::White, false), vec![]);
}

#[test]
fn pawn_is_blocked_straight_ahead() {
    let mut fields = empty_fields();
    // no capture straight ahead
    fields[5][3].figure = Some(piece(FigureType::Knight, Team::Black));
    assert_eq!(pawn_moves((6, 3), &fields, Team::White, true), vec![]);
    // the double step needs both squares empty
    fields[5][3].figure = None;
    fields[4][3].figure = Some(piece(FigureType::Knight, Team::Black));
    assert_eq!(pawn_moves((6, 3), &fields, Team::White, true), vec![(5, 3)]);
    fields[4][3].figure = Some(piece(FigureType::Knight, Team::White));
    assert_eq!(pawn_moves((6, 3), &fields, Team::White, true), vec![(5, 3)]);
}

#[test]
fn pawn_captures_diagonally() {
    let mut fields = empty_fields();
    assert!(!pawn_moves((4, 3), &fields, Team::White, false).contains(&(3, 2)));
    assert!(!pawn_moves((4, 3), &fields, Team::White, false).contains(&(3, 4)));
    fields[3][2].figure = Some(piece(FigureType::Rook, Team::Black));
    fields[3][4].figure = Some(piece(FigureType::Rook, Team::White));
    let moves = sorted(pawn_moves((4, 3), &fields, Team::White, false));
    assert_eq!(moves, vec![(3, 2), (3, 3)]);
    // Black captures toward the higher rows
    fields[5][4].figure = Some(piece(FigureType::Bishop, Team::White));
    let moves = sorted(pawn_moves((4, 3), &fields, Team::Black, false));
    assert_eq!(moves, vec![(5, 3), (5, 4)]);
    // backward diagonals are never destinations
    assert!(!moves.contains(&(3, 4)));
}

#[test]
fn pawn_at_the_edges() {
    let mut fields = empty_fields();
    fields[3][1].figure = Some(piece(FigureType::Rook, Team::Black));
    fields[3][6].figure = Some(piece(FigureType::Rook, Team::Black));
    assert_eq!(sorted(pawn_moves((4, 0), &fields, Team::White, false)), vec![(3, 0), (3, 1)]);
    assert_eq!(sorted(pawn_moves((4, 7), &fields, Team::White, false)), vec![(3, 6), (3, 7)]);
    // a pawn on its last row has nowhere to go
    assert_eq!(pawn_moves((0, 3), &fields, Team::White, true), vec![]);
    assert_eq!(pawn_moves((7, 3), &fields, Team::Black, true), vec![]);
    // one row from the end the double step would leave the board
    assert_eq!(pawn_moves((1, 3), &fields, Team::White, true), vec![(0, 3)]);
    assert_eq!(pawn_moves((6, 3), &fields, Team::Black, true), vec![(7, 3)]);
}

#[test]
fn single_square_checks() {
    let mut fields = empty_fields();
    fields[2][2].figure = Some(piece(FigureType::Pawn, Team::White));
    assert!(is_out_of_bounds((-1, 0)));
    assert!(is_out_of_bounds((0, -1)));
    assert!(is_out_of_bounds((8, 0)));
    assert!(is_out_of_bounds((0, 8)));
    assert!(!is_out_of_bounds((0, 0)));
    assert!(!is_out_of_bounds((7, 7)));
    assert!(is_figure_on_field((2, 2), &fields));
    assert!(!is_figure_on_field((2, 3), &fields));
    assert_eq!(is_move_valid((2, 2), &fields, Team::White), None);
    assert_eq!(is_move_valid((2, 2), &fields, Team::Black), Some((2, 2)));
    assert_eq!(is_move_valid((2, 3), &fields, Team::White), Some((2, 3)));
    assert_eq!(is_move_valid((-1, 3), &fields, Team::White), None);
    assert_eq!(is_move_valid((3, 8), &fields, Team::White), None);
    assert_eq!(is_pawn_move_valid((2, 2), &fields), None);
    assert_eq!(is_pawn_move_valid((2, 3), &fields), Some((2, 3)));
    assert_eq!(is_pawn_move_valid((8, 3), &fields), None);
    assert_eq!(is_pawn_move_valid((3, 9), &fields), None);
}

#[test]
fn walks_come_direction_by_direction() {
    let mut fields = empty_fields();
    fields[6][5].figure = Some(piece(FigureType::Pawn, Team::Black));
    fields[6][3].figure = Some(piece(FigureType::Pawn, Team::White));
    let mut it = rook_moves((6, 4), &fields, Team::White).into_iter();
    let mut seen = vec![];
    while let Some(mv) = it.next() {
        seen.push(mv);
    }
    // right (capture ends the walk), left (own piece), down, up
    assert_eq!(
        seen,
        vec![(6, 5), (7, 4), (5, 4), (4, 4), (3, 4), (2, 4), (1, 4), (0, 4)]
    );
    assert_eq!(it.next(), None);
    assert_eq!(it.next(), None);

    let all = bishop_moves((6, 4), &fields, Team::White).into_iter().collect();
    assert_eq!(
        all,
        vec![(7, 5), (5, 3), (4, 2), (3, 1), (2, 0), (5, 5), (4, 6), (3, 7), (7, 3)]
    );
}

#[test]
fn abandoning_a_walk_turns_to_the_next() {
    let fields = empty_fields();
    let mut it = ValidMoves::new(0, 0, vec![(0, 1), (1, 0)], &fields, Team::White).into_iter();
    assert_eq!(it.next(), Some((0, 1)));
    assert_eq!(it.next(), Some((0, 2)));
    it.next_fn();
    assert_eq!(it.next(), Some((1, 0)));
    it.next_fn();
    assert_eq!(it.next(), None);
}

#[test]
fn walk_without_directions_is_empty() {
    let fields = empty_fields();
    let mut it = ValidMoves::new(3, 3, vec![], &fields, Team::Black).into_iter();
    assert_eq!(it.next(), None);
    let all = ValidMoves::new(3, 3, vec![], &fields, Team::Black).into_iter().collect();
    assert_eq!(all, vec![]);
}
