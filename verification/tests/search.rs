//! The forced-result search on positions small enough to work out by hand.

use monorail::action::{Coordinate, Move, MoveType};
use monorail::board::{Board, BoardArray, BoardType};
use monorail::player::Player;
use monorail::search::{all_responses, search, GameResult, Response};

const OPENING: BoardArray = [
    [false, true, true, true, false],
    [false, false, false, true, false],
    [false, false, false, true, false],
    [false, false, false, false, false],
];

const FINISHED_LEFT_BOARD: BoardArray = [
    [true, true, true, true, true],
    [true, false, true, true, true],
    [true, false, true, true, true],
    [true, true, true, true, true],
];

const FINISHED_MIDDLE_BOARD: BoardArray = [
    [true, true, true, true, true],
    [true, false, true, true, true],
    [true, true, true, true, true],
    [false, true, true, true, true],
];

const FINISHED_RIGHT_BOARD: BoardArray = [
    [true, true, true, true, true],
    [true, true, true, true, true],
    [false, true, true, true, true],
    [false, true, true, true, true],
];

// One cell is left.
const ONE_LEFT: BoardArray = [
    [true, true, true, true, false],
    [true, false, true, true, true],
    [true, false, true, true, true],
    [true, true, true, true, true],
];

// Two cells are left, next to each other.
const TWO_TOGETHER: BoardArray = [
    [true, true, true, true, false],
    [true, false, true, true, false],
    [true, false, true, true, true],
    [true, true, true, true, true],
];

// Two cells are left, apart from each other.
const TWO_APART: BoardArray = [
    [true, true, true, true, false],
    [true, false, true, true, true],
    [true, false, true, true, true],
    [true, true, true, true, false],
];

fn plain(row: usize, col: usize, shape: MoveType) -> Move {
    Move { coord: Coordinate { row: row, col: col }, move_type: shape, new_board_type: None }
}

fn grid_of(board: &Board) -> BoardArray {
    let mut grid = [[false; 5]; 4];
    for row in 0..4 {
        for col in 0..5 {
            grid[row][col] = board.occupied(Coordinate { row: row, col: col });
        }
    }
    grid
}

#[test]
fn won_by_names_the_winner() {
    assert_eq!(GameResult::won_by(Player::JunSeok), GameResult::JunSeokWin);
    assert_eq!(GameResult::won_by(Player::YeonSeung), GameResult::YeonSeungWin);
}

#[test]
fn jun_seok_without_a_move_loses() {
    for (grid, layout) in [
        (FINISHED_LEFT_BOARD, BoardType::Left),
        (FINISHED_MIDDLE_BOARD, BoardType::Middle),
        (FINISHED_RIGHT_BOARD, BoardType::Right),
    ] {
        let mut board = Board::new(grid, Some(layout));
        assert_eq!(search(Player::JunSeok, &mut board), (GameResult::YeonSeungWin, None));
    }
}

#[test]
fn yeon_seung_without_a_move_loses() {
    for (grid, layout) in [
        (FINISHED_LEFT_BOARD, BoardType::Left),
        (FINISHED_MIDDLE_BOARD, BoardType::Middle),
        (FINISHED_RIGHT_BOARD, BoardType::Right),
    ] {
        let mut board = Board::new(grid, Some(layout));
        assert_eq!(search(Player::YeonSeung, &mut board), (GameResult::JunSeokWin, None));
    }
}

#[test]
fn a_full_grid_is_lost_for_the_player_to_move() {
    let mut board = Board::new([[true; 5]; 4], None);
    assert_eq!(search(Player::JunSeok, &mut board), (GameResult::YeonSeungWin, None));
    assert_eq!(search(Player::YeonSeung, &mut board), (GameResult::JunSeokWin, None));
}

#[test]
fn the_last_cell_wins() {
    let mut board = Board::new(ONE_LEFT, Some(BoardType::Left));
    assert_eq!(
        search(Player::JunSeok, &mut board),
        (GameResult::JunSeokWin, Some(plain(0, 4, MoveType::Single)))
    );
    assert_eq!(
        search(Player::YeonSeung, &mut board),
        (GameResult::YeonSeungWin, Some(plain(0, 4, MoveType::Single)))
    );
}

#[test]
fn two_cells_together_are_taken_at_once() {
    let mut board = Board::new(TWO_TOGETHER, Some(BoardType::Left));
    assert_eq!(
        board.legal_moves(),
        vec![
            plain(0, 4, MoveType::Single),
            plain(0, 4, MoveType::OneDown),
            plain(1, 4, MoveType::Single),
            plain(1, 4, MoveType::OneUp),
        ]
    );
    // The first listed move leaves a cell to the opponent; the second wins.
    assert_eq!(
        search(Player::YeonSeung, &mut board),
        (GameResult::YeonSeungWin, Some(plain(0, 4, MoveType::OneDown)))
    );
}

#[test]
fn two_cells_apart_are_lost() {
    let mut board = Board::new(TWO_APART, Some(BoardType::Left));
    assert_eq!(search(Player::YeonSeung, &mut board), (GameResult::JunSeokWin, None));
    assert_eq!(search(Player::JunSeok, &mut board), (GameResult::YeonSeungWin, None));
}

#[test]
fn search_hands_the_board_back() {
    let mut board = Board::new(OPENING, None);
    let moves = board.legal_moves();
    search(Player::YeonSeung, &mut board);
    assert_eq!(grid_of(&board), OPENING);
    assert_eq!(board.board_type(), None);
    assert_eq!(board.depth(), 0);
    assert_eq!(board.legal_moves(), moves);
}

#[test]
fn the_opening_is_won_by_the_player_to_move() {
    let mut board = Board::new(OPENING, None);
    let best = Move {
        coord: Coordinate { row: 0, col: 0 },
        move_type: MoveType::TwoDown,
        new_board_type: Some(BoardType::Left),
    };
    assert_eq!(search(Player::YeonSeung, &mut board), (GameResult::YeonSeungWin, Some(best)));
    assert_eq!(search(Player::JunSeok, &mut board), (GameResult::JunSeokWin, Some(best)));
}

#[test]
fn the_reported_move_is_the_first_that_wins() {
    let mut board = Board::new(OPENING, None);
    let (result, best) = search(Player::YeonSeung, &mut board);
    assert_eq!(result, GameResult::YeonSeungWin);
    let best = best.unwrap();
    for m in board.legal_moves().iter() {
        assert_eq!(board.make_move(*m), Ok(()));
        let (after, _) = search(Player::JunSeok, &mut board);
        assert_eq!(board.undo_move(), Ok(()));
        if *m == best {
            assert_eq!(after, GameResult::YeonSeungWin);
            break;
        }
        assert_eq!(after, GameResult::JunSeokWin);
    }
}

#[test]
fn a_move_is_reported_exactly_for_a_win() {
    for grid in [ONE_LEFT, TWO_TOGETHER, TWO_APART, FINISHED_LEFT_BOARD] {
        for player in [Player::JunSeok, Player::YeonSeung] {
            let mut board = Board::new(grid, Some(BoardType::Left));
            let (result, best) = search(player, &mut board);
            assert_eq!(best.is_some(), result == GameResult::won_by(player));
            assert_eq!(best.is_none(), result == GameResult::won_by(player.opponent()));
        }
    }
}

#[test]
fn all_responses_to_two_cells_together() {
    let mut board = Board::new(TWO_TOGETHER, Some(BoardType::Left));
    assert_eq!(
        all_responses(Player::JunSeok, &mut board),
        vec![
            Response {
                played: plain(0, 4, MoveType::Single),
                result: GameResult::YeonSeungWin,
                reply: Some(plain(1, 4, MoveType::Single)),
            },
            Response {
                played: plain(0, 4, MoveType::OneDown),
                result: GameResult::JunSeokWin,
                reply: None,
            },
            Response {
                played: plain(1, 4, MoveType::Single),
                result: GameResult::YeonSeungWin,
                reply: Some(plain(0, 4, MoveType::Single)),
            },
            Response {
                played: plain(1, 4, MoveType::OneUp),
                result: GameResult::JunSeokWin,
                reply: None,
            },
        ]
    );
    assert_eq!(grid_of(&board), TWO_TOGETHER);
    assert_eq!(board.depth(), 0);
}

#[test]
fn all_responses_without_a_move_is_empty() {
    let mut board = Board::new(FINISHED_RIGHT_BOARD, Some(BoardType::Right));
    assert_eq!(all_responses(Player::YeonSeung, &mut board), vec![]);
}

#[test]
fn all_responses_agree_with_search() {
    let mut board = Board::new(TWO_APART, Some(BoardType::Left));
    let responses = all_responses(Player::YeonSeung, &mut board);
    let moves = board.legal_moves();
    assert_eq!(responses.len(), moves.len());
    for (response, m) in responses.iter().zip(moves.iter()) {
        assert_eq!(response.played, *m);
        assert_eq!(board.make_move(*m), Ok(()));
        assert_eq!(search(Player::JunSeok, &mut board), (response.result, response.reply));
        assert_eq!(board.undo_move(), Ok(()));
    }
    let (result, _) = search(Player::YeonSeung, &mut board);
    let wins = responses.iter().any(|r| r.result == GameResult::YeonSeungWin);
    assert_eq!(wins, result == GameResult::YeonSeungWin);
}
