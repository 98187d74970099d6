//! The forced-result search: which side wins under best play, and with which
//! move.
//!
//! A player who has no legal move has lost. So the player to move wins
//! exactly when some legal move leads to a position that the opponent, then
//! to move, cannot win. Every legal move fills a cell, which bounds the depth
//! of play by the number of free cells.

use vstd::prelude::*;
use crate::action::Move;
use crate::board::Board;
use crate::player::Player;
use crate::position::Position;

verus! {

/// How a game ends. There is no draw.
#[derive(Clone, Copy, Debug, PartialEq, Eq, Structural)]
pub enum GameResult {
    JunSeokWin,
    YeonSeungWin,
}

impl GameResult {
    /// The result in which `player` wins, as a specification.
    pub open spec fn spec_won_by(player: Player) -> GameResult {
        match player {
            Player::JunSeok => GameResult::JunSeokWin,
            Player::YeonSeung => GameResult::YeonSeungWin,
        }
    }

    /// The result in which `player` wins.
    #[verifier::when_used_as_spec(spec_won_by)]
    pub fn won_by(player: Player) -> (result: GameResult)
        ensures
            result == GameResult::spec_won_by(player),
            result != GameResult::spec_won_by(player.spec_opponent()),
    {
        match player {
            Player::JunSeok => GameResult::JunSeokWin,
            Player::YeonSeung => GameResult::YeonSeungWin,
        }
    }
}

/// Whether the player to move in `pos` can force a win: some legal move
/// leads to a position from which the opponent cannot.
pub open spec fn forced_win(pos: Position) -> bool
    decreases pos.free_cells(),
{
    exists|m: Move| #[trigger]
        pos.is_legal(m) && !({
            proof {
                pos.lemma_legal_move_fills(m);
            }
            forced_win(pos.after(m))
        })
}

/// Whether `m` wins for the player to move in `pos`: it is a legal move, and
/// the opponent cannot force a win from the position it leads to.
pub open spec fn winning_move(pos: Position, m: Move) -> bool {
    pos.is_legal(m) && !forced_win(pos.after(m))
}

/// Whether `m` is the winning move that the move generator lists first.
pub open spec fn first_winning_move(pos: Position, m: Move) -> bool {
    winning_move(pos, m) && forall|other: Move|
        winning_move(pos, other) ==> other == m || m.precedes(other)
}

/// The result of the game when `player` is to move in `pos` and both sides
/// play as well as can be.
pub open spec fn result_for(pos: Position, player: Player) -> GameResult {
    if forced_win(pos) {
        GameResult::spec_won_by(player)
    } else {
        GameResult::spec_won_by(player.spec_opponent())
    }
}

/// Whether `found` is what the search reports when `player` is to move in
/// `pos`: the result under best play with the first winning move, or, where
/// `player` cannot force a win, the opponent's win with no move.
pub open spec fn is_search_result(
    pos: Position,
    player: Player,
    found: (GameResult, Option<Move>),
) -> bool {
    &&& found.0 == result_for(pos, player)
    &&& match found.1 {
        Some(m) => first_winning_move(pos, m),
        None => !forced_win(pos),
    }
}

/// What the search found for one move of the player to move: the move, the
/// result of the game once it is played, and the opponent's winning answer
/// where there is one.
#[derive(Clone, Copy, Debug, PartialEq, Eq, Structural)]
pub struct Response {
    pub played: Move,
    pub result: GameResult,
    pub reply: Option<Move>,
}

/// The result of the game under best play when `player` is to move on
/// `board`, and the move to play. The move is the first legal move, in the
/// order of generation, that wins for `player`; where no move wins, and in
/// particular where no move is legal, the opponent wins and no move is
/// reported. The board is handed back exactly as it came.
pub fn search(player: Player, board: &mut Board) -> (found: (GameResult, Option<Move>))
    ensures
        final(board)@ == old(board)@,
        is_search_result(old(board)@.position, player, found),
        (forall|m: Move| !old(board)@.position.is_legal(m)) ==> found == (
            GameResult::spec_won_by(player.spec_opponent()),
            None::<Move>,
        ),
        found.1 is Some <==> found.0 == GameResult::spec_won_by(player),
    decreases old(board)@.position.free_cells(),
{
    let ghost start = board@;
    let ghost pos = start.position;
    let moves = board.legal_moves();
    let mut i: usize = 0;
    while i < moves.len()
        invariant
            i <= moves.len(),
            start == old(board)@,
            board@ == start,
            pos == start.position,
            pos.is_move_list(moves@),
            forall|j: int| 0 <= j < i ==> !winning_move(pos, #[trigger] moves@[j]),
        decreases moves.len() - i,
    {
        let possible_move = moves[i];
        proof {
            start.lemma_legal_move_round_trip(possible_move);
            pos.lemma_legal_move_cells_free(possible_move);
            pos.lemma_legal_move_fills(possible_move);
        }
        let made = board.make_move(possible_move);
        assert(made is Ok);
        let (reply, _) = search(player.opponent(), board);
        let undone = board.undo_move();
        assert(undone is Ok);
        if reply == GameResult::won_by(player) {
            proof {
                lemma_forced_win_unfolds(pos);
                assert(winning_move(pos, possible_move));
                assert forall|other: Move| winning_move(pos, other) implies other == possible_move
                    || possible_move.precedes(other) by {
                    assert(moves@.contains(other));
                    let j = choose|j: int| 0 <= j < moves@.len() && moves@[j] == other;
                    if j > i {
                        assert(moves@[i as int].precedes(moves@[j]));
                    }
                }
            }
            return (reply, Some(possible_move));
        }
        i += 1;
    }
    proof {
        lemma_forced_win_unfolds(pos);
        assert forall|m: Move| !winning_move(pos, m) by {
            if pos.is_legal(m) {
                assert(moves@.contains(m));
                let j = choose|j: int| 0 <= j < moves@.len() && moves@[j] == m;
                assert(!winning_move(pos, moves@[j]));
            }
        }
    }
    (GameResult::won_by(player.opponent()), None)
}

/// For each legal move of `player` on `board`, in the order of generation,
/// what follows from it: the result of the game once it is played, and the
/// opponent's first winning answer where there is one. The board is handed
/// back exactly as it came.
pub fn all_responses(player: Player, board: &mut Board) -> (responses: Vec<Response>)
    ensures
        final(board)@ == old(board)@,
        old(board)@.position.is_move_list(responses@.map_values(|r: Response| r.played)),
        forall|i: int|
            0 <= i < responses.len() ==> is_search_result(
                old(board)@.position.after((#[trigger] responses[i]).played),
                player.spec_opponent(),
                (responses[i].result, responses[i].reply),
            ),
{
    let ghost start = board@;
    let ghost pos = start.position;
    let moves = board.legal_moves();
    let mut responses: Vec<Response> = Vec::new();
    let mut i: usize = 0;
    while i < moves.len()
        invariant
            i <= moves.len(),
            board@ == start,
            pos == start.position,
            pos.is_move_list(moves@),
            responses.len() == i,
            forall|j: int| 0 <= j < i ==> (#[trigger] responses[j]).played == moves@[j],
            forall|j: int|
                0 <= j < i ==> is_search_result(
                    pos.after((#[trigger] responses[j]).played),
                    player.spec_opponent(),
                    (responses[j].result, responses[j].reply),
                ),
        decreases moves.len() - i,
    {
        let legal_move = moves[i];
        proof {
            start.lemma_legal_move_round_trip(legal_move);
            pos.lemma_legal_move_cells_free(legal_move);
        }
        let made = board.make_move(legal_move);
        assert(made is Ok);
        let (result, best_move) = search(player.opponent(), board);
        let undone = board.undo_move();
        assert(undone is Ok);
        responses.push(Response { played: legal_move, result: result, reply: best_move });
        i += 1;
    }
    assert(responses@.map_values(|r: Response| r.played) =~= moves@);
    responses
}

/// The player to move wins exactly when some move is a winning move, and
/// loses exactly when every legal move leads to a position that the opponent
/// wins.
pub proof fn lemma_forced_win_unfolds(pos: Position)
    ensures
        forced_win(pos) <==> exists|m: Move| winning_move(pos, m),
        !forced_win(pos) <==> forall|m: Move| #[trigger] pos.is_legal(m) ==> forced_win(pos.after(m)),
{
    if forced_win(pos) {
        let m = choose|m: Move| #[trigger] pos.is_legal(m) && !forced_win(pos.after(m));
        assert(winning_move(pos, m));
    }
    if exists|m: Move| winning_move(pos, m) {
        let m = choose|m: Move| winning_move(pos, m);
        assert(pos.is_legal(m) && !forced_win(pos.after(m)));
    }
}

/// A player to move who has no legal move has lost: the opponent wins, and
/// there is no move to report.
pub proof fn lemma_no_move_loses(pos: Position, player: Player, found: (GameResult, Option<Move>))
    requires
        forall|m: Move| !pos.is_legal(m),
        is_search_result(pos, player, found),
    ensures
        found == (GameResult::spec_won_by(player.spec_opponent()), None::<Move>),
{
    lemma_forced_win_unfolds(pos);
}

/// The search has one answer: two results that both fit the same position
/// and the same player to move are equal.
pub proof fn lemma_search_result_unique(
    pos: Position,
    player: Player,
    a: (GameResult, Option<Move>),
    b: (GameResult, Option<Move>),
)
    requires
        is_search_result(pos, player, a),
        is_search_result(pos, player, b),
    ensures
        a == b,
{
    lemma_forced_win_unfolds(pos);
    if a.1 is Some && b.1 is Some {
        assert(winning_move(pos, a.1->0) && winning_move(pos, b.1->0));
    }
}

} // verus!
