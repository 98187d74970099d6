//! The forced-result search as an alpha-beta walk over a ranked outcome
//! domain.
//!
//! YeonSeung plays for the higher value and JunSeok for the lower one. The
//! two results of a game are framed by two values that stand for no result
//! and only serve as the widest window to start from. Since a game has two
//! results only, the walk answers exactly as [`crate::search::search`] does.

use vstd::prelude::*;
use crate::action::Move;
use crate::board::Board;
use crate::player::Player;
use crate::search::first_winning_move;
use crate::search::forced_win;
use crate::search::is_search_result;
use crate::search::lemma_forced_win_unfolds;
use crate::search::result_for;
use crate::search::winning_move;
use crate::search::GameResult;

verus! {

/// A value of the ranked outcome domain, lowest first.
#[derive(Clone, Copy, Debug, PartialEq, Eq, Structural)]
pub enum RankedResult {
    LosslikelyForJunSeok,
    JunSeokWin,
    YeonSeungWin,
    LosslikelyForYeonSeung,
}

impl RankedResult {
    /// The result of [`RankedResult::rank`], as a specification.
    pub open spec fn spec_rank(&self) -> u8 {
        match *self {
            RankedResult::LosslikelyForJunSeok => 0,
            RankedResult::JunSeokWin => 1,
            RankedResult::YeonSeungWin => 2,
            RankedResult::LosslikelyForYeonSeung => 3,
        }
    }

    /// The place of the value in the order of the domain.
    #[verifier::when_used_as_spec(spec_rank)]
    pub fn rank(&self) -> (place: u8)
        ensures
            place == self.spec_rank(),
    {
        match *self {
            RankedResult::LosslikelyForJunSeok => 0,
            RankedResult::JunSeokWin => 1,
            RankedResult::YeonSeungWin => 2,
            RankedResult::LosslikelyForYeonSeung => 3,
        }
    }

    /// The result of [`RankedResult::of`], as a specification.
    pub open spec fn spec_of(result: GameResult) -> RankedResult {
        match result {
            GameResult::JunSeokWin => RankedResult::JunSeokWin,
            GameResult::YeonSeungWin => RankedResult::YeonSeungWin,
        }
    }

    /// The value that stands for `result`.
    #[verifier::when_used_as_spec(spec_of)]
    pub fn of(result: GameResult) -> (value: RankedResult)
        ensures
            value == RankedResult::spec_of(result),
            value.spec_rank() == 1 || value.spec_rank() == 2,
    {
        match result {
            GameResult::JunSeokWin => RankedResult::JunSeokWin,
            GameResult::YeonSeungWin => RankedResult::YeonSeungWin,
        }
    }
}

/// The alpha-beta walk within the window from `initial_alpha` to
/// `initial_beta`, which has to hold both results of a game. It yields the
/// value of the result under best play, and, where `player` wins, the first
/// winning move.
fn walk(
    player: Player,
    board: &mut Board,
    initial_alpha: RankedResult,
    initial_beta: RankedResult,
) -> (found: (RankedResult, Option<Move>))
    requires
        initial_alpha.spec_rank() < RankedResult::YeonSeungWin.spec_rank(),
        initial_beta.spec_rank() > RankedResult::JunSeokWin.spec_rank(),
    ensures
        final(board)@ == old(board)@,
        found.0 == RankedResult::spec_of(result_for(old(board)@.position, player)),
        forced_win(old(board)@.position) ==> (found.1 matches Some(m) && first_winning_move(
            old(board)@.position,
            m,
        )),
    decreases old(board)@.position.free_cells(),
{
    let ghost start = board@;
    let ghost pos = start.position;
    let moves = board.legal_moves();
    proof {
        lemma_forced_win_unfolds(pos);
    }
    // There are no more moves, which means the opponent completed the track.
    if moves.len() == 0 {
        proof {
            assert forall|m: Move| !winning_move(pos, m) by {
                if pos.is_legal(m) {
                    assert(moves@.contains(m));
                }
            }
        }
        return match player {
            Player::YeonSeung => (RankedResult::JunSeokWin, None),
            Player::JunSeok => (RankedResult::YeonSeungWin, None),
        };
    }
    let mut best = match player {
        Player::YeonSeung => initial_alpha,
        Player::JunSeok => initial_beta,
    };
    let mut alpha = initial_alpha;
    let mut beta = initial_beta;
    let mut best_move: Option<Move> = None;
    let mut i: usize = 0;
    while i < moves.len()
        invariant
            i <= moves.len(),
            start == old(board)@,
            board@ == start,
            pos == start.position,
            pos.is_move_list(moves@),
            alpha.spec_rank() < RankedResult::YeonSeungWin.spec_rank(),
            beta.spec_rank() > RankedResult::JunSeokWin.spec_rank(),
            best == (match player {
                Player::YeonSeung => alpha,
                Player::JunSeok => beta,
            }),
            i > 0 ==> best == RankedResult::spec_of(GameResult::spec_won_by(player.spec_opponent())),
            forall|j: int| 0 <= j < i ==> !winning_move(pos, #[trigger] moves@[j]),
        decreases moves.len() - i,
    {
        let possible_move = moves[i];
        proof {
            start.lemma_legal_move_round_trip(possible_move);
            pos.lemma_legal_move_cells_free(possible_move);
            pos.lemma_legal_move_fills(possible_move);
        }
        let made = board.make_move(possible_move);
        assert(made is Ok);
        let (reply, _) = walk(player.opponent(), board, alpha, beta);
        let undone = board.undo_move();
        assert(undone is Ok);
        proof {
            assert(winning_move(pos, possible_move) <==> reply == RankedResult::spec_of(
                GameResult::spec_won_by(player),
            ));
            if winning_move(pos, possible_move) {
                assert forall|other: Move| winning_move(pos, other) implies other == possible_move
                    || possible_move.precedes(other) by {
                    assert(moves@.contains(other));
                    let j = choose|j: int| 0 <= j < moves@.len() && moves@[j] == other;
                    if j > i {
                        assert(moves@[i as int].precedes(moves@[j]));
                    }
                }
            }
        }
        match player {
            Player::YeonSeung => {
                if reply.rank() > best.rank() {
                    best = reply;
                    alpha = reply;
                    best_move = Some(possible_move);
                }
                if best.rank() >= RankedResult::YeonSeungWin.rank() {
                    return (best, best_move);
                }
            },
            Player::JunSeok => {
                if reply.rank() < best.rank() {
                    best = reply;
                    beta = reply;
                    best_move = Some(possible_move);
                }
                if best.rank() <= RankedResult::JunSeokWin.rank() {
                    return (best, best_move);
                }
            },
        }
        if alpha.rank() >= beta.rank() {
            return (best, best_move);
        }
        i += 1;
    }
    proof {
        assert forall|m: Move| !winning_move(pos, m) by {
            if pos.is_legal(m) {
                assert(moves@.contains(m));
                let j = choose|j: int| 0 <= j < moves@.len() && moves@[j] == m;
                assert(!winning_move(pos, moves@[j]));
            }
        }
    }
    (best, best_move)
}

/// The result of the game under best play when `player` is to move on
/// `board`, and the move to play, found by an alpha-beta walk from the
/// widest window. It reports what [`crate::search::search`] reports: the
/// first winning move where `player` wins, and no move where the opponent
/// does. The board is handed back exactly as it came.
pub fn minimax_alpha_beta(player: Player, board: &mut Board) -> (found: (GameResult, Option<Move>))
    ensures
        final(board)@ == old(board)@,
        is_search_result(old(board)@.position, player, found),
{
    let (value, best_move) = walk(
        player,
        board,
        RankedResult::LosslikelyForJunSeok,
        RankedResult::LosslikelyForYeonSeung,
    );
    if value.rank() == RankedResult::of(GameResult::won_by(player)).rank() {
        (GameResult::won_by(player), best_move)
    } else {
        (GameResult::won_by(player.opponent()), None)
    }
}

} // verus!
