//! The decision engine: scoring of candidate moves, candidate generation
//! with optional pruning, and the depth-limited alpha-beta search.

use vstd::prelude::*;
use rand::seq::SliceRandom;
use crate::tictactoe_core::{
    available_axes, max_winnable_hits, neighbor_count, status_after, sum_winnable_hits,
    BoardView, SpecialBoardChecks, SquareState, TicTacToe, TurnState,
};

verus! {

/// Score of a move that wins the game for the agent.  It strictly
/// dominates every heuristic score, so a forced win or block is never
/// outweighed by positional considerations.
pub const WIN_SCORE: i64 = 1_000_000_000_000_000;

/// Score of a move that wins the game for the opponent.
pub const LOSS_SCORE: i64 = -1_000_000_000_000_000;

/// Score of a move that fills the last cell without a win.
pub const DRAW_SCORE: i64 = 0;

/// Initial alpha bound of the search, below every reachable score.
pub const ALPHA_FLOOR: i64 = -4_000_000_000_000_000_000;

/// Initial beta bound of the search, above every reachable score.
pub const BETA_CEIL: i64 = 4_000_000_000_000_000_000;

/// Per-axis count of opponent cells that marks the opponent as one move
/// from completing a line: the ceiling of `k / 2` for odd `k`, and
/// `k - 2` for even `k`.
pub open spec fn threat_threshold(k: int) -> int {
    if k % 2 == 1 {
        (k + 1) / 2
    } else {
        k - 2
    }
}

/// Whether some axis through (x, y) already carries enough `other`
/// cells within winnable distance that the opponent is about to
/// complete a line there.
pub open spec fn imminent_threat(b: BoardView, x: int, y: int, other: SquareState) -> bool {
    max_winnable_hits(b, x, y, other) >= threat_threshold(b.k)
}

/// Whether (x, y) lies on the middle of a board edge, corners excluded.
pub open spec fn mid_edge_cell(b: BoardView, x: int, y: int) -> bool {
    if y == 0 || y == b.ys - 1 {
        0 < x && x < b.xs - 1
    } else {
        x == 0 || x == b.xs - 1
    }
}

/// Whether the local-openness term of the heuristic is dropped: on a
/// board larger than `k * k` cells the middle of an edge is a weak
/// placement, whatever its neighborhood looks like.
pub open spec fn edge_discount(b: BoardView, x: int, y: int) -> bool {
    b.k * b.k < b.size() && mid_edge_cell(b, x, y)
}

/// The heuristic value of the move just placed at (x, y), seen from the
/// mover's side (higher is better for the mover).  It combines, with
/// fixed weights:
/// - attack: own cells within winnable distance over the four axes;
/// - defense: the same count for the opponent, sharply amplified when
///   the opponent is one move from completing a line;
/// - axis availability: axes whose stretch can still reach length `k`;
/// - local openness: empty neighbor cells, dropped on weak edge cells
///   of large boards.
pub open spec fn mover_heuristic(
    b: BoardView,
    x: int,
    y: int,
    mover: SquareState,
    other: SquareState,
) -> int {
    let attack = sum_winnable_hits(b, x, y, mover);
    let defense = sum_winnable_hits(b, x, y, other);
    let defense_scaled = if imminent_threat(b, x, y, other) {
        defense * 10000
    } else {
        defense * 100
    };
    let axes = available_axes(b, x, y, mover);
    let open_around = if edge_discount(b, x, y) {
        0int
    } else {
        neighbor_count(b, x, y, SquareState::Empty)
    };
    attack * 1000 + defense_scaled + axes * 100 + open_around * 10
}

/// The signed heuristic: the mover's value, negated when the mover is
/// the minimizing side, so that higher is always better for the agent.
pub open spec fn spec_heuristic(
    b: BoardView,
    x: int,
    y: int,
    mover: SquareState,
    other: SquareState,
    own_turn: bool,
) -> int {
    if own_turn {
        mover_heuristic(b, x, y, mover, other)
    } else {
        -mover_heuristic(b, x, y, mover, other)
    }
}

/// Every heuristic score is nonnegative from the mover's side and
/// strictly dominated by the terminal win score.
pub proof fn lemma_heuristic_bound(
    b: BoardView,
    x: int,
    y: int,
    mover: SquareState,
    other: SquareState,
)
    requires
        b.wf(),
    ensures
        0 <= mover_heuristic(b, x, y, mover, other) < WIN_SCORE,
{
    crate::tictactoe_core::lemma_axis_bounds(b, x, y, 0, mover);
    crate::tictactoe_core::lemma_axis_bounds(b, x, y, 1, mover);
    crate::tictactoe_core::lemma_axis_bounds(b, x, y, 2, mover);
    crate::tictactoe_core::lemma_axis_bounds(b, x, y, 3, mover);
    crate::tictactoe_core::lemma_axis_bounds(b, x, y, 0, other);
    crate::tictactoe_core::lemma_axis_bounds(b, x, y, 1, other);
    crate::tictactoe_core::lemma_axis_bounds(b, x, y, 2, other);
    crate::tictactoe_core::lemma_axis_bounds(b, x, y, 3, other);
}

/// The agent: how many candidate moves it expands per node (0 means
/// all of them), how many plies it searches (0 means as deep as the
/// board allows), and the two players' symbols.
#[derive(Clone)]
pub struct Ai {
    pub max_moves_to_analyze: usize,
    pub max_layers: usize,
    pub symbol: char,
    pub op_symbol: char,
}

impl Ai {
    /// The symbol the side to move places.
    pub open spec fn mover_square(self, own_turn: bool) -> SquareState {
        if own_turn {
            SquareState::Filled(self.symbol)
        } else {
            SquareState::Filled(self.op_symbol)
        }
    }

    /// The symbol of the side not moving.
    pub open spec fn other_square(self, own_turn: bool) -> SquareState {
        if own_turn {
            SquareState::Filled(self.op_symbol)
        } else {
            SquareState::Filled(self.symbol)
        }
    }

    pub fn create(max_moves_to_analyze: usize, max_layers: usize, symbol: char, op_symbol: char) -> (ai: Ai)
        ensures
            ai.max_moves_to_analyze == max_moves_to_analyze,
            ai.max_layers == max_layers,
            ai.symbol == symbol,
            ai.op_symbol == op_symbol,
    {
        Ai { max_moves_to_analyze, max_layers, symbol, op_symbol }
    }

    /// The heuristic score of the move that just placed `square_state`
    /// at the cell `index` of `board`, signed for the side given by
    /// `own_turn`.
    #[verifier::rlimit(50)]
    pub fn get_move_heuristic(&self, board: &TicTacToe, square_state: SquareState, index: usize, own_turn: bool) -> (r: i64)
        requires
            board.wf(),
            index < board@.size(),
        ensures
            r == spec_heuristic(
                board@,
                index as int % board@.xs,
                index as int / board@.xs,
                square_state,
                self.other_square(own_turn),
                own_turn,
            ),
    {
        let coord = board.get_index_coord(index);
        let attack = board.sum_squares_in_winnable_distance(index, square_state, false);
        let available_axis = board.check_n_of_available_axis(index, square_state);
        let op_square = if own_turn {
            SquareState::Filled(self.op_symbol)
        } else {
            SquareState::Filled(self.symbol)
        };
        let defense = board.sum_squares_in_winnable_distance(index, op_square, false);
        let highest_blocked = board.sum_squares_in_winnable_distance(index, op_square, true);
        let empty_around = board.spaces_of_around(index, SquareState::Empty);
        let threshold: i64 = if board.seq_to_win % 2 == 1 {
            ((board.seq_to_win + 1) / 2) as i64
        } else {
            (board.seq_to_win - 2) as i64
        };
        let threat = highest_blocked as i64 >= threshold;
        let defense_scaled: i64 = if threat {
            defense as i64 * 10000
        } else {
            defense as i64 * 100
        };
        let discount = if coord.1 == 0 || coord.1 == board.y_size - 1 {
            coord.0 > 0 && coord.0 < board.x_size - 1
        } else {
            coord.0 == 0 || coord.0 == board.x_size - 1
        };
        proof {
            assert(empty_around <= 8);
            assert(available_axis <= 4);
            assert(board@.k * board@.k <= 10_000_000_000_000_000) by (nonlinear_arith)
                requires
                    1 <= board@.k <= 100_000_000,
            ;
        }
        let large_board = (board.seq_to_win as u64) * (board.seq_to_win as u64) < (board.x_size
            as u64) * (board.y_size as u64);
        let open_eff: i64 = if large_board && discount {
            0
        } else {
            empty_around as i64
        };
        let h = attack as i64 * 1000 + defense_scaled + available_axis as i64 * 100 + open_eff
            * 10;
        if own_turn {
            h
        } else {
            -h
        }
    }
}

/// One candidate move: the board after it, the cell it filled, the
/// resulting status, and the score the generator assigned to it.
pub struct MoveNode {
    pub board: TicTacToe,
    pub index: usize,
    pub state: TurnState,
    pub score: i64,
}

/// The status the move generator records for playing the empty cell `i`
/// of board `b`.
pub open spec fn gen_state(ai: Ai, b: BoardView, i: int, own_turn: bool) -> TurnState {
    status_after(b.place(i, ai.mover_square(own_turn)), i % b.xs, i / b.xs, ai.mover_square(own_turn))
}

/// The score the move generator assigns to playing the empty cell `i`
/// of board `b`: the fixed terminal utilities for a win, a loss or a
/// draw, and the signed heuristic otherwise.
pub open spec fn gen_score(ai: Ai, b: BoardView, i: int, own_turn: bool) -> int {
    let st = gen_state(ai, b, i, own_turn);
    if st == TurnState::Victory {
        if own_turn {
            WIN_SCORE as int
        } else {
            LOSS_SCORE as int
        }
    } else if st == TurnState::Draw {
        DRAW_SCORE as int
    } else {
        spec_heuristic(
            b.place(i, ai.mover_square(own_turn)),
            i % b.xs,
            i / b.xs,
            ai.mover_square(own_turn),
            ai.other_square(own_turn),
            own_turn,
        )
    }
}

/// Whether some candidate in the list plays cell `i`.
pub open spec fn covers(moves: Seq<MoveNode>, i: int) -> bool {
    exists|j: int| 0 <= j < moves.len() && (#[trigger] moves[j]).index == i
}

/// What the generator guarantees of each candidate it returns for the
/// parent board `b`.
pub open spec fn move_ok(ai: Ai, b: BoardView, own_turn: bool, m: MoveNode) -> bool {
    &&& 0 <= m.index < b.size()
    &&& b.cells[m.index as int] == SquareState::Empty
    &&& m.board.wf()
    &&& m.board@ == b.place(m.index as int, ai.mover_square(own_turn))
    &&& m.state == gen_state(ai, b, m.index as int, own_turn)
    &&& m.score == gen_score(ai, b, m.index as int, own_turn)
    &&& LOSS_SCORE <= m.score <= WIN_SCORE
    &&& (m.state == TurnState::Continue ==> m.board@.filled < m.board@.size())
}

/// The plain minimax value of a search node holding board `b`, move
/// status `st` and generation score `sc`: the node's own score when the
/// remaining depth is exhausted or the move ended the game, otherwise
/// the best value among the replies, mover and opponent alternating.
/// No alpha-beta bound appears here: this is the unpruned traversal the
/// search is held to.
pub open spec fn node_val(
    ai: Ai,
    b: BoardView,
    st: TurnState,
    sc: int,
    layer: int,
    maximizing: bool,
) -> int
    decreases layer, vstd::math::max(b.size(), 0) + 1,
{
    if layer <= 0 || st != TurnState::Continue {
        sc
    } else {
        best_val(ai, b, layer, maximizing, 0)
    }
}

/// The best value, for the side given by `maximizing`, over the moves
/// into the empty cells of `b` with index at least `from`; the search
/// floor or ceiling when no such cell exists.
pub open spec fn best_val(ai: Ai, b: BoardView, layer: int, maximizing: bool, from: int) -> int
    decreases layer, vstd::math::max(b.size() - from, 0),
{
    if layer <= 0 || !(0 <= from < b.size()) {
        if maximizing {
            ALPHA_FLOOR as int
        } else {
            BETA_CEIL as int
        }
    } else {
        let rest = best_val(ai, b, layer, maximizing, from + 1);
        if b.cells[from] == SquareState::Empty {
            let cv = child_val(ai, b, from, layer, maximizing);
            if maximizing {
                if cv >= rest {
                    cv
                } else {
                    rest
                }
            } else {
                if cv <= rest {
                    cv
                } else {
                    rest
                }
            }
        } else {
            rest
        }
    }
}

/// The minimax value of playing the empty cell `i` of `b` and searching
/// one ply less for the other side.
pub open spec fn child_val(ai: Ai, b: BoardView, i: int, layer: int, maximizing: bool) -> int
    decreases layer, 0int,
{
    if layer <= 0 {
        gen_score(ai, b, i, maximizing)
    } else {
        node_val(
            ai,
            b.place(i, ai.mover_square(maximizing)),
            gen_state(ai, b, i, maximizing),
            gen_score(ai, b, i, maximizing),
            layer - 1,
            !maximizing,
        )
    }
}

/// The best value over the empty cells is at least (for the maximizing
/// side; at most, for the minimizing side) the value of any one of them.
pub proof fn lemma_best_val_ge_child(
    ai: Ai,
    b: BoardView,
    layer: int,
    maximizing: bool,
    from: int,
    i: int,
)
    requires
        layer >= 1,
        0 <= from <= i < b.size(),
        b.cells[i] == SquareState::Empty,
    ensures
        maximizing ==> best_val(ai, b, layer, maximizing, from) >= child_val(
            ai,
            b,
            i,
            layer,
            maximizing,
        ),
        !maximizing ==> best_val(ai, b, layer, maximizing, from) <= child_val(
            ai,
            b,
            i,
            layer,
            maximizing,
        ),
    decreases i - from,
{
    if from < i {
        lemma_best_val_ge_child(ai, b, layer, maximizing, from + 1, i);
    }
}

/// A bound that holds of every child value holds of the best value.
pub proof fn lemma_best_val_bounded(
    ai: Ai,
    b: BoardView,
    layer: int,
    maximizing: bool,
    from: int,
    bound: int,
)
    requires
        layer >= 1,
        forall|i: int|
            from <= i < b.size() && b.cells[i] == SquareState::Empty ==> (if maximizing {
                child_val(ai, b, i, layer, maximizing) <= bound
            } else {
                child_val(ai, b, i, layer, maximizing) >= bound
            }),
        maximizing ==> bound >= ALPHA_FLOOR,
        !maximizing ==> bound <= BETA_CEIL,
    ensures
        maximizing ==> best_val(ai, b, layer, maximizing, from) <= bound,
        !maximizing ==> best_val(ai, b, layer, maximizing, from) >= bound,
    decreases b.size() - from,
{
    if 0 <= from < b.size() {
        lemma_best_val_bounded(ai, b, layer, maximizing, from + 1, bound);
        if b.cells[from] == SquareState::Empty {
            assert(if maximizing {
                child_val(ai, b, from, layer, maximizing) <= bound
            } else {
                child_val(ai, b, from, layer, maximizing) >= bound
            });
        }
    }
}

/// The generation score of a legal move lies between the loss and win
/// utilities, and reaches the win utility only on an immediate win.
pub proof fn lemma_gen_score_range(ai: Ai, b: BoardView, i: int, own_turn: bool)
    requires
        b.wf(),
        0 <= i < b.size(),
        b.cells[i] == SquareState::Empty,
    ensures
        LOSS_SCORE <= gen_score(ai, b, i, own_turn) <= WIN_SCORE,
        own_turn && gen_state(ai, b, i, own_turn) != TurnState::Victory ==> gen_score(
            ai,
            b,
            i,
            own_turn,
        ) < WIN_SCORE,
        !own_turn && gen_state(ai, b, i, own_turn) != TurnState::Victory ==> gen_score(
            ai,
            b,
            i,
            own_turn,
        ) > LOSS_SCORE,
{
    crate::tictactoe_core::lemma_place_wf(b, i, ai.mover_square(own_turn));
    if gen_state(ai, b, i, own_turn) == TurnState::Continue {
        lemma_heuristic_bound(
            b.place(i, ai.mover_square(own_turn)),
            i % b.xs,
            i / b.xs,
            ai.mover_square(own_turn),
            ai.other_square(own_turn),
        );
    }
}

/// Every minimax value lies between the loss and win utilities.
pub proof fn lemma_node_val_range(
    ai: Ai,
    b: BoardView,
    st: TurnState,
    sc: int,
    layer: int,
    maximizing: bool,
)
    requires
        b.wf(),
        LOSS_SCORE <= sc <= WIN_SCORE,
        st == TurnState::Continue ==> b.filled < b.size(),
    ensures
        LOSS_SCORE <= node_val(ai, b, st, sc, layer, maximizing) <= WIN_SCORE,
    decreases layer, vstd::math::max(b.size(), 0) + 1,
{
    if layer >= 1 && st == TurnState::Continue {
        crate::tictactoe_core::lemma_filled_cells(b);
        lemma_best_val_range(ai, b, layer, maximizing, 0);
    }
}

/// The best value over the empty cells from `from` on lies between the
/// loss and win utilities when such a cell exists, and is the sentinel
/// otherwise.
pub proof fn lemma_best_val_range(ai: Ai, b: BoardView, layer: int, maximizing: bool, from: int)
    requires
        b.wf(),
        layer >= 1,
        0 <= from,
    ensures
        (exists|i: int| from <= i < b.size() && b.cells[i] == SquareState::Empty)
            ==> LOSS_SCORE <= best_val(ai, b, layer, maximizing, from) <= WIN_SCORE,
        !(exists|i: int| from <= i < b.size() && b.cells[i] == SquareState::Empty)
            ==> best_val(ai, b, layer, maximizing, from) == if maximizing {
            ALPHA_FLOOR as int
        } else {
            BETA_CEIL as int
        },
    decreases layer, vstd::math::max(b.size() - from, 0),
{
    if from < b.size() {
        lemma_best_val_range(ai, b, layer, maximizing, from + 1);
        if b.cells[from] == SquareState::Empty {
            lemma_child_val_range(ai, b, from, layer, maximizing);
        }
    }
}

/// The value of playing one empty cell lies between the loss and win
/// utilities.
pub proof fn lemma_child_val_range(ai: Ai, b: BoardView, i: int, layer: int, maximizing: bool)
    requires
        b.wf(),
        0 <= i < b.size(),
        b.cells[i] == SquareState::Empty,
        layer >= 1,
    ensures
        LOSS_SCORE <= child_val(ai, b, i, layer, maximizing) <= WIN_SCORE,
    decreases layer, 0int,
{
    let b2 = b.place(i, ai.mover_square(maximizing));
    lemma_gen_score_range(ai, b, i, maximizing);
    crate::tictactoe_core::lemma_place_wf(b, i, ai.mover_square(maximizing));
    crate::tictactoe_core::lemma_count_filled_bounds(b2.cells);
    lemma_node_val_range(
        ai,
        b2,
        gen_state(ai, b, i, maximizing),
        gen_score(ai, b, i, maximizing),
        layer - 1,
        !maximizing,
    );
}

/// At any search depth, a position holding an immediately winning move
/// for the maximizing side is worth exactly the win score: no other
/// move can be worth more, and the winning move keeps its terminal
/// value however deep the search runs.
pub proof fn lemma_win_dominates(ai: Ai, b: BoardView, i: int, layer: int)
    requires
        b.wf(),
        0 <= i < b.size(),
        b.cells[i] == SquareState::Empty,
        gen_state(ai, b, i, true) == TurnState::Victory,
        layer >= 1,
    ensures
        best_val(ai, b, layer, true, 0) == WIN_SCORE,
{
    assert(child_val(ai, b, i, layer, true) == WIN_SCORE);
    lemma_best_val_ge_child(ai, b, layer, true, 0, i);
    assert forall|j: int|
        0 <= j < b.size() && b.cells[j] == SquareState::Empty implies child_val(
        ai,
        b,
        j,
        layer,
        true,
    ) <= WIN_SCORE by {
        lemma_child_val_range(ai, b, j, layer, true);
    }
    lemma_best_val_bounded(ai, b, layer, true, 0, WIN_SCORE as int);
}

/// A terminal win dominates the heuristic: at one remaining ply, if
/// some empty cell wins the game at once for the maximizing side, the
/// search value of the position is the win score, and only cells that
/// win at once achieve that value.
pub proof fn lemma_forced_win(ai: Ai, b: BoardView, i: int)
    requires
        b.wf(),
        0 <= i < b.size(),
        b.cells[i] == SquareState::Empty,
        gen_state(ai, b, i, true) == TurnState::Victory,
    ensures
        best_val(ai, b, 1, true, 0) == WIN_SCORE,
        forall|j: int|
            0 <= j < b.size() && b.cells[j] == SquareState::Empty && child_val(ai, b, j, 1, true)
                == WIN_SCORE ==> gen_state(ai, b, j, true) == TurnState::Victory,
{
    assert(child_val(ai, b, i, 1, true) == gen_score(ai, b, i, true));
    lemma_best_val_ge_child(ai, b, 1, true, 0, i);
    assert forall|j: int|
        0 <= j < b.size() && b.cells[j] == SquareState::Empty implies child_val(ai, b, j, 1, true)
        <= WIN_SCORE && (child_val(ai, b, j, 1, true) == WIN_SCORE ==> gen_state(ai, b, j, true)
        == TurnState::Victory) by {
        assert(child_val(ai, b, j, 1, true) == gen_score(ai, b, j, true));
        lemma_gen_score_range(ai, b, j, true);
    }
    lemma_best_val_bounded(ai, b, 1, true, 0, WIN_SCORE as int);
}

/// The move the one-ply search settles on completes a line at once
/// whenever any move does: its value equals the search value of the
/// position, which the previous lemma pins at the win score.
pub proof fn lemma_act_forced_win(ai: Ai, b: BoardView, chosen: int, i: int)
    requires
        b.wf(),
        0 <= i < b.size(),
        b.cells[i] == SquareState::Empty,
        gen_state(ai, b, i, true) == TurnState::Victory,
        0 <= chosen < b.size(),
        b.cells[chosen] == SquareState::Empty,
        child_val(ai, b, chosen, 1, true) == best_val(ai, b, 1, true, 0),
    ensures
        gen_state(ai, b, chosen, true) == TurnState::Victory,
{
    lemma_forced_win(ai, b, i);
}

/// The fixed utility of a draw lies strictly between the utility of a
/// win for either side.
pub proof fn lemma_draw_value_between(ai: Ai, b: BoardView, i: int, own_turn: bool)
    requires
        b.wf(),
        0 <= i < b.size(),
        b.cells[i] == SquareState::Empty,
        gen_state(ai, b, i, own_turn) == TurnState::Draw,
    ensures
        gen_score(ai, b, i, own_turn) == DRAW_SCORE,
        LOSS_SCORE < DRAW_SCORE < WIN_SCORE,
{
}

/// The best value among the first `n` candidates of a list of move
/// values, from the perspective of the side given by `own_turn`; the
/// search floor or ceiling when no candidate is taken.
pub open spec fn best_of_first(vals: Seq<int>, n: int, own_turn: bool) -> int
    decreases n,
{
    if n <= 0 {
        if own_turn {
            ALPHA_FLOOR as int
        } else {
            BETA_CEIL as int
        }
    } else {
        let rest = best_of_first(vals, n - 1, own_turn);
        let v = vals[n - 1];
        if own_turn {
            if v >= rest {
                v
            } else {
                rest
            }
        } else {
            if v <= rest {
                v
            } else {
                rest
            }
        }
    }
}

/// Raising the candidate cap cannot hurt the mover: the best value
/// achievable among the first `n + 1` candidates of a move list is at
/// least as good, from the mover's perspective, as the best among the
/// first `n`.
pub proof fn lemma_cap_monotone(vals: Seq<int>, n: int, own_turn: bool)
    requires
        0 <= n < vals.len(),
    ensures
        own_turn ==> best_of_first(vals, n + 1, own_turn) >= best_of_first(vals, n, own_turn),
        !own_turn ==> best_of_first(vals, n + 1, own_turn) <= best_of_first(vals, n, own_turn),
{
}

/// What one alpha-beta step promises about the unpruned minimax value
/// `v` of its node, in terms of the returned score `r0` and move index
/// `r1`: exact strictly inside the (alpha, beta) window, an upper bound
/// on `v` at or below alpha, a lower bound on `v` at or beyond beta;
/// and inside the window the returned index is a move worth `r0`.
pub open spec fn ab_spec(
    ai: Ai,
    node: MoveNode,
    alpha: int,
    beta: int,
    layer: int,
    maximizing: bool,
    r0: int,
    r1: int,
) -> bool {
    let v = node_val(ai, node.board@, node.state, node.score as int, layer, maximizing);
    &&& (r0 <= alpha ==> v <= r0)
    &&& (alpha < r0 < beta ==> r0 == v)
    &&& (r0 >= beta ==> v >= r0)
    &&& ((layer >= 1 && node.state == TurnState::Continue && alpha < r0 < beta) ==> r0
        == child_val(ai, node.board@, r1, layer, maximizing))
}

/// Relies on rand's `SliceRandom::shuffle` (a Fisher-Yates shuffle that
/// only swaps elements of the slice in place): the result holds exactly
/// the elements it was given, rearranged in some order.
#[verifier::external_body]
fn shuffle_moves(moves: &mut Vec<MoveNode>)
    ensures
        final(moves)@.to_multiset() == old(moves)@.to_multiset(),
{
    moves.shuffle(&mut rand::thread_rng());
}

/// Whether `a` scores at least as well as `b` in the order the pruner
/// sorts by: ascending scores when `ascending` is set, else descending.
pub open spec fn sorted_before(ascending: bool, a: i64, b: i64) -> bool {
    if ascending {
        a <= b
    } else {
        a >= b
    }
}

/// Whether score `a` is at least as good as score `b` for the side
/// given by `own_turn`.
pub open spec fn at_least_as_good(own_turn: bool, a: int, b: int) -> bool {
    if own_turn {
        a >= b
    } else {
        a <= b
    }
}

impl Ai {
    /// Sorts candidates by score, ascending or descending; the result
    /// holds exactly the given candidates.
    fn sort_moves(moves: &mut Vec<MoveNode>, ascending: bool)
        ensures
            final(moves)@.to_multiset() == old(moves)@.to_multiset(),
            final(moves)@.len() == old(moves)@.len(),
            forall|p: int, q: int|
                0 <= p < q < final(moves)@.len() ==> sorted_before(
                    ascending,
                    final(moves)@[p].score,
                    final(moves)@[q].score,
                ),
    {
        proof {
            broadcast use vstd::seq_lib::group_to_multiset_ensures;
        }
        let ghost orig = moves@;
        let mut out: Vec<MoveNode> = Vec::new();
        while moves.len() > 0
            invariant
                out@.to_multiset().add(moves@.to_multiset()) =~= orig.to_multiset(),
                forall|p: int, q: int|
                    0 <= p < q < out@.len() ==> sorted_before(
                        ascending,
                        out@[p].score,
                        out@[q].score,
                    ),
                forall|p: int, q: int|
                    0 <= p < out@.len() && 0 <= q < moves@.len() ==> sorted_before(
                        ascending,
                        out@[p].score,
                        moves@[q].score,
                    ),
            decreases moves@.len(),
        {
            let mut best: usize = 0;
            let mut j: usize = 1;
            while j < moves.len()
                invariant
                    0 < moves@.len(),
                    best < j <= moves@.len(),
                    forall|q: int|
                        0 <= q < j ==> sorted_before(
                            ascending,
                            moves@[best as int].score,
                            moves@[q].score,
                        ),
                decreases moves@.len() - j,
            {
                let better = if ascending {
                    moves[j].score < moves[best].score
                } else {
                    moves[j].score > moves[best].score
                };
                if better {
                    best = j;
                }
                j = j + 1;
            }
            proof {
                broadcast use vstd::seq_lib::group_to_multiset_ensures;
            }
            let ghost pre_remove = moves@;
            let ghost pre_out = out@;
            let m = moves.remove(best);
            out.push(m);
            proof {
                assert forall|p: int, q: int|
                    0 <= p < q < out@.len() implies sorted_before(
                    ascending,
                    out@[p].score,
                    out@[q].score,
                ) by {
                    assert(out@[p] == pre_out[p]);
                    if q == out@.len() - 1 {
                        assert(out@[q] == pre_remove[best as int]);
                        assert(sorted_before(ascending, pre_out[p].score, pre_remove[best as int].score));
                    } else {
                        assert(out@[q] == pre_out[q]);
                        assert(sorted_before(ascending, pre_out[p].score, pre_out[q].score));
                    }
                }
                assert forall|p: int, q: int|
                    0 <= p < out@.len() && 0 <= q < moves@.len() implies sorted_before(
                    ascending,
                    out@[p].score,
                    moves@[q].score,
                ) by {
                    let q0: int = if q < best { q } else { q + 1 };
                    assert(moves@[q] == pre_remove[q0]);
                    if p == out@.len() - 1 {
                        assert(out@[p] == pre_remove[best as int]);
                        assert(sorted_before(ascending, pre_remove[best as int].score, pre_remove[q0].score));
                    } else {
                        assert(sorted_before(ascending, pre_out[p].score, pre_remove[q0].score));
                    }
                }
            }
        }
        proof {
            broadcast use vstd::seq_lib::group_to_multiset_ensures;

            assert forall|x: MoveNode|
                #[trigger] out@.to_multiset().count(x) == orig.to_multiset().count(x) by {
                assert(out@.to_multiset().add(moves@.to_multiset()).count(x) == out@.to_multiset().count(
                    x,
                ) + moves@.to_multiset().count(x));
                assert(moves@.to_multiset().count(x) == 0) by {
                    assert(!moves@.contains(x));
                }
            }
            assert(out@.to_multiset() =~= orig.to_multiset());
            assert(out@.to_multiset().len() == out@.len());
            assert(orig.to_multiset().len() == orig.len());
        }
        *moves = out;
    }

    /// Every legal move on `current_board` for the side to move, each
    /// applied to its own copy of the board and scored.  With a positive
    /// candidate cap and more candidates than the cap, only the
    /// best-scoring ones are kept.  The order of the result is
    /// arbitrary.
    fn get_possible_moves(&self, current_board: &TicTacToe, own_turn: bool) -> (moves: Vec<MoveNode>)
        requires
            current_board.wf(),
        ensures
            forall|j: int|
                0 <= j < moves@.len() ==> move_ok(*self, current_board@, own_turn, #[trigger] moves@[j]),
            (exists|i: int|
                0 <= i < current_board@.size() && current_board@.cells[i] == SquareState::Empty)
                ==> moves@.len() >= 1,
            self.max_moves_to_analyze == 0 ==> (forall|i: int|
                0 <= i < current_board@.size() && current_board@.cells[i] == SquareState::Empty
                    ==> exists|j: int| 0 <= j < moves@.len() && moves@[j].index == i),
            forall|j: int, i: int|
                #![trigger moves@[j], gen_score(*self, current_board@, i, own_turn)]
                0 <= j < moves@.len() && 0 <= i < current_board@.size()
                    && current_board@.cells[i] == SquareState::Empty && !covers(moves@, i)
                    ==> at_least_as_good(
                    own_turn,
                    moves@[j].score as int,
                    gen_score(*self, current_board@, i, own_turn),
                ),
    {
        let ghost b = current_board@;
        let mut moves: Vec<MoveNode> = Vec::new();
        let n = current_board.squares.len();
        let mut i: usize = 0;
        while i < n
            invariant
                current_board.wf(),
                b == current_board@,
                n == b.size(),
                i <= n,
                forall|j: int|
                    0 <= j < moves@.len() ==> move_ok(*self, b, own_turn, #[trigger] moves@[j]),
                forall|c: int|
                    0 <= c < i && b.cells[c] == SquareState::Empty ==> exists|j: int|
                        0 <= j < moves@.len() && moves@[j].index == c,
            decreases n - i,
        {
            let sq = current_board.squares[i];
            if sq == SquareState::Empty {
                let square_state = if own_turn {
                    SquareState::Filled(self.symbol)
                } else {
                    SquareState::Filled(self.op_symbol)
                };
                let mut board_binding = current_board.clone_board();
                let move_state = board_binding.set_square_from_index(i, square_state);
                let score: i64 = match move_state {
                    TurnState::Draw => DRAW_SCORE,
                    TurnState::Victory => if own_turn {
                        WIN_SCORE
                    } else {
                        LOSS_SCORE
                    },
                    _ => self.get_move_heuristic(&board_binding, square_state, i, own_turn),
                };
                proof {
                    crate::tictactoe_core::lemma_count_filled_bounds(board_binding@.cells);
                    if move_state == TurnState::Continue {
                        lemma_heuristic_bound(
                            b.place(i as int, self.mover_square(own_turn)),
                            i as int % b.xs,
                            i as int / b.xs,
                            self.mover_square(own_turn),
                            self.other_square(own_turn),
                        );
                    }
                }
                let node = MoveNode { board: board_binding, index: i, state: move_state, score };
                proof {
                    assert(move_ok(*self, b, own_turn, node));
                }
                let ghost pre_push = moves@;
                moves.push(node);
                proof {
                    assert forall|c: int|
                        0 <= c < i + 1 && b.cells[c] == SquareState::Empty implies exists|j: int|
                        0 <= j < moves@.len() && moves@[j].index == c by {
                        if c == i as int {
                            assert(moves@[moves@.len() - 1].index == c);
                        } else {
                            let j0 = choose|j0: int|
                                0 <= j0 < pre_push.len() && pre_push[j0].index == c;
                            assert(moves@[j0].index == c);
                        }
                    }
                }
            }
            i = i + 1;
        }
        if self.max_moves_to_analyze > 0 && moves.len() > self.max_moves_to_analyze {
            let ghost pre_sort = moves@;
            Ai::sort_moves(&mut moves, !own_turn);
            let ghost sorted_seq = moves@;
            proof {
                broadcast use vstd::seq_lib::group_to_multiset_ensures;

                assert forall|j: int|
                    0 <= j < sorted_seq.len() implies move_ok(
                    *self,
                    b,
                    own_turn,
                    #[trigger] sorted_seq[j],
                ) by {
                    assert(sorted_seq.contains(sorted_seq[j]));
                    assert(sorted_seq.to_multiset().count(sorted_seq[j]) > 0);
                    assert(pre_sort.to_multiset().count(sorted_seq[j]) > 0);
                    assert(pre_sort.contains(sorted_seq[j]));
                    let j0 = choose|j0: int|
                        0 <= j0 < pre_sort.len() && pre_sort[j0] == sorted_seq[j];
                    assert(move_ok(*self, b, own_turn, pre_sort[j0]));
                }
                assert forall|c: int|
                    0 <= c < b.size() && b.cells[c] == SquareState::Empty implies exists|j: int|
                    0 <= j < sorted_seq.len() && (#[trigger] sorted_seq[j]).index == c by {
                    let j0 = choose|j0: int| 0 <= j0 < pre_sort.len() && pre_sort[j0].index == c;
                    let m = pre_sort[j0];
                    assert(pre_sort.contains(m));
                    assert(pre_sort.to_multiset().count(m) > 0);
                    assert(sorted_seq.to_multiset().count(m) > 0);
                    assert(sorted_seq.contains(m));
                    let j1 = choose|j1: int| 0 <= j1 < sorted_seq.len() && sorted_seq[j1] == m;
                    assert(sorted_seq[j1].index == c);
                }
            }
            moves.truncate(self.max_moves_to_analyze);
            proof {
                // the kept candidates are the best-scoring prefix: any
                // legal move the cut dropped scores no better
                assert forall|j: int, i: int|
                    #![trigger moves@[j], gen_score(*self, b, i, own_turn)]
                    0 <= j < moves@.len() && 0 <= i < b.size() && b.cells[i] == SquareState::Empty
                        && !covers(moves@, i) implies at_least_as_good(
                    own_turn,
                    moves@[j].score as int,
                    gen_score(*self, b, i, own_turn),
                ) by {
                    let j0 = choose|j0: int|
                        0 <= j0 < sorted_seq.len() && (#[trigger] sorted_seq[j0]).index == i;
                    if j0 < moves@.len() {
                        assert(moves@[j0] == sorted_seq[j0]);
                        assert(moves@[j0].index == i);
                        assert(covers(moves@, i));
                    }
                    assert(moves@[j] == sorted_seq[j]);
                    assert(sorted_before(!own_turn, sorted_seq[j].score, sorted_seq[j0].score));
                    assert(move_ok(*self, b, own_turn, sorted_seq[j0]));
                }
            }
        } else {
            proof {
                // nothing was cut, so every legal move is in the list
                assert forall|j: int, i: int|
                    #![trigger moves@[j], gen_score(*self, b, i, own_turn)]
                    0 <= j < moves@.len() && 0 <= i < b.size() && b.cells[i] == SquareState::Empty
                        && !covers(moves@, i) implies at_least_as_good(
                    own_turn,
                    moves@[j].score as int,
                    gen_score(*self, b, i, own_turn),
                ) by {
                    let jw = choose|jw: int| 0 <= jw < moves@.len() && moves@[jw].index == i;
                    assert(moves@[jw].index == i);
                    assert(covers(moves@, i));
                }
            }
        }
        let ghost pre_shuffle = moves@;
        shuffle_moves(&mut moves);
        proof {
            broadcast use vstd::seq_lib::group_to_multiset_ensures;

            assert(moves@.len() == pre_shuffle.len()) by {
                assert(moves@.to_multiset().len() == moves@.len());
                assert(pre_shuffle.to_multiset().len() == pre_shuffle.len());
            }
            assert forall|j: int|
                0 <= j < moves@.len() implies move_ok(*self, b, own_turn, #[trigger] moves@[j]) by {
                assert(moves@.contains(moves@[j]));
                assert(moves@.to_multiset().count(moves@[j]) > 0);
                assert(pre_shuffle.to_multiset().count(moves@[j]) > 0);
                assert(pre_shuffle.contains(moves@[j]));
                let j0 = choose|j0: int| 0 <= j0 < pre_shuffle.len() && pre_shuffle[j0] == moves@[j];
                assert(move_ok(*self, b, own_turn, pre_shuffle[j0]));
            }
            if self.max_moves_to_analyze == 0 {
                assert forall|c: int|
                    0 <= c < b.size() && b.cells[c] == SquareState::Empty implies exists|j: int|
                    0 <= j < moves@.len() && moves@[j].index == c by {
                    let j0 = choose|j0: int|
                        0 <= j0 < pre_shuffle.len() && pre_shuffle[j0].index == c;
                    let m = pre_shuffle[j0];
                    assert(pre_shuffle.contains(m));
                    assert(pre_shuffle.to_multiset().count(m) > 0);
                    assert(moves@.to_multiset().count(m) > 0);
                    assert(moves@.contains(m));
                    let j1 = choose|j1: int| 0 <= j1 < moves@.len() && moves@[j1] == m;
                    assert(moves@[j1].index == c);
                }
            }
            assert forall|j: int, i: int|
                #![trigger moves@[j], gen_score(*self, b, i, own_turn)]
                0 <= j < moves@.len() && 0 <= i < b.size() && b.cells[i] == SquareState::Empty
                    && !covers(moves@, i) implies at_least_as_good(
                own_turn,
                moves@[j].score as int,
                gen_score(*self, b, i, own_turn),
            ) by {
                assert(!covers(pre_shuffle, i)) by {
                    if covers(pre_shuffle, i) {
                        let j2 = choose|j2: int|
                            0 <= j2 < pre_shuffle.len() && (#[trigger] pre_shuffle[j2]).index == i;
                        let m = pre_shuffle[j2];
                        assert(pre_shuffle.contains(m));
                        assert(pre_shuffle.to_multiset().count(m) > 0);
                        assert(moves@.to_multiset().count(m) > 0);
                        assert(moves@.contains(m));
                        let j3 = choose|j3: int| 0 <= j3 < moves@.len() && moves@[j3] == m;
                        assert(moves@[j3].index == i);
                        assert(covers(moves@, i));
                    }
                }
                assert(moves@.contains(moves@[j]));
                assert(moves@.to_multiset().count(moves@[j]) > 0);
                assert(pre_shuffle.to_multiset().count(moves@[j]) > 0);
                assert(pre_shuffle.contains(moves@[j]));
                let j0 = choose|j0: int| 0 <= j0 < pre_shuffle.len() && pre_shuffle[j0] == moves@[j];
                assert(at_least_as_good(
                    own_turn,
                    pre_shuffle[j0].score as int,
                    gen_score(*self, b, i, own_turn),
                ));
            }
        }
        moves
    }

    /// One alpha-beta step of the search.  A leaf node (no depth left,
    /// or its move ended the game) returns its own score and index.
    /// Otherwise the result names a legal move of the node's board, and
    /// — when no candidate cap cuts the move lists — its score relates
    /// to the unpruned minimax value of the node as `ab_spec` states, so
    /// with a wide-open window the search equals plain minimax.
    fn compute_next_move(&self, current_node: &MoveNode, parent_alpha: i64, parent_beta: i64, layer: usize, maximizing: bool) -> (r: (i64, usize))
        requires
            current_node.board.wf(),
            LOSS_SCORE <= current_node.score <= WIN_SCORE,
            current_node.state == TurnState::Continue ==> current_node.board@.filled
                < current_node.board@.size(),
            ALPHA_FLOOR <= parent_alpha,
            parent_alpha < parent_beta,
            parent_beta <= BETA_CEIL,
        ensures
            LOSS_SCORE <= r.0 <= WIN_SCORE,
            (layer == 0 || current_node.state != TurnState::Continue) ==> r.0
                == current_node.score && r.1 == current_node.index,
            (layer >= 1 && current_node.state == TurnState::Continue) ==> r.1
                < current_node.board@.size() && current_node.board@.cells[r.1 as int]
                == SquareState::Empty,
            self.max_moves_to_analyze == 0 ==> ab_spec(
                *self,
                *current_node,
                parent_alpha as int,
                parent_beta as int,
                layer as int,
                maximizing,
                r.0 as int,
                r.1 as int,
            ),
        decreases layer,
    {
        let ghost b = current_node.board@;
        if layer == 0 || current_node.state != TurnState::Continue {
            return (current_node.score, current_node.index);
        }
        proof {
            crate::tictactoe_core::lemma_filled_cells(b);
        }
        let possible_moves = self.get_possible_moves(&current_node.board, maximizing);
        let ghost mv = possible_moves@;
        let n = possible_moves.len();
        if maximizing {
            let mut best_score: i64 = ALPHA_FLOOR;
            let mut best_index: usize = 0;
            let mut alpha = parent_alpha;
            let mut t: usize = 0;
            while t < n && alpha < parent_beta
                invariant
                    b.wf(),
                    b == current_node.board@,
                    current_node.state == TurnState::Continue,
                    maximizing,
                    1 <= layer,
                    ALPHA_FLOOR <= parent_alpha,
                    parent_alpha < parent_beta,
                    parent_beta <= BETA_CEIL,
                    n == mv.len(),
                    1 <= n,
                    mv == possible_moves@,
                    forall|j: int| 0 <= j < n ==> move_ok(*self, b, true, #[trigger] mv[j]),
                    self.max_moves_to_analyze == 0 ==> (forall|i: int|
                        0 <= i < b.size() && b.cells[i] == SquareState::Empty ==> exists|j: int|
                            0 <= j < n && mv[j].index == i),
                    t <= n,
                    alpha == if best_score > parent_alpha {
                        best_score
                    } else {
                        parent_alpha
                    },
                    t == 0 ==> best_score == ALPHA_FLOOR,
                    t >= 1 ==> LOSS_SCORE <= best_score <= WIN_SCORE,
                    t >= 1 ==> exists|j: int| 0 <= j < n && best_index == (#[trigger] mv[j]).index,
                    self.max_moves_to_analyze == 0 && t >= 1 && parent_alpha < best_score
                        && best_score < parent_beta ==> child_val(
                        *self,
                        b,
                        best_index as int,
                        layer as int,
                        true,
                    ) == best_score,
                    self.max_moves_to_analyze == 0 && t >= 1 && best_score >= parent_beta
                        ==> child_val(*self, b, best_index as int, layer as int, true)
                        >= best_score,
                    self.max_moves_to_analyze == 0 && best_score < parent_beta ==> (forall|j: int|
                        0 <= j < t ==> child_val(
                            *self,
                            b,
                            (#[trigger] mv[j]).index as int,
                            layer as int,
                            true,
                        ) <= best_score),
                decreases n - t,
            {
                let m = &possible_moves[t];
                proof {
                    assert(move_ok(*self, b, true, mv[t as int]));
                }
                let ghost a_call = alpha as int;
                let (childs_best, _ci) = self.compute_next_move(m, alpha, parent_beta, layer - 1, false);
                let ghost cb = childs_best as int;
                let ghost cv = child_val(*self, b, m.index as int, layer as int, true);
                proof {
                    if self.max_moves_to_analyze == 0 {
                        assert(cv == node_val(
                            *self,
                            m.board@,
                            m.state,
                            m.score as int,
                            layer as int - 1,
                            false,
                        ));
                        assert(cb <= a_call ==> cv <= cb);
                        assert(a_call < cb < parent_beta ==> cv == cb);
                        assert(cb >= parent_beta ==> cv >= cb);
                    }
                }
                if best_score < childs_best {
                    best_score = childs_best;
                    best_index = m.index;
                }
                if alpha < best_score {
                    alpha = best_score;
                }
                proof {
                    if self.max_moves_to_analyze == 0 && best_score < parent_beta {
                        assert forall|j: int| 0 <= j < t + 1 implies child_val(
                            *self,
                            b,
                            (#[trigger] mv[j]).index as int,
                            layer as int,
                            true,
                        ) <= best_score by {
                            if j == t {
                                assert(cv <= best_score);
                            }
                        }
                    }
                }
                t = t + 1;
            }
            proof {
                let ghost rv = best_score as int;
                let ghost v = node_val(
                    *self,
                    b,
                    TurnState::Continue,
                    current_node.score as int,
                    layer as int,
                    true,
                );
                assert(v == best_val(*self, b, layer as int, true, 0));
                if self.max_moves_to_analyze == 0 {
                    if alpha < parent_beta {
                        // the whole list was scanned without a cutoff
                        assert(t == n);
                        assert(best_score < parent_beta);
                        assert forall|i: int|
                            0 <= i < b.size() && b.cells[i] == SquareState::Empty implies child_val(
                            *self,
                            b,
                            i,
                            layer as int,
                            true,
                        ) <= rv by {
                            let j = choose|j: int| 0 <= j < n && mv[j].index == i;
                            assert(child_val(*self, b, mv[j].index as int, layer as int, true)
                                <= best_score);
                        }
                        lemma_best_val_bounded(*self, b, layer as int, true, 0, rv);
                        if parent_alpha < best_score {
                            assert(child_val(*self, b, best_index as int, layer as int, true)
                                == rv);
                            let j = choose|j: int| 0 <= j < n && best_index == mv[j].index;
                            assert(move_ok(*self, b, true, mv[j]));
                            lemma_best_val_ge_child(
                                *self,
                                b,
                                layer as int,
                                true,
                                0,
                                best_index as int,
                            );
                        }
                    } else {
                        // cutoff: the score already reached the beta bound
                        assert(best_score >= parent_beta);
                        assert(child_val(*self, b, best_index as int, layer as int, true) >= rv);
                        let j = choose|j: int| 0 <= j < n && best_index == mv[j].index;
                        assert(move_ok(*self, b, true, mv[j]));
                        lemma_best_val_ge_child(*self, b, layer as int, true, 0, best_index as int);
                    }
                }
                let j = choose|j: int| 0 <= j < n && best_index == mv[j].index;
                assert(move_ok(*self, b, true, mv[j]));
            }
            (best_score, best_index)
        } else {
            let mut best_score: i64 = BETA_CEIL;
            let mut best_index: usize = 0;
            let mut beta = parent_beta;
            let mut t: usize = 0;
            while t < n && parent_alpha < beta
                invariant
                    b.wf(),
                    b == current_node.board@,
                    current_node.state == TurnState::Continue,
                    !maximizing,
                    1 <= layer,
                    ALPHA_FLOOR <= parent_alpha,
                    parent_alpha < parent_beta,
                    parent_beta <= BETA_CEIL,
                    n == mv.len(),
                    1 <= n,
                    mv == possible_moves@,
                    forall|j: int| 0 <= j < n ==> move_ok(*self, b, false, #[trigger] mv[j]),
                    self.max_moves_to_analyze == 0 ==> (forall|i: int|
                        0 <= i < b.size() && b.cells[i] == SquareState::Empty ==> exists|j: int|
                            0 <= j < n && mv[j].index == i),
                    t <= n,
                    beta == if best_score < parent_beta {
                        best_score
                    } else {
                        parent_beta
                    },
                    t == 0 ==> best_score == BETA_CEIL,
                    t >= 1 ==> LOSS_SCORE <= best_score <= WIN_SCORE,
                    t >= 1 ==> exists|j: int| 0 <= j < n && best_index == (#[trigger] mv[j]).index,
                    self.max_moves_to_analyze == 0 && t >= 1 && parent_alpha < best_score
                        && best_score < parent_beta ==> child_val(
                        *self,
                        b,
                        best_index as int,
                        layer as int,
                        false,
                    ) == best_score,
                    self.max_moves_to_analyze == 0 && t >= 1 && best_score <= parent_alpha
                        ==> child_val(*self, b, best_index as int, layer as int, false)
                        <= best_score,
                    self.max_moves_to_analyze == 0 && best_score > parent_alpha ==> (forall|j: int|
                        0 <= j < t ==> child_val(
                            *self,
                            b,
                            (#[trigger] mv[j]).index as int,
                            layer as int,
                            false,
                        ) >= best_score),
                decreases n - t,
            {
                let m = &possible_moves[t];
                proof {
                    assert(move_ok(*self, b, false, mv[t as int]));
                }
                let ghost b_call = beta as int;
                let (childs_best, _ci) = self.compute_next_move(m, parent_alpha, beta, layer - 1, true);
                let ghost cb = childs_best as int;
                let ghost cv = child_val(*self, b, m.index as int, layer as int, false);
                proof {
                    if self.max_moves_to_analyze == 0 {
                        assert(cv == node_val(
                            *self,
                            m.board@,
                            m.state,
                            m.score as int,
                            layer as int - 1,
                            true,
                        ));
                        assert(cb <= parent_alpha ==> cv <= cb);
                        assert(parent_alpha < cb < b_call ==> cv == cb);
                        assert(cb >= b_call ==> cv >= cb);
                    }
                }
                if best_score > childs_best {
                    best_score = childs_best;
                    best_index = m.index;
                }
                if beta > best_score {
                    beta = best_score;
                }
                proof {
                    if self.max_moves_to_analyze == 0 && best_score > parent_alpha {
                        assert forall|j: int| 0 <= j < t + 1 implies child_val(
                            *self,
                            b,
                            (#[trigger] mv[j]).index as int,
                            layer as int,
                            false,
                        ) >= best_score by {
                            if j == t {
                                assert(cv >= best_score);
                            }
                        }
                    }
                }
                t = t + 1;
            }
            proof {
                let ghost rv = best_score as int;
                let ghost v = node_val(
                    *self,
                    b,
                    TurnState::Continue,
                    current_node.score as int,
                    layer as int,
                    false,
                );
                assert(v == best_val(*self, b, layer as int, false, 0));
                if self.max_moves_to_analyze == 0 {
                    if parent_alpha < beta {
                        // the whole list was scanned without a cutoff
                        assert(t == n);
                        assert(best_score > parent_alpha);
                        assert forall|i: int|
                            0 <= i < b.size() && b.cells[i] == SquareState::Empty implies child_val(
                            *self,
                            b,
                            i,
                            layer as int,
                            false,
                        ) >= rv by {
                            let j = choose|j: int| 0 <= j < n && mv[j].index == i;
                            assert(child_val(*self, b, mv[j].index as int, layer as int, false)
                                >= best_score);
                        }
                        lemma_best_val_bounded(*self, b, layer as int, false, 0, rv);
                        if best_score < parent_beta {
                            assert(child_val(*self, b, best_index as int, layer as int, false)
                                == rv);
                            let j = choose|j: int| 0 <= j < n && best_index == mv[j].index;
                            assert(move_ok(*self, b, false, mv[j]));
                            lemma_best_val_ge_child(
                                *self,
                                b,
                                layer as int,
                                false,
                                0,
                                best_index as int,
                            );
                        }
                    } else {
                        // cutoff: the score already reached the alpha bound
                        assert(best_score <= parent_alpha);
                        assert(child_val(*self, b, best_index as int, layer as int, false) <= rv);
                        let j = choose|j: int| 0 <= j < n && best_index == mv[j].index;
                        assert(move_ok(*self, b, false, mv[j]));
                        lemma_best_val_ge_child(*self, b, layer as int, false, 0, best_index as int);
                    }
                }
                let j = choose|j: int| 0 <= j < n && best_index == mv[j].index;
                assert(move_ok(*self, b, false, mv[j]));
            }
            (best_score, best_index)
        }
    }

    /// Picks the agent's next move: the coordinate of an empty cell of
    /// `current_board`.  The board itself is never changed; the search
    /// works on its own copies.  With no candidate cap the chosen cell
    /// achieves exactly the unpruned minimax value of the position at
    /// the configured depth (with `max_layers` 0, the search runs to
    /// the end of the game).
    pub fn act(&mut self, current_board: TicTacToe) -> (r: (usize, usize))
        requires
            current_board.wf(),
            current_board@.filled < current_board@.size(),
        ensures
            *final(self) == *old(self),
            r.0 < current_board@.xs,
            r.1 < current_board@.ys,
            current_board@.at(r.0 as int, r.1 as int) == SquareState::Empty,
            old(self).max_moves_to_analyze == 0 ==> ({
                let layers = if old(self).max_layers == 0 {
                    current_board@.size() - current_board@.filled
                } else {
                    old(self).max_layers as int
                };
                child_val(
                    *old(self),
                    current_board@,
                    current_board@.idx(r.0 as int, r.1 as int),
                    layers,
                    true,
                ) == best_val(*old(self), current_board@, layers, true, 0)
            }),
    {
        let ghost b = current_board@;
        proof {
            crate::tictactoe_core::lemma_filled_cells(b);
        }
        let layers = if self.max_layers == 0 {
            current_board.size() - current_board.filled
        } else {
            self.max_layers
        };
        let root = MoveNode {
            board: current_board.clone_board(),
            index: 0,
            state: TurnState::Continue,
            score: DRAW_SCORE,
        };
        let result = self.compute_next_move(&root, ALPHA_FLOOR, BETA_CEIL, layers, true);
        proof {
            if self.max_moves_to_analyze == 0 {
                // every score lies strictly inside the full window, so
                // the root value is exact
                assert(ALPHA_FLOOR < result.0 < BETA_CEIL);
            }
        }
        current_board.get_index_coord(result.1)
    }
}

} // verus!
